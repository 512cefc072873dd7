//! Protocol buffer wire format: varints, field keys and skipping of
//! unknown fields, with the semantics of the `prost` decoder.

use vstd::prelude::*;

verus! {

/// The recursion budget that a decoder starts a message with.
pub const RECURSION_LIMIT: u32 = 100;

/// The six wire types of the protocol buffer encoding.
#[derive(Clone, Copy, Debug, PartialEq, Eq, Structural)]
pub enum WireType {
    Varint,
    SixtyFourBit,
    LengthDelimited,
    StartGroup,
    EndGroup,
    ThirtyTwoBit,
}

/// Why a protocol buffer message could not be decoded.
#[derive(Clone, Copy, Debug, PartialEq, Eq, Structural)]
pub enum DecodeError {
    /// A varint ran past the end of the input, was longer than ten bytes,
    /// or did not fit in 64 bits.
    InvalidVarint,
    /// A field key that does not fit in 32 bits.
    InvalidKeyValue(u64),
    /// A field key whose low three bits name no wire type.
    InvalidWireTypeValue(u64),
    /// A field key with tag zero.
    InvalidTag,
    /// A known field encoded with the wrong wire type.
    UnexpectedWireType { actual: WireType, expected: WireType },
    /// A length or fixed-size field that runs past the end of the input.
    BufferUnderflow,
    /// An embedded message whose fields run past its declared length.
    DelimitedLengthExceeded,
    /// Groups nested deeper than the recursion budget.
    RecursionLimitReached,
    /// An end-group key without a matching start-group key.
    UnexpectedEndGroupTag,
}

/// 128 to the power `n`.
pub open spec fn pow128(n: nat) -> nat
    decreases n,
{
    if n == 0 {
        1
    } else {
        128 * pow128((n - 1) as nat)
    }
}

/// The varint whose `k`-th byte stands at `s[pos + k]`, read from that byte
/// on: its value (from byte `k` on) and the number of bytes it takes from
/// `pos`. A varint has at most ten bytes, and its tenth byte is 0 or 1.
pub open spec fn varint_from(s: Seq<u8>, pos: int, k: nat) -> Option<(nat, nat)>
    decreases 10 - k,
{
    if k >= 10 || pos < 0 || pos + k >= s.len() {
        None
    } else {
        let b = s[pos + k];
        if b < 128 {
            if k == 9 && b > 1 {
                None
            } else {
                Some((b as nat, k + 1))
            }
        } else {
            match varint_from(s, pos, k + 1) {
                Some((v, n)) => Some(((b - 128) as nat + 128 * v, n)),
                None => None,
            }
        }
    }
}

/// The varint at `pos`: its value and its length in bytes.
pub open spec fn varint_at(s: Seq<u8>, pos: int) -> Option<(nat, nat)> {
    varint_from(s, pos, 0)
}

/// A varint's value is below 128 to the power of its byte count; a ten-byte
/// varint is below 2^64.
pub proof fn lemma_varint_from_bound(s: Seq<u8>, pos: int, k: nat)
    requires
        varint_from(s, pos, k) is Some,
    ensures
        ({
            let (v, n) = varint_from(s, pos, k).unwrap();
            &&& k < n <= 10
            &&& pos + n <= s.len()
            &&& v < pow128((n - k) as nat)
            &&& n == 10 ==> v < 2 * pow128((9 - k) as nat)
        }),
    decreases 10 - k,
{
    let b = s[pos + k];
    assert(pow128(0) == 1);
    assert(pow128(1) == 128);
    if b >= 128 {
        lemma_varint_from_bound(s, pos, k + 1);
        let (v, n) = varint_from(s, pos, k + 1).unwrap();
        assert(pow128((n - k) as nat) == 128 * pow128((n - (k + 1)) as nat));
        if n == 10 {
            assert(pow128((9 - k) as nat) == 128 * pow128((9 - (k + 1)) as nat));
        }
    }
}

/// Every varint fits in 64 bits and takes one to ten bytes of the input.
pub proof fn lemma_varint_at(s: Seq<u8>, pos: int)
    requires
        varint_at(s, pos) is Some,
    ensures
        ({
            let (v, n) = varint_at(s, pos).unwrap();
            &&& 0 < n <= 10
            &&& pos + n <= s.len()
            &&& v <= u64::MAX
        }),
{
    lemma_varint_from_bound(s, pos, 0);
    let (v, n) = varint_at(s, pos).unwrap();
    if n < 10 {
        lemma_pow128_mono(n, 9);
    }
    assert(pow128(9) == 0x8000_0000_0000_0000) by {
        reveal_with_fuel(pow128, 10);
    }
}

pub proof fn lemma_pow128_mono(a: nat, b: nat)
    requires
        a <= b,
    ensures
        1 <= pow128(a) <= pow128(b),
    decreases b,
{
    if b > 0 {
        if a < b {
            lemma_pow128_mono(a, (b - 1) as nat);
        } else {
            lemma_pow128_mono((a - 1) as nat, (b - 1) as nat);
        }
    }
}

/// Bytes `j..k` of the varint at `pos` all carry the continuation bit and
/// the varint read from byte `k` fails: then it fails from byte `j` too.
proof fn lemma_varint_from_none(s: Seq<u8>, pos: int, j: nat, k: nat)
    requires
        j <= k,
        pos >= 0,
        pos + k <= s.len(),
        forall|i: int| pos + j <= i < pos + k ==> s[i] >= 128,
        varint_from(s, pos, k) is None,
    ensures
        varint_from(s, pos, j) is None,
    decreases k - j,
{
    if j < k {
        lemma_varint_from_none(s, pos, j + 1, k);
    }
}

/// Decodes the varint at `pos`; returns its value and the position after it.
pub fn decode_varint(s: &[u8], pos: usize) -> (r: Result<(u64, usize), DecodeError>)
    requires
        pos <= s@.len(),
    ensures
        match varint_at(s@, pos as int) {
            Some((v, n)) => r matches Ok((x, p)) && x as nat == v && p == pos + n,
            None => r == Err::<(u64, usize), DecodeError>(DecodeError::InvalidVarint),
        },
{
    let len = s.len();
    let mut k: usize = 0;
    while k < 10 && k < len - pos && s[pos + k] >= 128
        invariant
            pos <= len == s@.len(),
            k <= 10,
            k <= len - pos,
            forall|i: int| pos <= i < pos + k ==> s@[i] >= 128,
        decreases 10 - k,
    {
        k = k + 1;
    }
    if k == 10 || k >= len - pos || (k == 9 && s[pos + k] > 1) {
        proof {
            lemma_varint_from_none(s@, pos as int, 0, k as nat);
        }
        return Err(DecodeError::InvalidVarint);
    }
    let mut acc: u128 = s[pos + k] as u128;
    let mut j: usize = k;
    proof {
        lemma_pow128_mono(1, 10);
        assert(pow128(10) == 0x40_0000_0000_0000_0000) by {
            reveal_with_fuel(pow128, 11);
        }
    }
    while j > 0
        invariant
            pos <= len == s@.len(),
            j <= k < 10,
            pos + k < len,
            forall|i: int| pos <= i < pos + k ==> s@[i] >= 128,
            varint_from(s@, pos as int, j as nat) == Some(((acc as nat), (k + 1) as nat)),
            acc < pow128((k + 1 - j) as nat),
            pow128(10) == 0x40_0000_0000_0000_0000,
        decreases j,
    {
        j = j - 1;
        let b: u8 = s[pos + j];
        proof {
            lemma_pow128_mono((k + 1 - j) as nat, 10);
            assert(pow128((k + 1 - j) as nat) == 128 * pow128((k + 1 - (j + 1)) as nat));
        }
        acc = acc * 128 + (b - 128) as u128;
    }
    proof {
        lemma_varint_at(s@, pos as int);
    }
    Ok((acc as u64, pos + k + 1))
}


/// The wire type named by the low three bits of a field key.
pub open spec fn wire_type_of(v: nat) -> WireType {
    if v == 0 {
        WireType::Varint
    } else if v == 1 {
        WireType::SixtyFourBit
    } else if v == 2 {
        WireType::LengthDelimited
    } else if v == 3 {
        WireType::StartGroup
    } else if v == 4 {
        WireType::EndGroup
    } else {
        WireType::ThirtyTwoBit
    }
}

/// The field key at `pos`: its tag, its wire type and the position after it.
pub open spec fn key_at(s: Seq<u8>, pos: int) -> Result<(u32, WireType, int), DecodeError> {
    match varint_at(s, pos) {
        None => Err(DecodeError::InvalidVarint),
        Some((v, n)) => if v > u32::MAX {
            Err(DecodeError::InvalidKeyValue(v as u64))
        } else if v % 8 > 5 {
            Err(DecodeError::InvalidWireTypeValue((v % 8) as u64))
        } else if v / 8 == 0 {
            Err(DecodeError::InvalidTag)
        } else {
            Ok(((v / 8) as u32, wire_type_of(v % 8), pos + n))
        },
    }
}

/// Skips the value of a field with the given wire type and tag that starts
/// at `pos`, with `depth` levels of group nesting left; gives the position
/// after the value.
pub open spec fn skip_field(s: Seq<u8>, pos: int, wt: WireType, tag: u32, depth: nat) -> Result<
    int,
    DecodeError,
>
    decreases depth, s.len() - pos, 1nat,
{
    if depth == 0 {
        Err(DecodeError::RecursionLimitReached)
    } else {
        match wt {
            WireType::Varint => match varint_at(s, pos) {
                None => Err(DecodeError::InvalidVarint),
                Some((_, n)) => Ok(pos + n),
            },
            WireType::ThirtyTwoBit => if 4 > s.len() - pos {
                Err(DecodeError::BufferUnderflow)
            } else {
                Ok(pos + 4)
            },
            WireType::SixtyFourBit => if 8 > s.len() - pos {
                Err(DecodeError::BufferUnderflow)
            } else {
                Ok(pos + 8)
            },
            WireType::LengthDelimited => match varint_at(s, pos) {
                None => Err(DecodeError::InvalidVarint),
                Some((l, n)) => if l > s.len() - (pos + n) {
                    Err(DecodeError::BufferUnderflow)
                } else {
                    Ok(pos + n + l)
                },
            },
            WireType::StartGroup => skip_group(s, pos, tag, depth),
            WireType::EndGroup => Err(DecodeError::UnexpectedEndGroupTag),
        }
    }
}

/// Skips the fields of a group opened with `tag`, up to and including the
/// matching end-group key that starts at or after `pos`.
pub open spec fn skip_group(s: Seq<u8>, pos: int, tag: u32, depth: nat) -> Result<int, DecodeError>
    decreases depth, s.len() - pos, 0nat,
{
    if depth == 0 {
        Err(DecodeError::RecursionLimitReached)
    } else {
        match key_at(s, pos) {
            Err(e) => Err(e),
            Ok((t, w, p1)) => if w == WireType::EndGroup {
                if t != tag {
                    Err(DecodeError::UnexpectedEndGroupTag)
                } else {
                    Ok(p1)
                }
            } else {
                match skip_field(s, p1, w, t, (depth - 1) as nat) {
                    Err(e) => Err(e),
                    // The guard never fails (skipping moves forward and stays
                    // inside the input); it makes the recursion visibly finite.
                    Ok(p2) => if pos < p2 <= s.len() {
                        skip_group(s, p2, tag, depth)
                    } else {
                        Err(DecodeError::BufferUnderflow)
                    },
                }
            },
        }
    }
}

/// A field key takes at least one byte and lies inside the input.
pub proof fn lemma_key_at(s: Seq<u8>, pos: int)
    requires
        key_at(s, pos) is Ok,
    ensures
        0 <= pos < key_at(s, pos)->Ok_0.2 <= s.len(),
{
    lemma_varint_at(s, pos);
}

/// Skipping a field moves forward and stays inside the input.
pub proof fn lemma_skip_field(s: Seq<u8>, pos: int, wt: WireType, tag: u32, depth: nat)
    requires
        0 <= pos <= s.len(),
        skip_field(s, pos, wt, tag, depth) is Ok,
    ensures
        pos <= skip_field(s, pos, wt, tag, depth)->Ok_0 <= s.len(),
    decreases depth, s.len() - pos, 1nat,
{
    match wt {
        WireType::Varint => lemma_varint_at(s, pos),
        WireType::LengthDelimited => lemma_varint_at(s, pos),
        WireType::StartGroup => lemma_skip_group(s, pos, tag, depth),
        _ => {},
    }
}

/// Skipping a group moves forward and stays inside the input.
pub proof fn lemma_skip_group(s: Seq<u8>, pos: int, tag: u32, depth: nat)
    requires
        0 <= pos <= s.len(),
        skip_group(s, pos, tag, depth) is Ok,
    ensures
        pos < skip_group(s, pos, tag, depth)->Ok_0 <= s.len(),
    decreases depth, s.len() - pos, 0nat,
{
    lemma_key_at(s, pos);
    let (t, w, p1) = key_at(s, pos)->Ok_0;
    if w != WireType::EndGroup {
        let p2 = skip_field(s, p1, w, t, (depth - 1) as nat)->Ok_0;
        lemma_skip_group(s, p2, tag, depth);
    }
}

/// Decodes the field key at `pos`.
pub fn decode_field_key(s: &[u8], pos: usize) -> (r: Result<(u32, WireType, usize), DecodeError>)
    requires
        pos <= s@.len(),
    ensures
        match key_at(s@, pos as int) {
            Ok((t, w, p)) => r matches Ok((t2, w2, p2)) && t2 == t && w2 == w && p2 == p,
            Err(e) => r == Err::<(u32, WireType, usize), DecodeError>(e),
        },
        r matches Ok((_, _, p)) ==> pos < p <= s@.len(),
{
    let (v, p) = match decode_varint(s, pos) {
        Ok(x) => x,
        Err(e) => return Err(e),
    };
    proof {
        lemma_varint_at(s@, pos as int);
    }
    if v > 0xffff_ffff {
        return Err(DecodeError::InvalidKeyValue(v));
    }
    let w: u64 = v % 8;
    let wt = if w == 0 {
        WireType::Varint
    } else if w == 1 {
        WireType::SixtyFourBit
    } else if w == 2 {
        WireType::LengthDelimited
    } else if w == 3 {
        WireType::StartGroup
    } else if w == 4 {
        WireType::EndGroup
    } else if w == 5 {
        WireType::ThirtyTwoBit
    } else {
        return Err(DecodeError::InvalidWireTypeValue(w));
    };
    let tag: u64 = v / 8;
    if tag == 0 {
        return Err(DecodeError::InvalidTag);
    }
    Ok((tag as u32, wt, p))
}

/// Skips the value of a field with wire type `wt` and tag `tag` that starts
/// at `pos`, with `depth` levels of group nesting left.
pub fn skip_field_value(s: &[u8], pos: usize, wt: WireType, tag: u32, depth: u32) -> (r: Result<
    usize,
    DecodeError,
>)
    requires
        pos <= s@.len(),
    ensures
        match skip_field(s@, pos as int, wt, tag, depth as nat) {
            Ok(p) => r matches Ok(q) && q == p && pos <= p <= s@.len(),
            Err(e) => r == Err::<usize, DecodeError>(e),
        },
    decreases depth,
{
    if depth == 0 {
        return Err(DecodeError::RecursionLimitReached);
    }
    let len = s.len();
    match wt {
        WireType::Varint => {
            let (_, p) = match decode_varint(s, pos) {
                Ok(x) => x,
                Err(e) => return Err(e),
            };
            proof {
                lemma_varint_at(s@, pos as int);
            }
            Ok(p)
        },
        WireType::ThirtyTwoBit => {
            if 4 > len - pos {
                Err(DecodeError::BufferUnderflow)
            } else {
                Ok(pos + 4)
            }
        },
        WireType::SixtyFourBit => {
            if 8 > len - pos {
                Err(DecodeError::BufferUnderflow)
            } else {
                Ok(pos + 8)
            }
        },
        WireType::LengthDelimited => {
            let (l, p) = match decode_varint(s, pos) {
                Ok(x) => x,
                Err(e) => return Err(e),
            };
            proof {
                lemma_varint_at(s@, pos as int);
            }
            if l > (len - p) as u64 {
                Err(DecodeError::BufferUnderflow)
            } else {
                Ok(p + l as usize)
            }
        },
        WireType::EndGroup => Err(DecodeError::UnexpectedEndGroupTag),
        WireType::StartGroup => {
            let mut cur: usize = pos;
            loop
                invariant
                    depth > 0,
                    pos <= cur <= len == s@.len(),
                    skip_field(s@, pos as int, wt, tag, depth as nat) == skip_group(
                        s@,
                        cur as int,
                        tag,
                        depth as nat,
                    ),
                    wt == WireType::StartGroup,
                decreases len - cur,
            {
                let (t, w, p1) = match decode_field_key(s, cur) {
                    Ok(x) => x,
                    Err(e) => return Err(e),
                };
                if w == WireType::EndGroup {
                    if t != tag {
                        return Err(DecodeError::UnexpectedEndGroupTag);
                    }
                    return Ok(p1);
                }
                let p2 = match skip_field_value(s, p1, w, t, depth - 1) {
                    Ok(p) => p,
                    Err(e) => return Err(e),
                };
                if !(cur < p2 && p2 <= len) {
                    return Err(DecodeError::BufferUnderflow);
                }
                cur = p2;
            }
        },
    }
}


/// The varint encoding of `v`: seven bits per byte, least significant
/// first, with the high bit set on every byte but the last.
pub open spec fn varint_bytes(v: nat) -> Seq<u8>
    decreases v,
{
    if v < 128 {
        seq![v as u8]
    } else {
        seq![(v % 128 + 128) as u8] + varint_bytes(v / 128)
    }
}

/// A value below `128^m` takes at most `m` bytes.
pub proof fn lemma_varint_bytes_len(v: nat, m: nat)
    requires
        1 <= m,
        v < pow128(m),
    ensures
        1 <= varint_bytes(v).len() <= m,
    decreases v,
{
    if v >= 128 {
        assert(pow128(m) == 128 * pow128((m - 1) as nat));
        if m == 1 {
            assert(pow128(0) == 1);
        } else {
            lemma_varint_bytes_len(v / 128, (m - 1) as nat);
        }
    }
}

/// Reading back the encoding of `v` (from byte `k` of a varint on) gives
/// `v`, as long as `v` fits in what bytes `k..10` can hold.
proof fn lemma_varint_from_bytes(s: Seq<u8>, pos: int, k: nat, v: nat)
    requires
        0 <= pos,
        k <= 9,
        v < 2 * pow128((9 - k) as nat),
        pos + k + varint_bytes(v).len() <= s.len(),
        s.subrange(pos + k, pos + k + varint_bytes(v).len()) == varint_bytes(v),
    ensures
        varint_from(s, pos, k) == Some((v, k + varint_bytes(v).len())),
    decreases v,
{
    let vb = varint_bytes(v);
    assert(s[pos + k] == s.subrange(pos + k, pos + k + vb.len())[0]);
    if v >= 128 {
        if k == 9 {
            assert(pow128(0) == 1);
        }
        assert(pow128((9 - k) as nat) == 128 * pow128((9 - (k + 1)) as nat));
        let rest = varint_bytes(v / 128);
        assert(s.subrange(pos + k + 1, pos + k + 1 + rest.len()) =~= s.subrange(
            pos + k,
            pos + k + vb.len(),
        ).subrange(1, vb.len() as int));
        assert(vb.subrange(1, vb.len() as int) =~= rest);
        lemma_varint_from_bytes(s, pos, k + 1, v / 128);
    } else {
        assert(pow128(0) == 1);
    }
}

/// The encoding of a 64-bit value, found at `pos`, reads back as that value.
pub proof fn lemma_varint_roundtrip(s: Seq<u8>, pos: int, v: nat)
    requires
        0 <= pos,
        v <= u64::MAX,
        pos + varint_bytes(v).len() <= s.len(),
        s.subrange(pos, pos + varint_bytes(v).len()) == varint_bytes(v),
    ensures
        varint_at(s, pos) == Some((v, varint_bytes(v).len())),
        varint_bytes(v).len() <= 10,
{
    assert(pow128(9) == 0x8000_0000_0000_0000) by {
        reveal_with_fuel(pow128, 10);
    }
    lemma_varint_from_bytes(s, pos, 0, v);
    lemma_varint_from_bound(s, pos, 0);
}

/// Appends the varint encoding of `v` to `out`.
pub fn encode_varint(v: u64, out: &mut Vec<u8>)
    ensures
        final(out)@ == old(out)@ + varint_bytes(v as nat),
{
    let mut x: u64 = v;
    while x >= 128
        invariant
            out@ + varint_bytes(x as nat) == old(out)@ + varint_bytes(v as nat),
        decreases x,
    {
        let b: u8 = (x % 128 + 128) as u8;
        proof {
            assert(varint_bytes(x as nat) == seq![b] + varint_bytes((x / 128) as nat));
            assert(out@.push(b) + varint_bytes((x / 128) as nat) =~= out@ + (seq![b]
                + varint_bytes((x / 128) as nat)));
        }
        out.push(b);
        x = x / 128;
    }
    proof {
        assert(varint_bytes(x as nat) == seq![x as u8]);
        assert(out@.push(x as u8) =~= out@ + seq![x as u8]);
    }
    out.push(x as u8);
}

} // verus!
