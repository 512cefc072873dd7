//! The protocol buffer messages of X-AES-GCM keys: `XAesGcmParams`
//! (`uint32 salt_size = 1`), `XAesGcmKeyFormat` (`uint32 version = 1`,
//! `XAesGcmParams params = 3`) and `XAesGcmKey` (`uint32 version = 1`,
//! `XAesGcmParams params = 2`, `bytes key_value = 3`), decoded and encoded
//! as `prost` does it for proto3 messages.

use vstd::prelude::*;
use crate::wire::{
    decode_field_key, decode_varint, encode_varint, key_at, lemma_key_at, lemma_skip_field,
    lemma_varint_at, lemma_varint_bytes_len, lemma_varint_roundtrip, pow128, skip_field,
    skip_field_value, varint_at, varint_bytes, wire_type_of, DecodeError, WireType,
    RECURSION_LIMIT,
};

verus! {

/// Parameters of an X-AES-GCM key.
#[derive(Clone, Copy, Debug, PartialEq, Eq, Structural)]
pub struct XAesGcmParams {
    /// Size of the per-message salt in bytes.
    pub salt_size: u32,
}

/// The specification of a new X-AES-GCM key.
#[derive(Clone, Copy, Debug, PartialEq, Eq, Structural)]
pub struct XAesGcmKeyFormat {
    pub version: u32,
    pub params: Option<XAesGcmParams>,
}

/// An X-AES-GCM key.
#[derive(Clone, Debug)]
pub struct XAesGcmKey {
    pub version: u32,
    pub params: Option<XAesGcmParams>,
    pub key_value: Vec<u8>,
}

/// What an [`XAesGcmKey`] holds, as a mathematical value.
pub struct XAesGcmKeyModel {
    pub version: u32,
    pub params: Option<XAesGcmParams>,
    pub key_value: Seq<u8>,
}

impl View for XAesGcmKey {
    type V = XAesGcmKeyModel;

    open spec fn view(&self) -> XAesGcmKeyModel {
        XAesGcmKeyModel { version: self.version, params: self.params, key_value: self.key_value@ }
    }
}

/// The empty key: every field at its default value.
pub open spec fn default_key_model() -> XAesGcmKeyModel {
    XAesGcmKeyModel { version: 0, params: None, key_value: Seq::empty() }
}

/// The empty key format.
pub open spec fn default_key_format() -> XAesGcmKeyFormat {
    XAesGcmKeyFormat { version: 0, params: None }
}

// ---------------------------------------------------------------------
// Decoding
// ---------------------------------------------------------------------

/// A `uint32` field value at `pos` with wire type `wt`: the low 32 bits of a
/// varint, and the position after it.
pub open spec fn uint32_at(s: Seq<u8>, pos: int, wt: WireType) -> Result<(u32, int), DecodeError> {
    if wt != WireType::Varint {
        Err(DecodeError::UnexpectedWireType { actual: wt, expected: WireType::Varint })
    } else {
        match varint_at(s, pos) {
            None => Err(DecodeError::InvalidVarint),
            Some((v, n)) => Ok(((v % 0x1_0000_0000) as u32, pos + n)),
        }
    }
}

/// A `bytes` field value at `pos` with wire type `wt`, and the position
/// after it.
pub open spec fn bytes_at(s: Seq<u8>, pos: int, wt: WireType) -> Result<(Seq<u8>, int), DecodeError> {
    if wt != WireType::LengthDelimited {
        Err(DecodeError::UnexpectedWireType { actual: wt, expected: WireType::LengthDelimited })
    } else {
        match varint_at(s, pos) {
            None => Err(DecodeError::InvalidVarint),
            Some((l, n)) => if l > s.len() - (pos + n) {
                Err(DecodeError::BufferUnderflow)
            } else {
                Ok((s.subrange(pos + n, pos + n + l), pos + n + l))
            },
        }
    }
}

/// The fields of an `XAesGcmParams` between `pos` and `end`, merged into a
/// salt size of `salt`; `depth` levels of group nesting are left.
pub open spec fn params_fields(s: Seq<u8>, pos: int, end: int, salt: u32, depth: nat) -> Result<
    u32,
    DecodeError,
>
    decreases s.len() - pos,
{
    if pos >= end {
        if pos == end {
            Ok(salt)
        } else {
            Err(DecodeError::DelimitedLengthExceeded)
        }
    } else {
        match key_at(s, pos) {
            Err(e) => Err(e),
            Ok((tag, wt, p1)) => {
                proof {
                    lemma_key_at(s, pos);
                }
                if tag == 1 {
                    match uint32_at(s, p1, wt) {
                        Err(e) => Err(e),
                        Ok((v, p2)) => {
                            proof {
                                lemma_varint_at(s, p1);
                            }
                            params_fields(s, p2, end, v, depth)
                        },
                    }
                } else {
                    match skip_field(s, p1, wt, tag, depth) {
                        Err(e) => Err(e),
                        Ok(p2) => {
                            proof {
                                lemma_skip_field(s, p1, wt, tag, depth);
                            }
                            params_fields(s, p2, end, salt, depth)
                        },
                    }
                }
            },
        }
    }
}

/// An embedded `XAesGcmParams` at `pos` with wire type `wt`, merged into
/// `current`, with a recursion budget of `depth`; and the position after it.
pub open spec fn embedded_params(
    s: Seq<u8>,
    pos: int,
    wt: WireType,
    current: Option<XAesGcmParams>,
    depth: nat,
) -> Result<(XAesGcmParams, int), DecodeError> {
    if wt != WireType::LengthDelimited {
        Err(DecodeError::UnexpectedWireType { actual: wt, expected: WireType::LengthDelimited })
    } else if depth == 0 {
        Err(DecodeError::RecursionLimitReached)
    } else {
        match varint_at(s, pos) {
            None => Err(DecodeError::InvalidVarint),
            Some((l, n)) => if l > s.len() - (pos + n) {
                Err(DecodeError::BufferUnderflow)
            } else {
                let start = match current {
                    Some(p) => p.salt_size,
                    None => 0u32,
                };
                match params_fields(s, pos + n, pos + n + l, start, (depth - 1) as nat) {
                    Err(e) => Err(e),
                    Ok(salt) => Ok((XAesGcmParams { salt_size: salt }, pos + n + l)),
                }
            },
        }
    }
}


/// One field of an `XAesGcmKey`, with tag `tag` and wire type `wt`, whose
/// value starts at `pos`, merged into `k`; and the position after it.
pub open spec fn key_field(s: Seq<u8>, pos: int, tag: u32, wt: WireType, k: XAesGcmKeyModel) -> Result<
    (XAesGcmKeyModel, int),
    DecodeError,
> {
    if tag == 1 {
        match uint32_at(s, pos, wt) {
            Err(e) => Err(e),
            Ok((v, p)) => Ok(
                (XAesGcmKeyModel { version: v, params: k.params, key_value: k.key_value }, p),
            ),
        }
    } else if tag == 2 {
        match embedded_params(s, pos, wt, k.params, RECURSION_LIMIT as nat) {
            Err(e) => Err(e),
            Ok((pr, p)) => Ok(
                (XAesGcmKeyModel { version: k.version, params: Some(pr), key_value: k.key_value }, p),
            ),
        }
    } else if tag == 3 {
        match bytes_at(s, pos, wt) {
            Err(e) => Err(e),
            Ok((b, p)) => Ok(
                (XAesGcmKeyModel { version: k.version, params: k.params, key_value: b }, p),
            ),
        }
    } else {
        match skip_field(s, pos, wt, tag, RECURSION_LIMIT as nat) {
            Err(e) => Err(e),
            Ok(p) => Ok((k, p)),
        }
    }
}

/// A field value moves forward and stays inside the input.
pub proof fn lemma_key_field(s: Seq<u8>, pos: int, tag: u32, wt: WireType, k: XAesGcmKeyModel)
    requires
        0 <= pos <= s.len(),
        key_field(s, pos, tag, wt, k) is Ok,
    ensures
        pos <= key_field(s, pos, tag, wt, k)->Ok_0.1 <= s.len(),
{
    if tag == 1 || tag == 2 || tag == 3 {
        lemma_varint_at(s, pos);
    } else {
        lemma_skip_field(s, pos, wt, tag, RECURSION_LIMIT as nat);
    }
}

/// The fields of an `XAesGcmKey` from `pos` to the end of the input, merged
/// into `k`.
pub open spec fn key_fields(s: Seq<u8>, pos: int, k: XAesGcmKeyModel) -> Result<
    XAesGcmKeyModel,
    DecodeError,
>
    decreases s.len() - pos,
{
    if pos >= s.len() {
        Ok(k)
    } else {
        match key_at(s, pos) {
            Err(e) => Err(e),
            Ok((tag, wt, p1)) => match key_field(s, p1, tag, wt, k) {
                Err(e) => Err(e),
                Ok((k2, p2)) => {
                    proof {
                        lemma_key_at(s, pos);
                        lemma_key_field(s, p1, tag, wt, k);
                    }
                    key_fields(s, p2, k2)
                },
            },
        }
    }
}

/// The `XAesGcmKey` that the bytes `s` encode, or why they encode none.
pub open spec fn decode_key_spec(s: Seq<u8>) -> Result<XAesGcmKeyModel, DecodeError> {
    key_fields(s, 0, default_key_model())
}

/// One field of an `XAesGcmKeyFormat`, merged into `f`.
pub open spec fn key_format_field(
    s: Seq<u8>,
    pos: int,
    tag: u32,
    wt: WireType,
    f: XAesGcmKeyFormat,
) -> Result<(XAesGcmKeyFormat, int), DecodeError> {
    if tag == 1 {
        match uint32_at(s, pos, wt) {
            Err(e) => Err(e),
            Ok((v, p)) => Ok((XAesGcmKeyFormat { version: v, params: f.params }, p)),
        }
    } else if tag == 3 {
        match embedded_params(s, pos, wt, f.params, RECURSION_LIMIT as nat) {
            Err(e) => Err(e),
            Ok((pr, p)) => Ok((XAesGcmKeyFormat { version: f.version, params: Some(pr) }, p)),
        }
    } else {
        match skip_field(s, pos, wt, tag, RECURSION_LIMIT as nat) {
            Err(e) => Err(e),
            Ok(p) => Ok((f, p)),
        }
    }
}

pub proof fn lemma_key_format_field(
    s: Seq<u8>,
    pos: int,
    tag: u32,
    wt: WireType,
    f: XAesGcmKeyFormat,
)
    requires
        0 <= pos <= s.len(),
        key_format_field(s, pos, tag, wt, f) is Ok,
    ensures
        pos <= key_format_field(s, pos, tag, wt, f)->Ok_0.1 <= s.len(),
{
    if tag == 1 || tag == 3 {
        lemma_varint_at(s, pos);
    } else {
        lemma_skip_field(s, pos, wt, tag, RECURSION_LIMIT as nat);
    }
}

/// The fields of an `XAesGcmKeyFormat` from `pos` to the end of the input,
/// merged into `f`.
pub open spec fn key_format_fields(s: Seq<u8>, pos: int, f: XAesGcmKeyFormat) -> Result<
    XAesGcmKeyFormat,
    DecodeError,
>
    decreases s.len() - pos,
{
    if pos >= s.len() {
        Ok(f)
    } else {
        match key_at(s, pos) {
            Err(e) => Err(e),
            Ok((tag, wt, p1)) => match key_format_field(s, p1, tag, wt, f) {
                Err(e) => Err(e),
                Ok((f2, p2)) => {
                    proof {
                        lemma_key_at(s, pos);
                        lemma_key_format_field(s, p1, tag, wt, f);
                    }
                    key_format_fields(s, p2, f2)
                },
            },
        }
    }
}

/// The `XAesGcmKeyFormat` that the bytes `s` encode, or why they encode none.
pub open spec fn decode_key_format_spec(s: Seq<u8>) -> Result<XAesGcmKeyFormat, DecodeError> {
    key_format_fields(s, 0, default_key_format())
}


/// Reads a `uint32` field value at `pos` with wire type `wt`.
fn read_uint32(s: &[u8], pos: usize, wt: WireType) -> (r: Result<(u32, usize), DecodeError>)
    requires
        pos <= s@.len(),
    ensures
        match uint32_at(s@, pos as int, wt) {
            Ok((v, p)) => r matches Ok((v2, p2)) && v2 == v && p2 == p && pos < p <= s@.len(),
            Err(e) => r == Err::<(u32, usize), DecodeError>(e),
        },
{
    if wt != WireType::Varint {
        return Err(DecodeError::UnexpectedWireType { actual: wt, expected: WireType::Varint });
    }
    let (v, p) = match decode_varint(s, pos) {
        Ok(x) => x,
        Err(e) => return Err(e),
    };
    proof {
        lemma_varint_at(s@, pos as int);
    }
    Ok(((v % 0x1_0000_0000) as u32, p))
}

/// Copies `s[start..end]` into a new vector.
fn copy_range(s: &[u8], start: usize, end: usize) -> (r: Vec<u8>)
    requires
        start <= end <= s@.len(),
    ensures
        r@ == s@.subrange(start as int, end as int),
{
    let mut r: Vec<u8> = Vec::new();
    let mut i: usize = start;
    while i < end
        invariant
            start <= i <= end <= s@.len(),
            r@ == s@.subrange(start as int, i as int),
        decreases end - i,
    {
        r.push(s[i]);
        i = i + 1;
    }
    r
}

/// Reads a `bytes` field value at `pos` with wire type `wt`.
fn read_bytes(s: &[u8], pos: usize, wt: WireType) -> (r: Result<(Vec<u8>, usize), DecodeError>)
    requires
        pos <= s@.len(),
    ensures
        match bytes_at(s@, pos as int, wt) {
            Ok((b, p)) => r matches Ok((b2, p2)) && b2@ == b && p2 == p && pos < p <= s@.len(),
            Err(e) => r matches Err(e2) && e2 == e,
        },
{
    if wt != WireType::LengthDelimited {
        return Err(
            DecodeError::UnexpectedWireType { actual: wt, expected: WireType::LengthDelimited },
        );
    }
    let (l, p) = match decode_varint(s, pos) {
        Ok(x) => x,
        Err(e) => return Err(e),
    };
    proof {
        lemma_varint_at(s@, pos as int);
    }
    if l > (s.len() - p) as u64 {
        return Err(DecodeError::BufferUnderflow);
    }
    let end: usize = p + l as usize;
    Ok((copy_range(s, p, end), end))
}

/// Merges the fields of an `XAesGcmParams` between `pos` and `end` into
/// the salt size `salt`.
fn merge_params_fields(s: &[u8], pos: usize, end: usize, salt: u32, depth: u32) -> (r: Result<
    u32,
    DecodeError,
>)
    requires
        pos <= end <= s@.len(),
    ensures
        match params_fields(s@, pos as int, end as int, salt, depth as nat) {
            Ok(v) => r == Ok::<u32, DecodeError>(v),
            Err(e) => r == Err::<u32, DecodeError>(e),
        },
{
    let mut cur: usize = pos;
    let mut cur_salt: u32 = salt;
    while cur < end
        invariant
            cur <= s@.len(),
            end <= s@.len(),
            params_fields(s@, pos as int, end as int, salt, depth as nat) == params_fields(
                s@,
                cur as int,
                end as int,
                cur_salt,
                depth as nat,
            ),
        decreases s@.len() - cur,
    {
        let (tag, wt, p1) = match decode_field_key(s, cur) {
            Ok(x) => x,
            Err(e) => return Err(e),
        };
        if tag == 1 {
            let (v, p2) = match read_uint32(s, p1, wt) {
                Ok(x) => x,
                Err(e) => return Err(e),
            };
            cur_salt = v;
            cur = p2;
        } else {
            cur = match skip_field_value(s, p1, wt, tag, depth) {
                Ok(p) => p,
                Err(e) => return Err(e),
            };
        }
    }
    if cur == end {
        Ok(cur_salt)
    } else {
        Err(DecodeError::DelimitedLengthExceeded)
    }
}


/// Reads an embedded `XAesGcmParams` at `pos` with wire type `wt`, merged
/// into `current`, with a recursion budget of `depth`.
fn read_embedded_params(
    s: &[u8],
    pos: usize,
    wt: WireType,
    current: Option<XAesGcmParams>,
    depth: u32,
) -> (r: Result<(XAesGcmParams, usize), DecodeError>)
    requires
        pos <= s@.len(),
    ensures
        match embedded_params(s@, pos as int, wt, current, depth as nat) {
            Ok((pr, p)) => r matches Ok((pr2, p2)) && pr2 == pr && p2 == p && pos < p <= s@.len(),
            Err(e) => r == Err::<(XAesGcmParams, usize), DecodeError>(e),
        },
{
    if wt != WireType::LengthDelimited {
        return Err(
            DecodeError::UnexpectedWireType { actual: wt, expected: WireType::LengthDelimited },
        );
    }
    if depth == 0 {
        return Err(DecodeError::RecursionLimitReached);
    }
    let (l, p) = match decode_varint(s, pos) {
        Ok(x) => x,
        Err(e) => return Err(e),
    };
    proof {
        lemma_varint_at(s@, pos as int);
    }
    if l > (s.len() - p) as u64 {
        return Err(DecodeError::BufferUnderflow);
    }
    let end: usize = p + l as usize;
    let start: u32 = match current {
        Some(pr) => pr.salt_size,
        None => 0,
    };
    match merge_params_fields(s, p, end, start, depth - 1) {
        Ok(salt) => Ok((XAesGcmParams { salt_size: salt }, end)),
        Err(e) => Err(e),
    }
}

impl XAesGcmKey {
    /// Decodes an `XAesGcmKey` from its protocol buffer encoding.
    pub fn decode(s: &[u8]) -> (r: Result<XAesGcmKey, DecodeError>)
        ensures
            match decode_key_spec(s@) {
                Ok(k) => r matches Ok(key) && key@ == k,
                Err(e) => r matches Err(e2) && e2 == e,
            },
    {
        let mut version: u32 = 0;
        let mut params: Option<XAesGcmParams> = None;
        let mut key_value: Vec<u8> = Vec::new();
        let mut cur: usize = 0;
        let len = s.len();
        while cur < len
            invariant
                cur <= len == s@.len(),
                decode_key_spec(s@) == key_fields(
                    s@,
                    cur as int,
                    XAesGcmKeyModel { version, params, key_value: key_value@ },
                ),
            decreases len - cur,
        {
            let (tag, wt, p1) = match decode_field_key(s, cur) {
                Ok(x) => x,
                Err(e) => return Err(e),
            };
            if tag == 1 {
                let (v, p2) = match read_uint32(s, p1, wt) {
                    Ok(x) => x,
                    Err(e) => return Err(e),
                };
                version = v;
                cur = p2;
            } else if tag == 2 {
                let (pr, p2) = match read_embedded_params(s, p1, wt, params, RECURSION_LIMIT) {
                    Ok(x) => x,
                    Err(e) => return Err(e),
                };
                params = Some(pr);
                cur = p2;
            } else if tag == 3 {
                let (b, p2) = match read_bytes(s, p1, wt) {
                    Ok(x) => x,
                    Err(e) => return Err(e),
                };
                key_value = b;
                cur = p2;
            } else {
                cur = match skip_field_value(s, p1, wt, tag, RECURSION_LIMIT) {
                    Ok(p) => p,
                    Err(e) => return Err(e),
                };
            }
        }
        Ok(XAesGcmKey { version, params, key_value })
    }
}

impl XAesGcmKeyFormat {
    /// Decodes an `XAesGcmKeyFormat` from its protocol buffer encoding.
    pub fn decode(s: &[u8]) -> (r: Result<XAesGcmKeyFormat, DecodeError>)
        ensures
            match decode_key_format_spec(s@) {
                Ok(f) => r == Ok::<XAesGcmKeyFormat, DecodeError>(f),
                Err(e) => r == Err::<XAesGcmKeyFormat, DecodeError>(e),
            },
    {
        let mut f = XAesGcmKeyFormat { version: 0, params: None };
        let mut cur: usize = 0;
        let len = s.len();
        while cur < len
            invariant
                cur <= len == s@.len(),
                decode_key_format_spec(s@) == key_format_fields(s@, cur as int, f),
            decreases len - cur,
        {
            let (tag, wt, p1) = match decode_field_key(s, cur) {
                Ok(x) => x,
                Err(e) => return Err(e),
            };
            if tag == 1 {
                let (v, p2) = match read_uint32(s, p1, wt) {
                    Ok(x) => x,
                    Err(e) => return Err(e),
                };
                f = XAesGcmKeyFormat { version: v, params: f.params };
                cur = p2;
            } else if tag == 3 {
                let (pr, p2) = match read_embedded_params(s, p1, wt, f.params, RECURSION_LIMIT) {
                    Ok(x) => x,
                    Err(e) => return Err(e),
                };
                f = XAesGcmKeyFormat { version: f.version, params: Some(pr) };
                cur = p2;
            } else {
                cur = match skip_field_value(s, p1, wt, tag, RECURSION_LIMIT) {
                    Ok(p) => p,
                    Err(e) => return Err(e),
                };
            }
        }
        Ok(f)
    }
}


// ---------------------------------------------------------------------
// Reading back what the encoder writes
// ---------------------------------------------------------------------

proof fn lemma_read_key_byte(s: Seq<u8>, pos: int, tag: nat, w: nat)
    requires
        0 <= pos < s.len(),
        1 <= tag < 16,
        w <= 5,
        s[pos] == key_byte(tag, w),
    ensures
        key_at(s, pos) == Ok::<(u32, WireType, int), DecodeError>(
            (tag as u32, wire_type_of(w), pos + 1),
        ),
{
    assert(s.subrange(pos, pos + 1) =~= varint_bytes((tag * 8 + w) as nat));
    lemma_varint_roundtrip(s, pos, (tag * 8 + w) as nat);
}

proof fn lemma_read_uint32(s: Seq<u8>, pos: int, v: u32)
    requires
        0 <= pos,
        pos + varint_bytes(v as nat).len() <= s.len(),
        s.subrange(pos, pos + varint_bytes(v as nat).len()) == varint_bytes(v as nat),
    ensures
        uint32_at(s, pos, WireType::Varint) == Ok::<(u32, int), DecodeError>(
            (v, pos + varint_bytes(v as nat).len()),
        ),
{
    lemma_varint_roundtrip(s, pos, v as nat);
}

proof fn lemma_read_bytes(s: Seq<u8>, pos: int, b: Seq<u8>)
    requires
        0 <= pos,
        b.len() <= u64::MAX,
        pos + varint_bytes(b.len()).len() + b.len() <= s.len(),
        s.subrange(pos, pos + varint_bytes(b.len()).len() + b.len()) == varint_bytes(b.len()) + b,
    ensures
        bytes_at(s, pos, WireType::LengthDelimited) == Ok::<(Seq<u8>, int), DecodeError>(
            (b, pos + varint_bytes(b.len()).len() + b.len()),
        ),
{
    assert(s.subrange(pos + varint_bytes(b.len()).len(), pos + varint_bytes(b.len()).len() + b.len()) =~= b) by {
        assert(s.subrange(pos + varint_bytes(b.len()).len(), pos + varint_bytes(b.len()).len() + b.len()) =~= s.subrange(pos, pos + varint_bytes(b.len()).len() + b.len()).subrange(varint_bytes(b.len()).len() as int, (varint_bytes(b.len()).len() + b.len()) as int));
    }
    let n = varint_bytes(b.len()).len();
    assert(s.subrange(pos, pos + n) =~= (varint_bytes(b.len()) + b).subrange(0, n as int));
    assert((varint_bytes(b.len()) + b).subrange(0, n as int) =~= varint_bytes(b.len()));
    lemma_varint_roundtrip(s, pos, b.len());
    assert(s.subrange(pos + n, pos + n + b.len()) =~= (varint_bytes(b.len()) + b).subrange(
        n as int,
        (n + b.len()) as int,
    ));
}

/// The encoding of an `XAesGcmParams` takes at most six bytes.
proof fn lemma_params_len(p: XAesGcmParams)
    ensures
        encode_params_spec(p).len() <= 6,
        varint_bytes(encode_params_spec(p).len()) == seq![encode_params_spec(p).len() as u8],
{
    if p.salt_size != 0 {
        assert(pow128(5) == 0x8_0000_0000) by {
            reveal_with_fuel(pow128, 6);
        }
        lemma_varint_bytes_len(p.salt_size as nat, 5);
    }
}

proof fn lemma_read_params(s: Seq<u8>, pos: int, p: XAesGcmParams, depth: nat)
    requires
        0 <= pos,
        1 <= depth,
        pos + 1 + encode_params_spec(p).len() <= s.len(),
        s.subrange(pos, pos + 1 + encode_params_spec(p).len()) == varint_bytes(
            encode_params_spec(p).len(),
        ) + encode_params_spec(p),
    ensures
        embedded_params(s, pos, WireType::LengthDelimited, None, depth) == Ok::<
            (XAesGcmParams, int),
            DecodeError,
        >((p, pos + 1 + encode_params_spec(p).len())),
{
    let body = encode_params_spec(p);
    lemma_params_len(p);
    assert(s.subrange(pos, pos + 1) =~= varint_bytes(body.len()));
    lemma_varint_roundtrip(s, pos, body.len());
    let start = pos + 1;
    let end = pos + 1 + body.len();
    if p.salt_size != 0 {
        assert(s[start] == key_byte(1, 0)) by {
            assert(s[start] == s.subrange(pos, end)[1]);
        }
        lemma_read_key_byte(s, start, 1, 0);
        let vb = varint_bytes(p.salt_size as nat);
        assert(s.subrange(start + 1, start + 1 + vb.len()) =~= s.subrange(pos, end).subrange(
            2,
            (2 + vb.len()) as int,
        ));
        assert(s.subrange(pos, end).subrange(2, (2 + vb.len()) as int) =~= vb);
        lemma_read_uint32(s, start + 1, p.salt_size);
        assert(params_fields(s, start, end, 0, (depth - 1) as nat) == params_fields(
            s,
            end,
            end,
            p.salt_size,
            (depth - 1) as nat,
        ));
    }
}

// ---------------------------------------------------------------------
// Encoding
// ---------------------------------------------------------------------

/// A field key byte: tag `tag` (below 16) with wire type number `w`.
pub open spec fn key_byte(tag: nat, w: nat) -> u8 {
    (tag * 8 + w) as u8
}

/// The encoding of an `XAesGcmParams`: the salt size as field 1, left out
/// when it is zero.
pub open spec fn encode_params_spec(p: XAesGcmParams) -> Seq<u8> {
    if p.salt_size == 0 {
        Seq::empty()
    } else {
        seq![key_byte(1, 0)] + varint_bytes(p.salt_size as nat)
    }
}

/// An embedded `XAesGcmParams` as field `tag`, left out when absent.
pub open spec fn encode_params_field(tag: nat, p: Option<XAesGcmParams>) -> Seq<u8> {
    match p {
        None => Seq::empty(),
        Some(pr) => seq![key_byte(tag, 2)] + varint_bytes(encode_params_spec(pr).len())
            + encode_params_spec(pr),
    }
}

/// A `uint32` field `tag`, left out when it is zero.
pub open spec fn encode_uint32_field(tag: nat, v: u32) -> Seq<u8> {
    if v == 0 {
        Seq::empty()
    } else {
        seq![key_byte(tag, 0)] + varint_bytes(v as nat)
    }
}

/// A `bytes` field `tag`, left out when it is empty.
pub open spec fn encode_bytes_field(tag: nat, b: Seq<u8>) -> Seq<u8> {
    if b.len() == 0 {
        Seq::empty()
    } else {
        seq![key_byte(tag, 2)] + varint_bytes(b.len()) + b
    }
}

/// The encoding of an `XAesGcmKey`: its fields in tag order.
pub open spec fn encode_key_spec(k: XAesGcmKeyModel) -> Seq<u8> {
    encode_uint32_field(1, k.version) + encode_params_field(2, k.params) + encode_bytes_field(
        3,
        k.key_value,
    )
}

/// The encoding of an `XAesGcmKeyFormat`: its fields in tag order.
pub open spec fn encode_key_format_spec(f: XAesGcmKeyFormat) -> Seq<u8> {
    encode_uint32_field(1, f.version) + encode_params_field(3, f.params)
}

fn encode_uint32(tag: u8, v: u32, out: &mut Vec<u8>)
    requires
        1 <= tag < 16,
    ensures
        final(out)@ == old(out)@ + encode_uint32_field(tag as nat, v),
{
    if v != 0 {
        out.push(tag * 8);
        encode_varint(v as u64, out);
        assert(out@ =~= old(out)@ + encode_uint32_field(tag as nat, v));
    } else {
        assert(out@ =~= old(out)@ + encode_uint32_field(tag as nat, v));
    }
}

fn encode_params(tag: u8, p: Option<XAesGcmParams>, out: &mut Vec<u8>)
    requires
        1 <= tag < 16,
    ensures
        final(out)@ == old(out)@ + encode_params_field(tag as nat, p),
{
    match p {
        None => {
            assert(out@ =~= old(out)@ + encode_params_field(tag as nat, p));
        },
        Some(pr) => {
            let mut body: Vec<u8> = Vec::new();
            encode_uint32(1, pr.salt_size, &mut body);
            assert(body@ =~= encode_params_spec(pr));
            out.push(tag * 8 + 2);
            encode_varint(body.len() as u64, out);
            let mut i: usize = 0;
            let ghost mid = out@;
            while i < body.len()
                invariant
                    i <= body@.len(),
                    out@ == mid + body@.subrange(0, i as int),
                decreases body@.len() - i,
            {
                out.push(body[i]);
                i = i + 1;
                assert(out@ =~= mid + body@.subrange(0, i as int));
            }
            assert(body@.subrange(0, body@.len() as int) =~= body@);
            assert(out@ =~= old(out)@ + encode_params_field(tag as nat, p));
        },
    }
}

impl XAesGcmKey {
    /// The protocol buffer encoding of this key.
    pub fn encode_to_vec(&self) -> (r: Vec<u8>)
        ensures
            r@ == encode_key_spec(self@),
    {
        let mut out: Vec<u8> = Vec::new();
        encode_uint32(1, self.version, &mut out);
        encode_params(2, self.params, &mut out);
        let n = self.key_value.len();
        if n != 0 {
            out.push(3 * 8 + 2);
            encode_varint(n as u64, &mut out);
            let ghost mid = out@;
            let mut i: usize = 0;
            while i < n
                invariant
                    n == self.key_value@.len(),
                    i <= n,
                    out@ == mid + self.key_value@.subrange(0, i as int),
                decreases n - i,
            {
                out.push(self.key_value[i]);
                i = i + 1;
                assert(out@ =~= mid + self.key_value@.subrange(0, i as int));
            }
            assert(self.key_value@.subrange(0, n as int) =~= self.key_value@);
        }
        assert(out@ =~= encode_key_spec(self@));
        out
    }
}

impl XAesGcmKeyFormat {
    /// The protocol buffer encoding of this key format.
    pub fn encode_to_vec(&self) -> (r: Vec<u8>)
        ensures
            r@ == encode_key_format_spec(*self),
    {
        let mut out: Vec<u8> = Vec::new();
        encode_uint32(1, self.version, &mut out);
        encode_params(3, self.params, &mut out);
        assert(out@ =~= encode_key_format_spec(*self));
        out
    }
}


// ---------------------------------------------------------------------
// Laws of the encoding
// ---------------------------------------------------------------------

/// Reading an encoded version field of a key at `pos`.
proof fn lemma_key_version_step(e: Seq<u8>, pos: int, k: XAesGcmKeyModel, v: u32)
    requires
        0 <= pos,
        v != 0,
        pos + encode_uint32_field(1, v).len() <= e.len(),
        e.subrange(pos, pos + encode_uint32_field(1, v).len()) == encode_uint32_field(1, v),
    ensures
        key_fields(e, pos, k) == key_fields(
            e,
            pos + encode_uint32_field(1, v).len(),
            XAesGcmKeyModel { version: v, params: k.params, key_value: k.key_value },
        ),
{
    let u = encode_uint32_field(1, v);
    let vb = varint_bytes(v as nat);
    assert(e[pos] == u[0]);
    lemma_read_key_byte(e, pos, 1, 0);
    assert(e.subrange(pos + 1, pos + 1 + vb.len()) =~= u.subrange(1, u.len() as int));
    assert(u.subrange(1, u.len() as int) =~= vb);
    lemma_read_uint32(e, pos + 1, v);
}

/// Reading an encoded params field of a key at `pos`.
proof fn lemma_key_params_step(e: Seq<u8>, pos: int, k: XAesGcmKeyModel, pr: XAesGcmParams)
    requires
        0 <= pos,
        k.params is None,
        pos + encode_params_field(2, Some(pr)).len() <= e.len(),
        e.subrange(pos, pos + encode_params_field(2, Some(pr)).len()) == encode_params_field(
            2,
            Some(pr),
        ),
    ensures
        key_fields(e, pos, k) == key_fields(
            e,
            pos + encode_params_field(2, Some(pr)).len(),
            XAesGcmKeyModel { version: k.version, params: Some(pr), key_value: k.key_value },
        ),
{
    let f = encode_params_field(2, Some(pr));
    let body = encode_params_spec(pr);
    lemma_params_len(pr);
    assert(e[pos] == f[0]);
    lemma_read_key_byte(e, pos, 2, 2);
    assert(e.subrange(pos + 1, pos + 2 + body.len()) =~= f.subrange(1, f.len() as int));
    assert(f.subrange(1, f.len() as int) =~= varint_bytes(body.len()) + body);
    lemma_read_params(e, pos + 1, pr, RECURSION_LIMIT as nat);
}

/// Reading an encoded key value field at `pos`.
proof fn lemma_key_value_step(e: Seq<u8>, pos: int, k: XAesGcmKeyModel, b: Seq<u8>)
    requires
        0 <= pos,
        0 < b.len() <= u64::MAX,
        pos + encode_bytes_field(3, b).len() <= e.len(),
        e.subrange(pos, pos + encode_bytes_field(3, b).len()) == encode_bytes_field(3, b),
    ensures
        key_fields(e, pos, k) == key_fields(
            e,
            pos + encode_bytes_field(3, b).len(),
            XAesGcmKeyModel { version: k.version, params: k.params, key_value: b },
        ),
{
    let f = encode_bytes_field(3, b);
    assert(e[pos] == f[0]);
    lemma_read_key_byte(e, pos, 3, 2);
    assert(e.subrange(pos + 1, pos + f.len()) =~= f.subrange(1, f.len() as int));
    assert(f.subrange(1, f.len() as int) =~= varint_bytes(b.len()) + b);
    lemma_read_bytes(e, pos + 1, b);
}

/// Decoding the encoding of a key gives the key back.
pub proof fn lemma_key_roundtrip(k: XAesGcmKeyModel)
    requires
        k.key_value.len() <= u64::MAX,
    ensures
        decode_key_spec(encode_key_spec(k)) == Ok::<XAesGcmKeyModel, DecodeError>(k),
{
    let u = encode_uint32_field(1, k.version);
    let pe = encode_params_field(2, k.params);
    let b = encode_bytes_field(3, k.key_value);
    let e = encode_key_spec(k);
    assert(e =~= u + pe + b);
    let k0 = default_key_model();
    let k1 = XAesGcmKeyModel { version: k.version, params: None, key_value: Seq::empty() };
    let k2 = XAesGcmKeyModel { version: k.version, params: k.params, key_value: Seq::empty() };
    let p1 = u.len() as int;
    let p2 = (u.len() + pe.len()) as int;
    if k.version != 0 {
        assert(e.subrange(0, p1) =~= u);
        lemma_key_version_step(e, 0, k0, k.version);
    } else {
        assert(k1 == k0);
    }
    assert(key_fields(e, 0, k0) == key_fields(e, p1, k1));
    match k.params {
        None => {},
        Some(pr) => {
            assert(e.subrange(p1, p2) =~= pe);
            lemma_key_params_step(e, p1, k1, pr);
        },
    }
    assert(key_fields(e, p1, k1) == key_fields(e, p2, k2));
    if k.key_value.len() != 0 {
        assert(e.subrange(p2, e.len() as int) =~= b);
        lemma_key_value_step(e, p2, k2, k.key_value);
    } else {
        assert(k2.key_value =~= k.key_value);
    }
    assert(key_fields(e, p2, k2) == key_fields(e, e.len() as int, k));
}

/// Decoding the encoding of a key format gives the key format back.
pub proof fn lemma_key_format_roundtrip(f: XAesGcmKeyFormat)
    ensures
        decode_key_format_spec(encode_key_format_spec(f)) == Ok::<XAesGcmKeyFormat, DecodeError>(f),
{
    let u = encode_uint32_field(1, f.version);
    let pe = encode_params_field(3, f.params);
    let e = encode_key_format_spec(f);
    let f0 = default_key_format();
    let f1 = XAesGcmKeyFormat { version: f.version, params: None };
    let p1 = u.len() as int;
    if f.version != 0 {
        let vb = varint_bytes(f.version as nat);
        assert(e[0] == key_byte(1, 0));
        lemma_read_key_byte(e, 0, 1, 0);
        assert(e.subrange(1, (1 + vb.len()) as int) =~= vb);
        lemma_read_uint32(e, 1, f.version);
        assert(key_format_fields(e, 0, f0) == key_format_fields(e, p1, f1));
    }
    match f.params {
        None => {},
        Some(pr) => {
            let body = encode_params_spec(pr);
            lemma_params_len(pr);
            assert(e[p1] == key_byte(3, 2));
            lemma_read_key_byte(e, p1, 3, 2);
            assert(e.subrange(p1 + 1, p1 + 2 + body.len()) =~= varint_bytes(body.len()) + body);
            lemma_read_params(e, p1 + 1, pr, RECURSION_LIMIT as nat);
            assert(key_format_fields(e, p1, f1) == key_format_fields(e, e.len() as int, f));
        },
    }
}

// ---------------------------------------------------------------------
// Laws over the standard encoding, byte by byte
// ---------------------------------------------------------------------

/// A byte below 128 is a one-byte varint holding that byte.
proof fn lemma_one_byte_varint(e: Seq<u8>, pos: int, x: u8)
    requires
        0 <= pos < e.len(),
        x < 128,
        e[pos] == x,
    ensures
        varint_at(e, pos) == Some((x as nat, 1nat)),
{
    assert(e.subrange(pos, pos + 1) =~= varint_bytes(x as nat));
    lemma_varint_roundtrip(e, pos, x as nat);
}

/// The bytes `2, 8, s` at `pos` are an embedded params message holding the
/// salt size `s`, whatever the params merged into.
proof fn lemma_params_bytes(e: Seq<u8>, pos: int, cur: Option<XAesGcmParams>, s: u8, depth: nat)
    requires
        0 <= pos,
        pos + 3 <= e.len(),
        1 <= depth,
        s < 128,
        e[pos] == 2,
        e[pos + 1] == 8,
        e[pos + 2] == s,
    ensures
        embedded_params(e, pos, WireType::LengthDelimited, cur, depth) == Ok::<
            (XAesGcmParams, int),
            DecodeError,
        >((XAesGcmParams { salt_size: s as u32 }, pos + 3)),
{
    lemma_one_byte_varint(e, pos, 2);
    lemma_read_key_byte(e, pos + 1, 1, 0);
    lemma_one_byte_varint(e, pos + 2, s);
    let start: u32 = match cur {
        Some(p) => p.salt_size,
        None => 0u32,
    };
    assert(params_fields(e, pos + 1, pos + 3, start, (depth - 1) as nat) == params_fields(
        e,
        pos + 3,
        pos + 3,
        s as u32,
        (depth - 1) as nat,
    ));
}

/// The bytes `0x08, v` at `pos` set the version of a key to `v`.
proof fn lemma_key_version_bytes(e: Seq<u8>, pos: int, k: XAesGcmKeyModel, v: u8)
    requires
        0 <= pos,
        pos + 2 <= e.len(),
        v < 128,
        e[pos] == 0x08,
        e[pos + 1] == v,
    ensures
        key_fields(e, pos, k) == key_fields(
            e,
            pos + 2,
            XAesGcmKeyModel { version: v as u32, params: k.params, key_value: k.key_value },
        ),
{
    lemma_read_key_byte(e, pos, 1, 0);
    lemma_one_byte_varint(e, pos + 1, v);
}

/// The bytes `0x12, 2, 0x08, s` at `pos` set the params of a key to the
/// salt size `s`.
proof fn lemma_key_params_bytes(e: Seq<u8>, pos: int, k: XAesGcmKeyModel, s: u8)
    requires
        0 <= pos,
        pos + 4 <= e.len(),
        s < 128,
        e[pos] == 0x12,
        e[pos + 1] == 2,
        e[pos + 2] == 0x08,
        e[pos + 3] == s,
    ensures
        key_fields(e, pos, k) == key_fields(
            e,
            pos + 4,
            XAesGcmKeyModel {
                version: k.version,
                params: Some(XAesGcmParams { salt_size: s as u32 }),
                key_value: k.key_value,
            },
        ),
{
    lemma_read_key_byte(e, pos, 2, 2);
    lemma_params_bytes(e, pos + 1, k.params, s, RECURSION_LIMIT as nat);
}

/// The bytes `0x1a, n` followed by `n` bytes `b` (with `n` below 128) at
/// `pos` set the key value of a key to `b`.
proof fn lemma_key_value_bytes(e: Seq<u8>, pos: int, k: XAesGcmKeyModel, b: Seq<u8>)
    requires
        0 <= pos,
        b.len() < 128,
        pos + 2 + b.len() <= e.len(),
        e[pos] == 0x1a,
        e[pos + 1] == b.len() as u8,
        e.subrange(pos + 2, pos + 2 + b.len()) == b,
    ensures
        key_fields(e, pos, k) == key_fields(
            e,
            pos + 2 + b.len(),
            XAesGcmKeyModel { version: k.version, params: k.params, key_value: b },
        ),
{
    lemma_read_key_byte(e, pos, 3, 2);
    lemma_one_byte_varint(e, pos + 1, b.len() as u8);
}

/// Keys in the standard encoding decode to their fields: a key value of
/// fewer than 128 bytes, params with a salt size below 128, and a version
/// below 128 (left out when zero).
pub proof fn lemma_decode_standard_key(v: u8, s: u8, b: Seq<u8>)
    requires
        v < 128,
        s < 128,
        b.len() < 128,
    ensures
        decode_key_spec(seq![0x1au8, b.len() as u8] + b) == Ok::<XAesGcmKeyModel, DecodeError>(
            XAesGcmKeyModel { version: 0, params: None, key_value: b },
        ),
        decode_key_spec(seq![0x12u8, 0x02, 0x08, s, 0x1a, b.len() as u8] + b) == Ok::<
            XAesGcmKeyModel,
            DecodeError,
        >(
            XAesGcmKeyModel {
                version: 0,
                params: Some(XAesGcmParams { salt_size: s as u32 }),
                key_value: b,
            },
        ),
        decode_key_spec(seq![0x08u8, v, 0x12, 0x02, 0x08, s, 0x1a, b.len() as u8] + b) == Ok::<
            XAesGcmKeyModel,
            DecodeError,
        >(
            XAesGcmKeyModel {
                version: v as u32,
                params: Some(XAesGcmParams { salt_size: s as u32 }),
                key_value: b,
            },
        ),
{
    let k0 = default_key_model();
    let pv = XAesGcmParams { salt_size: s as u32 };
    // Key value alone.
    let e1 = seq![0x1au8, b.len() as u8] + b;
    assert(e1.subrange(2, (2 + b.len()) as int) =~= b);
    lemma_key_value_bytes(e1, 0, k0, b);
    // Params, then the key value.
    let e2 = seq![0x12u8, 0x02, 0x08, s, 0x1a, b.len() as u8] + b;
    let k2 = XAesGcmKeyModel { version: 0, params: Some(pv), key_value: Seq::empty() };
    lemma_key_params_bytes(e2, 0, k0, s);
    assert(e2.subrange(6, (6 + b.len()) as int) =~= b);
    lemma_key_value_bytes(e2, 4, k2, b);
    // Version, params, then the key value.
    let e3 = seq![0x08u8, v, 0x12, 0x02, 0x08, s, 0x1a, b.len() as u8] + b;
    let k3a = XAesGcmKeyModel { version: v as u32, params: None, key_value: Seq::empty() };
    let k3b = XAesGcmKeyModel { version: v as u32, params: Some(pv), key_value: Seq::empty() };
    lemma_key_version_bytes(e3, 0, k0, v);
    lemma_key_params_bytes(e3, 2, k3a, s);
    assert(e3.subrange(8, (8 + b.len()) as int) =~= b);
    lemma_key_value_bytes(e3, 6, k3b, b);
}

/// Key formats in the standard encoding decode to their fields: params
/// (field 3) with a salt size below 128, and a version below 128 (left out
/// when zero).
pub proof fn lemma_decode_standard_key_format(v: u8, s: u8)
    requires
        v < 128,
        s < 128,
    ensures
        decode_key_format_spec(seq![0x1au8, 0x02, 0x08, s]) == Ok::<XAesGcmKeyFormat, DecodeError>(
            XAesGcmKeyFormat { version: 0, params: Some(XAesGcmParams { salt_size: s as u32 }) },
        ),
        decode_key_format_spec(seq![0x08u8, v, 0x1a, 0x02, 0x08, s]) == Ok::<
            XAesGcmKeyFormat,
            DecodeError,
        >(
            XAesGcmKeyFormat {
                version: v as u32,
                params: Some(XAesGcmParams { salt_size: s as u32 }),
            },
        ),
{
    let f0 = default_key_format();
    let e1 = seq![0x1au8, 0x02, 0x08, s];
    lemma_read_key_byte(e1, 0, 3, 2);
    lemma_params_bytes(e1, 1, None, s, RECURSION_LIMIT as nat);
    assert(key_format_fields(e1, 0, f0) == key_format_fields(
        e1,
        4,
        XAesGcmKeyFormat { version: 0, params: Some(XAesGcmParams { salt_size: s as u32 }) },
    ));
    let e2 = seq![0x08u8, v, 0x1a, 0x02, 0x08, s];
    let f1 = XAesGcmKeyFormat { version: v as u32, params: None };
    lemma_read_key_byte(e2, 0, 1, 0);
    lemma_one_byte_varint(e2, 1, v);
    assert(key_format_fields(e2, 0, f0) == key_format_fields(e2, 2, f1));
    lemma_read_key_byte(e2, 2, 3, 2);
    lemma_params_bytes(e2, 3, None, s, RECURSION_LIMIT as nat);
    assert(key_format_fields(e2, 2, f1) == key_format_fields(
        e2,
        6,
        XAesGcmKeyFormat { version: v as u32, params: Some(XAesGcmParams { salt_size: s as u32 }) },
    ));
}

/// The encoder writes the standard encoding: a key with version 0, params
/// with a salt size in 1..128, and a key value of 1 to 127 bytes; a key
/// format with version 0 and such params.
pub proof fn lemma_encode_standard(s: u8, b: Seq<u8>)
    requires
        0 < s < 128,
        0 < b.len() < 128,
    ensures
        encode_key_spec(
            XAesGcmKeyModel {
                version: 0,
                params: Some(XAesGcmParams { salt_size: s as u32 }),
                key_value: b,
            },
        ) == seq![0x12u8, 0x02, 0x08, s, 0x1a, b.len() as u8] + b,
        encode_key_format_spec(
            XAesGcmKeyFormat { version: 0, params: Some(XAesGcmParams { salt_size: s as u32 }) },
        ) == seq![0x1au8, 0x02, 0x08, s],
{
    let p = XAesGcmParams { salt_size: s as u32 };
    assert(varint_bytes(s as nat) == seq![s]);
    assert(encode_params_spec(p) =~= seq![0x08u8, s]);
    assert(varint_bytes(2) == seq![2u8]);
    assert(varint_bytes(b.len()) == seq![b.len() as u8]);
    assert(encode_key_spec(XAesGcmKeyModel { version: 0, params: Some(p), key_value: b })
        =~= seq![0x12u8, 0x02, 0x08, s, 0x1a, b.len() as u8] + b);
    assert(encode_key_format_spec(XAesGcmKeyFormat { version: 0, params: Some(p) }) =~= seq![
        0x1au8,
        0x02,
        0x08,
        s,
    ]);
}

} // verus!
