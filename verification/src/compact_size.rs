//! The self-describing variable-length integer ("CompactSize").

use vstd::prelude::*;
use crate::buf::same_front;
use crate::error::{BitcoinError, decoded};
use crate::le::{
    le_bytes_u16, le_bytes_u32, le_bytes_u64, le_u16, le_u32, le_u64, lemma_le_u16_round_trip,
    lemma_le_u32_round_trip, lemma_le_u64_round_trip, push_u16_le, push_u32_le, push_u64_le,
    read_u16_le, read_u32_le, read_u64_le,
};

verus! {

/// An unsigned 64-bit integer that is written with a one-byte
/// discriminator and zero, two, four or eight payload bytes.
#[derive(Debug, PartialEq, Eq, Clone)]
pub struct CompactSize {
    pub value: u64,
}

impl View for CompactSize {
    type V = u64;

    open spec fn view(&self) -> u64 {
        self.value
    }
}

/// The canonical encoding of `v`: the shortest of the four forms.
pub open spec fn compact_size_bytes(v: u64) -> Seq<u8> {
    if v <= 252 {
        seq![v as u8]
    } else if v <= 0xFFFF {
        seq![253u8] + le_bytes_u16(v as u16)
    } else if v <= 0xFFFF_FFFF {
        seq![254u8] + le_bytes_u32(v as u32)
    } else {
        seq![255u8] + le_bytes_u64(v)
    }
}

/// How many bytes an encoding that starts with `first` occupies.
pub open spec fn compact_size_width(first: u8) -> nat {
    if first <= 252 {
        1
    } else if first == 253 {
        3
    } else if first == 254 {
        5
    } else {
        9
    }
}

/// What decoding the front of `b` gives: the value and the bytes consumed.
/// Bytes behind the encoding are ignored, and a non-minimal encoding is
/// accepted.
pub open spec fn parse_compact_size(b: Seq<u8>) -> Result<(u64, nat), BitcoinError> {
    if b.len() == 0 || b.len() < compact_size_width(b[0]) {
        Err(BitcoinError::InsufficientBytes)
    } else if b[0] <= 252 {
        Ok((b[0] as u64, 1))
    } else if b[0] == 253 {
        Ok((le_u16(b.skip(1)) as u64, 3))
    } else if b[0] == 254 {
        Ok((le_u32(b.skip(1)) as u64, 5))
    } else {
        Ok((le_u64(b.skip(1)), 9))
    }
}

/// Decoding the canonical encoding of a value gives the value back and
/// consumes the whole encoding.
pub proof fn lemma_compact_size_round_trip(v: u64)
    ensures
        parse_compact_size(compact_size_bytes(v)) == Ok::<_, BitcoinError>(
            (v, compact_size_bytes(v).len()),
        ),
{
    let b = compact_size_bytes(v);
    if v <= 252 {
    } else if v <= 0xFFFF {
        lemma_le_u16_round_trip(v as u16);
        assert(b.skip(1) =~= le_bytes_u16(v as u16));
    } else if v <= 0xFFFF_FFFF {
        lemma_le_u32_round_trip(v as u32);
        assert(b.skip(1) =~= le_bytes_u32(v as u32));
    } else {
        lemma_le_u64_round_trip(v);
        assert(b.skip(1) =~= le_bytes_u64(v));
    }
}

/// A successful decode depends only on the bytes it consumed: any input
/// that starts with the same bytes decodes to the same result.
pub proof fn lemma_parse_compact_size_front(b: Seq<u8>, other: Seq<u8>)
    requires
        parse_compact_size(b) is Ok,
        same_front(b, other, parse_compact_size(b)->Ok_0.1),
    ensures
        parse_compact_size(other) == parse_compact_size(b),
{
    let n = parse_compact_size(b)->Ok_0.1;
    assert(b[0] == other[0]);
    if n >= 3 {
        assert(b.skip(1)[0] == other.skip(1)[0]);
        assert(b.skip(1)[1] == other.skip(1)[1]);
    }
    if n >= 5 {
        assert(b.skip(1)[2] == other.skip(1)[2]);
        assert(b.skip(1)[3] == other.skip(1)[3]);
    }
    if n >= 9 {
        assert(b.skip(1)[4] == other.skip(1)[4]);
        assert(b.skip(1)[5] == other.skip(1)[5]);
        assert(b.skip(1)[6] == other.skip(1)[6]);
        assert(b.skip(1)[7] == other.skip(1)[7]);
    }
}

/// Cutting an input short of what a successful decode consumed makes the
/// decode fail for want of bytes.
pub proof fn lemma_parse_compact_size_truncated(b: Seq<u8>, k: nat)
    requires
        parse_compact_size(b) is Ok,
        k < parse_compact_size(b)->Ok_0.1,
    ensures
        parse_compact_size(b.take(k as int)) == Err::<(u64, nat), _>(
            BitcoinError::InsufficientBytes,
        ),
{
}

/// Every proper prefix of a canonical encoding fails to decode for want
/// of bytes.
pub proof fn lemma_compact_size_prefix_fails(v: u64, k: nat)
    requires
        k < compact_size_bytes(v).len(),
    ensures
        parse_compact_size(compact_size_bytes(v).take(k as int)) == Err::<(u64, nat), _>(
            BitcoinError::InsufficientBytes,
        ),
{
    lemma_compact_size_round_trip(v);
    lemma_parse_compact_size_truncated(compact_size_bytes(v), k);
}

impl CompactSize {
    /// The compact size that holds `value`.
    pub fn new(value: u64) -> (r: Self)
        ensures
            r.value == value,
    {
        CompactSize { value }
    }

    /// The canonical encoding of the value, which decodes to the value
    /// again.
    pub fn to_bytes(&self) -> (out: Vec<u8>)
        ensures
            out@ == compact_size_bytes(self.value),
            parse_compact_size(out@) == Ok::<_, BitcoinError>((self.value, out@.len())),
    {
        proof {
            lemma_compact_size_round_trip(self.value);
        }
        let val: u64 = self.value;
        let mut out: Vec<u8> = Vec::new();
        if val <= 252 {
            out.push(val as u8);
        } else if val <= 0xFFFF {
            out.push(253u8);
            push_u16_le(&mut out, val as u16);
        } else if val <= 0xFFFF_FFFF {
            out.push(254u8);
            push_u32_le(&mut out, val as u32);
        } else {
            out.push(255u8);
            push_u64_le(&mut out, val);
        }
        assert(out@ =~= compact_size_bytes(self.value));
        out
    }

    /// Decodes one compact size from the front of `bytes`.
    pub fn from_bytes(bytes: &[u8]) -> (r: Result<(Self, usize), BitcoinError>)
        ensures
            decoded(r) == parse_compact_size(bytes@),
    {
        let len: usize = bytes.len();
        if len == 0 {
            return Err(BitcoinError::InsufficientBytes);
        }
        let first: u8 = bytes[0];
        if first <= 252 {
            Ok((Self::new(first as u64), 1))
        } else if first == 253 {
            if len < 3 {
                Err(BitcoinError::InsufficientBytes)
            } else {
                Ok((Self::new(read_u16_le(bytes, 1) as u64), 3))
            }
        } else if first == 254 {
            if len < 5 {
                Err(BitcoinError::InsufficientBytes)
            } else {
                Ok((Self::new(read_u32_le(bytes, 1) as u64), 5))
            }
        } else {
            if len < 9 {
                Err(BitcoinError::InsufficientBytes)
            } else {
                Ok((Self::new(read_u64_le(bytes, 1)), 9))
            }
        }
    }
}

} // verus!
