//! A length-prefixed run of opaque bytes.

use vstd::prelude::*;
use crate::buf::{append_range, copy_range, same_front};
use crate::compact_size::{
    CompactSize, compact_size_bytes, lemma_compact_size_round_trip, lemma_parse_compact_size_front,
    lemma_parse_compact_size_truncated, parse_compact_size,
};
use crate::error::{BitcoinError, decoded};

verus! {

/// The bytes of a script. They are not interpreted.
#[derive(Debug, PartialEq, Eq, Clone)]
pub struct Script {
    pub bytes: Vec<u8>,
}

impl View for Script {
    type V = Seq<u8>;

    open spec fn view(&self) -> Seq<u8> {
        self.bytes@
    }
}

/// The encoding of a script: its length as a compact size, then its bytes.
pub open spec fn script_bytes(s: Seq<u8>) -> Seq<u8> {
    compact_size_bytes(s.len() as u64) + s
}

/// What decoding the front of `b` gives: the declared number of bytes
/// behind the length prefix, or an error where the prefix is incomplete
/// or fewer bytes follow than it declares.
pub open spec fn parse_script(b: Seq<u8>) -> Result<(Seq<u8>, nat), BitcoinError> {
    match parse_compact_size(b) {
        Err(e) => Err(e),
        Ok((n, p)) => if b.len() - p < n {
            Err(BitcoinError::InsufficientBytes)
        } else {
            Ok((b.subrange(p as int, p + n), (p + n) as nat))
        },
    }
}

/// Decoding the encoding of a script gives the script back and consumes
/// the whole encoding.
pub proof fn lemma_script_round_trip(s: Seq<u8>)
    requires
        s.len() <= u64::MAX,
    ensures
        parse_script(script_bytes(s)) == Ok::<_, BitcoinError>((s, script_bytes(s).len())),
{
    let prefix = compact_size_bytes(s.len() as u64);
    let b = script_bytes(s);
    lemma_compact_size_round_trip(s.len() as u64);
    lemma_parse_compact_size_front(prefix, b);
    assert(b.subrange(prefix.len() as int, prefix.len() as int + s.len()) =~= s);
}

/// A successful decode depends only on the bytes it consumed: any input
/// that starts with the same bytes decodes to the same result.
pub proof fn lemma_parse_script_front(b: Seq<u8>, other: Seq<u8>)
    requires
        parse_script(b) is Ok,
        same_front(b, other, parse_script(b)->Ok_0.1),
    ensures
        parse_script(other) == parse_script(b),
{
    let (n, p) = parse_compact_size(b)->Ok_0;
    lemma_parse_compact_size_front(b, other);
    assert(b.subrange(p as int, p + n) =~= other.subrange(p as int, p + n));
}

/// Cutting an input short of what a successful decode consumed makes the
/// decode fail for want of bytes.
pub proof fn lemma_parse_script_truncated(b: Seq<u8>, k: nat)
    requires
        parse_script(b) is Ok,
        k < parse_script(b)->Ok_0.1,
    ensures
        parse_script(b.take(k as int)) == Err::<(Seq<u8>, nat), _>(BitcoinError::InsufficientBytes),
{
    let (n, p) = parse_compact_size(b)->Ok_0;
    if k < p {
        lemma_parse_compact_size_truncated(b, k);
    } else {
        lemma_parse_compact_size_front(b, b.take(k as int));
    }
}

/// Every proper prefix of a script's encoding fails to decode for want of
/// bytes.
pub proof fn lemma_script_prefix_fails(s: Seq<u8>, k: nat)
    requires
        s.len() <= u64::MAX,
        k < script_bytes(s).len(),
    ensures
        parse_script(script_bytes(s).take(k as int)) == Err::<(Seq<u8>, nat), _>(
            BitcoinError::InsufficientBytes,
        ),
{
    lemma_script_round_trip(s);
    lemma_parse_script_truncated(script_bytes(s), k);
}

impl Script {
    /// The script that holds `bytes`.
    pub fn new(bytes: Vec<u8>) -> (r: Self)
        ensures
            r.bytes == bytes,
    {
        Self { bytes }
    }

    /// The script as a read-only run of bytes.
    pub fn as_slice(&self) -> (r: &[u8])
        ensures
            r@ == self@,
    {
        self.bytes.as_slice()
    }

    /// The length prefix followed by the bytes, which decode to the script
    /// again.
    pub fn to_bytes(&self) -> (out: Vec<u8>)
        ensures
            out@ == script_bytes(self@),
            parse_script(out@) == Ok::<_, BitcoinError>((self@, out@.len())),
    {
        proof {
            assert(self.bytes.len() == self@.len());
            lemma_script_round_trip(self@);
        }
        let len: usize = self.bytes.len();
        let mut out: Vec<u8> = CompactSize::new(len as u64).to_bytes();
        append_range(&mut out, self.bytes.as_slice(), 0, len);
        assert(self.bytes@.subrange(0, len as int) =~= self.bytes@);
        out
    }

    /// Decodes one script from the front of `bytes`.
    pub fn from_bytes(bytes: &[u8]) -> (r: Result<(Self, usize), BitcoinError>)
        ensures
            decoded(r) == parse_script(bytes@),
            r matches Ok((_, n)) ==> n <= bytes@.len(),
    {
        match CompactSize::from_bytes(bytes) {
            Err(e) => Err(e),
            Ok((size, prefix)) => {
                let rest: usize = bytes.len() - prefix;
                if (rest as u64) < size.value {
                    Err(BitcoinError::InsufficientBytes)
                } else {
                    let n: usize = size.value as usize;
                    let script = Script::new(copy_range(bytes, prefix, prefix + n));
                    Ok((script, prefix + n))
                }
            },
        }
    }
}

} // verus!
