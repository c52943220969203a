//! The 32-byte transaction identifier.

use vstd::prelude::*;
use crate::error::BitcoinError;
use crate::hex_text::{
    hex_bytes, hex_decode, hex_encode, hex_text, is_hex_text, lemma_hex_round_trip,
};

verus! {

/// A transaction identifier: 32 opaque bytes, in the order in which they
/// are stored.
#[derive(Debug, PartialEq, Eq, Clone)]
pub struct Txid(pub [u8; 32]);

impl View for Txid {
    type V = Seq<u8>;

    open spec fn view(&self) -> Seq<u8> {
        self.0@
    }
}

/// `text` is the text form of some identifier: 64 hexadecimal digits.
pub open spec fn is_txid_text(text: Seq<char>) -> bool {
    is_hex_text(text) && text.len() == 64
}

/// The text form of an identifier reads back as that identifier.
pub proof fn lemma_txid_text_round_trip(id: Seq<u8>)
    requires
        id.len() == 32,
    ensures
        is_txid_text(hex_text(id)),
        hex_bytes(hex_text(id)) == id,
{
    lemma_hex_round_trip(id);
}

impl Txid {
    /// The text form: 64 lowercase hexadecimal digits, two for each byte
    /// in stored order. It reads back as this identifier.
    pub fn to_hex(&self) -> (text: String)
        ensures
            text@ == hex_text(self@),
            is_txid_text(text@),
            hex_bytes(text@) == self@,
    {
        proof {
            lemma_txid_text_round_trip(self@);
        }
        hex_encode(self.0.as_slice())
    }

    /// Reads the text form. Digits of either case are accepted; anything
    /// but 64 hexadecimal digits is refused.
    pub fn from_hex(text: &str) -> (r: Result<Self, BitcoinError>)
        ensures
            match r {
                Ok(id) => is_txid_text(text@) && id@ == hex_bytes(text@),
                Err(e) => !is_txid_text(text@) && e == BitcoinError::InvalidFormat,
            },
    {
        match hex_decode(text) {
            Err(_) => Err(BitcoinError::InvalidFormat),
            Ok(raw) => {
                if raw.len() != 32 {
                    Err(BitcoinError::InvalidFormat)
                } else {
                    assert(raw@.subrange(0, 32) =~= raw@);
                    Ok(Txid::from_slice(raw.as_slice(), 0))
                }
            },
        }
    }

    /// The identifier whose bytes are `bytes[at..at + 32]`.
    pub(crate) fn from_slice(bytes: &[u8], at: usize) -> (r: Self)
        requires
            at + 32 <= bytes@.len(),
        ensures
            r@ == bytes@.subrange(at as int, at + 32),
    {
        let len: usize = bytes.len();
        let mut raw: [u8; 32] = [0u8;32];
        let mut i: usize = 0;
        while i < 32
            invariant
                i <= 32,
                at + 32 <= len == bytes@.len(),
                forall|j: int| 0 <= j < i ==> raw@[j] == bytes@[at + j],
            decreases 32 - i,
        {
            raw[i] = bytes[at + i];
            i += 1;
        }
        assert(raw@ =~= bytes@.subrange(at as int, at + 32));
        Txid(raw)
    }
}

} // verus!
