//! A reference to one output of an earlier transaction.

use vstd::prelude::*;
use crate::buf::{append_range, same_front};
use crate::error::{BitcoinError, decoded};
use crate::le::{le_bytes_u32, le_u32, lemma_le_u32_round_trip, push_u32_le, read_u32_le};
use crate::txid::Txid;

verus! {

/// An identifier and the index of one of that transaction's outputs.
#[derive(Debug, PartialEq, Eq, Clone)]
pub struct OutPoint {
    pub txid: Txid,
    pub vout: u32,
}

/// What an `OutPoint` stands for.
pub struct OutPointView {
    pub txid: Seq<u8>,
    pub vout: u32,
}

impl OutPointView {
    /// The identifier has its 32 bytes.
    pub open spec fn wf(self) -> bool {
        self.txid.len() == 32
    }
}

impl View for OutPoint {
    type V = OutPointView;

    open spec fn view(&self) -> OutPointView {
        OutPointView { txid: self.txid@, vout: self.vout }
    }
}

/// The encoding of an outpoint: the identifier, then the index as four
/// little-endian bytes.
pub open spec fn outpoint_bytes(o: OutPointView) -> Seq<u8> {
    o.txid + le_bytes_u32(o.vout)
}

/// What decoding the front of `b` gives: always 36 bytes, or nothing.
pub open spec fn parse_outpoint(b: Seq<u8>) -> Result<(OutPointView, nat), BitcoinError> {
    if b.len() < 36 {
        Err(BitcoinError::InsufficientBytes)
    } else {
        Ok((OutPointView { txid: b.subrange(0, 32), vout: le_u32(b.skip(32)) }, 36))
    }
}

/// Decoding the encoding of an outpoint gives the outpoint back and
/// consumes the whole encoding.
pub proof fn lemma_outpoint_round_trip(o: OutPointView)
    requires
        o.wf(),
    ensures
        outpoint_bytes(o).len() == 36,
        parse_outpoint(outpoint_bytes(o)) == Ok::<_, BitcoinError>((o, outpoint_bytes(o).len())),
{
    let b = outpoint_bytes(o);
    lemma_le_u32_round_trip(o.vout);
    assert(b.subrange(0, 32) =~= o.txid);
    assert(b.skip(32) =~= le_bytes_u32(o.vout));
}

/// A successful decode depends only on the bytes it consumed: any input
/// that starts with the same bytes decodes to the same result.
pub proof fn lemma_parse_outpoint_front(b: Seq<u8>, other: Seq<u8>)
    requires
        parse_outpoint(b) is Ok,
        same_front(b, other, parse_outpoint(b)->Ok_0.1),
    ensures
        parse_outpoint(other) == parse_outpoint(b),
{
    assert(b.subrange(0, 32) =~= other.subrange(0, 32));
    assert(b.skip(32)[0] == other.skip(32)[0]);
    assert(b.skip(32)[1] == other.skip(32)[1]);
    assert(b.skip(32)[2] == other.skip(32)[2]);
    assert(b.skip(32)[3] == other.skip(32)[3]);
}

/// Cutting an input short of what a successful decode consumed makes the
/// decode fail for want of bytes.
pub proof fn lemma_parse_outpoint_truncated(b: Seq<u8>, k: nat)
    requires
        parse_outpoint(b) is Ok,
        k < parse_outpoint(b)->Ok_0.1,
    ensures
        parse_outpoint(b.take(k as int)) == Err::<(OutPointView, nat), _>(
            BitcoinError::InsufficientBytes,
        ),
{
}

/// Every proper prefix of an outpoint's encoding fails to decode for want
/// of bytes.
pub proof fn lemma_outpoint_prefix_fails(o: OutPointView, k: nat)
    requires
        o.wf(),
        k < outpoint_bytes(o).len(),
    ensures
        parse_outpoint(outpoint_bytes(o).take(k as int)) == Err::<(OutPointView, nat), _>(
            BitcoinError::InsufficientBytes,
        ),
{
    lemma_outpoint_round_trip(o);
    lemma_parse_outpoint_truncated(outpoint_bytes(o), k);
}

impl OutPoint {
    /// Every outpoint in memory is well formed.
    pub proof fn lemma_view_wf(&self)
        ensures
            self@.wf(),
    {
    }

    /// The outpoint that names output `vout` of the transaction `txid`.
    pub fn new(txid: [u8; 32], vout: u32) -> (r: Self)
        ensures
            r.txid.0 == txid,
            r.vout == vout,
            r@.wf(),
    {
        Self { txid: Txid(txid), vout }
    }

    /// The 36 bytes of the outpoint, which decode to the outpoint again.
    pub fn to_bytes(&self) -> (out: Vec<u8>)
        ensures
            out@ == outpoint_bytes(self@),
            out@.len() == 36,
            parse_outpoint(out@) == Ok::<_, BitcoinError>((self@, 36nat)),
    {
        proof {
            lemma_outpoint_round_trip(self@);
        }
        let mut out: Vec<u8> = Vec::new();
        append_range(&mut out, self.txid.0.as_slice(), 0, 32);
        push_u32_le(&mut out, self.vout);
        assert(out@ =~= outpoint_bytes(self@));
        out
    }

    /// Decodes one outpoint from the front of `bytes`.
    pub fn from_bytes(bytes: &[u8]) -> (r: Result<(Self, usize), BitcoinError>)
        ensures
            decoded(r) == parse_outpoint(bytes@),
    {
        if bytes.len() < 36 {
            Err(BitcoinError::InsufficientBytes)
        } else {
            let txid = Txid::from_slice(bytes, 0);
            let vout: u32 = read_u32_le(bytes, 32);
            Ok((OutPoint { txid, vout }, 36))
        }
    }
}

} // verus!
