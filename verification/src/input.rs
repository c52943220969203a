//! One input of a transaction.

use vstd::prelude::*;
use vstd::slice::slice_subrange;
use crate::buf::{lemma_same_front_skip, same_front};
use crate::error::{BitcoinError, decoded};
use crate::le::{le_bytes_u32, le_u32, lemma_le_u32_round_trip, push_u32_le, read_u32_le};
use crate::outpoint::{
    OutPoint, OutPointView, lemma_outpoint_round_trip, lemma_parse_outpoint_front, outpoint_bytes,
    parse_outpoint,
};
use crate::script::{
    Script, lemma_parse_script_front, lemma_parse_script_truncated, lemma_script_round_trip,
    parse_script, script_bytes,
};

verus! {

/// The output that is spent, the script that unlocks it, and a sequence
/// number.
#[derive(Debug, PartialEq, Eq, Clone)]
pub struct TransactionInput {
    pub previous_output: OutPoint,
    pub script_sig: Script,
    pub sequence: u32,
}

/// What a `TransactionInput` stands for.
pub struct TransactionInputView {
    pub previous_output: OutPointView,
    pub script_sig: Seq<u8>,
    pub sequence: u32,
}

impl TransactionInputView {
    /// The outpoint is well formed and a compact size can hold the
    /// script's length.
    pub open spec fn wf(self) -> bool {
        self.previous_output.wf() && self.script_sig.len() <= u64::MAX
    }
}

impl View for TransactionInput {
    type V = TransactionInputView;

    open spec fn view(&self) -> TransactionInputView {
        TransactionInputView {
            previous_output: self.previous_output@,
            script_sig: self.script_sig@,
            sequence: self.sequence,
        }
    }
}

/// The encoding of an input: outpoint, script, then the sequence number
/// as four little-endian bytes.
pub open spec fn input_bytes(i: TransactionInputView) -> Seq<u8> {
    outpoint_bytes(i.previous_output) + script_bytes(i.script_sig) + le_bytes_u32(i.sequence)
}

/// What decoding the front of `b` gives, field by field from the left. The
/// first field that fails decides the error.
pub open spec fn parse_input(b: Seq<u8>) -> Result<(TransactionInputView, nat), BitcoinError> {
    match parse_outpoint(b) {
        Err(e) => Err(e),
        Ok((previous_output, n1)) => match parse_script(b.skip(n1 as int)) {
            Err(e) => Err(e),
            Ok((script_sig, n2)) => if b.len() < n1 + n2 + 4 {
                Err(BitcoinError::InsufficientBytes)
            } else {
                Ok(
                    (
                        TransactionInputView {
                            previous_output,
                            script_sig,
                            sequence: le_u32(b.skip((n1 + n2) as int)),
                        },
                        n1 + n2 + 4,
                    ),
                )
            },
        },
    }
}

/// Decoding the encoding of an input gives the input back and consumes
/// the whole encoding.
pub proof fn lemma_input_round_trip(i: TransactionInputView)
    requires
        i.wf(),
    ensures
        parse_input(input_bytes(i)) == Ok::<_, BitcoinError>((i, input_bytes(i).len())),
{
    let b = input_bytes(i);
    let o = outpoint_bytes(i.previous_output);
    let s = script_bytes(i.script_sig);
    lemma_outpoint_round_trip(i.previous_output);
    lemma_parse_outpoint_front(o, b);
    lemma_script_round_trip(i.script_sig);
    lemma_parse_script_front(s, b.skip(36));
    lemma_le_u32_round_trip(i.sequence);
    assert(b.skip(36 + s.len() as int) =~= le_bytes_u32(i.sequence));
}

/// A successful decode depends only on the bytes it consumed: any input
/// that starts with the same bytes decodes to the same result.
pub proof fn lemma_parse_input_front(b: Seq<u8>, other: Seq<u8>)
    requires
        parse_input(b) is Ok,
        same_front(b, other, parse_input(b)->Ok_0.1),
    ensures
        parse_input(other) == parse_input(b),
{
    let n = parse_input(b)->Ok_0.1;
    let n2 = parse_script(b.skip(36))->Ok_0.1;
    lemma_parse_outpoint_front(b, other);
    lemma_same_front_skip(b, other, n, 36);
    lemma_parse_script_front(b.skip(36), other.skip(36));
    lemma_same_front_skip(b, other, n, 36 + n2);
    let x = b.skip(36 + n2 as int);
    let y = other.skip(36 + n2 as int);
    assert(x[0] == y[0] && x[1] == y[1] && x[2] == y[2] && x[3] == y[3]);
}

/// Cutting an input short of what a successful decode consumed makes the
/// decode fail for want of bytes.
pub proof fn lemma_parse_input_truncated(b: Seq<u8>, k: nat)
    requires
        parse_input(b) is Ok,
        k < parse_input(b)->Ok_0.1,
    ensures
        parse_input(b.take(k as int)) == Err::<(TransactionInputView, nat), _>(
            BitcoinError::InsufficientBytes,
        ),
{
    let cut = b.take(k as int);
    let n2 = parse_script(b.skip(36))->Ok_0.1;
    if k >= 36 {
        lemma_parse_outpoint_front(b, cut);
        assert(cut.skip(36) =~= b.skip(36).take(k - 36));
        if k - 36 < n2 {
            lemma_parse_script_truncated(b.skip(36), (k - 36) as nat);
        } else {
            lemma_parse_script_front(b.skip(36), cut.skip(36));
        }
    }
}

/// Every proper prefix of an input's encoding fails to decode for want of
/// bytes.
pub proof fn lemma_input_prefix_fails(i: TransactionInputView, k: nat)
    requires
        i.wf(),
        k < input_bytes(i).len(),
    ensures
        parse_input(input_bytes(i).take(k as int)) == Err::<(TransactionInputView, nat), _>(
            BitcoinError::InsufficientBytes,
        ),
{
    lemma_input_round_trip(i);
    lemma_parse_input_truncated(input_bytes(i), k);
}

impl TransactionInput {
    /// Every input in memory is well formed.
    pub proof fn lemma_view_wf(&self)
        ensures
            self@.wf(),
    {
        self.previous_output.lemma_view_wf();
        assert(self.script_sig.bytes.len() == self.script_sig@.len());
    }

    /// The input made of the three fields.
    pub fn new(previous_output: OutPoint, script_sig: Script, sequence: u32) -> (r: Self)
        ensures
            r.previous_output == previous_output,
            r.script_sig == script_sig,
            r.sequence == sequence,
    {
        Self { previous_output, script_sig, sequence }
    }

    /// The three fields, encoded one after the other. The bytes decode to
    /// the input again.
    pub fn to_bytes(&self) -> (out: Vec<u8>)
        ensures
            out@ == input_bytes(self@),
            parse_input(out@) == Ok::<_, BitcoinError>((self@, out@.len())),
    {
        proof {
            self.lemma_view_wf();
            lemma_input_round_trip(self@);
        }
        let mut out: Vec<u8> = self.previous_output.to_bytes();
        let mut script: Vec<u8> = self.script_sig.to_bytes();
        out.append(&mut script);
        push_u32_le(&mut out, self.sequence);
        out
    }

    /// Decodes one input from the front of `bytes`.
    pub fn from_bytes(bytes: &[u8]) -> (r: Result<(Self, usize), BitcoinError>)
        ensures
            decoded(r) == parse_input(bytes@),
            r matches Ok((_, n)) ==> n <= bytes@.len(),
    {
        let len: usize = bytes.len();
        match OutPoint::from_bytes(bytes) {
            Err(e) => Err(e),
            Ok((previous_output, n1)) => {
                assert(bytes@.skip(n1 as int) =~= bytes@.subrange(n1 as int, len as int));
                match Script::from_bytes(slice_subrange(bytes, n1, len)) {
                    Err(e) => Err(e),
                    Ok((script_sig, n2)) => {
                        let offset: usize = n1 + n2;
                        if len - offset < 4 {
                            Err(BitcoinError::InsufficientBytes)
                        } else {
                            let sequence: u32 = read_u32_le(bytes, offset);
                            Ok((TransactionInput { previous_output, script_sig, sequence }, offset + 4))
                        }
                    },
                }
            },
        }
    }
}

} // verus!
