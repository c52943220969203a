//! A whole transaction: version, inputs, lock time.

use vstd::prelude::*;
use vstd::slice::slice_subrange;
use crate::buf::{lemma_same_front_skip, same_front};
use crate::compact_size::{
    CompactSize, compact_size_bytes, lemma_compact_size_round_trip, lemma_parse_compact_size_front,
    lemma_parse_compact_size_truncated, parse_compact_size,
};
use crate::error::{BitcoinError, decoded};
use crate::input::{
    TransactionInput, TransactionInputView, input_bytes, lemma_input_round_trip,
    lemma_parse_input_front, lemma_parse_input_truncated, parse_input,
};
use crate::le::{le_bytes_u32, le_u32, lemma_le_u32_round_trip, push_u32_le, read_u32_le};

verus! {

/// A transaction without outputs or witness data.
#[derive(Debug, PartialEq, Eq, Clone)]
pub struct BitcoinTransaction {
    pub version: u32,
    pub inputs: Vec<TransactionInput>,
    pub lock_time: u32,
}

/// What a `BitcoinTransaction` stands for.
pub struct BitcoinTransactionView {
    pub version: u32,
    pub inputs: Seq<TransactionInputView>,
    pub lock_time: u32,
}

impl BitcoinTransactionView {
    /// Every input is well formed and a compact size can hold their number.
    pub open spec fn wf(self) -> bool {
        &&& self.inputs.len() <= u64::MAX
        &&& forall|i: int| 0 <= i < self.inputs.len() ==> (#[trigger] self.inputs[i]).wf()
    }
}

/// The views of a run of inputs, in order.
pub open spec fn inputs_view(inputs: Seq<TransactionInput>) -> Seq<TransactionInputView> {
    inputs.map_values(|i: TransactionInput| i@)
}

impl View for BitcoinTransaction {
    type V = BitcoinTransactionView;

    open spec fn view(&self) -> BitcoinTransactionView {
        BitcoinTransactionView {
            version: self.version,
            inputs: inputs_view(self.inputs@),
            lock_time: self.lock_time,
        }
    }
}

/// The encodings of `inputs`, one after the other.
pub open spec fn inputs_bytes(inputs: Seq<TransactionInputView>) -> Seq<u8>
    decreases inputs.len(),
{
    if inputs.len() == 0 {
        Seq::empty()
    } else {
        inputs_bytes(inputs.drop_last()) + input_bytes(inputs.last())
    }
}

/// The encoding of a transaction: version, number of inputs as a compact
/// size, the inputs, lock time.
pub open spec fn transaction_bytes(t: BitcoinTransactionView) -> Seq<u8> {
    le_bytes_u32(t.version) + compact_size_bytes(t.inputs.len() as u64) + inputs_bytes(t.inputs)
        + le_bytes_u32(t.lock_time)
}

/// What decoding `count` inputs from the front of `b` gives, each one
/// starting where the one before it ended. The first input that fails
/// decides the error.
pub open spec fn parse_inputs(b: Seq<u8>, count: nat) -> Result<
    (Seq<TransactionInputView>, nat),
    BitcoinError,
>
    decreases count,
{
    if count == 0 {
        Ok((Seq::empty(), 0))
    } else {
        match parse_inputs(b, (count - 1) as nat) {
            Err(e) => Err(e),
            Ok((earlier, offset)) => match parse_input(b.skip(offset as int)) {
                Err(e) => Err(e),
                Ok((input, n)) => Ok((earlier.push(input), offset + n)),
            },
        }
    }
}

/// What decoding the front of `b` gives, field by field from the left.
pub open spec fn parse_transaction(b: Seq<u8>) -> Result<(BitcoinTransactionView, nat), BitcoinError> {
    if b.len() < 4 {
        Err(BitcoinError::InsufficientBytes)
    } else {
        match parse_compact_size(b.skip(4)) {
            Err(e) => Err(e),
            Ok((count, p)) => match parse_inputs(b.skip((4 + p) as int), count as nat) {
                Err(e) => Err(e),
                Ok((inputs, n)) => if b.len() < 4 + p + n + 4 {
                    Err(BitcoinError::InsufficientBytes)
                } else {
                    Ok(
                        (
                            BitcoinTransactionView {
                                version: le_u32(b),
                                inputs,
                                lock_time: le_u32(b.skip((4 + p + n) as int)),
                            },
                            4 + p + n + 4,
                        ),
                    )
                },
            },
        }
    }
}

/// Once an input has failed, asking for more inputs fails in the same way.
pub proof fn lemma_parse_inputs_error_stays(b: Seq<u8>, failed: nat, count: nat)
    requires
        failed <= count,
        parse_inputs(b, failed) is Err,
    ensures
        parse_inputs(b, count) == parse_inputs(b, failed),
    decreases count,
{
    if failed < count {
        lemma_parse_inputs_error_stays(b, failed, (count - 1) as nat);
    }
}

/// A successful decode of a run of inputs consumes no more bytes than the
/// input holds.
pub proof fn lemma_parse_inputs_bound(b: Seq<u8>, count: nat)
    requires
        parse_inputs(b, count) is Ok,
    ensures
        parse_inputs(b, count)->Ok_0.1 <= b.len(),
    decreases count,
{
    if count > 0 {
        lemma_parse_inputs_bound(b, (count - 1) as nat);
    }
}

/// A successful decode of a run of inputs depends only on the bytes it
/// consumed.
pub proof fn lemma_parse_inputs_front(b: Seq<u8>, other: Seq<u8>, count: nat)
    requires
        parse_inputs(b, count) is Ok,
        same_front(b, other, parse_inputs(b, count)->Ok_0.1),
    ensures
        parse_inputs(other, count) == parse_inputs(b, count),
    decreases count,
{
    if count > 0 {
        let n = parse_inputs(b, count)->Ok_0.1;
        let offset = parse_inputs(b, (count - 1) as nat)->Ok_0.1;
        lemma_parse_inputs_front(b, other, (count - 1) as nat);
        lemma_same_front_skip(b, other, n, offset);
        lemma_parse_input_front(b.skip(offset as int), other.skip(offset as int));
    }
}

/// Cutting an input short of what a successful decode of a run of inputs
/// consumed makes the decode fail for want of bytes.
pub proof fn lemma_parse_inputs_truncated(b: Seq<u8>, count: nat, k: nat)
    requires
        parse_inputs(b, count) is Ok,
        k < parse_inputs(b, count)->Ok_0.1,
    ensures
        parse_inputs(b.take(k as int), count) == Err::<(Seq<TransactionInputView>, nat), _>(
            BitcoinError::InsufficientBytes,
        ),
    decreases count,
{
    if count > 0 {
        let cut = b.take(k as int);
        let offset = parse_inputs(b, (count - 1) as nat)->Ok_0.1;
        lemma_parse_inputs_bound(b, (count - 1) as nat);
        if k < offset {
            lemma_parse_inputs_truncated(b, (count - 1) as nat, k);
        } else {
            lemma_parse_inputs_front(b, cut, (count - 1) as nat);
            assert(cut.skip(offset as int) =~= b.skip(offset as int).take(k - offset));
            lemma_parse_input_truncated(b.skip(offset as int), (k - offset) as nat);
        }
    }
}

/// Decoding the encodings of a run of inputs, one after the other, gives
/// the inputs back and consumes all of the bytes.
pub proof fn lemma_inputs_round_trip(inputs: Seq<TransactionInputView>)
    requires
        forall|i: int| 0 <= i < inputs.len() ==> (#[trigger] inputs[i]).wf(),
    ensures
        parse_inputs(inputs_bytes(inputs), inputs.len()) == Ok::<_, BitcoinError>(
            (inputs, inputs_bytes(inputs).len()),
        ),
    decreases inputs.len(),
{
    if inputs.len() > 0 {
        let earlier = inputs.drop_last();
        let b = inputs_bytes(inputs);
        let head = inputs_bytes(earlier);
        lemma_inputs_round_trip(earlier);
        lemma_parse_inputs_front(head, b, earlier.len());
        assert(b.skip(head.len() as int) =~= input_bytes(inputs.last()));
        lemma_input_round_trip(inputs.last());
        assert(earlier.push(inputs.last()) =~= inputs);
    } else {
        assert(inputs =~= Seq::empty());
    }
}

/// Decoding the encoding of a transaction gives the transaction back and
/// consumes the whole encoding.
pub proof fn lemma_transaction_round_trip(t: BitcoinTransactionView)
    requires
        t.wf(),
    ensures
        parse_transaction(transaction_bytes(t)) == Ok::<_, BitcoinError>(
            (t, transaction_bytes(t).len()),
        ),
{
    let b = transaction_bytes(t);
    let size = compact_size_bytes(t.inputs.len() as u64);
    let body = inputs_bytes(t.inputs);
    lemma_le_u32_round_trip(t.version);
    lemma_le_u32_round_trip(t.lock_time);
    lemma_compact_size_round_trip(t.inputs.len() as u64);
    lemma_parse_compact_size_front(size, b.skip(4));
    lemma_inputs_round_trip(t.inputs);
    lemma_parse_inputs_front(body, b.skip(4 + size.len() as int), t.inputs.len());
    assert(b.skip(4 + size.len() as int + body.len() as int) =~= le_bytes_u32(t.lock_time));
    assert(le_u32(b) == le_u32(le_bytes_u32(t.version)));
}

/// Every proper prefix of a transaction's encoding fails to decode for
/// want of bytes.
pub proof fn lemma_transaction_prefix_fails(t: BitcoinTransactionView, k: nat)
    requires
        t.wf(),
        k < transaction_bytes(t).len(),
    ensures
        parse_transaction(transaction_bytes(t).take(k as int)) == Err::<
            (BitcoinTransactionView, nat),
            _,
        >(BitcoinError::InsufficientBytes),
{
    lemma_transaction_round_trip(t);
    lemma_parse_transaction_truncated(transaction_bytes(t), k);
}

/// In the encoding of a transaction the count behind the version decodes
/// to the number of inputs, and the whole is eight bytes longer than the
/// count and the inputs together.
pub proof fn lemma_transaction_layout(t: BitcoinTransactionView)
    requires
        t.wf(),
    ensures
        parse_compact_size(transaction_bytes(t).skip(4)) == Ok::<_, BitcoinError>(
            (t.inputs.len() as u64, compact_size_bytes(t.inputs.len() as u64).len()),
        ),
        transaction_bytes(t).len() == 8 + compact_size_bytes(t.inputs.len() as u64).len()
            + inputs_bytes(t.inputs).len(),
{
    let size = compact_size_bytes(t.inputs.len() as u64);
    lemma_compact_size_round_trip(t.inputs.len() as u64);
    lemma_parse_compact_size_front(size, transaction_bytes(t).skip(4));
}

/// A successful decode depends only on the bytes it consumed: any input
/// that starts with the same bytes decodes to the same result, whatever
/// follows them.
pub proof fn lemma_parse_transaction_front(b: Seq<u8>, other: Seq<u8>)
    requires
        parse_transaction(b) is Ok,
        same_front(b, other, parse_transaction(b)->Ok_0.1),
    ensures
        parse_transaction(other) == parse_transaction(b),
{
    let n = parse_transaction(b)->Ok_0.1;
    let (count, p) = parse_compact_size(b.skip(4))->Ok_0;
    let m = parse_inputs(b.skip(4 + p as int), count as nat)->Ok_0.1;
    lemma_same_front_skip(b, other, n, 4);
    lemma_parse_compact_size_front(b.skip(4), other.skip(4));
    lemma_same_front_skip(b, other, n, 4 + p);
    lemma_parse_inputs_front(b.skip(4 + p as int), other.skip(4 + p as int), count as nat);
    let x = b.skip(4 + p as int + m as int);
    let y = other.skip(4 + p as int + m as int);
    assert(x[0] == y[0] && x[1] == y[1] && x[2] == y[2] && x[3] == y[3]);
    assert(b[0] == other[0] && b[1] == other[1] && b[2] == other[2] && b[3] == other[3]);
}

/// Cutting an input short of what a successful decode consumed makes the
/// decode fail for want of bytes.
pub proof fn lemma_parse_transaction_truncated(b: Seq<u8>, k: nat)
    requires
        parse_transaction(b) is Ok,
        k < parse_transaction(b)->Ok_0.1,
    ensures
        parse_transaction(b.take(k as int)) == Err::<(BitcoinTransactionView, nat), _>(
            BitcoinError::InsufficientBytes,
        ),
{
    let cut = b.take(k as int);
    let (count, p) = parse_compact_size(b.skip(4))->Ok_0;
    let rest = b.skip(4 + p as int);
    let m = parse_inputs(rest, count as nat)->Ok_0.1;
    if k >= 4 {
        assert(cut.skip(4) =~= b.skip(4).take(k - 4));
        if k - 4 < p {
            lemma_parse_compact_size_truncated(b.skip(4), (k - 4) as nat);
        } else {
            lemma_parse_compact_size_front(b.skip(4), cut.skip(4));
            assert(cut.skip(4 + p as int) =~= rest.take(k - 4 - p));
            if k - 4 - p < m {
                lemma_parse_inputs_truncated(rest, count as nat, (k - 4 - p) as nat);
            } else {
                lemma_parse_inputs_front(rest, cut.skip(4 + p as int), count as nat);
            }
        }
    }
}

/// Encoding one more input appends its bytes to those of the inputs
/// before it.
proof fn lemma_inputs_bytes_step(inputs: Seq<TransactionInputView>, i: int)
    requires
        0 <= i < inputs.len(),
    ensures
        inputs_bytes(inputs.take(i + 1)) == inputs_bytes(inputs.take(i)) + input_bytes(inputs[i]),
{
    assert(inputs.take(i + 1).drop_last() =~= inputs.take(i));
}

/// Appends the encodings of `inputs`, in order, to `out`.
pub(crate) fn encode_inputs(inputs: &Vec<TransactionInput>, out: &mut Vec<u8>)
    ensures
        final(out)@ == old(out)@ + inputs_bytes(inputs_view(inputs@)),
{
    let count: usize = inputs.len();
    let ghost all = inputs_view(inputs@);
    let mut i: usize = 0;
    assert(out@ =~= old(out)@ + inputs_bytes(all.take(0)));
    while i < count
        invariant
            i <= count == inputs@.len() == all.len(),
            all == inputs_view(inputs@),
            out@ == old(out)@ + inputs_bytes(all.take(i as int)),
        decreases count - i,
    {
        let ghost before = out@;
        let mut one: Vec<u8> = inputs[i].to_bytes();
        out.append(&mut one);
        proof {
            lemma_inputs_bytes_step(all, i as int);
            assert(all[i as int] == inputs@[i as int]@);
            assert(out@ == before + input_bytes(all[i as int]));
            assert(out@ =~= old(out)@ + inputs_bytes(all.take(i + 1)));
        }
        i += 1;
    }
    assert(all.take(count as int) =~= all);
}

/// Decodes `count` inputs from `bytes[start..]`, one after the other, and
/// returns them with the position behind the last one.
pub(crate) fn decode_inputs(bytes: &[u8], start: usize, count: u64) -> (r: Result<
    (Vec<TransactionInput>, usize),
    BitcoinError,
>)
    requires
        start <= bytes@.len(),
    ensures
        match r {
            Ok((inputs, end)) => start <= end <= bytes@.len() && parse_inputs(
                bytes@.skip(start as int),
                count as nat,
            ) == Ok::<_, BitcoinError>((inputs_view(inputs@), (end - start) as nat)),
            Err(e) => parse_inputs(bytes@.skip(start as int), count as nat) == Err::<
                (Seq<TransactionInputView>, nat),
                _,
            >(e),
        },
{
    let len: usize = bytes.len();
    let ghost rest = bytes@.skip(start as int);
    let mut inputs: Vec<TransactionInput> = Vec::new();
    let mut offset: usize = start;
    let mut i: u64 = 0;
    assert(inputs_view(inputs@) =~= Seq::empty());
    while i < count
        invariant
            i <= count,
            start <= offset <= len == bytes@.len(),
            rest == bytes@.skip(start as int),
            parse_inputs(rest, i as nat) == Ok::<_, BitcoinError>(
                (inputs_view(inputs@), (offset - start) as nat),
            ),
        decreases count - i,
    {
        assert(rest.skip(offset - start) =~= bytes@.subrange(offset as int, len as int));
        let next = TransactionInput::from_bytes(slice_subrange(bytes, offset, len));
        match next {
            Err(e) => {
                proof {
                    lemma_parse_inputs_error_stays(rest, (i + 1) as nat, count as nat);
                }
                return Err(e);
            },
            Ok((input, n)) => {
                assert(inputs_view(inputs@.push(input)) =~= inputs_view(inputs@).push(input@));
                inputs.push(input);
                offset += n;
                i += 1;
            },
        }
    }
    Ok((inputs, offset))
}

impl BitcoinTransaction {
    /// Every transaction in memory is well formed.
    pub proof fn lemma_view_wf(&self)
        ensures
            self@.wf(),
    {
        assert(self.inputs.len() == self@.inputs.len());
        assert forall|i: int| 0 <= i < self@.inputs.len() implies (#[trigger] self@.inputs[i]).wf() by {
            self.inputs@[i].lemma_view_wf();
        }
    }

    /// The transaction made of the three fields.
    pub fn new(version: u32, inputs: Vec<TransactionInput>, lock_time: u32) -> (r: Self)
        ensures
            r.version == version,
            r.inputs == inputs,
            r.lock_time == lock_time,
    {
        BitcoinTransaction { version, inputs, lock_time }
    }

    /// The encoding of the transaction, which decodes to the transaction
    /// again.
    pub fn to_bytes(&self) -> (out: Vec<u8>)
        ensures
            out@ == transaction_bytes(self@),
            parse_transaction(out@) == Ok::<_, BitcoinError>((self@, out@.len())),
    {
        proof {
            self.lemma_view_wf();
            lemma_transaction_round_trip(self@);
        }
        let mut out: Vec<u8> = Vec::new();
        push_u32_le(&mut out, self.version);
        let mut size: Vec<u8> = CompactSize::new(self.inputs.len() as u64).to_bytes();
        out.append(&mut size);
        encode_inputs(&self.inputs, &mut out);
        push_u32_le(&mut out, self.lock_time);
        out
    }

    /// Decodes one transaction from the front of `bytes`.
    pub fn from_bytes(bytes: &[u8]) -> (r: Result<(Self, usize), BitcoinError>)
        ensures
            decoded(r) == parse_transaction(bytes@),
            r matches Ok((_, n)) ==> n <= bytes@.len(),
    {
        let len: usize = bytes.len();
        if len < 4 {
            return Err(BitcoinError::InsufficientBytes);
        }
        let version: u32 = read_u32_le(bytes, 0);
        assert(bytes@.skip(0) =~= bytes@);
        assert(bytes@.skip(4) =~= bytes@.subrange(4, len as int));
        let (size, p) = match CompactSize::from_bytes(slice_subrange(bytes, 4, len)) {
            Err(e) => { return Err(e); },
            Ok(found) => found,
        };
        let start: usize = 4 + p;
        let (inputs, offset) = match decode_inputs(bytes, start, size.value) {
            Err(e) => { return Err(e); },
            Ok(found) => found,
        };
        if len - offset < 4 {
            Err(BitcoinError::InsufficientBytes)
        } else {
            let lock_time: u32 = read_u32_le(bytes, offset);
            Ok((BitcoinTransaction { version, inputs, lock_time }, offset + 4))
        }
    }
}

} // verus!
