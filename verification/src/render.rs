//! A plain-text report of a transaction, for people to read.

use vstd::prelude::*;
use crate::hex_text::{hex_encode, hex_text};
use crate::input::{TransactionInput, TransactionInputView};
use crate::transaction::{BitcoinTransaction, BitcoinTransactionView, inputs_view};

verus! {

/// The decimal digits of `n`, without leading zeros.
pub open spec fn decimal_text(n: nat) -> Seq<char>
    decreases n,
{
    if n < 10 {
        seq![(48 + n) as char]
    } else {
        decimal_text(n / 10).push((48 + n % 10) as char)
    }
}

/// The six lines that report the input at position `index`.
pub open spec fn input_text(index: nat, i: TransactionInputView) -> Seq<char> {
    "Input "@ + decimal_text(index) + ":\n"@ + "  Previous Output Txid: "@ + hex_text(
        i.previous_output.txid,
    ) + "\n"@ + "  Previous Output Vout: "@ + decimal_text(i.previous_output.vout as nat) + "\n"@
        + "  ScriptSig Length: "@ + decimal_text(i.script_sig.len()) + "\n"@
        + "  ScriptSig Bytes: "@ + hex_text(i.script_sig) + "\n"@ + "  Sequence: "@ + decimal_text(
        i.sequence as nat,
    ) + "\n"@
}

/// The reports of the first `upto` inputs, in order.
pub open spec fn inputs_text(inputs: Seq<TransactionInputView>, upto: nat) -> Seq<char>
    decreases upto,
{
    if upto == 0 {
        Seq::empty()
    } else {
        inputs_text(inputs, (upto - 1) as nat) + input_text((upto - 1) as nat, inputs[upto - 1])
    }
}

/// The whole report: version, number of inputs, each input, lock time.
/// The last line has no line break.
pub open spec fn transaction_text(t: BitcoinTransactionView) -> Seq<char> {
    "Version: "@ + decimal_text(t.version as nat) + "\n"@ + "Input Count: "@ + decimal_text(
        t.inputs.len(),
    ) + "\n"@ + inputs_text(t.inputs, t.inputs.len()) + "Lock Time: "@ + decimal_text(
        t.lock_time as nat,
    )
}

/// The one-character text of a decimal digit.
fn digit_str(d: u8) -> (s: &'static str)
    requires
        d < 10,
    ensures
        s@ == seq![(48 + d) as char],
{
    proof {
        reveal_strlit("0");
        reveal_strlit("1");
        reveal_strlit("2");
        reveal_strlit("3");
        reveal_strlit("4");
        reveal_strlit("5");
        reveal_strlit("6");
        reveal_strlit("7");
        reveal_strlit("8");
        reveal_strlit("9");
    }
    let s = match d {
        0 => "0",
        1 => "1",
        2 => "2",
        3 => "3",
        4 => "4",
        5 => "5",
        6 => "6",
        7 => "7",
        8 => "8",
        _ => "9",
    };
    assert(s@ =~= seq![(48 + d) as char]);
    s
}

/// `n` in decimal digits.
pub fn decimal(n: u64) -> (s: String)
    ensures
        s@ == decimal_text(n as nat),
    decreases n,
{
    if n < 10 {
        String::from_str(digit_str(n as u8))
    } else {
        let mut s = decimal(n / 10);
        s.append(digit_str((n % 10) as u8));
        assert(s@ =~= decimal_text(n as nat));
        s
    }
}

impl TransactionInput {
    /// The report of this input as the one at position `index`.
    pub fn render(&self, index: usize) -> (s: String)
        ensures
            s@ == input_text(index as nat, self@),
    {
        let mut s = String::from_str("Input ");
        s.append(decimal(index as u64).as_str());
        s.append(":\n");
        s.append("  Previous Output Txid: ");
        s.append(hex_encode(self.previous_output.txid.0.as_slice()).as_str());
        s.append("\n");
        s.append("  Previous Output Vout: ");
        s.append(decimal(self.previous_output.vout as u64).as_str());
        s.append("\n");
        s.append("  ScriptSig Length: ");
        s.append(decimal(self.script_sig.bytes.len() as u64).as_str());
        s.append("\n");
        s.append("  ScriptSig Bytes: ");
        s.append(hex_encode(self.script_sig.bytes.as_slice()).as_str());
        s.append("\n");
        s.append("  Sequence: ");
        s.append(decimal(self.sequence as u64).as_str());
        s.append("\n");
        s
    }
}

impl BitcoinTransaction {
    /// The report of this transaction.
    pub fn render(&self) -> (s: String)
        ensures
            s@ == transaction_text(self@),
    {
        let count: usize = self.inputs.len();
        let mut s = String::from_str("Version: ");
        s.append(decimal(self.version as u64).as_str());
        s.append("\n");
        s.append("Input Count: ");
        s.append(decimal(count as u64).as_str());
        s.append("\n");
        let ghost head = s@;
        let ghost all = inputs_view(self.inputs@);
        let mut i: usize = 0;
        while i < count
            invariant
                i <= count == self.inputs@.len(),
                all == inputs_view(self.inputs@),
                s@ == head + inputs_text(all, i as nat),
            decreases count - i,
        {
            let one = self.inputs[i].render(i);
            s.append(one.as_str());
            i += 1;
            assert(s@ =~= head + inputs_text(all, i as nat));
        }
        s.append("Lock Time: ");
        s.append(decimal(self.lock_time as u64).as_str());
        s
    }
}

} // verus!
