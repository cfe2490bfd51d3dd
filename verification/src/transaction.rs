//! The transfer record that blocks carry.

use vstd::prelude::*;
use vstd::string::StringExecFns;

verus! {

/// One transfer of `amount` units from `sender` to `receiver`. Immutable once
/// created; a transaction has no id of its own, its identity is its position
/// within a block.
pub struct Transaction {
    pub sender: String,
    pub receiver: String,
    pub amount: u64,
}

impl Transaction {
    /// The exact text this transaction contributes to a block's hash input:
    /// sender, receiver and decimal amount, concatenated without delimiter.
    pub open spec fn rendered(self) -> Seq<char> {
        self.sender@ + self.receiver@ + crate::decimal::dec_rep(self.amount as nat)
    }

    /// The one-line human-readable text for this transaction.
    pub open spec fn display(self) -> Seq<char> {
        "Transaction: "@ + self.sender@ + " -> "@ + self.receiver@ + " | Amount: "@
            + crate::decimal::dec_rep(self.amount as nat)
    }

    /// Renders the transaction for a reader, exactly as `display` describes.
    pub fn render(&self) -> (r: String)
        ensures
            r@ == self.display(),
    {
        let mut s: String = "Transaction: ".to_owned();
        s.append(self.sender.as_str());
        s.append(" -> ");
        s.append(self.receiver.as_str());
        s.append(" | Amount: ");
        let a = crate::decimal::u64_to_string(self.amount);
        s.append(a.as_str());
        s
    }
}

} // verus!
