//! Blocks: immutable batches of transactions, each bound to its own fields and
//! to its predecessor by a content digest.

use vstd::prelude::*;
use vstd::string::StringExecFns;
use crate::decimal::{dec_rep, u64_to_string};
use crate::hashing::{sha256_hex, sha256_hex_of};
use crate::transaction::Transaction;

verus! {

/// One block of the chain. `hash` is the digest of the block's own fields,
/// `previous_hash` the stored digest of the block before it (the sentinel
/// `"0"` for the genesis block). Created once, never mutated after
/// construction.
pub struct Block {
    pub index: u64,
    pub timestamp: u64,
    pub transactions: Vec<Transaction>,
    pub previous_hash: String,
    pub hash: String,
}

/// The text a batch of transactions contributes to the hash input: each
/// transaction's rendering, in order, with no delimiter.
pub open spec fn txs_rendered(txs: Seq<Transaction>) -> Seq<char>
    decreases txs.len(),
{
    if txs.len() == 0 {
        Seq::empty()
    } else {
        txs_rendered(txs.drop_last()) + txs.last().rendered()
    }
}

/// The full text a block's digest is computed over: decimal index, decimal
/// timestamp, the rendered transactions, and the previous hash, concatenated.
pub open spec fn hash_input(
    index: u64,
    timestamp: u64,
    txs: Seq<Transaction>,
    previous_hash: Seq<char>,
) -> Seq<char> {
    dec_rep(index as nat) + dec_rep(timestamp as nat) + txs_rendered(txs) + previous_hash
}

/// The digest of a block with the given fields. A function of those fields
/// alone: computing it twice on the same fields gives the same digest.
pub open spec fn block_digest(
    index: u64,
    timestamp: u64,
    txs: Seq<Transaction>,
    previous_hash: Seq<char>,
) -> Seq<char> {
    sha256_hex_of(hash_input(index, timestamp, txs, previous_hash))
}

/// The human-readable text for a batch of transactions: one line each,
/// separated by line breaks.
pub open spec fn txs_display(txs: Seq<Transaction>) -> Seq<char>
    decreases txs.len(),
{
    if txs.len() == 0 {
        Seq::empty()
    } else if txs.len() == 1 {
        txs[0].display()
    } else {
        txs_display(txs.drop_last()) + "\n"@ + txs.last().display()
    }
}

/// Block `i` of a chain is correctly bound: its stored hash recomputes from
/// its own fields, and its stored previous hash is its predecessor's stored
/// hash.
pub open spec fn chain_valid_at(c: Seq<Block>, i: int) -> bool
    recommends
        1 <= i < c.len(),
{
    c[i].hash_correct() && c[i].previous_hash@ == c[i - 1].hash@
}

/// Relies on chrono's `Utc::now().timestamp()` for the wall-clock seconds
/// since the epoch; nothing is assumed of the value.
#[verifier::external_body]
fn current_timestamp() -> u64 {
    chrono::Utc::now().timestamp() as u64
}

impl Block {
    /// The stored hash is exactly the digest of the block's own fields.
    pub open spec fn hash_correct(self) -> bool {
        self.hash@ == block_digest(
            self.index,
            self.timestamp,
            self.transactions@,
            self.previous_hash@,
        )
    }

    /// Computes the digest of a block with the given fields. Deterministic:
    /// the result is `block_digest` of the arguments, a function of them and
    /// of nothing else.
    pub fn calculate_hash(
        index: u64,
        timestamp: u64,
        transactions: &Vec<Transaction>,
        previous_hash: &str,
    ) -> (h: String)
        ensures
            h@ == block_digest(index, timestamp, transactions@, previous_hash@),
    {
        let mut input = u64_to_string(index);
        let t = u64_to_string(timestamp);
        input.append(t.as_str());
        let mut i: usize = 0;
        while i < transactions.len()
            invariant
                i <= transactions.len(),
                input@ == dec_rep(index as nat) + dec_rep(timestamp as nat) + txs_rendered(
                    transactions@.take(i as int),
                ),
            decreases transactions.len() - i,
        {
            let tx = &transactions[i];
            input.append(tx.sender.as_str());
            input.append(tx.receiver.as_str());
            let a = u64_to_string(tx.amount);
            input.append(a.as_str());
            proof {
                let taken = transactions@.take(i + 1 as int);
                assert(taken.drop_last() =~= transactions@.take(i as int));
                assert(taken.last() == transactions@[i as int]);
                assert(input@ =~= dec_rep(index as nat) + dec_rep(timestamp as nat)
                    + txs_rendered(taken));
            }
            i = i + 1;
        }
        input.append(previous_hash);
        proof {
            assert(transactions@.take(transactions@.len() as int) =~= transactions@);
            assert(input@ =~= hash_input(index, timestamp, transactions@, previous_hash@));
        }
        sha256_hex(input.as_str())
    }

    /// Builds a block over the given transactions: stamps the current
    /// wall-clock time and computes the digest of the block's own fields.
    /// The caller guarantees that `index` and `previous_hash` fit the chain
    /// the block is destined for.
    pub fn new(index: u64, transactions: Vec<Transaction>, previous_hash: &str) -> (b: Block)
        ensures
            b.index == index,
            b.transactions == transactions,
            b.previous_hash@ == previous_hash@,
            b.hash_correct(),
    {
        let timestamp = current_timestamp();
        let hash = Self::calculate_hash(index, timestamp, &transactions, previous_hash);
        Block { index, timestamp, transactions, previous_hash: previous_hash.to_owned(), hash }
    }

    /// The multi-line human-readable text for this block.
    pub open spec fn display(self) -> Seq<char> {
        "Block "@ + dec_rep(self.index as nat) + "\nTimestamp: "@ + dec_rep(self.timestamp as nat)
            + "\nPrevious Hash: "@ + self.previous_hash@ + "\nHash: "@ + self.hash@
            + "\nTransactions:\n"@ + txs_display(self.transactions@)
    }

    /// Renders the block for a reader, exactly as `display` describes.
    pub fn render(&self) -> (r: String)
        ensures
            r@ == self.display(),
    {
        let mut s: String = "Block ".to_owned();
        let idx = u64_to_string(self.index);
        s.append(idx.as_str());
        s.append("\nTimestamp: ");
        let ts = u64_to_string(self.timestamp);
        s.append(ts.as_str());
        s.append("\nPrevious Hash: ");
        s.append(self.previous_hash.as_str());
        s.append("\nHash: ");
        s.append(self.hash.as_str());
        s.append("\nTransactions:\n");
        let ghost head = s@;
        let mut i: usize = 0;
        while i < self.transactions.len()
            invariant
                i <= self.transactions.len(),
                s@ == head + txs_display(self.transactions@.take(i as int)),
            decreases self.transactions.len() - i,
        {
            if i > 0 {
                s.append("\n");
            }
            let line = self.transactions[i].render();
            s.append(line.as_str());
            proof {
                let tk1 = self.transactions@.take(i + 1 as int);
                assert(tk1.drop_last() =~= self.transactions@.take(i as int));
                assert(tk1.last() == self.transactions@[i as int]);
                assert(s@ =~= head + txs_display(tk1));
            }
            i = i + 1;
        }
        proof {
            assert(self.transactions@.take(self.transactions@.len() as int)
                =~= self.transactions@);
            assert(s@ =~= self.display());
        }
        s
    }
}

/// The digest is deterministic: two digests of the same fields are the same
/// text, however and whenever each was computed.
pub proof fn lemma_digest_deterministic(
    index: u64,
    timestamp: u64,
    txs: Seq<Transaction>,
    previous_hash: Seq<char>,
    h1: Seq<char>,
    h2: Seq<char>,
)
    requires
        h1 == block_digest(index, timestamp, txs, previous_hash),
        h2 == block_digest(index, timestamp, txs, previous_hash),
    ensures
        h1 == h2,
{
}

} // verus!
