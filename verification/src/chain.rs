//! The chain itself: an append-only sequence of hash-linked blocks over an
//! account ledger and a validator registry, sealed by stake-weighted random
//! selection.

use vstd::prelude::*;
use vstd::string::StringExecFns;
use rand::Rng;
use crate::block::{chain_valid_at, Block};
use crate::ledger::{
    amount_of, apply_batch, batch_ok, clone_entries, contains, contains_name, credit, delta_of,
    lookup, push_entry, set_amount, sum_amounts, total_amount, unique_names, Entry,
};
use crate::transaction::Transaction;

verus! {

/// The fixed reward minted for the validator that seals a block.
pub const BLOCK_REWARD: u64 = 100;

/// Why a submitted block was rejected. Rejection is atomic: a rejected batch
/// changes nothing.
#[derive(Debug, PartialEq, Eq, Clone, Copy)]
pub enum RejectReason {
    /// The batch cannot apply: some transfer, in listed order, overdraws its
    /// sender or overflows its receiver.
    InvalidTransactions,
    /// No validator holds a positive stake, so nobody can seal the block.
    NoValidator,
    /// Crediting the block reward to the selected validator would overflow
    /// that account's balance.
    RewardOverflow,
}

/// Every non-genesis block stores the digest of its own fields and the hash
/// of the block before it.
pub open spec fn chain_valid(c: Seq<Block>) -> bool {
    forall|i: int| 1 <= i < c.len() ==> #[trigger] chain_valid_at(c, i)
}

/// The whole ledger state: the block chain, the spendable balances, and the
/// validators' stakes. Stake is moved out of the spendable balance when a
/// validator registers.
pub struct Blockchain {
    pub chain: Vec<Block>,
    pub balances: Vec<Entry>,
    pub validators: Vec<Entry>,
}

impl Blockchain {
    /// Every state reachable through the public operations: the chain starts
    /// at genesis and is correctly hash-linked, each block's stored index is
    /// its position, names are unique in both registries, and the stakes sum
    /// to a machine word.
    pub open spec fn wf(self) -> bool {
        &&& self.chain@.len() >= 1
        &&& chain_valid(self.chain@)
        &&& forall|i: int|
            0 <= i < self.chain@.len() ==> (#[trigger] self.chain@[i]).index as int == i
        &&& unique_names(self.balances@)
        &&& unique_names(self.validators@)
        &&& total_amount(self.validators@) <= u64::MAX
    }

    /// A chain of length one holding only the genesis block: no transactions,
    /// the sentinel previous hash, no accounts, no validators.
    pub fn new() -> (bc: Blockchain)
        ensures
            bc.wf(),
            bc.chain@.len() == 1,
            bc.chain@[0].index == 0,
            bc.chain@[0].transactions@.len() == 0,
            bc.chain@[0].previous_hash@ == "0"@,
            bc.chain@[0].hash_correct(),
            bc.balances@.len() == 0,
            bc.validators@.len() == 0,
    {
        let transactions: Vec<Transaction> = Vec::new();
        let genesis = Block::new(0, transactions, "0");
        let mut chain: Vec<Block> = Vec::new();
        chain.push(genesis);
        let bc = Blockchain { chain, balances: Vec::new(), validators: Vec::new() };
        proof {
            assert(total_amount(bc.validators@) == 0);
        }
        bc
    }

    /// The spendable balance under `account_name`; an unknown account holds
    /// zero.
    pub fn get_balance(&self, account_name: &str) -> (r: u64)
        ensures
            r == amount_of(self.balances@, account_name@),
    {
        lookup(&self.balances, account_name)
    }

    /// Opens an account with an initial balance. Reports false, and changes
    /// nothing, exactly when the name is already taken.
    pub fn create_account(&mut self, account_name: &str, initial_balance: u64) -> (r: bool)
        requires
            old(self).wf(),
        ensures
            final(self).wf(),
            r == !contains_name(old(self).balances@, account_name@),
            !r ==> *final(self) == *old(self),
            final(self).chain == old(self).chain,
            final(self).validators == old(self).validators,
            r ==> contains_name(final(self).balances@, account_name@),
            r ==> amount_of(final(self).balances@, account_name@) == initial_balance,
            r ==> forall|n: Seq<char>|
                n != account_name@ ==> contains_name(final(self).balances@, n) == contains_name(
                    old(self).balances@,
                    n,
                ),
            r ==> forall|n: Seq<char>|
                n != account_name@ ==> amount_of(final(self).balances@, n) == amount_of(
                    old(self).balances@,
                    n,
                ),
            r ==> total_amount(final(self).balances@) == total_amount(old(self).balances@)
                + initial_balance,
    {
        if contains(&self.balances, account_name) {
            false
        } else {
            push_entry(&mut self.balances, account_name, initial_balance);
            true
        }
    }

    /// A batch is accepted exactly when its transfers, in listed order, each
    /// leave their sender solvent and their receiver's balance within a
    /// machine word.
    pub fn validate_transactions(&self, transactions: &Vec<Transaction>) -> (r: bool)
        requires
            self.wf(),
        ensures
            r == batch_ok(self.balances@, transactions@),
    {
        let mut scratch = clone_entries(&self.balances);
        apply_batch(&mut scratch, transactions)
    }

    /// Registers an account as a validator, moving `stake` out of its
    /// spendable balance into the registry. Reports false, and changes
    /// nothing, when the account does not exist, is already a validator
    /// (re-staking is rejected, not topped up), holds less than the stake,
    /// or the registry's total stake would overflow.
    pub fn add_validator(&mut self, validator_name: &str, stake: u64) -> (r: bool)
        requires
            old(self).wf(),
        ensures
            final(self).wf(),
            r == (contains_name(old(self).balances@, validator_name@) && !contains_name(
                old(self).validators@,
                validator_name@,
            ) && total_amount(old(self).validators@) + stake <= u64::MAX && amount_of(
                old(self).balances@,
                validator_name@,
            ) >= stake),
            !r ==> *final(self) == *old(self),
            final(self).chain == old(self).chain,
            r ==> amount_of(final(self).balances@, validator_name@) == amount_of(
                old(self).balances@,
                validator_name@,
            ) - stake,
            r ==> forall|n: Seq<char>|
                n != validator_name@ ==> amount_of(final(self).balances@, n) == amount_of(
                    old(self).balances@,
                    n,
                ),
            r ==> forall|n: Seq<char>|
                contains_name(final(self).balances@, n) == contains_name(old(self).balances@, n),
            r ==> contains_name(final(self).validators@, validator_name@),
            r ==> amount_of(final(self).validators@, validator_name@) == stake,
            r ==> forall|n: Seq<char>|
                n != validator_name@ ==> contains_name(final(self).validators@, n)
                    == contains_name(old(self).validators@, n),
            r ==> forall|n: Seq<char>|
                n != validator_name@ ==> amount_of(final(self).validators@, n) == amount_of(
                    old(self).validators@,
                    n,
                ),
            r ==> total_amount(final(self).validators@) == total_amount(old(self).validators@)
                + stake,
            r ==> total_amount(final(self).balances@) == total_amount(old(self).balances@) - stake,
    {
        if !contains(&self.balances, validator_name) {
            return false;
        }
        if contains(&self.validators, validator_name) {
            return false;
        }
        let total_stake = sum_amounts(&self.validators);
        if stake > u64::MAX - total_stake {
            return false;
        }
        let balance = lookup(&self.balances, validator_name);
        if balance < stake {
            return false;
        }
        set_amount(&mut self.balances, validator_name, balance - stake);
        push_entry(&mut self.validators, validator_name, stake);
        true
    }

    /// Draws a validator with probability proportional to its stake: a
    /// uniform ticket below the total stake, then a cumulative scan. Returns
    /// a validator with positive stake whenever the total stake is positive;
    /// none otherwise (in particular when no validator is registered — a
    /// zero-stake validator can never be drawn).
    pub fn select_validator(&self) -> (r: Option<String>)
        requires
            self.wf(),
        ensures
            r is Some <==> total_amount(self.validators@) > 0,
            r matches Some(name) ==> contains_name(self.validators@, name@) && amount_of(
                self.validators@,
                name@,
            ) > 0,
    {
        let total_stake = sum_amounts(&self.validators);
        if total_stake == 0 {
            return None;
        }
        let mut ticket = random_below(total_stake);
        proof {
            assert(self.validators@.skip(0) =~= self.validators@);
        }
        let mut i: usize = 0;
        while i < self.validators.len()
            invariant
                i <= self.validators.len(),
                unique_names(self.validators@),
                total_amount(self.validators@) > 0,
                ticket < total_amount(self.validators@.skip(i as int)),
            decreases self.validators.len() - i,
        {
            let e = &self.validators[i];
            proof {
                assert(self.validators@.skip(i as int)[0] == self.validators@[i as int]);
                assert(self.validators@.skip(i as int).drop_first() =~= self.validators@.skip(
                    i + 1 as int,
                ));
            }
            if ticket < e.amount {
                proof {
                    crate::ledger::lemma_amount_at_index(self.validators@, i as int);
                }
                return Some(e.name.clone());
            }
            ticket = ticket - e.amount;
            i = i + 1;
        }
        proof {
            assert(self.validators@.skip(self.validators@.len() as int) =~= Seq::<Entry>::empty());
            assert(false);
        }
        None
    }

    /// Submits a batch of transactions as the next block. The whole sequence
    /// is atomic: the batch is validated, a validator is selected, the
    /// transfers and the reward are applied to a staged copy of the ledger,
    /// and only then is anything committed and the block appended. On any
    /// rejection the state is exactly as before.
    pub fn add_block(&mut self, transactions: Vec<Transaction>) -> (r: Result<(), RejectReason>)
        requires
            old(self).wf(),
        ensures
            final(self).wf(),
            r is Err ==> *final(self) == *old(self),
            (r == Err::<(), RejectReason>(RejectReason::InvalidTransactions)) <==> !batch_ok(
                old(self).balances@,
                transactions@,
            ),
            (r == Err::<(), RejectReason>(RejectReason::NoValidator)) <==> (batch_ok(
                old(self).balances@,
                transactions@,
            ) && total_amount(old(self).validators@) == 0),
            r == Err::<(), RejectReason>(RejectReason::RewardOverflow) ==> batch_ok(
                old(self).balances@,
                transactions@,
            ) && total_amount(old(self).validators@) > 0 && exists|v: Seq<char>|
                contains_name(old(self).validators@, v) && amount_of(old(self).validators@, v) > 0
                    && amount_of(old(self).balances@, v) + delta_of(transactions@, v)
                    + BLOCK_REWARD > u64::MAX,
            (batch_ok(old(self).balances@, transactions@) && total_amount(old(self).validators@)
                > 0 && (forall|v: Seq<char>|
                contains_name(old(self).validators@, v) && amount_of(old(self).validators@, v) > 0
                    ==> amount_of(old(self).balances@, v) + delta_of(transactions@, v)
                    + BLOCK_REWARD <= u64::MAX)) ==> r is Ok,
            r is Ok ==> batch_ok(old(self).balances@, transactions@) && total_amount(
                old(self).validators@,
            ) > 0,
            r is Ok ==> final(self).validators == old(self).validators,
            r is Ok ==> final(self).chain@.len() == old(self).chain@.len() + 1,
            r is Ok ==> forall|i: int|
                0 <= i < old(self).chain@.len() ==> final(self).chain@[i] == old(self).chain@[i],
            r is Ok ==> final(self).chain@.last().index == old(self).chain@.len(),
            r is Ok ==> final(self).chain@.last().transactions@ == transactions@,
            r is Ok ==> final(self).chain@.last().previous_hash@ == old(
                self,
            ).chain@.last().hash@,
            r is Ok ==> final(self).chain@.last().hash_correct(),
            r is Ok ==> exists|v: Seq<char>|
                contains_name(old(self).validators@, v) && amount_of(old(self).validators@, v) > 0
                    && (forall|n: Seq<char>|
                    amount_of(final(self).balances@, n) == amount_of(old(self).balances@, n)
                        + delta_of(transactions@, n) + (
                    if n == v {
                        BLOCK_REWARD as int
                    } else {
                        0
                    })),
            r is Ok ==> total_amount(final(self).balances@) == total_amount(old(self).balances@)
                + BLOCK_REWARD,
    {
        let mut staged = clone_entries(&self.balances);
        let applies = apply_batch(&mut staged, &transactions);
        if !applies {
            return Err(RejectReason::InvalidTransactions);
        }
        let validator = match self.select_validator() {
            Some(v) => v,
            None => {
                proof {
                    crate::ledger::lemma_total_nonneg(self.validators@);
                }
                return Err(RejectReason::NoValidator);
            },
        };
        let credited = credit(&mut staged, validator.as_str(), BLOCK_REWARD);
        if !credited {
            proof {
                assert(amount_of(old(self).balances@, validator@) + delta_of(
                    transactions@,
                    validator@,
                ) + BLOCK_REWARD > u64::MAX);
            }
            return Err(RejectReason::RewardOverflow);
        }
        let new_block = BlockFactory::create_block(&self.chain, transactions);
        self.balances = staged;
        let ghost old_chain = self.chain@;
        self.chain.push(new_block);
        proof {
            let c = self.chain@;
            assert(c.last() == c[c.len() - 1]);
            assert forall|i: int| 1 <= i < c.len() implies #[trigger] chain_valid_at(c, i) by {
                if i < c.len() - 1 {
                    assert(c[i] == old_chain[i]);
                    assert(c[i - 1] == old_chain[i - 1]);
                    assert(chain_valid_at(old_chain, i));
                } else {
                    assert(c[i - 1] == old_chain[old_chain.len() - 1]);
                }
            }
            assert forall|i: int| 0 <= i < c.len() implies (#[trigger] c[i]).index as int == i by {
                if i < c.len() - 1 {
                    assert(c[i] == old_chain[i]);
                }
            }
            assert(contains_name(old(self).validators@, validator@) && amount_of(
                old(self).validators@,
                validator@,
            ) > 0 && (forall|n: Seq<char>|
                amount_of(self.balances@, n) == amount_of(old(self).balances@, n) + delta_of(
                    transactions@,
                    n,
                ) + (
                if n == validator@ {
                    BLOCK_REWARD as int
                } else {
                    0
                })));
        }
        Ok(())
    }

    /// Walks the chain from its second block, recomputing each block's digest
    /// from its stored fields and checking the link to its predecessor's
    /// stored hash; reports false at the first mismatch.
    pub fn is_chain_valid(&self) -> (r: bool)
        ensures
            r == chain_valid(self.chain@),
    {
        let mut i: usize = 1;
        while i < self.chain.len()
            invariant
                1 <= i,
                forall|k: int| 1 <= k < i && k < self.chain@.len() ==> #[trigger] chain_valid_at(
                    self.chain@,
                    k,
                ),
            decreases self.chain@.len() - i,
        {
            let current = &self.chain[i];
            let previous = &self.chain[i - 1];
            let recomputed = Block::calculate_hash(
                current.index,
                current.timestamp,
                &current.transactions,
                current.previous_hash.as_str(),
            );
            if current.hash != recomputed {
                proof {
                    assert(!chain_valid_at(self.chain@, i as int));
                }
                return false;
            }
            if current.previous_hash != previous.hash {
                proof {
                    assert(!chain_valid_at(self.chain@, i as int));
                }
                return false;
            }
            i = i + 1;
        }
        true
    }

    /// Renders the whole chain for a reader, exactly as `chain_display`
    /// describes.
    pub fn render(&self) -> (r: String)
        ensures
            r@ == chain_display(self.chain@),
    {
        let mut s = String::new();
        let mut i: usize = 0;
        while i < self.chain.len()
            invariant
                i <= self.chain.len(),
                s@ == chain_display(self.chain@.take(i as int)),
            decreases self.chain.len() - i,
        {
            if i > 0 {
                s.append("\n\n");
            }
            let text = self.chain[i].render();
            s.append(text.as_str());
            proof {
                let tk1 = self.chain@.take(i + 1 as int);
                assert(tk1.drop_last() =~= self.chain@.take(i as int));
                assert(tk1.last() == self.chain@[i as int]);
                assert(s@ =~= chain_display(tk1));
            }
            i = i + 1;
        }
        proof {
            assert(self.chain@.take(self.chain@.len() as int) =~= self.chain@);
        }
        s
    }
}

/// The human-readable text for a chain: each block's text, separated by
/// blank lines.
pub open spec fn chain_display(c: Seq<Block>) -> Seq<char>
    decreases c.len(),
{
    if c.len() == 0 {
        Seq::empty()
    } else if c.len() == 1 {
        c[0].display()
    } else {
        chain_display(c.drop_last()) + "\n\n"@ + c.last().display()
    }
}

/// Builds the block that extends a given chain.
pub struct BlockFactory;

impl BlockFactory {
    /// The next block for `chain`: index one past the last block, previous
    /// hash the last block's stored hash, stamped with the current time.
    pub fn create_block(chain: &Vec<Block>, transactions: Vec<Transaction>) -> (b: Block)
        requires
            chain@.len() >= 1,
        ensures
            b.index as int == chain@.len(),
            b.transactions == transactions,
            b.previous_hash@ == chain@.last().hash@,
            b.hash_correct(),
    {
        let previous_block = &chain[chain.len() - 1];
        let chain_len = chain.len() as u64;
        Block::new(chain_len, transactions, previous_block.hash.as_str())
    }
}

/// Relies on rand's `thread_rng` and `Rng::gen_range` over `0..bound`: a draw
/// from a non-empty range lies below its upper bound.
#[verifier::external_body]
fn random_below(bound: u64) -> (r: u64)
    requires
        bound > 0,
    ensures
        r < bound,
{
    let mut rng = rand::thread_rng();
    rng.gen_range(0..bound)
}

/// Law: any state reached from `Blockchain::new` through the public mutators
/// alone is well-formed, and a well-formed chain passes `is_chain_valid`:
/// every stored hash recomputes from its block's fields and links to its
/// predecessor.
pub proof fn lemma_well_formed_chain_is_valid(bc: Blockchain)
    requires
        bc.wf(),
    ensures
        chain_valid(bc.chain@),
{
}

} // verus!
