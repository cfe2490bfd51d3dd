//! Named amounts and their transactional mutation. A `Vec<Entry>` with unique
//! names serves both as the account ledger (name, spendable balance) and as
//! the validator registry (name, stake).

use vstd::prelude::*;
use vstd::pervasive::VecAdditionalExecFns;
use crate::transaction::Transaction;

verus! {

/// One named amount: an account's spendable balance in the ledger, or a
/// validator's stake in the registry.
pub struct Entry {
    pub name: String,
    pub amount: u64,
}

/// Whether some entry carries `name`.
pub open spec fn contains_name(s: Seq<Entry>, name: Seq<char>) -> bool
    decreases s.len(),
{
    if s.len() == 0 {
        false
    } else {
        s[0].name@ == name || contains_name(s.drop_first(), name)
    }
}

/// The amount held under `name`; a name that is absent holds zero.
pub open spec fn amount_of(s: Seq<Entry>, name: Seq<char>) -> u64
    decreases s.len(),
{
    if s.len() == 0 {
        0
    } else if s[0].name@ == name {
        s[0].amount
    } else {
        amount_of(s.drop_first(), name)
    }
}

/// No two entries carry the same name.
pub open spec fn unique_names(s: Seq<Entry>) -> bool {
    forall|i: int, j: int| 0 <= i < j < s.len() ==> s[i].name@ != s[j].name@
}

/// The sum of all amounts.
pub open spec fn total_amount(s: Seq<Entry>) -> int
    decreases s.len(),
{
    if s.len() == 0 {
        0
    } else {
        s[0].amount + total_amount(s.drop_first())
    }
}

pub proof fn lemma_unique_drop_first(s: Seq<Entry>)
    requires
        unique_names(s),
        s.len() > 0,
    ensures
        unique_names(s.drop_first()),
{
    assert forall|i: int, j: int| 0 <= i < j < s.drop_first().len() implies s.drop_first()[i].name@
        != s.drop_first()[j].name@ by {
        assert(s.drop_first()[i] == s[i + 1]);
        assert(s.drop_first()[j] == s[j + 1]);
    }
}

/// A name is contained exactly when some index carries it.
pub proof fn lemma_contains_index(s: Seq<Entry>, name: Seq<char>)
    ensures
        contains_name(s, name) <==> exists|i: int| 0 <= i < s.len() && s[i].name@ == name,
    decreases s.len(),
{
    if s.len() > 0 {
        lemma_contains_index(s.drop_first(), name);
        assert(forall|i: int| 0 <= i < s.drop_first().len() ==> s.drop_first()[i] == s[i + 1]);
        if contains_name(s, name) {
            if s[0].name@ == name {
                assert(s[0].name@ == name);
            } else {
                let i = choose|i: int|
                    0 <= i < s.drop_first().len() && s.drop_first()[i].name@ == name;
                assert(s[i + 1].name@ == name);
            }
        }
        if exists|i: int| 0 <= i < s.len() && s[i].name@ == name {
            let i = choose|i: int| 0 <= i < s.len() && s[i].name@ == name;
            if i > 0 {
                assert(s.drop_first()[i - 1].name@ == name);
            }
        }
    }
}

/// A name that is absent holds zero.
pub proof fn lemma_absent_amount_zero(s: Seq<Entry>, name: Seq<char>)
    requires
        !contains_name(s, name),
    ensures
        amount_of(s, name) == 0,
    decreases s.len(),
{
    if s.len() > 0 {
        lemma_absent_amount_zero(s.drop_first(), name);
    }
}

/// With unique names, the amount under the name at index `i` is that entry's
/// amount.
pub proof fn lemma_amount_at_index(s: Seq<Entry>, i: int)
    requires
        unique_names(s),
        0 <= i < s.len(),
    ensures
        contains_name(s, s[i].name@),
        amount_of(s, s[i].name@) == s[i].amount,
    decreases i,
{
    if i == 0 {
    } else {
        lemma_unique_drop_first(s);
        assert(s.drop_first()[i - 1] == s[i]);
        lemma_amount_at_index(s.drop_first(), i - 1);
        assert(s[0].name@ != s[i].name@);
    }
}

/// Skipping a prefix that does not carry `name` changes neither membership
/// nor the amount.
pub proof fn lemma_skip_lookup(s: Seq<Entry>, name: Seq<char>, i: int)
    requires
        0 <= i <= s.len(),
        forall|k: int| 0 <= k < i ==> s[k].name@ != name,
    ensures
        amount_of(s, name) == amount_of(s.skip(i), name),
        contains_name(s, name) == contains_name(s.skip(i), name),
    decreases i,
{
    if i == 0 {
        assert(s.skip(0) =~= s);
    } else {
        lemma_skip_lookup(s, name, i - 1);
        assert(s.skip(i - 1).drop_first() =~= s.skip(i));
        assert(s.skip(i - 1)[0] == s[i - 1]);
    }
}

/// Replacing the entry at `i` by one with the same name: membership is
/// unchanged everywhere, the amount changes at that name alone, and the total
/// moves by the difference.
pub proof fn lemma_update_pointwise(s: Seq<Entry>, i: int, e: Entry)
    requires
        0 <= i < s.len(),
        unique_names(s),
        e.name@ == s[i].name@,
    ensures
        unique_names(s.update(i, e)),
        forall|n: Seq<char>| contains_name(s.update(i, e), n) == contains_name(s, n),
        amount_of(s.update(i, e), e.name@) == e.amount,
        forall|n: Seq<char>| n != e.name@ ==> amount_of(s.update(i, e), n) == amount_of(s, n),
        total_amount(s.update(i, e)) == total_amount(s) - s[i].amount + e.amount,
    decreases s.len(),
{
    let s2 = s.update(i, e);
    assert forall|a: int, b: int| 0 <= a < b < s2.len() implies s2[a].name@ != s2[b].name@ by {
        assert(s2[a].name@ == s[a].name@);
        assert(s2[b].name@ == s[b].name@);
    }
    if i == 0 {
        assert(s2.drop_first() =~= s.drop_first());
        assert(s2[0] == e);
        assert forall|n: Seq<char>| contains_name(s2, n) == contains_name(s, n) by {
            assert(contains_name(s2, n) == (e.name@ == n || contains_name(s2.drop_first(), n)));
            assert(contains_name(s, n) == (s[0].name@ == n || contains_name(s.drop_first(), n)));
        }
        assert(amount_of(s2, e.name@) == e.amount);
        assert forall|n: Seq<char>| n != e.name@ implies amount_of(s2, n) == amount_of(s, n) by {
            assert(s2[0].name@ == s[0].name@);
        }
    } else {
        lemma_unique_drop_first(s);
        assert(s.drop_first()[i - 1] == s[i]);
        lemma_update_pointwise(s.drop_first(), i - 1, e);
        let t2 = s.drop_first().update(i - 1, e);
        assert(s2.drop_first() =~= t2);
        assert(s2[0] == s[0]);
        assert forall|n: Seq<char>| contains_name(s2, n) == contains_name(s, n) by {
            assert(contains_name(t2, n) == contains_name(s.drop_first(), n));
        }
        assert(s[0].name@ != e.name@);
        assert(amount_of(s2, e.name@) == amount_of(t2, e.name@));
        assert(amount_of(s2, e.name@) == e.amount);
        assert forall|n: Seq<char>| n != e.name@ implies amount_of(s2, n) == amount_of(s, n) by {
            assert(amount_of(t2, n) == amount_of(s.drop_first(), n));
        }
    }
}

/// Appending a fresh name: the new name holds the new amount, every other
/// name is untouched, and the total grows by the new amount.
pub proof fn lemma_push_pointwise(s: Seq<Entry>, e: Entry)
    requires
        unique_names(s),
        !contains_name(s, e.name@),
    ensures
        unique_names(s.push(e)),
        contains_name(s.push(e), e.name@),
        forall|n: Seq<char>| n != e.name@ ==> contains_name(s.push(e), n) == contains_name(s, n),
        amount_of(s.push(e), e.name@) == e.amount,
        forall|n: Seq<char>| n != e.name@ ==> amount_of(s.push(e), n) == amount_of(s, n),
        total_amount(s.push(e)) == total_amount(s) + e.amount,
    decreases s.len(),
{
    let s2 = s.push(e);
    lemma_contains_index(s, e.name@);
    assert forall|a: int, b: int| 0 <= a < b < s2.len() implies s2[a].name@ != s2[b].name@ by {
        if b < s.len() {
            assert(s2[a] == s[a]);
            assert(s2[b] == s[b]);
        } else {
            assert(s2[a] == s[a]);
            assert(s2[b] == e);
        }
    }
    if s.len() == 0 {
        assert(s =~= Seq::<Entry>::empty());
        assert(s2[0] == e);
        assert(s2.drop_first() =~= Seq::<Entry>::empty());
        assert(total_amount(s2) == e.amount + total_amount(Seq::<Entry>::empty()));
        assert forall|n: Seq<char>| n != e.name@ implies contains_name(s2, n) == contains_name(
            s,
            n,
        ) by {
            assert(contains_name(s2, n) == (e.name@ == n || contains_name(
                Seq::<Entry>::empty(),
                n,
            )));
        }
        assert forall|n: Seq<char>| n != e.name@ implies amount_of(s2, n) == amount_of(s, n) by {
            assert(amount_of(s2, n) == amount_of(Seq::<Entry>::empty(), n));
        }
    } else {
        lemma_unique_drop_first(s);
        lemma_push_pointwise(s.drop_first(), e);
        assert(s2.drop_first() =~= s.drop_first().push(e));
        assert(s2[0] == s[0]);
        assert(s[0].name@ != e.name@);
        assert(contains_name(s2, e.name@));
        assert(amount_of(s2, e.name@) == e.amount);
        assert(total_amount(s2) == s[0].amount + total_amount(s.drop_first().push(e)));
        assert forall|n: Seq<char>| n != e.name@ implies contains_name(s2, n) == contains_name(
            s,
            n,
        ) by {
            assert(contains_name(s.drop_first().push(e), n) == contains_name(s.drop_first(), n));
        }
        assert forall|n: Seq<char>| n != e.name@ implies amount_of(s2, n) == amount_of(s, n) by {
            assert(amount_of(s.drop_first().push(e), n) == amount_of(s.drop_first(), n));
        }
    }
}

/// Every total is non-negative: the amounts are unsigned.
pub proof fn lemma_total_nonneg(s: Seq<Entry>)
    ensures
        total_amount(s) >= 0,
    decreases s.len(),
{
    if s.len() > 0 {
        lemma_total_nonneg(s.drop_first());
    }
}

/// The total splits over any cut into a prefix and the rest.
pub proof fn lemma_total_split(s: Seq<Entry>, i: int)
    requires
        0 <= i <= s.len(),
    ensures
        total_amount(s) == total_amount(s.take(i)) + total_amount(s.skip(i)),
    decreases i,
{
    if i == 0 {
        assert(s.take(0) =~= Seq::<Entry>::empty());
        assert(s.skip(0) =~= s);
    } else {
        lemma_total_split(s.drop_first(), i - 1);
        assert(s.take(i).drop_first() =~= s.drop_first().take(i - 1));
        assert(s.skip(i) =~= s.drop_first().skip(i - 1));
        assert(s.take(i)[0] == s[0]);
    }
}

/// Finds the amount under `name`; zero if the name is absent.
pub fn lookup(entries: &Vec<Entry>, name: &str) -> (r: u64)
    ensures
        r == amount_of(entries@, name@),
{
    let name_s: String = name.to_owned();
    let mut i: usize = 0;
    while i < entries.len()
        invariant
            i <= entries.len(),
            name_s@ == name@,
            forall|k: int| 0 <= k < i ==> entries@[k].name@ != name@,
        decreases entries.len() - i,
    {
        let e = &entries[i];
        if e.name == name_s {
            proof {
                lemma_skip_lookup(entries@, name@, i as int);
                assert(entries@.skip(i as int)[0] == entries@[i as int]);
            }
            return e.amount;
        }
        i = i + 1;
    }
    proof {
        lemma_skip_lookup(entries@, name@, entries@.len() as int);
        assert(entries@.skip(entries@.len() as int) =~= Seq::<Entry>::empty());
    }
    0
}

/// Whether an entry carries `name`.
pub fn contains(entries: &Vec<Entry>, name: &str) -> (r: bool)
    ensures
        r == contains_name(entries@, name@),
{
    let name_s: String = name.to_owned();
    let mut i: usize = 0;
    while i < entries.len()
        invariant
            i <= entries.len(),
            name_s@ == name@,
            forall|k: int| 0 <= k < i ==> entries@[k].name@ != name@,
        decreases entries.len() - i,
    {
        let e = &entries[i];
        if e.name == name_s {
            proof {
                lemma_skip_lookup(entries@, name@, i as int);
                assert(entries@.skip(i as int)[0] == entries@[i as int]);
            }
            return true;
        }
        i = i + 1;
    }
    proof {
        lemma_skip_lookup(entries@, name@, entries@.len() as int);
        assert(entries@.skip(entries@.len() as int) =~= Seq::<Entry>::empty());
    }
    false
}

/// Sums all amounts; the caller guarantees the sum fits.
pub fn sum_amounts(entries: &Vec<Entry>) -> (r: u64)
    requires
        total_amount(entries@) <= u64::MAX,
    ensures
        r == total_amount(entries@),
{
    let mut acc: u64 = 0;
    let mut i: usize = 0;
    while i < entries.len()
        invariant
            i <= entries.len(),
            total_amount(entries@) <= u64::MAX,
            acc == total_amount(entries@.take(i as int)),
        decreases entries.len() - i,
    {
        proof {
            lemma_total_split(entries@, i as int);
            lemma_total_split(entries@, i + 1 as int);
            assert(entries@.skip(i as int).drop_first() =~= entries@.skip(i + 1 as int));
            assert(entries@.skip(i as int)[0] == entries@[i as int]);
            lemma_total_nonneg(entries@.skip(i + 1 as int));
            assert(total_amount(entries@.take(i + 1 as int)) == total_amount(
                entries@.take(i as int),
            ) + entries@[i as int].amount);
        }
        acc = acc + entries[i].amount;
        i = i + 1;
    }
    proof {
        assert(entries@.take(entries@.len() as int) =~= entries@);
    }
    acc
}

/// Sets the amount under `name`, which must be present, to `new_amount`.
pub fn set_amount(entries: &mut Vec<Entry>, name: &str, new_amount: u64)
    requires
        unique_names(old(entries)@),
        contains_name(old(entries)@, name@),
    ensures
        unique_names(final(entries)@),
        final(entries)@.len() == old(entries)@.len(),
        forall|n: Seq<char>|
            contains_name(final(entries)@, n) == contains_name(old(entries)@, n),
        amount_of(final(entries)@, name@) == new_amount,
        forall|n: Seq<char>|
            n != name@ ==> amount_of(final(entries)@, n) == amount_of(old(entries)@, n),
        total_amount(final(entries)@) == total_amount(old(entries)@) - amount_of(
            old(entries)@,
            name@,
        ) + new_amount,
{
    let name_s: String = name.to_owned();
    let mut i: usize = 0;
    while i < entries.len()
        invariant
            i <= entries.len(),
            name_s@ == name@,
            entries@ == old(entries)@,
            contains_name(old(entries)@, name@),
            unique_names(old(entries)@),
            forall|k: int| 0 <= k < i ==> entries@[k].name@ != name@,
        decreases entries.len() - i,
    {
        let matched = entries[i].name == name_s;
        if matched {
            let nm = entries[i].name.clone();
            let e = Entry { name: nm, amount: new_amount };
            proof {
                lemma_amount_at_index(entries@, i as int);
                lemma_update_pointwise(entries@, i as int, e);
            }
            entries.set(i, e);
            return ;
        }
        i = i + 1;
    }
    proof {
        lemma_contains_index(old(entries)@, name@);
        assert(false);
    }
}

/// Appends an entry under a name that is not yet present.
pub fn push_entry(entries: &mut Vec<Entry>, name: &str, amount: u64)
    requires
        unique_names(old(entries)@),
        !contains_name(old(entries)@, name@),
    ensures
        unique_names(final(entries)@),
        contains_name(final(entries)@, name@),
        forall|n: Seq<char>|
            n != name@ ==> contains_name(final(entries)@, n) == contains_name(old(entries)@, n),
        amount_of(final(entries)@, name@) == amount,
        forall|n: Seq<char>|
            n != name@ ==> amount_of(final(entries)@, n) == amount_of(old(entries)@, n),
        total_amount(final(entries)@) == total_amount(old(entries)@) + amount,
{
    let e = Entry { name: name.to_owned(), amount };
    proof {
        lemma_push_pointwise(old(entries)@, e);
    }
    entries.push(e);
}

/// Credits `amount` under `name`, creating the entry if the name is absent.
/// Reports false, and changes nothing, exactly when the credit would not fit.
pub fn credit(entries: &mut Vec<Entry>, name: &str, amount: u64) -> (r: bool)
    requires
        unique_names(old(entries)@),
    ensures
        r == (amount_of(old(entries)@, name@) + amount <= u64::MAX),
        !r ==> *final(entries) == *old(entries),
        r ==> unique_names(final(entries)@),
        r ==> contains_name(final(entries)@, name@),
        r ==> forall|n: Seq<char>|
            n != name@ ==> contains_name(final(entries)@, n) == contains_name(old(entries)@, n),
        r ==> amount_of(final(entries)@, name@) == amount_of(old(entries)@, name@) + amount,
        r ==> forall|n: Seq<char>|
            n != name@ ==> amount_of(final(entries)@, n) == amount_of(old(entries)@, n),
        r ==> total_amount(final(entries)@) == total_amount(old(entries)@) + amount,
{
    let present = contains(entries, name);
    let cur = lookup(entries, name);
    if present {
        if amount <= u64::MAX - cur {
            set_amount(entries, name, cur + amount);
            true
        } else {
            false
        }
    } else {
        proof {
            lemma_absent_amount_zero(entries@, name@);
        }
        push_entry(entries, name, amount);
        true
    }
}

/// Debits `amount` from `name`. Reports false, and changes nothing, exactly
/// when the amount held is smaller than the debit.
pub fn debit(entries: &mut Vec<Entry>, name: &str, amount: u64) -> (r: bool)
    requires
        unique_names(old(entries)@),
    ensures
        r == (amount_of(old(entries)@, name@) >= amount),
        !r ==> *final(entries) == *old(entries),
        r ==> unique_names(final(entries)@),
        r ==> forall|n: Seq<char>|
            contains_name(final(entries)@, n) == contains_name(old(entries)@, n),
        r ==> amount_of(final(entries)@, name@) == amount_of(old(entries)@, name@) - amount,
        r ==> forall|n: Seq<char>|
            n != name@ ==> amount_of(final(entries)@, n) == amount_of(old(entries)@, n),
        r ==> total_amount(final(entries)@) == total_amount(old(entries)@) - amount,
{
    let present = contains(entries, name);
    let cur = lookup(entries, name);
    if cur >= amount {
        if present {
            set_amount(entries, name, cur - amount);
        } else {
            proof {
                lemma_absent_amount_zero(entries@, name@);
            }
        }
        true
    } else {
        false
    }
}

/// Clones a ledger, entry for entry.
pub fn clone_entries(entries: &Vec<Entry>) -> (r: Vec<Entry>)
    ensures
        r@ == entries@,
{
    let mut r: Vec<Entry> = Vec::new();
    let mut i: usize = 0;
    while i < entries.len()
        invariant
            i <= entries.len(),
            r@ == entries@.take(i as int),
        decreases entries.len() - i,
    {
        let e = &entries[i];
        let copy = Entry { name: e.name.clone(), amount: e.amount };
        proof {
            assert(copy == entries@[i as int]);
        }
        r.push(copy);
        proof {
            assert(r@ =~= entries@.take(i + 1 as int));
        }
        i = i + 1;
    }
    proof {
        assert(entries@.take(entries@.len() as int) =~= entries@);
    }
    r
}

/// What a batch of transfers does to the amount under `n`: each transfer
/// credits its receiver and debits its sender by its amount.
pub open spec fn delta_of(txs: Seq<Transaction>, n: Seq<char>) -> int
    decreases txs.len(),
{
    if txs.len() == 0 {
        0
    } else {
        delta_of(txs.drop_last(), n) + (
        if txs.last().receiver@ == n {
            txs.last().amount as int
        } else {
            0
        }) - (
        if txs.last().sender@ == n {
            txs.last().amount as int
        } else {
            0
        })
    }
}

/// Whether some transfer of the batch names `n` as its receiver.
pub open spec fn receivers_contain(txs: Seq<Transaction>, n: Seq<char>) -> bool
    decreases txs.len(),
{
    if txs.len() == 0 {
        false
    } else {
        receivers_contain(txs.drop_last(), n) || txs.last().receiver@ == n
    }
}

/// The transfer at position `k` of a batch can apply to the ledger as the
/// transfers before it leave it: the sender then holds at least the amount,
/// and crediting the receiver still fits in a machine word. A transfer to
/// oneself needs no headroom: the credit restores what the debit took.
pub open spec fn step_ok(s: Seq<Entry>, txs: Seq<Transaction>, k: int) -> bool {
    let t = txs[k];
    &&& amount_of(s, t.sender@) + delta_of(txs.take(k), t.sender@) >= t.amount
    &&& (t.receiver@ == t.sender@ || amount_of(s, t.receiver@) + delta_of(txs.take(k), t.receiver@)
        + t.amount <= u64::MAX)
}

/// A batch applies to `s` when every transfer, in listed order, can apply to
/// the ledger as the transfers before it leave it.
pub open spec fn batch_ok(s: Seq<Entry>, txs: Seq<Transaction>) -> bool {
    forall|k: int| 0 <= k < txs.len() ==> step_ok(s, txs, k)
}

/// Applies a batch of transfers in listed order: debit the sender, then
/// credit the receiver. Reports false exactly when the batch cannot apply;
/// the ledger is then left part-way and the caller discards it. On success
/// every name moves by the batch's net delta, the names are the old ones
/// plus the receivers, and the total is conserved: transfers mint nothing.
pub fn apply_batch(entries: &mut Vec<Entry>, transactions: &Vec<Transaction>) -> (r: bool)
    requires
        unique_names(old(entries)@),
    ensures
        r == batch_ok(old(entries)@, transactions@),
        r ==> unique_names(final(entries)@),
        r ==> forall|n: Seq<char>|
            amount_of(final(entries)@, n) == amount_of(old(entries)@, n) + delta_of(
                transactions@,
                n,
            ),
        r ==> forall|n: Seq<char>|
            contains_name(final(entries)@, n) == (contains_name(old(entries)@, n)
                || receivers_contain(transactions@, n)),
        r ==> total_amount(final(entries)@) == total_amount(old(entries)@),
{
    let ghost s0 = entries@;
    let ghost txs = transactions@;
    let mut i: usize = 0;
    while i < transactions.len()
        invariant
            i <= transactions.len(),
            s0 == old(entries)@,
            txs == transactions@,
            unique_names(s0),
            unique_names(entries@),
            forall|n: Seq<char>|
                amount_of(entries@, n) == amount_of(s0, n) + delta_of(txs.take(i as int), n),
            forall|n: Seq<char>|
                contains_name(entries@, n) == (contains_name(s0, n) || receivers_contain(
                    txs.take(i as int),
                    n,
                )),
            total_amount(entries@) == total_amount(s0),
            forall|k: int| 0 <= k < i ==> step_ok(s0, txs, k),
        decreases transactions.len() - i,
    {
        let ghost pre = entries@;
        proof {
            assert(forall|n: Seq<char>|
                contains_name(pre, n) == (contains_name(s0, n) || receivers_contain(
                    txs.take(i as int),
                    n,
                )));
        }
        let t = &transactions[i];
        let deb = debit(entries, t.sender.as_str(), t.amount);
        if !deb {
            proof {
                assert(amount_of(pre, t.sender@) < t.amount);
                assert(!step_ok(s0, txs, i as int));
                assert(!batch_ok(s0, txs));
            }
            return false;
        }
        let ghost mid = entries@;
        let cred = credit(entries, t.receiver.as_str(), t.amount);
        if !cred {
            proof {
                assert(amount_of(mid, t.receiver@) + t.amount > u64::MAX);
                if t.receiver@ == t.sender@ {
                    assert(amount_of(mid, t.receiver@) == amount_of(pre, t.sender@) - t.amount);
                    assert(false);
                } else {
                    assert(amount_of(mid, t.receiver@) == amount_of(pre, t.receiver@));
                    assert(!step_ok(s0, txs, i as int));
                }
                assert(!batch_ok(s0, txs));
            }
            return false;
        }
        proof {
            assert(txs.take(i + 1 as int).drop_last() =~= txs.take(i as int));
            assert(txs.take(i + 1 as int).last() == txs[i as int]);
            if t.receiver@ == t.sender@ {
                assert(amount_of(mid, t.receiver@) == amount_of(pre, t.sender@) - t.amount);
            } else {
                assert(amount_of(mid, t.receiver@) == amount_of(pre, t.receiver@));
            }
            assert(step_ok(s0, txs, i as int));
            assert forall|n: Seq<char>| amount_of(entries@, n) == amount_of(s0, n) + delta_of(
                txs.take(i + 1 as int),
                n,
            ) by {
                assert(delta_of(txs.take(i + 1 as int), n) == delta_of(txs.take(i as int), n) + (
                if txs[i as int].receiver@ == n {
                    txs[i as int].amount as int
                } else {
                    0
                }) - (
                if txs[i as int].sender@ == n {
                    txs[i as int].amount as int
                } else {
                    0
                }));
                if n == t.receiver@ {
                    assert(amount_of(entries@, n) == amount_of(mid, n) + t.amount);
                } else {
                    assert(amount_of(entries@, n) == amount_of(mid, n));
                }
            }
            assert forall|n: Seq<char>| contains_name(entries@, n) == (contains_name(s0, n)
                || receivers_contain(txs.take(i + 1 as int), n)) by {
                assert(receivers_contain(txs.take(i + 1 as int), n) == (receivers_contain(
                    txs.take(i as int),
                    n,
                ) || txs[i as int].receiver@ == n));
                if n == t.receiver@ {
                    assert(contains_name(entries@, n));
                    assert(txs[i as int].receiver@ == n);
                } else {
                    assert(contains_name(entries@, n) == contains_name(mid, n));
                    assert(contains_name(mid, n) == contains_name(pre, n));
                    assert(contains_name(pre, n) == (contains_name(s0, n) || receivers_contain(
                        txs.take(i as int),
                        n,
                    )));
                }
            }
        }
        i = i + 1;
    }
    proof {
        assert(txs.take(txs.len() as int) =~= txs);
    }
    true
}

} // verus!
