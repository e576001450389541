//! The mathematical model of the balance ledger.
//!
//! The ledger is viewed as a sequence of entries, one per participant:
//! the participant's identity paired with the balance held for it. The
//! spec functions here say what a ledger records; the lemmas relate those
//! readings across the updates the pool performs.

use vstd::prelude::*;

verus! {

/// The sum of all balances recorded in the ledger.
pub open spec fn sum_balances(s: Seq<(u64, i128)>) -> int
    decreases s.len(),
{
    if s.len() == 0 {
        0
    } else {
        sum_balances(s.drop_last()) + s.last().1
    }
}

/// The balance recorded for `who`: the amount of the entry carrying that
/// identity, or zero where no entry does.
pub open spec fn balance_in(s: Seq<(u64, i128)>, who: u64) -> int
    decreases s.len(),
{
    if s.len() == 0 {
        0
    } else if s.last().0 == who {
        s.last().1 as int
    } else {
        balance_in(s.drop_last(), who)
    }
}

/// No two entries carry the same identity.
pub open spec fn keys_unique(s: Seq<(u64, i128)>) -> bool {
    forall|i: int, j: int| 0 <= i < j < s.len() ==> s[i].0 != s[j].0
}

/// Every recorded balance is nonnegative.
pub open spec fn balances_nonneg(s: Seq<(u64, i128)>) -> bool {
    forall|i: int| 0 <= i < s.len() ==> s[i].1 >= 0
}

/// With unique identities, the balance recorded for the identity at
/// position `i` is exactly that entry's amount.
pub proof fn lemma_balance_at_index(s: Seq<(u64, i128)>, i: int)
    requires
        keys_unique(s),
        0 <= i < s.len(),
    ensures
        balance_in(s, s[i].0) == s[i].1,
    decreases s.len(),
{
    if i < s.len() - 1 {
        assert(s[i].0 != s[s.len() - 1].0);
        assert(keys_unique(s.drop_last()));
        lemma_balance_at_index(s.drop_last(), i);
        assert(s.drop_last()[i] == s[i]);
    }
}

/// An identity that appears in no entry has balance zero.
pub proof fn lemma_balance_absent(s: Seq<(u64, i128)>, who: u64)
    requires
        forall|k: int| 0 <= k < s.len() ==> s[k].0 != who,
    ensures
        balance_in(s, who) == 0,
    decreases s.len(),
{
    if s.len() > 0 {
        assert(s[s.len() - 1].0 != who);
        assert forall|k: int| 0 <= k < s.drop_last().len() implies s.drop_last()[k].0 != who by {
            assert(s.drop_last()[k] == s[k]);
        }
        lemma_balance_absent(s.drop_last(), who);
    }
}

/// Replacing the amount in entry `i` moves the sum by exactly the
/// difference between the new and the old amount.
pub proof fn lemma_sum_update(s: Seq<(u64, i128)>, i: int, v: i128)
    requires
        0 <= i < s.len(),
    ensures
        sum_balances(s.update(i, (s[i].0, v))) == sum_balances(s) - s[i].1 + v,
    decreases s.len(),
{
    let t = s.update(i, (s[i].0, v));
    if i == s.len() - 1 {
        assert(t.drop_last() =~= s.drop_last());
    } else {
        assert(t.drop_last() =~= s.drop_last().update(i, (s[i].0, v)));
        assert(t.last() == s.last());
        assert(s.drop_last()[i] == s[i]);
        lemma_sum_update(s.drop_last(), i, v);
    }
}

/// Replacing the amount in entry `i` changes the recorded balance of that
/// entry's identity to the new amount, and of no other identity.
pub proof fn lemma_balance_update(s: Seq<(u64, i128)>, i: int, v: i128, w: u64)
    requires
        keys_unique(s),
        0 <= i < s.len(),
    ensures
        balance_in(s.update(i, (s[i].0, v)), w) == if w == s[i].0 {
            v as int
        } else {
            balance_in(s, w)
        },
    decreases s.len(),
{
    let t = s.update(i, (s[i].0, v));
    if i == s.len() - 1 {
        assert(t.drop_last() =~= s.drop_last());
    } else {
        assert(t.drop_last() =~= s.drop_last().update(i, (s[i].0, v)));
        assert(t.last() == s.last());
        assert(s[i].0 != s[s.len() - 1].0);
        assert(keys_unique(s.drop_last()));
        assert(s.drop_last()[i] == s[i]);
        lemma_balance_update(s.drop_last(), i, v, w);
    }
}

/// Replacing an entry's amount keeps identities unique.
pub proof fn lemma_keys_unique_update(s: Seq<(u64, i128)>, i: int, v: i128)
    requires
        keys_unique(s),
        0 <= i < s.len(),
    ensures
        keys_unique(s.update(i, (s[i].0, v))),
{
    let t = s.update(i, (s[i].0, v));
    assert forall|a: int, b: int| 0 <= a < b < t.len() implies t[a].0 != t[b].0 by {
        assert(s[a].0 != s[b].0);
    }
}

/// Replacing an entry's amount with a nonnegative one keeps every
/// recorded balance nonnegative.
pub proof fn lemma_nonneg_update(s: Seq<(u64, i128)>, i: int, v: i128)
    requires
        balances_nonneg(s),
        0 <= i < s.len(),
        v >= 0,
    ensures
        balances_nonneg(s.update(i, (s[i].0, v))),
{
    let t = s.update(i, (s[i].0, v));
    assert forall|k: int| 0 <= k < t.len() implies t[k].1 >= 0 by {
        if k != i {
            assert(s[k].1 >= 0);
        }
    }
}

/// Appending an entry adds its amount to the sum; the appended identity's
/// balance becomes the appended amount, and every other identity's
/// balance is unchanged.
pub proof fn lemma_push(s: Seq<(u64, i128)>, x: (u64, i128))
    ensures
        sum_balances(s.push(x)) == sum_balances(s) + x.1,
        balance_in(s.push(x), x.0) == x.1,
        forall|w: u64| w != x.0 ==> balance_in(s.push(x), w) == balance_in(s, w),
{
    let t = s.push(x);
    assert(t.drop_last() =~= s);
    assert(t.last() == x);
    assert forall|w: u64| w != x.0 implies balance_in(t, w) == balance_in(s, w) by {
        assert(t.drop_last() == s);
    }
}

/// Appending an entry with a fresh identity keeps identities unique.
pub proof fn lemma_keys_unique_push(s: Seq<(u64, i128)>, x: (u64, i128))
    requires
        keys_unique(s),
        forall|k: int| 0 <= k < s.len() ==> s[k].0 != x.0,
    ensures
        keys_unique(s.push(x)),
{
    let t = s.push(x);
    assert forall|a: int, b: int| 0 <= a < b < t.len() implies t[a].0 != t[b].0 by {
        if b < s.len() {
            assert(s[a].0 != s[b].0);
        } else {
            assert(s[a].0 != x.0);
        }
    }
}

/// Appending an entry with a nonnegative amount keeps every recorded
/// balance nonnegative.
pub proof fn lemma_nonneg_push(s: Seq<(u64, i128)>, x: (u64, i128))
    requires
        balances_nonneg(s),
        x.1 >= 0,
    ensures
        balances_nonneg(s.push(x)),
{
    let t = s.push(x);
    assert forall|k: int| 0 <= k < t.len() implies t[k].1 >= 0 by {
        if k < s.len() {
            assert(s[k].1 >= 0);
        }
    }
}

/// A ledger of nonnegative amounts has a nonnegative sum.
pub proof fn lemma_sum_nonneg(s: Seq<(u64, i128)>)
    requires
        balances_nonneg(s),
    ensures
        sum_balances(s) >= 0,
    decreases s.len(),
{
    if s.len() > 0 {
        assert(s[s.len() - 1].1 >= 0);
        assert(balances_nonneg(s.drop_last()));
        lemma_sum_nonneg(s.drop_last());
    }
}

/// In a ledger of nonnegative amounts, every recorded balance lies
/// between zero and the sum of all balances.
pub proof fn lemma_balance_le_sum(s: Seq<(u64, i128)>, who: u64)
    requires
        balances_nonneg(s),
    ensures
        0 <= balance_in(s, who),
        balance_in(s, who) <= sum_balances(s),
    decreases s.len(),
{
    if s.len() > 0 {
        assert(s[s.len() - 1].1 >= 0);
        assert(balances_nonneg(s.drop_last()));
        lemma_balance_le_sum(s.drop_last(), who);
        if s.last().0 == who {
            lemma_sum_nonneg(s.drop_last());
        }
    }
}

} // verus!
