//! Association-list views.
//!
//! The registry stores each of its two mappings as a vector of key/value
//! pairs with pairwise-distinct keys. This module gives the mathematical
//! reading of such a sequence — lookup, per-owner token counts, and the sum
//! of all recorded counts — together with the lemmas that describe how those
//! readings change under `push` and `update`.

use vstd::prelude::*;

use crate::account::AccountId;

verus! {

/// No key occurs twice in the sequence of pairs.
pub open spec fn keys_unique<K, V>(s: Seq<(K, V)>) -> bool {
    forall|i: int, j: int| 0 <= i < j < s.len() ==> s[i].0 != s[j].0
}

/// The value paired with `k`, searching from the end of the sequence, or
/// `None` if no pair carries the key `k`.
pub open spec fn lookup<K, V>(s: Seq<(K, V)>, k: K) -> Option<V>
    decreases s.len(),
{
    if s.len() == 0 {
        None
    } else if s.last().0 == k {
        Some(s.last().1)
    } else {
        lookup(s.drop_last(), k)
    }
}

/// The count recorded for `a`, reading a missing record as zero.
pub open spec fn balance_value(s: Seq<(AccountId, u64)>, a: AccountId) -> u64 {
    match lookup(s, a) {
        Some(count) => count,
        None => 0,
    }
}

/// How many pairs of the ownership sequence name `a` as the owner.
pub open spec fn count_owned(s: Seq<(u64, AccountId)>, a: AccountId) -> int
    decreases s.len(),
{
    if s.len() == 0 {
        0
    } else {
        count_owned(s.drop_last(), a) + if s.last().1 == a {
            1int
        } else {
            0int
        }
    }
}

/// The sum of all counts recorded in the balance sequence.
pub open spec fn sum_counts(s: Seq<(AccountId, u64)>) -> int
    decreases s.len(),
{
    if s.len() == 0 {
        0
    } else {
        sum_counts(s.drop_last()) + s.last().1
    }
}

/// A key is absent exactly when no pair carries it.
pub proof fn lemma_lookup_none<K, V>(s: Seq<(K, V)>, k: K)
    ensures
        lookup(s, k) is None <==> (forall|i: int| 0 <= i < s.len() ==> s[i].0 != k),
    decreases s.len(),
{
    if s.len() > 0 {
        lemma_lookup_none(s.drop_last(), k);
        if lookup(s, k) is None {
            assert forall|i: int| 0 <= i < s.len() implies s[i].0 != k by {
                if i < s.len() - 1 {
                    assert(s.drop_last()[i] == s[i]);
                    assert(s.drop_last()[i].0 != k);
                }
            }
        } else if s.last().0 != k {
            let i = choose|i: int|
                0 <= i < s.drop_last().len() && #[trigger] s.drop_last()[i].0 == k;
            assert(s[i].0 == k);
        }
    }
}

/// With pairwise-distinct keys, looking up the key of any pair yields the
/// value of that pair.
pub proof fn lemma_lookup_at<K, V>(s: Seq<(K, V)>, i: int)
    requires
        keys_unique(s),
        0 <= i < s.len(),
    ensures
        lookup(s, s[i].0) == Some(s[i].1),
    decreases s.len(),
{
    if i < s.len() - 1 {
        assert(keys_unique(s.drop_last()));
        lemma_lookup_at(s.drop_last(), i);
    }
}

/// A successful lookup names the key and value of some pair.
pub proof fn lemma_lookup_some_index<K, V>(s: Seq<(K, V)>, k: K)
    requires
        lookup(s, k) is Some,
    ensures
        exists|i: int|
            0 <= i < s.len() && s[i].0 == k && s[i].1 == lookup(s, k).unwrap(),
    decreases s.len(),
{
    if s.len() > 0 && s.last().0 != k {
        lemma_lookup_some_index(s.drop_last(), k);
        let i = choose|i: int|
            0 <= i < s.drop_last().len() && s.drop_last()[i].0 == k && s.drop_last()[i].1
                == lookup(s.drop_last(), k).unwrap();
        assert(s[i].0 == k && s[i].1 == lookup(s, k).unwrap());
    }
}

/// Appending a pair adds its key and hides no other key.
pub proof fn lemma_lookup_push<K, V>(s: Seq<(K, V)>, k: K, v: V, k2: K)
    ensures
        lookup(s.push((k, v)), k2) == if k2 == k {
            Some(v)
        } else {
            lookup(s, k2)
        },
{
    assert(s.push((k, v)).drop_last() =~= s);
}

/// Replacing the value of the pair at `i` (keeping its key) changes the
/// lookup of that key alone.
pub proof fn lemma_lookup_update<K, V>(s: Seq<(K, V)>, i: int, v: V, k2: K)
    requires
        keys_unique(s),
        0 <= i < s.len(),
    ensures
        lookup(s.update(i, (s[i].0, v)), k2) == if k2 == s[i].0 {
            Some(v)
        } else {
            lookup(s, k2)
        },
    decreases s.len(),
{
    let t = s.update(i, (s[i].0, v));
    if i == s.len() - 1 {
        assert(t.drop_last() =~= s.drop_last());
    } else {
        assert(t.last() == s.last());
        assert(t.drop_last() =~= s.drop_last().update(i, (s[i].0, v)));
        assert(keys_unique(s.drop_last()));
        lemma_lookup_update(s.drop_last(), i, v, k2);
    }
}

/// Updating a pair's key and value rewrites the counts of the old and the
/// new owner and no others.
pub proof fn lemma_count_update(s: Seq<(u64, AccountId)>, i: int, k: u64, b: AccountId, a: AccountId)
    requires
        0 <= i < s.len(),
    ensures
        count_owned(s.update(i, (k, b)), a) == count_owned(s, a) - (if s[i].1 == a {
            1int
        } else {
            0int
        }) + (if b == a {
            1int
        } else {
            0int
        }),
    decreases s.len(),
{
    let t = s.update(i, (k, b));
    if i == s.len() - 1 {
        assert(t.drop_last() =~= s.drop_last());
    } else {
        assert(t.last() == s.last());
        assert(t.drop_last() =~= s.drop_last().update(i, (k, b)));
        lemma_count_update(s.drop_last(), i, k, b, a);
    }
}

/// Appending a pair raises the count of its owner by one.
pub proof fn lemma_count_push(s: Seq<(u64, AccountId)>, k: u64, b: AccountId, a: AccountId)
    ensures
        count_owned(s.push((k, b)), a) == count_owned(s, a) + if b == a {
            1int
        } else {
            0int
        },
{
    assert(s.push((k, b)).drop_last() =~= s);
}

/// Counts are non-negative.
pub proof fn lemma_count_nonneg(s: Seq<(u64, AccountId)>, a: AccountId)
    ensures
        0 <= count_owned(s, a),
    decreases s.len(),
{
    if s.len() > 0 {
        lemma_count_nonneg(s.drop_last(), a);
    }
}

/// Two distinct accounts together own no more tokens than the sequence
/// records.
pub proof fn lemma_count_pair_le_len(s: Seq<(u64, AccountId)>, a: AccountId, b: AccountId)
    requires
        a != b,
    ensures
        count_owned(s, a) + count_owned(s, b) <= s.len(),
    decreases s.len(),
{
    if s.len() > 0 {
        lemma_count_pair_le_len(s.drop_last(), a, b);
    }
}

/// The recorded owner of a token owns at least one token.
pub proof fn lemma_owner_count_pos(s: Seq<(u64, AccountId)>, t: u64, a: AccountId)
    requires
        lookup(s, t) == Some(a),
    ensures
        count_owned(s, a) >= 1,
    decreases s.len(),
{
    if s.last().0 == t {
        lemma_count_nonneg(s.drop_last(), a);
    } else {
        lemma_owner_count_pos(s.drop_last(), t, a);
    }
}

/// Appending a pair with a fresh key keeps the keys pairwise distinct.
pub proof fn lemma_keys_unique_push<K, V>(s: Seq<(K, V)>, k: K, v: V)
    requires
        keys_unique(s),
        forall|i: int| 0 <= i < s.len() ==> s[i].0 != k,
    ensures
        keys_unique(s.push((k, v))),
{
    let t = s.push((k, v));
    assert forall|i: int, j: int| 0 <= i < j < t.len() implies t[i].0 != t[j].0 by {
        assert(t[i] == s[i]);
        if j < s.len() {
            assert(t[j] == s[j]);
        } else {
            assert(t[j] == (k, v));
        }
    }
}

/// Replacing the value of the pair at `i` (keeping its key) keeps the keys
/// pairwise distinct.
pub proof fn lemma_keys_unique_update<K, V>(s: Seq<(K, V)>, i: int, v: V)
    requires
        keys_unique(s),
        0 <= i < s.len(),
    ensures
        keys_unique(s.update(i, (s[i].0, v))),
{
    let t = s.update(i, (s[i].0, v));
    assert forall|x: int, y: int| 0 <= x < y < t.len() implies t[x].0 != t[y].0 by {
        assert(t[x].0 == s[x].0);
        assert(t[y].0 == s[y].0);
    }
}

/// Replacing the value of the pair at `i` moves the sum of counts by the
/// difference of the values.
pub proof fn lemma_sum_update(s: Seq<(AccountId, u64)>, i: int, c: u64)
    requires
        0 <= i < s.len(),
    ensures
        sum_counts(s.update(i, (s[i].0, c))) == sum_counts(s) - s[i].1 + c,
    decreases s.len(),
{
    let t = s.update(i, (s[i].0, c));
    if i == s.len() - 1 {
        assert(t.drop_last() =~= s.drop_last());
    } else {
        assert(t.last() == s.last());
        assert(t.drop_last() =~= s.drop_last().update(i, (s[i].0, c)));
        lemma_sum_update(s.drop_last(), i, c);
    }
}

/// A balance sequence that records zero for every account sums to zero.
pub proof fn lemma_zero_balances_zero_sum(bal: Seq<(AccountId, u64)>)
    requires
        keys_unique(bal),
        forall|a: AccountId| balance_value(bal, a) == 0,
    ensures
        sum_counts(bal) == 0,
    decreases bal.len(),
{
    if bal.len() > 0 {
        let a0 = bal.last().0;
        lemma_lookup_at(bal, bal.len() - 1);
        assert(balance_value(bal, a0) == 0);
        assert forall|a: AccountId| balance_value(bal.drop_last(), a) == 0 by {
            if a == a0 {
                lemma_lookup_none(bal.drop_last(), a);
                assert forall|x: int|
                    0 <= x < bal.drop_last().len() implies bal.drop_last()[x].0 != a0 by {
                    assert(bal.drop_last()[x] == bal[x]);
                    assert(bal[x].0 != bal[bal.len() - 1].0);
                }
            } else {
                assert(balance_value(bal, a) == 0);
            }
        }
        lemma_zero_balances_zero_sum(bal.drop_last());
    }
}

/// If every account's recorded count equals the number of ownership
/// records naming it, the counts sum to the number of ownership records:
/// every token is counted once, for its one owner.
pub proof fn lemma_sum_matches_token_count(
    bal: Seq<(AccountId, u64)>,
    owners: Seq<(u64, AccountId)>,
)
    requires
        keys_unique(bal),
        forall|a: AccountId| balance_value(bal, a) == count_owned(owners, a),
    ensures
        sum_counts(bal) == owners.len(),
    decreases owners.len(),
{
    if owners.len() == 0 {
        assert forall|a: AccountId| balance_value(bal, a) == 0 by {
            assert(count_owned(owners, a) == 0);
        }
        lemma_zero_balances_zero_sum(bal);
    } else {
        let a0 = owners.last().1;
        let os = owners.drop_last();
        lemma_count_nonneg(os, a0);
        assert(balance_value(bal, a0) == count_owned(owners, a0));
        assert(balance_value(bal, a0) >= 1);
        lemma_lookup_some_index(bal, a0);
        let w = choose|w: int|
            0 <= w < bal.len() && bal[w].0 == a0 && bal[w].1 == lookup(bal, a0).unwrap();
        let c = bal[w].1;
        let bal2 = bal.update(w, (a0, (c - 1) as u64));
        lemma_keys_unique_update(bal, w, (c - 1) as u64);
        lemma_sum_update(bal, w, (c - 1) as u64);
        assert forall|a: AccountId| balance_value(bal2, a) == count_owned(os, a) by {
            lemma_lookup_update(bal, w, (c - 1) as u64, a);
            assert(balance_value(bal, a) == count_owned(owners, a));
        }
        lemma_sum_matches_token_count(bal2, os);
    }
}

} // verus!
