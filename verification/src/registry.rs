//! The ownership registry and its transfer state machine.
//!
//! `NFT` tracks which single account owns each distinct token identifier
//! and keeps a per-account count of owned tokens. The authoritative record
//! is the token-to-owner mapping; the count mapping is derived from it, and
//! `well_formed` states that the two agree. Every operation preserves that
//! agreement: in particular, minting a token identifier that already has an
//! owner corrects the previous owner's count when it overwrites the record,
//! and a transfer can never drive a count below zero.

use vstd::pervasive::VecAdditionalExecFns;
use vstd::prelude::*;

use crate::account::AccountId;
use crate::account::lemma_account_eq;
use crate::assoc::balance_value;
use crate::assoc::count_owned;
use crate::assoc::keys_unique;
use crate::assoc::lemma_count_pair_le_len;
use crate::assoc::lemma_count_push;
use crate::assoc::lemma_count_update;
use crate::assoc::lemma_keys_unique_push;
use crate::assoc::lemma_keys_unique_update;
use crate::assoc::lemma_lookup_at;
use crate::assoc::lemma_lookup_none;
use crate::assoc::lemma_lookup_push;
use crate::assoc::lemma_lookup_update;
use crate::assoc::lemma_owner_count_pos;
use crate::assoc::lemma_sum_matches_token_count;
use crate::assoc::lookup;
use crate::assoc::sum_counts;

verus! {

/// The ownership registry: who created it, which account owns each token,
/// and how many tokens each account owns.
pub struct NFT {
    admin: AccountId,
    id_to_owner: Vec<(u64, AccountId)>,
    owner_to_token_count: Vec<(AccountId, u64)>,
}

impl NFT {
    /// The account that constructed the registry.
    pub closed spec fn admin_spec(self) -> AccountId {
        self.admin
    }

    /// The recorded owner of `token_id`, or `None` if the token identifier
    /// has never been minted.
    pub closed spec fn owner_spec(self, token_id: u64) -> Option<AccountId> {
        lookup(self.id_to_owner@, token_id)
    }

    /// The recorded token count of `account`; an account without a record
    /// holds zero tokens.
    pub closed spec fn balance_spec(self, account: AccountId) -> u64 {
        balance_value(self.owner_to_token_count@, account)
    }

    /// The number of distinct token identifiers with an ownership record.
    pub closed spec fn total_minted(self) -> int {
        self.id_to_owner@.len() as int
    }

    /// The sum of all recorded token counts. An account without a record
    /// holds zero tokens, so this is the sum of the balances of all
    /// accounts.
    pub closed spec fn balance_total(self) -> int {
        sum_counts(self.owner_to_token_count@)
    }

    /// Internal consistency: both records are keyed uniquely, and every
    /// account's recorded count equals the number of tokens whose
    /// ownership record names that account.
    pub closed spec fn well_formed(self) -> bool {
        &&& keys_unique(self.id_to_owner@)
        &&& keys_unique(self.owner_to_token_count@)
        &&& (forall|a: AccountId|
            #![trigger self.balance_spec(a)]
            #![trigger count_owned(self.id_to_owner@, a)]
            self.balance_spec(a) == count_owned(self.id_to_owner@, a))
    }
}

/// A registry as `default` hands it out: created by `caller`, with no
/// ownership records and every balance zero.
pub open spec fn fresh_for(r: NFT, caller: AccountId) -> bool {
    &&& r.admin_spec() == caller
    &&& (forall|t: u64| r.owner_spec(t) is None)
    &&& (forall|a: AccountId| r.balance_spec(a) == 0)
    &&& r.total_minted() == 0
    &&& r.well_formed()
}

/// The state change `mint` performs. `receiver` becomes the recorded owner
/// of `token_id`. If the token identifier was unowned, the receiver's count
/// rises by one and a new ownership record appears. If it was owned by
/// another account, that account's count falls by one as the receiver's
/// rises, so the overwrite leaves the counts consistent. If the receiver
/// already owned it, nothing changes. No other token or account is
/// affected.
pub open spec fn minted(pre: NFT, post: NFT, receiver: AccountId, token_id: u64) -> bool {
    let prior = pre.owner_spec(token_id);
    &&& post.admin_spec() == pre.admin_spec()
    &&& post.owner_spec(token_id) == Some(receiver)
    &&& (forall|t: u64| t != token_id ==> post.owner_spec(t) == pre.owner_spec(t))
    &&& post.balance_spec(receiver) as int == (if prior == Some(receiver) {
        pre.balance_spec(receiver) as int
    } else {
        pre.balance_spec(receiver) + 1
    })
    &&& (match prior {
        Some(p) => p != receiver ==> post.balance_spec(p) as int == pre.balance_spec(p) - 1,
        None => true,
    })
    &&& (forall|a: AccountId|
        a != receiver && prior != Some(a) ==> post.balance_spec(a) == pre.balance_spec(a))
    &&& post.total_minted() == (if prior is None {
        pre.total_minted() + 1
    } else {
        pre.total_minted()
    })
}

/// The state change a successful `transfer` performs: `to` becomes the
/// recorded owner of the token `from` owned, `from`'s count falls by one as
/// `to`'s rises — unless the two are the same account, in which case every
/// count is unchanged. No other token or account is affected.
pub open spec fn transferred(
    pre: NFT,
    post: NFT,
    from: AccountId,
    to: AccountId,
    token_id: u64,
) -> bool {
    &&& post.admin_spec() == pre.admin_spec()
    &&& pre.owner_spec(token_id) == Some(from)
    &&& post.owner_spec(token_id) == Some(to)
    &&& (forall|t: u64| t != token_id ==> post.owner_spec(t) == pre.owner_spec(t))
    &&& (if from == to {
        forall|a: AccountId| post.balance_spec(a) == pre.balance_spec(a)
    } else {
        &&& post.balance_spec(from) as int == pre.balance_spec(from) - 1
        &&& post.balance_spec(to) as int == pre.balance_spec(to) + 1
        &&& (forall|a: AccountId|
            a != from && a != to ==> post.balance_spec(a) == pre.balance_spec(a))
    })
    &&& post.total_minted() == pre.total_minted()
}

impl NFT {
    /// Creates an empty registry, recording `caller` as its creator.
    ///
    /// The hosting environment that invokes operations is expected to pass
    /// the identity of the calling account here.
    pub fn default(caller: AccountId) -> (r: NFT)
        ensures
            fresh_for(r, caller),
    {
        let r = NFT {
            admin: caller,
            id_to_owner: Vec::new(),
            owner_to_token_count: Vec::new(),
        };
        proof {
            assert(forall|t: u64| r.owner_spec(t) is None);
            assert(forall|a: AccountId| r.balance_spec(a) == 0);
            assert(forall|a: AccountId| count_owned(r.id_to_owner@, a) == 0);
        }
        r
    }

    /// Records `receiver` as the owner of `token_id` and adjusts the
    /// counts, returning `true` unconditionally.
    ///
    /// Minting an identifier that already has a different owner overwrites
    /// the record and corrects the previous owner's count, so the counts
    /// stay consistent with the ownership records; minting one the
    /// receiver already owns changes nothing. The one precondition beyond
    /// consistency is the machine limit: a count about to rise must fit in
    /// its word.
    pub fn mint(&mut self, receiver: AccountId, token_id: u64) -> (r: bool)
        requires
            old(self).well_formed(),
            old(self).owner_spec(token_id) != Some(receiver) ==> old(self).balance_spec(receiver)
                < u64::MAX,
        ensures
            r,
            final(self).well_formed(),
            minted(*old(self), *final(self), receiver, token_id),
    {
        let ghost o0 = self.id_to_owner@;
        let ghost b0 = self.owner_to_token_count@;
        let index = find_token(&self.id_to_owner, token_id);
        match index {
            Some(i) => {
                let prior = self.id_to_owner[i].1;
                proof {
                    lemma_lookup_at(o0, i as int);
                    lemma_account_eq(prior, receiver);
                }
                if prior == receiver {
                    // The record already names the receiver: nothing changes.
                } else {
                    self.id_to_owner.set(i, (token_id, receiver));
                    let ghost o1 = self.id_to_owner@;
                    proof {
                        lemma_keys_unique_update(o0, i as int, receiver);
                        lemma_owner_count_pos(o0, token_id, prior);
                        assert(old(self).balance_spec(prior) == count_owned(o0, prior));
                        assert(old(self).balance_spec(receiver) == count_owned(o0, receiver));
                    }
                    drop_count(&mut self.owner_to_token_count, &prior);
                    let ghost b1 = self.owner_to_token_count@;
                    bump_count(&mut self.owner_to_token_count, &receiver);
                    proof {
                        assert forall|a: AccountId|
                            self.balance_spec(a) == count_owned(o1, a) by {
                            lemma_count_update(o0, i as int, token_id, receiver, a);
                            assert(old(self).balance_spec(a) == count_owned(o0, a));
                            assert(balance_value(b1, a) as int == balance_value(b0, a) - (
                            if a == prior {
                                1int
                            } else {
                                0int
                            }));
                        }
                        assert forall|t: u64| t != token_id implies self.owner_spec(t) == old(
                            self,
                        ).owner_spec(t) by {
                            lemma_lookup_update(o0, i as int, receiver, t);
                        }
                        lemma_lookup_update(o0, i as int, receiver, token_id);
                        assert(self.balance_spec(receiver) as int == old(self).balance_spec(
                            receiver,
                        ) + 1);
                        assert(self.balance_spec(prior) as int == old(self).balance_spec(prior)
                            - 1);
                        assert forall|a: AccountId| a != receiver && a != prior implies self
                            .balance_spec(a) == old(self).balance_spec(a) by {
                            assert(balance_value(b1, a) == balance_value(b0, a));
                        }
                    }
                }
            },
            None => {
                proof {
                    lemma_lookup_none(o0, token_id);
                    assert(old(self).balance_spec(receiver) == count_owned(o0, receiver));
                }
                self.id_to_owner.push((token_id, receiver));
                let ghost o1 = self.id_to_owner@;
                proof {
                    lemma_keys_unique_push(o0, token_id, receiver);
                }
                bump_count(&mut self.owner_to_token_count, &receiver);
                proof {
                    assert forall|a: AccountId| self.balance_spec(a) == count_owned(o1, a) by {
                        lemma_count_push(o0, token_id, receiver, a);
                        assert(old(self).balance_spec(a) == count_owned(o0, a));
                    }
                    assert forall|t: u64| t != token_id implies self.owner_spec(t) == old(
                        self,
                    ).owner_spec(t) by {
                        lemma_lookup_push(o0, token_id, receiver, t);
                    }
                    lemma_lookup_push(o0, token_id, receiver, token_id);
                    assert(self.balance_spec(receiver) as int == old(self).balance_spec(receiver)
                        + 1);
                    assert forall|a: AccountId| a != receiver implies self.balance_spec(a) == old(
                        self,
                    ).balance_spec(a) by {
                        assert(balance_value(self.owner_to_token_count@, a) == balance_value(
                            b0,
                            a,
                        ));
                    }
                }
            },
        }
        true
    }

    /// Reports whether `account` is the recorded owner of `token_id`:
    /// `false` both when the token has a different owner and when it has
    /// never been minted.
    fn is_token_owner(&self, account: &AccountId, token_id: u64) -> (r: bool)
        requires
            self.well_formed(),
        ensures
            r == (self.owner_spec(token_id) == Some(*account)),
    {
        let index = find_token(&self.id_to_owner, token_id);
        match index {
            Some(i) => {
                proof {
                    lemma_lookup_at(self.id_to_owner@, i as int);
                    lemma_account_eq(self.id_to_owner@[i as int].1, *account);
                }
                self.id_to_owner[i].1 == *account
            },
            None => {
                proof {
                    lemma_lookup_none(self.id_to_owner@, token_id);
                }
                false
            },
        }
    }

    /// Moves `token_id` from `from` to `to` if and only if `from` is its
    /// recorded owner; otherwise returns `false` and changes nothing.
    ///
    /// On success, `from`'s count falls by one as `to`'s rises — and since
    /// the owner's count is never zero in a consistent registry, the
    /// decrement cannot underflow. A transfer to the owner itself succeeds
    /// and leaves every count unchanged.
    pub fn transfer(&mut self, from: AccountId, to: AccountId, token_id: u64) -> (r: bool)
        requires
            old(self).well_formed(),
        ensures
            r == (old(self).owner_spec(token_id) == Some(from)),
            final(self).well_formed(),
            r ==> transferred(*old(self), *final(self), from, to, token_id),
            !r ==> *final(self) == *old(self),
    {
        if !self.is_token_owner(&from, token_id) {
            return false;
        }
        let ghost o0 = self.id_to_owner@;
        let ghost b0 = self.owner_to_token_count@;
        let index = find_token(&self.id_to_owner, token_id);
        proof {
            if index is None {
                lemma_lookup_none(o0, token_id);
            }
        }
        let i = index.unwrap();
        proof {
            lemma_lookup_at(o0, i as int);
        }
        self.id_to_owner.set(i, (token_id, to));
        let ghost o1 = self.id_to_owner@;
        proof {
            lemma_keys_unique_update(o0, i as int, to);
        }
        let same = from == to;
        proof {
            lemma_account_eq(from, to);
        }
        if !same {
            let n = self.id_to_owner.len();
            proof {
                lemma_owner_count_pos(o0, token_id, from);
                lemma_count_pair_le_len(o0, to, from);
                assert(old(self).balance_spec(from) == count_owned(o0, from));
                assert(old(self).balance_spec(to) == count_owned(o0, to));
                assert(n <= u64::MAX);
                assert(old(self).balance_spec(to) < u64::MAX);
            }
            drop_count(&mut self.owner_to_token_count, &from);
            let ghost b1 = self.owner_to_token_count@;
            bump_count(&mut self.owner_to_token_count, &to);
            proof {
                assert forall|a: AccountId| self.balance_spec(a) == count_owned(o1, a) by {
                    lemma_count_update(o0, i as int, token_id, to, a);
                    assert(old(self).balance_spec(a) == count_owned(o0, a));
                    assert(balance_value(b1, a) as int == balance_value(b0, a) - (if a == from {
                        1int
                    } else {
                        0int
                    }));
                }
                assert(self.balance_spec(from) as int == old(self).balance_spec(from) - 1);
                assert(self.balance_spec(to) as int == old(self).balance_spec(to) + 1);
                assert forall|a: AccountId| a != from && a != to implies self.balance_spec(a)
                    == old(self).balance_spec(a) by {
                    assert(balance_value(b1, a) == balance_value(b0, a));
                }
            }
        } else {
            proof {
                assert forall|a: AccountId| self.balance_spec(a) == count_owned(o1, a) by {
                    lemma_count_update(o0, i as int, token_id, to, a);
                    assert(old(self).balance_spec(a) == count_owned(o0, a));
                }
            }
        }
        proof {
            assert forall|t: u64| t != token_id implies self.owner_spec(t) == old(
                self,
            ).owner_spec(t) by {
                lemma_lookup_update(o0, i as int, to, t);
            }
            lemma_lookup_update(o0, i as int, to, token_id);
        }
        true
    }

    /// Returns how many tokens `account` currently owns; an account with
    /// no record owns zero.
    pub fn get_token_count_for_account(&self, account: AccountId) -> (count: u64)
        requires
            self.well_formed(),
        ensures
            count == self.balance_spec(account),
    {
        let index = find_account(&self.owner_to_token_count, &account);
        match index {
            Some(i) => {
                proof {
                    lemma_lookup_at(self.owner_to_token_count@, i as int);
                }
                self.owner_to_token_count[i].1
            },
            None => {
                proof {
                    lemma_lookup_none(self.owner_to_token_count@, account);
                }
                0
            },
        }
    }
}

/// A newly constructed registry reports a zero balance for every account.
pub proof fn lemma_fresh_balance_zero(r: NFT, caller: AccountId, account: AccountId)
    requires
        fresh_for(r, caller),
    ensures
        r.balance_spec(account) == 0,
{
}

/// Minting a token the receiver did not already own raises the receiver's
/// balance by exactly one.
pub proof fn lemma_mint_increments(pre: NFT, post: NFT, receiver: AccountId, token_id: u64)
    requires
        minted(pre, post, receiver, token_id),
        pre.owner_spec(token_id) != Some(receiver),
    ensures
        post.balance_spec(receiver) as int == pre.balance_spec(receiver) + 1,
{
}

/// Minting a token to one account and then transferring it to a different
/// account is authorized, hands the token to the second account, returns
/// the first account's balance to its value before the mint, and raises
/// the second account's balance by one — provided neither account owned
/// the token identifier before the mint.
pub proof fn lemma_transfer_moves_ownership(
    pre: NFT,
    mid: NFT,
    post: NFT,
    first: AccountId,
    second: AccountId,
    token_id: u64,
)
    requires
        minted(pre, mid, first, token_id),
        transferred(mid, post, first, second, token_id),
        first != second,
        pre.owner_spec(token_id) != Some(first),
        pre.owner_spec(token_id) != Some(second),
    ensures
        mid.owner_spec(token_id) == Some(first),
        post.owner_spec(token_id) == Some(second),
        post.balance_spec(first) == pre.balance_spec(first),
        post.balance_spec(second) as int == pre.balance_spec(second) + 1,
{
}

/// Transferring a token to its current owner is authorized and leaves
/// every balance unchanged.
pub proof fn lemma_self_transfer_balances_unchanged(
    pre: NFT,
    mid: NFT,
    post: NFT,
    account: AccountId,
    token_id: u64,
)
    requires
        minted(pre, mid, account, token_id),
        transferred(mid, post, account, account, token_id),
    ensures
        mid.owner_spec(token_id) == Some(account),
        forall|a: AccountId| post.balance_spec(a) == mid.balance_spec(a),
{
}

/// In a consistent registry the balances of all accounts sum to the number
/// of distinct token identifiers with an ownership record: no sequence of
/// mints and transfers loses or duplicates a token.
pub proof fn lemma_balance_total_matches_minted(r: NFT)
    requires
        r.well_formed(),
    ensures
        r.balance_total() == r.total_minted(),
{
    lemma_sum_matches_token_count(r.owner_to_token_count@, r.id_to_owner@);
}

/// Lowers `account`'s recorded count by one, leaving every other count
/// unchanged. The account must have a positive count, so the record
/// exists and the decrement cannot underflow.
fn drop_count(v: &mut Vec<(AccountId, u64)>, account: &AccountId)
    requires
        keys_unique(old(v)@),
        balance_value(old(v)@, *account) >= 1,
    ensures
        keys_unique(final(v)@),
        forall|a: AccountId|
            #![trigger balance_value(final(v)@, a)]
            balance_value(final(v)@, a) as int == balance_value(old(v)@, a) - (if a == *account {
                1int
            } else {
                0int
            }),
{
    let ghost b0 = v@;
    let j_opt = find_account(v, account);
    proof {
        if j_opt is None {
            lemma_lookup_none(b0, *account);
        }
    }
    let j = j_opt.unwrap();
    let c = v[j].1;
    proof {
        lemma_lookup_at(b0, j as int);
    }
    v.set(j, (*account, c - 1));
    proof {
        lemma_keys_unique_update(b0, j as int, (c - 1) as u64);
        assert forall|a: AccountId|
            balance_value(v@, a) as int == balance_value(b0, a) - (if a == *account {
                1int
            } else {
                0int
            }) by {
            lemma_lookup_update(b0, j as int, (c - 1) as u64, a);
        }
    }
}

/// Raises `account`'s recorded count by one, creating the record if none
/// exists, and leaves every other count unchanged. The count must have
/// room to rise.
fn bump_count(v: &mut Vec<(AccountId, u64)>, account: &AccountId)
    requires
        keys_unique(old(v)@),
        balance_value(old(v)@, *account) < u64::MAX,
    ensures
        keys_unique(final(v)@),
        forall|a: AccountId|
            #![trigger balance_value(final(v)@, a)]
            balance_value(final(v)@, a) as int == balance_value(old(v)@, a) + (if a == *account {
                1int
            } else {
                0int
            }),
{
    let ghost b0 = v@;
    let j_opt = find_account(v, account);
    match j_opt {
        Some(j) => {
            let c = v[j].1;
            proof {
                lemma_lookup_at(b0, j as int);
            }
            v.set(j, (*account, c + 1));
            proof {
                lemma_keys_unique_update(b0, j as int, (c + 1) as u64);
                assert forall|a: AccountId|
                    balance_value(v@, a) as int == balance_value(b0, a) + (if a == *account {
                        1int
                    } else {
                        0int
                    }) by {
                    lemma_lookup_update(b0, j as int, (c + 1) as u64, a);
                }
            }
        },
        None => {
            proof {
                lemma_lookup_none(b0, *account);
            }
            v.push((*account, 1));
            proof {
                lemma_keys_unique_push(b0, *account, 1u64);
                assert forall|a: AccountId|
                    balance_value(v@, a) as int == balance_value(b0, a) + (if a == *account {
                        1int
                    } else {
                        0int
                    }) by {
                    lemma_lookup_push(b0, *account, 1u64, a);
                }
            }
        },
    }
}

/// Returns an index whose pair carries the key `token_id`, or `None` if no
/// pair does.
fn find_token(v: &Vec<(u64, AccountId)>, token_id: u64) -> (r: Option<usize>)
    ensures
        match r {
            Some(i) => i < v@.len() && v@[i as int].0 == token_id,
            None => forall|j: int| 0 <= j < v@.len() ==> v@[j].0 != token_id,
        },
{
    let mut i: usize = 0;
    while i < v.len()
        invariant
            i <= v@.len(),
            forall|j: int| 0 <= j < i ==> v@[j].0 != token_id,
        decreases v@.len() - i,
    {
        if v[i].0 == token_id {
            return Some(i);
        }
        i = i + 1;
    }
    None
}

/// Returns an index whose pair carries the key `account`, or `None` if no
/// pair does.
fn find_account(v: &Vec<(AccountId, u64)>, account: &AccountId) -> (r: Option<usize>)
    ensures
        match r {
            Some(i) => i < v@.len() && v@[i as int].0 == *account,
            None => forall|j: int| 0 <= j < v@.len() ==> v@[j].0 != *account,
        },
{
    let mut i: usize = 0;
    while i < v.len()
        invariant
            i <= v@.len(),
            forall|j: int| 0 <= j < i ==> v@[j].0 != *account,
        decreases v@.len() - i,
    {
        let hit = v[i].0 == *account;
        proof {
            lemma_account_eq(v@[i as int].0, *account);
        }
        if hit {
            return Some(i);
        }
        i = i + 1;
    }
    None
}

} // verus!
