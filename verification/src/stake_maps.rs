//! The stake books of a resolution window: total stake per outcome, and
//! stake per (account, outcome) pair. Both are association lists with unique
//! keys; their contracts speak of a mathematical lookup function, so callers
//! reason about them as maps with a zero default.

use vstd::prelude::*;

use crate::types::{AccountId, Outcome, OutcomeView};
use crate::types::outcome_eq;

verus! {

/// Total stake one outcome has gathered in one window.
pub struct OutcomeStakeEntry {
    pub outcome: Outcome,
    pub amount: u128,
}

/// Stake one account has placed on one outcome in one window.
pub struct UserStakeEntry {
    pub account: AccountId,
    pub outcome: Outcome,
    pub amount: u128,
}

/// The amount the first entry with the given outcome holds, or zero.
pub open spec fn outcome_lookup(s: Seq<OutcomeStakeEntry>, o: OutcomeView) -> u128
    decreases s.len(),
{
    if s.len() == 0 {
        0u128
    } else if s[0].outcome@ == o {
        s[0].amount
    } else {
        outcome_lookup(s.drop_first(), o)
    }
}

/// No two entries share an outcome.
pub open spec fn outcome_keys_unique(s: Seq<OutcomeStakeEntry>) -> bool {
    forall|i: int, j: int| 0 <= i < j < s.len() ==> s[i].outcome@ != s[j].outcome@
}

/// The amount the first entry with the given account and outcome holds, or zero.
pub open spec fn user_lookup(s: Seq<UserStakeEntry>, a: Seq<char>, o: OutcomeView) -> u128
    decreases s.len(),
{
    if s.len() == 0 {
        0u128
    } else if s[0].account@ == a && s[0].outcome@ == o {
        s[0].amount
    } else {
        user_lookup(s.drop_first(), a, o)
    }
}

/// The sum of all accounts' stakes on one outcome.
pub open spec fn user_total(s: Seq<UserStakeEntry>, o: OutcomeView) -> int
    decreases s.len(),
{
    if s.len() == 0 {
        0
    } else {
        (if s[0].outcome@ == o {
            s[0].amount as int
        } else {
            0
        }) + user_total(s.drop_first(), o)
    }
}

/// No two entries share an (account, outcome) pair.
pub open spec fn user_keys_unique(s: Seq<UserStakeEntry>) -> bool {
    forall|i: int, j: int|
        0 <= i < j < s.len() ==> !(s[i].account@ == s[j].account@ && s[i].outcome@
            == s[j].outcome@)
}

proof fn lemma_outcome_lookup_at(s: Seq<OutcomeStakeEntry>, k: int)
    requires
        0 <= k < s.len(),
        forall|j: int| 0 <= j < k ==> s[j].outcome@ != s[k].outcome@,
    ensures
        outcome_lookup(s, s[k].outcome@) == s[k].amount,
    decreases k,
{
    if k > 0 {
        lemma_outcome_lookup_at(s.drop_first(), k - 1);
    }
}

proof fn lemma_outcome_lookup_absent(s: Seq<OutcomeStakeEntry>, o: OutcomeView)
    requires
        forall|j: int| 0 <= j < s.len() ==> s[j].outcome@ != o,
    ensures
        outcome_lookup(s, o) == 0,
    decreases s.len(),
{
    if s.len() > 0 {
        lemma_outcome_lookup_absent(s.drop_first(), o);
    }
}

proof fn lemma_outcome_lookup_update(s: Seq<OutcomeStakeEntry>, k: int, e: OutcomeStakeEntry)
    requires
        0 <= k < s.len(),
        forall|j: int| 0 <= j < s.len() && j != k ==> s[j].outcome@ != s[k].outcome@,
        e.outcome@ == s[k].outcome@,
    ensures
        forall|x: OutcomeView|
            outcome_lookup(s.update(k, e), x) == if x == e.outcome@ {
                e.amount
            } else {
                outcome_lookup(s, x)
            },
    decreases k,
{
    if k == 0 {
        assert(s.update(0, e).drop_first() =~= s.drop_first());
        assert forall|x: OutcomeView| x != e.outcome@ implies outcome_lookup(s.update(0, e), x)
            == outcome_lookup(s, x) by {
            assert(outcome_lookup(s.update(0, e), x) == outcome_lookup(s.update(0, e).drop_first(), x));
        }
    } else {
        lemma_outcome_lookup_update(s.drop_first(), k - 1, e);
        assert(s.update(k, e).drop_first() =~= s.drop_first().update(k - 1, e));
        assert(s.update(k, e)[0] == s[0]);
        assert forall|x: OutcomeView|
            outcome_lookup(s.update(k, e), x) == (if x == e.outcome@ {
                e.amount
            } else {
                outcome_lookup(s, x)
            }) by {
            assert(outcome_lookup(s.drop_first().update(k - 1, e), x) == (if x == e.outcome@ {
                e.amount
            } else {
                outcome_lookup(s.drop_first(), x)
            }));
        }
    }
}

proof fn lemma_outcome_lookup_push(s: Seq<OutcomeStakeEntry>, e: OutcomeStakeEntry)
    requires
        forall|j: int| 0 <= j < s.len() ==> s[j].outcome@ != e.outcome@,
    ensures
        forall|x: OutcomeView|
            outcome_lookup(s.push(e), x) == if x == e.outcome@ {
                e.amount
            } else {
                outcome_lookup(s, x)
            },
    decreases s.len(),
{
    if s.len() == 0 {
        assert(s.push(e)[0] == e);
        assert(s.push(e).drop_first() =~= s);
    } else {
        lemma_outcome_lookup_push(s.drop_first(), e);
        assert(s.push(e).drop_first() =~= s.drop_first().push(e));
        assert(s.push(e)[0] == s[0]);
        assert forall|x: OutcomeView|
            outcome_lookup(s.push(e), x) == (if x == e.outcome@ {
                e.amount
            } else {
                outcome_lookup(s, x)
            }) by {
            assert(outcome_lookup(s.drop_first().push(e), x) == (if x == e.outcome@ {
                e.amount
            } else {
                outcome_lookup(s.drop_first(), x)
            }));
        }
    }
}

proof fn lemma_user_lookup_at(s: Seq<UserStakeEntry>, k: int)
    requires
        0 <= k < s.len(),
        forall|j: int|
            0 <= j < k ==> !(s[j].account@ == s[k].account@ && s[j].outcome@ == s[k].outcome@),
    ensures
        user_lookup(s, s[k].account@, s[k].outcome@) == s[k].amount,
    decreases k,
{
    if k > 0 {
        lemma_user_lookup_at(s.drop_first(), k - 1);
    }
}

proof fn lemma_user_lookup_absent(s: Seq<UserStakeEntry>, a: Seq<char>, o: OutcomeView)
    requires
        forall|j: int| 0 <= j < s.len() ==> !(s[j].account@ == a && s[j].outcome@ == o),
    ensures
        user_lookup(s, a, o) == 0,
    decreases s.len(),
{
    if s.len() > 0 {
        lemma_user_lookup_absent(s.drop_first(), a, o);
    }
}

proof fn lemma_user_lookup_update(s: Seq<UserStakeEntry>, k: int, e: UserStakeEntry)
    requires
        0 <= k < s.len(),
        forall|j: int|
            0 <= j < s.len() && j != k ==> !(s[j].account@ == s[k].account@ && s[j].outcome@
                == s[k].outcome@),
        e.account@ == s[k].account@,
        e.outcome@ == s[k].outcome@,
    ensures
        forall|a: Seq<char>, x: OutcomeView|
            user_lookup(s.update(k, e), a, x) == if a == e.account@ && x == e.outcome@ {
                e.amount
            } else {
                user_lookup(s, a, x)
            },
    decreases k,
{
    if k == 0 {
        assert(s.update(0, e).drop_first() =~= s.drop_first());
        assert forall|a: Seq<char>, x: OutcomeView| !(a == e.account@ && x == e.outcome@) implies
            user_lookup(s.update(0, e), a, x) == user_lookup(s, a, x) by {
            assert(user_lookup(s.update(0, e), a, x) == user_lookup(
                s.update(0, e).drop_first(), a, x));
        }
    } else {
        lemma_user_lookup_update(s.drop_first(), k - 1, e);
        assert(s.update(k, e).drop_first() =~= s.drop_first().update(k - 1, e));
        assert(s.update(k, e)[0] == s[0]);
        assert forall|a: Seq<char>, x: OutcomeView|
            user_lookup(s.update(k, e), a, x) == (if a == e.account@ && x == e.outcome@ {
                e.amount
            } else {
                user_lookup(s, a, x)
            }) by {
            assert(user_lookup(s.drop_first().update(k - 1, e), a, x) == (if a == e.account@
                && x == e.outcome@ {
                e.amount
            } else {
                user_lookup(s.drop_first(), a, x)
            }));
        }
    }
}

proof fn lemma_user_lookup_push(s: Seq<UserStakeEntry>, e: UserStakeEntry)
    requires
        forall|j: int|
            0 <= j < s.len() ==> !(s[j].account@ == e.account@ && s[j].outcome@ == e.outcome@),
    ensures
        forall|a: Seq<char>, x: OutcomeView|
            user_lookup(s.push(e), a, x) == if a == e.account@ && x == e.outcome@ {
                e.amount
            } else {
                user_lookup(s, a, x)
            },
    decreases s.len(),
{
    if s.len() == 0 {
        assert(s.push(e)[0] == e);
        assert(s.push(e).drop_first() =~= s);
    } else {
        lemma_user_lookup_push(s.drop_first(), e);
        assert(s.push(e).drop_first() =~= s.drop_first().push(e));
        assert(s.push(e)[0] == s[0]);
        assert forall|a: Seq<char>, x: OutcomeView|
            user_lookup(s.push(e), a, x) == (if a == e.account@ && x == e.outcome@ {
                e.amount
            } else {
                user_lookup(s, a, x)
            }) by {
            assert(user_lookup(s.drop_first().push(e), a, x) == (if a == e.account@ && x
                == e.outcome@ {
                e.amount
            } else {
                user_lookup(s.drop_first(), a, x)
            }));
        }
    }
}

/// Total stake per outcome in one window.
pub struct OutcomeStakes {
    entries: Vec<OutcomeStakeEntry>,
}

impl OutcomeStakes {
    /// Keys are unique, so the lookup function describes the list exactly.
    pub closed spec fn wf(self) -> bool {
        outcome_keys_unique(self.entries@)
    }

    /// The total staked on an outcome; zero when nothing was staked.
    pub closed spec fn stake_on(self, o: OutcomeView) -> u128 {
        outcome_lookup(self.entries@, o)
    }

    /// An empty book.
    pub fn new() -> (r: Self)
        ensures
            r.wf(),
            forall|o: OutcomeView| r.stake_on(o) == 0,
    {
        let r = OutcomeStakes { entries: Vec::new() };
        proof {
            assert forall|o: OutcomeView| r.stake_on(o) == 0 by {
                lemma_outcome_lookup_absent(r.entries@, o);
            }
        }
        r
    }

    /// Reads the total staked on `o`.
    pub fn get(&self, o: &Outcome) -> (r: u128)
        requires
            self.wf(),
        ensures
            r == self.stake_on(o@),
    {
        let n = self.entries.len();
        let mut i: usize = 0;
        while i < n
            invariant
                n == self.entries@.len(),
                0 <= i <= n,
                self.wf(),
                forall|j: int| 0 <= j < i ==> self.entries@[j].outcome@ != o@,
            decreases n - i,
        {
            if outcome_eq(&self.entries[i].outcome, o) {
                proof {
                    lemma_outcome_lookup_at(self.entries@, i as int);
                }
                return self.entries[i].amount;
            }
            i = i + 1;
        }
        proof {
            lemma_outcome_lookup_absent(self.entries@, o@);
        }
        0
    }

    /// Sets the total staked on `o` to `v`, leaving every other outcome's
    /// total unchanged.
    pub fn set(&mut self, o: &Outcome, v: u128)
        requires
            old(self).wf(),
        ensures
            final(self).wf(),
            final(self).stake_on(o@) == v,
            forall|x: OutcomeView| x != o@ ==> final(self).stake_on(x) == old(self).stake_on(x),
    {
        let n = self.entries.len();
        let mut i: usize = 0;
        while i < n
            invariant
                n == self.entries@.len(),
                0 <= i <= n,
                self.wf(),
                self == old(self),
                forall|j: int| 0 <= j < i ==> self.entries@[j].outcome@ != o@,
            decreases n - i,
        {
            if outcome_eq(&self.entries[i].outcome, o) {
                let key = self.entries[i].outcome.clone();
                let e = OutcomeStakeEntry { outcome: key, amount: v };
                proof {
                    lemma_outcome_lookup_update(self.entries@, i as int, e);
                }
                self.entries.set(i, e);
                return ;
            }
            i = i + 1;
        }
        let e = OutcomeStakeEntry { outcome: o.clone(), amount: v };
        proof {
            lemma_outcome_lookup_push(self.entries@, e);
        }
        self.entries.push(e);
    }
}

proof fn lemma_user_total_nonneg(s: Seq<UserStakeEntry>, o: OutcomeView)
    ensures
        user_total(s, o) >= 0,
    decreases s.len(),
{
    if s.len() > 0 {
        lemma_user_total_nonneg(s.drop_first(), o);
    }
}

proof fn lemma_user_stake_le_total(s: Seq<UserStakeEntry>, a: Seq<char>, o: OutcomeView)
    ensures
        user_lookup(s, a, o) <= user_total(s, o),
    decreases s.len(),
{
    if s.len() > 0 {
        lemma_user_stake_le_total(s.drop_first(), a, o);
        lemma_user_total_nonneg(s.drop_first(), o);
    }
}

proof fn lemma_user_total_update(s: Seq<UserStakeEntry>, k: int, e: UserStakeEntry)
    requires
        0 <= k < s.len(),
        e.outcome@ == s[k].outcome@,
    ensures
        user_total(s.update(k, e), e.outcome@) == user_total(s, e.outcome@) - s[k].amount
            + e.amount,
        forall|x: OutcomeView|
            x != e.outcome@ ==> user_total(s.update(k, e), x) == user_total(s, x),
    decreases k,
{
    if k == 0 {
        assert(s.update(0, e).drop_first() =~= s.drop_first());
    } else {
        lemma_user_total_update(s.drop_first(), k - 1, e);
        assert(s.update(k, e).drop_first() =~= s.drop_first().update(k - 1, e));
        assert(s.update(k, e)[0] == s[0]);
        assert forall|x: OutcomeView| x != e.outcome@ implies user_total(s.update(k, e), x)
            == user_total(s, x) by {
            assert(user_total(s.drop_first().update(k - 1, e), x) == user_total(
                s.drop_first(), x));
        }
    }
}

proof fn lemma_user_total_push(s: Seq<UserStakeEntry>, e: UserStakeEntry)
    ensures
        user_total(s.push(e), e.outcome@) == user_total(s, e.outcome@) + e.amount,
        forall|x: OutcomeView| x != e.outcome@ ==> user_total(s.push(e), x) == user_total(s, x),
    decreases s.len(),
{
    if s.len() == 0 {
        assert(s.push(e)[0] == e);
        assert(s.push(e).drop_first() =~= s);
        assert forall|x: OutcomeView| x != e.outcome@ implies user_total(s.push(e), x)
            == user_total(s, x) by {
            assert(user_total(s.push(e).drop_first(), x) == 0);
        }
    } else {
        lemma_user_total_push(s.drop_first(), e);
        assert(s.push(e).drop_first() =~= s.drop_first().push(e));
        assert(s.push(e)[0] == s[0]);
        assert forall|x: OutcomeView| x != e.outcome@ implies user_total(s.push(e), x)
            == user_total(s, x) by {
            assert(user_total(s.drop_first().push(e), x) == user_total(s.drop_first(), x));
        }
    }
}

/// Stake per (account, outcome) pair in one window.
pub struct UserStakes {
    entries: Vec<UserStakeEntry>,
}

impl UserStakes {
    /// Keys are unique, so the lookup function describes the list exactly.
    pub closed spec fn wf(self) -> bool {
        user_keys_unique(self.entries@)
    }

    /// The stake `a` holds on `o`; zero when nothing was staked.
    pub closed spec fn stake_of(self, a: Seq<char>, o: OutcomeView) -> u128 {
        user_lookup(self.entries@, a, o)
    }

    /// The sum of all accounts' stakes on `o`.
    pub closed spec fn total_on(self, o: OutcomeView) -> int {
        user_total(self.entries@, o)
    }

    /// Each account's stake is one summand of the outcome's total.
    pub proof fn lemma_stake_le_total(self, a: Seq<char>, o: OutcomeView)
        ensures
            0 <= self.stake_of(a, o) <= self.total_on(o),
    {
        lemma_user_stake_le_total(self.entries@, a, o);
    }

    /// An empty book.
    pub fn new() -> (r: Self)
        ensures
            r.wf(),
            forall|a: Seq<char>, o: OutcomeView| r.stake_of(a, o) == 0,
            forall|o: OutcomeView| r.total_on(o) == 0,
    {
        let r = UserStakes { entries: Vec::new() };
        proof {
            assert forall|a: Seq<char>, o: OutcomeView| r.stake_of(a, o) == 0 by {
                lemma_user_lookup_absent(r.entries@, a, o);
            }
        }
        r
    }

    /// Reads the stake `account` holds on `o`.
    pub fn get(&self, account: &AccountId, o: &Outcome) -> (r: u128)
        requires
            self.wf(),
        ensures
            r == self.stake_of(account@, o@),
    {
        let n = self.entries.len();
        let mut i: usize = 0;
        while i < n
            invariant
                n == self.entries@.len(),
                0 <= i <= n,
                self.wf(),
                forall|j: int|
                    0 <= j < i ==> !(self.entries@[j].account@ == account@
                        && self.entries@[j].outcome@ == o@),
            decreases n - i,
        {
            if self.entries[i].account == *account && outcome_eq(&self.entries[i].outcome, o) {
                proof {
                    lemma_user_lookup_at(self.entries@, i as int);
                }
                return self.entries[i].amount;
            }
            i = i + 1;
        }
        proof {
            lemma_user_lookup_absent(self.entries@, account@, o@);
        }
        0
    }

    /// Sets the stake `account` holds on `o` to `v`, leaving every other
    /// pair's stake unchanged; the outcome's total moves by the difference.
    pub fn set(&mut self, account: &AccountId, o: &Outcome, v: u128)
        requires
            old(self).wf(),
        ensures
            final(self).wf(),
            final(self).stake_of(account@, o@) == v,
            forall|a: Seq<char>, x: OutcomeView|
                !(a == account@ && x == o@) ==> final(self).stake_of(a, x) == old(self).stake_of(
                    a, x),
            final(self).total_on(o@) == old(self).total_on(o@) - old(self).stake_of(account@, o@)
                + v,
            forall|x: OutcomeView| x != o@ ==> final(self).total_on(x) == old(self).total_on(x),
    {
        let n = self.entries.len();
        let mut i: usize = 0;
        while i < n
            invariant
                n == self.entries@.len(),
                0 <= i <= n,
                self.wf(),
                self == old(self),
                forall|j: int|
                    0 <= j < i ==> !(self.entries@[j].account@ == account@
                        && self.entries@[j].outcome@ == o@),
            decreases n - i,
        {
            if self.entries[i].account == *account && outcome_eq(&self.entries[i].outcome, o) {
                let key_account = self.entries[i].account.clone();
                let key_outcome = self.entries[i].outcome.clone();
                let e = UserStakeEntry { account: key_account, outcome: key_outcome, amount: v };
                proof {
                    lemma_user_lookup_at(self.entries@, i as int);
                    lemma_user_lookup_update(self.entries@, i as int, e);
                    lemma_user_total_update(self.entries@, i as int, e);
                }
                self.entries.set(i, e);
                return ;
            }
            i = i + 1;
        }
        proof {
            lemma_user_lookup_absent(self.entries@, account@, o@);
        }
        let e = UserStakeEntry { account: account.clone(), outcome: o.clone(), amount: v };
        proof {
            lemma_user_lookup_push(self.entries@, e);
            lemma_user_total_push(self.entries@, e);
        }
        self.entries.push(e);
    }
}

} // verus!
