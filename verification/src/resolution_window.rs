//! One escalation round of a data request: stakers bond on an outcome until
//! a target amount is filled; the outcome that fills the target becomes the
//! round's bonded outcome.

use vstd::prelude::*;

use crate::error::OracleError;
use crate::stake_maps::{OutcomeStakes, UserStakes};
use crate::types::{outcome_eq, AccountId, Outcome, OutcomeView};

verus! {

/// The account's own recovered stake and the round's pool, for a round whose
/// bonded outcome matched the final outcome.
pub struct CorrectStake {
    pub bonded_stake: u128,
    pub user_stake: u128,
}

/// What one window contributes to an account's claim.
pub enum WindowStakeResult {
    /// The bonded outcome matches the final outcome: the whole bond joins the
    /// correct pool and the account recovers its own stake.
    Correct(CorrectStake),
    /// The bonded outcome lost: the whole bond joins the pool that is paid
    /// out to correct stakers.
    Incorrect(u128),
    /// The window never bonded; it contributes nothing.
    NoResult,
}

/// One resolution round. `bond_size` is the stake total one outcome must
/// gather for the round to bond; once an outcome reaches it, the round is
/// decided and a new round (with a doubled bond) takes over.
pub struct ResolutionWindow {
    pub dr_id: u64,
    pub round: u16,
    pub start_time: u64,
    pub end_time: u64,
    pub bond_size: u128,
    pub outcome_to_stake: OutcomeStakes,
    pub user_to_outcome_to_stake: UserStakes,
    pub bonded_outcome: Option<Outcome>,
}

impl ResolutionWindow {
    /// The bonded outcome's mathematical value.
    pub open spec fn bonded(self) -> Option<OutcomeView> {
        match self.bonded_outcome {
            Option::Some(o) => Option::Some(o@),
            Option::None => Option::<OutcomeView>::None,
        }
    }

    /// The total staked on an outcome in this window.
    pub open spec fn staked_on(self, o: OutcomeView) -> u128 {
        self.outcome_to_stake.stake_on(o)
    }

    /// The stake an account holds on an outcome in this window.
    pub open spec fn user_staked(self, a: Seq<char>, o: OutcomeView) -> u128 {
        self.user_to_outcome_to_stake.stake_of(a, o)
    }

    /// The sum of all accounts' stakes on an outcome in this window.
    pub open spec fn users_total_on(self, o: OutcomeView) -> int {
        self.user_to_outcome_to_stake.total_on(o)
    }

    /// What a stake of `amount` on `o` would accept right now: the amount,
    /// capped by the room the outcome still has below the bond target.
    pub open spec fn accepted_of(self, o: OutcomeView, amount: u128) -> u128 {
        let room = (self.bond_size - self.staked_on(o)) as u128;
        if amount > room {
            room
        } else {
            amount
        }
    }

    /// The window's books are exact maps; no outcome's total exceeds the bond
    /// target; the accounts' stakes on an outcome sum to no more than the
    /// outcome's total (claims may have removed some of them); a bonded
    /// outcome holds exactly the bond target.
    pub open spec fn wf(self) -> bool {
        &&& self.outcome_to_stake.wf()
        &&& self.user_to_outcome_to_stake.wf()
        &&& forall|o: OutcomeView| #[trigger] self.staked_on(o) <= self.bond_size
        &&& forall|o: OutcomeView| #[trigger] self.users_total_on(o) <= self.staked_on(o)
        &&& match self.bonded_outcome {
            Option::Some(b) => self.staked_on(b@) == self.bond_size,
            Option::None => true,
        }
    }

    /// Opens a fresh round whose bond target doubles the previous one and
    /// whose challenge window starts now.
    pub fn new(dr_id: u64, round: u16, prev_bond: u128, challenge_period: u64, start_time: u64)
        -> (r: Self)
        requires
            prev_bond * 2 <= u128::MAX,
            start_time + challenge_period <= u64::MAX,
        ensures
            r.wf(),
            r.dr_id == dr_id,
            r.round == round,
            r.start_time == start_time,
            r.end_time == start_time + challenge_period,
            r.bond_size == prev_bond * 2,
            r.bonded_outcome.is_none(),
            forall|o: OutcomeView| r.staked_on(o) == 0,
            forall|a: Seq<char>, o: OutcomeView| r.user_staked(a, o) == 0,
            forall|o: OutcomeView| r.users_total_on(o) == 0,
    {
        ResolutionWindow {
            dr_id,
            round,
            start_time,
            end_time: start_time + challenge_period,
            bond_size: prev_bond * 2,
            outcome_to_stake: OutcomeStakes::new(),
            user_to_outcome_to_stake: UserStakes::new(),
            bonded_outcome: Option::None,
        }
    }

    /// Stakes `amount` on `outcome` for `sender`. The window accepts at most
    /// the room the outcome still has below the bond target and returns the
    /// rest as unspent; when the outcome's total reaches the target exactly,
    /// the outcome becomes this round's bonded outcome.
    pub fn stake(&mut self, sender: &AccountId, outcome: &Outcome, amount: u128) -> (unspent:
        u128)
        requires
            old(self).wf(),
            old(self).bonded_outcome.is_none(),
        ensures
            final(self).wf(),
            unspent == amount - old(self).accepted_of(outcome@, amount),
            final(self).staked_on(outcome@) == old(self).staked_on(outcome@) + old(
                self).accepted_of(outcome@, amount),
            forall|x: OutcomeView|
                x != outcome@ ==> #[trigger] final(self).staked_on(x) == old(self).staked_on(x),
            final(self).user_staked(sender@, outcome@) == old(self).user_staked(sender@, outcome@)
                + old(self).accepted_of(outcome@, amount),
            forall|a: Seq<char>, x: OutcomeView|
                !(a == sender@ && x == outcome@) ==> #[trigger] final(self).user_staked(a, x)
                    == old(self).user_staked(a, x),
            final(self).bonded() == if old(self).staked_on(outcome@) + old(self).accepted_of(
                outcome@, amount) == old(self).bond_size {
                Option::Some(outcome@)
            } else {
                Option::<OutcomeView>::None
            },
            final(self).dr_id == old(self).dr_id,
            final(self).round == old(self).round,
            final(self).start_time == old(self).start_time,
            final(self).end_time == old(self).end_time,
            final(self).bond_size == old(self).bond_size,
    {
        let stake_on_outcome = self.outcome_to_stake.get(outcome);
        let user_stake_on_outcome = self.user_to_outcome_to_stake.get(sender, outcome);
        proof {
            assert(self.staked_on(outcome@) <= self.bond_size);
            self.user_to_outcome_to_stake.lemma_stake_le_total(sender@, outcome@);
            assert(self.users_total_on(outcome@) <= self.staked_on(outcome@));
        }
        let stake_open = self.bond_size - stake_on_outcome;
        let unspent = if amount > stake_open {
            amount - stake_open
        } else {
            0
        };
        let staked = amount - unspent;

        let new_stake_on_outcome = stake_on_outcome + staked;
        self.outcome_to_stake.set(outcome, new_stake_on_outcome);

        let new_user_stake_on_outcome = user_stake_on_outcome + staked;
        self.user_to_outcome_to_stake.set(sender, outcome, new_user_stake_on_outcome);

        if new_stake_on_outcome == self.bond_size {
            self.bonded_outcome = Option::Some(outcome.clone());
        }
        proof {
            assert forall|o: OutcomeView| #[trigger] self.staked_on(o) <= self.bond_size by {
                if o != outcome@ {
                    assert(self.staked_on(o) == old(self).staked_on(o));
                }
            }
            assert forall|o: OutcomeView| #[trigger] self.users_total_on(o) <= self.staked_on(
                o) by {
                if o == outcome@ {
                    assert(old(self).users_total_on(o) <= old(self).staked_on(o));
                } else {
                    assert(self.users_total_on(o) == old(self).users_total_on(o));
                    assert(self.staked_on(o) == old(self).staked_on(o));
                }
            }
        }
        unspent
    }

    /// Withdraws `amount` of `sender`'s stake on `outcome`. Stake on the
    /// round's bonded outcome is locked; more cannot leave than the sender
    /// holds.
    pub fn unstake(&mut self, sender: &AccountId, outcome: &Outcome, amount: u128) -> (r: Result<
        u128,
        OracleError,
    >)
        requires
            old(self).wf(),
        ensures
            final(self).wf(),
            r.is_ok() <==> (old(self).bonded() != Option::Some(outcome@) && old(self).user_staked(
                sender@, outcome@) >= amount),
            match r {
                Ok(v) => {
                    &&& v == amount
                    &&& final(self).staked_on(outcome@) == old(self).staked_on(outcome@) - amount
                    &&& forall|x: OutcomeView|
                        x != outcome@ ==> #[trigger] final(self).staked_on(x) == old(
                            self).staked_on(x)
                    &&& final(self).user_staked(sender@, outcome@) == old(self).user_staked(
                        sender@, outcome@) - amount
                    &&& forall|a: Seq<char>, x: OutcomeView|
                        !(a == sender@ && x == outcome@) ==> #[trigger] final(self).user_staked(
                            a, x) == old(self).user_staked(a, x)
                    &&& final(self).bonded_outcome == old(self).bonded_outcome
                    &&& final(self).dr_id == old(self).dr_id
                    &&& final(self).round == old(self).round
                    &&& final(self).start_time == old(self).start_time
                    &&& final(self).end_time == old(self).end_time
                    &&& final(self).bond_size == old(self).bond_size
                },
                Err(e) => {
                    &&& *final(self) == *old(self)
                    &&& (e == OracleError::CannotWithdrawBondedOutcome || e
                        == OracleError::InsufficientStake)
                    &&& (e == OracleError::CannotWithdrawBondedOutcome <==> old(self).bonded()
                        == Option::Some(outcome@))
                },
            },
    {
        let locked = match &self.bonded_outcome {
            Option::Some(b) => outcome_eq(b, outcome),
            Option::None => false,
        };
        if locked {
            return Err(OracleError::CannotWithdrawBondedOutcome);
        }
        let user_stake_on_outcome = self.user_to_outcome_to_stake.get(sender, outcome);
        if user_stake_on_outcome < amount {
            return Err(OracleError::InsufficientStake);
        }
        proof {
            self.user_to_outcome_to_stake.lemma_stake_le_total(sender@, outcome@);
            assert(self.users_total_on(outcome@) <= self.staked_on(outcome@));
        }
        let stake_on_outcome = self.outcome_to_stake.get(outcome);
        self.outcome_to_stake.set(outcome, stake_on_outcome - amount);
        self.user_to_outcome_to_stake.set(sender, outcome, user_stake_on_outcome - amount);
        proof {
            assert forall|o: OutcomeView| #[trigger] self.staked_on(o) <= self.bond_size by {
                if o != outcome@ {
                    assert(self.staked_on(o) == old(self).staked_on(o));
                }
            }
            assert forall|o: OutcomeView| #[trigger] self.users_total_on(o) <= self.staked_on(
                o) by {
                if o == outcome@ {
                    assert(old(self).users_total_on(o) <= old(self).staked_on(o));
                } else {
                    assert(self.users_total_on(o) == old(self).users_total_on(o));
                    assert(self.staked_on(o) == old(self).staked_on(o));
                }
            }
            if old(self).bonded_outcome is Some {
                let b = old(self).bonded_outcome->0;
                assert(b@ != outcome@);
                assert(self.staked_on(b@) == old(self).staked_on(b@));
            }
        }
        Ok(amount)
    }

    /// Settles this window's part of a claim by `account` against the final
    /// outcome: an unbonded window contributes nothing; a window bonded on
    /// the final outcome returns its bond as correct pool and hands the
    /// account its own stake back (removing it, so a second claim finds
    /// nothing); a window bonded on anything else returns its bond as
    /// incorrect pool.
    pub fn claim_for(&mut self, account: &AccountId, final_outcome: &Outcome) -> (r:
        WindowStakeResult)
        requires
            old(self).wf(),
        ensures
            final(self).wf(),
            forall|x: OutcomeView| #[trigger] final(self).staked_on(x) == old(self).staked_on(x),
            final(self).bonded_outcome == old(self).bonded_outcome,
            final(self).dr_id == old(self).dr_id,
            final(self).round == old(self).round,
            final(self).start_time == old(self).start_time,
            final(self).end_time == old(self).end_time,
            final(self).bond_size == old(self).bond_size,
            match old(self).bonded() {
                Option::None => r == WindowStakeResult::NoResult && *final(self) == *old(self),
                Option::Some(b) => {
                    if b == final_outcome@ {
                        &&& r matches WindowStakeResult::Correct(cs)
                        &&& (r matches WindowStakeResult::Correct(cs) ==> cs.bonded_stake == old(
                            self).bond_size && cs.user_stake == old(self).user_staked(account@, b))
                        &&& final(self).user_staked(account@, b) == 0
                        &&& forall|a: Seq<char>, x: OutcomeView|
                            !(a == account@ && x == b) ==> #[trigger] final(self).user_staked(a, x)
                                == old(self).user_staked(a, x)
                        &&& final(self).users_total_on(b) == old(self).users_total_on(b) - old(
                            self).user_staked(account@, b)
                        &&& forall|x: OutcomeView|
                            x != b ==> #[trigger] final(self).users_total_on(x) == old(
                                self).users_total_on(x)
                    } else {
                        r == WindowStakeResult::Incorrect(old(self).bond_size) && *final(self)
                            == *old(self)
                    }
                },
            },
    {
        let bonded = match &self.bonded_outcome {
            Option::Some(b) => Option::Some(b.clone()),
            Option::None => Option::None,
        };
        match bonded {
            Option::Some(b) => {
                if outcome_eq(&b, final_outcome) {
                    let user_stake = self.user_to_outcome_to_stake.get(account, &b);
                    proof {
                        self.user_to_outcome_to_stake.lemma_stake_le_total(account@, b@);
                    }
                    self.user_to_outcome_to_stake.set(account, &b, 0);
                    proof {
                        assert forall|o: OutcomeView| #[trigger] self.staked_on(o)
                            <= self.bond_size by {
                            assert(self.staked_on(o) == old(self).staked_on(o));
                            assert(old(self).staked_on(o) <= old(self).bond_size);
                        }
                        assert forall|o: OutcomeView| #[trigger] self.users_total_on(o)
                            <= self.staked_on(o) by {
                            assert(self.staked_on(o) == old(self).staked_on(o));
                            if o != b@ {
                                assert(self.users_total_on(o) == old(self).users_total_on(o));
                            } else {
                                assert(old(self).users_total_on(o) <= old(self).staked_on(o));
                                assert(self.users_total_on(o) == old(self).users_total_on(o)
                                    - old(self).user_staked(account@, b@));
                            }
                        }
                    }
                    WindowStakeResult::Correct(CorrectStake {
                        bonded_stake: self.bond_size,
                        user_stake,
                    })
                } else {
                    WindowStakeResult::Incorrect(self.bond_size)
                }
            },
            Option::None => WindowStakeResult::NoResult,
        }
    }
}

} // verus!
