//! The data request: an ordered sequence of resolution windows, the
//! escalation rules that create them, finalization, and the proportional
//! claim payout.

use vstd::prelude::*;

use crate::error::OracleError;
use crate::math::{calc_product, multiply_stake, spec_multiply_stake};
use vstd::arithmetic::div_mod::lemma_multiply_divide_le;
use vstd::arithmetic::mul::{lemma_mul_inequality, lemma_mul_is_commutative};
use crate::oracle_config::OracleConfig;
use crate::resolution_window::{ResolutionWindow, WindowStakeResult};
use crate::types::{outcome_eq, AccountId, AnswerType, DataRequestDataType, Outcome, OutcomeView,
    Source};
use crate::whitelist::Requester;

verus! {

/// The economic parameters a data request pins at creation time.
pub struct DataRequestConfig {
    pub default_challenge_window_duration: u64,
    pub final_arbitrator_invoke_amount: u128,
    pub final_arbitrator: AccountId,
    pub validity_bond: u128,
    pub stake_multiplier: Option<u16>,
    pub paid_fee: u128,
}

/// The payload of a new data request.
pub struct NewDataRequestArgs {
    pub sources: Option<Vec<Source>>,
    pub outcomes: Option<Vec<String>>,
    pub challenge_period: u64,
    pub description: Option<String>,
    pub tags: Vec<String>,
    pub data_type: DataRequestDataType,
}

/// The payload of a stake operation.
pub struct StakeDataRequestArgs {
    pub id: u64,
    pub outcome: Outcome,
}

/// What a claim pays out: a fee share in the payment token and the recovered
/// stake plus profit in the stake token.
#[derive(Clone, Copy, PartialEq, Eq, Structural, Debug)]
pub struct ClaimRes {
    pub payment_token_payout: u128,
    pub stake_token_payout: u128,
}

/// The sum of all windows' bond targets.
pub open spec fn sum_bonds(s: Seq<ResolutionWindow>) -> int
    decreases s.len(),
{
    if s.len() == 0 {
        0
    } else {
        sum_bonds(s.drop_last()) + s.last().bond_size
    }
}

/// What one window adds to the correct pool: its bond, when it bonded on the
/// final outcome.
pub open spec fn correct_part(w: ResolutionWindow, fo: OutcomeView) -> int {
    if w.bonded() == Option::Some(fo) {
        w.bond_size as int
    } else {
        0
    }
}

/// What one window adds to the incorrect pool: its bond, when it bonded on a
/// losing outcome.
pub open spec fn incorrect_part(w: ResolutionWindow, fo: OutcomeView) -> int {
    if w.bonded() is Some && w.bonded() != Option::Some(fo) {
        w.bond_size as int
    } else {
        0
    }
}

/// What one window holds of the account's correctly-placed stake.
pub open spec fn user_part(w: ResolutionWindow, fo: OutcomeView, a: Seq<char>) -> int {
    if w.bonded() == Option::Some(fo) {
        w.user_staked(a, fo) as int
    } else {
        0
    }
}

/// The pool of every round that bonded on the final outcome.
pub open spec fn total_correct(s: Seq<ResolutionWindow>, fo: OutcomeView) -> int
    decreases s.len(),
{
    if s.len() == 0 {
        0
    } else {
        total_correct(s.drop_last(), fo) + correct_part(s.last(), fo)
    }
}

/// The pool of every round that bonded on a losing outcome.
pub open spec fn total_incorrect(s: Seq<ResolutionWindow>, fo: OutcomeView) -> int
    decreases s.len(),
{
    if s.len() == 0 {
        0
    } else {
        total_incorrect(s.drop_last(), fo) + incorrect_part(s.last(), fo)
    }
}

/// The account's stake across every round that bonded on the final outcome.
pub open spec fn user_correct(s: Seq<ResolutionWindow>, fo: OutcomeView, a: Seq<char>) -> int
    decreases s.len(),
{
    if s.len() == 0 {
        0
    } else {
        user_correct(s.drop_last(), fo, a) + user_part(s.last(), fo, a)
    }
}

/// What one window bonded on the final outcome still holds of all stakers'
/// positions.
pub open spec fn pool_part(w: ResolutionWindow, fo: OutcomeView) -> int {
    if w.bonded() == Option::Some(fo) {
        w.users_total_on(fo)
    } else {
        0
    }
}

/// What the correct rounds' books still hold of all stakers' positions: the
/// pool that claims draw their recovered stakes from.
pub open spec fn users_correct_total(s: Seq<ResolutionWindow>, fo: OutcomeView) -> int
    decreases s.len(),
{
    if s.len() == 0 {
        0
    } else {
        users_correct_total(s.drop_last(), fo) + pool_part(s.last(), fo)
    }
}

/// The pools are never negative.
pub proof fn lemma_totals_nonneg(s: Seq<ResolutionWindow>, fo: OutcomeView)
    ensures
        total_correct(s, fo) >= 0,
        total_incorrect(s, fo) >= 0,
    decreases s.len(),
{
    if s.len() > 0 {
        lemma_totals_nonneg(s.drop_last(), fo);
    }
}

/// An account's correct stake is never negative.
pub proof fn lemma_user_correct_nonneg(s: Seq<ResolutionWindow>, fo: OutcomeView, a: Seq<char>)
    ensures
        user_correct(s, fo, a) >= 0,
    decreases s.len(),
{
    if s.len() > 0 {
        lemma_user_correct_nonneg(s.drop_last(), fo, a);
    }
}

/// In well-formed windows, the claimable pool sits within the correct rounds'
/// bonds.
pub proof fn lemma_pool_bounds(s: Seq<ResolutionWindow>, fo: OutcomeView)
    requires
        forall|j: int| 0 <= j < s.len() ==> (#[trigger] s[j]).wf(),
    ensures
        0 <= users_correct_total(s, fo) <= total_correct(s, fo),
    decreases s.len(),
{
    if s.len() > 0 {
        lemma_pool_bounds(s.drop_last(), fo);
        let w = s.last();
        assert(w.wf());
        if w.bonded() == Option::Some(fo) {
            w.user_to_outcome_to_stake.lemma_stake_le_total(Seq::<char>::empty(), fo);
            assert(w.users_total_on(fo) <= w.staked_on(fo));
            assert(w.staked_on(fo) == w.bond_size);
        }
    }
}

/// A claim removes the account's correct stake from the claimable pool, and
/// nothing else.
pub proof fn lemma_claimed_pool_drop(pre: Seq<ResolutionWindow>, post: Seq<ResolutionWindow>,
    fo: OutcomeView, a: Seq<char>)
    requires
        pre.len() == post.len(),
        forall|j: int| 0 <= j < pre.len() ==> claimed_window(pre[j], #[trigger] post[j], fo, a),
    ensures
        users_correct_total(post, fo) == users_correct_total(pre, fo) - user_correct(pre, fo, a),
    decreases pre.len(),
{
    if pre.len() > 0 {
        lemma_claimed_pool_drop(pre.drop_last(), post.drop_last(), fo, a);
        assert(claimed_window(pre.last(), post.last(), fo, a));
    }
}

/// A claim leaves every window well formed.
pub proof fn lemma_claimed_windows_wf(pre: Seq<ResolutionWindow>, post: Seq<ResolutionWindow>,
    fo: OutcomeView, a: Seq<char>)
    requires
        pre.len() == post.len(),
        forall|j: int| 0 <= j < pre.len() ==> (#[trigger] pre[j]).wf(),
        forall|j: int| 0 <= j < pre.len() ==> claimed_window(pre[j], #[trigger] post[j], fo, a),
    ensures
        forall|j: int| 0 <= j < post.len() ==> (#[trigger] post[j]).wf(),
{
    assert forall|j: int| 0 <= j < post.len() implies (#[trigger] post[j]).wf() by {
        assert(claimed_window(pre[j], post[j], fo, a));
        assert(pre[j].wf());
    }
}

/// The stake payout the protocol owes for a correct stake of `u` out of a
/// correct pool `t`, against an incorrect pool `i`: the stake back plus the
/// proportional share of the losers' pool, rounded down.
pub open spec fn spec_stake_payout(u: int, t: int, i: int) -> int {
    if t == 0 {
        u
    } else {
        u + u * i / t
    }
}

/// The fee payout for a correct stake of `u` out of a correct pool `t`, with
/// a request fee of `f`: the proportional share, rounded down.
pub open spec fn spec_fee_payout(u: int, t: int, f: int) -> int {
    if t == 0 {
        0
    } else {
        u * f / t
    }
}

proof fn lemma_sum_bonds_nonneg(s: Seq<ResolutionWindow>)
    ensures
        sum_bonds(s) >= 0,
    decreases s.len(),
{
    if s.len() > 0 {
        lemma_sum_bonds_nonneg(s.drop_last());
    }
}

proof fn lemma_sum_bonds_update(s: Seq<ResolutionWindow>, k: int, w: ResolutionWindow)
    requires
        0 <= k < s.len(),
    ensures
        sum_bonds(s.update(k, w)) == sum_bonds(s) - s[k].bond_size + w.bond_size,
    decreases s.len(),
{
    if k == s.len() - 1 {
        assert(s.update(k, w).drop_last() =~= s.drop_last());
    } else {
        lemma_sum_bonds_update(s.drop_last(), k, w);
        assert(s.update(k, w).drop_last() =~= s.drop_last().update(k, w));
        assert(s.update(k, w).last() == s.last());
    }
}

proof fn lemma_sum_bonds_take_le(s: Seq<ResolutionWindow>, i: int)
    requires
        0 <= i <= s.len(),
    ensures
        sum_bonds(s.take(i)) <= sum_bonds(s),
    decreases s.len(),
{
    if i == s.len() {
        assert(s.take(i) =~= s);
    } else {
        lemma_sum_bonds_take_le(s.drop_last(), i);
        assert(s.take(i) =~= s.drop_last().take(i));
    }
}

/// Adds up the windows' bond targets; the well-formedness bound keeps every
/// partial sum representable.
fn total_bonds(windows: &Vec<ResolutionWindow>) -> (r: u128)
    requires
        sum_bonds(windows@) <= u128::MAX,
    ensures
        r == sum_bonds(windows@),
{
    let n = windows.len();
    let mut r: u128 = 0;
    let mut i: usize = 0;
    proof {
        assert(windows@.take(0).len() == 0);
    }
    while i < n
        invariant
            n == windows@.len(),
            0 <= i <= n,
            sum_bonds(windows@) <= u128::MAX,
            r == sum_bonds(windows@.take(i as int)),
        decreases n - i,
    {
        proof {
            assert(windows@.take(i + 1).drop_last() =~= windows@.take(i as int));
            assert(windows@.take(i + 1).last() == windows@[i as int]);
            lemma_sum_bonds_take_le(windows@, i + 1);
            lemma_sum_bonds_nonneg(windows@.take(i as int));
        }
        r = r + windows[i].bond_size;
        i = i + 1;
    }
    proof {
        assert(windows@.take(n as int) =~= windows@);
    }
    r
}

/// How a successful stake transforms the request: the staked window's books
/// move by the accepted amount, the window bonds exactly when its target is
/// reached, and then either the arbitrator flag rises or the next round opens
/// with a doubled target.
pub open spec fn stake_transition(pre: ActiveDataRequest, post: ActiveDataRequest, now: u64,
    sender: Seq<char>, o: OutcomeView, amount: u128, unspent: u128) -> bool {
    let k = if pre.num_windows() == 0 {
        0int
    } else {
        pre.num_windows() - 1
    };
    let acc = pre.staking_accepted(o, amount);
    let fills = pre.staking_fills(o, amount);
    let opens = pre.staking_opens(o, amount);
    let w = post.windows()[k];
    &&& unspent == amount - acc
    &&& post.num_windows() == k + 1 + (if opens {
        1int
    } else {
        0int
    })
    &&& (forall|j: int| 0 <= j < k ==> #[trigger] post.windows()[j] == pre.windows()[j])
    &&& w.bond_size == pre.staking_bond()
    &&& w.round == k
    &&& (pre.num_windows() == 0 ==> w.start_time == now && w.end_time == now
        + pre.initial_challenge_period)
    &&& (pre.num_windows() > 0 ==> w.start_time == pre.windows().last().start_time && w.end_time
        == pre.windows().last().end_time)
    &&& w.staked_on(o) == pre.staking_prior(o) + acc
    &&& (forall|x: OutcomeView| x != o ==> #[trigger] w.staked_on(x) == pre.staking_prior(x))
    &&& w.user_staked(sender, o) == pre.staking_user_prior(sender, o) + acc
    &&& (forall|a: Seq<char>, x: OutcomeView|
        !(a == sender && x == o) ==> #[trigger] w.user_staked(a, x) == pre.staking_user_prior(
            a, x))
    &&& w.bonded() == (if fills {
        Option::Some(o)
    } else {
        Option::<OutcomeView>::None
    })
    &&& (opens ==> ({
        let w2 = post.windows().last();
        &&& w2.bond_size == 2 * pre.staking_bond()
        &&& w2.round == k + 1
        &&& w2.start_time == now
        &&& w2.end_time == now + pre.request_config.default_challenge_window_duration
        &&& w2.bonded_outcome is None
        &&& (forall|x: OutcomeView| w2.staked_on(x) == 0)
        &&& (forall|a: Seq<char>, x: OutcomeView| w2.user_staked(a, x) == 0)
    }))
    &&& post.final_arbitrator_triggered == pre.staking_triggers(o, amount)
    &&& post.same_request_meta(pre)
}

/// An active data request: stakes are still coming in, the final outcome is
/// not yet settled.
pub struct ActiveDataRequest {
    pub id: u64,
    pub description: Option<String>,
    pub sources: Vec<Source>,
    pub outcomes: Option<Vec<String>>,
    pub requester: Requester,
    pub resolution_windows: Vec<ResolutionWindow>,
    pub global_config_id: u64,
    pub request_config: DataRequestConfig,
    pub initial_challenge_period: u64,
    pub final_arbitrator_triggered: bool,
    pub tags: Vec<String>,
    pub data_type: DataRequestDataType,
}

/// A finalized data request: only claims mutate it from here on.
pub struct FinalizedDataRequest {
    pub id: u64,
    pub finalized_outcome: Outcome,
    pub resolution_windows: Vec<ResolutionWindow>,
    pub global_config_id: u64,
    pub paid_fee: u128,
}

/// A data request in either lifecycle state.
pub enum DataRequest {
    Active(ActiveDataRequest),
    Finalized(FinalizedDataRequest),
}

/// What a claim leaves of one window: a window bonded on the final outcome
/// keeps its books except that the account's stake on that outcome is
/// removed; any other window is untouched.
pub open spec fn claimed_window(pre: ResolutionWindow, post: ResolutionWindow, fo: OutcomeView,
    a: Seq<char>) -> bool {
    if pre.bonded() == Option::Some(fo) {
        &&& post.bonded_outcome == pre.bonded_outcome
        &&& post.bond_size == pre.bond_size
        &&& post.round == pre.round
        &&& post.dr_id == pre.dr_id
        &&& post.start_time == pre.start_time
        &&& post.end_time == pre.end_time
        &&& (forall|x: OutcomeView| #[trigger] post.staked_on(x) == pre.staked_on(x))
        &&& post.user_staked(a, fo) == 0
        &&& (forall|a2: Seq<char>, x: OutcomeView|
            !(a2 == a && x == fo) ==> #[trigger] post.user_staked(a2, x) == pre.user_staked(
                a2, x))
        &&& post.users_total_on(fo) == pre.users_total_on(fo) - pre.user_staked(a, fo)
        &&& (forall|x: OutcomeView|
            x != fo ==> #[trigger] post.users_total_on(x) == pre.users_total_on(x))
        &&& post.wf()
    } else {
        post == pre
    }
}

proof fn lemma_totals_congruent(s1: Seq<ResolutionWindow>, s2: Seq<ResolutionWindow>,
    fo: OutcomeView)
    requires
        s1.len() == s2.len(),
        forall|j: int|
            0 <= j < s1.len() ==> (#[trigger] s2[j]).bonded_outcome == s1[j].bonded_outcome && s2[
                j].bond_size == s1[j].bond_size,
    ensures
        total_correct(s2, fo) == total_correct(s1, fo),
        total_incorrect(s2, fo) == total_incorrect(s1, fo),
        sum_bonds(s2) == sum_bonds(s1),
    decreases s1.len(),
{
    if s1.len() > 0 {
        lemma_totals_congruent(s1.drop_last(), s2.drop_last(), fo);
    }
}

proof fn lemma_user_correct_zero(s: Seq<ResolutionWindow>, fo: OutcomeView, a: Seq<char>)
    requires
        forall|j: int|
            0 <= j < s.len() ==> ((#[trigger] s[j]).bonded() == Option::Some(fo) ==> s[
                j].user_staked(a, fo) == 0),
    ensures
        user_correct(s, fo, a) == 0,
    decreases s.len(),
{
    if s.len() > 0 {
        lemma_user_correct_zero(s.drop_last(), fo, a);
    }
}

/// Every window is well formed, numbered by its position and owned by the
/// request; each bond target doubles the previous one; every window but the
/// last is bonded; the bond targets fit the balance type even summed.
pub open spec fn active_windows_wf(s: Seq<ResolutionWindow>, id: u64) -> bool {
    &&& forall|i: int| 0 <= i < s.len() ==> (#[trigger] s[i]).wf()
    &&& forall|i: int| 0 <= i < s.len() ==> (#[trigger] s[i]).round == i && s[i].dr_id == id
    &&& forall|i: int|
        #![trigger s[i]]
        0 <= i < s.len() - 1 ==> s[i + 1].bond_size == s[i].bond_size * 2
    &&& forall|i: int| 0 <= i < s.len() - 1 ==> (#[trigger] s[i]).bonded_outcome is Some
    &&& sum_bonds(s) <= u128::MAX
}

impl ActiveDataRequest {
    /// The request's windows, as a sequence.
    pub open spec fn windows(self) -> Seq<ResolutionWindow> {
        self.resolution_windows@
    }

    pub open spec fn num_windows(self) -> int {
        self.windows().len() as int
    }

    /// The base the round-zero bond target is computed from: whichever is
    /// larger of the fee paid and the validity bond, run through the
    /// requester's stake multiplier.
    pub open spec fn resolution_bond(self) -> int {
        let base = if self.request_config.paid_fee >= self.request_config.validity_bond {
            self.request_config.paid_fee
        } else {
            self.request_config.validity_bond
        };
        spec_multiply_stake(base, self.request_config.stake_multiplier)
    }

    /// The windows are well formed and escalate properly; the trailing window
    /// is open exactly as long as the final arbitrator stays out of it.
    pub open spec fn wf(self) -> bool {
        &&& active_windows_wf(self.resolution_windows@, self.id)
        &&& self.num_windows() <= u16::MAX + 1
        &&& (self.final_arbitrator_triggered ==> self.num_windows() > 0
            && self.windows().last().bonded_outcome is Some)
        &&& (!self.final_arbitrator_triggered && self.num_windows() > 0
            ==> self.windows().last().bonded_outcome is None)
    }

    /// Creates an active request pinned to the given config snapshot, with no
    /// resolution windows yet. An absent source list is kept as an empty one.
    pub fn new(requester: Requester, id: u64, global_config_id: u64, config: &OracleConfig,
        paid_fee: u128, request_data: NewDataRequestArgs) -> (r: Self)
        ensures
            r.wf(),
            r.id == id,
            r.global_config_id == global_config_id,
            r.description == request_data.description,
            request_data.sources matches Option::Some(v) ==> r.sources == v,
            request_data.sources is None ==> r.sources@.len() == 0,
            r.outcomes == request_data.outcomes,
            r.requester == requester,
            r.num_windows() == 0,
            r.request_config.default_challenge_window_duration
                == config.default_challenge_window_duration,
            r.request_config.final_arbitrator_invoke_amount
                == config.final_arbitrator_invoke_amount,
            r.request_config.final_arbitrator@ == config.final_arbitrator@,
            r.request_config.validity_bond == config.validity_bond,
            r.request_config.stake_multiplier == requester.stake_multiplier,
            r.request_config.paid_fee == paid_fee,
            r.initial_challenge_period == request_data.challenge_period,
            !r.final_arbitrator_triggered,
            r.tags == request_data.tags,
            r.data_type == request_data.data_type,
    {
        let stake_multiplier = match &requester.stake_multiplier {
            Option::Some(m) => Option::Some(*m),
            Option::None => Option::None,
        };
        ActiveDataRequest {
            id,
            sources: match request_data.sources {
                Option::Some(v) => v,
                Option::None => Vec::new(),
            },
            outcomes: request_data.outcomes,
            requester,
            resolution_windows: Vec::new(),
            global_config_id,
            request_config: DataRequestConfig {
                default_challenge_window_duration: config.default_challenge_window_duration,
                final_arbitrator_invoke_amount: config.final_arbitrator_invoke_amount,
                final_arbitrator: config.final_arbitrator.clone(),
                validity_bond: config.validity_bond,
                stake_multiplier,
                paid_fee,
            },
            initial_challenge_period: request_data.challenge_period,
            final_arbitrator_triggered: false,
            description: request_data.description,
            tags: request_data.tags,
            data_type: request_data.data_type,
        }
    }

    /// Whether staking this outcome is refused because it lost the
    /// immediately preceding bonded round.
    pub open spec fn incompatible_outcome(self, o: OutcomeView) -> bool {
        self.num_windows() > 1 && self.windows()[self.num_windows() - 2].bonded()
            == Option::Some(o)
    }

    /// Refuses the outcome that the immediately preceding bonded round
    /// settled on: doubling down on a decided round is pointless.
    pub fn assert_can_stake_on_outcome(&self, outcome: &Outcome) -> (r: Result<(), OracleError>)
        requires
            self.wf(),
        ensures
            r is Ok <==> !self.incompatible_outcome(outcome@),
            r matches Err(e) ==> e == OracleError::IncompatibleOutcome,
    {
        if self.resolution_windows.len() > 1 {
            let last_window = &self.resolution_windows[self.resolution_windows.len() - 2];
            match &last_window.bonded_outcome {
                Option::Some(b) => {
                    if outcome_eq(b, outcome) {
                        return Err(OracleError::IncompatibleOutcome);
                    }
                },
                Option::None => {},
            }
        }
        Ok(())
    }

    /// Whether the outcome is acceptable against the request's allow-list:
    /// with a list set, only string answers from the list (or `Invalid`) are.
    pub open spec fn outcome_in_list(self, o: OutcomeView) -> bool {
        match self.outcomes {
            Option::Some(list) => match o {
                OutcomeView::Answer(a) => match a {
                    crate::types::AnswerTypeView::StringAnswer(s) => exists|i: int|
                        0 <= i < list@.len() && list@[i]@ == s,
                    crate::types::AnswerTypeView::NumericAnswer(_) => false,
                },
                OutcomeView::Invalid => true,
            },
            Option::None => true,
        }
    }

    /// The error an allow-list check reports for this outcome.
    pub open spec fn outcome_list_error(self, o: OutcomeView) -> OracleError {
        if self.outcomes is Some && (o matches OutcomeView::Answer(
            crate::types::AnswerTypeView::NumericAnswer(_),
        )) {
            OracleError::OutcomeNotString
        } else {
            OracleError::OutcomeNotInList
        }
    }

    /// The error a data-type check reports for this outcome.
    pub open spec fn outcome_type_error(self, o: OutcomeView) -> OracleError {
        match o {
            OutcomeView::Answer(a) => match a {
                crate::types::AnswerTypeView::NumericAnswer(n) => match self.data_type {
                    DataRequestDataType::Number(m) => if m != n.multiplier {
                        OracleError::WrongMultiplier
                    } else {
                        OracleError::WrongOutcomeType
                    },
                    DataRequestDataType::Text => OracleError::WrongOutcomeType,
                },
                crate::types::AnswerTypeView::StringAnswer(_) => OracleError::WrongOutcomeType,
            },
            OutcomeView::Invalid => OracleError::WrongOutcomeType,
        }
    }

    /// Checks the outcome against the request's allow-list.
    #[verifier::loop_isolation(false)]
    pub fn assert_valid_outcome(&self, outcome: &Outcome) -> (r: Result<(), OracleError>)
        ensures
            r is Ok <==> self.outcome_in_list(outcome@),
            r matches Err(e) ==> e == self.outcome_list_error(outcome@),
    {
        match &self.outcomes {
            Option::Some(list) => match outcome {
                Outcome::Answer(answer) => match answer {
                    AnswerType::StringAnswer(s) => {
                        let n = list.len();
                        let mut i: usize = 0;
                        while i < n
                            invariant
                                0 <= i <= n,
                                forall|j: int| 0 <= j < i ==> list@[j]@ != s@,
                            decreases n - i,
                        {
                            if list[i] == *s {
                                return Ok(());
                            }
                            i = i + 1;
                        }
                        Err(OracleError::OutcomeNotInList)
                    },
                    AnswerType::NumericAnswer(_) => Err(OracleError::OutcomeNotString),
                },
                Outcome::Invalid => Ok(()),
            },
            Option::None => Ok(()),
        }
    }

    /// Whether the outcome's answer kind matches the request's data type.
    pub open spec fn outcome_type_ok(self, o: OutcomeView) -> bool {
        match o {
            OutcomeView::Answer(a) => match a {
                crate::types::AnswerTypeView::StringAnswer(_) => self.data_type
                    == DataRequestDataType::Text,
                crate::types::AnswerTypeView::NumericAnswer(n) => self.data_type
                    == DataRequestDataType::Number(n.multiplier),
            },
            OutcomeView::Invalid => true,
        }
    }

    /// Checks the outcome's answer kind against the request's data type.
    pub fn assert_valid_outcome_type(&self, outcome: &Outcome) -> (r: Result<(), OracleError>)
        ensures
            r is Ok <==> self.outcome_type_ok(outcome@),
            r matches Err(e) ==> e == self.outcome_type_error(outcome@),
    {
        match outcome {
            Outcome::Answer(answer) => match answer {
                AnswerType::StringAnswer(_) => match self.data_type {
                    DataRequestDataType::Text => Ok(()),
                    DataRequestDataType::Number(_) => Err(OracleError::WrongOutcomeType),
                },
                AnswerType::NumericAnswer(n) => match self.data_type {
                    DataRequestDataType::Number(m) => {
                        if m == n.multiplier {
                            Ok(())
                        } else {
                            Err(OracleError::WrongMultiplier)
                        }
                    },
                    DataRequestDataType::Text => Err(OracleError::WrongOutcomeType),
                },
            },
            Outcome::Invalid => Ok(()),
        }
    }

    /// Refuses further ordinary staking once the final arbitrator is in.
    pub fn assert_final_arbitrator_not_invoked(&self) -> (r: Result<(), OracleError>)
        ensures
            r is Ok <==> !self.final_arbitrator_triggered,
            r matches Err(e) ==> e == OracleError::FinalArbitratorInvoked,
    {
        if self.final_arbitrator_triggered {
            Err(OracleError::FinalArbitratorInvoked)
        } else {
            Ok(())
        }
    }

    /// The final arbitrator may only act once invoked.
    pub fn assert_final_arbitrator_invoked(&self) -> (r: Result<(), OracleError>)
        ensures
            r is Ok <==> self.final_arbitrator_triggered,
            r matches Err(e) ==> e == OracleError::FinalArbitratorNotInvoked,
    {
        if self.final_arbitrator_triggered {
            Ok(())
        } else {
            Err(OracleError::FinalArbitratorNotInvoked)
        }
    }

    /// Only the designated final arbitrator account may act.
    pub fn assert_final_arbitrator(&self, caller: &AccountId) -> (r: Result<(), OracleError>)
        ensures
            r is Ok <==> caller@ == self.request_config.final_arbitrator@,
            r matches Err(e) ==> e == OracleError::NotFinalArbitrator,
    {
        if self.request_config.final_arbitrator == *caller {
            Ok(())
        } else {
            Err(OracleError::NotFinalArbitrator)
        }
    }

    /// Whether ordinary finalization is allowed at `now`: the arbitrator is
    /// out, a settled round exists, and the trailing window has timed out.
    pub open spec fn can_finalize(self, now: u64) -> bool {
        &&& !self.final_arbitrator_triggered
        &&& self.num_windows() >= 2
        &&& now >= self.windows().last().end_time
    }

    /// Checks the ordinary finalization gates at `now`.
    pub fn assert_can_finalize(&self, now: u64) -> (r: Result<(), OracleError>)
        requires
            self.wf(),
        ensures
            r is Ok <==> self.can_finalize(now),
            r matches Err(e) ==> {
                &&& (e == OracleError::FinalArbitratorInvoked <==> self.final_arbitrator_triggered)
                &&& (e == OracleError::NoBondedOutcome <==> !self.final_arbitrator_triggered
                    && self.num_windows() < 2)
                &&& (e == OracleError::NotTimedOut <==> !self.final_arbitrator_triggered
                    && self.num_windows() >= 2 && now < self.windows().last().end_time)
            },
    {
        if self.final_arbitrator_triggered {
            return Err(OracleError::FinalArbitratorInvoked);
        }
        if self.resolution_windows.len() < 2 {
            return Err(OracleError::NoBondedOutcome);
        }
        let last = &self.resolution_windows[self.resolution_windows.len() - 1];
        if now < last.end_time {
            return Err(OracleError::NotTimedOut);
        }
        Ok(())
    }

    /// The bond target the next stake call works against: the trailing open
    /// window's target, or the doubled resolution bond of the round-zero
    /// window that a first stake would open.
    pub open spec fn staking_bond(self) -> int {
        if self.num_windows() == 0 {
            2 * self.resolution_bond()
        } else {
            self.windows().last().bond_size as int
        }
    }

    /// What that window already holds on the outcome.
    pub open spec fn staking_prior(self, o: OutcomeView) -> int {
        if self.num_windows() == 0 {
            0
        } else {
            self.windows().last().staked_on(o) as int
        }
    }

    /// What the account already holds on the outcome in that window.
    pub open spec fn staking_user_prior(self, a: Seq<char>, o: OutcomeView) -> int {
        if self.num_windows() == 0 {
            0
        } else {
            self.windows().last().user_staked(a, o) as int
        }
    }

    /// How much of `amount` the round accepts: capped by the room below the
    /// bond target.
    pub open spec fn staking_accepted(self, o: OutcomeView, amount: u128) -> int {
        let room = self.staking_bond() - self.staking_prior(o);
        if amount > room {
            room
        } else {
            amount as int
        }
    }

    /// Whether this stake fills the round's bond target exactly.
    pub open spec fn staking_fills(self, o: OutcomeView, amount: u128) -> bool {
        self.staking_prior(o) + self.staking_accepted(o, amount) == self.staking_bond()
    }

    /// Whether this stake fills the round and its bond has reached the final
    /// arbitrator threshold, so no further round opens.
    pub open spec fn staking_triggers(self, o: OutcomeView, amount: u128) -> bool {
        self.staking_fills(o, amount) && self.staking_bond()
            >= self.request_config.final_arbitrator_invoke_amount
    }

    /// Whether this stake fills the round below the threshold, so the next
    /// round opens with a doubled bond target.
    pub open spec fn staking_opens(self, o: OutcomeView, amount: u128) -> bool {
        self.staking_fills(o, amount) && !self.staking_triggers(o, amount)
    }

    /// Whether this stake is refused because a bond target, a round index or
    /// a window end time would leave its machine type.
    pub open spec fn stake_overflows(self, o: OutcomeView, amount: u128, now: u64) -> bool {
        if self.num_windows() == 0 {
            ||| 2 * self.resolution_bond() > u128::MAX
            ||| now + self.initial_challenge_period > u64::MAX
            ||| (self.staking_opens(o, amount) && (3 * self.staking_bond() > u128::MAX || now
                + self.request_config.default_challenge_window_duration > u64::MAX))
        } else {
            self.staking_opens(o, amount) && (sum_bonds(self.windows()) + 2 * self.staking_bond()
                > u128::MAX || now + self.request_config.default_challenge_window_duration
                > u64::MAX || self.num_windows() > u16::MAX)
        }
    }

    /// Everything about the request except its windows and the arbitrator
    /// flag is the same.
    pub open spec fn same_request_meta(self, other: Self) -> bool {
        &&& self.id == other.id
        &&& self.description == other.description
        &&& self.sources == other.sources
        &&& self.outcomes == other.outcomes
        &&& self.requester == other.requester
        &&& self.global_config_id == other.global_config_id
        &&& self.request_config == other.request_config
        &&& self.initial_challenge_period == other.initial_challenge_period
        &&& self.tags == other.tags
        &&& self.data_type == other.data_type
    }

    /// Routes a stake to the trailing window, creating round zero on the
    /// first stake ever; when the stake fills the round's bond target, either
    /// the final arbitrator is invoked (at or above the threshold) or the
    /// next round opens with a doubled bond target and the default challenge
    /// window. Returns what the round did not accept.
    #[verifier::rlimit(100)]
    pub fn stake(&mut self, now: u64, sender: &AccountId, outcome: &Outcome, amount: u128) -> (r:
        Result<u128, OracleError>)
        requires
            old(self).wf(),
            !old(self).final_arbitrator_triggered,
        ensures
            final(self).wf(),
            r is Ok <==> !old(self).stake_overflows(outcome@, amount, now),
            r matches Err(e) ==> e == OracleError::Overflow && *final(self) == *old(self),
            r matches Ok(unspent) ==> stake_transition(*old(self), *final(self), now,
                sender@, outcome@, amount, unspent),
    {
        let n = self.resolution_windows.len();
        let bond: u128;
        let prior: u128;
        if n == 0 {
            let base = if self.request_config.paid_fee >= self.request_config.validity_bond {
                self.request_config.paid_fee
            } else {
                self.request_config.validity_bond
            };
            let rb = match multiply_stake(base, self.request_config.stake_multiplier) {
                Ok(v) => v,
                Err(e) => {
                    return Err(e);
                },
            };
            if rb > u128::MAX / 2 {
                return Err(OracleError::Overflow);
            }
            if now > u64::MAX - self.initial_challenge_period {
                return Err(OracleError::Overflow);
            }
            bond = rb * 2;
            prior = 0;
        } else {
            proof {
                assert(self.windows()[n - 1].staked_on(outcome@) <= self.windows()[n
                    - 1].bond_size);
            }
            let w = &self.resolution_windows[n - 1];
            bond = w.bond_size;
            prior = w.outcome_to_stake.get(outcome);
        }
        let room = bond - prior;
        let accepted = if amount > room {
            room
        } else {
            amount
        };
        let fills = accepted == room;
        let triggers = fills && bond >= self.request_config.final_arbitrator_invoke_amount;
        let opens = fills && !triggers;
        if opens {
            if n > u16::MAX as usize {
                return Err(OracleError::Overflow);
            }
            if bond > u128::MAX / 2 {
                proof {
                    lemma_sum_bonds_nonneg(self.resolution_windows@);
                }
                return Err(OracleError::Overflow);
            }
            let doubled = bond * 2;
            let cur = if n == 0 {
                bond
            } else {
                total_bonds(&self.resolution_windows)
            };
            if cur > u128::MAX - doubled {
                return Err(OracleError::Overflow);
            }
            if now > u64::MAX - self.request_config.default_challenge_window_duration {
                return Err(OracleError::Overflow);
            }
        }
        Ok(self.apply_stake(now, sender, outcome, amount, bond, prior))
    }

    /// The mutation phase of [`Self::stake`], entered once every overflow
    /// gate has passed.
    #[verifier::rlimit(100)]
    fn apply_stake(&mut self, now: u64, sender: &AccountId, outcome: &Outcome, amount: u128,
        bond: u128, prior: u128) -> (unspent: u128)
        requires
            old(self).wf(),
            !old(self).final_arbitrator_triggered,
            !old(self).stake_overflows(outcome@, amount, now),
            bond == old(self).staking_bond(),
            prior == old(self).staking_prior(outcome@),
        ensures
            final(self).wf(),
            stake_transition(*old(self), *final(self), now, sender@, outcome@, amount,
                unspent),
    {
        let n = self.resolution_windows.len();
        let room = bond - prior;
        let accepted = if amount > room {
            room
        } else {
            amount
        };
        let fills = accepted == room;
        let triggers = fills && bond >= self.request_config.final_arbitrator_invoke_amount;
        if n == 0 {
            let w0 = ResolutionWindow::new(self.id, 0, bond / 2, self.initial_challenge_period,
                now);
            proof {
                assert(self.resolution_windows@.push(w0).drop_last() =~= self.resolution_windows@);
            }
            self.resolution_windows.push(w0);
        }
        let k = self.resolution_windows.len() - 1;
        let ghost pre = self.resolution_windows@;
        let unspent = self.resolution_windows[k].stake(sender, outcome, amount);
        proof {
            lemma_sum_bonds_update(pre, k as int, self.resolution_windows@[k as int]);
        }
        if fills {
            if triggers {
                self.final_arbitrator_triggered = true;
            } else {
                proof {
                    // the overflow gate covered the doubled bond: the bond sum
                    // already counts this round's bond at least once
                    if old(self).num_windows() > 0 {
                        lemma_sum_bonds_nonneg(old(self).windows().drop_last());
                    }
                }
                let w2 = ResolutionWindow::new(self.id, (k + 1) as u16, bond,
                    self.request_config.default_challenge_window_duration, now);
                proof {
                    assert(self.resolution_windows@.push(w2).drop_last()
                        =~= self.resolution_windows@);
                }
                self.resolution_windows.push(w2);
            }
        }
        proof {
            let s = self.resolution_windows@;
            let s0 = old(self).resolution_windows@;
            let ki = k as int;
            assert forall|i: int| 0 <= i < s.len() implies (#[trigger] s[i]).wf() by {
                if i < ki {
                    assert(s[i] == s0[i]);
                }
            }
            assert forall|i: int| 0 <= i < s.len() implies (#[trigger] s[i]).round == i && s[
                i].dr_id == self.id by {
                if i < ki {
                    assert(s[i] == s0[i]);
                }
            }
            assert forall|i: int|
                #![trigger s[i]]
                0 <= i < s.len() - 1 implies s[i + 1].bond_size == s[i].bond_size * 2 by {
                if i + 1 < ki {
                    assert(s[i] == s0[i] && s[i + 1] == s0[i + 1]);
                } else if i + 1 == ki {
                    assert(s[i] == s0[i]);
                }
            }
            assert forall|i: int| 0 <= i < s.len() - 1 implies (#[trigger] s[i]).bonded_outcome
                is Some by {
                if i < ki {
                    assert(s[i] == s0[i]);
                }
            }
        }
        unspent
    }

    /// The final outcome an escalation that has run its course settles on:
    /// the bonded outcome of the window before the trailing open one.
    pub fn get_final_outcome(&self) -> (r: Result<Outcome, OracleError>)
        requires
            self.wf(),
        ensures
            r is Ok <==> self.num_windows() >= 2,
            r matches Ok(o) ==> Option::Some(o@) == self.windows()[self.num_windows()
                - 2].bonded(),
            r matches Err(e) ==> e == OracleError::NoBondedOutcome,
    {
        if self.resolution_windows.len() < 2 {
            return Err(OracleError::NoBondedOutcome);
        }
        let w = &self.resolution_windows[self.resolution_windows.len() - 2];
        match &w.bonded_outcome {
            Option::Some(b) => Ok(b.clone()),
            Option::None => {
                proof {
                    assert(false);
                }
                Err(OracleError::NoBondedOutcome)
            },
        }
    }
}

/// How a claim transforms a finalized request: the account's correct stake
/// leaves the books, everything else stays, and the payout follows the
/// proportional formulas over the pools as they stood before the claim.
pub open spec fn claim_transition(pre: FinalizedDataRequest, post: FinalizedDataRequest,
    a: Seq<char>, r: ClaimRes) -> bool {
    let fo = pre.finalized_outcome@;
    let t = total_correct(pre.windows(), fo);
    let i = total_incorrect(pre.windows(), fo);
    let u = user_correct(pre.windows(), fo, a);
    &&& post.finalized_outcome == pre.finalized_outcome
    &&& post.id == pre.id
    &&& post.global_config_id == pre.global_config_id
    &&& post.paid_fee == pre.paid_fee
    &&& post.windows().len() == pre.windows().len()
    &&& (forall|j: int|
        0 <= j < pre.windows().len() ==> claimed_window(pre.windows()[j], post.windows()[j], fo,
            a))
    &&& r.stake_token_payout == spec_stake_payout(u, t, i)
    &&& r.payment_token_payout == spec_fee_payout(u, t, pre.paid_fee as int)
    &&& user_correct(post.windows(), fo, a) == 0
    &&& total_correct(post.windows(), fo) == t
    &&& total_incorrect(post.windows(), fo) == i
}

/// Every window is well formed and the bond targets fit the balance type
/// even summed: all a finalized request still needs for claims.
pub open spec fn fin_windows_wf(s: Seq<ResolutionWindow>) -> bool {
    &&& forall|i: int| 0 <= i < s.len() ==> (#[trigger] s[i]).wf()
    &&& sum_bonds(s) <= u128::MAX
}

impl FinalizedDataRequest {
    /// The request's windows, as a sequence.
    pub open spec fn windows(self) -> Seq<ResolutionWindow> {
        self.resolution_windows@
    }

    pub open spec fn wf(self) -> bool {
        fin_windows_wf(self.resolution_windows@)
    }

    /// Records the final outcome.
    pub fn finalize(&mut self, final_outcome: Outcome)
        ensures
            final(self).finalized_outcome == final_outcome,
            final(self).id == old(self).id,
            final(self).resolution_windows == old(self).resolution_windows,
            final(self).global_config_id == old(self).global_config_id,
            final(self).paid_fee == old(self).paid_fee,
    {
        self.finalized_outcome = final_outcome;
    }

    /// Whether what is left of the validity bond goes back to the requester:
    /// it does for any real answer, and is forfeited to the stakers when the
    /// request settled as invalid.
    pub fn return_validity_bond(&self) -> (r: bool)
        ensures
            r == (self.finalized_outcome@ matches OutcomeView::Answer(_)),
    {
        match &self.finalized_outcome {
            Outcome::Answer(_) => true,
            Outcome::Invalid => false,
        }
    }

    /// Pays the account's share out of every round, removing the account's
    /// correct stake from the books so a second claim finds nothing: the
    /// account recovers its stake on every round that bonded on the final
    /// outcome, plus proportional shares of the losing rounds' pools and of
    /// the request fee, both rounded down.
    #[verifier::loop_isolation(false)]
    #[verifier::rlimit(100)]
    pub fn claim(&mut self, account: &AccountId) -> (r: ClaimRes)
        requires
            old(self).wf(),
        ensures
            final(self).wf(),
            claim_transition(*old(self), *final(self), account@, r),
    {
        let fo = self.finalized_outcome.clone();
        let ghost fov = old(self).finalized_outcome@;
        let ghost s0 = old(self).resolution_windows@;
        let n = self.resolution_windows.len();
        let mut total_correct_staked: u128 = 0;
        let mut total_incorrect_staked: u128 = 0;
        let mut user_correct_stake: u128 = 0;
        let mut i: usize = 0;
        proof {
            assert(s0.take(0).len() == 0);
        }
        while i < n
            invariant
                0 <= i <= n,
                fo@ == fov,
                self.finalized_outcome == old(self).finalized_outcome,
                self.id == old(self).id,
                self.global_config_id == old(self).global_config_id,
                self.paid_fee == old(self).paid_fee,
                self.resolution_windows@.len() == n,
                forall|j: int| i <= j < n ==> self.resolution_windows@[j] == s0[j],
                forall|j: int|
                    0 <= j < i ==> claimed_window(s0[j], self.resolution_windows@[j], fov,
                        account@),
                forall|j: int| 0 <= j < n ==> (#[trigger] self.resolution_windows@[j]).wf(),
                total_correct_staked == total_correct(s0.take(i as int), fov),
                total_incorrect_staked == total_incorrect(s0.take(i as int), fov),
                user_correct_stake == user_correct(s0.take(i as int), fov, account@),
                user_correct_stake <= total_correct_staked,
                total_correct_staked + total_incorrect_staked <= sum_bonds(s0.take(i as int)),
            decreases n - i,
        {
            proof {
                lemma_sum_bonds_take_le(s0, i + 1);
                assert(s0.take(i + 1).drop_last() =~= s0.take(i as int));
                assert(s0.take(i + 1).last() == s0[i as int]);
                s0[i as int].user_to_outcome_to_stake.lemma_stake_le_total(account@, fov);
            }
            let res = self.resolution_windows[i].claim_for(account, &fo);
            match res {
                WindowStakeResult::Correct(cs) => {
                    total_correct_staked = total_correct_staked + cs.bonded_stake;
                    user_correct_stake = user_correct_stake + cs.user_stake;
                },
                WindowStakeResult::Incorrect(pool) => {
                    total_incorrect_staked = total_incorrect_staked + pool;
                },
                WindowStakeResult::NoResult => {},
            }
            i = i + 1;
        }
        proof {
            assert(s0.take(n as int) =~= s0);
            lemma_totals_congruent(s0, self.resolution_windows@, fov);
            assert forall|j: int| 0 <= j < self.resolution_windows@.len() implies ((
            #[trigger] self.resolution_windows@[j]).bonded() == Option::Some(fov)
                ==> self.resolution_windows@[j].user_staked(account@, fov) == 0) by {
                assert(claimed_window(s0[j], self.resolution_windows@[j], fov, account@));
            }
            lemma_user_correct_zero(self.resolution_windows@, fov, account@);
        }
        let stake_profit: u128 = if total_correct_staked == 0 {
            0
        } else {
            proof {
                lemma_mul_inequality(user_correct_stake as int, total_correct_staked as int,
                    total_incorrect_staked as int);
                lemma_mul_is_commutative(user_correct_stake as int, total_incorrect_staked as int);
                lemma_mul_is_commutative(total_correct_staked as int,
                    total_incorrect_staked as int);
                lemma_multiply_divide_le(user_correct_stake * total_incorrect_staked,
                    total_correct_staked as int, total_incorrect_staked as int);
            }
            calc_product(user_correct_stake, total_incorrect_staked, total_correct_staked)
        };
        let fee_profit: u128 = if total_correct_staked == 0 {
            0
        } else {
            proof {
                lemma_mul_inequality(user_correct_stake as int, total_correct_staked as int,
                    self.paid_fee as int);
                lemma_mul_is_commutative(user_correct_stake as int, self.paid_fee as int);
                lemma_mul_is_commutative(total_correct_staked as int, self.paid_fee as int);
                lemma_multiply_divide_le(user_correct_stake * self.paid_fee,
                    total_correct_staked as int, self.paid_fee as int);
            }
            calc_product(user_correct_stake, self.paid_fee, total_correct_staked)
        };
        ClaimRes { payment_token_payout: fee_profit, stake_token_payout: user_correct_stake
            + stake_profit }
    }
}

/// How a successful unstake transforms a request: the addressed round's books
/// shrink by the amount on the one (account, outcome) pair, everything else
/// stays.
pub open spec fn unstake_transition(pre: DataRequest, post: DataRequest, sender: Seq<char>,
    round: u16, o: OutcomeView, amount: u128) -> bool {
    let prew = pre.req_windows()[round as int];
    let postw = post.req_windows()[round as int];
    &&& post.req_windows().len() == pre.req_windows().len()
    &&& (forall|j: int|
        0 <= j < pre.req_windows().len() && j != round ==> #[trigger] post.req_windows()[j]
            == pre.req_windows()[j])
    &&& postw.staked_on(o) == prew.staked_on(o) - amount
    &&& (forall|x: OutcomeView| x != o ==> #[trigger] postw.staked_on(x) == prew.staked_on(x))
    &&& postw.user_staked(sender, o) == prew.user_staked(sender, o) - amount
    &&& (forall|a: Seq<char>, x: OutcomeView|
        !(a == sender && x == o) ==> #[trigger] postw.user_staked(a, x) == prew.user_staked(a, x))
    &&& postw.bonded_outcome == prew.bonded_outcome
    &&& postw.bond_size == prew.bond_size
    &&& postw.round == prew.round
    &&& postw.start_time == prew.start_time
    &&& postw.end_time == prew.end_time
}

proof fn lemma_same_request_refl(a: DataRequest)
    ensures
        same_request(a, a),
{
    match a {
        DataRequest::Active(_) => {},
        DataRequest::Finalized(_) => {},
    }
}

/// The two requests are observably the same: same lifecycle state, same
/// fields, same windows.
pub open spec fn same_request(a: DataRequest, b: DataRequest) -> bool {
    ||| (a matches DataRequest::Active(x) && (b matches DataRequest::Active(y) && {
        &&& x.same_request_meta(y)
        &&& x.final_arbitrator_triggered == y.final_arbitrator_triggered
        &&& x.resolution_windows@ == y.resolution_windows@
    }))
    ||| (a matches DataRequest::Finalized(x) && (b matches DataRequest::Finalized(y) && {
        &&& x.id == y.id
        &&& x.finalized_outcome == y.finalized_outcome
        &&& x.resolution_windows@ == y.resolution_windows@
        &&& x.global_config_id == y.global_config_id
        &&& x.paid_fee == y.paid_fee
    }))
}

impl FinalizedDataRequest {
    /// Reads the account's correct stake across all rounds without touching
    /// the books: exactly what a claim would recover as the stake itself.
    #[verifier::loop_isolation(false)]
    pub fn user_correct_stake(&self, account: &AccountId) -> (r: u128)
        requires
            self.wf(),
        ensures
            r == user_correct(self.windows(), self.finalized_outcome@, account@),
    {
        let n = self.resolution_windows.len();
        let mut acc: u128 = 0;
        let mut total: u128 = 0;
        let mut i: usize = 0;
        proof {
            assert(self.windows().take(0).len() == 0);
        }
        while i < n
            invariant
                0 <= i <= n,
                acc == user_correct(self.windows().take(i as int), self.finalized_outcome@,
                    account@),
                total == total_correct(self.windows().take(i as int), self.finalized_outcome@),
                acc <= total,
                total <= sum_bonds(self.windows().take(i as int)),
            decreases n - i,
        {
            proof {
                lemma_sum_bonds_take_le(self.windows(), i + 1);
                assert(self.windows().take(i + 1).drop_last() =~= self.windows().take(i as int));
                assert(self.windows().take(i + 1).last() == self.windows()[i as int]);
                self.windows()[i as int].user_to_outcome_to_stake.lemma_stake_le_total(account@,
                    self.finalized_outcome@);
            }
            let w = &self.resolution_windows[i];
            let bonded_matches = match &w.bonded_outcome {
                Option::Some(b) => outcome_eq(b, &self.finalized_outcome),
                Option::None => false,
            };
            if bonded_matches {
                let us = w.user_to_outcome_to_stake.get(account, &self.finalized_outcome);
                proof {
                    let wv = self.windows()[i as int];
                    assert(wv.wf());
                    assert(wv.bonded() == Option::Some(self.finalized_outcome@));
                    assert(wv.users_total_on(self.finalized_outcome@) <= wv.staked_on(
                        self.finalized_outcome@));
                    assert(wv.staked_on(self.finalized_outcome@) == wv.bond_size);
                }
                acc = acc + us;
                total = total + w.bond_size;
            }
            i = i + 1;
        }
        proof {
            assert(self.windows().take(n as int) =~= self.windows());
        }
        acc
    }
}

impl DataRequest {
    /// Stakes on an active request; a finalized one refuses.
    pub fn stake_active(&mut self, now: u64, sender: &AccountId, outcome: &Outcome, amount: u128)
        -> (r: Result<u128, OracleError>)
        requires
            old(self).wf(),
            *old(self) matches DataRequest::Active(d) ==> !d.final_arbitrator_triggered,
        ensures
            final(self).wf(),
            *old(self) matches DataRequest::Finalized(_) ==> r == Err::<u128, OracleError>(
                OracleError::AlreadyFinalized) && same_request(*final(self), *old(self)),
            *old(self) matches DataRequest::Active(d) ==> ({
                &&& (r is Ok <==> !d.stake_overflows(outcome@, amount, now))
                &&& (r matches Err(e) ==> e == OracleError::Overflow && same_request(
                    *final(self), *old(self)))
                &&& (r matches Ok(u) ==> (*final(self) matches DataRequest::Active(d2)
                    && stake_transition(d, d2, now, sender@, outcome@, amount, u)))
            }),
    {
        match self {
            DataRequest::Active(d) => d.stake(now, sender, outcome, amount),
            DataRequest::Finalized(_) => Err(OracleError::AlreadyFinalized),
        }
    }

    /// Claims from a finalized request; an active one refuses, and so does a
    /// claim that would pay nothing.
    pub fn claim_finalized(&mut self, account: &AccountId) -> (r: Result<ClaimRes, OracleError>)
        requires
            old(self).wf(),
        ensures
            final(self).wf(),
            *old(self) matches DataRequest::Active(_) ==> r == Err::<ClaimRes, OracleError>(
                OracleError::NotFinalized) && same_request(*final(self), *old(self)),
            *old(self) matches DataRequest::Finalized(d) ==> ({
                &&& (r is Ok <==> user_correct(d.windows(), d.finalized_outcome@, account@) != 0)
                &&& (r matches Err(e) ==> e == OracleError::CannotClaimZero && same_request(
                    *final(self), *old(self)))
                &&& (r matches Ok(res) ==> (*final(self) matches DataRequest::Finalized(d2)
                    && claim_transition(d, d2, account@, res)))
            }),
    {
        match self {
            DataRequest::Finalized(d) => {
                let u = d.user_correct_stake(account);
                if u == 0 {
                    return Err(OracleError::CannotClaimZero);
                }
                Ok(d.claim(account))
            },
            DataRequest::Active(_) => Err(OracleError::NotFinalized),
        }
    }

    /// Turns an active request into its finalized form, recording the final
    /// outcome and keeping only what claims still need.
    pub fn trim(&mut self, final_outcome: Outcome)
        requires
            old(self).wf(),
            *old(self) matches DataRequest::Active(_),
        ensures
            final(self).wf(),
            *old(self) matches DataRequest::Active(d) ==> (*final(self)
                matches DataRequest::Finalized(f) && {
                &&& f.id == d.id
                &&& f.finalized_outcome == final_outcome
                &&& f.resolution_windows@ == d.resolution_windows@
                &&& f.global_config_id == d.global_config_id
                &&& f.paid_fee == d.request_config.paid_fee
            }),
    {
        let mut taken = DataRequest::Finalized(FinalizedDataRequest {
            id: 0,
            finalized_outcome: Outcome::Invalid,
            resolution_windows: Vec::new(),
            global_config_id: 0,
            paid_fee: 0,
        });
        core::mem::swap(self, &mut taken);
        match taken {
            DataRequest::Active(d) => {
                *self = DataRequest::Finalized(FinalizedDataRequest {
                    id: d.id,
                    finalized_outcome: final_outcome,
                    resolution_windows: d.resolution_windows,
                    global_config_id: d.global_config_id,
                    paid_fee: d.request_config.paid_fee,
                });
            },
            DataRequest::Finalized(f) => {
                proof {
                    assert(false);
                }
                *self = DataRequest::Finalized(f);
            },
        }
    }

    pub open spec fn wf(self) -> bool {
        match self {
            DataRequest::Active(d) => d.wf(),
            DataRequest::Finalized(d) => d.wf(),
        }
    }

    /// The request's id, whatever its lifecycle state.
    pub open spec fn req_id(self) -> u64 {
        match self {
            DataRequest::Active(d) => d.id,
            DataRequest::Finalized(d) => d.id,
        }
    }

    /// The pinned config snapshot, whatever the lifecycle state.
    pub open spec fn req_config_id(self) -> u64 {
        match self {
            DataRequest::Active(d) => d.global_config_id,
            DataRequest::Finalized(d) => d.global_config_id,
        }
    }

    /// The request's windows, whatever its lifecycle state.
    pub open spec fn req_windows(self) -> Seq<ResolutionWindow> {
        match self {
            DataRequest::Active(d) => d.resolution_windows@,
            DataRequest::Finalized(d) => d.resolution_windows@,
        }
    }

    /// The config snapshot the request pinned at creation.
    pub fn get_config_id(&self) -> (r: u64)
        ensures
            r == match *self {
                DataRequest::Active(d) => d.global_config_id,
                DataRequest::Finalized(d) => d.global_config_id,
            },
    {
        match self {
            DataRequest::Active(d) => d.global_config_id,
            DataRequest::Finalized(d) => d.global_config_id,
        }
    }

    /// Withdraws stake from the addressed round, in either lifecycle state:
    /// a finalized request's claims read only bonded-outcome stake, which
    /// unstaking never touches.
    pub fn unstake(&mut self, sender: &AccountId, round: u16, outcome: &Outcome, amount: u128)
        -> (r: Result<u128, OracleError>)
        requires
            old(self).wf(),
        ensures
            final(self).wf(),
            r is Ok <==> ({
                &&& round < old(self).req_windows().len()
                &&& old(self).req_windows()[round as int].bonded() != Option::Some(outcome@)
                &&& old(self).req_windows()[round as int].user_staked(sender@, outcome@) >= amount
            }),
            r matches Err(e) ==> same_request(*final(self), *old(self)) && (e
                == OracleError::NoResolutionWindow || e == OracleError::CannotWithdrawBondedOutcome
                || e == OracleError::InsufficientStake) && (e == OracleError::NoResolutionWindow
                <==> round >= old(self).req_windows().len()),
            r matches Ok(v) ==> v == amount && unstake_transition(*old(self), *final(self),
                sender@, round, outcome@, amount) && final(self).req_id() == old(self).req_id()
                && final(self).req_config_id() == old(self).req_config_id(),
    {
        match self {
            DataRequest::Active(d) => {
                if round as usize >= d.resolution_windows.len() {
                    return Err(OracleError::NoResolutionWindow);
                }
                let ghost pre = d.resolution_windows@;
                let k = round as usize;
                let res = d.resolution_windows[k].unstake(sender, outcome, amount);
                proof {
                    if res is Err {
                        assert(d.resolution_windows@ =~= pre);
                    }
                    lemma_sum_bonds_update(pre, k as int, d.resolution_windows@[k as int]);
                    let s = d.resolution_windows@;
                    assert forall|i: int| 0 <= i < s.len() implies (#[trigger] s[i]).wf() by {
                        if i != k {
                            assert(s[i] == pre[i]);
                        }
                    }
                    assert forall|i: int| 0 <= i < s.len() implies (#[trigger] s[i]).round == i
                        && s[i].dr_id == d.id by {
                        if i != k {
                            assert(s[i] == pre[i]);
                        }
                    }
                    assert forall|i: int|
                        #![trigger s[i]]
                        0 <= i < s.len() - 1 implies s[i + 1].bond_size == s[i].bond_size * 2 by {
                        assert(pre[i + 1].bond_size == pre[i].bond_size * 2);
                        if i != k {
                            assert(s[i] == pre[i]);
                        }
                        if i + 1 != k {
                            assert(s[i + 1] == pre[i + 1]);
                        }
                    }
                    assert forall|i: int| 0 <= i < s.len() - 1 implies (#[trigger] s[
                        i]).bonded_outcome is Some by {
                        if i != k {
                            assert(s[i] == pre[i]);
                        }
                    }
                }
                match res {
                    Ok(v) => Ok(v),
                    Err(e) => Err(e),
                }
            },
            DataRequest::Finalized(d) => {
                if round as usize >= d.resolution_windows.len() {
                    return Err(OracleError::NoResolutionWindow);
                }
                let ghost pre = d.resolution_windows@;
                let k = round as usize;
                let res = d.resolution_windows[k].unstake(sender, outcome, amount);
                proof {
                    if res is Err {
                        assert(d.resolution_windows@ =~= pre);
                    }
                    lemma_sum_bonds_update(pre, k as int, d.resolution_windows@[k as int]);
                    let s = d.resolution_windows@;
                    assert forall|i: int| 0 <= i < s.len() implies (#[trigger] s[i]).wf() by {
                        if i != k {
                            assert(s[i] == pre[i]);
                        }
                    }
                }
                match res {
                    Ok(v) => Ok(v),
                    Err(e) => Err(e),
                }
            },
        }
    }
}

/// Only the request at `id` changed; the rest of the oracle is untouched.
pub open spec fn same_registry_except(pre: crate::Contract, post: crate::Contract, id: u64)
    -> bool {
    &&& post.data_requests@.len() == pre.data_requests@.len()
    &&& (forall|j: int|
        0 <= j < pre.data_requests@.len() && j != id ==> #[trigger] post.data_requests@[j]
            == pre.data_requests@[j])
    &&& post.configs == pre.configs
    &&& post.whitelist == pre.whitelist
    &&& post.accounts == pre.accounts
    &&& post.paused == pre.paused
}

/// The oracle is observably unchanged.
pub open spec fn same_contract_state(pre: crate::Contract, post: crate::Contract) -> bool {
    ||| post == pre
    ||| ({
        &&& post.data_requests@.len() == pre.data_requests@.len()
        &&& (forall|j: int|
            0 <= j < pre.data_requests@.len() ==> same_request(#[trigger] post.data_requests@[j],
                pre.data_requests@[j]))
        &&& post.configs == pre.configs
        &&& post.whitelist == pre.whitelist
        &&& post.accounts == pre.accounts
        &&& post.paused == pre.paused
    })
}

/// Whether a new request by `sender` with this payload and deposit goes
/// through.
pub open spec fn dr_new_ok(c: crate::Contract, caller: Seq<char>, sender: Seq<char>,
    p: NewDataRequestArgs, amount: u128) -> bool {
    &&& !c.paused
    &&& (c.whitelist.0 is Some ==> c.whitelist.entry_of(sender) is Some)
    &&& caller == c.current_config().payment_token@
    &&& crate::callback_args::valid_payload(c.current_config(), p)
    &&& amount >= c.current_config().validity_bond
}

/// The first gate a refused new request fails, in the order they are checked.
pub open spec fn dr_new_error(c: crate::Contract, caller: Seq<char>, sender: Seq<char>,
    p: NewDataRequestArgs, amount: u128) -> OracleError {
    if c.paused {
        OracleError::Paused
    } else if c.whitelist.0 is Some && c.whitelist.entry_of(sender) is None {
        OracleError::NotWhitelisted
    } else if caller != c.current_config().payment_token@ {
        OracleError::WrongSender
    } else if !crate::callback_args::valid_payload(c.current_config(), p) {
        crate::callback_args::payload_error(c.current_config(), p)
    } else {
        OracleError::NotEnoughDeposit
    }
}

/// Whether a stake on request `id` goes through.
pub open spec fn dr_stake_ok(c: crate::Contract, caller: Seq<char>, now: u64, o: OutcomeView,
    amount: u128, id: u64) -> bool {
    &&& id < c.data_requests@.len()
    &&& (c.data_requests@[id as int] matches DataRequest::Active(d) && {
        &&& caller == c.configs@[d.global_config_id as int].stake_token@
        &&& !d.final_arbitrator_triggered
        &&& !d.incompatible_outcome(o)
        &&& d.outcome_in_list(o)
        &&& d.outcome_type_ok(o)
        &&& !d.stake_overflows(o, amount, now)
    })
}

/// The first gate a refused stake fails, in the order they are checked.
pub open spec fn dr_stake_error(c: crate::Contract, caller: Seq<char>, now: u64, o: OutcomeView,
    amount: u128, id: u64) -> OracleError {
    if id >= c.data_requests@.len() {
        OracleError::RequestNotFound
    } else {
        match c.data_requests@[id as int] {
            DataRequest::Finalized(_) => OracleError::AlreadyFinalized,
            DataRequest::Active(d) => {
                if caller != c.configs@[d.global_config_id as int].stake_token@ {
                    OracleError::WrongSender
                } else if d.final_arbitrator_triggered {
                    OracleError::FinalArbitratorInvoked
                } else if d.incompatible_outcome(o) {
                    OracleError::IncompatibleOutcome
                } else if !d.outcome_in_list(o) {
                    d.outcome_list_error(o)
                } else if !d.outcome_type_ok(o) {
                    d.outcome_type_error(o)
                } else {
                    OracleError::Overflow
                }
            },
        }
    }
}

impl crate::Contract {
    /// Whether a request with this id exists.
    pub fn dr_exists(&self, id: u64) -> (r: bool)
        ensures
            r == (id < self.data_requests@.len()),
    {
        id < self.data_requests.len() as u64
    }

    /// Posts a new data request: the deposit covers the validity bond and
    /// whatever exceeds it is the request fee; the request pins the current
    /// config and starts with no resolution rounds. Returns the unused part
    /// of the deposit, which is always zero.
    pub fn dr_new(&mut self, caller: &AccountId, sender: &AccountId, amount: u128,
        payload: NewDataRequestArgs) -> (r: Result<u128, OracleError>)
        requires
            old(self).wf(),
        ensures
            final(self).wf(),
            r is Ok <==> dr_new_ok(*old(self), caller@, sender@, payload, amount),
            r matches Err(e) ==> e == dr_new_error(*old(self), caller@, sender@, payload, amount)
                && *final(self) == *old(self),
            r matches Ok(v) ==> ({
                let cfg = old(self).current_config();
                let n = old(self).data_requests@.len();
                &&& v == 0
                &&& final(self).data_requests@.len() == n + 1
                &&& (forall|j: int|
                    0 <= j < n ==> #[trigger] final(self).data_requests@[j] == old(
                        self).data_requests@[j])
                &&& final(self).configs == old(self).configs
                &&& final(self).whitelist == old(self).whitelist
                &&& final(self).accounts == old(self).accounts
                &&& final(self).paused == old(self).paused
                &&& (final(self).data_requests@.last() matches DataRequest::Active(a) && {
                    &&& a.id == n
                    &&& a.global_config_id == old(self).configs@.len() - 1
                    &&& a.request_config.paid_fee == amount - cfg.validity_bond
                    &&& a.request_config.validity_bond == cfg.validity_bond
                    &&& a.request_config.final_arbitrator@ == cfg.final_arbitrator@
                    &&& a.request_config.final_arbitrator_invoke_amount
                        == cfg.final_arbitrator_invoke_amount
                    &&& a.request_config.default_challenge_window_duration
                        == cfg.default_challenge_window_duration
                    &&& a.initial_challenge_period == payload.challenge_period
                    &&& a.num_windows() == 0
                    &&& !a.final_arbitrator_triggered
                    &&& a.outcomes == payload.outcomes
                    &&& a.description == payload.description
                    &&& a.tags == payload.tags
                    &&& a.data_type == payload.data_type
                    &&& (old(self).whitelist.0 is Some ==> (old(self).whitelist.entry_of(sender@)
                        matches Option::Some(e) && a.requester == e
                        && a.request_config.stake_multiplier == e.stake_multiplier))
                    &&& (old(self).whitelist.0 is None ==> a.requester.account_id@ == sender@
                        && a.request_config.stake_multiplier is None)
                })
            }),
    {
        if let Err(e) = self.assert_unpaused() {
            return Err(e);
        }
        if let Err(e) = self.assert_whitelisted(sender) {
            return Err(e);
        }
        let sender_check = self.assert_sender(caller, &self.configs[self.configs.len()
            - 1].payment_token);
        if let Err(e) = sender_check {
            return Err(e);
        }
        if let Err(e) = self.dr_validate(&payload) {
            return Err(e);
        }
        let validity_bond = self.configs[self.configs.len() - 1].validity_bond;
        if amount < validity_bond {
            return Err(OracleError::NotEnoughDeposit);
        }
        let paid_fee = amount - validity_bond;
        let requester = match self.whitelist.whitelist_get_expect(sender) {
            Ok(rq) => rq,
            Err(e) => {
                proof {
                    assert(false);
                }
                return Err(e);
            },
        };
        let id = self.data_requests.len() as u64;
        let config_id = (self.configs.len() - 1) as u64;
        let dr = ActiveDataRequest::new(requester, id, config_id, &self.configs[self.configs.len()
            - 1], paid_fee, payload);
        let ghost pre = self.data_requests@;
        self.data_requests.push(DataRequest::Active(dr));
        proof {
            let s = self.data_requests@;
            assert forall|i: int| 0 <= i < s.len() implies (#[trigger] s[i]).wf() && s[i].req_id()
                == i && s[i].req_config_id() < self.configs@.len() by {
                if i < s.len() - 1 {
                    assert(s[i] == pre[i]);
                }
            }
        }
        Ok(0)
    }

    /// Routes a stake to the addressed request. The stake token pays in; the
    /// request must still be active and the outcome must pass every gate.
    /// Returns what the current round did not accept.
    #[verifier::rlimit(100)]
    pub fn dr_stake(&mut self, caller: &AccountId, now: u64, sender: &AccountId, amount: u128,
        payload: StakeDataRequestArgs) -> (r: Result<u128, OracleError>)
        requires
            old(self).wf(),
        ensures
            final(self).wf(),
            r is Ok <==> dr_stake_ok(*old(self), caller@, now, payload.outcome@, amount,
                payload.id),
            r matches Err(e) ==> e == dr_stake_error(*old(self), caller@, now, payload.outcome@,
                amount, payload.id) && same_contract_state(*old(self), *final(self)),
            r matches Ok(u) ==> ({
                &&& same_registry_except(*old(self), *final(self), payload.id)
                &&& (old(self).data_requests@[payload.id as int] matches DataRequest::Active(d)
                    && (final(self).data_requests@[payload.id as int]
                    matches DataRequest::Active(d2) && stake_transition(d, d2, now, sender@,
                    payload.outcome@, amount, u)))
            }),
    {
        let id = payload.id;
        if id >= self.data_requests.len() as u64 {
            return Err(OracleError::RequestNotFound);
        }
        let idx = id as usize;
        match &self.data_requests[idx] {
            DataRequest::Finalized(_) => {
                return Err(OracleError::AlreadyFinalized);
            },
            DataRequest::Active(d) => {
                let nconfigs = self.configs.len();
                proof {
                    assert(self.data_requests@[idx as int].req_config_id()
                        < self.configs@.len());
                    assert(d.global_config_id < nconfigs);
                }
                let cfg = &self.configs[d.global_config_id as usize];
                if cfg.stake_token != *caller {
                    return Err(OracleError::WrongSender);
                }
                if let Err(e) = d.assert_final_arbitrator_not_invoked() {
                    return Err(e);
                }
                if let Err(e) = d.assert_can_stake_on_outcome(&payload.outcome) {
                    return Err(e);
                }
                if let Err(e) = d.assert_valid_outcome(&payload.outcome) {
                    return Err(e);
                }
                if let Err(e) = d.assert_valid_outcome_type(&payload.outcome) {
                    return Err(e);
                }
            },
        }
        let res = self.data_requests[idx].stake_active(now, sender, &payload.outcome, amount);
        proof {
            let s = self.data_requests@;
            let pre = old(self).data_requests@;
            assert forall|i: int| 0 <= i < s.len() implies (#[trigger] s[i]).wf() && s[i].req_id()
                == i && s[i].req_config_id() < self.configs@.len() by {
                if i != idx {
                    assert(s[i] == pre[i]);
                }
            }
            if res is Err {
                assert forall|j: int| 0 <= j < pre.len() implies same_request(
                    #[trigger] s[j], pre[j]) by {
                    if j != idx {
                        assert(s[j] == pre[j]);
                        lemma_same_request_refl(s[j]);
                    }
                }
            }
        }
        res
    }

    /// Withdraws the caller's stake from the addressed round of the request.
    pub fn dr_unstake(&mut self, caller: &AccountId, request_id: u64, resolution_round: u16,
        outcome: &Outcome, amount: u128) -> (r: Result<u128, OracleError>)
        requires
            old(self).wf(),
        ensures
            final(self).wf(),
            r is Ok <==> (request_id < old(self).data_requests@.len() && ({
                let ws = old(self).data_requests@[request_id as int].req_windows();
                &&& resolution_round < ws.len()
                &&& ws[resolution_round as int].bonded() != Option::Some(outcome@)
                &&& ws[resolution_round as int].user_staked(caller@, outcome@) >= amount
            })),
            r matches Err(e) ==> same_contract_state(*old(self), *final(self)) && (e
                == OracleError::RequestNotFound <==> request_id >= old(
                self).data_requests@.len()),
            r matches Ok(v) ==> v == amount && same_registry_except(*old(self), *final(self),
                request_id) && unstake_transition(old(self).data_requests@[request_id as int],
                final(self).data_requests@[request_id as int], caller@, resolution_round,
                outcome@, amount),
    {
        if request_id >= self.data_requests.len() as u64 {
            return Err(OracleError::RequestNotFound);
        }
        let idx = request_id as usize;
        let res = self.data_requests[idx].unstake(caller, resolution_round, outcome, amount);
        proof {
            let s = self.data_requests@;
            let pre = old(self).data_requests@;
            assert forall|i: int| 0 <= i < s.len() implies (#[trigger] s[i]).wf() && s[i].req_id()
                == i && s[i].req_config_id() < self.configs@.len() by {
                if i != idx {
                    assert(s[i] == pre[i]);
                }
            }
            if res is Err {
                assert forall|j: int| 0 <= j < pre.len() implies same_request(
                    #[trigger] s[j], pre[j]) by {
                    if j != idx {
                        assert(s[j] == pre[j]);
                        lemma_same_request_refl(s[j]);
                    }
                }
            }
        }
        res
    }

    /// Pays the account's claim out of the addressed finalized request and
    /// removes the claimed stake from its books. A claim that would pay
    /// nothing is refused.
    pub fn dr_claim(&mut self, account_id: &AccountId, request_id: u64) -> (r: Result<
        ClaimRes,
        OracleError,
    >)
        requires
            old(self).wf(),
        ensures
            final(self).wf(),
            r is Ok <==> (request_id < old(self).data_requests@.len() && (old(
            self).data_requests@[request_id as int] matches DataRequest::Finalized(d)
                && user_correct(d.windows(), d.finalized_outcome@, account_id@) != 0)),
            r matches Err(e) ==> same_contract_state(*old(self), *final(self)) && e == (if
                request_id >= old(self).data_requests@.len() {
                OracleError::RequestNotFound
            } else if old(self).data_requests@[request_id as int] matches DataRequest::Active(_) {
                OracleError::NotFinalized
            } else {
                OracleError::CannotClaimZero
            }),
            r matches Ok(res) ==> ({
                &&& same_registry_except(*old(self), *final(self), request_id)
                &&& (old(self).data_requests@[request_id as int]
                    matches DataRequest::Finalized(d) && (final(
                self).data_requests@[request_id as int] matches DataRequest::Finalized(d2)
                    && claim_transition(d, d2, account_id@, res)))
            }),
    {
        if request_id >= self.data_requests.len() as u64 {
            return Err(OracleError::RequestNotFound);
        }
        let idx = request_id as usize;
        let res = self.data_requests[idx].claim_finalized(account_id);
        proof {
            let s = self.data_requests@;
            let pre = old(self).data_requests@;
            assert forall|i: int| 0 <= i < s.len() implies (#[trigger] s[i]).wf() && s[i].req_id()
                == i && s[i].req_config_id() < self.configs@.len() by {
                if i != idx {
                    assert(s[i] == pre[i]);
                }
            }
            if res is Err {
                assert forall|j: int| 0 <= j < pre.len() implies same_request(
                    #[trigger] s[j], pre[j]) by {
                    if j != idx {
                        assert(s[j] == pre[j]);
                        lemma_same_request_refl(s[j]);
                    }
                }
            }
        }
        res
    }

    /// Finalizes the addressed request once its escalation has run its
    /// course: the last bonded round's outcome becomes final. The validity
    /// bond's return and the requester notification follow from the result.
    pub fn dr_finalize(&mut self, now: u64, request_id: u64) -> (r: Result<Outcome, OracleError>)
        requires
            old(self).wf(),
        ensures
            final(self).wf(),
            r is Ok <==> (request_id < old(self).data_requests@.len() && (old(
            self).data_requests@[request_id as int] matches DataRequest::Active(d)
                && d.can_finalize(now))),
            r matches Err(e) ==> same_contract_state(*old(self), *final(self)) && e == (if
                request_id >= old(self).data_requests@.len() {
                OracleError::RequestNotFound
            } else {
                match old(self).data_requests@[request_id as int] {
                    DataRequest::Finalized(_) => OracleError::AlreadyFinalized,
                    DataRequest::Active(d) => if d.final_arbitrator_triggered {
                        OracleError::FinalArbitratorInvoked
                    } else if d.num_windows() < 2 {
                        OracleError::NoBondedOutcome
                    } else {
                        OracleError::NotTimedOut
                    },
                }
            }),
            r matches Ok(o) ==> ({
                &&& same_registry_except(*old(self), *final(self), request_id)
                &&& (old(self).data_requests@[request_id as int] matches DataRequest::Active(d)
                    && {
                    &&& Option::Some(o@) == d.windows()[d.num_windows() - 2].bonded()
                    &&& (final(self).data_requests@[request_id as int]
                        matches DataRequest::Finalized(f) && {
                        &&& f.id == d.id
                        &&& f.finalized_outcome@ == o@
                        &&& f.resolution_windows@ == d.resolution_windows@
                        &&& f.global_config_id == d.global_config_id
                        &&& f.paid_fee == d.request_config.paid_fee
                    })
                })
            }),
    {
        if request_id >= self.data_requests.len() as u64 {
            return Err(OracleError::RequestNotFound);
        }
        let idx = request_id as usize;
        let outcome: Outcome;
        match &self.data_requests[idx] {
            DataRequest::Finalized(_) => {
                return Err(OracleError::AlreadyFinalized);
            },
            DataRequest::Active(d) => {
                if let Err(e) = d.assert_can_finalize(now) {
                    return Err(e);
                }
                outcome = match d.get_final_outcome() {
                    Ok(o) => o,
                    Err(e) => {
                        proof {
                            assert(false);
                        }
                        return Err(e);
                    },
                };
            },
        }
        let returned = outcome.clone();
        self.data_requests[idx].trim(outcome);
        proof {
            let s = self.data_requests@;
            let pre = old(self).data_requests@;
            assert forall|i: int| 0 <= i < s.len() implies (#[trigger] s[i]).wf() && s[i].req_id()
                == i && s[i].req_config_id() < self.configs@.len() by {
                if i != idx {
                    assert(s[i] == pre[i]);
                }
            }
        }
        Ok(returned)
    }

    /// Lets the designated final arbitrator settle a request whose stakes
    /// escalated past the safety threshold, overriding round escalation.
    /// Returns whether the validity bond goes back to the requester.
    pub fn dr_final_arbitrator_finalize(&mut self, caller: &AccountId, request_id: u64,
        outcome: Outcome) -> (r: Result<bool, OracleError>)
        requires
            old(self).wf(),
        ensures
            final(self).wf(),
            r is Ok <==> (request_id < old(self).data_requests@.len() && (old(
            self).data_requests@[request_id as int] matches DataRequest::Active(d) && {
                &&& caller@ == d.request_config.final_arbitrator@
                &&& d.outcome_in_list(outcome@)
                &&& d.final_arbitrator_triggered
            })),
            r matches Err(e) ==> same_contract_state(*old(self), *final(self)) && e == (if
                request_id >= old(self).data_requests@.len() {
                OracleError::RequestNotFound
            } else {
                match old(self).data_requests@[request_id as int] {
                    DataRequest::Finalized(_) => OracleError::AlreadyFinalized,
                    DataRequest::Active(d) => if caller@ != d.request_config.final_arbitrator@ {
                        OracleError::NotFinalArbitrator
                    } else if !d.outcome_in_list(outcome@) {
                        d.outcome_list_error(outcome@)
                    } else {
                        OracleError::FinalArbitratorNotInvoked
                    },
                }
            }),
            r matches Ok(b) ==> ({
                &&& b == (outcome@ matches OutcomeView::Answer(_))
                &&& same_registry_except(*old(self), *final(self), request_id)
                &&& (old(self).data_requests@[request_id as int] matches DataRequest::Active(d)
                    && (final(self).data_requests@[request_id as int]
                    matches DataRequest::Finalized(f) && {
                    &&& f.id == d.id
                    &&& f.finalized_outcome@ == outcome@
                    &&& f.resolution_windows@ == d.resolution_windows@
                    &&& f.global_config_id == d.global_config_id
                    &&& f.paid_fee == d.request_config.paid_fee
                }))
            }),
    {
        if request_id >= self.data_requests.len() as u64 {
            return Err(OracleError::RequestNotFound);
        }
        let idx = request_id as usize;
        match &self.data_requests[idx] {
            DataRequest::Finalized(_) => {
                return Err(OracleError::AlreadyFinalized);
            },
            DataRequest::Active(d) => {
                if let Err(e) = d.assert_final_arbitrator(caller) {
                    return Err(e);
                }
                if let Err(e) = d.assert_valid_outcome(&outcome) {
                    return Err(e);
                }
                if let Err(e) = d.assert_final_arbitrator_invoked() {
                    return Err(e);
                }
            },
        }
        let bond_returned = match &outcome {
            Outcome::Answer(_) => true,
            Outcome::Invalid => false,
        };
        self.data_requests[idx].trim(outcome);
        proof {
            let s = self.data_requests@;
            let pre = old(self).data_requests@;
            assert forall|i: int| 0 <= i < s.len() implies (#[trigger] s[i]).wf() && s[i].req_id()
                == i && s[i].req_config_id() < self.configs@.len() by {
                if i != idx {
                    assert(s[i] == pre[i]);
                }
            }
        }
        Ok(bond_returned)
    }
}

/// A resolution window as reported to callers.
pub struct ResolutionWindowSummary {
    pub round: u16,
    pub start_time: u64,
    pub end_time: u64,
    pub bond_size: u128,
    pub bonded_outcome: Option<Outcome>,
}

/// A request's pinned economics as reported to callers.
pub struct DataRequestConfigSummary {
    pub validity_bond: u128,
    pub paid_fee: u128,
    pub stake_multiplier: Option<u16>,
}

/// An active request as reported to callers.
pub struct ActiveDataRequestSummary {
    pub id: u64,
    pub description: Option<String>,
    pub sources: Vec<Source>,
    pub outcomes: Option<Vec<String>>,
    pub requester: Requester,
    pub resolution_windows: Vec<ResolutionWindowSummary>,
    pub global_config_id: u64,
    pub initial_challenge_period: u64,
    pub final_arbitrator_triggered: bool,
    pub tags: Vec<String>,
    pub data_type: DataRequestDataType,
    pub request_config: DataRequestConfigSummary,
}

/// A finalized request as reported to callers.
pub struct FinalizedDataRequestSummary {
    pub id: u64,
    pub finalized_outcome: Outcome,
    pub resolution_windows: Vec<ResolutionWindowSummary>,
    pub global_config_id: u64,
    pub paid_fee: u128,
}

/// A request summary in either lifecycle state.
pub enum DataRequestSummary {
    Active(ActiveDataRequestSummary),
    Finalized(FinalizedDataRequestSummary),
}

/// The summary reports the window faithfully.
pub open spec fn window_summarized(ws: ResolutionWindowSummary, w: ResolutionWindow) -> bool {
    &&& ws.round == w.round
    &&& ws.start_time == w.start_time
    &&& ws.end_time == w.end_time
    &&& ws.bond_size == w.bond_size
    &&& ws.bonded_outcome == w.bonded_outcome
}

/// The summary reports the active request faithfully.
pub open spec fn active_summarized(a: ActiveDataRequestSummary, x: ActiveDataRequest) -> bool {
    &&& a.id == x.id
    &&& a.description == x.description
    &&& a.sources@ == x.sources@
    &&& (a.outcomes is Some <==> x.outcomes is Some)
    &&& (a.outcomes matches Option::Some(v1) ==> (x.outcomes matches Option::Some(v2) && v1@
        == v2@))
    &&& a.requester == x.requester
    &&& a.resolution_windows@.len() == x.resolution_windows@.len()
    &&& (forall|j: int|
        0 <= j < x.resolution_windows@.len() ==> window_summarized(
            #[trigger] a.resolution_windows@[j], x.resolution_windows@[j]))
    &&& a.global_config_id == x.global_config_id
    &&& a.initial_challenge_period == x.initial_challenge_period
    &&& a.final_arbitrator_triggered == x.final_arbitrator_triggered
    &&& a.tags@ == x.tags@
    &&& a.data_type == x.data_type
    &&& a.request_config.validity_bond == x.request_config.validity_bond
    &&& a.request_config.paid_fee == x.request_config.paid_fee
    &&& a.request_config.stake_multiplier == x.request_config.stake_multiplier
}

/// The summary reports the finalized request faithfully.
pub open spec fn finalized_summarized(f: FinalizedDataRequestSummary, y: FinalizedDataRequest)
    -> bool {
    &&& f.id == y.id
    &&& f.finalized_outcome == y.finalized_outcome
    &&& f.resolution_windows@.len() == y.resolution_windows@.len()
    &&& (forall|j: int|
        0 <= j < y.resolution_windows@.len() ==> window_summarized(
            #[trigger] f.resolution_windows@[j], y.resolution_windows@[j]))
    &&& f.global_config_id == y.global_config_id
    &&& f.paid_fee == y.paid_fee
}

/// The summary reports the request faithfully, in the same lifecycle state.
pub open spec fn summarizes(s: DataRequestSummary, d: DataRequest) -> bool {
    ||| (s matches DataRequestSummary::Active(a) && (d matches DataRequest::Active(x)
        && active_summarized(a, x)))
    ||| (s matches DataRequestSummary::Finalized(f) && (d matches DataRequest::Finalized(y)
        && finalized_summarized(f, y)))
}

impl DataRequestSummary {
    /// The summarized request's id, whatever its lifecycle state.
    pub open spec fn spec_id(self) -> u64 {
        match self {
            DataRequestSummary::Active(a) => a.id,
            DataRequestSummary::Finalized(f) => f.id,
        }
    }

    /// The summarized request's id.
    pub fn id(&self) -> (r: u64)
        ensures
            r == self.spec_id(),
    {
        match self {
            DataRequestSummary::Active(a) => a.id,
            DataRequestSummary::Finalized(f) => f.id,
        }
    }
}

/// Clones a source list element by element.
fn clone_sources(v: &Vec<Source>) -> (r: Vec<Source>)
    ensures
        r@ == v@,
{
    let mut r: Vec<Source> = Vec::new();
    let n = v.len();
    let mut i: usize = 0;
    while i < n
        invariant
            n == v@.len(),
            0 <= i <= n,
            r@ =~= v@.take(i as int),
        decreases n - i,
    {
        r.push(v[i].clone());
        proof {
            assert(r@ =~= v@.take(i + 1));
        }
        i = i + 1;
    }
    proof {
        assert(v@.take(n as int) =~= v@);
    }
    r
}

/// Clones a string list element by element.
fn clone_strings(v: &Vec<String>) -> (r: Vec<String>)
    ensures
        r@ == v@,
{
    let mut r: Vec<String> = Vec::new();
    let n = v.len();
    let mut i: usize = 0;
    while i < n
        invariant
            n == v@.len(),
            0 <= i <= n,
            r@ =~= v@.take(i as int),
        decreases n - i,
    {
        r.push(v[i].clone());
        proof {
            assert(r@ =~= v@.take(i + 1));
        }
        i = i + 1;
    }
    proof {
        assert(v@.take(n as int) =~= v@);
    }
    r
}

/// Summarizes a window list element by element.
fn summarize_windows(v: &Vec<ResolutionWindow>) -> (r: Vec<ResolutionWindowSummary>)
    ensures
        r@.len() == v@.len(),
        forall|j: int|
            0 <= j < v@.len() ==> window_summarized(#[trigger] r@[j], v@[j]),
{
    let mut r: Vec<ResolutionWindowSummary> = Vec::new();
    let n = v.len();
    let mut i: usize = 0;
    while i < n
        invariant
            n == v@.len(),
            0 <= i <= n,
            r@.len() == i,
            forall|j: int| 0 <= j < i ==> window_summarized(#[trigger] r@[j], v@[j]),
        decreases n - i,
    {
        let w = &v[i];
        let bonded_outcome = match &w.bonded_outcome {
            Option::Some(b) => Option::Some(b.clone()),
            Option::None => Option::None,
        };
        r.push(ResolutionWindowSummary {
            round: w.round,
            start_time: w.start_time,
            end_time: w.end_time,
            bond_size: w.bond_size,
            bonded_outcome,
        });
        i = i + 1;
    }
    r
}

impl ActiveDataRequest {
    /// Reports the request's current shape.
    pub fn summarize_dr(&self) -> (r: ActiveDataRequestSummary)
        ensures
            active_summarized(r, *self),
    {
        ActiveDataRequestSummary {
            id: self.id,
            description: match &self.description {
                Option::Some(s) => Option::Some(s.clone()),
                Option::None => Option::None,
            },
            sources: clone_sources(&self.sources),
            outcomes: match &self.outcomes {
                Option::Some(v) => Option::Some(clone_strings(v)),
                Option::None => Option::None,
            },
            requester: self.requester.clone(),
            resolution_windows: summarize_windows(&self.resolution_windows),
            global_config_id: self.global_config_id,
            initial_challenge_period: self.initial_challenge_period,
            final_arbitrator_triggered: self.final_arbitrator_triggered,
            tags: clone_strings(&self.tags),
            data_type: self.data_type,
            request_config: DataRequestConfigSummary {
                validity_bond: self.request_config.validity_bond,
                paid_fee: self.request_config.paid_fee,
                stake_multiplier: match &self.request_config.stake_multiplier {
                    Option::Some(m) => Option::Some(*m),
                    Option::None => Option::None,
                },
            },
        }
    }
}

impl FinalizedDataRequest {
    /// Reports the request's settled shape.
    pub fn summarize_dr(&self) -> (r: FinalizedDataRequestSummary)
        ensures
            finalized_summarized(r, *self),
    {
        FinalizedDataRequestSummary {
            id: self.id,
            finalized_outcome: self.finalized_outcome.clone(),
            resolution_windows: summarize_windows(&self.resolution_windows),
            global_config_id: self.global_config_id,
            paid_fee: self.paid_fee,
        }
    }
}

impl DataRequest {
    /// Reports the request, in whichever lifecycle state it is in.
    pub fn summarize(&self) -> (r: DataRequestSummary)
        ensures
            summarizes(r, *self),
    {
        match self {
            DataRequest::Active(d) => DataRequestSummary::Active(d.summarize_dr()),
            DataRequest::Finalized(d) => DataRequestSummary::Finalized(d.summarize_dr()),
        }
    }
}

impl crate::Contract {
    /// The summary of the request with this id, if it exists.
    pub fn get_request_by_id(&self, id: u64) -> (r: Option<DataRequestSummary>)
        ensures
            match r {
                Option::Some(s) => id < self.data_requests@.len() && summarizes(s,
                    self.data_requests@[id as int]),
                Option::None => id >= self.data_requests@.len(),
            },
    {
        if id >= self.data_requests.len() as u64 {
            return Option::None;
        }
        Option::Some(self.data_requests[id as usize].summarize())
    }

    /// The summary of the newest request, if any exists.
    pub fn get_latest_request(&self) -> (r: Option<DataRequestSummary>)
        ensures
            match r {
                Option::Some(s) => self.data_requests@.len() > 0 && summarizes(s,
                    self.data_requests@.last()),
                Option::None => self.data_requests@.len() == 0,
            },
    {
        if self.data_requests.len() < 1 {
            return Option::None;
        }
        self.get_request_by_id(self.data_requests.len() as u64 - 1)
    }

    /// The finalized outcome of the request with this id.
    pub fn get_outcome(&self, dr_id: u64) -> (r: Result<Outcome, OracleError>)
        ensures
            r is Ok <==> (dr_id < self.data_requests@.len()
                && self.data_requests@[dr_id as int] matches DataRequest::Finalized(_)),
            r matches Ok(o) ==> (self.data_requests@[dr_id as int]
                matches DataRequest::Finalized(d) && o == d.finalized_outcome),
            r matches Err(e) ==> (e == OracleError::RequestNotFound <==> dr_id
                >= self.data_requests@.len()) && (e == OracleError::RequestNotFound || e
                == OracleError::NotFinalized),
    {
        if dr_id >= self.data_requests.len() as u64 {
            return Err(OracleError::RequestNotFound);
        }
        match &self.data_requests[dr_id as usize] {
            DataRequest::Finalized(d) => Ok(d.finalized_outcome.clone()),
            DataRequest::Active(_) => Err(OracleError::NotFinalized),
        }
    }

    /// A page of request summaries: up to `limit` of them, starting at
    /// `from_index`.
    pub fn get_requests(&self, from_index: u64, limit: u64) -> (r: Vec<DataRequestSummary>)
        ensures
            r@.len() == (if from_index >= self.data_requests@.len() {
                0int
            } else if from_index + limit <= self.data_requests@.len() {
                limit as int
            } else {
                self.data_requests@.len() - from_index
            }),
            forall|k: int|
                0 <= k < r@.len() ==> summarizes(#[trigger] r@[k],
                    self.data_requests@[from_index + k]),
    {
        let n = self.data_requests.len() as u64;
        let end = if limit > u64::MAX - from_index {
            n
        } else if from_index + limit < n {
            from_index + limit
        } else {
            n
        };
        let mut r: Vec<DataRequestSummary> = Vec::new();
        let mut i: u64 = from_index;
        if from_index >= n {
            return r;
        }
        while i < end
            invariant
                from_index <= i <= end,
                end <= n,
                n == self.data_requests@.len(),
                n <= usize::MAX,
                from_index < n,
                end == (if from_index + limit <= n {
                    from_index + limit
                } else {
                    n as int
                }),
                r@.len() == i - from_index,
                forall|k: int|
                    0 <= k < r@.len() ==> summarizes(#[trigger] r@[k],
                        self.data_requests@[from_index + k]),
            decreases end - i,
    {
            let ghost len0 = r@.len();
            let ghost r0 = r@;
            let s_val = self.data_requests[i as usize].summarize();
            r.push(s_val);
            proof {
                assert forall|k: int|
                    0 <= k < r@.len() implies summarizes(#[trigger] r@[k],
                    self.data_requests@[from_index + k]) by {
                    if k < len0 {
                        assert(r@[k] == r0[k]);
                    } else {
                        assert(r@[k] == s_val);
                        assert(from_index + k == i as int);
                    }
                }
            }
            i = i + 1;
        }
        r
    }
}

} // verus!
