//! The protocol's global guarantees, stated and proved over the same spec
//! functions the operations' contracts use.

use vstd::prelude::*;

use vstd::arithmetic::div_mod::{
    lemma_div_by_multiple, lemma_div_is_ordered, lemma_div_multiples_vanish, lemma_div_of0,
    lemma_fundamental_div_mod, lemma_mod_bound,
};
use vstd::arithmetic::mul::{
    lemma_mul_inequality, lemma_mul_is_commutative, lemma_mul_is_distributive_add_other_way,
};

use crate::data_request::{
    claim_transition, lemma_claimed_pool_drop, lemma_claimed_windows_wf, lemma_pool_bounds,
    lemma_user_correct_nonneg, lemma_totals_nonneg, spec_fee_payout, spec_stake_payout,
    total_correct, total_incorrect, user_correct, users_correct_total, ActiveDataRequest, ClaimRes,
    FinalizedDataRequest,
};
use crate::resolution_window::ResolutionWindow;
use crate::types::OutcomeView;

verus! {

/// The sum of a list of (claimed) stakes.
pub open spec fn sum_stakes(us: Seq<int>) -> int
    decreases us.len(),
{
    if us.len() == 0 {
        0
    } else {
        us[0] + sum_stakes(us.drop_first())
    }
}

/// The sum of the stake payouts the formula owes for the stakes `us`,
/// against a correct pool `t` and an incorrect pool `i`.
pub open spec fn sum_stake_payouts(us: Seq<int>, t: int, i: int) -> int
    decreases us.len(),
{
    if us.len() == 0 {
        0
    } else {
        spec_stake_payout(us[0], t, i) + sum_stake_payouts(us.drop_first(), t, i)
    }
}

/// The sum of the fee payouts the formula owes for the stakes `us`, against a
/// correct pool `t` and a request fee `f`.
pub open spec fn sum_fee_payouts(us: Seq<int>, t: int, f: int) -> int
    decreases us.len(),
{
    if us.len() == 0 {
        0
    } else {
        spec_fee_payout(us[0], t, f) + sum_fee_payouts(us.drop_first(), t, f)
    }
}

/// The claimants' proportional shares of a pool `w`, summed.
pub open spec fn sum_of_shares(us: Seq<int>, t: int, w: int) -> int
    decreases us.len(),
{
    if us.len() == 0 {
        0
    } else {
        us[0] * w / t + sum_of_shares(us.drop_first(), t, w)
    }
}

proof fn lemma_sum_stakes_nonneg(us: Seq<int>)
    requires
        forall|k: int| 0 <= k < us.len() ==> us[k] >= 0,
    ensures
        sum_stakes(us) >= 0,
    decreases us.len(),
{
    if us.len() > 0 {
        lemma_sum_stakes_nonneg(us.drop_first());
    }
}

/// Floor division distributes sub-additively over a sum of numerators.
proof fn lemma_div_subadd(a: int, b: int, t: int)
    requires
        t > 0,
        a >= 0,
        b >= 0,
    ensures
        a / t + b / t <= (a + b) / t,
{
    lemma_fundamental_div_mod(a, t);
    lemma_fundamental_div_mod(b, t);
    lemma_mod_bound(a, t);
    lemma_mod_bound(b, t);
    let q = a / t + b / t;
    assert(t * (a / t) + t * (b / t) == t * q) by (nonlinear_arith)
        requires
            q == a / t + b / t,
    ;
    assert(t * q <= a + b);
    lemma_mul_is_commutative(t, q);
    lemma_div_is_ordered(q * t, a + b, t);
    lemma_div_by_multiple(q, t);
}

/// Each claimant's proportional share, summed, stays within what a single
/// claimant holding all the stakes would get.
proof fn lemma_shares_subadd(us: Seq<int>, t: int, w: int)
    requires
        t > 0,
        w >= 0,
        forall|k: int| 0 <= k < us.len() ==> us[k] >= 0,
    ensures
        sum_of_shares(us, t, w) <= sum_stakes(us) * w / t,
    decreases us.len(),
{
    if us.len() == 0 {
        assert(0int * w == 0) by (nonlinear_arith);
        lemma_div_of0(t);
    } else {
        let s = sum_stakes(us.drop_first());
        let u = us[0];
        lemma_shares_subadd(us.drop_first(), t, w);
        lemma_sum_stakes_nonneg(us.drop_first());
        assert(s * w >= 0 && u * w >= 0) by (nonlinear_arith)
            requires
                s >= 0,
                u >= 0,
                w >= 0,
        ;
        lemma_div_subadd(u * w, s * w, t);
        lemma_mul_is_distributive_add_other_way(w, u, s);
        assert((u + s) * w == u * w + s * w);
    }
}

proof fn lemma_payouts_decompose(us: Seq<int>, t: int, i: int, f: int)
    requires
        t > 0,
    ensures
        sum_stake_payouts(us, t, i) == sum_stakes(us) + sum_of_shares(us, t, i),
        sum_fee_payouts(us, t, f) == sum_of_shares(us, t, f),
    decreases us.len(),
{
    if us.len() > 0 {
        lemma_payouts_decompose(us.drop_first(), t, i, f);
    }
}

/// Fund conservation, arithmetically. However a correct pool `t` is split
/// among claimants (stakes `us` summing to at most `t`), the stake payouts
/// never exceed all stake ever bonded (`t + i`) and the fee payouts never
/// exceed the request fee `f`. Floor division leaves the dust with the
/// protocol, never a deficit.
pub proof fn lemma_fund_conservation(us: Seq<int>, t: int, i: int, f: int)
    requires
        t >= 0,
        i >= 0,
        f >= 0,
        forall|k: int| 0 <= k < us.len() ==> us[k] >= 0,
        sum_stakes(us) <= t,
    ensures
        sum_stake_payouts(us, t, i) <= t + i,
        sum_fee_payouts(us, t, f) <= f,
    decreases us.len(),
{
    if t == 0 {
        // an empty correct pool pays every claimant exactly its (zero) stake
        if us.len() > 0 {
            lemma_sum_stakes_nonneg(us.drop_first());
            assert(us[0] <= sum_stakes(us));
            lemma_fund_conservation(us.drop_first(), t, i, f);
        }
    } else {
        lemma_payouts_decompose(us, t, i, f);
        lemma_shares_subadd(us, t, i);
        lemma_shares_subadd(us, t, f);
        lemma_sum_stakes_nonneg(us);
        let s = sum_stakes(us);
        lemma_mul_inequality(s, t, i);
        lemma_mul_is_commutative(t, i);
        lemma_div_is_ordered(s * i, t * i, t);
        lemma_div_multiples_vanish(i, t);
        lemma_mul_inequality(s, t, f);
        lemma_mul_is_commutative(t, f);
        lemma_div_is_ordered(s * f, t * f, t);
        lemma_div_multiples_vanish(f, t);
    }
}

/// A run of claims against one finalized request: each step takes one
/// account's claim, transforming the request as the claim operation's
/// contract describes, starting from well-formed books.
pub open spec fn claims_chain(rs: Seq<FinalizedDataRequest>, accounts: Seq<Seq<char>>,
    payouts: Seq<ClaimRes>) -> bool {
    &&& rs.len() == accounts.len() + 1
    &&& payouts.len() == accounts.len()
    &&& (forall|j: int| 0 <= j < rs[0].windows().len() ==> (#[trigger] rs[0].windows()[j]).wf())
    &&& (forall|k: int|
        0 <= k < accounts.len() ==> claim_transition(rs[k], rs[k + 1], #[trigger] accounts[k],
            payouts[k]))
}

/// The correct stakes the chain's claims recover, step by step.
pub open spec fn chain_stakes(rs: Seq<FinalizedDataRequest>, accounts: Seq<Seq<char>>) -> Seq<
    int,
> {
    Seq::new(accounts.len(), |k: int| user_correct(rs[k].windows(),
        rs[0].finalized_outcome@, accounts[k]))
}

/// The stake-token payouts of a run of claims, summed.
pub open spec fn sum_claim_stakes(payouts: Seq<ClaimRes>) -> int
    decreases payouts.len(),
{
    if payouts.len() == 0 {
        0
    } else {
        payouts[0].stake_token_payout + sum_claim_stakes(payouts.drop_first())
    }
}

/// The payment-token payouts of a run of claims, summed.
pub open spec fn sum_claim_fees(payouts: Seq<ClaimRes>) -> int
    decreases payouts.len(),
{
    if payouts.len() == 0 {
        0
    } else {
        payouts[0].payment_token_payout + sum_claim_fees(payouts.drop_first())
    }
}

/// Along a run of claims the pools stay fixed, the recovered stakes draw down
/// the claimable pool, and each payout follows the proportional formula.
proof fn lemma_chain_collect(rs: Seq<FinalizedDataRequest>, accounts: Seq<Seq<char>>,
    payouts: Seq<ClaimRes>)
    requires
        claims_chain(rs, accounts, payouts),
    ensures
        ({
            let fo = rs[0].finalized_outcome@;
            let t = total_correct(rs[0].windows(), fo);
            let i = total_incorrect(rs[0].windows(), fo);
            let us = chain_stakes(rs, accounts);
            &&& (forall|k: int| 0 <= k < us.len() ==> #[trigger] us[k] >= 0)
            &&& sum_stakes(us) <= users_correct_total(rs[0].windows(), fo)
            &&& sum_claim_stakes(payouts) == sum_stake_payouts(us, t, i)
            &&& sum_claim_fees(payouts) == sum_fee_payouts(us, t, rs[0].paid_fee as int)
        }),
    decreases accounts.len(),
{
    let fo = rs[0].finalized_outcome@;
    let t = total_correct(rs[0].windows(), fo);
    let i = total_incorrect(rs[0].windows(), fo);
    let us = chain_stakes(rs, accounts);
    assert forall|k: int| 0 <= k < us.len() implies #[trigger] us[k] >= 0 by {
        lemma_user_correct_nonneg(rs[k].windows(), fo, accounts[k]);
    }
    if accounts.len() == 0 {
        lemma_pool_bounds(rs[0].windows(), fo);
    } else {
        assert(claim_transition(rs[0], rs[1], accounts[0], payouts[0]));
        let u0 = user_correct(rs[0].windows(), fo, accounts[0]);
        lemma_claimed_pool_drop(rs[0].windows(), rs[1].windows(), fo, accounts[0]);
        lemma_claimed_windows_wf(rs[0].windows(), rs[1].windows(), fo, accounts[0]);
        let rs2 = rs.drop_first();
        let accounts2 = accounts.drop_first();
        let payouts2 = payouts.drop_first();
        assert forall|k: int|
            0 <= k < accounts2.len() implies claim_transition(rs2[k], rs2[k + 1],
            #[trigger] accounts2[k], payouts2[k]) by {
            assert(claim_transition(rs[k + 1], rs[k + 2], accounts[k + 1], payouts[k + 1]));
        }
        lemma_chain_collect(rs2, accounts2, payouts2);
        // the pools of the next state are the pools of the first
        let fo2 = rs2[0].finalized_outcome@;
        assert(fo2 == fo);
        assert(total_correct(rs2[0].windows(), fo2) == t);
        assert(total_incorrect(rs2[0].windows(), fo2) == i);
        assert(rs2[0].paid_fee == rs[0].paid_fee);
        let us2 = chain_stakes(rs2, accounts2);
        assert(us2 =~= us.drop_first());
        assert(sum_stakes(us) == u0 + sum_stakes(us2));
        assert(sum_stakes(us2) <= users_correct_total(rs[1].windows(), fo));
        assert(users_correct_total(rs[1].windows(), fo) == users_correct_total(rs[0].windows(),
            fo) - u0);
        assert(payouts[0].stake_token_payout == spec_stake_payout(u0, t, i));
        assert(payouts[0].payment_token_payout == spec_fee_payout(u0, t, rs[0].paid_fee as int));
    }
}

/// Fund conservation. For any run of claims that fully (or partly) drains a
/// finalized request: the stake-token payouts, summed over all claimants,
/// never exceed all stake ever bonded into the request's rounds, and the
/// fee payouts never exceed the request fee. Dust from floor division is the
/// only discrepancy, and it stays with the protocol, never a deficit.
pub proof fn lemma_claims_chain_conservation(rs: Seq<FinalizedDataRequest>,
    accounts: Seq<Seq<char>>, payouts: Seq<ClaimRes>)
    requires
        claims_chain(rs, accounts, payouts),
    ensures
        sum_claim_stakes(payouts) <= total_correct(rs[0].windows(), rs[0].finalized_outcome@)
            + total_incorrect(rs[0].windows(), rs[0].finalized_outcome@),
        sum_claim_fees(payouts) <= rs[0].paid_fee,
{
    let fo = rs[0].finalized_outcome@;
    let t = total_correct(rs[0].windows(), fo);
    let i = total_incorrect(rs[0].windows(), fo);
    let us = chain_stakes(rs, accounts);
    lemma_chain_collect(rs, accounts, payouts);
    lemma_pool_bounds(rs[0].windows(), fo);
    lemma_totals_nonneg(rs[0].windows(), fo);
    lemma_fund_conservation(us, t, i, rs[0].paid_fee as int);
}

/// Claim idempotence. A claim removes the account's correct stake from the
/// books and its contract guarantees the books then show zero; this law says
/// the payout formula applied to such books pays nothing, so the second of
/// two consecutive claims always yields a zero payout.
pub proof fn lemma_claim_idempotent(s: Seq<ResolutionWindow>, fo: OutcomeView, a: Seq<char>,
    f: int)
    requires
        user_correct(s, fo, a) == 0,
    ensures
        spec_stake_payout(user_correct(s, fo, a), total_correct(s, fo), total_incorrect(s, fo))
            == 0,
        spec_fee_payout(user_correct(s, fo, a), total_correct(s, fo), f) == 0,
{
    let t = total_correct(s, fo);
    if t != 0 {
        assert(0int * total_incorrect(s, fo) == 0 && 0int * f == 0) by (nonlinear_arith);
        lemma_div_of0(t);
    }
}

/// Claim idempotence, over two consecutive claims: whatever the first claim
/// by an account paid, the second claim right after it pays nothing.
pub proof fn lemma_second_claim_pays_nothing(r0: FinalizedDataRequest, r1: FinalizedDataRequest,
    r2: FinalizedDataRequest, a: Seq<char>, p1: ClaimRes, p2: ClaimRes)
    requires
        claim_transition(r0, r1, a, p1),
        claim_transition(r1, r2, a, p2),
    ensures
        p2.stake_token_payout == 0,
        p2.payment_token_payout == 0,
{
    let fo = r1.finalized_outcome@;
    assert(user_correct(r1.windows(), fo, a) == 0);
    lemma_claim_idempotent(r1.windows(), fo, a, r1.paid_fee as int);
}

/// Monotonic bond doubling. In a well-formed request, each resolution
/// window's bond target is exactly twice its predecessor's.
pub proof fn lemma_monotonic_bond_doubling(d: ActiveDataRequest, i: int)
    requires
        d.wf(),
        0 <= i < d.num_windows() - 1,
    ensures
        d.windows()[i + 1].bond_size == d.windows()[i].bond_size * 2,
{
}

} // verus!
