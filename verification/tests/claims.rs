//! Claim scenarios: proportional payout, idempotence, fee sharing, the
//! arbitrator paths, and the exact payout arithmetic.

use oracle::data_request::{ClaimRes, DataRequest, NewDataRequestArgs, StakeDataRequestArgs};
use oracle::error::OracleError;
use oracle::math::{calc_product, multiply_stake};
use oracle::oracle_config::{FeeConfig, OracleConfig};
use oracle::types::{AnswerType, DataRequestDataType, Outcome};
use oracle::whitelist::Requester;
use oracle::Contract;

fn alice() -> String {
    "alice.near".to_string()
}

fn bob() -> String {
    "bob.near".to_string()
}

fn carol() -> String {
    "carol.near".to_string()
}

fn dave() -> String {
    "dave.near".to_string()
}

fn token() -> String {
    "token.near".to_string()
}

fn gov() -> String {
    "gov.near".to_string()
}

fn registry_entry(account: String) -> Requester {
    Requester {
        contract_name: account.clone(),
        account_id: account,
        stake_multiplier: None,
        code_base_url: None,
    }
}

fn config() -> OracleConfig {
    OracleConfig {
        gov: gov(),
        final_arbitrator: alice(),
        payment_token: token(),
        stake_token: token(),
        validity_bond: 100,
        max_outcomes: 8,
        default_challenge_window_duration: 1000,
        min_initial_challenge_window_duration: 1000,
        final_arbitrator_invoke_amount: 250,
        fee: FeeConfig {
            flux_market_cap: 50000,
            total_value_staked: 10000,
            resolution_fee_percentage: 10_000,
        },
    }
}

fn new_contract_with(c: OracleConfig) -> Contract {
    Contract::new(Some(vec![registry_entry(bob()), registry_entry(carol())]), c)
}

fn new_contract() -> Contract {
    new_contract_with(config())
}

fn answer(s: &str) -> Outcome {
    Outcome::Answer(AnswerType::StringAnswer(s.to_string()))
}

fn dr_new(contract: &mut Contract) {
    contract
        .dr_new(&token(), &bob(), 100, NewDataRequestArgs {
            sources: Some(Vec::new()),
            outcomes: Some(vec!["a".to_string(), "b".to_string()]),
            challenge_period: 1500,
            description: Some("a".to_string()),
            tags: vec!["1".to_string()],
            data_type: DataRequestDataType::Text,
        })
        .unwrap();
}

fn stake(contract: &mut Contract, sender: String, amount: u128, outcome: Outcome) {
    contract
        .dr_stake(&token(), 0, &sender, amount, StakeDataRequestArgs { id: 0, outcome })
        .unwrap();
}

fn dr_finalize(contract: &mut Contract, outcome: Outcome) {
    stake(contract, alice(), 2000, outcome);
    contract.dr_finalize(1501, 0).unwrap();
}

fn claim(contract: &mut Contract, account: String) -> ClaimRes {
    match &mut contract.data_requests[0] {
        DataRequest::Finalized(d) => d.claim(&account),
        DataRequest::Active(_) => panic!("expected a finalized request"),
    }
}

fn sum_claim_res(claim_res: ClaimRes) -> u128 {
    claim_res.payment_token_payout + claim_res.stake_token_payout
}

#[test]
fn dr_claim_invalid_id() {
    let mut contract = new_contract();
    assert_eq!(contract.dr_claim(&alice(), 0), Err(OracleError::RequestNotFound));
}

#[test]
fn dr_claim_not_finalized() {
    let mut contract = new_contract();
    dr_new(&mut contract);
    assert_eq!(contract.dr_claim(&alice(), 0), Err(OracleError::NotFinalized));
}

#[test]
fn dr_claim_zero() {
    let mut contract = new_contract();
    dr_new(&mut contract);
    dr_finalize(&mut contract, answer("a"));
    assert_eq!(contract.dr_claim(&dave(), 0), Err(OracleError::CannotClaimZero));
}

#[test]
fn dr_claim_success() {
    let mut contract = new_contract();
    dr_new(&mut contract);
    dr_finalize(&mut contract, answer("a"));
    contract.dr_claim(&alice(), 0).unwrap();
}

#[test]
fn d_claim_single() {
    let mut contract = new_contract();
    dr_new(&mut contract);
    dr_finalize(&mut contract, answer("a"));
    assert_eq!(sum_claim_res(claim(&mut contract, alice())), 200);
}

#[test]
fn d_claim_same_twice() {
    let mut contract = new_contract();
    dr_new(&mut contract);
    dr_finalize(&mut contract, answer("a"));
    assert_eq!(sum_claim_res(claim(&mut contract, alice())), 200);
    assert_eq!(sum_claim_res(claim(&mut contract, alice())), 0);
}

#[test]
fn d_validity_bond() {
    let mut c = config();
    c.validity_bond = 2;
    let mut contract = new_contract_with(c);
    dr_new(&mut contract);
    dr_finalize(&mut contract, answer("a"));
    assert_eq!(sum_claim_res(claim(&mut contract, alice())), 294);
}

#[test]
fn d_claim_double() {
    let mut contract = new_contract();
    dr_new(&mut contract);
    stake(&mut contract, bob(), 100, answer("a"));
    dr_finalize(&mut contract, answer("a"));
    assert_eq!(sum_claim_res(claim(&mut contract, alice())), 100);
    assert_eq!(sum_claim_res(claim(&mut contract, bob())), 100);
}

#[test]
fn d_claim_2rounds_single() {
    let mut c = config();
    c.final_arbitrator_invoke_amount = 1000;
    let mut contract = new_contract_with(c);
    dr_new(&mut contract);
    stake(&mut contract, bob(), 200, answer("a"));
    dr_finalize(&mut contract, answer("b"));
    assert_eq!(sum_claim_res(claim(&mut contract, alice())), 600);
    assert_eq!(sum_claim_res(claim(&mut contract, bob())), 0);
}

#[test]
fn d_claim_2rounds_double() {
    let mut c = config();
    c.final_arbitrator_invoke_amount = 1000;
    let mut contract = new_contract_with(c);
    dr_new(&mut contract);
    stake(&mut contract, bob(), 200, answer("a"));
    stake(&mut contract, carol(), 100, answer("b"));
    dr_finalize(&mut contract, answer("b"));
    assert_eq!(sum_claim_res(claim(&mut contract, alice())), 450);
    assert_eq!(sum_claim_res(claim(&mut contract, bob())), 0);
    assert_eq!(sum_claim_res(claim(&mut contract, carol())), 150);
}

#[test]
fn d_claim_3rounds_single() {
    let mut c = config();
    c.final_arbitrator_invoke_amount = 1000;
    let mut contract = new_contract_with(c);
    dr_new(&mut contract);
    stake(&mut contract, bob(), 200, answer("a"));
    stake(&mut contract, carol(), 400, answer("b"));
    dr_finalize(&mut contract, answer("a"));
    assert_eq!(sum_claim_res(claim(&mut contract, alice())), 1120);
    assert_eq!(sum_claim_res(claim(&mut contract, bob())), 280);
    assert_eq!(sum_claim_res(claim(&mut contract, carol())), 0);
}

#[test]
fn d_claim_3rounds_double_round0() {
    let mut c = config();
    c.final_arbitrator_invoke_amount = 1000;
    let mut contract = new_contract_with(c);
    dr_new(&mut contract);
    stake(&mut contract, bob(), 100, answer("a"));
    stake(&mut contract, dave(), 100, answer("a"));
    stake(&mut contract, carol(), 400, answer("b"));
    dr_finalize(&mut contract, answer("a"));
    assert_eq!(sum_claim_res(claim(&mut contract, alice())), 1120);
    assert_eq!(sum_claim_res(claim(&mut contract, bob())), 140);
    assert_eq!(sum_claim_res(claim(&mut contract, carol())), 0);
    assert_eq!(sum_claim_res(claim(&mut contract, dave())), 140);
}

#[test]
fn d_claim_3rounds_double_round2() {
    let mut c = config();
    c.final_arbitrator_invoke_amount = 1000;
    let mut contract = new_contract_with(c);
    dr_new(&mut contract);
    stake(&mut contract, bob(), 200, answer("a"));
    stake(&mut contract, carol(), 400, answer("b"));
    stake(&mut contract, dave(), 300, answer("a"));
    dr_finalize(&mut contract, answer("a"));
    assert_eq!(sum_claim_res(claim(&mut contract, alice())), 700);
    assert_eq!(sum_claim_res(claim(&mut contract, bob())), 280);
    assert_eq!(sum_claim_res(claim(&mut contract, carol())), 0);
    assert_eq!(sum_claim_res(claim(&mut contract, dave())), 420);
}

#[test]
fn d_claim_final_arb() {
    let mut contract = new_contract();
    dr_new(&mut contract);
    stake(&mut contract, alice(), 200, answer("a"));
    stake(&mut contract, bob(), 400, answer("b"));
    contract.dr_final_arbitrator_finalize(&alice(), 0, answer("a")).unwrap();
    assert_eq!(sum_claim_res(claim(&mut contract, alice())), 600);
    assert_eq!(sum_claim_res(claim(&mut contract, bob())), 0);
}

#[test]
fn d_claim_final_arb_extra_round() {
    let mut c = config();
    c.final_arbitrator_invoke_amount = 600;
    let mut contract = new_contract_with(c);
    dr_new(&mut contract);
    stake(&mut contract, alice(), 200, answer("a"));
    stake(&mut contract, bob(), 400, answer("b"));
    stake(&mut contract, carol(), 800, answer("a"));
    contract.dr_final_arbitrator_finalize(&alice(), 0, answer("a")).unwrap();
    assert_eq!(sum_claim_res(claim(&mut contract, alice())), 280);
    assert_eq!(sum_claim_res(claim(&mut contract, bob())), 0);
    assert_eq!(sum_claim_res(claim(&mut contract, carol())), 1120);
}

#[test]
fn d_claim_final_arb_extra_round2() {
    let mut c = config();
    c.final_arbitrator_invoke_amount = 600;
    let mut contract = new_contract_with(c);
    dr_new(&mut contract);
    stake(&mut contract, alice(), 200, answer("a"));
    stake(&mut contract, bob(), 400, answer("b"));
    stake(&mut contract, carol(), 800, answer("a"));
    contract.dr_final_arbitrator_finalize(&alice(), 0, answer("b")).unwrap();
    assert_eq!(sum_claim_res(claim(&mut contract, alice())), 0);
    assert_eq!(sum_claim_res(claim(&mut contract, bob())), 1400);
    assert_eq!(sum_claim_res(claim(&mut contract, carol())), 0);
}

#[test]
fn dr_fixed_fee() {
    let fixed_fee = 20;
    let validity_bond = 2;
    let mut c = config();
    c.validity_bond = validity_bond;
    let mut contract = new_contract_with(c);
    contract
        .dr_new(&token(), &bob(), fixed_fee + validity_bond, NewDataRequestArgs {
            sources: Some(Vec::new()),
            outcomes: Some(vec!["a".to_string(), "b".to_string()]),
            challenge_period: 1500,
            description: Some("a".to_string()),
            tags: vec!["1".to_string()],
            data_type: DataRequestDataType::Text,
        })
        .unwrap();
    dr_finalize(&mut contract, answer("a"));
    assert_eq!(sum_claim_res(claim(&mut contract, alice())), 60);
}

#[test]
fn claim_splits_both_pools_proportionally() {
    // two winners with unequal stakes split the losing pool by contribution
    let mut c = config();
    c.final_arbitrator_invoke_amount = 1000;
    let mut contract = new_contract_with(c);
    dr_new(&mut contract);
    stake(&mut contract, bob(), 150, answer("a"));
    stake(&mut contract, dave(), 50, answer("a"));
    stake(&mut contract, carol(), 400, answer("b"));
    dr_finalize(&mut contract, answer("a"));
    // correct pool 1000: round zero (200) and round two (800); incorrect 400
    let bob_res = claim(&mut contract, bob());
    assert_eq!(bob_res.stake_token_payout, 150 + 150 * 400 / 1000);
    let dave_res = claim(&mut contract, dave());
    assert_eq!(dave_res.stake_token_payout, 50 + 50 * 400 / 1000);
}

#[test]
fn claims_never_exceed_bonded_stake() {
    // odd stakes make the floor division leave dust: payouts fall short of
    // the pools, never over them
    let mut c = config();
    c.final_arbitrator_invoke_amount = 1000;
    let mut contract = new_contract_with(c);
    dr_new(&mut contract);
    stake(&mut contract, bob(), 151, answer("a"));
    stake(&mut contract, dave(), 49, answer("a"));
    stake(&mut contract, carol(), 400, answer("b"));
    dr_finalize(&mut contract, answer("a"));
    let total_bonded: u128 = 200 + 400 + 800;
    let paid_fee: u128 = 0;
    let mut paid: u128 = 0;
    for account in [alice(), bob(), carol(), dave()] {
        paid += sum_claim_res(claim(&mut contract, account));
    }
    assert!(paid <= total_bonded + paid_fee);
    assert_eq!(paid, 1399);
}

#[test]
fn calc_product_exact_values() {
    assert_eq!(calc_product(3, 7, 2), 10);
    assert_eq!(calc_product(0, 12345, 7), 0);
    assert_eq!(calc_product(u128::MAX, u128::MAX, u128::MAX), u128::MAX);
    let large = 1_000_000_000_000_000_000_000_000_000_000u128;
    assert_eq!(calc_product(large, 3 * large, 2 * large), large + large / 2);
    assert_eq!(calc_product(1, u128::MAX, u128::MAX), 1);
}

#[test]
fn multiply_stake_exact_values() {
    assert_eq!(multiply_stake(100, None), Ok(100));
    assert_eq!(multiply_stake(100, Some(20_000)), Ok(200));
    assert_eq!(multiply_stake(100, Some(10_000)), Ok(100));
    assert_eq!(multiply_stake(100, Some(15_000)), Ok(150));
    assert_eq!(multiply_stake(1000, Some(1)), Ok(0));
    assert_eq!(multiply_stake(u128::MAX, Some(20_001)), Err(OracleError::Overflow));
}
