//! The data-request lifecycle: creation, staking, escalation, finalization
//! and unstaking, with every gate's error.

use oracle::data_request::{DataRequest, NewDataRequestArgs, StakeDataRequestArgs};
use oracle::error::OracleError;
use oracle::oracle_config::{FeeConfig, OracleConfig};
use oracle::types::{AnswerNumber, AnswerType, DataRequestDataType, Outcome};
use oracle::whitelist::Requester;
use oracle::Contract;

fn alice() -> String {
    "alice.near".to_string()
}

fn bob() -> String {
    "bob.near".to_string()
}

fn carol() -> String {
    "carol.near".to_string()
}

fn token() -> String {
    "token.near".to_string()
}

fn gov() -> String {
    "gov.near".to_string()
}

fn registry_entry(account: String) -> Requester {
    Requester {
        contract_name: account.clone(),
        account_id: account,
        stake_multiplier: None,
        code_base_url: None,
    }
}

fn config() -> OracleConfig {
    OracleConfig {
        gov: gov(),
        final_arbitrator: alice(),
        payment_token: token(),
        stake_token: token(),
        validity_bond: 100,
        max_outcomes: 8,
        default_challenge_window_duration: 1000,
        min_initial_challenge_window_duration: 1000,
        final_arbitrator_invoke_amount: 250,
        fee: FeeConfig {
            flux_market_cap: 50000,
            total_value_staked: 10000,
            resolution_fee_percentage: 10_000,
        },
    }
}

fn new_contract() -> Contract {
    Contract::new(Some(vec![registry_entry(bob()), registry_entry(carol())]), config())
}

fn new_contract_with(c: OracleConfig) -> Contract {
    Contract::new(Some(vec![registry_entry(bob()), registry_entry(carol())]), c)
}

fn answer(s: &str) -> Outcome {
    Outcome::Answer(AnswerType::StringAnswer(s.to_string()))
}

fn payload() -> NewDataRequestArgs {
    NewDataRequestArgs {
        sources: Some(Vec::new()),
        outcomes: Some(vec!["a".to_string(), "b".to_string()]),
        challenge_period: 1500,
        description: Some("a".to_string()),
        tags: vec!["1".to_string()],
        data_type: DataRequestDataType::Text,
    }
}

fn dr_new(contract: &mut Contract) {
    contract.dr_new(&token(), &bob(), 100, payload()).unwrap();
}

fn stake(contract: &mut Contract, now: u64, sender: String, amount: u128, outcome: Outcome) -> u128 {
    contract
        .dr_stake(&token(), now, &sender, amount, StakeDataRequestArgs { id: 0, outcome })
        .unwrap()
}

fn active(contract: &Contract, id: usize) -> &oracle::data_request::ActiveDataRequest {
    match &contract.data_requests[id] {
        DataRequest::Active(d) => d,
        DataRequest::Finalized(_) => panic!("expected an active request"),
    }
}

#[test]
fn dr_new_success() {
    let mut contract = new_contract();
    let amount = contract
        .dr_new(&token(), &bob(), 100, NewDataRequestArgs {
            sources: Some(Vec::new()),
            outcomes: None,
            challenge_period: 1500,
            description: Some("a".to_string()),
            tags: vec!["1".to_string()],
            data_type: DataRequestDataType::Text,
        })
        .unwrap();
    assert_eq!(amount, 0);
}

#[test]
fn dr_new_single_outcome() {
    let mut contract = new_contract();
    let mut p = payload();
    p.outcomes = Some(vec!["a".to_string()]);
    assert_eq!(
        contract.dr_new(&token(), &bob(), 100, p),
        Err(OracleError::InvalidOutcomeList)
    );
}

#[test]
fn dr_new_non_whitelisted() {
    let mut contract = new_contract();
    assert_eq!(
        contract.dr_new(&token(), &alice(), 100, payload()),
        Err(OracleError::NotWhitelisted)
    );
}

#[test]
fn dr_new_non_payment_token() {
    let mut contract = new_contract();
    assert_eq!(
        contract.dr_new(&alice(), &bob(), 100, payload()),
        Err(OracleError::WrongSender)
    );
}

#[test]
fn dr_new_arg_source_exceed() {
    let mut contract = new_contract();
    let mut sources = Vec::new();
    for i in 0..9 {
        sources.push(oracle::types::Source {
            end_point: format!("{}", i),
            source_path: format!("{}", i),
        });
    }
    let mut p = payload();
    p.sources = Some(sources);
    p.outcomes = None;
    p.challenge_period = 1000;
    p.description = None;
    assert_eq!(
        contract.dr_new(&token(), &bob(), 100, p),
        Err(OracleError::TooManySources)
    );
}

#[test]
fn dr_new_arg_outcome_exceed() {
    let mut contract = new_contract();
    let mut outcomes = Vec::new();
    for i in 0..9 {
        outcomes.push(format!("{}", i));
    }
    let mut p = payload();
    p.outcomes = Some(outcomes);
    p.challenge_period = 1000;
    assert_eq!(
        contract.dr_new(&token(), &bob(), 100, p),
        Err(OracleError::InvalidOutcomeList)
    );
}

#[test]
fn dr_description_required_no_sources() {
    let mut contract = new_contract();
    let mut p = payload();
    p.outcomes = None;
    p.challenge_period = 1000;
    p.description = None;
    assert_eq!(
        contract.dr_new(&token(), &bob(), 100, p),
        Err(OracleError::DescriptionRequired)
    );
}

#[test]
fn dr_new_arg_challenge_period_below_min() {
    let mut contract = new_contract();
    let mut p = payload();
    p.outcomes = None;
    p.challenge_period = 999;
    assert_eq!(
        contract.dr_new(&token(), &bob(), 100, p),
        Err(OracleError::ChallengePeriodTooShort)
    );
}

#[test]
fn dr_new_arg_challenge_period_exceed() {
    let mut contract = new_contract();
    let mut p = payload();
    p.outcomes = None;
    p.challenge_period = 3001;
    assert_eq!(
        contract.dr_new(&token(), &bob(), 100, p),
        Err(OracleError::ChallengePeriodTooLong)
    );
}

#[test]
fn dr_new_too_many_tags() {
    let mut contract = new_contract();
    let mut tags = Vec::new();
    for i in 0..9 {
        tags.push(format!("{}", i));
    }
    let mut p = payload();
    p.tags = tags;
    assert_eq!(
        contract.dr_new(&token(), &bob(), 100, p),
        Err(OracleError::TooManyTags)
    );
}

#[test]
fn dr_new_not_enough_amount() {
    let mut contract = new_contract();
    assert_eq!(
        contract.dr_new(&token(), &bob(), 90, payload()),
        Err(OracleError::NotEnoughDeposit)
    );
}

#[test]
fn dr_new_when_paused() {
    let mut contract = new_contract();
    contract.toggle_pause(&gov()).unwrap();
    assert_eq!(
        contract.dr_new(&token(), &bob(), 100, payload()),
        Err(OracleError::Paused)
    );
}

#[test]
fn dr_stake_non_stake_token() {
    let mut contract = new_contract();
    dr_new(&mut contract);
    assert_eq!(
        contract.dr_stake(&alice(), 0, &alice(), 100, StakeDataRequestArgs {
            id: 0,
            outcome: answer("42"),
        }),
        Err(OracleError::WrongSender)
    );
}

#[test]
fn dr_stake_not_existing() {
    let mut contract = new_contract();
    assert_eq!(
        contract.dr_stake(&token(), 0, &alice(), 100, StakeDataRequestArgs {
            id: 0,
            outcome: answer("42"),
        }),
        Err(OracleError::RequestNotFound)
    );
}

#[test]
fn dr_stake_incompatible_answer() {
    let mut contract = new_contract();
    dr_new(&mut contract);
    assert_eq!(
        contract.dr_stake(&token(), 0, &alice(), 100, StakeDataRequestArgs {
            id: 0,
            outcome: answer("42"),
        }),
        Err(OracleError::OutcomeNotInList)
    );
}

#[test]
fn dr_stake_numeric_against_list() {
    let mut contract = new_contract();
    dr_new(&mut contract);
    let numeric = Outcome::Answer(AnswerType::NumericAnswer(AnswerNumber {
        value: 1,
        multiplier: 1,
        negative: false,
    }));
    assert_eq!(
        contract.dr_stake(&token(), 0, &alice(), 100, StakeDataRequestArgs {
            id: 0,
            outcome: numeric,
        }),
        Err(OracleError::OutcomeNotString)
    );
}

#[test]
fn dr_stake_wrong_outcome_type() {
    let mut contract = new_contract();
    let mut p = payload();
    p.outcomes = None;
    contract.dr_new(&token(), &bob(), 100, p).unwrap();
    let numeric = Outcome::Answer(AnswerType::NumericAnswer(AnswerNumber {
        value: 1,
        multiplier: 1,
        negative: false,
    }));
    assert_eq!(
        contract.dr_stake(&token(), 0, &alice(), 100, StakeDataRequestArgs {
            id: 0,
            outcome: numeric,
        }),
        Err(OracleError::WrongOutcomeType)
    );
}

#[test]
fn dr_stake_wrong_multiplier() {
    let mut contract = new_contract();
    let mut p = payload();
    p.outcomes = None;
    p.data_type = DataRequestDataType::Number(100);
    contract.dr_new(&token(), &bob(), 100, p).unwrap();
    let numeric = Outcome::Answer(AnswerType::NumericAnswer(AnswerNumber {
        value: 1,
        multiplier: 10,
        negative: false,
    }));
    assert_eq!(
        contract.dr_stake(&token(), 0, &alice(), 100, StakeDataRequestArgs {
            id: 0,
            outcome: numeric,
        }),
        Err(OracleError::WrongMultiplier)
    );
}

#[test]
fn dr_stake_finalized_market() {
    let mut contract = new_contract();
    dr_new(&mut contract);
    stake(&mut contract, 0, alice(), 200, answer("a"));
    contract.dr_finalize(1501, 0).unwrap();
    assert_eq!(
        contract.dr_stake(&token(), 1501, &alice(), 200, StakeDataRequestArgs {
            id: 0,
            outcome: answer("b"),
        }),
        Err(OracleError::AlreadyFinalized)
    );
}

#[test]
fn dr_stake_success_partial() {
    let mut contract = new_contract();
    dr_new(&mut contract);
    let b = stake(&mut contract, 0, alice(), 5, answer("a"));
    assert_eq!(b, 0);

    let request = active(&contract, 0);
    assert_eq!(request.resolution_windows.len(), 1);

    let round0 = &request.resolution_windows[0];
    assert_eq!(round0.round, 0);
    assert_eq!(round0.end_time, 1500);
    assert_eq!(round0.bond_size, 200);
}

#[test]
fn dr_stake_success_full_at_t0() {
    let mut contract = new_contract();
    dr_new(&mut contract);
    let b = stake(&mut contract, 0, alice(), 200, answer("a"));
    assert_eq!(b, 0);

    let request = active(&contract, 0);
    assert_eq!(request.resolution_windows.len(), 2);

    let round0 = &request.resolution_windows[0];
    assert_eq!(round0.round, 0);
    assert_eq!(round0.end_time, 1500);
    assert_eq!(round0.bond_size, 200);

    let round1 = &request.resolution_windows[1];
    assert_eq!(round1.round, 1);
    assert_eq!(round1.end_time, 1000);
    assert_eq!(round1.bond_size, 400);
}

#[test]
fn dr_stake_success_overstake_at_t600() {
    let mut contract = new_contract();
    dr_new(&mut contract);
    let b = stake(&mut contract, 600, alice(), 300, answer("a"));
    assert_eq!(b, 100);

    let request = active(&contract, 0);
    assert_eq!(request.resolution_windows.len(), 2);

    let round0 = &request.resolution_windows[0];
    assert_eq!(round0.round, 0);
    assert_eq!(round0.end_time, 2100);
    assert_eq!(round0.bond_size, 200);

    let round1 = &request.resolution_windows[1];
    assert_eq!(round1.round, 1);
    assert_eq!(round1.end_time, 1600);
    assert_eq!(round1.bond_size, 400);
}

#[test]
fn dr_stake_same_outcome() {
    let mut contract = new_contract();
    dr_new(&mut contract);
    stake(&mut contract, 0, alice(), 300, answer("a"));
    assert_eq!(
        contract.dr_stake(&token(), 0, &alice(), 500, StakeDataRequestArgs {
            id: 0,
            outcome: answer("a"),
        }),
        Err(OracleError::IncompatibleOutcome)
    );
}

#[test]
fn dr_stake_overflow_bond() {
    let mut c = config();
    c.validity_bond = u128::MAX / 2 + 1;
    let mut contract = new_contract_with(c);
    let mut p = payload();
    p.outcomes = None;
    contract.dr_new(&token(), &bob(), u128::MAX / 2 + 1, p).unwrap();
    assert_eq!(
        contract.dr_stake(&token(), 0, &alice(), 1, StakeDataRequestArgs {
            id: 0,
            outcome: answer("a"),
        }),
        Err(OracleError::Overflow)
    );
}

#[test]
fn dr_finalize_final_arb() {
    let mut c = config();
    c.final_arbitrator_invoke_amount = 150;
    let mut contract = new_contract_with(c);
    dr_new(&mut contract);
    stake(&mut contract, 0, alice(), 200, answer("a"));
    assert_eq!(contract.dr_finalize(0, 0), Err(OracleError::FinalArbitratorInvoked));
}

#[test]
fn dr_finalize_no_resolutions() {
    let mut contract = new_contract();
    dr_new(&mut contract);
    assert_eq!(contract.dr_finalize(0, 0), Err(OracleError::NoBondedOutcome));
}

#[test]
fn dr_finalize_active_challenge() {
    let mut contract = new_contract();
    dr_new(&mut contract);
    stake(&mut contract, 0, alice(), 200, answer("a"));
    assert_eq!(contract.dr_finalize(0, 0), Err(OracleError::NotTimedOut));
}

#[test]
fn dr_finalize_success() {
    let mut contract = new_contract();
    dr_new(&mut contract);
    stake(&mut contract, 0, alice(), 200, answer("a"));
    let outcome = contract.dr_finalize(1501, 0).unwrap();
    assert_eq!(outcome, answer("a"));
    match &contract.data_requests[0] {
        DataRequest::Finalized(d) => {
            assert_eq!(d.resolution_windows.len(), 2);
            assert_eq!(d.finalized_outcome, answer("a"));
        },
        DataRequest::Active(_) => panic!("expected a finalized request"),
    }
}

#[test]
fn dr_two_round_escalation_finalizes_last_bonded() {
    // fills round zero with "a", round one with "b": the window before the
    // trailing open one decides, so "b" wins
    let mut c = config();
    c.final_arbitrator_invoke_amount = 1_000_000;
    let mut contract = new_contract_with(c);
    dr_new(&mut contract);
    stake(&mut contract, 0, alice(), 200, answer("a"));
    stake(&mut contract, 0, bob(), 400, answer("b"));
    let request = active(&contract, 0);
    assert_eq!(request.resolution_windows.len(), 3);
    assert_eq!(request.resolution_windows[1].bond_size, 400);
    assert_eq!(request.resolution_windows[2].bond_size, 800);
    assert_eq!(request.resolution_windows[2].end_time, 1000);
    let outcome = contract.dr_finalize(1501, 0).unwrap();
    assert_eq!(outcome, answer("b"));
}

#[test]
fn dr_unstake_invalid_id() {
    let mut contract = new_contract();
    assert_eq!(
        contract.dr_unstake(&token(), 0, 0, &answer("a"), 0),
        Err(OracleError::RequestNotFound)
    );
}

#[test]
fn dr_unstake_bonded_outcome() {
    let mut contract = new_contract();
    dr_new(&mut contract);
    stake(&mut contract, 0, alice(), 2000, answer("a"));
    contract.dr_finalize(1501, 0).unwrap();
    assert_eq!(
        contract.dr_unstake(&token(), 0, 0, &answer("a"), 0),
        Err(OracleError::CannotWithdrawBondedOutcome)
    );
}

#[test]
fn dr_unstake_bonded_outcome_c() {
    let mut contract = new_contract();
    dr_new(&mut contract);
    stake(&mut contract, 0, alice(), 2000, answer("a"));
    contract.dr_finalize(1501, 0).unwrap();
    assert_eq!(
        contract.dr_unstake(&token(), 0, 0, &answer("c"), 1),
        Err(OracleError::InsufficientStake)
    );
}

#[test]
fn dr_unstake_too_much() {
    let mut contract = new_contract();
    dr_new(&mut contract);
    stake(&mut contract, 0, alice(), 10, answer("b"));
    assert_eq!(
        contract.dr_unstake(&alice(), 0, 0, &answer("b"), 11),
        Err(OracleError::InsufficientStake)
    );
}

#[test]
fn dr_unstake_no_window() {
    let mut contract = new_contract();
    dr_new(&mut contract);
    stake(&mut contract, 0, alice(), 10, answer("b"));
    assert_eq!(
        contract.dr_unstake(&alice(), 0, 5, &answer("b"), 1),
        Err(OracleError::NoResolutionWindow)
    );
}

#[test]
fn dr_unstake_success() {
    let mut contract = new_contract();
    dr_new(&mut contract);
    let outcome = answer("b");
    stake(&mut contract, 0, alice(), 10, answer("b"));

    {
        let request = active(&contract, 0);
        let round0 = &request.resolution_windows[0];
        assert_eq!(round0.user_to_outcome_to_stake.get(&alice(), &outcome), 10);
        assert_eq!(round0.outcome_to_stake.get(&outcome), 10);
    }

    let refunded = contract.dr_unstake(&alice(), 0, 0, &outcome, 1).unwrap();
    assert_eq!(refunded, 1);

    let request = active(&contract, 0);
    let round0 = &request.resolution_windows[0];
    assert_eq!(round0.user_to_outcome_to_stake.get(&alice(), &outcome), 9);
    assert_eq!(round0.outcome_to_stake.get(&outcome), 9);
}

#[test]
fn dr_final_arb_invoked() {
    let mut contract = new_contract();
    dr_new(&mut contract);
    stake(&mut contract, 0, alice(), 200, answer("a"));
    stake(&mut contract, 0, bob(), 400, answer("b"));
    assert_eq!(
        contract.dr_stake(&token(), 0, &carol(), 400, StakeDataRequestArgs {
            id: 0,
            outcome: answer("a"),
        }),
        Err(OracleError::FinalArbitratorInvoked)
    );
}

#[test]
fn dr_final_arb_invalid_outcome() {
    let mut contract = new_contract();
    dr_new(&mut contract);
    stake(&mut contract, 0, alice(), 200, answer("a"));
    assert_eq!(
        contract.dr_final_arbitrator_finalize(&alice(), 0, answer("c")),
        Err(OracleError::OutcomeNotInList)
    );
}

#[test]
fn dr_final_arb_non_arb() {
    let mut contract = new_contract();
    dr_new(&mut contract);
    stake(&mut contract, 0, alice(), 200, answer("a"));
    assert_eq!(
        contract.dr_final_arbitrator_finalize(&bob(), 0, answer("b")),
        Err(OracleError::NotFinalArbitrator)
    );
}

#[test]
fn dr_final_arb_not_invoked() {
    let mut contract = new_contract();
    dr_new(&mut contract);
    stake(&mut contract, 0, alice(), 100, answer("a"));
    assert_eq!(
        contract.dr_final_arbitrator_finalize(&alice(), 0, answer("b")),
        Err(OracleError::FinalArbitratorNotInvoked)
    );
}

#[test]
fn dr_final_arb_twice() {
    let mut contract = new_contract();
    dr_new(&mut contract);
    stake(&mut contract, 0, alice(), 200, answer("a"));
    stake(&mut contract, 0, bob(), 400, answer("b"));
    contract.dr_final_arbitrator_finalize(&alice(), 0, answer("b")).unwrap();
    assert_eq!(
        contract.dr_final_arbitrator_finalize(&alice(), 0, answer("a")),
        Err(OracleError::AlreadyFinalized)
    );
}

#[test]
fn dr_final_arb_execute() {
    let mut contract = new_contract();
    dr_new(&mut contract);
    stake(&mut contract, 0, alice(), 200, answer("a"));
    stake(&mut contract, 0, bob(), 400, answer("b"));
    contract.dr_final_arbitrator_finalize(&alice(), 0, answer("b")).unwrap();
    match &contract.data_requests[0] {
        DataRequest::Finalized(d) => {
            assert_eq!(d.resolution_windows.len(), 2);
            assert_eq!(d.finalized_outcome, answer("b"));
        },
        DataRequest::Active(_) => panic!("expected a finalized request"),
    }
}

#[test]
fn dr_tvl_increases() {
    let mut contract = new_contract();
    dr_new(&mut contract);
    stake(&mut contract, 0, alice(), 10, answer("b"));
}
