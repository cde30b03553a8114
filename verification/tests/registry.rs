//! Registry-level behavior: config management, the whitelist, the storage
//! ledger, the read-only views and the fee snapshot.

use oracle::data_request::{DataRequestSummary, NewDataRequestArgs};
use oracle::error::OracleError;
use oracle::fee_status::FeeStatus;
use oracle::oracle_config::{FeeConfig, OracleConfig};
use oracle::types::DataRequestDataType;
use oracle::whitelist::Requester;
use oracle::Contract;

fn alice() -> String {
    "alice.near".to_string()
}

fn bob() -> String {
    "bob.near".to_string()
}

fn carol() -> String {
    "carol.near".to_string()
}

fn token() -> String {
    "token.near".to_string()
}

fn gov() -> String {
    "gov.near".to_string()
}

fn registry_entry(account: String) -> Requester {
    Requester {
        contract_name: account.clone(),
        account_id: account,
        stake_multiplier: None,
        code_base_url: None,
    }
}

fn config_for(gov_account: String) -> OracleConfig {
    OracleConfig {
        gov: gov_account,
        final_arbitrator: alice(),
        payment_token: token(),
        stake_token: token(),
        validity_bond: 100,
        max_outcomes: 8,
        default_challenge_window_duration: 1000,
        min_initial_challenge_window_duration: 1000,
        final_arbitrator_invoke_amount: 250,
        fee: FeeConfig {
            flux_market_cap: 50000,
            total_value_staked: 10000,
            resolution_fee_percentage: 10_000,
        },
    }
}

fn config() -> OracleConfig {
    config_for(gov())
}

fn new_contract() -> Contract {
    Contract::new(Some(vec![registry_entry(bob()), registry_entry(carol())]), config())
}

fn dr_new(contract: &mut Contract) {
    contract
        .dr_new(&token(), &bob(), 100, NewDataRequestArgs {
            sources: Some(Vec::new()),
            outcomes: Some(vec!["a".to_string(), "b".to_string()]),
            challenge_period: 1500,
            description: Some("a".to_string()),
            tags: vec!["1".to_string()],
            data_type: DataRequestDataType::Text,
        })
        .unwrap();
}

#[test]
fn set_config_from_gov() {
    let mut contract = Contract::new(None, config());
    contract.set_config(&gov(), config_for(alice())).unwrap();
    assert_eq!(contract.get_config().gov, alice());
}

#[test]
fn fail_set_config_from_user() {
    let mut contract = Contract::new(None, config());
    assert_eq!(
        contract.set_config(&alice(), config_for(alice())),
        Err(OracleError::GovOnly)
    );
}

#[test]
fn set_config_zero_validity_bond() {
    let mut contract = Contract::new(None, config());
    let mut c = config();
    c.validity_bond = 0;
    assert_eq!(contract.set_config(&gov(), c), Err(OracleError::InvalidConfig));
}

#[test]
fn toggle_pause_gov_only() {
    let mut contract = Contract::new(None, config());
    assert_eq!(contract.toggle_pause(&alice()), Err(OracleError::GovOnly));
    contract.toggle_pause(&gov()).unwrap();
    assert!(contract.paused);
    contract.toggle_pause(&gov()).unwrap();
    assert!(!contract.paused);
}

#[test]
fn setting_initial_whitelist() {
    let contract = new_contract();
    let alice_is_whitelisted = contract.whitelist_contains(&alice());
    let bob_is_whitelisted = contract.whitelist_contains(&bob());
    let carol_is_whitelisted = contract.whitelist_contains(&carol());
    assert!(!alice_is_whitelisted);
    assert!(bob_is_whitelisted);
    assert!(carol_is_whitelisted);
}

#[test]
fn whitelist_add_remove() {
    let mut contract = new_contract();
    assert!(!contract.whitelist_contains(&alice()));
    contract.add_to_whitelist(&gov(), registry_entry(alice())).unwrap();
    assert!(contract.whitelist_contains(&alice()));
    contract.remove_from_whitelist(&gov(), &registry_entry(alice())).unwrap();
    assert!(!contract.whitelist_contains(&alice()));
}

#[test]
fn whitelist_assert_passes_when_empty() {
    let contract = Contract::new(None, config());
    contract.assert_whitelisted(&alice()).unwrap();
}

#[test]
fn only_gov_can_add() {
    let mut contract = new_contract();
    assert_eq!(
        contract.add_to_whitelist(&alice(), registry_entry(alice())),
        Err(OracleError::GovOnly)
    );
}

#[test]
fn only_gov_can_remove() {
    let mut contract = new_contract();
    assert_eq!(
        contract.remove_from_whitelist(&alice(), &registry_entry(alice())),
        Err(OracleError::GovOnly)
    );
}

#[test]
fn whitelist_zero_multiplier_rejected() {
    let mut contract = new_contract();
    let mut entry = registry_entry(alice());
    entry.stake_multiplier = Some(0);
    assert_eq!(
        contract.add_to_whitelist(&gov(), entry),
        Err(OracleError::InvalidStakeMultiplier)
    );
}

#[test]
fn storage_manager_deposit() {
    let mut contract = new_contract();

    let account = contract.get_storage_account(&alice());
    assert_eq!(account.available, 0);

    let amount = 10u128.pow(24);

    contract.storage_deposit(&alice(), amount, Some(alice())).unwrap();
    let account = contract.get_storage_account(&alice());
    assert_eq!(account.available, amount);

    contract.storage_deposit(&alice(), amount, Some(alice())).unwrap();
    let account = contract.get_storage_account(&alice());
    assert_eq!(account.available, amount * 2);
}

#[test]
fn storage_manager_withdraw() {
    let mut contract = new_contract();

    let account = contract.get_storage_account(&alice());
    assert_eq!(account.available, 0);

    let amount = 10u128.pow(24);
    contract.storage_deposit(&alice(), amount, Some(alice())).unwrap();

    contract.storage_withdraw(&alice(), 1, amount / 2).unwrap();
    let account = contract.get_storage_account(&alice());
    assert_eq!(account.available, amount / 2);
}

#[test]
fn storage_manager_withdraw_too_much() {
    let mut contract = new_contract();

    let account = contract.get_storage_account(&alice());
    assert_eq!(account.available, 0);

    let amount = 10u128.pow(24);
    contract.storage_deposit(&alice(), amount, Some(alice())).unwrap();

    assert_eq!(
        contract.storage_withdraw(&alice(), 1, amount * 2),
        Err(OracleError::InsufficientStorageBalance)
    );
}

#[test]
fn storage_manager_withdraw_needs_deposit() {
    let mut contract = new_contract();
    let amount = 10u128.pow(24);
    contract.storage_deposit(&alice(), amount, None).unwrap();
    assert_eq!(
        contract.storage_withdraw(&alice(), 0, 1),
        Err(OracleError::OneYoctoRequired)
    );
}

#[test]
fn storage_balance_views() {
    let mut contract = new_contract();
    assert!(contract.storage_balance_of(&alice()).is_none());
    contract.storage_deposit(&alice(), 10, None).unwrap();
    let balance = contract.storage_balance_of(&alice()).unwrap();
    assert_eq!(balance.total, 10);
    assert_eq!(balance.available, 10);
    let bounds = contract.storage_balance_bounds();
    assert_eq!(bounds.min, 10_000_000_000_000_000_000_000u128);
    assert!(bounds.max.is_none());
}

#[test]
fn fetch_tvs() {
    let contract = new_contract();
    let tvs = contract.fetch_tvs();
    println!("tvs: {:?}", tvs);
}

#[test]
fn fee_status_new() {
    let status = FeeStatus::new();
    assert_eq!(status.market_cap, 0);
    assert_eq!(status.total_value_secured, 0);
    assert_eq!(status.fee_percentage, 1);
}

#[test]
fn dr_exists_tracks_requests() {
    let mut contract = new_contract();
    assert!(!contract.dr_exists(0));
    dr_new(&mut contract);
    assert!(contract.dr_exists(0));
    assert!(!contract.dr_exists(1));
}

#[test]
fn dr_get_methods() {
    let mut contract = new_contract();
    dr_new(&mut contract);
    dr_new(&mut contract);
    dr_new(&mut contract);

    assert_eq!(contract.get_latest_request().unwrap().id(), 2);
    assert_eq!(contract.get_request_by_id(1).unwrap().id(), 1);

    assert_eq!(contract.get_requests(0, 1)[0].id(), 0);
    assert_eq!(contract.get_requests(1, 1).len(), 1);
    assert_eq!(contract.get_requests(1, 2).len(), 2);
    assert_eq!(contract.get_requests(0, 3).len(), 3);
}

#[test]
fn get_outcome_reports_the_final_answer() {
    let mut contract = new_contract();
    dr_new(&mut contract);
    assert_eq!(contract.get_outcome(0), Err(OracleError::NotFinalized));
    contract
        .dr_stake(
            &token(),
            0,
            &alice(),
            200,
            oracle::data_request::StakeDataRequestArgs {
                id: 0,
                outcome: oracle::types::Outcome::Answer(oracle::types::AnswerType::StringAnswer(
                    "a".to_string(),
                )),
            },
        )
        .unwrap();
    contract.dr_finalize(1501, 0).unwrap();
    let outcome = contract.get_outcome(0).unwrap();
    assert_eq!(
        outcome,
        oracle::types::Outcome::Answer(oracle::types::AnswerType::StringAnswer("a".to_string()))
    );
    match contract.get_request_by_id(0).unwrap() {
        DataRequestSummary::Finalized(f) => {
            assert_eq!(f.resolution_windows.len(), 2);
            assert_eq!(f.paid_fee, 0);
        },
        DataRequestSummary::Active(_) => panic!("expected a finalized summary"),
    }
}
