//! An on-chain oracle settlement engine.
//!
//! A requester posts a question (a "data request"); third parties stake funds
//! on candidate outcomes across successive escalating resolution rounds; the
//! final answer is determined through economic bonding (or by a designated
//! final arbitrator), and staked funds plus fees are paid out proportionally
//! to the stakers that backed the final outcome.
//!
//! The crate is a pure state machine: every host-supplied fact (the caller,
//! the current timestamp, an attached deposit) is an explicit argument, and
//! every outward action (a token transfer, an outcome notification) is an
//! explicit return value, so that the whole settlement logic is verified.

pub mod callback_args;
pub mod data_request;
pub mod error;
pub mod fee_status;
pub mod laws;
pub mod math;
pub mod oracle_config;
pub mod resolution_window;
pub mod stake_maps;
pub mod storage_manager;
pub mod types;
pub mod whitelist;

use vstd::prelude::*;

use crate::data_request::DataRequest;
use crate::error::OracleError;
use crate::oracle_config::OracleConfig;
use crate::storage_manager::StorageAccounts;
use crate::types::AccountId;
use crate::whitelist::{wl_last_entry, Requester, Whitelist};

verus! {

/// The oracle registry: the whitelist, the append-only config log, the
/// append-only list of data requests keyed by sequential id, the per-account
/// storage ledger and the pause flag.
pub struct Contract {
    pub whitelist: Whitelist,
    pub configs: Vec<OracleConfig>,
    pub data_requests: Vec<DataRequest>,
    pub accounts: StorageAccounts,
    pub paused: bool,
}

impl Contract {
    /// There is always a current config; every request is well formed, sits
    /// at the index its id names, and pins an existing config snapshot.
    pub open spec fn wf(self) -> bool {
        &&& self.whitelist.wf()
        &&& self.configs@.len() > 0
        &&& self.accounts.wf()
        &&& forall|i: int|
            0 <= i < self.data_requests@.len() ==> (#[trigger] self.data_requests@[i]).wf()
        &&& forall|i: int|
            0 <= i < self.data_requests@.len() ==> (#[trigger] self.data_requests@[i]).req_id()
                == i
        &&& forall|i: int|
            0 <= i < self.data_requests@.len() ==> (
            #[trigger] self.data_requests@[i]).req_config_id() < self.configs@.len()
    }

    /// The config snapshot new requests pin: the latest one.
    pub open spec fn current_config(self) -> OracleConfig {
        self.configs@.last()
    }

    /// Sets up the oracle with its first config snapshot and, optionally, an
    /// initial requester whitelist.
    pub fn new(initial_whitelist: Option<Vec<Requester>>, config: OracleConfig) -> (r: Self)
        ensures
            r.wf(),
            r.configs@.len() == 1,
            r.configs@[0] == config,
            r.data_requests@.len() == 0,
            !r.paused,
            r.whitelist.0 is Some <==> initial_whitelist is Some,
            initial_whitelist matches Option::Some(v) ==> forall|a: Seq<char>|
                #[trigger] r.whitelist.entry_of(a) == wl_last_entry(v@, a),
            forall|a: Seq<char>| r.accounts.balance_entry(a) is None,
    {
        let mut configs: Vec<OracleConfig> = Vec::new();
        configs.push(config);
        Contract {
            whitelist: Whitelist::new(initial_whitelist),
            configs,
            data_requests: Vec::new(),
            accounts: StorageAccounts::new(),
            paused: false,
        }
    }

    /// Only the governance account of the current config may proceed.
    pub fn assert_gov(&self, caller: &AccountId) -> (r: Result<(), OracleError>)
        requires
            self.wf(),
        ensures
            r is Ok <==> caller@ == self.current_config().gov@,
            r matches Err(e) ==> e == OracleError::GovOnly,
    {
        let config = &self.configs[self.configs.len() - 1];
        if config.gov == *caller {
            Ok(())
        } else {
            Err(OracleError::GovOnly)
        }
    }

    /// Nothing moves while the oracle is paused.
    pub fn assert_unpaused(&self) -> (r: Result<(), OracleError>)
        ensures
            r is Ok <==> !self.paused,
            r matches Err(e) ==> e == OracleError::Paused,
    {
        if self.paused {
            Err(OracleError::Paused)
        } else {
            Ok(())
        }
    }

    /// Only the expected account (a token contract, mostly) may proceed.
    pub fn assert_sender(&self, caller: &AccountId, expected_sender: &AccountId) -> (r: Result<
        (),
        OracleError,
    >)
        ensures
            r is Ok <==> caller@ == expected_sender@,
            r matches Err(e) ==> e == OracleError::WrongSender,
    {
        if *caller == *expected_sender {
            Ok(())
        } else {
            Err(OracleError::WrongSender)
        }
    }
}

} // verus!
