//! The oracle's global configuration. Configs are versioned and append-only:
//! a data request pins the config version that was current at its creation
//! and is never affected by later changes.

use vstd::prelude::*;

use crate::types::AccountId;

verus! {

/// Inputs of the resolution-fee computation.
#[derive(Clone, Copy, PartialEq, Eq, Structural, Debug)]
pub struct FeeConfig {
    pub flux_market_cap: u128,
    pub total_value_staked: u128,
    /// Denominated so that one hundred thousand is one hundred percent.
    pub resolution_fee_percentage: u16,
}

/// One snapshot of the oracle's global configuration.
pub struct OracleConfig {
    pub gov: AccountId,
    pub final_arbitrator: AccountId,
    pub payment_token: AccountId,
    pub stake_token: AccountId,
    pub validity_bond: u128,
    pub max_outcomes: u8,
    pub default_challenge_window_duration: u64,
    pub min_initial_challenge_window_duration: u64,
    pub final_arbitrator_invoke_amount: u128,
    pub fee: FeeConfig,
}

impl Clone for OracleConfig {
    /// Cloning keeps the mathematical value.
    fn clone(&self) -> (r: Self)
        ensures
            r == *self,
    {
        OracleConfig {
            gov: self.gov.clone(),
            final_arbitrator: self.final_arbitrator.clone(),
            payment_token: self.payment_token.clone(),
            stake_token: self.stake_token.clone(),
            validity_bond: self.validity_bond,
            max_outcomes: self.max_outcomes,
            default_challenge_window_duration: self.default_challenge_window_duration,
            min_initial_challenge_window_duration: self.min_initial_challenge_window_duration,
            final_arbitrator_invoke_amount: self.final_arbitrator_invoke_amount,
            fee: self.fee,
        }
    }
}

impl crate::Contract {
    /// The current config snapshot: the latest entry of the append-only log.
    pub fn get_config(&self) -> (r: &OracleConfig)
        requires
            self.wf(),
        ensures
            *r == self.current_config(),
    {
        &self.configs[self.configs.len() - 1]
    }

    /// Appends a new config snapshot; governance only, and the validity bond
    /// must be positive. Existing requests keep the snapshot they pinned.
    pub fn set_config(&mut self, caller: &AccountId, new_config: OracleConfig) -> (r: Result<
        (),
        crate::error::OracleError,
    >)
        requires
            old(self).wf(),
        ensures
            final(self).wf(),
            r is Ok <==> (caller@ == old(self).current_config().gov@ && new_config.validity_bond
                > 0),
            r matches Ok(_) ==> ({
                &&& final(self).configs@ == old(self).configs@.push(new_config)
                &&& final(self).data_requests == old(self).data_requests
                &&& final(self).whitelist == old(self).whitelist
                &&& final(self).accounts == old(self).accounts
                &&& final(self).paused == old(self).paused
            }),
            r matches Err(e) ==> *final(self) == *old(self) && (e
                == crate::error::OracleError::GovOnly <==> caller@ != old(
                self).current_config().gov@),
    {
        if let Err(e) = self.assert_gov(caller) {
            return Err(e);
        }
        if new_config.validity_bond == 0 {
            return Err(crate::error::OracleError::InvalidConfig);
        }
        self.configs.push(new_config);
        Ok(())
    }

    /// Flips the pause flag; governance only.
    pub fn toggle_pause(&mut self, caller: &AccountId) -> (r: Result<
        (),
        crate::error::OracleError,
    >)
        requires
            old(self).wf(),
        ensures
            final(self).wf(),
            r is Ok <==> caller@ == old(self).current_config().gov@,
            r matches Ok(_) ==> ({
                &&& final(self).paused == !old(self).paused
                &&& final(self).configs == old(self).configs
                &&& final(self).data_requests == old(self).data_requests
                &&& final(self).whitelist == old(self).whitelist
                &&& final(self).accounts == old(self).accounts
            }),
            r matches Err(e) ==> *final(self) == *old(self) && e
                == crate::error::OracleError::GovOnly,
    {
        if let Err(e) = self.assert_gov(caller) {
            return Err(e);
        }
        self.paused = !self.paused;
        Ok(())
    }
}

} // verus!
