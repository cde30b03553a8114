//! Validation of a new data request's payload against the current config.
//! The rules are checked in a fixed priority order and each violation has its
//! own error.

use vstd::prelude::*;

use crate::data_request::NewDataRequestArgs;
use crate::error::OracleError;
use crate::oracle_config::OracleConfig;
use crate::Contract;

verus! {

/// The most sources a request may name.
pub const MAX_SOURCES: u8 = 8;

/// The most tags a request may carry.
pub const MAX_TAGS: u8 = 8;

/// The fewest entries an outcome allow-list may have.
pub const MIN_OUTCOMES: u8 = 2;

/// The challenge period may stretch to this multiple of the default
/// challenge window duration.
pub const MAX_PERIOD_MULTIPLIER: u64 = 3;

/// How many sources the payload names.
pub open spec fn spec_sources_len(p: NewDataRequestArgs) -> int {
    match p.sources {
        Option::Some(v) => v@.len() as int,
        Option::None => 0,
    }
}

/// A description channel exists: a description, or at least one source.
pub open spec fn has_description(p: NewDataRequestArgs) -> bool {
    p.description is Some || spec_sources_len(p) != 0
}

/// The payload passes every validation rule under the given config.
pub open spec fn valid_payload(c: OracleConfig, p: NewDataRequestArgs) -> bool {
    &&& has_description(p)
    &&& spec_sources_len(p) <= MAX_SOURCES
    &&& p.challenge_period >= c.min_initial_challenge_window_duration
    &&& p.challenge_period <= c.default_challenge_window_duration * MAX_PERIOD_MULTIPLIER
    &&& p.tags@.len() <= MAX_TAGS
    &&& (p.outcomes matches Option::Some(o) ==> MIN_OUTCOMES <= o@.len() <= c.max_outcomes)
}

/// The first validation rule the payload breaks, in priority order.
pub open spec fn payload_error(c: OracleConfig, p: NewDataRequestArgs) -> OracleError {
    if !has_description(p) {
        OracleError::DescriptionRequired
    } else if spec_sources_len(p) > MAX_SOURCES {
        OracleError::TooManySources
    } else if p.challenge_period < c.min_initial_challenge_window_duration {
        OracleError::ChallengePeriodTooShort
    } else if p.challenge_period > c.default_challenge_window_duration * MAX_PERIOD_MULTIPLIER {
        OracleError::ChallengePeriodTooLong
    } else if p.tags@.len() > MAX_TAGS {
        OracleError::TooManyTags
    } else {
        OracleError::InvalidOutcomeList
    }
}

impl Contract {
    /// Checks a new request's payload against the current config.
    pub fn dr_validate(&self, data_request: &NewDataRequestArgs) -> (r: Result<(), OracleError>)
        requires
            self.wf(),
        ensures
            r is Ok <==> valid_payload(self.current_config(), *data_request),
            r matches Err(e) ==> e == payload_error(self.current_config(), *data_request),
    {
        let config = &self.configs[self.configs.len() - 1];
        let sources_len = match &data_request.sources {
            Option::Some(v) => v.len(),
            Option::None => 0,
        };
        if data_request.description.is_none() && sources_len == 0 {
            return Err(OracleError::DescriptionRequired);
        }
        if sources_len > MAX_SOURCES as usize {
            return Err(OracleError::TooManySources);
        }
        if data_request.challenge_period < config.min_initial_challenge_window_duration {
            return Err(OracleError::ChallengePeriodTooShort);
        }
        // compare widened so a huge default duration cannot overflow
        if data_request.challenge_period as u128 > config.default_challenge_window_duration as u128
            * MAX_PERIOD_MULTIPLIER as u128 {
            return Err(OracleError::ChallengePeriodTooLong);
        }
        if data_request.tags.len() > MAX_TAGS as usize {
            return Err(OracleError::TooManyTags);
        }
        match &data_request.outcomes {
            Option::Some(o) => {
                if o.len() < MIN_OUTCOMES as usize || o.len() > config.max_outcomes as usize {
                    return Err(OracleError::InvalidOutcomeList);
                }
            },
            Option::None => {},
        }
        Ok(())
    }
}

} // verus!
