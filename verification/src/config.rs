//! Run configuration passed in by the caller.

use vstd::prelude::*;

use crate::error::PullError;

verus! {

/// Configuration for a run.  The caller sources it (e.g. from the
/// environment) and hands it in as plain values.
pub struct Config {
    pub forem_api_key: Option<String>,
}

impl Config {
    /// The static credential for the Forem API, or a missing-configuration
    /// error naming the value that must be set.
    pub fn forem_api_key(&self) -> (r: Result<&str, PullError>)
        ensures
            match r {
                Ok(k) => self.forem_api_key matches Some(s) && k@ == s@,
                Err(e) => self.forem_api_key is None && (e matches PullError::MissingConfig(m)
                    && m@ == "VIBE_FOREM_API_KEY"@),
            },
    {
        match &self.forem_api_key {
            Some(s) => Ok(s.as_str()),
            None => Err(PullError::MissingConfig(String::from_str("VIBE_FOREM_API_KEY"))),
        }
    }
}

} // verus!
