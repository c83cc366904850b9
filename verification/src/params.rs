//! The fetcher's data model and its all-or-nothing validation of one remote
//! lookup.

use vstd::prelude::*;

verus! {

/// A parameter name together with its decrypted value, as the remote store
/// resolved it. A parameter without a value is a fetch-time failure and is
/// not representable here.
#[derive(Debug)]
pub struct ResolvedParameter {
    pub name: String,
    pub value: String,
}

/// Why a run failed. Every variant is terminal: no recovery is attempted.
#[derive(Debug)]
pub enum PullerError {
    /// The remote lookup itself failed (network, auth, throttling); the
    /// detail is diagnostic text about the cause.
    Dependency(String),
    /// The remote store reported the named parameter as invalid (it does not
    /// exist, is not permitted, or has the wrong type).
    InvalidParameter(String),
    /// The environment file could not be written; the detail is diagnostic
    /// text about the cause.
    IO(String),
}

/// What one remote lookup produced: a response, carrying the resolved
/// parameters and the names the store reported invalid, or a failure of the
/// call itself.
pub enum LookupOutcome {
    Response {
        parameters: Vec<ResolvedParameter>,
        invalid_parameters: Vec<String>,
    },
    Failure {
        detail: String,
    },
}

/// Validates one lookup outcome, all or nothing: if the store reported any
/// invalid name, the whole request fails with the first such name and no
/// resolved value is handed on; otherwise the full resolved set is returned
/// unaltered. A failure of the call itself is passed through as a dependency
/// error.
pub fn resolve_lookup(outcome: LookupOutcome) -> (result: Result<
    Vec<ResolvedParameter>,
    PullerError,
>)
    ensures
        outcome matches LookupOutcome::Failure { detail } ==> (result matches Err(
            PullerError::Dependency(d),
        ) && d == detail),
        outcome matches LookupOutcome::Response { parameters, invalid_parameters } ==> {
            &&& invalid_parameters@.len() == 0 ==> (result matches Ok(resolved) && resolved
                == parameters)
            &&& invalid_parameters@.len() > 0 ==> (result matches Err(
                PullerError::InvalidParameter(n),
            ) && n == invalid_parameters@[0])
        },
{
    match outcome {
        LookupOutcome::Failure { detail } => Err(PullerError::Dependency(detail)),
        LookupOutcome::Response { parameters, mut invalid_parameters } => {
            if invalid_parameters.len() > 0 {
                let first = invalid_parameters.remove(0);
                Err(PullerError::InvalidParameter(first))
            } else {
                Ok(parameters)
            }
        },
    }
}

} // verus!
