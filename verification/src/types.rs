//! Argument records, the invocation context and the error taxonomy.

use vstd::prelude::*;

verus! {

/// Read-only record describing one invocation, supplied by the host.
///
/// `depth` counts nested contract-call levels: depth 0 means the call came
/// directly from an external transaction, not from another contract.
pub struct AppContext {
    /// Account that performed the call.
    pub caller: String,
    /// Account that owns the invoked contract instance.
    pub owner: String,
    /// Contract-call nesting level; 0 is a top-level external call.
    pub depth: u16,
}

/// Arguments passed by an asset contract when it invokes the transfer hooks.
/// Read-only to this contract.
pub struct TransferArgs {
    /// Source account of the transfer.
    pub from: String,
    /// Destination account of the transfer.
    pub to: String,
    /// Number of units moved.
    pub units: u64,
    /// Optional opaque payload attached to the transfer.
    pub data: Option<Vec<u8>>,
}

/// Argument record of the `echo` entry point; round-tripped unchanged.
#[derive(Debug, PartialEq, Clone)]
pub struct EchoArgs {
    /// Arbitrary text carried through the call.
    pub data: String,
}

/// Everything that can go wrong in an invocation. Each variant carries a
/// stable, human-readable message, used for equality checks by callers.
#[derive(Debug, PartialEq, Eq, Clone, Copy, Structural)]
pub enum ContractError {
    /// The caller was not allowed to perform the operation.
    NotAuthorized,
    /// A transfer hook was invoked as a top-level call instead of from
    /// another contract's execution.
    DirectCall,
    /// A transfer hook was invoked on an account whose lifecycle flag has
    /// not been written yet.
    NotInitialized,
    /// A binary payload was not a well-formed encoding of the expected
    /// argument record.
    Decode,
}

impl ContractError {
    /// The stable message attached to this error.
    pub fn message(&self) -> (m: &'static str)
        ensures
            *self == ContractError::NotAuthorized ==> m@ == "not authorized"@,
            *self == ContractError::DirectCall ==> m@ == "cannot be called directly"@,
            *self == ContractError::NotInitialized ==> m@ == "not initialized"@,
            *self == ContractError::Decode ==> m@ == "malformed input"@,
    {
        match self {
            ContractError::NotAuthorized => "not authorized",
            ContractError::DirectCall => "cannot be called directly",
            ContractError::NotInitialized => "not initialized",
            ContractError::Decode => "malformed input",
        }
    }
}

} // verus!
