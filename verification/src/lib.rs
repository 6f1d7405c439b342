//! A minimal ledger contract that gates an account's participation in asset
//! transfers.
//!
//! The contract exposes four entry points, invoked by a host execution
//! environment:
//!
//! - [`init`] marks the account as configured (owner only);
//! - [`before_transfer`] and [`after_transfer`] are hooks invoked by an
//!   asset's own transfer logic, gated by call depth and initialization;
//! - [`echo`] returns its argument unchanged, as an externally observable
//!   check of the argument codec.

use vstd::prelude::*;

mod codec;
mod store;
mod types;

pub use codec::decode_echo_args;
pub use codec::encode_echo_args;
pub use codec::encoded_echo;
pub use codec::is_echo_encoding;
pub use codec::lemma_encoded_echo_injective;
pub use codec::str_header;
pub use store::AccountStore;
pub use store::stored;
pub use types::AppContext;
pub use types::ContractError;
pub use types::EchoArgs;
pub use types::TransferArgs;

verus! {

/// The fixed key under which the lifecycle flag is persisted.
pub open spec fn init_key() -> Seq<char> {
    "INIT_KEY"@
}

/// True when the account whose store state is `state` has completed
/// initialization: any non-empty value under the lifecycle key counts.
pub open spec fn initialized(state: Map<Seq<char>, Seq<u8>>) -> bool {
    stored(state, init_key()).len() > 0
}

/// Marks the invoked account as configured.
///
/// Only the owner may initialize: a caller other than the owner is turned
/// away with no storage mutation. On success the lifecycle flag is written
/// as the single marker byte `1`; repeating the call rewrites the same
/// marker, so initialization is idempotent.
pub fn init(ctx: &AppContext, store: &mut AccountStore) -> (r: Result<(), ContractError>)
    ensures
        ctx.caller@ == ctx.owner@ ==> r is Ok && final(store)@ == old(store)@.insert(
            init_key(),
            seq![1u8],
        ),
        ctx.caller@ == ctx.owner@ ==> initialized(final(store)@),
        ctx.caller@ != ctx.owner@ ==> r == Err::<(), ContractError>(ContractError::NotAuthorized)
            && final(store)@ == old(store)@,
{
    if !(ctx.caller == ctx.owner) {
        return Err(ContractError::NotAuthorized);
    }
    let mut marker: Vec<u8> = Vec::new();
    marker.push(1u8);
    proof {
        assert(marker@ =~= seq![1u8]);
    }
    store.store_data("INIT_KEY", marker);
    Ok(())
}

/// Hook invoked by an asset's transfer logic before units move.
///
/// Two checks run in order: a call at depth 0 is refused as a direct
/// call, and a call on an account without the lifecycle flag is refused
/// as uninitialized. Past both checks the hook reports a permissive
/// verdict. The store is only read, never written.
pub fn before_transfer(ctx: &AppContext, store: &AccountStore, _args: &TransferArgs) -> (r: Result<
    bool,
    ContractError,
>)
    ensures
        ctx.depth == 0 ==> r == Err::<bool, ContractError>(ContractError::DirectCall),
        ctx.depth > 0 && !initialized(store@) ==> r == Err::<bool, ContractError>(
            ContractError::NotInitialized,
        ),
        ctx.depth > 0 && initialized(store@) ==> r == Ok::<bool, ContractError>(true),
{
    if ctx.depth == 0 {
        return Err(ContractError::DirectCall);
    }
    let flag = store.load_data("INIT_KEY");
    if flag.len() == 0 {
        return Err(ContractError::NotInitialized);
    }
    Ok(true)
}

/// Hook invoked by an asset's transfer logic after units have moved.
///
/// Gated exactly as [`before_transfer`]: the call depth first, then the
/// lifecycle flag. Past both checks the hook acknowledges the transfer.
/// The store is only read, never written.
pub fn after_transfer(ctx: &AppContext, store: &AccountStore, _args: &TransferArgs) -> (r: Result<
    bool,
    ContractError,
>)
    ensures
        ctx.depth == 0 ==> r == Err::<bool, ContractError>(ContractError::DirectCall),
        ctx.depth > 0 && !initialized(store@) ==> r == Err::<bool, ContractError>(
            ContractError::NotInitialized,
        ),
        ctx.depth > 0 && initialized(store@) ==> r == Ok::<bool, ContractError>(true),
{
    if ctx.depth == 0 {
        return Err(ContractError::DirectCall);
    }
    let flag = store.load_data("INIT_KEY");
    if flag.len() == 0 {
        return Err(ContractError::NotInitialized);
    }
    Ok(true)
}

/// Returns its argument unchanged, whatever the caller, owner or depth, and
/// without touching storage.
pub fn echo(_ctx: &AppContext, args: EchoArgs) -> (r: EchoArgs)
    ensures
        r == args,
{
    args
}

/// The `echo` entry point at the packed-byte boundary, as a host invokes
/// it: decode the payload, echo the record, encode the reply.
///
/// On a well-formed payload the reply is byte-identical to the input —
/// the externally observable round trip of the codec; anything else fails
/// with the decode error.
pub fn echo_packed(ctx: &AppContext, buf: &[u8]) -> (r: Result<Vec<u8>, ContractError>)
    ensures
        is_echo_encoding(buf@) ==> (r matches Ok(v) && v@ == buf@),
        !is_echo_encoding(buf@) ==> r == Err::<Vec<u8>, ContractError>(ContractError::Decode),
{
    let args = match decode_echo_args(buf) {
        Ok(a) => a,
        Err(e) => {
            return Err(e);
        },
    };
    let reply = echo(ctx, args);
    match encode_echo_args(&reply) {
        Some(v) => Ok(v),
        None => {
            proof {
                assert(false);
            }
            Err(ContractError::Decode)
        },
    }
}

} // verus!
