//! Origins of a call and the errors a dispatched call can end with.

use vstd::prelude::*;

verus! {

/// Account identifiers of the runtime.
pub type AccountId = u64;

/// Who a call comes from.
#[derive(Clone, Copy, Debug, PartialEq, Eq, Structural)]
pub enum Origin {
    /// A call signed by an account.
    Signed(AccountId),
    /// The root origin.
    Root,
    /// An unsigned call.
    Unsigned,
}

/// Why a dispatched call failed.
#[derive(Clone, Copy, Debug, PartialEq, Eq, Structural)]
pub enum DispatchError {
    /// The call needed a signed origin.
    BadOrigin,
    /// An error of the kitties pallet.
    Module(crate::kitties::Error),
    /// The currency could not reserve: the free balance is too low.
    InsufficientBalance,
}

/// The account that signed `origin`, if it is signed.
pub open spec fn signer_of(origin: Origin) -> Option<AccountId> {
    match origin {
        Origin::Signed(who) => Some(who),
        _ => None,
    }
}

/// The signer of a signed origin; `BadOrigin` for any other.
pub fn ensure_signed(origin: Origin) -> (r: Result<AccountId, DispatchError>)
    ensures
        r == (match signer_of(origin) {
            Some(who) => Ok(who),
            None => Err(DispatchError::BadOrigin),
        }),
{
    match origin {
        Origin::Signed(who) => Ok(who),
        _ => Err(DispatchError::BadOrigin),
    }
}

} // verus!
