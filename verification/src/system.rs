//! What the pallets take from the system pallet: origins and the errors a
//! dispatchable can answer with.

use vstd::prelude::*;

verus! {

/// An account identifier.
pub type AccountId = u64;

/// A block number.
pub type BlockNumber = u64;

/// The origin of a dispatched call.
#[derive(Clone, Copy, Debug, PartialEq, Eq)]
pub enum Origin {
    /// The root of the runtime.
    Root,
    /// A call signed by an account.
    Signed(AccountId),
    /// An unsigned call.
    Unsigned,
}

impl Origin {
    /// A call signed by `who`.
    pub fn signed(who: AccountId) -> (r: Origin)
        ensures
            r == Origin::Signed(who),
    {
        Origin::Signed(who)
    }
}

/// The account that signed `origin`, if any.
pub open spec fn signer(origin: Origin) -> Option<AccountId> {
    match origin {
        Origin::Signed(who) => Some(who),
        _ => None,
    }
}

/// The origin was not a signed one.
#[derive(Clone, Copy, Debug, PartialEq, Eq)]
pub struct BadOrigin;

/// The signer of `origin`, or `BadOrigin` when the call is not signed.
pub fn ensure_signed(origin: Origin) -> (r: Result<AccountId, BadOrigin>)
    ensures
        match signer(origin) {
            Some(who) => r == Ok::<AccountId, BadOrigin>(who),
            None => r == Err::<AccountId, BadOrigin>(BadOrigin),
        },
{
    match origin {
        Origin::Signed(who) => Ok(who),
        _ => Err(BadOrigin),
    }
}

/// Why a dispatchable failed: `E` is the pallet's own error type, `C` that
/// of the parts of the runtime the pallet calls (`()` for a pallet that
/// calls none).
#[derive(Clone, Copy, Debug, PartialEq, Eq)]
pub enum DispatchError<E, C> {
    /// The call was not signed.
    BadOrigin,
    /// The pallet refused the call with one of its own errors.
    Module(E),
    /// A part of the runtime the pallet called refused, with its own error.
    Runtime(C),
}


/// A signed origin is signed by its account; root and unsigned origins by none.
pub proof fn lemma_signer_of_origins(who: AccountId)
    ensures
        signer(Origin::Signed(who)) == Some(who),
        signer(Origin::Root) is None,
        signer(Origin::Unsigned) is None,
{
}

} // verus!
