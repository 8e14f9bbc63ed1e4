//! The cancellation signal that a running migration reads between rows.

use vstd::prelude::*;

verus! {

/// The cooperative "stop requested" signal read by a running migration
/// between rows.
pub struct CancellationToken {
    pub requested: bool,
}

impl CancellationToken {
    /// A fresh token, not set.
    pub fn new() -> (r: CancellationToken)
        ensures
            !r.requested,
    {
        CancellationToken { requested: false }
    }
}

/// Whether a stop has been asked for since the token was last reset.
pub fn is_cancellation_requested(token: &CancellationToken) -> (r: bool)
    ensures
        r == token.requested,
{
    token.requested
}

/// Asks the running migration to stop at the next row boundary.
pub fn cancel_migration(token: &mut CancellationToken)
    ensures
        final(token).requested,
{
    token.requested = true;
}

/// Clears the signal, as done at the start of each migration and once a
/// cancellation has been consumed.
pub fn reset_cancellation(token: &mut CancellationToken)
    ensures
        !final(token).requested,
{
    token.requested = false;
}

} // verus!
