//! FIN: reliable broadcast of every node's input, a second broadcast of the
//! first `n - f` broadcasts each node accepted, the election of a leader among
//! the nodes whose broadcasts are covered, and rounds of binary agreement with
//! a common coin on whether to take the leader's proposal.

use vstd::prelude::*;

pub mod rbc_state;
pub mod roundvals_bin;
pub mod msg;
pub mod context;
pub mod baa;

verus! {

/// The errors of the threshold-signature setup that FIN relies on.
#[derive(Copy, Clone, Debug, PartialEq, Eq, Structural)]
pub enum Error {
    KeyGenMisMatchedVectors,
    KeyGenBadCommitment,
    KeyGenInvalidShare,
    KeyGenDlogProofError,
    PartialSignatureVerificationError,
    SigningMisMatchedVectors,
}

} // verus!
