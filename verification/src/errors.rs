//! Errors that callers of the library see.

use vstd::prelude::*;

verus! {

/// Why a wallet node could not do what it was asked to.
#[derive(Clone, Copy, Debug, PartialEq, Eq, Structural)]
pub enum Error {
    /// The node is not running.
    NotRunning,
    /// The peer could not be reached.
    ConnectionFailed,
    /// The wallet cannot cover the amount.
    InsufficientFunds,
    /// The channel could not be created.
    ChannelCreationFailed,
    /// The signatures do not fit the wallet's inputs.
    OnchainTxSigningFailed,
}

/// Why a call on a node was refused.
#[derive(Debug)]
pub enum APIError {
    /// The call breaks a rule of the interface.
    APIMisuseError { err: String },
    /// There is no such channel, or it is not in a state for the call.
    ChannelUnavailable { err: String },
}

} // verus!
