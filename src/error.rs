use vstd::prelude::*;

verus! {

/// Every failure the relay core reports, one variant per kind.
#[derive(Clone, Copy, Debug, PartialEq, Eq, Structural)]
pub enum RelayError {
    /// The configuration cannot be used; fatal at start-up.
    ConfigError,
    /// The chain could not be reached.
    ConnectionError,
    /// A query failed in transport.
    QueryError,
    /// The height asked for has been pruned on the queried chain.
    ProofNotFound,
    /// The height needed for a proof is no longer held by the source chain.
    StaleHeight,
    /// The commitment or acknowledgement does not exist; nothing to relay.
    PacketNotFound,
    /// No chain of trusted headers connects the trusted and target heights.
    InsufficientTrust,
    /// The trusted height lies outside the client's trust period.
    ExpiredClient,
    /// The destination chain rejected the message when executing it.
    TxFailure,
    /// The chain does not (yet) hold the block at the height asked for.
    HeightNotAvailable,
}

impl RelayError {
    /// Whether the caller may retry after re-querying fresh heights and proofs.
    pub fn is_retryable(&self) -> (r: bool)
        ensures
            r == (*self == RelayError::ConnectionError || *self == RelayError::QueryError
                || *self == RelayError::ProofNotFound || *self == RelayError::StaleHeight
                || *self == RelayError::HeightNotAvailable),
    {
        match self {
            RelayError::ConnectionError | RelayError::QueryError | RelayError::ProofNotFound
            | RelayError::StaleHeight | RelayError::HeightNotAvailable => true,
            _ => false,
        }
    }

    /// Whether the outcome ends the packet's relay with nothing left to do.
    pub fn is_terminal(&self) -> (r: bool)
        ensures
            r == (*self == RelayError::PacketNotFound),
    {
        match self {
            RelayError::PacketNotFound => true,
            _ => false,
        }
    }
}

} // verus!
