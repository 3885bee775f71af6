use vstd::prelude::*;

verus! {

/// Every failure the indexer can report. Transport, storage and decode
/// failures carry a plain message; configuration failures name the offending
/// input.
#[derive(Debug, Clone, PartialEq, Eq)]
pub enum Error {
    /// An RPC connection or in-flight request failed.
    TransportError(String),
    /// Every configured endpoint refused all connection attempts.
    NoHealthyEndpoints,
    /// An operation needed a transport but none is established.
    NotConnected,
    /// The circuit breaker suppressed the operation.
    CircuitBreakerOpen,
    /// No declared event matched the log.
    UnknownEvent,
    /// A database read or write failed.
    StorageError(String),
    /// A subscription could not be established or was lost.
    SubscriptionError(String),
    /// A required environment variable is missing.
    MissingEnvVar(String),
    /// The configuration file does not exist at the given path.
    ConfigFileNotFound(String),
    /// The ABI file does not exist at the given path.
    AbiFileNotFound(String),
    /// A configuration field holds an invalid value.
    InvalidConfig(String),
    /// A contract address is not a 0x-prefixed 40-digit hex string.
    InvalidAddress,
    /// An endpoint's transport kind is neither ws nor http.
    InvalidRpcType,
}

} // verus!
