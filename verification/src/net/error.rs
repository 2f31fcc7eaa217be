use vstd::prelude::*;

verus! {

/// Errors of the networking layer.
///
/// Errors raised by the transports reach the library as their messages.
#[derive(Debug, Clone, PartialEq, Eq)]
pub enum NetworkError {
    /// An input/output error occurred.
    IoError(String),
    /// The HTTP exchange failed.
    HttpError(String),
    /// The server answered with a status code outside `200..=299`.
    UnsuccessfulHttpRequest(u16),
    /// The request's URI has no scheme.
    NoProtocolScheme,
    /// The request's URI has no host.
    NoTargetHost,
    /// The request's URI has a scheme that no enabled transport serves.
    UnsupportedProtocolScheme,
    /// No network interface is recorded under this identifier.
    UnsupportedNetworkInterfaceIdentifier(i8),
}

} // verus!
