//! Routing HTTP requests to a transport.

use vstd::prelude::*;

use super::NetworkError;

verus! {

/// Application-layer protocols negotiated over TLS.
#[derive(Debug, Clone, Copy, PartialEq, Eq, Structural)]
pub enum AlpnProtocols {
    /// HTTP/1.1.
    Fallback,
}

/// HTTP protocol versions.
#[derive(Debug, Clone, Copy, PartialEq, Eq, Structural)]
pub enum HttpVersion {
    Http1,
    Http2,
}

/// Over cleartext, HTTP/2 is used only with prior knowledge that the server supports it
/// (upgrading from HTTP/1.1 is obsolete); HTTP/1.1 otherwise.
pub fn cleartext_http_version(http2_prior_knowledge: bool) -> (r: HttpVersion)
    ensures
        r == (if http2_prior_knowledge { HttpVersion::Http2 } else { HttpVersion::Http1 }),
{
    if http2_prior_knowledge {
        HttpVersion::Http2
    } else {
        HttpVersion::Http1
    }
}

/// Where an HTTP request goes.
#[derive(Debug, Clone, PartialEq, Eq)]
pub struct HttpTarget {
    /// Whether the connection is encrypted with TLS.
    pub secure: bool,
    pub host: String,
    pub port: u16,
}

/// The target of a request whose URI has the given scheme, host and port: `https` goes over TLS
/// (when a TLS transport is enabled) to port 443 by default, `http` over cleartext to port 80 by
/// default.
pub fn resolve_http_target(
    scheme: Option<&str>,
    host: Option<&str>,
    port: Option<u16>,
    tls_enabled: bool,
) -> (r: Result<HttpTarget, NetworkError>)
    ensures
        scheme is None ==> r == Err::<HttpTarget, NetworkError>(NetworkError::NoProtocolScheme),
        scheme is Some && host is None ==> r == Err::<HttpTarget, NetworkError>(NetworkError::NoTargetHost),
        scheme is Some && host is Some ==> {
            let s = scheme->0@;
            if s == "https"@ && tls_enabled {
                r matches Ok(t) && t.secure && t.host@ == host->0@ && t.port == (match port {
                    Some(p) => p,
                    None => 443u16,
                })
            } else if s == "http"@ {
                r matches Ok(t) && !t.secure && t.host@ == host->0@ && t.port == (match port {
                    Some(p) => p,
                    None => 80u16,
                })
            } else {
                r == Err::<HttpTarget, NetworkError>(NetworkError::UnsupportedProtocolScheme)
            }
        },
{
    let scheme = match scheme {
        Some(s) => s,
        None => {
            return Err(NetworkError::NoProtocolScheme);
        },
    };
    let host = match host {
        Some(h) => h,
        None => {
            return Err(NetworkError::NoTargetHost);
        },
    };
    if tls_enabled && str_eq(scheme, "https") {
        Ok(HttpTarget { secure: true, host: host.to_owned(), port: match port {
            Some(p) => p,
            None => 443,
        } })
    } else if str_eq(scheme, "http") {
        Ok(HttpTarget { secure: false, host: host.to_owned(), port: match port {
            Some(p) => p,
            None => 80,
        } })
    } else {
        Err(NetworkError::UnsupportedProtocolScheme)
    }
}

/// Whether two strings are equal.
pub fn str_eq(a: &str, b: &str) -> (r: bool)
    ensures
        r == (a@ == b@),
{
    let av = crate::text::chars_of(a);
    let bv = crate::text::chars_of(b);
    crate::text::chars_eq(&av, &bv)
}

} // verus!
