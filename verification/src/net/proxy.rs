//! Decisions of the SOCKS5 proxy that exposes the Tor network.

use vstd::prelude::*;

verus! {

/// Commands a SOCKS5 client can send.
#[derive(Debug, Clone, Copy, PartialEq, Eq, Structural)]
pub enum ProxyCommand {
    Associate,
    Bind,
    Connect,
}

/// Replies of the proxy.
#[derive(Debug, Clone, Copy, PartialEq, Eq, Structural)]
pub enum ProxyReply {
    /// Relay between the client and the target.
    Succeeded,
    CommandNotSupported,
    HostUnreachable,
}

/// The reply to a command: only connecting is supported, and it succeeds when the target could
/// be reached.
pub fn proxy_reply(command: ProxyCommand, target_reachable: bool) -> (r: ProxyReply)
    ensures
        r == match command {
            ProxyCommand::Connect => if target_reachable {
                ProxyReply::Succeeded
            } else {
                ProxyReply::HostUnreachable
            },
            _ => ProxyReply::CommandNotSupported,
        },
{
    match command {
        ProxyCommand::Associate => ProxyReply::CommandNotSupported,
        ProxyCommand::Bind => ProxyReply::CommandNotSupported,
        ProxyCommand::Connect => if target_reachable {
            ProxyReply::Succeeded
        } else {
            ProxyReply::HostUnreachable
        },
    }
}

} // verus!
