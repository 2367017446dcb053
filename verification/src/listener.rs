//! The listening endpoint and the decisions of the accept loop.

use vstd::prelude::*;

verus! {

/// The port the server listens on.
pub const LISTEN_PORT: u16 = 8000;

/// An IPv4 address and a port.
#[derive(Clone, Copy, Debug, PartialEq, Eq)]
pub struct Endpoint {
    pub addr: [u8; 4],
    pub port: u16,
}

/// The endpoint the server binds: every address of the machine, on
/// `LISTEN_PORT`.
pub fn listen_endpoint() -> (e: Endpoint)
    ensures
        e.addr@ == seq![0u8, 0u8, 0u8, 0u8],
        e.port == LISTEN_PORT,
{
    let e = Endpoint { addr: [0, 0, 0, 0], port: LISTEN_PORT };
    assert(e.addr@ =~= seq![0u8, 0u8, 0u8, 0u8]);
    e
}

/// What the accept loop does with the outcome of one accept.
#[derive(Clone, Copy, Debug, PartialEq, Eq, Structural)]
pub enum AcceptAction {
    /// Start a handler of its own on the new connection, then accept again
    /// without waiting for it.
    Spawn,
    /// Drop the failed attempt and accept again.
    Skip,
}

/// Decides what follows one accept: a connection gets a handler, a failure
/// is passed over. Either way the loop goes on.
pub fn on_accept(accepted: bool) -> (action: AcceptAction)
    ensures
        action == (if accepted {
            AcceptAction::Spawn
        } else {
            AcceptAction::Skip
        }),
{
    if accepted {
        AcceptAction::Spawn
    } else {
        AcceptAction::Skip
    }
}

} // verus!
