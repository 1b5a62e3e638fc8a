//! The decisions of the connection acceptor, which polls a listening
//! socket: serve a new connection under the next id, wait for the next
//! poll, or stop when shutdown has been asked for.
use vstd::prelude::*;

verus! {

/// What one poll of the listening socket found.
#[derive(Debug, Clone, Copy, PartialEq, Eq, Structural)]
pub enum AcceptEvent {
    /// A connection was accepted.
    Accepted,
    /// No connection was waiting; shutdown may have been asked for.
    NoConnection { shutdown_requested: bool },
}

/// What the acceptor does next.
#[derive(Debug, Clone, Copy, PartialEq, Eq, Structural)]
pub enum AcceptAction {
    /// Hand the connection to the pool under this id.
    Serve(u32),
    /// Sleep until the next poll.
    Wait,
    /// Run the protocol's shutdown hook and stop polling.
    Shutdown,
}

/// The id after `conn_id`, wrapping past the largest.
pub open spec fn next_conn_id(conn_id: u32) -> u32 {
    if conn_id == u32::MAX {
        0
    } else {
        (conn_id + 1) as u32
    }
}

/// One poll: the connection id afterwards and the action. An accepted
/// connection takes the next id; with none waiting, the acceptor stops if
/// shutdown was asked for and waits otherwise.
pub fn accept_step(conn_id: u32, ev: AcceptEvent) -> (r: (u32, AcceptAction))
    ensures
        ev is Accepted ==> r.0 == next_conn_id(conn_id) && r.1 == AcceptAction::Serve(r.0),
        ev == (AcceptEvent::NoConnection { shutdown_requested: true }) ==> r == (
            conn_id,
            AcceptAction::Shutdown,
        ),
        ev == (AcceptEvent::NoConnection { shutdown_requested: false }) ==> r == (
            conn_id,
            AcceptAction::Wait,
        ),
{
    match ev {
        AcceptEvent::Accepted => {
            let next = conn_id.wrapping_add(1);
            (next, AcceptAction::Serve(next))
        },
        AcceptEvent::NoConnection { shutdown_requested } => {
            if shutdown_requested {
                (conn_id, AcceptAction::Shutdown)
            } else {
                (conn_id, AcceptAction::Wait)
            }
        },
    }
}

} // verus!
