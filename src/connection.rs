//! The decisions of a connection task, which bridges one socket and the
//! session: what it does with each thing that happens to it. The task
//! itself (reading, writing, awaiting) runs around [`step`].

use vstd::prelude::*;

use crate::ids::ClientId;
use crate::model::ServerToClient;
use crate::protocol::Client;
use crate::protocol::Request;
use crate::protocol::Response;

verus! {

/// Where a connection task stands.
#[derive(Clone, Copy, PartialEq, Eq, Structural, Debug)]
pub enum Phase {
    /// Registered with the session, waiting for its id.
    Handshake,
    /// Serving, under this id.
    Ready(ClientId),
    /// Done.
    Closed,
}

/// Something that happened to a connection task.
#[derive(Clone, PartialEq, Eq, Debug)]
pub enum Input {
    /// The session registered the connection under this id.
    Accepted(ClientId),
    /// The session's mailbox is gone.
    MailboxClosed,
    /// A whole request was read from the socket.
    Request(Request),
    /// Bytes from the socket that are no request.
    Malformed,
    /// The socket reached its end, or failed.
    SocketClosed,
    /// The session pushed a message on this connection's queue.
    Outbound(ServerToClient),
    /// The session closed this connection's queue.
    QueueClosed,
}

/// What a connection task does next.
#[derive(Clone, PartialEq, Eq, Debug)]
pub enum Action {
    Nothing,
    /// Send the request to the session, tagged with the connection's id.
    Forward(ClientId, Request),
    /// Write the response to the socket.
    Write(Response),
    /// Send Shutdown for this id to the session, then stop: a connection
    /// that ends takes its user out of the world and its rooms.
    ShutdownAndStop(ClientId),
    /// Stop.
    Stop,
}

/// The next phase and action of a connection task in `phase` when `input`
/// happens. Before its id arrives a task handles nothing else, and any
/// other first message from the session ends it; a socket
/// that ends or sends garbage ends the connection and shuts its session
/// down; a closed mailbox or queue ends it at once.
pub fn step(phase: Phase, input: Input) -> (r: (Phase, Action))
    ensures
        match (phase, input) {
            (Phase::Handshake, Input::Accepted(id)) => r == (
                Phase::Ready(id),
                Action::Write(Response::Accepted(Client { id })),
            ),
            (Phase::Handshake, Input::MailboxClosed) => r == (Phase::Closed, Action::Stop),
            (Phase::Handshake, Input::QueueClosed) => r == (Phase::Closed, Action::Stop),
            (Phase::Handshake, Input::Outbound(_)) => r == (Phase::Closed, Action::Stop),
            (Phase::Handshake, _) => r == (Phase::Handshake, Action::Nothing),
            (Phase::Ready(id), Input::Request(request)) => r == (
                Phase::Ready(id),
                Action::Forward(id, request),
            ),
            (Phase::Ready(id), Input::Malformed) => r == (Phase::Closed, Action::ShutdownAndStop(id)),
            (Phase::Ready(id), Input::SocketClosed) => r == (
                Phase::Closed,
                Action::ShutdownAndStop(id),
            ),
            (Phase::Ready(id), Input::Outbound(ServerToClient::Response(response))) => r == (
                Phase::Ready(id),
                Action::Write(response),
            ),
            (Phase::Ready(_), Input::MailboxClosed) => r == (Phase::Closed, Action::Stop),
            (Phase::Ready(_), Input::QueueClosed) => r == (Phase::Closed, Action::Stop),
            (Phase::Ready(id), _) => r == (Phase::Ready(id), Action::Nothing),
            (Phase::Closed, _) => r == (Phase::Closed, Action::Nothing),
        },
{
    match phase {
        Phase::Handshake => match input {
            Input::Accepted(id) => (Phase::Ready(id), Action::Write(Response::Accepted(Client { id }))),
            Input::MailboxClosed => (Phase::Closed, Action::Stop),
            Input::QueueClosed => (Phase::Closed, Action::Stop),
            Input::Outbound(_) => (Phase::Closed, Action::Stop),
            _ => (Phase::Handshake, Action::Nothing),
        },
        Phase::Ready(id) => match input {
            Input::Request(request) => (Phase::Ready(id), Action::Forward(id, request)),
            Input::Malformed => (Phase::Closed, Action::ShutdownAndStop(id)),
            Input::SocketClosed => (Phase::Closed, Action::ShutdownAndStop(id)),
            Input::Outbound(ServerToClient::Response(response)) => (
                Phase::Ready(id),
                Action::Write(response),
            ),
            Input::MailboxClosed => (Phase::Closed, Action::Stop),
            Input::QueueClosed => (Phase::Closed, Action::Stop),
            _ => (Phase::Ready(id), Action::Nothing),
        },
        Phase::Closed => (Phase::Closed, Action::Nothing),
    }
}

} // verus!
