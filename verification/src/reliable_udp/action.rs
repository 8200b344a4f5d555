//! What an endpoint wants done.

use vstd::prelude::*;

use crate::net::SocketAddr;
use crate::reliable_core::ReadResult;
use crate::reliable_udp::error::{ConnectError, StreamError};
use crate::wire::{ConnectionId, StreamId};

verus! {

/// The answer to a request.
#[derive(Debug)]
pub enum Reply {
    Connect(Result<ConnectionId, ConnectError>),
    Stream(Result<StreamId, StreamError>),
    Read(Result<ReadResult, StreamError>),
    Write(Result<usize, StreamError>),
    Flush(Result<(), StreamError>),
    Close(Result<(), ConnectError>),
}

/// A [`Reply`], as contracts see it.
pub enum ReplyView {
    Connect(Result<ConnectionId, ConnectError>),
    Stream(Result<StreamId, StreamError>),
    Read(Result<(Seq<u8>, bool), StreamError>),
    Write(Result<usize, StreamError>),
    Flush(Result<(), StreamError>),
    Close(Result<(), ConnectError>),
}

impl View for Reply {
    type V = ReplyView;

    open spec fn view(&self) -> ReplyView {
        match self {
            Reply::Connect(result) => ReplyView::Connect(*result),
            Reply::Stream(result) => ReplyView::Stream(*result),
            Reply::Read(result) => ReplyView::Read(
                match result {
                    Ok(read) => Ok((read.data@, read.eof)),
                    Err(error) => Err(*error),
                },
            ),
            Reply::Write(result) => ReplyView::Write(*result),
            Reply::Flush(result) => ReplyView::Flush(*result),
            Reply::Close(result) => ReplyView::Close(*result),
        }
    }
}

/// Something to do. Requests are told apart by numbers.
#[allow(inconsistent_fields)]
#[derive(Debug)]
pub enum Action {
    /// Send a datagram.
    Datagram { bytes: Vec<u8>, peer: SocketAddr },
    /// Let others run: many datagrams were sent in a row.
    Yield,
    /// Hand a new connection to who accepts connections.
    Accept { connection_id: ConnectionId },
    /// Answer a request.
    Reply { request: u64, reply: Reply },
    /// Drop a request without an answer: another one has taken its place.
    Abandon { request: u64 },
}

/// An [`Action`], as contracts see it.
#[allow(inconsistent_fields)]
pub enum ActionView {
    Datagram { bytes: Seq<u8>, peer: SocketAddr },
    Yield,
    Accept { connection_id: ConnectionId },
    Reply { request: u64, reply: ReplyView },
    Abandon { request: u64 },
}

impl View for Action {
    type V = ActionView;

    open spec fn view(&self) -> ActionView {
        match self {
            Action::Datagram { bytes, peer } => ActionView::Datagram { bytes: bytes@, peer: *peer },
            Action::Yield => ActionView::Yield,
            Action::Accept { connection_id } => ActionView::Accept {
                connection_id: *connection_id,
            },
            Action::Reply { request, reply } => ActionView::Reply {
                request: *request,
                reply: reply@,
            },
            Action::Abandon { request } => ActionView::Abandon { request: *request },
        }
    }
}

/// Actions, as contracts see them.
pub open spec fn action_views(actions: Seq<Action>) -> Seq<ActionView> {
    Seq::new(actions.len(), |i: int| actions[i]@)
}

/// One action more.
pub proof fn lemma_action_pushed(actions: Seq<Action>, action: Action)
    ensures
        action_views(actions.push(action)) == action_views(actions).push(action@),
{
    assert(action_views(actions.push(action)) =~= action_views(actions).push(action@));
}

/// The request that an action settles.
pub open spec fn settles(action: ActionView, request: u64) -> bool {
    match action {
        ActionView::Reply { request: settled, .. } => settled == request,
        ActionView::Abandon { request: settled } => settled == request,
        _ => false,
    }
}

/// Whether one of the actions from place `from` on settles the request.
pub open spec fn settled_since(actions: Seq<ActionView>, from: int, request: u64) -> bool {
    exists|i: int| from <= i < actions.len() && settles(#[trigger] actions[i], request)
}

} // verus!
