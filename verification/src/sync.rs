//! The decisions of the relay: what the server does in each phase of its
//! life, and what a connection does with each frame it reads and each
//! operation the broadcast bus hands it.
//!
//! Sockets, tasks and channels live with the caller. The caller reports what
//! happened as an event, and these functions answer with the next state and
//! the action to perform.

use vstd::prelude::*;
use crate::data::{Operation, OperationView};
use crate::wire::{decode_spec, deserialize, encode_spec, lemma_round_trip, serialize};

verus! {

/// How many operations the broadcast bus holds before the oldest is
/// overwritten.
pub const BROADCAST_CAPACITY: usize = 100;

/// How many shutdown signals can be pending.
pub const SHUTDOWN_CAPACITY: usize = 1;

/// How many confirmations of a shutdown can be pending.
pub const CONFIRMATION_CAPACITY: usize = 1;

/// The phases in the life of a relay server.
#[derive(Debug, Clone, Copy, PartialEq, Eq, Structural)]
pub enum ServerPhase {
    /// Constructed, not yet bound to an address.
    Created,
    /// Accepting connections.
    Listening,
    /// Told to shut down; the accept loop is on its way out.
    Draining,
    /// The accept loop has ended and the shutdown was confirmed.
    Stopped,
}

/// What can happen to a relay server.
#[derive(Debug, Clone, Copy, PartialEq, Eq, Structural)]
pub enum ServerEvent {
    /// The listening socket was bound.
    Started,
    /// A peer connected and the upgrade succeeded.
    Accepted,
    /// A shutdown signal was published.
    ShutdownRequested,
    /// The accept loop has ended.
    AcceptLoopExited,
}

/// What the server does in answer to an event.
#[derive(Debug, Clone, Copy, PartialEq, Eq, Structural)]
pub enum ServerAction {
    /// Begin accepting connections.
    Accept,
    /// Run the two tasks of the new connection.
    Serve,
    /// Leave the accept loop.
    StopAccepting,
    /// Emit the one confirmation that the server has stopped.
    Confirm,
    /// Nothing to do.
    Nothing,
}

impl ServerPhase {
    /// How far along its life the server is.
    pub open spec fn rank(self) -> nat {
        match self {
            ServerPhase::Created => 0,
            ServerPhase::Listening => 1,
            ServerPhase::Draining => 2,
            ServerPhase::Stopped => 3,
        }
    }
}

/// The phase that follows `phase` on `event`, and the action to perform.
/// Events that do not belong to the phase change nothing.
pub open spec fn server_step_spec(phase: ServerPhase, event: ServerEvent) -> (
    ServerPhase,
    ServerAction,
) {
    match (phase, event) {
        (ServerPhase::Created, ServerEvent::Started) => (ServerPhase::Listening, ServerAction::Accept),
        (ServerPhase::Listening, ServerEvent::Accepted) => (
            ServerPhase::Listening,
            ServerAction::Serve,
        ),
        (ServerPhase::Listening, ServerEvent::ShutdownRequested) => (
            ServerPhase::Draining,
            ServerAction::StopAccepting,
        ),
        (ServerPhase::Draining, ServerEvent::AcceptLoopExited) => (
            ServerPhase::Stopped,
            ServerAction::Confirm,
        ),
        _ => (phase, ServerAction::Nothing),
    }
}

/// Advances the server by one event.
pub fn server_step(phase: ServerPhase, event: ServerEvent) -> (r: (ServerPhase, ServerAction))
    ensures
        r == server_step_spec(phase, event),
{
    match (phase, event) {
        (ServerPhase::Created, ServerEvent::Started) => (ServerPhase::Listening, ServerAction::Accept),
        (ServerPhase::Listening, ServerEvent::Accepted) => (
            ServerPhase::Listening,
            ServerAction::Serve,
        ),
        (ServerPhase::Listening, ServerEvent::ShutdownRequested) => (
            ServerPhase::Draining,
            ServerAction::StopAccepting,
        ),
        (ServerPhase::Draining, ServerEvent::AcceptLoopExited) => (
            ServerPhase::Stopped,
            ServerAction::Confirm,
        ),
        _ => (phase, ServerAction::Nothing),
    }
}

/// The server never goes back to an earlier phase, and moves at most one
/// phase per event.
pub proof fn lemma_server_only_advances(phase: ServerPhase, event: ServerEvent)
    ensures
        phase.rank() <= server_step_spec(phase, event).0.rank() <= phase.rank() + 1,
{
}

/// The confirmation is emitted on exactly one transition, the one into
/// `Stopped`; since no phase is entered twice, it is emitted at most once.
pub proof fn lemma_confirmed_once(phase: ServerPhase, event: ServerEvent)
    ensures
        server_step_spec(phase, event).1 == ServerAction::Confirm <==> phase
            == ServerPhase::Draining && event == ServerEvent::AcceptLoopExited,
        server_step_spec(phase, event).1 == ServerAction::Confirm <==> phase != ServerPhase::Stopped
            && server_step_spec(phase, event).0 == ServerPhase::Stopped,
{
}

/// A listening server that is told to shut down and whose accept loop then
/// ends is stopped and has confirmed it.
pub proof fn lemma_shutdown_completes()
    ensures
        ({
            let draining = server_step_spec(ServerPhase::Listening, ServerEvent::ShutdownRequested);
            let stopped = server_step_spec(draining.0, ServerEvent::AcceptLoopExited);
            &&& draining == (ServerPhase::Draining, ServerAction::StopAccepting)
            &&& stopped == (ServerPhase::Stopped, ServerAction::Confirm)
        }),
{
}

/// Connections are served only while the server is listening.
pub proof fn lemma_serves_only_while_listening(phase: ServerPhase, event: ServerEvent)
    ensures
        server_step_spec(phase, event).1 == ServerAction::Serve <==> phase == ServerPhase::Listening
            && event == ServerEvent::Accepted,
{
}

/// The two states of a connection.
#[derive(Debug, Clone, Copy, PartialEq, Eq, Structural)]
pub enum ConnectionState {
    Open,
    Closed,
}

/// What the reading side of a connection is told: the outcome of a read,
/// reduced to what the protocol looks at, or that the server is shutting
/// down.
#[derive(Debug)]
pub enum Incoming {
    /// A text frame and its payload.
    Text(String),
    /// A binary frame, a ping, a pong or a raw frame.
    Other,
    /// A close frame.
    Close,
    /// The read failed.
    Failed,
    /// The stream has ended.
    End,
    /// The server is shutting down.
    Shutdown,
}

/// The mathematical value of an [`Incoming`].
pub enum IncomingView {
    Text(Seq<char>),
    Other,
    Close,
    Failed,
    End,
    Shutdown,
}

impl View for Incoming {
    type V = IncomingView;

    open spec fn view(&self) -> IncomingView {
        match self {
            Incoming::Text(text) => IncomingView::Text(text@),
            Incoming::Other => IncomingView::Other,
            Incoming::Close => IncomingView::Close,
            Incoming::Failed => IncomingView::Failed,
            Incoming::End => IncomingView::End,
            Incoming::Shutdown => IncomingView::Shutdown,
        }
    }
}

/// What the reading side of a connection does with what it read.
#[derive(Debug, PartialEq)]
pub enum Inbound {
    /// Hand the operation on: to the broadcast bus at the relay, to the
    /// inbound queue at a client.
    Forward(Operation),
    /// Drop what was read and go on reading.
    Skip,
    /// Stop reading; the connection is closed.
    Close,
}

/// The mathematical value of an [`Inbound`].
pub enum InboundView {
    Forward(OperationView),
    Skip,
    Close,
}

impl View for Inbound {
    type V = InboundView;

    open spec fn view(&self) -> InboundView {
        match self {
            Inbound::Forward(op) => InboundView::Forward(op@),
            Inbound::Skip => InboundView::Skip,
            Inbound::Close => InboundView::Close,
        }
    }
}

/// What is done with something read from an open connection: a text frame
/// that writes an operation is forwarded, any other text frame and every
/// frame that is neither text nor close is dropped, and a close frame, a
/// failed read, the end of the stream or the shutdown of the server closes
/// the connection.
pub open spec fn receive_spec(incoming: IncomingView) -> InboundView {
    match incoming {
        IncomingView::Text(text) => match decode_spec(text) {
            Some(op) => InboundView::Forward(op),
            None => InboundView::Skip,
        },
        IncomingView::Other => InboundView::Skip,
        IncomingView::Close => InboundView::Close,
        IncomingView::Failed => InboundView::Close,
        IncomingView::End => InboundView::Close,
        IncomingView::Shutdown => InboundView::Close,
    }
}

/// Decides what to do with something read from an open connection.
pub fn receive(incoming: &Incoming) -> (r: Inbound)
    ensures
        r@ == receive_spec(incoming@),
{
    match incoming {
        Incoming::Text(text) => match deserialize(text.as_str()) {
            Ok(op) => Inbound::Forward(op),
            Err(_) => Inbound::Skip,
        },
        Incoming::Other => Inbound::Skip,
        Incoming::Close => Inbound::Close,
        Incoming::Failed => Inbound::Close,
        Incoming::End => Inbound::Close,
        Incoming::Shutdown => Inbound::Close,
    }
}

/// The state of a connection after its reading side has seen `incoming`,
/// and what that side does. A closed connection stays closed and does
/// nothing.
pub open spec fn ingress_step_spec(state: ConnectionState, incoming: IncomingView) -> (
    ConnectionState,
    InboundView,
) {
    match state {
        ConnectionState::Closed => (ConnectionState::Closed, InboundView::Skip),
        ConnectionState::Open => {
            let action = receive_spec(incoming);
            if action is Close {
                (ConnectionState::Closed, action)
            } else {
                (ConnectionState::Open, action)
            }
        },
    }
}

/// Advances the reading side of a relay connection by one read. On `Close`
/// the caller cancels the writing side.
pub fn ingress_step(state: ConnectionState, incoming: &Incoming) -> (r: (ConnectionState, Inbound))
    ensures
        r.0 == ingress_step_spec(state, incoming@).0,
        r.1@ == ingress_step_spec(state, incoming@).1,
{
    match state {
        ConnectionState::Closed => (ConnectionState::Closed, Inbound::Skip),
        ConnectionState::Open => {
            let action = receive(incoming);
            match action {
                Inbound::Close => (ConnectionState::Closed, action),
                _ => (ConnectionState::Open, action),
            }
        },
    }
}

/// What the writing side of a relay connection is told.
#[derive(Debug)]
pub enum BusEvent {
    /// The bus handed over the next operation.
    Published(Operation),
    /// The bus overwrote operations this connection had not taken yet.
    Lagged,
    /// The bus is gone.
    Closed,
    /// Writing the last frame to the socket failed.
    WriteFailed,
    /// The server is shutting down.
    Shutdown,
}

/// The mathematical value of a [`BusEvent`].
pub enum BusEventView {
    Published(OperationView),
    Lagged,
    Closed,
    WriteFailed,
    Shutdown,
}

impl View for BusEvent {
    type V = BusEventView;

    open spec fn view(&self) -> BusEventView {
        match self {
            BusEvent::Published(op) => BusEventView::Published(op@),
            BusEvent::Lagged => BusEventView::Lagged,
            BusEvent::Closed => BusEventView::Closed,
            BusEvent::WriteFailed => BusEventView::WriteFailed,
            BusEvent::Shutdown => BusEventView::Shutdown,
        }
    }
}

/// What the writing side of a connection does.
#[derive(Debug, PartialEq)]
pub enum Outbound {
    /// Write a text frame with this payload.
    Send(String),
    /// Nothing to write; go on.
    Skip,
    /// Stop writing; the connection is closed.
    Stop,
}

/// The mathematical value of an [`Outbound`].
pub enum OutboundView {
    Send(Seq<char>),
    Skip,
    Stop,
}

impl View for Outbound {
    type V = OutboundView;

    open spec fn view(&self) -> OutboundView {
        match self {
            Outbound::Send(text) => OutboundView::Send(text@),
            Outbound::Skip => OutboundView::Skip,
            Outbound::Stop => OutboundView::Stop,
        }
    }
}

/// The state of a connection after its writing side has seen `event`, and
/// what that side does: a published operation is sent as its wire text,
/// operations lost to a slow reader are passed over, and the loss of the bus,
/// a failed write or the shutdown of the server closes the connection. A
/// closed connection stays closed and writes nothing.
pub open spec fn egress_step_spec(state: ConnectionState, event: BusEventView) -> (
    ConnectionState,
    OutboundView,
) {
    match state {
        ConnectionState::Closed => (ConnectionState::Closed, OutboundView::Stop),
        ConnectionState::Open => match event {
            BusEventView::Published(op) => (
                ConnectionState::Open,
                OutboundView::Send(encode_spec(op)),
            ),
            BusEventView::Lagged => (ConnectionState::Open, OutboundView::Skip),
            BusEventView::Closed => (ConnectionState::Closed, OutboundView::Stop),
            BusEventView::WriteFailed => (ConnectionState::Closed, OutboundView::Stop),
            BusEventView::Shutdown => (ConnectionState::Closed, OutboundView::Stop),
        },
    }
}

/// Advances the writing side of a relay connection by one event.
pub fn egress_step(state: ConnectionState, event: &BusEvent) -> (r: (ConnectionState, Outbound))
    ensures
        r.0 == egress_step_spec(state, event@).0,
        r.1@ == egress_step_spec(state, event@).1,
{
    match state {
        ConnectionState::Closed => (ConnectionState::Closed, Outbound::Stop),
        ConnectionState::Open => match event {
            BusEvent::Published(op) => (ConnectionState::Open, Outbound::Send(serialize(op))),
            BusEvent::Lagged => (ConnectionState::Open, Outbound::Skip),
            BusEvent::Closed => (ConnectionState::Closed, Outbound::Stop),
            BusEvent::WriteFailed => (ConnectionState::Closed, Outbound::Stop),
            BusEvent::Shutdown => (ConnectionState::Closed, Outbound::Stop),
        },
    }
}

/// A closed connection never opens again, on either side.
pub proof fn lemma_closed_is_final(incoming: IncomingView, event: BusEventView)
    ensures
        ingress_step_spec(ConnectionState::Closed, incoming) == (
            ConnectionState::Closed,
            InboundView::Skip,
        ),
        egress_step_spec(ConnectionState::Closed, event) == (
            ConnectionState::Closed,
            OutboundView::Stop,
        ),
{
}

/// The reading side closes the connection on exactly four things: a close
/// frame, a failed read, the end of the stream and the shutdown of the
/// server. The writing side closes it when the bus is gone, a write has
/// failed or the server shuts down.
pub proof fn lemma_connection_closes(incoming: IncomingView, event: BusEventView)
    ensures
        ingress_step_spec(ConnectionState::Open, incoming).0 == ConnectionState::Closed <==> (
        incoming is Close || incoming is Failed || incoming is End || incoming is Shutdown),
        egress_step_spec(ConnectionState::Open, event).0 == ConnectionState::Closed <==> (event
            is Closed || event is WriteFailed || event is Shutdown),
{
}

/// A text frame that writes no operation is dropped and leaves the
/// connection open, so that later frames are still read.
pub proof fn lemma_malformed_frame_is_dropped(text: Seq<char>)
    requires
        decode_spec(text) is None,
    ensures
        ingress_step_spec(ConnectionState::Open, IncomingView::Text(text)) == (
            ConnectionState::Open,
            InboundView::Skip,
        ),
{
}

/// What one open connection writes for a published operation, every open
/// connection that reads it forwards as that same operation: the relay hands
/// operations on unchanged, to the sender as to everybody else.
pub proof fn lemma_relay_delivers(op: OperationView)
    requires
        op.index() <= usize::MAX,
    ensures
        egress_step_spec(ConnectionState::Open, BusEventView::Published(op)) == (
            ConnectionState::Open,
            OutboundView::Send(encode_spec(op)),
        ),
        ingress_step_spec(ConnectionState::Open, IncomingView::Text(encode_spec(op))) == (
            ConnectionState::Open,
            InboundView::Forward(op),
        ),
{
    lemma_round_trip(op);
}

} // verus!
