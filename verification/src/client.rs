//! The decisions of a sync client: where it connects to, what its two
//! background tasks do with what they are handed, and what a caller is told
//! once a queue has been closed.

use url::{ParseError, Url};
use vstd::prelude::*;
use vstd::string::StringExecFns;
use crate::data::{Operation, OperationView};
use crate::errors::CollaboriError;
use crate::sync::{receive, receive_spec, Inbound, Incoming, IncomingView, InboundView, Outbound,
    OutboundView};
use crate::wire::{encode_spec, lemma_round_trip, serialize};

verus! {

/// How many operations each of the two queues of a client holds.
pub const QUEUE_CAPACITY: usize = 100;

/// What a relay address is prefixed with to form its URL.
pub const WS_SCHEME: &'static str = "ws://";

/// `url::ParseError`, carried through as an opaque value.
#[verifier::external_type_specification]
#[verifier::external_body]
pub struct ExParseError(ParseError);

/// The normalised text of the URL that `input` writes, by `url::Url::parse`
/// and `url::Url::as_str`; nothing when `input` writes no absolute URL.
pub uninterp spec fn url_text(input: Seq<char>) -> Option<Seq<char>>;

/// Parses `input` with `url::Url::parse` and returns the text of the URL as
/// `url::Url::as_str` gives it, or the parser's error. The contract names
/// the result [`url_text`] and claims nothing more of it.
#[verifier::external_body]
fn parse_url(input: &str) -> (r: Result<String, ParseError>)
    ensures
        match r {
            Ok(text) => url_text(input@) == Some(text@),
            Err(_) => url_text(input@) is None,
        },
{
    match Url::parse(input) {
        Ok(url) => Ok(url.as_str().to_owned()),
        Err(e) => Err(e),
    }
}

/// The text that is parsed as the URL of the relay at `addr`.
pub open spec fn ws_address(addr: Seq<char>) -> Seq<char> {
    WS_SCHEME@ + addr
}

/// Turns the outcome of parsing a relay URL into the endpoint to connect to:
/// the URL's text, or `TransportError` when the parser refused it.
pub fn endpoint_from(parsed: Result<String, ParseError>) -> (r: Result<String, CollaboriError>)
    ensures
        match (parsed, r) {
            (Ok(text), Ok(endpoint)) => endpoint@ == text@,
            (Err(_), Err(e)) => e == CollaboriError::TransportError,
            _ => false,
        },
{
    match parsed {
        Ok(text) => Ok(text),
        Err(_) => Err(CollaboriError::TransportError),
    }
}

/// The WebSocket endpoint of the relay at `addr`, which has the form
/// `host:port`: the URL written by `ws://` followed by `addr`. Fails with
/// `TransportError` exactly when that text is no URL.
pub fn websocket_url(addr: &str) -> (r: Result<String, CollaboriError>)
    ensures
        match r {
            Ok(endpoint) => url_text(ws_address(addr@)) == Some(endpoint@),
            Err(e) => e == CollaboriError::TransportError && url_text(ws_address(addr@)) is None,
        },
{
    let text = WS_SCHEME.to_owned().concat(addr);
    endpoint_from(parse_url(text.as_str()))
}

/// What the writing task of a client is told.
#[derive(Debug)]
pub enum WriterEvent {
    /// The outbound queue handed over the next operation.
    Dequeued(Operation),
    /// The outbound queue was closed: the handle is gone.
    QueueClosed,
    /// Writing the last frame to the socket failed.
    WriteFailed,
}

/// The mathematical value of a [`WriterEvent`].
pub enum WriterEventView {
    Dequeued(OperationView),
    QueueClosed,
    WriteFailed,
}

impl View for WriterEvent {
    type V = WriterEventView;

    open spec fn view(&self) -> WriterEventView {
        match self {
            WriterEvent::Dequeued(op) => WriterEventView::Dequeued(op@),
            WriterEvent::QueueClosed => WriterEventView::QueueClosed,
            WriterEvent::WriteFailed => WriterEventView::WriteFailed,
        }
    }
}

/// What the writing task does: an operation taken from the outbound queue is
/// sent as its wire text; the task ends when the queue is closed or a write
/// has failed.
pub open spec fn writer_step_spec(event: WriterEventView) -> OutboundView {
    match event {
        WriterEventView::Dequeued(op) => OutboundView::Send(encode_spec(op)),
        WriterEventView::QueueClosed => OutboundView::Stop,
        WriterEventView::WriteFailed => OutboundView::Stop,
    }
}

/// Decides the next action of the writing task.
pub fn writer_step(event: &WriterEvent) -> (r: Outbound)
    ensures
        r@ == writer_step_spec(event@),
        !(r@ is Skip),
{
    match event {
        WriterEvent::Dequeued(op) => Outbound::Send(serialize(op)),
        WriterEvent::QueueClosed => Outbound::Stop,
        WriterEvent::WriteFailed => Outbound::Stop,
    }
}

/// Decides the next action of the reading task: an operation is put on the
/// inbound queue, anything unreadable is dropped, and a close frame, a
/// failed read, the end of the stream or a shutdown ends the task.
pub fn reader_step(incoming: &Incoming) -> (r: Inbound)
    ensures
        r@ == receive_spec(incoming@),
{
    receive(incoming)
}

/// What a caller of `send` is told: success when the outbound queue took
/// the operation, `Disconnected` when the writing task has stopped and the
/// queue is closed.
pub fn send_outcome(accepted: bool) -> (r: Result<(), CollaboriError>)
    ensures
        r == if accepted {
            Ok::<(), CollaboriError>(())
        } else {
            Err::<(), CollaboriError>(CollaboriError::Disconnected)
        },
{
    if accepted {
        Ok(())
    } else {
        Err(CollaboriError::Disconnected)
    }
}

/// What one client writes for an operation, another client's reading task
/// delivers as that same operation.
pub proof fn lemma_client_round_trip(op: OperationView)
    requires
        op.index() <= usize::MAX,
    ensures
        writer_step_spec(WriterEventView::Dequeued(op)) == OutboundView::Send(encode_spec(op)),
        receive_spec(IncomingView::Text(encode_spec(op))) == InboundView::Forward(op),
{
    lemma_round_trip(op);
}

} // verus!
