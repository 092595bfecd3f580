use collabori::client::{
    endpoint_from, reader_step, send_outcome, websocket_url, writer_step, WriterEvent,
    QUEUE_CAPACITY, WS_SCHEME,
};
use collabori::data::Operation;
use collabori::errors::CollaboriError;
use collabori::sync::{Inbound, Incoming, Outbound};
use collabori::wire::serialize;

#[test]
fn queues_hold_a_hundred_operations() {
    assert_eq!(QUEUE_CAPACITY, 100);
    assert_eq!(WS_SCHEME, "ws://");
}

#[test]
fn address_becomes_a_websocket_url() {
    assert_eq!(websocket_url("127.0.0.1:9001"), Ok("ws://127.0.0.1:9001/".to_string()));
    assert_eq!(websocket_url("localhost:9002"), Ok("ws://localhost:9002/".to_string()));
    assert_eq!(websocket_url("EXAMPLE.org:80"), Ok("ws://example.org/".to_string()));
    assert_eq!(websocket_url("example.org:8080/path"), Ok("ws://example.org:8080/path".to_string()));
}

#[test]
fn address_that_writes_no_url_is_a_transport_error() {
    assert_eq!(websocket_url(""), Err(CollaboriError::TransportError));
    assert_eq!(websocket_url("host:notaport"), Err(CollaboriError::TransportError));
    assert_eq!(websocket_url("host:99999"), Err(CollaboriError::TransportError));
}

#[test]
fn endpoint_follows_the_outcome_of_parsing() {
    assert_eq!(endpoint_from(Ok("ws://h:1/".to_string())), Ok("ws://h:1/".to_string()));
    let refused = url::Url::parse("no scheme").unwrap_err();
    assert_eq!(endpoint_from(Err(refused)), Err(CollaboriError::TransportError));
}

#[test]
fn writer_sends_what_it_dequeues_and_stops_otherwise() {
    let op = Operation::Delete { index: 2, id: "1".into() };
    assert_eq!(
        writer_step(&WriterEvent::Dequeued(op)),
        Outbound::Send("{\"Delete\":{\"index\":2,\"id\":\"1\"}}".into())
    );
    assert_eq!(writer_step(&WriterEvent::QueueClosed), Outbound::Stop);
    assert_eq!(writer_step(&WriterEvent::WriteFailed), Outbound::Stop);
}

#[test]
fn reader_delivers_operations_and_stops_on_close() {
    let op = Operation::Insert { index: 1, value: 'b', id: "2".into() };
    assert_eq!(reader_step(&Incoming::Text(serialize(&op))), Inbound::Forward(op));
    assert_eq!(reader_step(&Incoming::Text("{".into())), Inbound::Skip);
    assert_eq!(reader_step(&Incoming::Other), Inbound::Skip);
    assert_eq!(reader_step(&Incoming::Close), Inbound::Close);
    assert_eq!(reader_step(&Incoming::Failed), Inbound::Close);
    assert_eq!(reader_step(&Incoming::End), Inbound::Close);
    assert_eq!(reader_step(&Incoming::Shutdown), Inbound::Close);
}

#[test]
fn what_one_client_writes_another_reads() {
    let op = Operation::Insert { index: 1, value: 'b', id: "2".into() };
    match writer_step(&WriterEvent::Dequeued(op.clone())) {
        Outbound::Send(text) => assert_eq!(reader_step(&Incoming::Text(text)), Inbound::Forward(op)),
        other => panic!("{:?}", other),
    }
}

#[test]
fn send_on_a_closed_queue_is_disconnected() {
    assert_eq!(send_outcome(true), Ok(()));
    assert_eq!(send_outcome(false), Err(CollaboriError::Disconnected));
}

#[test]
fn errors_describe_themselves() {
    assert_eq!(CollaboriError::SerializationError.message(), "Serialization error");
    assert_eq!(CollaboriError::TransportError.message(), "Transport error");
    assert_eq!(CollaboriError::IndexOutOfRange.message(), "Index out of range");
    assert_eq!(CollaboriError::OperationNotFound.message(), "Operation not found");
    assert_eq!(CollaboriError::ConflictDetected.message(), "Conflict detected");
    assert_eq!(CollaboriError::Disconnected.message(), "Disconnected");
}
