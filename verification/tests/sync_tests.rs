use collabori::data::Operation;
use collabori::sync::{
    egress_step, ingress_step, receive, server_step, BusEvent, ConnectionState, Inbound, Incoming,
    Outbound, ServerAction, ServerEvent, ServerPhase, BROADCAST_CAPACITY, CONFIRMATION_CAPACITY,
    SHUTDOWN_CAPACITY,
};
use collabori::wire::serialize;
use std::collections::VecDeque;

fn ins(index: usize, value: char, id: &str) -> Operation {
    Operation::Insert { index, value, id: id.into() }
}

#[test]
fn capacities_have_their_reference_values() {
    assert_eq!(BROADCAST_CAPACITY, 100);
    assert_eq!(SHUTDOWN_CAPACITY, 1);
    assert_eq!(CONFIRMATION_CAPACITY, 1);
}

#[test]
fn server_walks_through_its_phases() {
    let (p, a) = server_step(ServerPhase::Created, ServerEvent::Started);
    assert_eq!((p, a), (ServerPhase::Listening, ServerAction::Accept));
    let (p, a) = server_step(p, ServerEvent::Accepted);
    assert_eq!((p, a), (ServerPhase::Listening, ServerAction::Serve));
    let (p, a) = server_step(p, ServerEvent::Accepted);
    assert_eq!((p, a), (ServerPhase::Listening, ServerAction::Serve));
    let (p, a) = server_step(p, ServerEvent::ShutdownRequested);
    assert_eq!((p, a), (ServerPhase::Draining, ServerAction::StopAccepting));
    let (p, a) = server_step(p, ServerEvent::AcceptLoopExited);
    assert_eq!((p, a), (ServerPhase::Stopped, ServerAction::Confirm));
}

#[test]
fn server_ignores_events_that_do_not_belong_to_its_phase() {
    let phases =
        [ServerPhase::Created, ServerPhase::Listening, ServerPhase::Draining, ServerPhase::Stopped];
    let events = [
        ServerEvent::Started,
        ServerEvent::Accepted,
        ServerEvent::ShutdownRequested,
        ServerEvent::AcceptLoopExited,
    ];
    let mut moves = 0;
    let mut confirmations = 0;
    for p in phases {
        for e in events {
            let (next, action) = server_step(p, e);
            if action == ServerAction::Nothing {
                assert_eq!(next, p);
            } else {
                moves += 1;
            }
            if action == ServerAction::Confirm {
                confirmations += 1;
                assert_eq!(next, ServerPhase::Stopped);
            }
        }
    }
    assert_eq!(moves, 4);
    assert_eq!(confirmations, 1);
    assert_eq!(
        server_step(ServerPhase::Stopped, ServerEvent::Started),
        (ServerPhase::Stopped, ServerAction::Nothing)
    );
    assert_eq!(
        server_step(ServerPhase::Draining, ServerEvent::Accepted),
        (ServerPhase::Draining, ServerAction::Nothing)
    );
    assert_eq!(
        server_step(ServerPhase::Created, ServerEvent::ShutdownRequested),
        (ServerPhase::Created, ServerAction::Nothing)
    );
    assert_eq!(
        server_step(ServerPhase::Draining, ServerEvent::ShutdownRequested),
        (ServerPhase::Draining, ServerAction::Nothing)
    );
}

#[test]
fn a_valid_text_frame_is_forwarded() {
    let op = ins(0, 'a', "1");
    let frame = Incoming::Text(serialize(&op));
    assert_eq!(receive(&frame), Inbound::Forward(op.clone()));
    let (state, action) = ingress_step(ConnectionState::Open, &frame);
    assert_eq!(state, ConnectionState::Open);
    assert_eq!(action, Inbound::Forward(op));
}

#[test]
fn scenario_malformed_frame_is_dropped_and_the_connection_stays_open() {
    let (state, action) =
        ingress_step(ConnectionState::Open, &Incoming::Text("this is not an operation".into()));
    assert_eq!(state, ConnectionState::Open);
    assert_eq!(action, Inbound::Skip);
    let op = ins(1, 'b', "2");
    let (state, action) = ingress_step(state, &Incoming::Text(serialize(&op)));
    assert_eq!(state, ConnectionState::Open);
    assert_eq!(action, Inbound::Forward(op));
}

#[test]
fn frames_that_are_not_text_are_ignored() {
    assert_eq!(
        ingress_step(ConnectionState::Open, &Incoming::Other),
        (ConnectionState::Open, Inbound::Skip)
    );
}

#[test]
fn close_failure_and_end_close_the_connection() {
    for incoming in [Incoming::Close, Incoming::Failed, Incoming::End, Incoming::Shutdown] {
        assert_eq!(
            ingress_step(ConnectionState::Open, &incoming),
            (ConnectionState::Closed, Inbound::Close)
        );
    }
}

#[test]
fn a_closed_connection_stays_closed() {
    let op = ins(0, 'a', "1");
    for incoming in [
        Incoming::Text(serialize(&op)),
        Incoming::Other,
        Incoming::Close,
        Incoming::Failed,
        Incoming::End,
        Incoming::Shutdown,
    ] {
        assert_eq!(
            ingress_step(ConnectionState::Closed, &incoming),
            (ConnectionState::Closed, Inbound::Skip)
        );
    }
    for event in [
        BusEvent::Published(op.clone()),
        BusEvent::Lagged,
        BusEvent::Closed,
        BusEvent::WriteFailed,
        BusEvent::Shutdown,
    ] {
        assert_eq!(
            egress_step(ConnectionState::Closed, &event),
            (ConnectionState::Closed, Outbound::Stop)
        );
    }
}

#[test]
fn a_published_operation_is_sent_as_its_wire_text() {
    let op = ins(1, 'b', "2");
    let (state, action) = egress_step(ConnectionState::Open, &BusEvent::Published(op));
    assert_eq!(state, ConnectionState::Open);
    assert_eq!(
        action,
        Outbound::Send("{\"Insert\":{\"index\":1,\"value\":\"b\",\"id\":\"2\"}}".into())
    );
}

#[test]
fn lost_operations_are_passed_over() {
    assert_eq!(
        egress_step(ConnectionState::Open, &BusEvent::Lagged),
        (ConnectionState::Open, Outbound::Skip)
    );
}

#[test]
fn the_writing_side_stops_when_the_bus_or_the_socket_is_gone() {
    for event in [BusEvent::Closed, BusEvent::WriteFailed, BusEvent::Shutdown] {
        assert_eq!(
            egress_step(ConnectionState::Open, &event),
            (ConnectionState::Closed, Outbound::Stop)
        );
    }
}

/// Runs the decisions of a relay with the given number of connections over
/// an in-memory bus, and returns what each connection was sent.
fn relay(connections: usize, frames: Vec<(usize, Incoming)>) -> Vec<Vec<String>> {
    let mut states = vec![ConnectionState::Open; connections];
    let mut sent: Vec<Vec<String>> = vec![Vec::new(); connections];
    let mut bus: VecDeque<Operation> = VecDeque::new();
    for (from, frame) in frames {
        let (next, action) = ingress_step(states[from], &frame);
        states[from] = next;
        if let Inbound::Forward(op) = action {
            bus.push_back(op);
        }
        while let Some(op) = bus.pop_front() {
            for to in 0..connections {
                let (next, action) = egress_step(states[to], &BusEvent::Published(op.clone()));
                states[to] = next;
                if let Outbound::Send(text) = action {
                    sent[to].push(text);
                }
            }
        }
    }
    sent
}

#[test]
fn scenario_relay_broadcasts_to_every_connection_and_the_sender() {
    let op1 = ins(0, 'a', "1");
    let op2 = ins(1, 'b', "2");
    let alone = relay(1, vec![(0, Incoming::Text(serialize(&op1)))]);
    assert_eq!(alone, vec![vec![serialize(&op1)]]);
    let both = relay(
        2,
        vec![
            (0, Incoming::Text(serialize(&op2))),
            (1, Incoming::Text("garbage".into())),
            (1, Incoming::Close),
            (0, Incoming::Text(serialize(&op1))),
        ],
    );
    assert_eq!(both[0], vec![serialize(&op2), serialize(&op1)]);
    assert_eq!(both[1], vec![serialize(&op2)]);
    assert_eq!(collabori::wire::deserialize(&both[1][0]), Ok(op2));
}
