use chorus_core::access::TokenGate;
use chorus_core::fanout::{BusEvent, EventBus, RecvOutcome};
use chorus_core::protocol::{
    ClientMessage, Connection, Inbound, Phase, ServerMessage,
};

fn authenticated_connection() -> (Connection, TokenGate) {
    let mut gate = TokenGate::new();
    gate.issue("secret".to_string(), 1000);
    let mut conn = Connection::new();
    let reply = conn.on_first_inbound(
        Inbound::Frame(ClientMessage::Auth {
            token: "secret".to_string(),
        }),
        &gate,
        500,
    );
    assert!(matches!(
        reply,
        Some(ServerMessage::AuthResult {
            success: true,
            error: None
        })
    ));
    assert!(matches!(conn.phase, Phase::Authenticated));
    (conn, gate)
}

#[test]
fn auth_with_valid_token_succeeds() {
    authenticated_connection();
}

#[test]
fn auth_with_wrong_token_closes() {
    let mut gate = TokenGate::new();
    gate.issue("secret".to_string(), 1000);
    let mut conn = Connection::new();
    let reply = conn.on_first_inbound(
        Inbound::Frame(ClientMessage::Auth {
            token: "wrong".to_string(),
        }),
        &gate,
        500,
    );
    match reply {
        Some(ServerMessage::AuthResult { success, error }) => {
            assert!(!success);
            assert_eq!(error.as_deref(), Some("Invalid or expired token"));
        }
        _ => panic!("expected an auth failure acknowledgment"),
    }
    assert!(matches!(conn.phase, Phase::Closed));
}

#[test]
fn auth_with_expired_token_closes() {
    let mut gate = TokenGate::new();
    gate.issue("secret".to_string(), 1000);
    let mut conn = Connection::new();
    let reply = conn.on_first_inbound(
        Inbound::Frame(ClientMessage::Auth {
            token: "secret".to_string(),
        }),
        &gate,
        1000,
    );
    assert!(matches!(
        reply,
        Some(ServerMessage::AuthResult { success: false, .. })
    ));
    assert!(matches!(conn.phase, Phase::Closed));
}

#[test]
fn first_message_must_be_auth() {
    let gate = TokenGate::new();
    let mut conn = Connection::new();
    let reply = conn.on_first_inbound(
        Inbound::Frame(ClientMessage::Subscribe {
            event: "x".to_string(),
        }),
        &gate,
        0,
    );
    match reply {
        Some(ServerMessage::AuthResult { success, error }) => {
            assert!(!success);
            assert_eq!(error.as_deref(), Some("First message must be Auth"));
        }
        _ => panic!("expected an auth failure acknowledgment"),
    }
    assert!(matches!(conn.phase, Phase::Closed));
}

#[test]
fn auth_timeout_closes_without_reply() {
    let gate = TokenGate::new();
    let mut conn = Connection::new();
    let reply = conn.on_first_inbound(Inbound::Failed, &gate, 0);
    assert!(reply.is_none());
    assert!(matches!(conn.phase, Phase::Closed));
    assert!(!matches!(conn.phase, Phase::Authenticated));
}

#[test]
fn token_single_validity() {
    let mut gate = TokenGate::new();
    gate.issue("token-one".to_string(), 1000);
    assert!(gate.validate("token-one", 500));
    gate.issue("token-two".to_string(), 1000);
    assert!(!gate.validate("token-one", 500), "the first token is invalidated");
    assert!(gate.validate("token-two", 500));
    gate.revoke();
    assert!(!gate.validate("token-two", 500));
}

fn bus_event(name: &str) -> BusEvent {
    BusEvent {
        event: name.to_string(),
        payload: "{}".to_string(),
    }
}

#[test]
fn subscribe_then_publish_yields_exactly_one_event_frame() {
    let (mut conn, _gate) = authenticated_connection();
    let dispatch = conn.on_message(Inbound::Frame(ClientMessage::Subscribe {
        event: "x".to_string(),
    }));
    assert!(dispatch.is_none());
    conn.on_bus_event(&bus_event("x"));
    match conn.next_outbound() {
        Some(ServerMessage::Event { event, payload }) => {
            assert_eq!(event, "x");
            assert_eq!(payload, "{}");
        }
        _ => panic!("expected exactly one event frame"),
    }
    assert!(conn.next_outbound().is_none(), "no second frame for one publish");
}

#[test]
fn unsubscribe_then_publish_yields_nothing() {
    let (mut conn, _gate) = authenticated_connection();
    conn.on_message(Inbound::Frame(ClientMessage::Subscribe {
        event: "x".to_string(),
    }));
    conn.on_message(Inbound::Frame(ClientMessage::Unsubscribe {
        event: "x".to_string(),
    }));
    conn.on_bus_event(&bus_event("x"));
    assert!(conn.next_outbound().is_none());
}

#[test]
fn unmatched_event_not_forwarded() {
    let (mut conn, _gate) = authenticated_connection();
    conn.on_message(Inbound::Frame(ClientMessage::Subscribe {
        event: "x".to_string(),
    }));
    conn.on_bus_event(&bus_event("y"));
    assert!(conn.next_outbound().is_none());
}

#[test]
fn malformed_frame_dropped_connection_stays_open() {
    let (mut conn, _gate) = authenticated_connection();
    let dispatch = conn.on_message(Inbound::Malformed);
    assert!(dispatch.is_none());
    assert!(matches!(conn.phase, Phase::Authenticated));
}

#[test]
fn repeated_auth_ignored() {
    let (mut conn, _gate) = authenticated_connection();
    let dispatch = conn.on_message(Inbound::Frame(ClientMessage::Auth {
        token: "anything".to_string(),
    }));
    assert!(dispatch.is_none());
    assert!(matches!(conn.phase, Phase::Authenticated));
}

#[test]
fn invoke_handed_to_dispatcher() {
    let (mut conn, _gate) = authenticated_connection();
    let dispatch = conn
        .on_message(Inbound::Frame(ClientMessage::Invoke {
            id: 42,
            command: "get_sessions".to_string(),
            args: "{}".to_string(),
        }))
        .expect("an invoke must be dispatched");
    assert_eq!(dispatch.id, 42);
    assert_eq!(dispatch.command, "get_sessions");
}

#[test]
fn invoke_correlation_under_reordered_completion() {
    let (mut conn, _gate) = authenticated_connection();
    // The slow invoke (id 1) finishes after the fast one (id 2).
    conn.on_invoke_done(2, Ok("\"fast\"".to_string()));
    conn.on_invoke_done(1, Err("slow failed".to_string()));
    match conn.next_outbound() {
        Some(ServerMessage::InvokeResult { id, result, error }) => {
            assert_eq!(id, 2);
            assert_eq!(result.as_deref(), Some("\"fast\""));
            assert!(error.is_none());
        }
        _ => panic!("expected the fast invoke's result first in FIFO order"),
    }
    match conn.next_outbound() {
        Some(ServerMessage::InvokeResult { id, result, error }) => {
            assert_eq!(id, 1);
            assert!(result.is_none());
            assert_eq!(error.as_deref(), Some("slow failed"));
        }
        _ => panic!("expected the slow invoke's result second"),
    }
    assert!(conn.next_outbound().is_none());
}

#[test]
fn fanout_subscriber_sees_only_later_events() {
    let mut bus = EventBus::new();
    bus.send("before".to_string(), "{}".to_string());
    let mut sub = bus.subscribe();
    assert!(matches!(sub.recv(&bus), RecvOutcome::Empty));
    bus.send("after".to_string(), "1".to_string());
    match sub.recv(&bus) {
        RecvOutcome::Event(e) => {
            assert_eq!(e.event, "after");
            assert_eq!(e.payload, "1");
        }
        _ => panic!("expected the event published after subscription"),
    }
    assert!(matches!(sub.recv(&bus), RecvOutcome::Empty));
}

#[test]
fn fanout_buffer_holds_exactly_its_capacity() {
    let mut bus = EventBus::new();
    for i in 0..1025 {
        bus.send(format!("e{}", i), "{}".to_string());
    }
    assert_eq!(bus.events.len(), 1024);
    assert_eq!(bus.events[0].event, "e1");
    assert_eq!(bus.events[1023].event, "e1024");
}

#[test]
fn invoke_args_passed_through_verbatim() {
    let (mut conn, _gate) = authenticated_connection();
    let dispatch = conn
        .on_message(Inbound::Frame(ClientMessage::Invoke {
            id: 9,
            command: "read_file_content".to_string(),
            args: "{\"path\":\"/tmp/x\"}".to_string(),
        }))
        .unwrap();
    assert_eq!(dispatch.args, "{\"path\":\"/tmp/x\"}");
}

#[test]
fn fanout_slow_subscriber_told_how_much_it_lost() {
    let mut bus = EventBus::new();
    let mut sub = bus.subscribe();
    for i in 0..1030 {
        bus.send(format!("e{}", i), "{}".to_string());
    }
    match sub.recv(&bus) {
        RecvOutcome::Lagged(n) => assert_eq!(n, 6),
        _ => panic!("expected a lag signal after the buffer wrapped"),
    }
    match sub.recv(&bus) {
        RecvOutcome::Event(e) => assert_eq!(e.event, "e6"),
        _ => panic!("expected the oldest event still buffered"),
    }
}
