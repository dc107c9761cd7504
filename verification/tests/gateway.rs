use tyclaw::gateway::config::{
    default_upstream, describe_bad_weights, reload_routing, resolve_label_by_weight, sum_weights, RoutingConfig,
    ServerConfig,
};
use tyclaw::gateway::downstream::{
    choose_backend, envelope, is_heartbeat, new_backend_id, send_maintenance_reply, wait_register,
    Backend, Dispatch, DownstreamManager, ReadyEvent,
};
use tyclaw::gateway::upstream::{
    ack_text, connection_url, incoming, open_request_body, reconnect_delay_secs, start_delay_ms,
    IncomingMessage, StreamFrame,
};
use tyclaw::json::{object2, text_value, Json};

fn weights(w: &[(&str, u32)]) -> Vec<(String, u32)> {
    w.iter().map(|(l, n)| (l.to_string(), *n)).collect()
}

fn weighted(w: &[(&str, u32)]) -> RoutingConfig {
    RoutingConfig { mode: "weight".into(), weights: weights(w), ..Default::default() }
}

#[test]
fn shares_have_to_come_to_a_hundred() {
    assert_eq!(sum_weights(&weights(&[("a", 30), ("b", 70)])), 100);
    assert!(reload_routing(weighted(&[("a", 30), ("b", 70)])).is_ok());
    assert_eq!(reload_routing(weighted(&[("a", 30), ("b", 60)])).unwrap_err(), 90);
    assert!(reload_routing(weighted(&[])).is_ok());
    assert_eq!(
        describe_bad_weights(90, "{\"a\": 30, \"b\": 60}"),
        "routing.weights must sum to 100, got 90 (weights: {\"a\": 30, \"b\": 60})"
    );
}

#[test]
fn shares_are_as_large_as_their_weights() {
    let w = weights(&[("b", 70), ("a", 30)]);
    let hits = (0..100u32)
        .filter(|n| resolve_label_by_weight(&w, *n).as_deref() == Some("a"))
        .count();
    assert_eq!(hits, 30);
    assert_eq!(resolve_label_by_weight(&w, 0).as_deref(), Some("a"));
    assert_eq!(resolve_label_by_weight(&w, 29).as_deref(), Some("a"));
    assert_eq!(resolve_label_by_weight(&w, 30).as_deref(), Some("b"));
    assert_eq!(resolve_label_by_weight(&w, 100), None);
}

#[test]
fn defaults_of_the_gateway() {
    assert_eq!(default_upstream(), 30);
    let s = ServerConfig::default();
    assert_eq!(s.listen_addr, "0.0.0.0:9100");
    assert_eq!(s.ready_wait_secs, 10);
}

fn backends() -> Vec<Backend> {
    vec![
        Backend { id: "1".into(), label: "rust".into() },
        Backend { id: "2".into(), label: "python".into() },
    ]
}

#[test]
fn the_route_table_comes_first() {
    let r = RoutingConfig {
        mode: "route_table".into(),
        default: "rust".into(),
        rules: vec![("alice".to_string(), "python".to_string())],
        weights: vec![],
    };
    assert_eq!(choose_backend(&backends(), &r, "alice", 0), Some(1));
    assert_eq!(choose_backend(&backends(), &r, "bob", 0), Some(0));
    assert_eq!(choose_backend(&vec![], &r, "bob", 0), None);
}

#[test]
fn weights_choose_by_hash() {
    let r = weighted(&[("python", 50), ("rust", 50)]);
    assert_eq!(choose_backend(&backends(), &r, "x", 10), Some(1));
    assert_eq!(choose_backend(&backends(), &r, "x", 160), Some(0));
}

fn message() -> IncomingMessage {
    IncomingMessage {
        data: "{}".into(),
        message_id: "m".into(),
        conversation_id: "c".into(),
        sender_id: "alice".into(),
        conn_id: 1,
        topic: "t".into(),
    }
}

fn early() -> IncomingMessage {
    IncomingMessage {
        data: "{\"sessionWebhook\":\"https://w\"}".into(),
        message_id: "early".into(),
        ..message()
    }
}

#[test]
fn messages_wait_until_instances_have_settled() {
    let mut d = DownstreamManager::new(10, RoutingConfig::default());
    assert!(!d.is_ready());
    match d.dispatch(early()) {
        Dispatch::Maintenance { reply } => assert_eq!(reply.unwrap().0, "https://w"),
        Dispatch::Send { .. } => panic!("sent"),
    }
    assert!(d.handle_backend("1".into(), "rust".into()).is_empty());
    assert!(d.wait_ready(ReadyEvent::BackendConnected).is_empty());
    assert!(!d.is_ready());
    let released = d.wait_ready(ReadyEvent::WaitedLongEnough);
    assert_eq!(released.len(), 1);
    assert_eq!(released[0].message_id, "early");
    assert!(d.is_ready());
    match d.dispatch(message()) {
        Dispatch::Send { backend, envelope: e } => {
            assert_eq!(backend, 0);
            assert_eq!(e, envelope(&message()));
        }
        Dispatch::Maintenance { .. } => panic!("not sent"),
    }
    assert_eq!(d.handle_backend("2".into(), "rust".into()), vec!["1".to_string()]);
    assert_eq!(d.backends.len(), 1);
    d.remove_backend("2");
    assert!(matches!(d.dispatch(message()), Dispatch::Maintenance { reply: None }));
    assert!(d.held.is_empty());
}

#[test]
fn instances_register() {
    assert_eq!(
        wait_register("{\"type\":\"register\",\"label\":\"rust\"}").as_deref(),
        Some("rust")
    );
    assert_eq!(wait_register("{\"type\":\"hello\"}"), None);
    assert_eq!(wait_register("junk"), None);
    assert!(is_heartbeat("{\"type\":\"heartbeat\"}"));
    assert!(!is_heartbeat("{\"type\":\"register\"}"));
    let id = new_backend_id();
    assert!(id.starts_with("tyclaw-") && id.len() == 15);
    assert_ne!(id, new_backend_id());
}

#[test]
fn senders_are_told_of_maintenance() {
    let (url, body) =
        send_maintenance_reply("{\"sessionWebhook\":\"https://w\"}").expect("an address");
    assert_eq!(url, "https://w");
    assert!(body.render().contains("请耐心等待"));
    assert!(send_maintenance_reply("{}").is_none());
}

#[test]
fn envelopes_are_exact() {
    assert_eq!(
        envelope(&message()),
        "{\"conversation_id\":\"c\",\"data\":\"{}\",\"message_id\":\"m\",\"sender_id\":\"alice\",\"type\":\"message\"}"
    );
}

#[test]
fn frames_become_messages() {
    let frame = StreamFrame {
        spec_version: None,
        frame_type: Some("CALLBACK".into()),
        headers: Some(object2("messageId", text_value("m1"), "topic", text_value("/t"))),
        data: Some("{\"conversationId\":\"c1\",\"senderStaffId\":\"s1\",\"senderId\":\"x\"}".into()),
    };
    let m = incoming(frame, 7).expect("a message");
    assert_eq!(m.message_id, "m1");
    assert_eq!(m.topic, "/t");
    assert_eq!(m.conversation_id, "c1");
    assert_eq!(m.sender_id, "s1");
    assert_eq!(m.conn_id, 7);
    let empty = StreamFrame { spec_version: None, frame_type: None, headers: None, data: None };
    assert!(incoming(empty, 0).is_none());
}

#[test]
fn connections_are_opened() {
    assert_eq!(connection_url("wss://e", "tk"), "wss://e?ticket=tk");
    assert_eq!(
        ack_text("m1"),
        "{\"code\":200,\"headers\":{\"contentType\":\"application/json\",\"messageId\":\"m1\"},\"message\":\"OK\",\"data\":\"{}\"}"
    );
    let body = open_request_body("id", "secret");
    assert_eq!(body.get_text("clientId"), Some("id"));
    match body.get("subscriptions") {
        Some(Json::List(l)) => assert_eq!(l.len(), 2),
        _ => panic!("no subscriptions"),
    }
    assert!(start_delay_ms(2) >= start_delay_ms(1));
    assert!(reconnect_delay_secs(0) > 0);
}
