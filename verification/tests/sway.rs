use cbar::sway::{
    command_result, decode_event, event_type_of, frame_header, keeps_connection,
    needs_subscription, next_retry, parse_header, reply_payload, subscription_request,
    subscription_result, sway_socket_path, CommandOutcome, Error, Event, EventType, Frame, Input,
    InputChange, ModeEvent, Node, Subscription, SubscriptionAction, SubscriptionEvent,
    WorkspaceChange, WorkspaceEvent, EVENT_BIT, GET_INPUTS, GET_WORKSPACES, HEADER_LEN,
    MAX_FRAME_BYTES, MODE_EVENT, RECONNECT_MAX_MILLIS, RUN_COMMAND, WORKSPACE_EVENT,
};
use serde_json::Value;

fn node(value: &Value) -> Option<Node> {
    Some(Node {
        id: value.get("id")?.as_i64()?,
        num: value.get("num").and_then(Value::as_i64),
        name: value.get("name").and_then(Value::as_str).map(ToString::to_string),
        output: value.get("output").and_then(Value::as_str).map(ToString::to_string),
        visible: value.get("visible").and_then(Value::as_bool),
        focused: value.get("focused").and_then(Value::as_bool).unwrap_or(false),
        urgent: value.get("urgent").and_then(Value::as_bool).unwrap_or(false),
    })
}

/// Takes the fields of a workspace event that matter, and passes over the rest.
fn workspace_event(payload: &[u8]) -> Result<Event, String> {
    let value: Value = serde_json::from_slice(payload).map_err(|error| error.to_string())?;
    Ok(Event::Workspace(WorkspaceEvent {
        change: WorkspaceChange::from_wire(
            value.get("change").and_then(Value::as_str).unwrap_or_default(),
        ),
        current: value.get("current").and_then(node),
        old: value.get("old").and_then(node),
    }))
}

#[test]
fn protocol_header_bytes_match_i3_wire_format() {
    assert_eq!(
        frame_header(3, GET_WORKSPACES).expect("small frame should fit"),
        [b'i', b'3', b'-', b'i', b'p', b'c', 3, 0, 0, 0, 1, 0, 0, 0,]
    );
    assert!(matches!(
        frame_header(MAX_FRAME_BYTES + 1, RUN_COMMAND),
        Err(Error::FrameTooLarge { .. })
    ));
}

#[test]
fn fragmented_header_and_payload_are_reassembled() {
    let payload = br#"[{"id":7,"num":2,"name":"2:web","output":"DP-1"}]"#;
    let mut bytes = frame_header(payload.len(), GET_WORKSPACES)
        .expect("small frame should fit")
        .to_vec();
    bytes.extend_from_slice(payload);
    let received: Vec<u8> = bytes.chunks(3).flatten().copied().collect();
    let mut header = [0u8; HEADER_LEN];
    header.copy_from_slice(&received[..HEADER_LEN]);
    let (message_type, length) = parse_header(&header).expect("fragmented frame should decode");
    assert_eq!(message_type, GET_WORKSPACES);
    assert_eq!(&received[HEADER_LEN..HEADER_LEN + length], payload);
}

#[test]
fn oversized_frame_is_rejected_before_payload_allocation() {
    let mut header = frame_header(0, GET_INPUTS).expect("empty header should build");
    header[6..10].copy_from_slice(&((MAX_FRAME_BYTES as u32) + 1).to_le_bytes());
    assert!(matches!(
        parse_header(&header),
        Err(Error::FrameTooLarge { .. })
    ));
    header[0] = b'x';
    assert!(matches!(parse_header(&header), Err(Error::InvalidMagic)));
}

#[test]
fn run_command_preserves_exact_payload_and_reports_rejection() {
    let reply = Frame { message_type: RUN_COMMAND, payload: b"[]".to_vec() };
    assert_eq!(reply_payload(RUN_COMMAND, reply).expect("the right type"), b"[]");
    let outcome = CommandOutcome {
        success: false,
        parse_error: true,
        error: Some("bad command".to_string()),
    };
    assert!(matches!(
        command_result(&vec![outcome]),
        Err(Error::CommandRejected { reason }) if reason == "bad command"
    ));
    let good = || CommandOutcome { success: true, parse_error: false, error: None };
    assert!(command_result(&vec![good(), good()]).is_ok());
}

#[test]
fn malformed_and_wrong_type_command_responses_are_errors() {
    let reply = Frame {
        message_type: GET_INPUTS,
        payload: br#"[{"success":true}]"#.to_vec(),
    };
    let error = reply_payload(RUN_COMMAND, reply).expect_err("invalid response should fail");
    assert!(matches!(
        error,
        Error::UnexpectedMessageType { expected: RUN_COMMAND, actual: GET_INPUTS }
    ));
}

#[test]
fn scroll_workspace_event_ignores_orientation_layouts_and_unknown_fields() {
    let payload = br#"{
            "change":"focus",
            "current":{"id":17,"num":4,"name":"4:web","output":"eDP-1","focused":true,"visible":true,"urgent":false,"layout":"horizontal","nodes":[]},
            "old":{"id":9,"num":2,"name":"2:term","output":"eDP-1","focused":false,"visible":true,"urgent":false,"layout":"vertical","floating_nodes":[]},
            "scroll_extension":{"future":true}
        }"#;
    let Some(Event::Workspace(event)) =
        decode_event(WORKSPACE_EVENT, workspace_event(payload)).expect("event should decode")
    else {
        panic!("expected workspace event");
    };
    assert_eq!(event.change, WorkspaceChange::Focus);
    assert_eq!(event.current.expect("current workspace").id, 17);
    assert_eq!(event.old.expect("old workspace").id, 9);

    assert!(
        decode_event(EVENT_BIT | 127, workspace_event(b"not even json"))
            .expect("unknown event should be ignored")
            .is_none()
    );
}

#[test]
fn undecodable_events_name_what_they_are() {
    let error = decode_event(WORKSPACE_EVENT, workspace_event(b"not even json")).unwrap_err();
    assert!(matches!(
        error,
        Error::InvalidJson { context: "workspace event", .. }
    ));
    assert!(error.message().starts_with("invalid workspace event JSON from Sway: "));
    assert_eq!(event_type_of(MODE_EVENT), Some(EventType::Mode));
    let mode = ModeEvent { change: "resize".to_string(), pango_markup: false };
    assert!(matches!(
        decode_event(MODE_EVENT, Ok(Event::Mode(mode))),
        Ok(Some(Event::Mode(_)))
    ));
}

#[test]
fn subscription_reconnects_and_resubscribes_after_eof() {
    let mut subscription = Subscription::start(true, 0);
    assert_eq!(subscription.action(), SubscriptionAction::ReadEvent);
    subscription.step(SubscriptionEvent::Delivered);
    subscription.step(SubscriptionEvent::Disconnected);
    assert_eq!(
        subscription.action(),
        SubscriptionAction::WaitThenReconnect { millis: 0 }
    );
    subscription.step(SubscriptionEvent::Reconnected);
    assert_eq!(subscription.action(), SubscriptionAction::ReadEvent);
}

#[test]
fn adding_listeners_preserves_healthy_per_type_subscriptions() {
    let running = [true, false, false];
    assert!(!needs_subscription(&running, EventType::Workspace));
    assert!(needs_subscription(&running, EventType::Input));
    assert!(needs_subscription(&running, EventType::Mode));
}

#[test]
fn failed_request_is_not_retried_and_next_operation_reconnects() {
    assert!(keeps_connection(&Ok(())));
    assert!(!keeps_connection::<()>(&Err(Error::Io("reply lost".to_string()))));
    assert!(keeps_connection::<()>(&Err(Error::CommandRejected {
        reason: "bad".to_string()
    })));
}

#[test]
fn pending_connector_is_bounded_for_requests_and_subscriptions() {
    let timeout = Error::RequestTimeout { operation: "input request", millis: 10 };
    assert_eq!(timeout.message(), "Sway IPC input request timed out after 10 ms");
    assert!(timeout.breaks_request_connection());
    let mut retry = 100;
    for _ in 0..20 {
        retry = next_retry(retry);
        assert!(retry <= RECONNECT_MAX_MILLIS);
    }
    assert_eq!(retry, RECONNECT_MAX_MILLIS);
}

#[test]
fn rejected_subscription_never_starts_event_loop() {
    assert!(matches!(
        subscription_result(false, Some("unsupported event".to_string())),
        Err(Error::SubscriptionRejected { reason }) if reason == "unsupported event"
    ));
    assert!(subscription_result(true, None).is_ok());
}

#[test]
fn a_subscription_asks_for_event_types_by_name() {
    let payload = subscription_request(&vec![EventType::Workspace, EventType::Input])
        .expect("names are written");
    assert_eq!(payload, br#"["workspace","input"]"#);
    assert_eq!(InputChange::from_wire("xkb_layout"), InputChange::XkbLayout);
    let input = Input { identifier: "k".to_string(), xkb_active_layout_name: None };
    assert!(input.xkb_active_layout_name.is_none());
}

#[test]
fn errors_are_told_in_words() {
    assert_eq!(Error::MissingSocket.message(), "SWAYSOCK is not set");
    assert!(matches!(sway_socket_path(None, Some(String::new())), Err(Error::MissingSocket)));
    let some = |text: &str| Some(text.to_string());
    assert_eq!(sway_socket_path(None, some("/s")).expect("a path"), "/s");
    assert_eq!(sway_socket_path(some("/c"), some("/s")).expect("a path"), "/s");
    assert_eq!(sway_socket_path(some("/c"), some("")).expect("a path"), "/c");
    assert!(matches!(sway_socket_path(some(""), None), Err(Error::MissingSocket)));
    assert_eq!(
        Error::FrameTooLarge { length: 9, max: 8 }.message(),
        "Sway IPC frame is 9 bytes; the limit is 8"
    );
    assert_eq!(
        Error::UnexpectedMessageType { expected: 1, actual: 2 }.message(),
        "Sway IPC replied with message type 2, expected 1"
    );
    assert_eq!(
        Error::Connect {
            path: "\"/run/s\"".to_string(),
            source: "refused".to_string()
        }
        .message(),
        "failed to connect to Sway IPC socket \"/run/s\": refused"
    );
}

#[test]
fn an_event_that_cannot_be_used_changes_nothing() {
    let mut subscription = Subscription::start(true, 100);
    subscription.step(SubscriptionEvent::Ignored);
    assert_eq!(subscription, Subscription::start(true, 100));
    subscription.step(SubscriptionEvent::Disconnected);
    subscription.step(SubscriptionEvent::ReconnectFailed);
    assert_eq!(
        subscription.action(),
        SubscriptionAction::WaitThenReconnect { millis: 200 }
    );
}
