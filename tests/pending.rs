use unimozer_next::messages::{frame_fields, notification_message, request_message};
use unimozer_next::pending::{is_diagnostics_method, Delivery, PendingRequests};

#[test]
fn reverse_order_responses_reach_their_own_callers() {
    let mut table: PendingRequests<&str> = PendingRequests::new();
    let a = table.register("first").unwrap();
    let b = table.register("second").unwrap();
    let c = table.register("third").unwrap();
    assert_eq!((a, b, c), (1, 2, 3));
    assert!(matches!(table.dispatch(Some(c), None), Delivery::Response("third")));
    assert!(matches!(table.dispatch(Some(b), None), Delivery::Response("second")));
    assert!(matches!(table.dispatch(Some(a), None), Delivery::Response("first")));
    assert_eq!(table.in_flight(), 0);
}

#[test]
fn timed_out_slot_is_freed_and_late_response_dropped() {
    let mut table: PendingRequests<u32> = PendingRequests::new();
    let id = table.register(10).unwrap();
    assert_eq!(table.resolve(id), Some(10));
    assert_eq!(table.in_flight(), 0);
    let next = table.register(20).unwrap();
    assert_ne!(next, id);
    assert!(matches!(table.dispatch(Some(id), None), Delivery::Dropped));
    assert_eq!(table.in_flight(), 1);
}

#[test]
fn notifications_never_touch_pending_requests() {
    let mut table: PendingRequests<u32> = PendingRequests::new();
    table.register(1).unwrap();
    assert!(matches!(
        table.dispatch(None, Some("textDocument/publishDiagnostics")),
        Delivery::Diagnostics
    ));
    assert!(matches!(table.dispatch(None, Some("window/logMessage")), Delivery::Dropped));
    assert!(matches!(table.dispatch(None, None), Delivery::Dropped));
    assert_eq!(table.in_flight(), 1);
    assert!(is_diagnostics_method("textDocument/publishDiagnostics"));
    assert!(!is_diagnostics_method("textDocument/publishDiagnostic"));
}

#[test]
fn envelopes_and_fields_round_trip() {
    let req = request_message(7, "initialize", serde_json::Value::Null);
    assert_eq!(req.get("jsonrpc"), Some(&serde_json::Value::from("2.0")));
    assert_eq!(req.get("id"), Some(&serde_json::Value::from(7u64)));
    let fields = frame_fields(&req);
    assert_eq!(fields.id, Some(7));
    assert_eq!(fields.method.as_deref(), Some("initialize"));
    let note = notification_message("exit", serde_json::Value::Null);
    assert!(note.get("id").is_none());
    let fields = frame_fields(&note);
    assert_eq!(fields.id, None);
    assert_eq!(fields.method.as_deref(), Some("exit"));
}

#[test]
fn envelopes_hold_exactly_their_members() {
    let mut params = serde_json::Map::new();
    params.insert("k".to_string(), serde_json::Value::from(1u64));
    let params = serde_json::Value::Object(params);
    let req = request_message(3, "textDocument/formatting", params.clone());
    assert_eq!(req.as_object().map(|m| m.len()), Some(4));
    assert_eq!(req.get("method"), Some(&serde_json::Value::from("textDocument/formatting")));
    assert_eq!(req.get("params"), Some(&params));
    let note = notification_message("initialized", params.clone());
    assert_eq!(note.as_object().map(|m| m.len()), Some(3));
    assert_eq!(unimozer_next::messages::frame_params(&note), Some(&params));
    assert_eq!(unimozer_next::messages::frame_params(&serde_json::Value::Null), None);
}
