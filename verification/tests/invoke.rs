use node_tools::invoke::{InvokeAction, InvokeEvent, InvokeStep, ToolInvocation, INVOKE_TIMEOUT_SECS};

fn params() -> serde_json::Value {
    let mut m = serde_json::Map::new();
    m.insert("scheme".to_string(), serde_json::Value::String("MyApp".to_string()));
    serde_json::Value::Object(m)
}

fn start() -> ToolInvocation {
    ToolInvocation::new("n1".to_string(), "build".to_string(), "inv-1".to_string(), params())
}

fn fail_message(a: InvokeAction) -> (String, bool) {
    match a {
        InvokeAction::Fail { message, drop_pending } => (message, drop_pending),
        _ => panic!("expected a failure"),
    }
}

#[test]
fn invocation_succeeds_after_reply() {
    let mut inv = start();
    match inv.handle(InvokeEvent::NodeFound("conn-7".to_string())) {
        InvokeAction::Send { conn_id, event, invoke_id, command, args } => {
            assert_eq!(conn_id, "conn-7");
            assert_eq!(event, "node.invoke.request");
            assert_eq!(invoke_id, "inv-1");
            assert_eq!(command, "build");
            assert_eq!(args, params());
        },
        _ => panic!("expected a send"),
    }
    match inv.handle(InvokeEvent::Sent) {
        InvokeAction::AwaitReply { invoke_id, timeout_secs } => {
            assert_eq!(invoke_id, "inv-1");
            assert_eq!(timeout_secs, 300);
        },
        _ => panic!("expected a wait"),
    }
    assert!(matches!(inv.handle(InvokeEvent::Replied), InvokeAction::Finish));
    assert_eq!(inv.step, InvokeStep::Done);
    assert_eq!(INVOKE_TIMEOUT_SECS, 300);
}

#[test]
fn invocation_offline_node() {
    let mut inv = ToolInvocation::new(
        "abc-123".to_string(),
        "build".to_string(),
        "inv-2".to_string(),
        serde_json::Value::Null,
    );
    let (m, drop) = fail_message(inv.handle(InvokeEvent::NodeMissing));
    assert_eq!(m, "Node 'abc-123' is offline. Tool unavailable.");
    assert!(!drop);
    assert_eq!(inv.step, InvokeStep::Done);
}

#[test]
fn invocation_delivery_failures() {
    let mut inv = start();
    inv.handle(InvokeEvent::NodeFound("c".to_string()));
    assert_eq!(fail_message(inv.handle(InvokeEvent::ClientMissing)).0, "node connection lost");

    let mut inv = start();
    inv.handle(InvokeEvent::NodeFound("c".to_string()));
    assert_eq!(
        fail_message(inv.handle(InvokeEvent::SendFailed)).0,
        "failed to send tool invoke to node"
    );
}

#[test]
fn invocation_cancelled_and_timed_out() {
    let mut inv = start();
    inv.handle(InvokeEvent::NodeFound("c".to_string()));
    inv.handle(InvokeEvent::Sent);
    assert_eq!(
        fail_message(inv.handle(InvokeEvent::Cancelled)),
        ("node tool invoke cancelled".to_string(), false)
    );

    let mut inv = start();
    inv.handle(InvokeEvent::NodeFound("c".to_string()));
    inv.handle(InvokeEvent::Sent);
    assert_eq!(
        fail_message(inv.handle(InvokeEvent::TimedOut)),
        ("node tool invoke timeout after 300s".to_string(), true)
    );
}

#[test]
fn invocation_ignores_out_of_order_events() {
    let mut inv = start();
    assert!(matches!(inv.handle(InvokeEvent::Replied), InvokeAction::Ignore));
    assert_eq!(inv.step, InvokeStep::LookupNode);
    inv.handle(InvokeEvent::NodeMissing);
    assert!(matches!(inv.handle(InvokeEvent::Sent), InvokeAction::Ignore));
    assert_eq!(inv.step, InvokeStep::Done);
}
