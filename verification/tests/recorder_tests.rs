use span_recorder::recorder::{DebugLayer, RecorderError};
use span_recorder::registry::SpanRegistry;

fn demo_registry() -> SpanRegistry {
    let mut reg = SpanRegistry::new();
    let foo = reg.register(String::from("foo"), None);
    let bar = reg.register(String::from("bar"), Some(foo));
    assert_eq!(foo, 1);
    assert_eq!(bar, 2);
    reg
}

#[test]
fn created_resolves_no_parent_as_sentinel() {
    let reg = demo_registry();
    let layer = DebugLayer::new();
    let line = layer.on_new_span(&reg, 1, 0).unwrap();
    assert_eq!(line, "[TRACING] NEW_SPAN: name=foo, id=1, parent=(none), thread=0");
}

#[test]
fn created_resolves_parent_name_from_registry() {
    let reg = demo_registry();
    let layer = DebugLayer::new();
    let line = layer.on_new_span(&reg, 2, 1).unwrap();
    assert_eq!(line, "[TRACING] NEW_SPAN: name=bar, id=2, parent=foo, thread=1");
}

#[test]
fn enter_exit_close_recompute_name_from_registry() {
    let reg = demo_registry();
    let layer = DebugLayer::new();
    assert_eq!(layer.on_enter(&reg, 1, 1).unwrap(), "[TRACING] ENTER: name=foo, id=1, thread=1");
    assert_eq!(layer.on_exit(&reg, 2, 1).unwrap(), "[TRACING] EXIT: name=bar, id=2, thread=1");
    assert_eq!(layer.on_close(&reg, 2, 1).unwrap(), "[TRACING] CLOSE: name=bar, id=2, thread=1");
}

#[test]
fn unregistered_id_is_refused_without_a_line() {
    let reg = demo_registry();
    let layer = DebugLayer::new();
    assert_eq!(layer.on_new_span(&reg, 42, 0), Err(RecorderError::LookupFailed));
    assert_eq!(layer.on_enter(&reg, 42, 0), Err(RecorderError::LookupFailed));
    assert_eq!(layer.on_exit(&reg, 42, 0), Err(RecorderError::LookupFailed));
    assert_eq!(layer.on_close(&reg, 42, 0), Err(RecorderError::LookupFailed));
}

#[test]
fn closed_record_no_longer_resolves() {
    let mut reg = demo_registry();
    // bar's one handle goes: the record closes and stops resolving
    let closed = reg.release_handle(2);
    assert!(closed);
    let layer = DebugLayer::new();
    assert_eq!(layer.on_enter(&reg, 2, 1), Err(RecorderError::LookupFailed));
    // foo still resolves
    assert!(layer.on_enter(&reg, 1, 1).is_ok());
}

#[test]
fn zero_is_never_a_span_id() {
    let reg = demo_registry();
    let layer = DebugLayer::new();
    assert_eq!(layer.on_enter(&reg, 0, 0), Err(RecorderError::LookupFailed));
}
