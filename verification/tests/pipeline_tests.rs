use span_recorder::events::{Event, EventKind};
use span_recorder::pipeline::{Pipeline, PipelineError};

fn count(log: &[Event], id: u64, kind: EventKind) -> usize {
    log.iter().filter(|e| e.id == id && e.kind == kind).count()
}

#[test]
fn a_span_lives_through_create_enter_exit_close() {
    let mut p = Pipeline::new();
    let t = p.register_thread();
    let id = p.new_span(t, String::from("foo")).unwrap();
    assert_eq!(id, 1);
    p.enter(t, id).unwrap();
    p.exit(t).unwrap();
    let closed = p.drop_handle(t, id).unwrap();
    assert!(closed);
    let kinds: Vec<EventKind> = p.log.iter().map(|e| e.kind).collect();
    assert_eq!(
        kinds,
        vec![EventKind::Created, EventKind::Entered, EventKind::Exited, EventKind::Closed]
    );
    assert!(p.log.iter().all(|e| e.id == 1 && e.thread == t));
}

#[test]
fn entering_on_an_unregistered_thread_is_refused() {
    let mut p = Pipeline::new();
    let t = p.register_thread();
    let id = p.new_span(t, String::from("foo")).unwrap();
    assert_eq!(p.enter(9, id), Err(PipelineError::UnknownThread));
    assert_eq!(p.new_span(9, String::from("bar")).err(), Some(PipelineError::UnknownThread));
    assert_eq!(p.drop_handle(9, id), Err(PipelineError::UnknownThread));
}

#[test]
fn an_unresolved_span_id_is_refused_and_logs_nothing() {
    let mut p = Pipeline::new();
    let t = p.register_thread();
    p.new_span(t, String::from("foo")).unwrap();
    let before = p.log.len();
    assert_eq!(p.enter(t, 42), Err(PipelineError::UnknownSpan));
    assert_eq!(p.clone_handle(42), Err(PipelineError::UnknownSpan));
    assert_eq!(p.drop_handle(t, 42), Err(PipelineError::UnknownSpan));
    assert_eq!(p.log.len(), before);
}

#[test]
fn exiting_with_nothing_entered_is_refused() {
    let mut p = Pipeline::new();
    let t = p.register_thread();
    p.new_span(t, String::from("foo")).unwrap();
    assert_eq!(p.exit(t), Err(PipelineError::EmptyStack));
}

#[test]
fn a_guard_held_handle_cannot_be_dropped() {
    let mut p = Pipeline::new();
    let t = p.register_thread();
    let id = p.new_span(t, String::from("foo")).unwrap();
    p.enter(t, id).unwrap();
    // the creator's free handle goes; the guard's handle stays
    assert_eq!(p.drop_handle(t, id), Ok(false));
    // every remaining handle is held by the outstanding guard
    assert_eq!(p.drop_handle(t, id), Err(PipelineError::NoFreeHandle));
    // the exit releases the guard's handle, closing the span
    p.exit(t).unwrap();
    assert_eq!(count(&p.log, id, EventKind::Closed), 1);
}

#[test]
fn a_closed_span_stops_resolving() {
    let mut p = Pipeline::new();
    let t = p.register_thread();
    let id = p.new_span(t, String::from("foo")).unwrap();
    assert_eq!(p.drop_handle(t, id), Ok(true));
    assert_eq!(p.enter(t, id), Err(PipelineError::UnknownSpan));
    // ids are never reused
    let id2 = p.new_span(t, String::from("bar")).unwrap();
    assert_eq!(id2, 2);
}

#[test]
fn cloning_adds_a_handle_without_an_event() {
    let mut p = Pipeline::new();
    let t = p.register_thread();
    let id = p.new_span(t, String::from("foo")).unwrap();
    let before = p.log.len();
    p.clone_handle(id).unwrap();
    assert_eq!(p.log.len(), before);
    assert_eq!(p.drop_handle(t, id), Ok(false));
    assert_eq!(p.drop_handle(t, id), Ok(true));
}

#[test]
fn reentering_the_same_span_twice_balances() {
    let mut p = Pipeline::new();
    let t = p.register_thread();
    let id = p.new_span(t, String::from("foo")).unwrap();
    p.enter(t, id).unwrap();
    p.enter(t, id).unwrap();
    p.exit(t).unwrap();
    p.exit(t).unwrap();
    p.drop_handle(t, id).unwrap();
    assert_eq!(count(&p.log, id, EventKind::Entered), 2);
    assert_eq!(count(&p.log, id, EventKind::Exited), 2);
    assert_eq!(count(&p.log, id, EventKind::Closed), 1);
}
