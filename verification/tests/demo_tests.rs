use span_recorder::demo::run_demo;
use span_recorder::events::{Event, EventKind};
use span_recorder::recorder::DebugLayer;
use span_recorder::render::render_event;

fn count(log: &[Event], id: u64, kind: EventKind) -> usize {
    log.iter().filter(|e| e.id == id && e.kind == kind).count()
}

fn id_of(log: &[Event], name: &str) -> u64 {
    log.iter().find(|e| e.kind == EventKind::Created && e.name == name).unwrap().id
}

#[test]
fn demo_records_one_lifecycle_group_per_span() {
    let p = run_demo(false);
    assert_eq!(p.log.len(), 14);
    let ids: Vec<u64> = (1..=3).collect();
    for &id in &ids {
        assert_eq!(count(&p.log, id, EventKind::Created), 1);
        assert_eq!(count(&p.log, id, EventKind::Closed), 1);
        assert_eq!(
            count(&p.log, id, EventKind::Entered),
            count(&p.log, id, EventKind::Exited)
        );
    }
    // the root was cloned, not duplicated: exactly three spans exist
    assert!(p.log.iter().all(|e| ids.contains(&e.id)));
    // the shared root is entered once per worker
    let foo = id_of(&p.log, "foo");
    assert_eq!(count(&p.log, foo, EventKind::Entered), 2);
}

#[test]
fn created_comes_first_and_closed_comes_last_per_span() {
    let p = run_demo(false);
    for id in 1..=3u64 {
        let positions: Vec<usize> = p
            .log
            .iter()
            .enumerate()
            .filter(|(_, e)| e.id == id)
            .map(|(i, _)| i)
            .collect();
        let first = *positions.first().unwrap();
        let last = *positions.last().unwrap();
        assert_eq!(p.log[first].kind, EventKind::Created);
        assert_eq!(p.log[last].kind, EventKind::Closed);
    }
}

#[test]
fn children_record_the_root_as_parent() {
    let p = run_demo(false);
    let bar = id_of(&p.log, "bar");
    let baz = id_of(&p.log, "baz");
    for e in p.log.iter().filter(|e| e.kind == EventKind::Created) {
        if e.id == bar || e.id == baz {
            assert_eq!(e.parent.as_deref(), Some("foo"));
        } else {
            assert_eq!(e.parent, None);
        }
    }
}

#[test]
fn the_two_children_run_on_distinct_threads() {
    let p = run_demo(false);
    let bar = id_of(&p.log, "bar");
    let baz = id_of(&p.log, "baz");
    let bar_threads: Vec<u64> = p.log.iter().filter(|e| e.id == bar).map(|e| e.thread).collect();
    let baz_threads: Vec<u64> = p.log.iter().filter(|e| e.id == baz).map(|e| e.thread).collect();
    assert!(bar_threads.iter().all(|&t| t == bar_threads[0]));
    assert!(baz_threads.iter().all(|&t| t == baz_threads[0]));
    assert_ne!(bar_threads[0], baz_threads[0]);
}

#[test]
fn inverting_the_sleep_bias_keeps_per_span_events() {
    let a = run_demo(false);
    let b = run_demo(true);
    let project = |log: &[Event], name: &str| -> Vec<(EventKind, String, Option<String>, u64)> {
        let id = id_of(log, name);
        log.iter()
            .filter(|e| e.id == id)
            .map(|e| (e.kind, e.name.clone(), e.parent.clone(), e.thread))
            .collect()
    };
    // each child's events agree between the runs, field for field
    assert_eq!(project(&a.log, "bar"), project(&b.log, "bar"));
    assert_eq!(project(&a.log, "baz"), project(&b.log, "baz"));
    // the root keeps its per-span kind order; only which worker is seen
    // first in the cross-thread interleaving differs
    let kinds = |v: &[(EventKind, String, Option<String>, u64)]| -> Vec<EventKind> {
        v.iter().map(|x| x.0).collect()
    };
    let foo_a = project(&a.log, "foo");
    let foo_b = project(&b.log, "foo");
    assert_eq!(kinds(&foo_a), kinds(&foo_b));
    let mut sa = foo_a.clone();
    let mut sb = foo_b.clone();
    sa.sort();
    sb.sort();
    assert_eq!(sa, sb);
    assert_ne!(foo_a, foo_b);
}

#[test]
fn demo_lines_render_as_the_recorder_prints_them() {
    let p = run_demo(false);
    let lines: Vec<String> = p.log.iter().map(render_event).collect();
    assert_eq!(lines[0], "[TRACING] NEW_SPAN: name=foo, id=1, parent=(none), thread=0");
    assert_eq!(lines[1], "[TRACING] ENTER: name=foo, id=1, thread=1");
    assert_eq!(lines[2], "[TRACING] NEW_SPAN: name=bar, id=2, parent=foo, thread=1");
    assert_eq!(lines[13], "[TRACING] CLOSE: name=foo, id=1, thread=1");
}

#[test]
fn recorder_resolves_demo_spans_while_open() {
    let mut p = span_recorder::pipeline::Pipeline::new();
    let t = p.register_thread();
    let id = p.new_span(t, String::from("foo")).unwrap();
    let layer = DebugLayer::new();
    let line = layer.on_new_span(&p.registry, id, t).unwrap();
    assert_eq!(line, "[TRACING] NEW_SPAN: name=foo, id=1, parent=(none), thread=0");
}
