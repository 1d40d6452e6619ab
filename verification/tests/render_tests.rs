use span_recorder::events::EventKind;
use span_recorder::render::{render_line, u64_to_dec};

#[test]
fn decimal_of_zero() {
    assert_eq!(u64_to_dec(0), "0");
}

#[test]
fn decimal_of_single_digit() {
    assert_eq!(u64_to_dec(7), "7");
}

#[test]
fn decimal_of_two_digits() {
    assert_eq!(u64_to_dec(10), "10");
}

#[test]
fn decimal_of_many_digits() {
    assert_eq!(u64_to_dec(12345), "12345");
}

#[test]
fn decimal_of_max() {
    assert_eq!(u64_to_dec(u64::MAX), "18446744073709551615");
}

#[test]
fn created_line_without_parent() {
    let line = render_line(EventKind::Created, "foo", 1, None, 0);
    assert_eq!(line, "[TRACING] NEW_SPAN: name=foo, id=1, parent=(none), thread=0");
}

#[test]
fn created_line_with_parent() {
    let parent = String::from("foo");
    let line = render_line(EventKind::Created, "bar", 2, Some(&parent), 1);
    assert_eq!(line, "[TRACING] NEW_SPAN: name=bar, id=2, parent=foo, thread=1");
}

#[test]
fn entered_line_has_no_parent_field() {
    let line = render_line(EventKind::Entered, "foo", 1, None, 2);
    assert_eq!(line, "[TRACING] ENTER: name=foo, id=1, thread=2");
}

#[test]
fn exited_line() {
    let line = render_line(EventKind::Exited, "baz", 3, None, 2);
    assert_eq!(line, "[TRACING] EXIT: name=baz, id=3, thread=2");
}

#[test]
fn closed_line() {
    let line = render_line(EventKind::Closed, "foo", 1, None, 1);
    assert_eq!(line, "[TRACING] CLOSE: name=foo, id=1, thread=1");
}

#[test]
fn parent_argument_ignored_on_non_created() {
    let parent = String::from("foo");
    let line = render_line(EventKind::Closed, "bar", 2, Some(&parent), 1);
    assert_eq!(line, "[TRACING] CLOSE: name=bar, id=2, thread=1");
}
