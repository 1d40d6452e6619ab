use vstd::prelude::*;
use crate::events::{Event, EventKind};

verus! {

/// The decimal digit character of `d`.
pub open spec fn digit_char(d: int) -> char
    recommends
        0 <= d < 10,
{
    if d == 0 {
        '0'
    } else if d == 1 {
        '1'
    } else if d == 2 {
        '2'
    } else if d == 3 {
        '3'
    } else if d == 4 {
        '4'
    } else if d == 5 {
        '5'
    } else if d == 6 {
        '6'
    } else if d == 7 {
        '7'
    } else if d == 8 {
        '8'
    } else {
        '9'
    }
}

/// The decimal rendering of `n`, most significant digit first and without
/// leading zeros (a lone zero for `n == 0`).
pub open spec fn dec_digits(n: int) -> Seq<char>
    recommends
        n >= 0,
    decreases n,
{
    if n < 10 {
        seq![digit_char(n)]
    } else {
        dec_digits(n / 10).push(digit_char(n % 10))
    }
}

/// The one-character string of a decimal digit.
fn digit_str(d: u64) -> (r: &'static str)
    requires
        d < 10,
    ensures
        r@ =~= seq![digit_char(d as int)],
{
    proof {
        reveal_strlit("0");
        reveal_strlit("1");
        reveal_strlit("2");
        reveal_strlit("3");
        reveal_strlit("4");
        reveal_strlit("5");
        reveal_strlit("6");
        reveal_strlit("7");
        reveal_strlit("8");
        reveal_strlit("9");
    }
    if d == 0 {
        "0"
    } else if d == 1 {
        "1"
    } else if d == 2 {
        "2"
    } else if d == 3 {
        "3"
    } else if d == 4 {
        "4"
    } else if d == 5 {
        "5"
    } else if d == 6 {
        "6"
    } else if d == 7 {
        "7"
    } else if d == 8 {
        "8"
    } else {
        "9"
    }
}

/// Render `n` in decimal.
pub fn u64_to_dec(n: u64) -> (s: String)
    ensures
        s@ == dec_digits(n as int),
    decreases n,
{
    if n < 10 {
        String::from_str(digit_str(n))
    } else {
        let mut s = u64_to_dec(n / 10);
        s.append(digit_str(n % 10));
        proof {
            assert(s@ =~= dec_digits(n as int));
        }
        s
    }
}

/// The label each event kind carries in a diagnostic line.
pub open spec fn kind_label(kind: EventKind) -> Seq<char> {
    match kind {
        EventKind::Created => "NEW_SPAN"@,
        EventKind::Entered => "ENTER"@,
        EventKind::Exited => "EXIT"@,
        EventKind::Closed => "CLOSE"@,
    }
}

/// The label of an event kind.
pub fn kind_label_str(kind: EventKind) -> (r: &'static str)
    ensures
        r@ == kind_label(kind),
{
    match kind {
        EventKind::Created => "NEW_SPAN",
        EventKind::Entered => "ENTER",
        EventKind::Exited => "EXIT",
        EventKind::Closed => "CLOSE",
    }
}

/// The parent field of a created span's line: the parent's name, or the
/// `(none)` sentinel for a root span.
pub open spec fn parent_field(parent: Option<Seq<char>>) -> Seq<char> {
    match parent {
        Some(p) => p,
        None => "(none)"@,
    }
}

/// The diagnostic line of one lifecycle event. The parent field appears
/// only on `Created` lines.
pub open spec fn line_of(
    kind: EventKind,
    name: Seq<char>,
    id: u64,
    parent: Option<Seq<char>>,
    thread: u64,
) -> Seq<char> {
    "[TRACING] "@ + kind_label(kind) + ": name="@ + name + ", id="@ + dec_digits(id as int) + (
    if kind is Created {
        ", parent="@ + parent_field(parent)
    } else {
        Seq::<char>::empty()
    }) + ", thread="@ + dec_digits(thread as int)
}

/// The diagnostic line of a recorded event.
pub open spec fn line_of_event(e: Event) -> Seq<char> {
    line_of(e.kind, e.name@, e.id, e@.parent, e.thread)
}

/// Render the line of one lifecycle event.
pub fn render_line(
    kind: EventKind,
    name: &str,
    id: u64,
    parent: Option<&String>,
    thread: u64,
) -> (s: String)
    ensures
        s@ == line_of(
            kind,
            name@,
            id,
            match parent {
                Some(p) => Some(p@),
                None => None,
            },
            thread,
        ),
{
    let mut s = String::from_str("[TRACING] ");
    s.append(kind_label_str(kind));
    s.append(": name=");
    s.append(name);
    s.append(", id=");
    let id_dec = u64_to_dec(id);
    s.append(id_dec.as_str());
    if matches!(kind, EventKind::Created) {
        s.append(", parent=");
        match parent {
            Some(p) => s.append(p.as_str()),
            None => s.append("(none)"),
        }
    }
    s.append(", thread=");
    let thread_dec = u64_to_dec(thread);
    s.append(thread_dec.as_str());
    proof {
        assert(s@ =~= line_of(
            kind,
            name@,
            id,
            match parent {
                Some(p) => Some(p@),
                None => None,
            },
            thread,
        ));
    }
    s
}

/// Render the line of a recorded event.
pub fn render_event(e: &Event) -> (s: String)
    ensures
        s@ == line_of_event(*e),
{
    let s = render_line(e.kind, e.name.as_str(), e.id, e.parent.as_ref(), e.thread);
    s
}

} // verus!
