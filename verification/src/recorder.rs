use vstd::prelude::*;
use crate::events::EventKind;
use crate::registry::SpanRegistry;
use crate::render::{line_of, render_line};

verus! {

/// The recorder's one fatal condition: the span id it was handed does not
/// resolve in the registry, which signals that the recorder was wired into
/// an incompatible pipeline. No line is rendered in that case.
#[derive(Clone, Copy, Debug, PartialEq, Eq, Structural)]
pub enum RecorderError {
    LookupFailed,
}

/// A stateless observer of span lifecycle events. Every handler recomputes
/// the span's fields from the registry and renders one diagnostic line;
/// nothing is retained between calls.
pub struct DebugLayer {}

/// The name of the parent of span `id` in `reg`, where the parent exists
/// and still resolves; `None` for a root span or an unresolvable parent.
pub open spec fn resolved_parent_name(reg: &SpanRegistry, id: u64) -> Option<Seq<char>> {
    match reg.record_of(id).parent {
        Some(p) => if reg.is_open(p) {
            Some(reg.record_of(p).name@)
        } else {
            None
        },
        None => None,
    }
}

impl DebugLayer {
    pub fn new() -> (r: DebugLayer) {
        DebugLayer {}
    }

    /// Handle the creation of span `id`: resolve its name and its parent's
    /// name and render the `NEW_SPAN` line. Fails exactly when `id` does
    /// not resolve; a missing or unresolvable parent renders the `(none)`
    /// sentinel instead of failing.
    pub fn on_new_span(&self, reg: &SpanRegistry, id: u64, thread: u64) -> (r: Result<
        String,
        RecorderError,
    >)
        ensures
            match r {
                Ok(line) => reg.is_open(id) && line@ == line_of(
                    EventKind::Created,
                    reg.record_of(id).name@,
                    id,
                    resolved_parent_name(reg, id),
                    thread,
                ),
                Err(e) => !reg.is_open(id) && e == RecorderError::LookupFailed,
            },
    {
        let name = match reg.name_of(id) {
            Some(n) => n,
            None => {
                return Err(RecorderError::LookupFailed);
            },
        };
        let parent = match reg.parent_of(id) {
            Some(p) => p,
            None => {
                return Err(RecorderError::LookupFailed);
            },
        };
        let parent_name = match parent {
            Some(p) => reg.name_of(p),
            None => None,
        };
        let line = render_line(
            EventKind::Created,
            name.as_str(),
            id,
            parent_name.as_ref(),
            thread,
        );
        Ok(line)
    }

    /// Handle span `id` being entered on `thread`: resolve its current name
    /// and render the `ENTER` line. Fails exactly when `id` does not
    /// resolve.
    pub fn on_enter(&self, reg: &SpanRegistry, id: u64, thread: u64) -> (r: Result<
        String,
        RecorderError,
    >)
        ensures
            match r {
                Ok(line) => reg.is_open(id) && line@ == line_of(
                    EventKind::Entered,
                    reg.record_of(id).name@,
                    id,
                    None,
                    thread,
                ),
                Err(e) => !reg.is_open(id) && e == RecorderError::LookupFailed,
            },
    {
        self.plain_line(reg, EventKind::Entered, id, thread)
    }

    /// Handle span `id` being exited on `thread`: resolve its current name
    /// and render the `EXIT` line. Fails exactly when `id` does not
    /// resolve.
    pub fn on_exit(&self, reg: &SpanRegistry, id: u64, thread: u64) -> (r: Result<
        String,
        RecorderError,
    >)
        ensures
            match r {
                Ok(line) => reg.is_open(id) && line@ == line_of(
                    EventKind::Exited,
                    reg.record_of(id).name@,
                    id,
                    None,
                    thread,
                ),
                Err(e) => !reg.is_open(id) && e == RecorderError::LookupFailed,
            },
    {
        self.plain_line(reg, EventKind::Exited, id, thread)
    }

    /// Handle span `id` closing: render the `CLOSE` line. The registry
    /// keeps the record resolvable during the close notification itself, so
    /// the same lookup serves; it fails exactly when `id` does not resolve.
    pub fn on_close(&self, reg: &SpanRegistry, id: u64, thread: u64) -> (r: Result<
        String,
        RecorderError,
    >)
        ensures
            match r {
                Ok(line) => reg.is_open(id) && line@ == line_of(
                    EventKind::Closed,
                    reg.record_of(id).name@,
                    id,
                    None,
                    thread,
                ),
                Err(e) => !reg.is_open(id) && e == RecorderError::LookupFailed,
            },
    {
        self.plain_line(reg, EventKind::Closed, id, thread)
    }

    /// Resolve the span's name and render a parentless line of the given
    /// kind.
    fn plain_line(&self, reg: &SpanRegistry, kind: EventKind, id: u64, thread: u64) -> (r: Result<
        String,
        RecorderError,
    >)
        requires
            !(kind is Created),
        ensures
            match r {
                Ok(line) => reg.is_open(id) && line@ == line_of(
                    kind,
                    reg.record_of(id).name@,
                    id,
                    None,
                    thread,
                ),
                Err(e) => !reg.is_open(id) && e == RecorderError::LookupFailed,
            },
    {
        match reg.name_of(id) {
            Some(name) => Ok(render_line(kind, name.as_str(), id, None, thread)),
            None => Err(RecorderError::LookupFailed),
        }
    }
}

} // verus!
