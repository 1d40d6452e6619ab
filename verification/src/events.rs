use vstd::prelude::*;

verus! {

/// The four span lifecycle notifications delivered by the tracing pipeline.
#[derive(Clone, Copy, Debug, PartialEq, Eq, PartialOrd, Ord, Structural)]
pub enum EventKind {
    Created,
    Entered,
    Exited,
    Closed,
}

/// One recorded lifecycle event: the kind, the span's id and name, the
/// parent's name as resolved when the span was created (`None` on every
/// kind but `Created`), and the identity of the thread the event was
/// observed on.
pub struct Event {
    pub kind: EventKind,
    pub id: u64,
    pub name: String,
    pub parent: Option<String>,
    pub thread: u64,
}

/// The mathematical content of an [`Event`]: the same fields with the
/// strings abstracted to character sequences.
pub ghost struct EventModel {
    pub kind: EventKind,
    pub id: u64,
    pub name: Seq<char>,
    pub parent: Option<Seq<char>>,
    pub thread: u64,
}

impl View for Event {
    type V = EventModel;

    open spec fn view(&self) -> EventModel {
        EventModel {
            kind: self.kind,
            id: self.id,
            name: self.name@,
            parent: match self.parent {
                Some(p) => Some(p@),
                None => None,
            },
            thread: self.thread,
        }
    }
}

/// How many events of `log` have span id `id` and kind `kind`.
pub open spec fn count_events(log: Seq<Event>, id: u64, kind: EventKind) -> int
    decreases log.len(),
{
    if log.len() == 0 {
        0
    } else {
        count_events(log.drop_last(), id, kind) + if log.last().id == id
            && log.last().kind == kind {
            1int
        } else {
            0int
        }
    }
}

/// Appending one event raises exactly the count it matches.
pub proof fn lemma_count_events_push(log: Seq<Event>, e: Event, id: u64, kind: EventKind)
    ensures
        count_events(log.push(e), id, kind) == count_events(log, id, kind) + if e.id == id
            && e.kind == kind {
            1int
        } else {
            0int
        },
{
    assert(log.push(e).drop_last() =~= log);
    assert(log.push(e).last() == e);
}

/// A count is never negative.
pub proof fn lemma_count_events_nonneg(log: Seq<Event>, id: u64, kind: EventKind)
    ensures
        count_events(log, id, kind) >= 0,
    decreases log.len(),
{
    if log.len() > 0 {
        lemma_count_events_nonneg(log.drop_last(), id, kind);
    }
}

/// A positive count names a witness index.
pub proof fn lemma_count_events_pos_witness(log: Seq<Event>, id: u64, kind: EventKind)
    requires
        count_events(log, id, kind) > 0,
    ensures
        exists|i: int|
            0 <= i < log.len() && log[i].id == id && log[i].kind == kind,
    decreases log.len(),
{
    if log.len() > 0 {
        if log.last().id == id && log.last().kind == kind {
            assert(log[log.len() - 1].id == id && log[log.len() - 1].kind == kind);
        } else {
            lemma_count_events_pos_witness(log.drop_last(), id, kind);
            let i = choose|i: int|
                0 <= i < log.drop_last().len() && log.drop_last()[i].id == id
                    && log.drop_last()[i].kind == kind;
            assert(log[i].id == id && log[i].kind == kind);
        }
    }
}

/// An event at some index makes the count positive.
pub proof fn lemma_count_events_witness_pos(log: Seq<Event>, id: u64, kind: EventKind, i: int)
    requires
        0 <= i < log.len(),
        log[i].id == id,
        log[i].kind == kind,
    ensures
        count_events(log, id, kind) > 0,
    decreases log.len(),
{
    lemma_count_events_nonneg(log.drop_last(), id, kind);
    if i == log.len() - 1 {
    } else {
        assert(log.drop_last()[i] == log[i]);
        lemma_count_events_witness_pos(log.drop_last(), id, kind, i);
    }
}

/// A zero count means no index matches.
pub proof fn lemma_count_events_zero(log: Seq<Event>, id: u64, kind: EventKind)
    requires
        count_events(log, id, kind) == 0,
    ensures
        forall|i: int| 0 <= i < log.len() ==> !(log[i].id == id && log[i].kind == kind),
{
    assert forall|i: int| 0 <= i < log.len() implies !(log[i].id == id && log[i].kind == kind) by {
        if log[i].id == id && log[i].kind == kind {
            lemma_count_events_witness_pos(log, id, kind, i);
        }
    }
}

} // verus!
