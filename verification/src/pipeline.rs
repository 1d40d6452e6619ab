use vstd::prelude::*;
use crate::events::{count_events, Event, EventKind};
use crate::events::{
    lemma_count_events_push, lemma_count_events_pos_witness, lemma_count_events_zero,
};
use crate::registry::SpanRegistry;

verus! {

/// How often `id` occurs in one thread's stack of entered spans.
pub open spec fn count_in_stack(s: Seq<u64>, id: u64) -> int
    decreases s.len(),
{
    if s.len() == 0 {
        0
    } else {
        count_in_stack(s.drop_last(), id) + if s.last() == id {
            1int
        } else {
            0int
        }
    }
}

/// How often `id` occurs across all threads' stacks.
pub open spec fn stacks_count(ss: Seq<Vec<u64>>, id: u64) -> int
    decreases ss.len(),
{
    if ss.len() == 0 {
        0
    } else {
        stacks_count(ss.drop_last(), id) + count_in_stack(ss.last()@, id)
    }
}

proof fn lemma_count_in_stack_push(s: Seq<u64>, x: u64, id: u64)
    ensures
        count_in_stack(s.push(x), id) == count_in_stack(s, id) + if x == id {
            1int
        } else {
            0int
        },
{
    assert(s.push(x).drop_last() =~= s);
}

proof fn lemma_count_in_stack_no_occurrence(s: Seq<u64>, id: u64)
    requires
        forall|j: int| 0 <= j < s.len() ==> s[j] != id,
    ensures
        count_in_stack(s, id) == 0,
    decreases s.len(),
{
    if s.len() > 0 {
        assert(forall|j: int| 0 <= j < s.drop_last().len() ==> s.drop_last()[j] == s[j]);
        lemma_count_in_stack_no_occurrence(s.drop_last(), id);
    }
}

proof fn lemma_stacks_count_no_occurrence(ss: Seq<Vec<u64>>, id: u64)
    requires
        forall|t: int, j: int|
            0 <= t < ss.len() && 0 <= j < ss[t]@.len() ==> #[trigger] ss[t]@[j] != id,
    ensures
        stacks_count(ss, id) == 0,
    decreases ss.len(),
{
    if ss.len() > 0 {
        assert(forall|t: int, j: int|
            0 <= t < ss.drop_last().len() && 0 <= j < ss.drop_last()[t]@.len()
                ==> #[trigger] ss.drop_last()[t]@[j] == ss[t]@[j]);
        lemma_stacks_count_no_occurrence(ss.drop_last(), id);
        assert(forall|j: int| 0 <= j < ss.last()@.len() ==> ss.last()@[j] != id);
        lemma_count_in_stack_no_occurrence(ss.last()@, id);
    }
}

proof fn lemma_stacks_count_update(ss: Seq<Vec<u64>>, t: int, v: Vec<u64>, id: u64)
    requires
        0 <= t < ss.len(),
    ensures
        stacks_count(ss.update(t, v), id) == stacks_count(ss, id) - count_in_stack(ss[t]@, id)
            + count_in_stack(v@, id),
    decreases ss.len(),
{
    if t == ss.len() - 1 {
        assert(ss.update(t, v).drop_last() =~= ss.drop_last());
        assert(ss.update(t, v).last() == v);
    } else {
        assert(ss.update(t, v).drop_last() =~= ss.drop_last().update(t, v));
        assert(ss.update(t, v).last() == ss.last());
        lemma_stacks_count_update(ss.drop_last(), t, v, id);
        assert(ss.drop_last()[t] == ss[t]);
    }
}

proof fn lemma_count_in_stack_nonneg(s: Seq<u64>, id: u64)
    ensures
        count_in_stack(s, id) >= 0,
    decreases s.len(),
{
    if s.len() > 0 {
        lemma_count_in_stack_nonneg(s.drop_last(), id);
    }
}

proof fn lemma_stacks_count_nonneg(ss: Seq<Vec<u64>>, id: u64)
    ensures
        stacks_count(ss, id) >= 0,
    decreases ss.len(),
{
    if ss.len() > 0 {
        lemma_stacks_count_nonneg(ss.drop_last(), id);
        lemma_count_in_stack_nonneg(ss.last()@, id);
    }
}

proof fn lemma_stacks_count_lower_bound(ss: Seq<Vec<u64>>, t: int, id: u64)
    requires
        0 <= t < ss.len(),
    ensures
        stacks_count(ss, id) >= count_in_stack(ss[t]@, id),
    decreases ss.len(),
{
    lemma_stacks_count_nonneg(ss.drop_last(), id);
    lemma_count_in_stack_nonneg(ss.last()@, id);
    if t == ss.len() - 1 {
        assert(ss[t] == ss.last());
    } else {
        lemma_stacks_count_lower_bound(ss.drop_last(), t, id);
        assert(ss.drop_last()[t] == ss[t]);
    }
}

proof fn lemma_count_in_stack_witness_pos(s: Seq<u64>, id: u64, j: int)
    requires
        0 <= j < s.len(),
        s[j] == id,
    ensures
        count_in_stack(s, id) >= 1,
    decreases s.len(),
{
    lemma_count_in_stack_nonneg(s.drop_last(), id);
    if j < s.len() - 1 {
        assert(s.drop_last()[j] == s[j]);
        lemma_count_in_stack_witness_pos(s.drop_last(), id, j);
    }
}

proof fn lemma_stacks_count_push_empty(ss: Seq<Vec<u64>>, v: Vec<u64>, id: u64)
    requires
        v@.len() == 0,
    ensures
        stacks_count(ss.push(v), id) == stacks_count(ss, id),
{
    assert(ss.push(v).drop_last() =~= ss);
    assert(ss.push(v).last() == v);
}

/// The errors of the pipeline operations. A span id that does not resolve
/// is the registry-lookup failure the recorder treats as fatal; the other
/// variants reject calls that no correctly sequenced caller makes.
#[derive(Clone, Copy, Debug, PartialEq, Eq, Structural)]
pub enum PipelineError {
    /// The thread identity was never registered with the pipeline.
    UnknownThread,
    /// The span id does not resolve in the registry.
    UnknownSpan,
    /// An exit was requested on a thread whose stack is empty.
    EmptyStack,
    /// A handle release was requested although every live handle is held
    /// by an outstanding enter guard.
    NoFreeHandle,
}

/// The observer-registration context of the whole process, made explicit:
/// the span registry, one stack of entered spans per registered thread
/// (the thread's identity is its index), and the append-only log of every
/// lifecycle event delivered so far. A process constructs one such context
/// at startup and routes every span operation through it.
pub struct Pipeline {
    pub registry: SpanRegistry,
    pub stacks: Vec<Vec<u64>>,
    pub log: Vec<Event>,
}

impl Pipeline {
    /// Every span id on any thread's stack resolves in the registry.
    pub open spec fn stacks_wf(&self) -> bool {
        forall|t: int, j: int|
            0 <= t < self.stacks@.len() && 0 <= j < self.stacks@[t]@.len()
                ==> self.registry.is_open(#[trigger] self.stacks@[t]@[j])
    }

    /// Handle accounting: a record's `entered` counter equals the span's
    /// occurrences across all stacks, every outstanding guard holds one of
    /// the live handles, an open span has at least one live handle, and a
    /// closed span has none.
    pub open spec fn handles_wf(&self) -> bool {
        forall|id: u64|
            self.registry.valid_id(id) ==> {
                &&& (#[trigger] self.registry.record_of(id)).entered == stacks_count(
                    self.stacks@,
                    id,
                )
                &&& self.registry.record_of(id).handles >= self.registry.record_of(id).entered
                &&& (!self.registry.record_of(id).closed ==> self.registry.record_of(id).handles
                    >= 1)
                &&& (self.registry.record_of(id).closed ==> self.registry.record_of(id).handles
                    == 0)
            }
    }

    /// A span's parent was registered before it.
    pub open spec fn parents_wf(&self) -> bool {
        forall|id: u64|
            self.registry.valid_id(id) ==> match (#[trigger] self.registry.record_of(id)).parent {
                Some(p) => 1 <= p < id,
                None => true,
            }
    }

    /// Per-id event counts: exactly one `Created` for every assigned id,
    /// exactly one `Closed` for every closed id and none for a live one,
    /// and every `Entered` matched by an `Exited` except the outstanding
    /// guards.
    pub open spec fn counts_wf(&self) -> bool {
        &&& forall|id: u64|
            #[trigger] count_events(self.log@, id, EventKind::Created) == if self.registry.valid_id(
                id,
            ) {
                1int
            } else {
                0int
            }
        &&& forall|id: u64|
            #[trigger] count_events(self.log@, id, EventKind::Closed) == if self.registry.valid_id(
                id,
            ) && self.registry.record_of(id).closed {
                1int
            } else {
                0int
            }
        &&& forall|id: u64|
            #[trigger] count_events(self.log@, id, EventKind::Entered) == count_events(
                self.log@,
                id,
                EventKind::Exited,
            ) + stacks_count(self.stacks@, id)
    }

    /// Some `Created` event for `id` stands strictly before index `i`.
    pub open spec fn has_created_before(log: Seq<Event>, id: u64, i: int) -> bool {
        exists|j: int| 0 <= j < i && (#[trigger] log[j]).kind is Created && log[j].id == id
    }

    /// Per-id event order: everything but the `Created` event comes after
    /// it, and nothing for an id follows its `Closed` event.
    pub open spec fn order_wf(&self) -> bool {
        &&& forall|i: int|
            0 <= i < self.log@.len() && !((#[trigger] self.log@[i]).kind is Created)
                ==> Self::has_created_before(self.log@, self.log@[i].id, i)
        &&& forall|i: int, j: int|
            0 <= i < j < self.log@.len() && (#[trigger] self.log@[i]).kind is Closed
                ==> (#[trigger] self.log@[j]).id != self.log@[i].id
    }

    /// Every logged event carries the fields the registry holds for its
    /// id: the span's name, a thread that is registered, and — on the
    /// `Created` event only — the resolved name of the span's parent.
    pub open spec fn fields_wf(&self) -> bool {
        forall|i: int|
            0 <= i < self.log@.len() ==> {
                let e = #[trigger] self.log@[i];
                &&& self.registry.valid_id(e.id)
                &&& e.name@ == self.registry.record_of(e.id).name@
                &&& e.thread < self.stacks@.len()
                &&& (e.kind is Created ==> match self.registry.record_of(e.id).parent {
                    Some(p) => match e.parent {
                        Some(pn) => self.registry.valid_id(p) && pn@ == self.registry.record_of(
                            p,
                        ).name@,
                        None => false,
                    },
                    None => e.parent is None,
                })
                &&& (!(e.kind is Created) ==> e.parent is None)
            }
    }

    /// The pipeline's invariant: every operation below preserves it.
    pub open spec fn wf(&self) -> bool {
        &&& self.stacks_wf()
        &&& self.handles_wf()
        &&& self.parents_wf()
        &&& self.counts_wf()
        &&& self.order_wf()
        &&& self.fields_wf()
    }

    /// A fresh pipeline: no spans, no threads, no events.
    pub fn new() -> (r: Pipeline)
        ensures
            r.wf(),
            r.registry.records@.len() == 0,
            r.stacks@.len() == 0,
            r.log@.len() == 0,
    {
        let r = Pipeline { registry: SpanRegistry::new(), stacks: Vec::new(), log: Vec::new() };
        proof {
            assert forall|id: u64| #[trigger]
                count_events(r.log@, id, EventKind::Created) == 0int by {}
            assert forall|id: u64|
                #[trigger] count_events(r.log@, id, EventKind::Entered) == count_events(
                    r.log@,
                    id,
                    EventKind::Exited,
                ) + stacks_count(r.stacks@, id) by {}
        }
        r
    }

    /// Register one more observing thread; its identity is the index of
    /// its (empty) stack of entered spans.
    pub fn register_thread(&mut self) -> (t: u64)
        requires
            old(self).wf(),
            old(self).stacks@.len() < u64::MAX,
        ensures
            final(self).wf(),
            t == old(self).stacks@.len(),
            final(self).registry == old(self).registry,
            final(self).log == old(self).log,
            final(self).stacks@.len() == old(self).stacks@.len() + 1,
            final(self).stacks@[t as int]@.len() == 0,
            forall|k: int|
                0 <= k < old(self).stacks@.len() ==> #[trigger] final(self).stacks@[k] == old(self).stacks@[k],
    {
        let t = self.stacks.len() as u64;
        let fresh: Vec<u64> = Vec::new();
        proof {
            assert(fresh@.len() == 0);
        }
        self.stacks.push(fresh);
        proof {
            assert forall|id: u64|
                stacks_count(self.stacks@, id) == stacks_count(old(self).stacks@, id) by {
                lemma_stacks_count_push_empty(old(self).stacks@, fresh, id);
            }
        }
        t
    }

    /// The id of the span `thread` is currently inside, if any: the top of
    /// its stack.
    pub open spec fn current_span(&self, thread: u64) -> Option<u64>
        recommends
            thread < self.stacks@.len(),
    {
        if self.stacks@[thread as int]@.len() == 0 {
            None
        } else {
            Some(self.stacks@[thread as int]@.last())
        }
    }

    /// Create a span on `thread` with the given name. The span's parent is
    /// the span `thread` is currently inside, the creator holds the one
    /// live handle, and the `Created` event is delivered with the parent's
    /// resolved name. Fails exactly when `thread` was never registered.
    pub fn new_span(&mut self, thread: u64, name: String) -> (r: Result<u64, PipelineError>)
        requires
            old(self).wf(),
            old(self).registry.records@.len() < u64::MAX - 1,
        ensures
            final(self).wf(),
            r is Ok <==> thread < old(self).stacks@.len(),
            match r {
                Ok(id) => {
                    &&& id == old(self).registry.next_id()
                    &&& final(self).registry.records@ =~= old(self).registry.records@.push(
                        final(self).registry.record_of(id),
                    )
                    &&& final(self).registry.record_of(id).name@ == name@
                    &&& final(self).registry.record_of(id).parent == old(self).current_span(thread)
                    &&& final(self).registry.record_of(id).handles == 1
                    &&& final(self).registry.record_of(id).entered == 0
                    &&& final(self).registry.is_open(id)
                    &&& forall|j: u64|
                        old(self).registry.valid_id(j) ==> #[trigger] final(self).registry.record_of(j) == old(self).registry.record_of(j)
                    &&& final(self).stacks == old(self).stacks
                    &&& final(self).log@.len() == old(self).log@.len() + 1
                    &&& forall|i: int|
                        0 <= i < old(self).log@.len() ==> #[trigger] final(self).log@[i] == old(self).log@[i]
                    &&& final(self).log@.last().kind == EventKind::Created
                    &&& final(self).log@.last().id == id
                    &&& final(self).log@.last().name@ == name@
                    &&& final(self).log@.last().thread == thread
                    &&& final(self).log@.last()@.parent == match old(self).current_span(thread) {
                        Some(p) => Some(old(self).registry.record_of(p).name@),
                        None => None,
                    }
                },
                Err(e) => {
                    &&& e == PipelineError::UnknownThread
                    &&& final(self).registry == old(self).registry
                    &&& final(self).stacks == old(self).stacks
                    &&& final(self).log == old(self).log
                },
            },
    {
        let nthreads = self.stacks.len();
        if !(thread < nthreads as u64) {
            return Err(PipelineError::UnknownThread);
        }
        proof {
            assert(thread < nthreads as int);
        }
        let tidx = thread as usize;
        let st = &self.stacks[tidx];
        let parent: Option<u64> = if st.len() == 0 {
            None
        } else {
            Some(st[st.len() - 1])
        };
        let parent_name: Option<String> = match parent {
            Some(p) => {
                proof {
                    assert(self.stacks@[thread as int]@.last() == p);
                    assert(self.registry.is_open(p));
                }
                match self.registry.name_of(p) {
                    Some(n) => Some(n),
                    None => {
                        proof {
                            assert(false);
                        }
                        None
                    },
                }
            },
            None => None,
        };
        let event_name = name.clone();
        let id = self.registry.register(name, parent);
        let ev = Event {
            kind: EventKind::Created,
            id,
            name: event_name,
            parent: parent_name,
            thread,
        };
        self.log.push(ev);
        proof {
            self.lemma_new_span_wf(*old(self), ev, id);
        }
        Ok(id)
    }

    /// The invariant survives registering a span and logging its
    /// `Created` event.
    proof fn lemma_new_span_wf(&self, pre: Pipeline, ev: Event, id: u64)
        requires
            pre.wf(),
            pre.registry.records@.len() < u64::MAX - 1,
            id == pre.registry.next_id(),
            self.stacks == pre.stacks,
            self.registry.records@ == pre.registry.records@.push(self.registry.record_of(id)),
            self.registry.record_of(id).handles == 1,
            self.registry.record_of(id).entered == 0,
            !self.registry.record_of(id).closed,
            match self.registry.record_of(id).parent {
                Some(p) => 1 <= p < id && (match ev.parent {
                    Some(pn) => pn@ == pre.registry.record_of(p).name@,
                    None => false,
                }),
                None => ev.parent is None,
            },
            self.log@ == pre.log@.push(ev),
            ev.kind == EventKind::Created,
            ev.id == id,
            ev.name@ == self.registry.record_of(id).name@,
            ev.thread < self.stacks@.len(),
        ensures
            self.wf(),
    {
        let reg0 = pre.registry;
        let reg1 = self.registry;
        assert(reg1.records@.len() == reg0.records@.len() + 1);
        assert forall|j: u64| reg0.valid_id(j) implies #[trigger] reg1.record_of(j)
            == reg0.record_of(j) by {
            assert(reg1.records@[j - 1] == reg0.records@[j - 1]);
        }
        // the new id occurs on no stack
        assert forall|t: int, j: int|
            0 <= t < self.stacks@.len() && 0 <= j < self.stacks@[t]@.len() implies #[trigger] self
            .stacks@[t]@[j] != id by {
            assert(pre.registry.is_open(pre.stacks@[t]@[j]));
        }
        lemma_stacks_count_no_occurrence(self.stacks@, id);
        // stacks_wf
        assert forall|t: int, j: int|
            0 <= t < self.stacks@.len() && 0 <= j < self.stacks@[t]@.len() implies self
            .registry.is_open(#[trigger] self.stacks@[t]@[j]) by {
            assert(pre.registry.is_open(pre.stacks@[t]@[j]));
        }
        // counts
        assert forall|id2: u64| #[trigger]
            count_events(self.log@, id2, EventKind::Created) == (if self.registry.valid_id(id2) {
                1int
            } else {
                0int
            }) by {
            lemma_count_events_push(pre.log@, ev, id2, EventKind::Created);
        }
        assert forall|id2: u64| #[trigger]
            count_events(self.log@, id2, EventKind::Closed) == (if self.registry.valid_id(id2)
                && self.registry.record_of(id2).closed {
                1int
            } else {
                0int
            }) by {
            lemma_count_events_push(pre.log@, ev, id2, EventKind::Closed);
        }
        assert forall|id2: u64| #[trigger]
            count_events(self.log@, id2, EventKind::Entered) == count_events(
                self.log@,
                id2,
                EventKind::Exited,
            ) + stacks_count(self.stacks@, id2) by {
            lemma_count_events_push(pre.log@, ev, id2, EventKind::Entered);
            lemma_count_events_push(pre.log@, ev, id2, EventKind::Exited);
        }
        // order: created-first clause
        assert forall|i: int|
            0 <= i < self.log@.len() && !((#[trigger] self.log@[i]).kind is Created) implies
            Self::has_created_before(self.log@, self.log@[i].id, i) by {
            assert(self.log@[i] == pre.log@[i]);
            assert(Self::has_created_before(pre.log@, pre.log@[i].id, i));
            let j = choose|j: int|
                0 <= j < i && (#[trigger] pre.log@[j]).kind is Created && pre.log@[j].id
                    == pre.log@[i].id;
            assert((self.log@[j]).kind is Created && self.log@[j].id == self.log@[i].id);
        }
        // order: closed-last clause
        assert forall|i: int, j: int|
            0 <= i < j < self.log@.len() && (#[trigger] self.log@[i]).kind is Closed implies (
        #[trigger] self.log@[j]).id != self.log@[i].id by {
            assert(self.log@[i] == pre.log@[i]);
            if j < pre.log@.len() {
                assert(self.log@[j] == pre.log@[j]);
            } else {
                // the new event's id was never assigned before, so no
                // Closed event can name it
                assert(count_events(pre.log@, id, EventKind::Closed) == 0);
                lemma_count_events_zero(pre.log@, id, EventKind::Closed);
                assert(pre.log@[i].id != id);
            }
        }
        // fields
        assert forall|i: int| 0 <= i < self.log@.len() implies {
            let e = #[trigger] self.log@[i];
            &&& self.registry.valid_id(e.id)
            &&& e.name@ == self.registry.record_of(e.id).name@
            &&& e.thread < self.stacks@.len()
            &&& (e.kind is Created ==> match self.registry.record_of(e.id).parent {
                Some(p) => match e.parent {
                    Some(pn) => self.registry.valid_id(p) && pn@ == self.registry.record_of(
                        p,
                    ).name@,
                    None => false,
                },
                None => e.parent is None,
            })
            &&& (!(e.kind is Created) ==> e.parent is None)
        } by {
            if i < pre.log@.len() {
                assert(self.log@[i] == pre.log@[i]);
                assert(pre.registry.valid_id(pre.log@[i].id));
            }
        }
    }

    /// Enter span `id` on `thread`: the guard goes on the thread's stack
    /// holding a handle of its own, and the `Entered` event is delivered.
    /// Fails exactly when the thread was never registered or the id does
    /// not resolve.
    pub fn enter(&mut self, thread: u64, id: u64) -> (r: Result<(), PipelineError>)
        requires
            old(self).wf(),
            old(self).registry.is_open(id) ==> old(self).registry.record_of(id).handles
                < u64::MAX,
        ensures
            final(self).wf(),
            r is Ok <==> (thread < old(self).stacks@.len() && old(self).registry.is_open(id)),
            match r {
                Ok(_) => {
                    &&& final(self).registry.records@.len() == old(self).registry.records@.len()
                    &&& final(self).registry.record_of(id).name == old(self).registry.record_of(
                        id,
                    ).name
                    &&& final(self).registry.record_of(id).parent == old(self).registry.record_of(
                        id,
                    ).parent
                    &&& final(self).registry.record_of(id).handles == old(self).registry.record_of(
                        id,
                    ).handles + 1
                    &&& final(self).registry.record_of(id).entered == old(self).registry.record_of(
                        id,
                    ).entered + 1
                    &&& final(self).registry.is_open(id)
                    &&& forall|j: u64|
                        old(self).registry.valid_id(j) && j != id ==> #[trigger] final(self).registry.record_of(j) == old(self).registry.record_of(j)
                    &&& final(self).stacks@.len() == old(self).stacks@.len()
                    &&& forall|t: int|
                        0 <= t < old(self).stacks@.len() && t != thread as int
                            ==> #[trigger] final(self).stacks@[t] == old(self).stacks@[t]
                    &&& final(self).stacks@[thread as int]@ == old(self).stacks@[
                        thread as int
                    ]@.push(id)
                    &&& final(self).log@.len() == old(self).log@.len() + 1
                    &&& forall|i: int|
                        0 <= i < old(self).log@.len() ==> #[trigger] final(self).log@[i] == old(self).log@[i]
                    &&& final(self).log@.last().kind == EventKind::Entered
                    &&& final(self).log@.last().id == id
                    &&& final(self).log@.last().name@ == old(self).registry.record_of(id).name@
                    &&& final(self).log@.last().parent is None
                    &&& final(self).log@.last().thread == thread
                },
                Err(e) => {
                    &&& final(self).registry == old(self).registry
                    &&& final(self).stacks == old(self).stacks
                    &&& final(self).log == old(self).log
                    &&& (e == PipelineError::UnknownThread <==> thread >= old(self).stacks@.len())
                    &&& (e == PipelineError::UnknownSpan <==> (thread < old(self).stacks@.len()
                        && !old(self).registry.is_open(id)))
                },
            },
    {
        let nthreads = self.stacks.len();
        if !(thread < nthreads as u64) {
            return Err(PipelineError::UnknownThread);
        }
        let name = match self.registry.name_of(id) {
            Some(n) => n,
            None => {
                return Err(PipelineError::UnknownSpan);
            },
        };
        proof {
            assert(self.registry.record_of(id).entered <= self.registry.record_of(id).handles);
        }
        self.registry.mark_entered(id);
        let tidx = thread as usize;
        self.stacks[tidx].push(id);
        let ev = Event { kind: EventKind::Entered, id, name, parent: None, thread };
        self.log.push(ev);
        proof {
            self.lemma_enter_wf(*old(self), ev, id, thread);
        }
        Ok(())
    }

    /// The invariant survives entering a span.
    proof fn lemma_enter_wf(&self, pre: Pipeline, ev: Event, id: u64, thread: u64)
        requires
            pre.wf(),
            pre.registry.is_open(id),
            pre.registry.record_of(id).handles < u64::MAX,
            thread < pre.stacks@.len(),
            self.registry.records@.len() == pre.registry.records@.len(),
            self.registry.record_of(id).name == pre.registry.record_of(id).name,
            self.registry.record_of(id).parent == pre.registry.record_of(id).parent,
            self.registry.record_of(id).handles == pre.registry.record_of(id).handles + 1,
            self.registry.record_of(id).entered == pre.registry.record_of(id).entered + 1,
            !self.registry.record_of(id).closed,
            forall|j: u64|
                pre.registry.valid_id(j) && j != id ==> #[trigger] self.registry.record_of(j)
                    == pre.registry.record_of(j),
            self.stacks@.len() == pre.stacks@.len(),
            forall|t: int|
                0 <= t < pre.stacks@.len() && t != thread as int ==> #[trigger] self.stacks@[t]
                    == pre.stacks@[t],
            self.stacks@[thread as int]@ == pre.stacks@[thread as int]@.push(id),
            self.log@ == pre.log@.push(ev),
            ev.kind == EventKind::Entered,
            ev.id == id,
            ev.name@ == self.registry.record_of(id).name@,
            ev.parent is None,
            ev.thread == thread,
        ensures
            self.wf(),
    {
        let t = thread as int;
        assert(self.stacks@ =~= pre.stacks@.update(t, self.stacks@[t]));
        assert forall|id2: u64|
            stacks_count(self.stacks@, id2) == stacks_count(pre.stacks@, id2) + (if id2 == id {
                1int
            } else {
                0int
            }) by {
            lemma_stacks_count_update(pre.stacks@, t, self.stacks@[t], id2);
            lemma_count_in_stack_push(pre.stacks@[t]@, id, id2);
        }
        // open-ness is unchanged for every id
        assert forall|j: u64| self.registry.valid_id(j) implies (self.registry.is_open(j)
            <==> pre.registry.is_open(j)) by {
            if j != id {
                assert(self.registry.record_of(j) == pre.registry.record_of(j));
            }
        }
        // stacks_wf
        assert forall|t2: int, j: int|
            0 <= t2 < self.stacks@.len() && 0 <= j < self.stacks@[t2]@.len() implies self
            .registry.is_open(#[trigger] self.stacks@[t2]@[j]) by {
            if t2 == t && j == self.stacks@[t2]@.len() - 1 {
                assert(self.stacks@[t2]@[j] == id);
            } else {
                assert(self.stacks@[t2]@[j] == pre.stacks@[t2]@[j]);
                assert(pre.registry.is_open(pre.stacks@[t2]@[j]));
            }
        }
        // counts
        assert forall|id2: u64| #[trigger]
            count_events(self.log@, id2, EventKind::Created) == (if self.registry.valid_id(id2) {
                1int
            } else {
                0int
            }) by {
            lemma_count_events_push(pre.log@, ev, id2, EventKind::Created);
        }
        assert forall|id2: u64| #[trigger]
            count_events(self.log@, id2, EventKind::Closed) == (if self.registry.valid_id(id2)
                && self.registry.record_of(id2).closed {
                1int
            } else {
                0int
            }) by {
            lemma_count_events_push(pre.log@, ev, id2, EventKind::Closed);
            if id2 != id && pre.registry.valid_id(id2) {
                assert(self.registry.record_of(id2) == pre.registry.record_of(id2));
            }
        }
        assert forall|id2: u64| #[trigger]
            count_events(self.log@, id2, EventKind::Entered) == count_events(
                self.log@,
                id2,
                EventKind::Exited,
            ) + stacks_count(self.stacks@, id2) by {
            lemma_count_events_push(pre.log@, ev, id2, EventKind::Entered);
            lemma_count_events_push(pre.log@, ev, id2, EventKind::Exited);
        }
        // handles_wf
        assert forall|id2: u64| self.registry.valid_id(id2) implies {
            &&& (#[trigger] self.registry.record_of(id2)).entered == stacks_count(
                self.stacks@,
                id2,
            )
            &&& self.registry.record_of(id2).handles >= self.registry.record_of(id2).entered
            &&& (!self.registry.record_of(id2).closed ==> self.registry.record_of(id2).handles
                >= 1)
            &&& (self.registry.record_of(id2).closed ==> self.registry.record_of(id2).handles
                == 0)
        } by {
            if id2 != id {
                assert(self.registry.record_of(id2) == pre.registry.record_of(id2));
            }
        }
        // parents_wf
        assert forall|id2: u64| self.registry.valid_id(id2) implies match (
        #[trigger] self.registry.record_of(id2)).parent {
            Some(p) => 1 <= p < id2,
            None => true,
        } by {
            if id2 != id {
                assert(self.registry.record_of(id2) == pre.registry.record_of(id2));
            }
        }
        // order: created-first
        assert forall|i: int|
            0 <= i < self.log@.len() && !((#[trigger] self.log@[i]).kind is Created) implies
            Self::has_created_before(self.log@, self.log@[i].id, i) by {
            if i < pre.log@.len() {
                assert(self.log@[i] == pre.log@[i]);
                assert(Self::has_created_before(pre.log@, pre.log@[i].id, i));
                let j = choose|j: int|
                    0 <= j < i && (#[trigger] pre.log@[j]).kind is Created && pre.log@[j].id
                        == pre.log@[i].id;
                assert((self.log@[j]).kind is Created && self.log@[j].id == self.log@[i].id);
            } else {
                assert(count_events(pre.log@, id, EventKind::Created) == 1);
                lemma_count_events_pos_witness(pre.log@, id, EventKind::Created);
                let j = choose|j: int|
                    0 <= j < pre.log@.len() && pre.log@[j].id == id && pre.log@[j].kind
                        == EventKind::Created;
                assert((self.log@[j]).kind is Created && self.log@[j].id == id);
            }
        }
        // order: closed-last
        assert forall|i: int, j: int|
            0 <= i < j < self.log@.len() && (#[trigger] self.log@[i]).kind is Closed implies (
        #[trigger] self.log@[j]).id != self.log@[i].id by {
            assert(self.log@[i] == pre.log@[i]);
            if j < pre.log@.len() {
                assert(self.log@[j] == pre.log@[j]);
            } else {
                assert(count_events(pre.log@, id, EventKind::Closed) == 0);
                lemma_count_events_zero(pre.log@, id, EventKind::Closed);
                assert(pre.log@[i].id != id);
            }
        }
        // fields
        assert forall|i: int| 0 <= i < self.log@.len() implies {
            let e = #[trigger] self.log@[i];
            &&& self.registry.valid_id(e.id)
            &&& e.name@ == self.registry.record_of(e.id).name@
            &&& e.thread < self.stacks@.len()
            &&& (e.kind is Created ==> match self.registry.record_of(e.id).parent {
                Some(p) => match e.parent {
                    Some(pn) => self.registry.valid_id(p) && pn@ == self.registry.record_of(
                        p,
                    ).name@,
                    None => false,
                },
                None => e.parent is None,
            })
            &&& (!(e.kind is Created) ==> e.parent is None)
        } by {
            if i < pre.log@.len() {
                assert(self.log@[i] == pre.log@[i]);
                assert(pre.registry.valid_id(pre.log@[i].id));
                if pre.log@[i].id != id {
                    assert(self.registry.record_of(pre.log@[i].id) == pre.registry.record_of(
                        pre.log@[i].id,
                    ));
                }
                match pre.registry.record_of(pre.log@[i].id).parent {
                    Some(p) => {
                        if p != id {
                            assert(self.registry.record_of(p) == pre.registry.record_of(p));
                        }
                    },
                    None => {},
                }
            }
        }
    }

    /// Exit the span on top of `thread`'s stack: the guard comes off, its
    /// handle is released, and the `Exited` event is delivered. Releasing
    /// the last live handle closes the span, so the `Closed` event follows
    /// at once. Fails exactly when the thread was never registered or its
    /// stack is empty.
    pub fn exit(&mut self, thread: u64) -> (r: Result<u64, PipelineError>)
        requires
            old(self).wf(),
        ensures
            final(self).wf(),
            r is Ok <==> (thread < old(self).stacks@.len() && old(self).stacks@[
                thread as int
            ]@.len() > 0),
            match r {
                Ok(id) => {
                    let closing = old(self).registry.record_of(id).handles == 1;
                    &&& id == old(self).stacks@[thread as int]@.last()
                    &&& old(self).registry.is_open(id)
                    &&& final(self).registry.records@.len() == old(self).registry.records@.len()
                    &&& final(self).registry.record_of(id).name == old(self).registry.record_of(
                        id,
                    ).name
                    &&& final(self).registry.record_of(id).parent == old(self).registry.record_of(
                        id,
                    ).parent
                    &&& final(self).registry.record_of(id).handles == old(self).registry.record_of(
                        id,
                    ).handles - 1
                    &&& final(self).registry.record_of(id).entered == old(self).registry.record_of(
                        id,
                    ).entered - 1
                    &&& final(self).registry.record_of(id).closed == closing
                    &&& forall|j: u64|
                        old(self).registry.valid_id(j) && j != id ==> #[trigger] final(self).registry.record_of(j) == old(self).registry.record_of(j)
                    &&& final(self).stacks@.len() == old(self).stacks@.len()
                    &&& forall|t: int|
                        0 <= t < old(self).stacks@.len() && t != thread as int
                            ==> #[trigger] final(self).stacks@[t] == old(self).stacks@[t]
                    &&& final(self).stacks@[thread as int]@ == old(self).stacks@[
                        thread as int
                    ]@.drop_last()
                    &&& final(self).log@.len() == old(self).log@.len() + (if closing {
                        2int
                    } else {
                        1int
                    })
                    &&& forall|i: int|
                        0 <= i < old(self).log@.len() ==> #[trigger] final(self).log@[i] == old(self).log@[i]
                    &&& final(self).log@[old(self).log@.len() as int].kind == EventKind::Exited
                    &&& final(self).log@[old(self).log@.len() as int].id == id
                    &&& final(self).log@[old(self).log@.len() as int].name@ == old(self).registry.record_of(id).name@
                    &&& final(self).log@[old(self).log@.len() as int].parent is None
                    &&& final(self).log@[old(self).log@.len() as int].thread == thread
                    &&& (closing ==> {
                        &&& final(self).log@.last().kind == EventKind::Closed
                        &&& final(self).log@.last().id == id
                        &&& final(self).log@.last().name@ == old(self).registry.record_of(
                            id,
                        ).name@
                        &&& final(self).log@.last().parent is None
                        &&& final(self).log@.last().thread == thread
                    })
                },
                Err(e) => {
                    &&& final(self).registry == old(self).registry
                    &&& final(self).stacks == old(self).stacks
                    &&& final(self).log == old(self).log
                    &&& (e == PipelineError::UnknownThread <==> thread >= old(self).stacks@.len())
                    &&& (e == PipelineError::EmptyStack <==> (thread < old(self).stacks@.len()
                        && old(self).stacks@[thread as int]@.len() == 0))
                },
            },
    {
        let nthreads = self.stacks.len();
        if !(thread < nthreads as u64) {
            return Err(PipelineError::UnknownThread);
        }
        let tidx = thread as usize;
        if self.stacks[tidx].len() == 0 {
            return Err(PipelineError::EmptyStack);
        }
        let popped = self.stacks[tidx].pop();
        let id = match popped {
            Some(x) => x,
            None => {
                proof {
                    assert(false);
                }
                0
            },
        };
        proof {
            let t = thread as int;
            assert(old(self).stacks@[t]@[old(self).stacks@[t]@.len() - 1] == id);
            assert(old(self).registry.is_open(id));
            lemma_count_in_stack_nonneg(old(self).stacks@[t]@.drop_last(), id);
            assert(count_in_stack(old(self).stacks@[t]@, id) >= 1);
            lemma_stacks_count_lower_bound(old(self).stacks@, t, id);
            assert(old(self).registry.record_of(id).entered >= 1);
        }
        let name = match self.registry.name_of(id) {
            Some(n) => n,
            None => {
                proof {
                    assert(false);
                }
                String::new()
            },
        };
        let closed_now = self.registry.mark_exited(id);
        let ev1 = Event {
            kind: EventKind::Exited,
            id,
            name: name.clone(),
            parent: None,
            thread,
        };
        self.log.push(ev1);
        if closed_now {
            let ev2 = Event { kind: EventKind::Closed, id, name, parent: None, thread };
            self.log.push(ev2);
            proof {
                self.lemma_exit_wf(*old(self), ev1, Some(ev2), id, thread);
            }
        } else {
            proof {
                self.lemma_exit_wf(*old(self), ev1, None, id, thread);
            }
        }
        Ok(id)
    }

    /// The invariant survives exiting a span, with or without the close
    /// that releasing the last handle brings.
    proof fn lemma_exit_wf(&self, pre: Pipeline, ev1: Event, ev2: Option<Event>, id: u64, thread: u64)
        requires
            pre.wf(),
            thread < pre.stacks@.len(),
            pre.stacks@[thread as int]@.len() > 0,
            id == pre.stacks@[thread as int]@.last(),
            pre.registry.is_open(id),
            (ev2 is Some) == (pre.registry.record_of(id).handles == 1),
            self.registry.records@.len() == pre.registry.records@.len(),
            self.registry.record_of(id).name == pre.registry.record_of(id).name,
            self.registry.record_of(id).parent == pre.registry.record_of(id).parent,
            self.registry.record_of(id).handles == pre.registry.record_of(id).handles - 1,
            self.registry.record_of(id).entered == pre.registry.record_of(id).entered - 1,
            self.registry.record_of(id).closed == (ev2 is Some),
            forall|j: u64|
                pre.registry.valid_id(j) && j != id ==> #[trigger] self.registry.record_of(j)
                    == pre.registry.record_of(j),
            self.stacks@.len() == pre.stacks@.len(),
            forall|t: int|
                0 <= t < pre.stacks@.len() && t != thread as int ==> #[trigger] self.stacks@[t]
                    == pre.stacks@[t],
            self.stacks@[thread as int]@ == pre.stacks@[thread as int]@.drop_last(),
            match ev2 {
                Some(e2) => {
                    &&& self.log@ == pre.log@.push(ev1).push(e2)
                    &&& e2.kind == EventKind::Closed
                    &&& e2.id == id
                    &&& e2.name@ == self.registry.record_of(id).name@
                    &&& e2.parent is None
                    &&& e2.thread == thread
                },
                None => self.log@ == pre.log@.push(ev1),
            },
            ev1.kind == EventKind::Exited,
            ev1.id == id,
            ev1.name@ == self.registry.record_of(id).name@,
            ev1.parent is None,
            ev1.thread == thread,
        ensures
            self.wf(),
    {
        let t = thread as int;
        let closing = ev2 is Some;
        assert(self.stacks@ =~= pre.stacks@.update(t, self.stacks@[t]));
        assert(pre.stacks@[t]@ =~= self.stacks@[t]@.push(id));
        assert forall|id2: u64|
            stacks_count(self.stacks@, id2) == stacks_count(pre.stacks@, id2) - (if id2 == id {
                1int
            } else {
                0int
            }) by {
            lemma_stacks_count_update(pre.stacks@, t, self.stacks@[t], id2);
            lemma_count_in_stack_push(self.stacks@[t]@, id, id2);
        }
        if closing {
            assert(pre.registry.record_of(id).entered == 1);
            assert(stacks_count(self.stacks@, id) == 0);
        }
        // no occurrence of a closed id remains on any stack
        assert forall|t2: int, j: int|
            0 <= t2 < self.stacks@.len() && 0 <= j < self.stacks@[t2]@.len() implies self
            .registry.is_open(#[trigger] self.stacks@[t2]@[j]) by {
            let e = self.stacks@[t2]@[j];
            if t2 == t {
                assert(e == pre.stacks@[t2]@[j]);
            } else {
                assert(e == pre.stacks@[t2]@[j]);
            }
            assert(pre.registry.is_open(e));
            if e == id && closing {
                lemma_count_in_stack_witness_pos(self.stacks@[t2]@, id, j);
                lemma_stacks_count_lower_bound(self.stacks@, t2, id);
                assert(false);
            }
            if e != id {
                assert(self.registry.record_of(e) == pre.registry.record_of(e));
            }
        }
        // counts
        let mid = pre.log@.push(ev1);
        assert forall|id2: u64, k: EventKind|
            count_events(self.log@, id2, k) == count_events(pre.log@, id2, k) + (if id2 == id
                && k == EventKind::Exited {
                1int
            } else {
                0int
            }) + (if closing && id2 == id && k == EventKind::Closed {
                1int
            } else {
                0int
            }) by {
            lemma_count_events_push(pre.log@, ev1, id2, k);
            if closing {
                lemma_count_events_push(mid, ev2->0, id2, k);
            }
        }
        assert forall|id2: u64| #[trigger]
            count_events(self.log@, id2, EventKind::Created) == (if self.registry.valid_id(id2) {
                1int
            } else {
                0int
            }) by {
            assert(count_events(pre.log@, id2, EventKind::Created) == (if pre.registry.valid_id(
                id2,
            ) {
                1int
            } else {
                0int
            }));
        }
        assert forall|id2: u64| #[trigger]
            count_events(self.log@, id2, EventKind::Closed) == (if self.registry.valid_id(id2)
                && self.registry.record_of(id2).closed {
                1int
            } else {
                0int
            }) by {
            if id2 != id && pre.registry.valid_id(id2) {
                assert(self.registry.record_of(id2) == pre.registry.record_of(id2));
            }
        }
        assert forall|id2: u64| #[trigger]
            count_events(self.log@, id2, EventKind::Entered) == count_events(
                self.log@,
                id2,
                EventKind::Exited,
            ) + stacks_count(self.stacks@, id2) by {
            assert(count_events(pre.log@, id2, EventKind::Entered) == count_events(
                pre.log@,
                id2,
                EventKind::Exited,
            ) + stacks_count(pre.stacks@, id2));
        }
        // handles
        assert forall|id2: u64| self.registry.valid_id(id2) implies {
            &&& (#[trigger] self.registry.record_of(id2)).entered == stacks_count(
                self.stacks@,
                id2,
            )
            &&& self.registry.record_of(id2).handles >= self.registry.record_of(id2).entered
            &&& (!self.registry.record_of(id2).closed ==> self.registry.record_of(id2).handles
                >= 1)
            &&& (self.registry.record_of(id2).closed ==> self.registry.record_of(id2).handles
                == 0)
        } by {
            if id2 != id {
                assert(self.registry.record_of(id2) == pre.registry.record_of(id2));
            } else {
                lemma_stacks_count_nonneg(self.stacks@, id2);
            }
        }
        // parents
        assert forall|id2: u64| self.registry.valid_id(id2) implies match (
        #[trigger] self.registry.record_of(id2)).parent {
            Some(p) => 1 <= p < id2,
            None => true,
        } by {
            if id2 != id {
                assert(self.registry.record_of(id2) == pre.registry.record_of(id2));
            }
        }
        // order: created-first
        assert forall|i: int|
            0 <= i < self.log@.len() && !((#[trigger] self.log@[i]).kind is Created) implies
            Self::has_created_before(self.log@, self.log@[i].id, i) by {
            if i < pre.log@.len() {
                assert(self.log@[i] == pre.log@[i]);
                assert(Self::has_created_before(pre.log@, pre.log@[i].id, i));
                let j = choose|j: int|
                    0 <= j < i && (#[trigger] pre.log@[j]).kind is Created && pre.log@[j].id
                        == pre.log@[i].id;
                assert((self.log@[j]).kind is Created && self.log@[j].id == self.log@[i].id);
            } else {
                assert(self.log@[i].id == id);
                assert(count_events(pre.log@, id, EventKind::Created) == 1);
                lemma_count_events_pos_witness(pre.log@, id, EventKind::Created);
                let j = choose|j: int|
                    0 <= j < pre.log@.len() && pre.log@[j].id == id && pre.log@[j].kind
                        == EventKind::Created;
                assert((self.log@[j]).kind is Created && self.log@[j].id == id);
            }
        }
        // order: closed-last
        assert forall|i: int, j: int|
            0 <= i < j < self.log@.len() && (#[trigger] self.log@[i]).kind is Closed implies (
        #[trigger] self.log@[j]).id != self.log@[i].id by {
            if i < pre.log@.len() {
                assert(self.log@[i] == pre.log@[i]);
                if j < pre.log@.len() {
                    assert(self.log@[j] == pre.log@[j]);
                } else {
                    assert(self.log@[j].id == id);
                    assert(count_events(pre.log@, id, EventKind::Closed) == 0);
                    lemma_count_events_zero(pre.log@, id, EventKind::Closed);
                    assert(pre.log@[i].id != id);
                }
            } else {
                // the only appended Closed event is the last one
                assert(i == pre.log@.len() + 1 ==> false);
                assert(self.log@[i].kind == EventKind::Exited || j >= self.log@.len());
            }
        }
        // fields
        assert forall|i: int| 0 <= i < self.log@.len() implies {
            let e = #[trigger] self.log@[i];
            &&& self.registry.valid_id(e.id)
            &&& e.name@ == self.registry.record_of(e.id).name@
            &&& e.thread < self.stacks@.len()
            &&& (e.kind is Created ==> match self.registry.record_of(e.id).parent {
                Some(p) => match e.parent {
                    Some(pn) => self.registry.valid_id(p) && pn@ == self.registry.record_of(
                        p,
                    ).name@,
                    None => false,
                },
                None => e.parent is None,
            })
            &&& (!(e.kind is Created) ==> e.parent is None)
        } by {
            if i < pre.log@.len() {
                assert(self.log@[i] == pre.log@[i]);
                assert(pre.registry.valid_id(pre.log@[i].id));
                if pre.log@[i].id != id {
                    assert(self.registry.record_of(pre.log@[i].id) == pre.registry.record_of(
                        pre.log@[i].id,
                    ));
                }
                match pre.registry.record_of(pre.log@[i].id).parent {
                    Some(p) => {
                        if p != id {
                            assert(self.registry.record_of(p) == pre.registry.record_of(p));
                        }
                    },
                    None => {},
                }
            }
        }
    }

    /// Clone a handle of span `id`: one more live reference, no event.
    /// Fails exactly when the id does not resolve.
    pub fn clone_handle(&mut self, id: u64) -> (r: Result<(), PipelineError>)
        requires
            old(self).wf(),
            old(self).registry.is_open(id) ==> old(self).registry.record_of(id).handles
                < u64::MAX,
        ensures
            final(self).wf(),
            r is Ok <==> old(self).registry.is_open(id),
            match r {
                Ok(_) => {
                    &&& final(self).registry.records@.len() == old(self).registry.records@.len()
                    &&& final(self).registry.record_of(id).name == old(self).registry.record_of(
                        id,
                    ).name
                    &&& final(self).registry.record_of(id).parent == old(self).registry.record_of(
                        id,
                    ).parent
                    &&& final(self).registry.record_of(id).handles == old(self).registry.record_of(
                        id,
                    ).handles + 1
                    &&& final(self).registry.record_of(id).entered == old(self).registry.record_of(
                        id,
                    ).entered
                    &&& final(self).registry.is_open(id)
                    &&& forall|j: u64|
                        old(self).registry.valid_id(j) && j != id ==> #[trigger] final(self).registry.record_of(j) == old(self).registry.record_of(j)
                    &&& final(self).stacks == old(self).stacks
                    &&& final(self).log == old(self).log
                },
                Err(e) => {
                    &&& e == PipelineError::UnknownSpan
                    &&& final(self).registry == old(self).registry
                    &&& final(self).stacks == old(self).stacks
                    &&& final(self).log == old(self).log
                },
            },
    {
        match self.registry.handles_of(id) {
            Some(_) => {
                self.registry.add_handles(id, 1);
                proof {
                    let pre = *old(self);
                    assert forall|j: u64| self.registry.valid_id(j) implies (self.registry.is_open(
                        j,
                    ) <==> pre.registry.is_open(j)) by {
                        if j != id {
                            assert(self.registry.record_of(j) == pre.registry.record_of(j));
                        }
                    }
                    assert forall|t2: int, j: int|
                        0 <= t2 < self.stacks@.len() && 0 <= j < self.stacks@[t2]@.len() implies
                        self.registry.is_open(#[trigger] self.stacks@[t2]@[j]) by {
                        assert(pre.registry.is_open(pre.stacks@[t2]@[j]));
                    }
                    assert forall|id2: u64| self.registry.valid_id(id2) implies {
                        &&& (#[trigger] self.registry.record_of(id2)).entered == stacks_count(
                            self.stacks@,
                            id2,
                        )
                        &&& self.registry.record_of(id2).handles >= self.registry.record_of(
                            id2,
                        ).entered
                        &&& (!self.registry.record_of(id2).closed ==> self.registry.record_of(
                            id2,
                        ).handles >= 1)
                        &&& (self.registry.record_of(id2).closed ==> self.registry.record_of(
                            id2,
                        ).handles == 0)
                    } by {
                        if id2 != id {
                            assert(self.registry.record_of(id2) == pre.registry.record_of(id2));
                        }
                    }
                    assert forall|id2: u64| self.registry.valid_id(id2) implies match (
                    #[trigger] self.registry.record_of(id2)).parent {
                        Some(p) => 1 <= p < id2,
                        None => true,
                    } by {
                        if id2 != id {
                            assert(self.registry.record_of(id2) == pre.registry.record_of(id2));
                        }
                    }
                    assert forall|id2: u64| #[trigger]
                        count_events(self.log@, id2, EventKind::Closed) == (if self
                            .registry.valid_id(id2) && self.registry.record_of(id2).closed {
                            1int
                        } else {
                            0int
                        }) by {
                        if id2 != id && pre.registry.valid_id(id2) {
                            assert(self.registry.record_of(id2) == pre.registry.record_of(id2));
                        }
                    }
                    assert forall|i: int| 0 <= i < self.log@.len() implies {
                        let e = #[trigger] self.log@[i];
                        &&& self.registry.valid_id(e.id)
                        &&& e.name@ == self.registry.record_of(e.id).name@
                        &&& e.thread < self.stacks@.len()
                        &&& (e.kind is Created ==> match self.registry.record_of(e.id).parent {
                            Some(p) => match e.parent {
                                Some(pn) => self.registry.valid_id(p) && pn@ == self
                                    .registry.record_of(p).name@,
                                None => false,
                            },
                            None => e.parent is None,
                        })
                        &&& (!(e.kind is Created) ==> e.parent is None)
                    } by {
                        assert(pre.registry.valid_id(pre.log@[i].id));
                        if pre.log@[i].id != id {
                            assert(self.registry.record_of(pre.log@[i].id)
                                == pre.registry.record_of(pre.log@[i].id));
                        }
                        match pre.registry.record_of(pre.log@[i].id).parent {
                            Some(p) => {
                                if p != id {
                                    assert(self.registry.record_of(p) == pre.registry.record_of(
                                        p,
                                    ));
                                }
                            },
                            None => {},
                        }
                    }
                }
                Ok(())
            },
            None => Err(PipelineError::UnknownSpan),
        }
    }

    /// Release a handle of span `id` that no enter guard holds, on
    /// `thread`. Releasing the last live handle closes the span and
    /// delivers the `Closed` event on the releasing thread. Fails exactly
    /// when the thread was never registered, the id does not resolve, or
    /// every live handle is held by an outstanding guard.
    pub fn drop_handle(&mut self, thread: u64, id: u64) -> (r: Result<bool, PipelineError>)
        requires
            old(self).wf(),
        ensures
            final(self).wf(),
            r is Ok <==> (thread < old(self).stacks@.len() && old(self).registry.is_open(id)
                && old(self).registry.record_of(id).handles > old(self).registry.record_of(
                id,
            ).entered),
            match r {
                Ok(closed_now) => {
                    &&& closed_now == (old(self).registry.record_of(id).handles == 1)
                    &&& final(self).registry.records@.len() == old(self).registry.records@.len()
                    &&& final(self).registry.record_of(id).name == old(self).registry.record_of(
                        id,
                    ).name
                    &&& final(self).registry.record_of(id).parent == old(self).registry.record_of(
                        id,
                    ).parent
                    &&& final(self).registry.record_of(id).handles == old(self).registry.record_of(
                        id,
                    ).handles - 1
                    &&& final(self).registry.record_of(id).entered == old(self).registry.record_of(
                        id,
                    ).entered
                    &&& final(self).registry.record_of(id).closed == closed_now
                    &&& forall|j: u64|
                        old(self).registry.valid_id(j) && j != id ==> #[trigger] final(self).registry.record_of(j) == old(self).registry.record_of(j)
                    &&& final(self).stacks == old(self).stacks
                    &&& final(self).log@.len() == old(self).log@.len() + (if closed_now {
                        1int
                    } else {
                        0int
                    })
                    &&& forall|i: int|
                        0 <= i < old(self).log@.len() ==> #[trigger] final(self).log@[i] == old(self).log@[i]
                    &&& (closed_now ==> {
                        &&& final(self).log@.last().kind == EventKind::Closed
                        &&& final(self).log@.last().id == id
                        &&& final(self).log@.last().name@ == old(self).registry.record_of(
                            id,
                        ).name@
                        &&& final(self).log@.last().parent is None
                        &&& final(self).log@.last().thread == thread
                    })
                },
                Err(e) => {
                    &&& final(self).registry == old(self).registry
                    &&& final(self).stacks == old(self).stacks
                    &&& final(self).log == old(self).log
                    &&& (e == PipelineError::UnknownThread <==> thread >= old(self).stacks@.len())
                    &&& (e == PipelineError::UnknownSpan <==> (thread < old(self).stacks@.len()
                        && !old(self).registry.is_open(id)))
                    &&& (e == PipelineError::NoFreeHandle <==> (thread < old(self).stacks@.len()
                        && old(self).registry.is_open(id) && old(self).registry.record_of(
                        id,
                    ).handles == old(self).registry.record_of(id).entered))
                },
            },
    {
        let nthreads = self.stacks.len();
        if !(thread < nthreads as u64) {
            return Err(PipelineError::UnknownThread);
        }
        let h = match self.registry.handles_of(id) {
            Some(h) => h,
            None => {
                return Err(PipelineError::UnknownSpan);
            },
        };
        let ent = match self.registry.entered_of(id) {
            Some(x) => x,
            None => {
                proof {
                    assert(false);
                }
                0
            },
        };
        if h == ent {
            return Err(PipelineError::NoFreeHandle);
        }
        proof {
            assert(self.registry.record_of(id).handles > self.registry.record_of(id).entered);
            lemma_stacks_count_nonneg(self.stacks@, id);
        }
        let name = match self.registry.name_of(id) {
            Some(n) => n,
            None => {
                proof {
                    assert(false);
                }
                String::new()
            },
        };
        let closed_now = self.registry.release_handle(id);
        if closed_now {
            let ev = Event { kind: EventKind::Closed, id, name, parent: None, thread };
            self.log.push(ev);
            proof {
                self.lemma_drop_wf(*old(self), Some(ev), id, thread);
            }
        } else {
            proof {
                self.lemma_drop_wf(*old(self), None, id, thread);
            }
        }
        Ok(closed_now)
    }

    /// The invariant survives releasing a free handle, with or without the
    /// close that releasing the last one brings.
    proof fn lemma_drop_wf(&self, pre: Pipeline, ev: Option<Event>, id: u64, thread: u64)
        requires
            pre.wf(),
            thread < pre.stacks@.len(),
            pre.registry.is_open(id),
            pre.registry.record_of(id).handles > pre.registry.record_of(id).entered,
            (ev is Some) == (pre.registry.record_of(id).handles == 1),
            self.registry.records@.len() == pre.registry.records@.len(),
            self.registry.record_of(id).name == pre.registry.record_of(id).name,
            self.registry.record_of(id).parent == pre.registry.record_of(id).parent,
            self.registry.record_of(id).handles == pre.registry.record_of(id).handles - 1,
            self.registry.record_of(id).entered == pre.registry.record_of(id).entered,
            self.registry.record_of(id).closed == (ev is Some),
            forall|j: u64|
                pre.registry.valid_id(j) && j != id ==> #[trigger] self.registry.record_of(j)
                    == pre.registry.record_of(j),
            self.stacks == pre.stacks,
            match ev {
                Some(e) => {
                    &&& self.log@ == pre.log@.push(e)
                    &&& e.kind == EventKind::Closed
                    &&& e.id == id
                    &&& e.name@ == self.registry.record_of(id).name@
                    &&& e.parent is None
                    &&& e.thread == thread
                },
                None => self.log@ == pre.log@,
            },
        ensures
            self.wf(),
    {
        let closing = ev is Some;
        if closing {
            assert(pre.registry.record_of(id).entered == 0);
            assert(stacks_count(self.stacks@, id) == 0);
        }
        assert forall|t2: int, j: int|
            0 <= t2 < self.stacks@.len() && 0 <= j < self.stacks@[t2]@.len() implies self
            .registry.is_open(#[trigger] self.stacks@[t2]@[j]) by {
            let e = self.stacks@[t2]@[j];
            assert(pre.registry.is_open(pre.stacks@[t2]@[j]));
            if e == id && closing {
                lemma_count_in_stack_witness_pos(self.stacks@[t2]@, id, j);
                lemma_stacks_count_lower_bound(self.stacks@, t2, id);
                assert(false);
            }
            if e != id {
                assert(self.registry.record_of(e) == pre.registry.record_of(e));
            }
        }
        assert forall|id2: u64, k: EventKind|
            count_events(self.log@, id2, k) == count_events(pre.log@, id2, k) + (if closing && id2
                == id && k == EventKind::Closed {
                1int
            } else {
                0int
            }) by {
            if closing {
                lemma_count_events_push(pre.log@, ev->0, id2, k);
            }
        }
        assert forall|id2: u64| #[trigger]
            count_events(self.log@, id2, EventKind::Created) == (if self.registry.valid_id(id2) {
                1int
            } else {
                0int
            }) by {
            assert(count_events(pre.log@, id2, EventKind::Created) == (if pre.registry.valid_id(
                id2,
            ) {
                1int
            } else {
                0int
            }));
        }
        assert forall|id2: u64| #[trigger]
            count_events(self.log@, id2, EventKind::Closed) == (if self.registry.valid_id(id2)
                && self.registry.record_of(id2).closed {
                1int
            } else {
                0int
            }) by {
            if id2 != id && pre.registry.valid_id(id2) {
                assert(self.registry.record_of(id2) == pre.registry.record_of(id2));
            }
        }
        assert forall|id2: u64| #[trigger]
            count_events(self.log@, id2, EventKind::Entered) == count_events(
                self.log@,
                id2,
                EventKind::Exited,
            ) + stacks_count(self.stacks@, id2) by {
            assert(count_events(pre.log@, id2, EventKind::Entered) == count_events(
                pre.log@,
                id2,
                EventKind::Exited,
            ) + stacks_count(pre.stacks@, id2));
        }
        assert forall|id2: u64| self.registry.valid_id(id2) implies {
            &&& (#[trigger] self.registry.record_of(id2)).entered == stacks_count(
                self.stacks@,
                id2,
            )
            &&& self.registry.record_of(id2).handles >= self.registry.record_of(id2).entered
            &&& (!self.registry.record_of(id2).closed ==> self.registry.record_of(id2).handles
                >= 1)
            &&& (self.registry.record_of(id2).closed ==> self.registry.record_of(id2).handles
                == 0)
        } by {
            if id2 != id {
                assert(self.registry.record_of(id2) == pre.registry.record_of(id2));
            }
        }
        assert forall|id2: u64| self.registry.valid_id(id2) implies match (
        #[trigger] self.registry.record_of(id2)).parent {
            Some(p) => 1 <= p < id2,
            None => true,
        } by {
            if id2 != id {
                assert(self.registry.record_of(id2) == pre.registry.record_of(id2));
            }
        }
        assert forall|i: int|
            0 <= i < self.log@.len() && !((#[trigger] self.log@[i]).kind is Created) implies
            Self::has_created_before(self.log@, self.log@[i].id, i) by {
            if i < pre.log@.len() {
                assert(self.log@[i] == pre.log@[i]);
                assert(Self::has_created_before(pre.log@, pre.log@[i].id, i));
                let j = choose|j: int|
                    0 <= j < i && (#[trigger] pre.log@[j]).kind is Created && pre.log@[j].id
                        == pre.log@[i].id;
                assert((self.log@[j]).kind is Created && self.log@[j].id == self.log@[i].id);
            } else {
                assert(self.log@[i].id == id);
                assert(count_events(pre.log@, id, EventKind::Created) == 1);
                lemma_count_events_pos_witness(pre.log@, id, EventKind::Created);
                let j = choose|j: int|
                    0 <= j < pre.log@.len() && pre.log@[j].id == id && pre.log@[j].kind
                        == EventKind::Created;
                assert((self.log@[j]).kind is Created && self.log@[j].id == id);
            }
        }
        assert forall|i: int, j: int|
            0 <= i < j < self.log@.len() && (#[trigger] self.log@[i]).kind is Closed implies (
        #[trigger] self.log@[j]).id != self.log@[i].id by {
            if i < pre.log@.len() {
                assert(self.log@[i] == pre.log@[i]);
                if j < pre.log@.len() {
                    assert(self.log@[j] == pre.log@[j]);
                } else {
                    assert(self.log@[j].id == id);
                    assert(count_events(pre.log@, id, EventKind::Closed) == 0);
                    lemma_count_events_zero(pre.log@, id, EventKind::Closed);
                    assert(pre.log@[i].id != id);
                }
            }
        }
        assert forall|i: int| 0 <= i < self.log@.len() implies {
            let e = #[trigger] self.log@[i];
            &&& self.registry.valid_id(e.id)
            &&& e.name@ == self.registry.record_of(e.id).name@
            &&& e.thread < self.stacks@.len()
            &&& (e.kind is Created ==> match self.registry.record_of(e.id).parent {
                Some(p) => match e.parent {
                    Some(pn) => self.registry.valid_id(p) && pn@ == self.registry.record_of(
                        p,
                    ).name@,
                    None => false,
                },
                None => e.parent is None,
            })
            &&& (!(e.kind is Created) ==> e.parent is None)
        } by {
            if i < pre.log@.len() {
                assert(self.log@[i] == pre.log@[i]);
                assert(pre.registry.valid_id(pre.log@[i].id));
                if pre.log@[i].id != id {
                    assert(self.registry.record_of(pre.log@[i].id) == pre.registry.record_of(
                        pre.log@[i].id,
                    ));
                }
                match pre.registry.record_of(pre.log@[i].id).parent {
                    Some(p) => {
                        if p != id {
                            assert(self.registry.record_of(p) == pre.registry.record_of(p));
                        }
                    },
                    None => {},
                }
            }
        }
    }
}

} // verus!