use vstd::prelude::*;
use crate::events::{Event, EventKind};
use crate::pipeline::Pipeline;

verus! {

/// The id the root span gets in the demo: the first one assigned.
pub open spec fn root_id() -> u64 {
    1
}

/// The id of the first worker's child span: the second registered when the
/// first worker opens its spans first, the third otherwise.
pub open spec fn bar_id(thread2_first: bool) -> u64 {
    if thread2_first {
        3
    } else {
        2
    }
}

/// The id of the second worker's child span.
pub open spec fn baz_id(thread2_first: bool) -> u64 {
    if thread2_first {
        2
    } else {
        3
    }
}

/// The (kind, span id, thread) triple of each logged event.
pub open spec fn log_tuples(log: Seq<Event>) -> Seq<(EventKind, u64, u64)> {
    log.map_values(|e: Event| (e.kind, e.id, e.thread))
}

/// The full event schedule the demo produces: the root span is created on
/// the main thread and cloned, each worker enters the root, creates its
/// own child and enters it, and the second worker — whose sleep is
/// shorter — unwinds first. The sleep bias decides only which worker
/// opens its spans first.
pub open spec fn schedule(thread2_first: bool) -> Seq<(EventKind, u64, u64)> {
    let b = bar_id(thread2_first);
    let z = baz_id(thread2_first);
    if !thread2_first {
        seq![
            (EventKind::Created, 1u64, 0u64),
            (EventKind::Entered, 1u64, 1u64),
            (EventKind::Created, b, 1u64),
            (EventKind::Entered, b, 1u64),
            (EventKind::Entered, 1u64, 2u64),
            (EventKind::Created, z, 2u64),
            (EventKind::Entered, z, 2u64),
            (EventKind::Exited, z, 2u64),
            (EventKind::Closed, z, 2u64),
            (EventKind::Exited, 1u64, 2u64),
            (EventKind::Exited, b, 1u64),
            (EventKind::Closed, b, 1u64),
            (EventKind::Exited, 1u64, 1u64),
            (EventKind::Closed, 1u64, 1u64),
        ]
    } else {
        seq![
            (EventKind::Created, 1u64, 0u64),
            (EventKind::Entered, 1u64, 2u64),
            (EventKind::Created, z, 2u64),
            (EventKind::Entered, z, 2u64),
            (EventKind::Entered, 1u64, 1u64),
            (EventKind::Created, b, 1u64),
            (EventKind::Entered, b, 1u64),
            (EventKind::Exited, z, 2u64),
            (EventKind::Closed, z, 2u64),
            (EventKind::Exited, 1u64, 2u64),
            (EventKind::Exited, b, 1u64),
            (EventKind::Closed, b, 1u64),
            (EventKind::Exited, 1u64, 1u64),
            (EventKind::Closed, 1u64, 1u64),
        ]
    }
}

/// One worker's opening phase: enter the shared root span, create the
/// worker's own child span under it, and enter the child.
fn worker_open(p: &mut Pipeline, t: u64, root: u64, name: String) -> (id: u64)
    requires
        old(p).wf(),
        t < old(p).stacks@.len(),
        old(p).stacks@[t as int]@.len() == 0,
        old(p).registry.is_open(root),
        old(p).registry.record_of(root).handles < u64::MAX - 1,
        old(p).registry.records@.len() < u64::MAX - 1,
    ensures
        final(p).wf(),
        id == old(p).registry.next_id(),
        final(p).registry.records@.len() == old(p).registry.records@.len() + 1,
        final(p).registry.is_open(id),
        final(p).registry.record_of(id).name@ == name@,
        final(p).registry.record_of(id).parent == Some(root),
        final(p).registry.record_of(id).handles == 2,
        final(p).registry.record_of(id).entered == 1,
        final(p).registry.is_open(root),
        final(p).registry.record_of(root).name == old(p).registry.record_of(root).name,
        final(p).registry.record_of(root).parent == old(p).registry.record_of(root).parent,
        final(p).registry.record_of(root).handles == old(p).registry.record_of(root).handles
            + 1,
        final(p).registry.record_of(root).entered == old(p).registry.record_of(root).entered
            + 1,
        forall|j: u64|
            old(p).registry.valid_id(j) && j != root ==> #[trigger] final(p).registry.record_of(j)
                == old(p).registry.record_of(j),
        final(p).stacks@.len() == old(p).stacks@.len(),
        forall|t2: int|
            0 <= t2 < old(p).stacks@.len() && t2 != t as int ==> #[trigger] final(p).stacks@[t2]
                == old(p).stacks@[t2],
        final(p).stacks@[t as int]@ =~= seq![root, id],
        final(p).log@.len() == old(p).log@.len() + 3,
        forall|i: int|
            0 <= i < old(p).log@.len() ==> #[trigger] final(p).log@[i] == old(p).log@[i],
        final(p).log@[old(p).log@.len() as int].kind == EventKind::Entered,
        final(p).log@[old(p).log@.len() as int].id == root,
        final(p).log@[old(p).log@.len() as int].thread == t,
        final(p).log@[old(p).log@.len() as int + 1].kind == EventKind::Created,
        final(p).log@[old(p).log@.len() as int + 1].id == id,
        final(p).log@[old(p).log@.len() as int + 1].thread == t,
        final(p).log@[old(p).log@.len() as int + 1]@.parent == Some(
            old(p).registry.record_of(root).name@,
        ),
        final(p).log@[old(p).log@.len() as int + 1].name@ == name@,
        final(p).log@[old(p).log@.len() as int + 2].kind == EventKind::Entered,
        final(p).log@[old(p).log@.len() as int + 2].id == id,
        final(p).log@[old(p).log@.len() as int + 2].thread == t,
{
    let r1 = p.enter(t, root);
    proof {
        assert(r1 is Ok);
    }
    let id = match p.new_span(t, name) {
        Ok(id) => id,
        Err(_) => {
            proof {
                assert(false);
            }
            0
        },
    };
    proof {
        assert(p.stacks@[t as int]@.len() == 1);
        assert(p.stacks@[t as int]@.last() == root);
    }
    let r3 = p.enter(t, id);
    proof {
        assert(r3 is Ok);
        assert(p.stacks@[t as int]@ =~= seq![root, id]);
    }
    id
}

/// One worker's unwinding phase: the child's guard comes off and its
/// handle goes (closing the child), then the root's guard comes off and
/// the worker's clone of the root goes — closing the root only if it was
/// the last handle.
fn worker_close(p: &mut Pipeline, t: u64, root: u64, child: u64) -> (closed_root: bool)
    requires
        old(p).wf(),
        t < old(p).stacks@.len(),
        old(p).stacks@[t as int]@ =~= seq![root, child],
        root != child,
        old(p).registry.is_open(child),
        old(p).registry.record_of(child).handles == 2,
        old(p).registry.record_of(child).entered == 1,
        old(p).registry.is_open(root),
        old(p).registry.record_of(root).handles >= 2,
        old(p).registry.record_of(root).handles > old(p).registry.record_of(root).entered,
        old(p).registry.record_of(root).entered >= 1,
    ensures
        final(p).wf(),
        closed_root == (old(p).registry.record_of(root).handles == 2),
        final(p).registry.records@.len() == old(p).registry.records@.len(),
        !final(p).registry.is_open(child),
        final(p).registry.record_of(child).name == old(p).registry.record_of(child).name,
        final(p).registry.record_of(child).parent == old(p).registry.record_of(child).parent,
        final(p).registry.record_of(child).handles == 0,
        final(p).registry.record_of(child).entered == 0,
        final(p).registry.record_of(root).name == old(p).registry.record_of(root).name,
        final(p).registry.record_of(root).parent == old(p).registry.record_of(root).parent,
        final(p).registry.record_of(root).handles == old(p).registry.record_of(root).handles
            - 2,
        final(p).registry.record_of(root).entered == old(p).registry.record_of(root).entered
            - 1,
        final(p).registry.record_of(root).closed == closed_root,
        forall|j: u64|
            old(p).registry.valid_id(j) && j != root && j != child ==> #[trigger] final(p).registry.record_of(j) == old(p).registry.record_of(j),
        final(p).stacks@.len() == old(p).stacks@.len(),
        forall|t2: int|
            0 <= t2 < old(p).stacks@.len() && t2 != t as int ==> #[trigger] final(p).stacks@[t2]
                == old(p).stacks@[t2],
        final(p).stacks@[t as int]@.len() == 0,
        final(p).log@.len() == old(p).log@.len() + 3 + (if closed_root {
            1int
        } else {
            0int
        }),
        forall|i: int|
            0 <= i < old(p).log@.len() ==> #[trigger] final(p).log@[i] == old(p).log@[i],
        final(p).log@[old(p).log@.len() as int].kind == EventKind::Exited,
        final(p).log@[old(p).log@.len() as int].id == child,
        final(p).log@[old(p).log@.len() as int].thread == t,
        final(p).log@[old(p).log@.len() as int + 1].kind == EventKind::Closed,
        final(p).log@[old(p).log@.len() as int + 1].id == child,
        final(p).log@[old(p).log@.len() as int + 1].thread == t,
        final(p).log@[old(p).log@.len() as int + 2].kind == EventKind::Exited,
        final(p).log@[old(p).log@.len() as int + 2].id == root,
        final(p).log@[old(p).log@.len() as int + 2].thread == t,
        closed_root ==> {
            &&& final(p).log@[old(p).log@.len() as int + 3].kind == EventKind::Closed
            &&& final(p).log@[old(p).log@.len() as int + 3].id == root
            &&& final(p).log@[old(p).log@.len() as int + 3].thread == t
        },
{
    let r1 = p.exit(t);
    proof {
        assert(r1 is Ok);
        assert(r1 matches Ok(x) ==> x == child);
    }
    let r2 = p.drop_handle(t, child);
    proof {
        assert(r2 is Ok);
    }
    let r3 = p.exit(t);
    proof {
        assert(r3 is Ok);
        assert(p.stacks@[t as int]@.len() == 0);
    }
    let closed_root = match p.drop_handle(t, root) {
        Ok(b) => b,
        Err(_) => {
            proof {
                assert(false);
            }
            false
        },
    };
    closed_root
}

/// Drive the pipeline through the whole demo: one root span created on
/// the main thread and cloned, two workers that each enter the shared
/// root and one child of their own, and both unwinding, second worker
/// first. `thread2_first` inverts the sleep bias: it decides only which
/// worker opens its spans first.
#[verifier::rlimit(100)]
pub fn run_demo(thread2_first: bool) -> (p: Pipeline)
    ensures
        p.wf(),
        p.log@.len() == 14,
        log_tuples(p.log@) == schedule(thread2_first),
        p.registry.records@.len() == 3,
        p.registry.record_of(root_id()).name@ == "foo"@,
        p.registry.record_of(root_id()).parent is None,
        p.registry.record_of(bar_id(thread2_first)).name@ == "bar"@,
        p.registry.record_of(bar_id(thread2_first)).parent == Some(root_id()),
        p.registry.record_of(baz_id(thread2_first)).name@ == "baz"@,
        p.registry.record_of(baz_id(thread2_first)).parent == Some(root_id()),
        // the parent name recorded at creation of either child is the
        // root's declared name
        forall|i: int|
            0 <= i < p.log@.len() && (#[trigger] p.log@[i]).kind is Created && p.log@[i].id
                != root_id() ==> p.log@[i]@.parent == Some("foo"@),
        // the root is created without a parent
        forall|i: int|
            0 <= i < p.log@.len() && (#[trigger] p.log@[i]).kind is Created && p.log@[i].id
                == root_id() ==> p.log@[i]@.parent is None,
        // every event of the first worker's child is observed on thread 1,
        // every event of the second worker's child on thread 2
        forall|i: int|
            0 <= i < p.log@.len() && (#[trigger] p.log@[i]).id == bar_id(thread2_first)
                ==> p.log@[i].thread == 1,
        forall|i: int|
            0 <= i < p.log@.len() && (#[trigger] p.log@[i]).id == baz_id(thread2_first)
                ==> p.log@[i].thread == 2,
{
    let mut p = Pipeline::new();
    let t0 = p.register_thread();
    let t1 = p.register_thread();
    let t2 = p.register_thread();
    proof {
        assert(t0 == 0 && t1 == 1 && t2 == 2);
    }
    let foo = match p.new_span(t0, String::from_str("foo")) {
        Ok(id) => id,
        Err(_) => {
            proof {
                assert(false);
            }
            0
        },
    };
    proof {
        assert(foo == 1);
        assert(p.registry.record_of(1u64).name@ == "foo"@);
    }
    let rc = p.clone_handle(foo);
    proof {
        assert(rc is Ok);
    }
    let (bar, baz) = if !thread2_first {
        let bar = worker_open(&mut p, t1, foo, String::from_str("bar"));
        let baz = worker_open(&mut p, t2, foo, String::from_str("baz"));
        (bar, baz)
    } else {
        let baz = worker_open(&mut p, t2, foo, String::from_str("baz"));
        let bar = worker_open(&mut p, t1, foo, String::from_str("bar"));
        (bar, baz)
    };
    proof {
        assert(bar == bar_id(thread2_first));
        assert(baz == baz_id(thread2_first));
        assert(p.registry.record_of(foo).handles == 4);
    }
    let c2 = worker_close(&mut p, t2, foo, baz);
    proof {
        assert(!c2);
    }
    let c1 = worker_close(&mut p, t1, foo, bar);
    proof {
        assert(c1);
        let s = p.log@;
        assert(s.len() == 14);
        assert forall|i: int| 0 <= i < 14 implies log_tuples(s)[i] == schedule(thread2_first)[i]
            by {
            assert(log_tuples(s)[i] == (s[i].kind, s[i].id, s[i].thread));
        }
        assert(log_tuples(s) =~= schedule(thread2_first));
        assert forall|i: int|
            0 <= i < s.len() && (#[trigger] s[i]).kind is Created && s[i].id != root_id() implies
            s[i]@.parent == Some("foo"@) by {
            assert(log_tuples(s)[i] == schedule(thread2_first)[i]);
        }
        assert forall|i: int|
            0 <= i < s.len() && (#[trigger] s[i]).kind is Created && s[i].id == root_id() implies
            s[i]@.parent is None by {
            assert(log_tuples(s)[i] == schedule(thread2_first)[i]);
        }
        assert forall|i: int|
            0 <= i < s.len() && (#[trigger] s[i]).id == bar_id(thread2_first) implies s[i].thread
            == 1 by {
            assert(log_tuples(s)[i] == schedule(thread2_first)[i]);
        }
        assert forall|i: int|
            0 <= i < s.len() && (#[trigger] s[i]).id == baz_id(thread2_first) implies s[i].thread
            == 2 by {
            assert(log_tuples(s)[i] == schedule(thread2_first)[i]);
        }
    }
    p
}

/// The (kind, thread) pairs of the events of span `id`, in log order: the
/// per-span projection of a schedule.
pub open spec fn tuples_of_id(s: Seq<(EventKind, u64, u64)>, id: u64) -> Seq<(EventKind, u64)>
    decreases s.len(),
{
    if s.len() == 0 {
        Seq::empty()
    } else {
        let rest = tuples_of_id(s.drop_last(), id);
        if s.last().1 == id {
            rest.push((s.last().0, s.last().2))
        } else {
            rest
        }
    }
}

proof fn lemma_tuples_of_id_push(s: Seq<(EventKind, u64, u64)>, x: (EventKind, u64, u64), id: u64)
    ensures
        tuples_of_id(s.push(x), id) == if x.1 == id {
            tuples_of_id(s, id).push((x.0, x.2))
        } else {
            tuples_of_id(s, id)
        },
{
    assert(s.push(x).drop_last() =~= s);
    assert(s.push(x).last() == x);
}

/// Inverting the sleep bias leaves the recorded events of each span
/// unchanged in content and per-span order. Each child span's events are
/// identical between the two runs — same kinds, same order, same thread.
/// The root's per-span projection differs only by exchanging the two
/// cross-thread `Entered` observations (and so keeps the same kind order
/// and the same multiset of events): no ordering assumption is baked into
/// the recorder.
#[verifier::rlimit(100)]
pub proof fn lemma_bias_independent_per_span()
    ensures
        tuples_of_id(schedule(false), bar_id(false)) == tuples_of_id(
            schedule(true),
            bar_id(true),
        ),
        tuples_of_id(schedule(false), baz_id(false)) == tuples_of_id(
            schedule(true),
            baz_id(true),
        ),
        tuples_of_id(schedule(true), root_id()) == tuples_of_id(schedule(false), root_id())
            .update(1, tuples_of_id(schedule(false), root_id())[2]).update(
            2,
            tuples_of_id(schedule(false), root_id())[1],
        ),
    {
        let f0 = Seq::<(EventKind, u64, u64)>::empty();
        let f1 = f0.push((EventKind::Created, 1u64, 0u64));
        let f2 = f1.push((EventKind::Entered, 1u64, 1u64));
        let f3 = f2.push((EventKind::Created, 2u64, 1u64));
        let f4 = f3.push((EventKind::Entered, 2u64, 1u64));
        let f5 = f4.push((EventKind::Entered, 1u64, 2u64));
        let f6 = f5.push((EventKind::Created, 3u64, 2u64));
        let f7 = f6.push((EventKind::Entered, 3u64, 2u64));
        let f8 = f7.push((EventKind::Exited, 3u64, 2u64));
        let f9 = f8.push((EventKind::Closed, 3u64, 2u64));
        let f10 = f9.push((EventKind::Exited, 1u64, 2u64));
        let f11 = f10.push((EventKind::Exited, 2u64, 1u64));
        let f12 = f11.push((EventKind::Closed, 2u64, 1u64));
        let f13 = f12.push((EventKind::Exited, 1u64, 1u64));
        let f14 = f13.push((EventKind::Closed, 1u64, 1u64));
        assert(tuples_of_id(f0, 1u64) =~= Seq::<(EventKind, u64)>::empty());
        lemma_tuples_of_id_push(f0, (EventKind::Created, 1u64, 0u64), 1u64);
        lemma_tuples_of_id_push(f1, (EventKind::Entered, 1u64, 1u64), 1u64);
        lemma_tuples_of_id_push(f2, (EventKind::Created, 2u64, 1u64), 1u64);
        lemma_tuples_of_id_push(f3, (EventKind::Entered, 2u64, 1u64), 1u64);
        lemma_tuples_of_id_push(f4, (EventKind::Entered, 1u64, 2u64), 1u64);
        lemma_tuples_of_id_push(f5, (EventKind::Created, 3u64, 2u64), 1u64);
        lemma_tuples_of_id_push(f6, (EventKind::Entered, 3u64, 2u64), 1u64);
        lemma_tuples_of_id_push(f7, (EventKind::Exited, 3u64, 2u64), 1u64);
        lemma_tuples_of_id_push(f8, (EventKind::Closed, 3u64, 2u64), 1u64);
        lemma_tuples_of_id_push(f9, (EventKind::Exited, 1u64, 2u64), 1u64);
        lemma_tuples_of_id_push(f10, (EventKind::Exited, 2u64, 1u64), 1u64);
        lemma_tuples_of_id_push(f11, (EventKind::Closed, 2u64, 1u64), 1u64);
        lemma_tuples_of_id_push(f12, (EventKind::Exited, 1u64, 1u64), 1u64);
        lemma_tuples_of_id_push(f13, (EventKind::Closed, 1u64, 1u64), 1u64);
        assert(tuples_of_id(f0, 2u64) =~= Seq::<(EventKind, u64)>::empty());
        lemma_tuples_of_id_push(f0, (EventKind::Created, 1u64, 0u64), 2u64);
        lemma_tuples_of_id_push(f1, (EventKind::Entered, 1u64, 1u64), 2u64);
        lemma_tuples_of_id_push(f2, (EventKind::Created, 2u64, 1u64), 2u64);
        lemma_tuples_of_id_push(f3, (EventKind::Entered, 2u64, 1u64), 2u64);
        lemma_tuples_of_id_push(f4, (EventKind::Entered, 1u64, 2u64), 2u64);
        lemma_tuples_of_id_push(f5, (EventKind::Created, 3u64, 2u64), 2u64);
        lemma_tuples_of_id_push(f6, (EventKind::Entered, 3u64, 2u64), 2u64);
        lemma_tuples_of_id_push(f7, (EventKind::Exited, 3u64, 2u64), 2u64);
        lemma_tuples_of_id_push(f8, (EventKind::Closed, 3u64, 2u64), 2u64);
        lemma_tuples_of_id_push(f9, (EventKind::Exited, 1u64, 2u64), 2u64);
        lemma_tuples_of_id_push(f10, (EventKind::Exited, 2u64, 1u64), 2u64);
        lemma_tuples_of_id_push(f11, (EventKind::Closed, 2u64, 1u64), 2u64);
        lemma_tuples_of_id_push(f12, (EventKind::Exited, 1u64, 1u64), 2u64);
        lemma_tuples_of_id_push(f13, (EventKind::Closed, 1u64, 1u64), 2u64);
        assert(tuples_of_id(f0, 3u64) =~= Seq::<(EventKind, u64)>::empty());
        lemma_tuples_of_id_push(f0, (EventKind::Created, 1u64, 0u64), 3u64);
        lemma_tuples_of_id_push(f1, (EventKind::Entered, 1u64, 1u64), 3u64);
        lemma_tuples_of_id_push(f2, (EventKind::Created, 2u64, 1u64), 3u64);
        lemma_tuples_of_id_push(f3, (EventKind::Entered, 2u64, 1u64), 3u64);
        lemma_tuples_of_id_push(f4, (EventKind::Entered, 1u64, 2u64), 3u64);
        lemma_tuples_of_id_push(f5, (EventKind::Created, 3u64, 2u64), 3u64);
        lemma_tuples_of_id_push(f6, (EventKind::Entered, 3u64, 2u64), 3u64);
        lemma_tuples_of_id_push(f7, (EventKind::Exited, 3u64, 2u64), 3u64);
        lemma_tuples_of_id_push(f8, (EventKind::Closed, 3u64, 2u64), 3u64);
        lemma_tuples_of_id_push(f9, (EventKind::Exited, 1u64, 2u64), 3u64);
        lemma_tuples_of_id_push(f10, (EventKind::Exited, 2u64, 1u64), 3u64);
        lemma_tuples_of_id_push(f11, (EventKind::Closed, 2u64, 1u64), 3u64);
        lemma_tuples_of_id_push(f12, (EventKind::Exited, 1u64, 1u64), 3u64);
        lemma_tuples_of_id_push(f13, (EventKind::Closed, 1u64, 1u64), 3u64);
        assert(schedule(false) =~= f14);
        let t0 = Seq::<(EventKind, u64, u64)>::empty();
        let t1 = t0.push((EventKind::Created, 1u64, 0u64));
        let t2 = t1.push((EventKind::Entered, 1u64, 2u64));
        let t3 = t2.push((EventKind::Created, 2u64, 2u64));
        let t4 = t3.push((EventKind::Entered, 2u64, 2u64));
        let t5 = t4.push((EventKind::Entered, 1u64, 1u64));
        let t6 = t5.push((EventKind::Created, 3u64, 1u64));
        let t7 = t6.push((EventKind::Entered, 3u64, 1u64));
        let t8 = t7.push((EventKind::Exited, 2u64, 2u64));
        let t9 = t8.push((EventKind::Closed, 2u64, 2u64));
        let t10 = t9.push((EventKind::Exited, 1u64, 2u64));
        let t11 = t10.push((EventKind::Exited, 3u64, 1u64));
        let t12 = t11.push((EventKind::Closed, 3u64, 1u64));
        let t13 = t12.push((EventKind::Exited, 1u64, 1u64));
        let t14 = t13.push((EventKind::Closed, 1u64, 1u64));
        assert(tuples_of_id(t0, 1u64) =~= Seq::<(EventKind, u64)>::empty());
        lemma_tuples_of_id_push(t0, (EventKind::Created, 1u64, 0u64), 1u64);
        lemma_tuples_of_id_push(t1, (EventKind::Entered, 1u64, 2u64), 1u64);
        lemma_tuples_of_id_push(t2, (EventKind::Created, 2u64, 2u64), 1u64);
        lemma_tuples_of_id_push(t3, (EventKind::Entered, 2u64, 2u64), 1u64);
        lemma_tuples_of_id_push(t4, (EventKind::Entered, 1u64, 1u64), 1u64);
        lemma_tuples_of_id_push(t5, (EventKind::Created, 3u64, 1u64), 1u64);
        lemma_tuples_of_id_push(t6, (EventKind::Entered, 3u64, 1u64), 1u64);
        lemma_tuples_of_id_push(t7, (EventKind::Exited, 2u64, 2u64), 1u64);
        lemma_tuples_of_id_push(t8, (EventKind::Closed, 2u64, 2u64), 1u64);
        lemma_tuples_of_id_push(t9, (EventKind::Exited, 1u64, 2u64), 1u64);
        lemma_tuples_of_id_push(t10, (EventKind::Exited, 3u64, 1u64), 1u64);
        lemma_tuples_of_id_push(t11, (EventKind::Closed, 3u64, 1u64), 1u64);
        lemma_tuples_of_id_push(t12, (EventKind::Exited, 1u64, 1u64), 1u64);
        lemma_tuples_of_id_push(t13, (EventKind::Closed, 1u64, 1u64), 1u64);
        assert(tuples_of_id(t0, 2u64) =~= Seq::<(EventKind, u64)>::empty());
        lemma_tuples_of_id_push(t0, (EventKind::Created, 1u64, 0u64), 2u64);
        lemma_tuples_of_id_push(t1, (EventKind::Entered, 1u64, 2u64), 2u64);
        lemma_tuples_of_id_push(t2, (EventKind::Created, 2u64, 2u64), 2u64);
        lemma_tuples_of_id_push(t3, (EventKind::Entered, 2u64, 2u64), 2u64);
        lemma_tuples_of_id_push(t4, (EventKind::Entered, 1u64, 1u64), 2u64);
        lemma_tuples_of_id_push(t5, (EventKind::Created, 3u64, 1u64), 2u64);
        lemma_tuples_of_id_push(t6, (EventKind::Entered, 3u64, 1u64), 2u64);
        lemma_tuples_of_id_push(t7, (EventKind::Exited, 2u64, 2u64), 2u64);
        lemma_tuples_of_id_push(t8, (EventKind::Closed, 2u64, 2u64), 2u64);
        lemma_tuples_of_id_push(t9, (EventKind::Exited, 1u64, 2u64), 2u64);
        lemma_tuples_of_id_push(t10, (EventKind::Exited, 3u64, 1u64), 2u64);
        lemma_tuples_of_id_push(t11, (EventKind::Closed, 3u64, 1u64), 2u64);
        lemma_tuples_of_id_push(t12, (EventKind::Exited, 1u64, 1u64), 2u64);
        lemma_tuples_of_id_push(t13, (EventKind::Closed, 1u64, 1u64), 2u64);
        assert(tuples_of_id(t0, 3u64) =~= Seq::<(EventKind, u64)>::empty());
        lemma_tuples_of_id_push(t0, (EventKind::Created, 1u64, 0u64), 3u64);
        lemma_tuples_of_id_push(t1, (EventKind::Entered, 1u64, 2u64), 3u64);
        lemma_tuples_of_id_push(t2, (EventKind::Created, 2u64, 2u64), 3u64);
        lemma_tuples_of_id_push(t3, (EventKind::Entered, 2u64, 2u64), 3u64);
        lemma_tuples_of_id_push(t4, (EventKind::Entered, 1u64, 1u64), 3u64);
        lemma_tuples_of_id_push(t5, (EventKind::Created, 3u64, 1u64), 3u64);
        lemma_tuples_of_id_push(t6, (EventKind::Entered, 3u64, 1u64), 3u64);
        lemma_tuples_of_id_push(t7, (EventKind::Exited, 2u64, 2u64), 3u64);
        lemma_tuples_of_id_push(t8, (EventKind::Closed, 2u64, 2u64), 3u64);
        lemma_tuples_of_id_push(t9, (EventKind::Exited, 1u64, 2u64), 3u64);
        lemma_tuples_of_id_push(t10, (EventKind::Exited, 3u64, 1u64), 3u64);
        lemma_tuples_of_id_push(t11, (EventKind::Closed, 3u64, 1u64), 3u64);
        lemma_tuples_of_id_push(t12, (EventKind::Exited, 1u64, 1u64), 3u64);
        lemma_tuples_of_id_push(t13, (EventKind::Closed, 1u64, 1u64), 3u64);
        assert(schedule(true) =~= t14);
        let child = seq![
            (EventKind::Created, 1u64),
            (EventKind::Entered, 1u64),
            (EventKind::Exited, 1u64),
            (EventKind::Closed, 1u64),
        ];
        let child2 = seq![
            (EventKind::Created, 2u64),
            (EventKind::Entered, 2u64),
            (EventKind::Exited, 2u64),
            (EventKind::Closed, 2u64),
        ];
        assert(tuples_of_id(f14, 2u64) =~= child);
        assert(tuples_of_id(t14, 3u64) =~= child);
        assert(tuples_of_id(f14, 3u64) =~= child2);
        assert(tuples_of_id(t14, 2u64) =~= child2);
        let root_f = seq![
            (EventKind::Created, 0u64),
            (EventKind::Entered, 1u64),
            (EventKind::Entered, 2u64),
            (EventKind::Exited, 2u64),
            (EventKind::Exited, 1u64),
            (EventKind::Closed, 1u64),
        ];
        assert(tuples_of_id(f14, 1u64) =~= root_f);
        assert(tuples_of_id(t14, 1u64) =~= root_f.update(1, root_f[2]).update(2, root_f[1]));
    }

} // verus!
