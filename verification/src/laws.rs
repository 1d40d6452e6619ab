use vstd::prelude::*;
use crate::events::{count_events, lemma_count_events_witness_pos, EventKind};
use crate::pipeline::Pipeline;

verus! {

/// For every span id that appears in a well-formed pipeline's log, the
/// `Created` event was recorded exactly once, and it stands strictly
/// before every other event of that id — in particular before the first
/// `Entered`.
pub proof fn lemma_created_once_and_first(p: &Pipeline, i: int)
    requires
        p.wf(),
        0 <= i < p.log@.len(),
    ensures
        count_events(p.log@, p.log@[i].id, EventKind::Created) == 1,
        !(p.log@[i].kind is Created) ==> exists|j: int|
            0 <= j < i && (#[trigger] p.log@[j]).kind is Created && p.log@[j].id == p.log@[i].id,
{
    assert(p.registry.valid_id(p.log@[i].id));
    if !(p.log@[i].kind is Created) {
        assert(Pipeline::has_created_before(p.log@, p.log@[i].id, i));
    }
}

/// For every span id, `Closed` is recorded exactly once, and it is the
/// final event of that id: it stands strictly after every `Entered` and
/// `Exited` for the id.
pub proof fn lemma_closed_once_and_last(p: &Pipeline, i: int)
    requires
        p.wf(),
        0 <= i < p.log@.len(),
        p.log@[i].kind is Closed,
    ensures
        count_events(p.log@, p.log@[i].id, EventKind::Closed) == 1,
        forall|j: int| i < j < p.log@.len() ==> (#[trigger] p.log@[j]).id != p.log@[i].id,
{
    lemma_count_events_witness_pos(p.log@, p.log@[i].id, EventKind::Closed, i);
    assert(count_events(p.log@, p.log@[i].id, EventKind::Closed) > 0);
}

/// By the time `Closed` fires for a span id, every `Entered` of that id
/// has been matched by an `Exited`: the two counts are equal over the
/// whole log, since nothing for the id follows its `Closed` event.
pub proof fn lemma_enters_exits_balanced_at_close(p: &Pipeline, i: int)
    requires
        p.wf(),
        0 <= i < p.log@.len(),
        p.log@[i].kind is Closed,
    ensures
        count_events(p.log@, p.log@[i].id, EventKind::Entered) == count_events(
            p.log@,
            p.log@[i].id,
            EventKind::Exited,
        ),
{
    let id = p.log@[i].id;
    lemma_count_events_witness_pos(p.log@, id, EventKind::Closed, i);
    assert(p.registry.valid_id(id) && p.registry.record_of(id).closed);
    assert(p.registry.record_of(id).handles == 0);
    assert(p.registry.record_of(id).entered == crate::pipeline::stacks_count(p.stacks@, id));
}

/// The parent name a `Created` event carries is faithful: it is exactly
/// the registered name of the span's parent, and the `(none)` case arises
/// exactly for a root span.
pub proof fn lemma_created_parent_name_faithful(p: &Pipeline, i: int)
    requires
        p.wf(),
        0 <= i < p.log@.len(),
        p.log@[i].kind is Created,
    ensures
        match p.registry.record_of(p.log@[i].id).parent {
            Some(par) => p.registry.valid_id(par) && p.log@[i]@.parent == Some(
                p.registry.record_of(par).name@,
            ),
            None => p.log@[i]@.parent is None,
        },
{
    assert(p.registry.valid_id(p.log@[i].id));
}

} // verus!
