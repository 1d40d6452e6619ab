use vstd::prelude::*;

verus! {

/// One span's record in the registry: its declared name, the id of its
/// parent (`None` for a root span), how many live handles refer to it, how
/// many of those handles are held by enter guards still on some thread's
/// stack, and whether it has been closed. A closed record stays in place so
/// that span ids are never reused, but it no longer resolves for new
/// lookups.
pub struct SpanRecord {
    pub name: String,
    pub parent: Option<u64>,
    pub handles: u64,
    pub entered: u64,
    pub closed: bool,
}

/// The span-tracking registry: span ids are assigned sequentially starting
/// at 1, and the record of span `id` sits at index `id - 1`.
pub struct SpanRegistry {
    pub records: Vec<SpanRecord>,
}

impl SpanRegistry {
    /// `id` has ever been assigned by this registry.
    pub open spec fn valid_id(&self, id: u64) -> bool {
        1 <= id <= self.records@.len()
    }

    /// The record of span `id`.
    pub open spec fn record_of(&self, id: u64) -> SpanRecord
        recommends
            self.valid_id(id),
    {
        self.records@[id - 1]
    }

    /// `id` resolves for lookups: it was assigned and has not been closed.
    pub open spec fn is_open(&self, id: u64) -> bool {
        self.valid_id(id) && !self.record_of(id).closed
    }

    /// The id the next registered span will get.
    pub open spec fn next_id(&self) -> int {
        self.records@.len() as int + 1
    }

    pub fn new() -> (r: SpanRegistry)
        ensures
            r.records@.len() == 0,
    {
        SpanRegistry { records: Vec::new() }
    }

    /// Assign the next id to a new span with the given name and parent.
    /// One handle (the creator's) is live from the start.
    pub fn register(&mut self, name: String, parent: Option<u64>) -> (id: u64)
        requires
            old(self).records@.len() < u64::MAX - 1,
        ensures
            id == old(self).next_id(),
            final(self).records@ == old(self).records@.push(
                SpanRecord { name, parent, handles: 1u64, entered: 0u64, closed: false },
            ),
            final(self).valid_id(id),
            final(self).record_of(id).name == name,
            final(self).record_of(id).parent == parent,
            final(self).record_of(id).handles == 1,
            final(self).record_of(id).entered == 0,
            final(self).is_open(id),
            forall|j: u64| old(self).valid_id(j) ==> #[trigger] final(self).record_of(j)
                == old(self).record_of(j),
    {
        let id = self.records.len() as u64 + 1;
        self.records.push(SpanRecord { name, parent, handles: 1, entered: 0, closed: false });
        id
    }

    /// Resolve a span's declared name, as the recorder does on every event:
    /// `Some` exactly when the id is open.
    pub fn name_of(&self, id: u64) -> (r: Option<String>)
        ensures
            match r {
                Some(n) => self.is_open(id) && n@ == self.record_of(id).name@,
                None => !self.is_open(id),
            },
    {
        if 1 <= id && id <= self.records.len() as u64 {
            let rec = &self.records[(id - 1) as usize];
            if rec.closed {
                None
            } else {
                Some(rec.name.clone())
            }
        } else {
            None
        }
    }

    /// Resolve a span's parent id: `Some` exactly when the id is open.
    pub fn parent_of(&self, id: u64) -> (r: Option<Option<u64>>)
        ensures
            match r {
                Some(p) => self.is_open(id) && p == self.record_of(id).parent,
                None => !self.is_open(id),
            },
    {
        if 1 <= id && id <= self.records.len() as u64 {
            let rec = &self.records[(id - 1) as usize];
            if rec.closed {
                None
            } else {
                Some(rec.parent)
            }
        } else {
            None
        }
    }

    /// How many handles of an open span are live.
    pub fn handles_of(&self, id: u64) -> (r: Option<u64>)
        ensures
            match r {
                Some(h) => self.is_open(id) && h == self.record_of(id).handles,
                None => !self.is_open(id),
            },
    {
        if 1 <= id && id <= self.records.len() as u64 {
            let rec = &self.records[(id - 1) as usize];
            if rec.closed {
                None
            } else {
                Some(rec.handles)
            }
        } else {
            None
        }
    }

    /// Add `delta` live handles to an open span.
    pub fn add_handles(&mut self, id: u64, delta: u64)
        requires
            old(self).is_open(id),
            old(self).record_of(id).handles + delta <= u64::MAX,
        ensures
            final(self).records@.len() == old(self).records@.len(),
            final(self).record_of(id).name == old(self).record_of(id).name,
            final(self).record_of(id).parent == old(self).record_of(id).parent,
            final(self).record_of(id).handles == old(self).record_of(id).handles + delta,
            final(self).record_of(id).entered == old(self).record_of(id).entered,
            final(self).record_of(id).closed == false,
            forall|j: u64| old(self).valid_id(j) && j != id ==> #[trigger] final(self).record_of(j)
                == old(self).record_of(j),
    {
        let n = self.records.len();
        proof {
            assert(id - 1 < n as int);
        }
        let idx = (id - 1) as usize;
        let h = self.records[idx].handles;
        self.records[idx].handles = h + delta;
    }

    /// Release one live handle of an open span. When the last handle goes,
    /// the record is marked closed and stops resolving.
    pub fn release_handle(&mut self, id: u64) -> (closed_now: bool)
        requires
            old(self).is_open(id),
            old(self).record_of(id).handles >= 1,
        ensures
            closed_now == (old(self).record_of(id).handles == 1),
            final(self).records@.len() == old(self).records@.len(),
            final(self).record_of(id).name == old(self).record_of(id).name,
            final(self).record_of(id).parent == old(self).record_of(id).parent,
            final(self).record_of(id).handles == old(self).record_of(id).handles - 1,
            final(self).record_of(id).entered == old(self).record_of(id).entered,
            final(self).record_of(id).closed == closed_now,
            forall|j: u64| old(self).valid_id(j) && j != id ==> #[trigger] final(self).record_of(j)
                == old(self).record_of(j),
    {
        let n = self.records.len();
        proof {
            assert(id - 1 < n as int);
        }
        let idx = (id - 1) as usize;
        let h = self.records[idx].handles;
        self.records[idx].handles = h - 1;
        if h == 1 {
            self.records[idx].closed = true;
            true
        } else {
            false
        }
    }

    /// How many enter guards of an open span are outstanding.
    pub fn entered_of(&self, id: u64) -> (r: Option<u64>)
        ensures
            match r {
                Some(e) => self.is_open(id) && e == self.record_of(id).entered,
                None => !self.is_open(id),
            },
    {
        if 1 <= id && id <= self.records.len() as u64 {
            let rec = &self.records[(id - 1) as usize];
            if rec.closed {
                None
            } else {
                Some(rec.entered)
            }
        } else {
            None
        }
    }

    /// Record one more outstanding enter guard of an open span; the guard
    /// holds a handle of its own.
    pub fn mark_entered(&mut self, id: u64)
        requires
            old(self).is_open(id),
            old(self).record_of(id).handles < u64::MAX,
            old(self).record_of(id).entered < u64::MAX,
        ensures
            final(self).records@.len() == old(self).records@.len(),
            final(self).record_of(id).name == old(self).record_of(id).name,
            final(self).record_of(id).parent == old(self).record_of(id).parent,
            final(self).record_of(id).handles == old(self).record_of(id).handles + 1,
            final(self).record_of(id).entered == old(self).record_of(id).entered + 1,
            final(self).record_of(id).closed == false,
            forall|j: u64| old(self).valid_id(j) && j != id ==> #[trigger] final(self).record_of(j)
                == old(self).record_of(j),
    {
        let n = self.records.len();
        proof {
            assert(id - 1 < n as int);
        }
        let idx = (id - 1) as usize;
        let h = self.records[idx].handles;
        self.records[idx].handles = h + 1;
        let e = self.records[idx].entered;
        self.records[idx].entered = e + 1;
    }

    /// Record that one enter guard of an open span was released: its handle
    /// goes with it, and releasing the last handle closes the record.
    pub fn mark_exited(&mut self, id: u64) -> (closed_now: bool)
        requires
            old(self).is_open(id),
            old(self).record_of(id).entered >= 1,
            old(self).record_of(id).handles >= 1,
        ensures
            closed_now == (old(self).record_of(id).handles == 1),
            final(self).records@.len() == old(self).records@.len(),
            final(self).record_of(id).name == old(self).record_of(id).name,
            final(self).record_of(id).parent == old(self).record_of(id).parent,
            final(self).record_of(id).handles == old(self).record_of(id).handles - 1,
            final(self).record_of(id).entered == old(self).record_of(id).entered - 1,
            final(self).record_of(id).closed == closed_now,
            forall|j: u64| old(self).valid_id(j) && j != id ==> #[trigger] final(self).record_of(j)
                == old(self).record_of(j),
    {
        let n = self.records.len();
        proof {
            assert(id - 1 < n as int);
        }
        let idx = (id - 1) as usize;
        let h = self.records[idx].handles;
        self.records[idx].handles = h - 1;
        let e = self.records[idx].entered;
        self.records[idx].entered = e - 1;
        if h == 1 {
            self.records[idx].closed = true;
            true
        } else {
            false
        }
    }
}

} // verus!
