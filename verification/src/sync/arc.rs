use std::sync::atomic::{AtomicUsize, Ordering};
use vstd::prelude::*;

verus! {

/// What a reference-counted pointer shares on the heap: the value and the
/// count of the handles that point to it.
pub struct ArcData<T> {
    pub value: T,
    pub count: AtomicUsize,
}

/// One atomic operation on the count, each with relaxed ordering.
#[derive(PartialEq, Eq, Debug, Clone, Copy, Structural)]
pub enum CountOp {
    /// A handle was cloned.
    Increment,
    /// A handle is being dropped.
    Decrement,
    /// Read the count.
    Load,
}

impl<T> ArcData<T> {
    /// The shared part of a first handle: holds `value`, with a count of one.
    pub fn new(value: T) -> (r: Self)
        ensures
            r.value == value,
    {
        let count = AtomicUsize::new(1);
        ArcData { value, count }
    }

    /// Does `op` on the count; reports the count that a `Load` read. What it
    /// reads depends on the other handles.
    pub fn perform(&self, op: CountOp) -> (r: Option<usize>)
        ensures
            r is Some <==> op == CountOp::Load,
    {
        match op {
            CountOp::Increment => {
                self.count.fetch_add(1, Ordering::Relaxed);
                None
            },
            CountOp::Decrement => {
                self.count.fetch_sub(1, Ordering::Relaxed);
                None
            },
            CountOp::Load => Some(self.count.load(Ordering::Relaxed)),
        }
    }
}

pub open spec fn spec_frees_on_drop(count_after: usize) -> bool {
    count_after == 0
}

/// Whether a handle that is being dropped frees the shared data, given the
/// count that it read after its decrement.
pub fn frees_on_drop(count_after: usize) -> (r: bool)
    ensures
        r == spec_frees_on_drop(count_after),
{
    count_after == 0
}

/// A handle's life.
#[derive(PartialEq, Eq, Debug, Clone, Copy, Structural)]
pub enum Handle {
    Live,
    /// Dropped its share of the count; has not yet read the count.
    Dropping,
    Gone,
}

/// The handles of one shared value, the count, and how often the value was freed.
pub struct ArcSystem {
    pub count: int,
    pub handles: Seq<Handle>,
    pub frees: nat,
}

/// A step of one handle: a clone of it, the decrement with which a drop
/// starts, or the read of the count with which the drop ends; or a whole drop
/// done without interruption.
pub enum ArcEvent {
    Clone(int),
    BeginDrop(int),
    FinishDrop(int),
    Drop(int),
}

pub open spec fn begin_drop(s: ArcSystem, t: int) -> ArcSystem {
    if 0 <= t < s.handles.len() && s.handles[t] == Handle::Live {
        ArcSystem { count: s.count - 1, handles: s.handles.update(t, Handle::Dropping), frees: s.frees }
    } else {
        s
    }
}

pub open spec fn finish_drop(s: ArcSystem, t: int) -> ArcSystem {
    if 0 <= t < s.handles.len() && s.handles[t] == Handle::Dropping {
        ArcSystem {
            count: s.count,
            handles: s.handles.update(t, Handle::Gone),
            frees: if spec_frees_on_drop(s.count as usize) {
                s.frees + 1
            } else {
                s.frees
            },
        }
    } else {
        s
    }
}

/// The system after one event. An event of a handle that is not there, or
/// that does not fit the handle's state, changes nothing.
pub open spec fn arc_after(s: ArcSystem, e: ArcEvent) -> ArcSystem {
    match e {
        ArcEvent::Clone(t) => if 0 <= t < s.handles.len() && s.handles[t] == Handle::Live {
            ArcSystem { count: s.count + 1, handles: s.handles.push(Handle::Live), frees: s.frees }
        } else {
            s
        },
        ArcEvent::BeginDrop(t) => begin_drop(s, t),
        ArcEvent::FinishDrop(t) => finish_drop(s, t),
        ArcEvent::Drop(t) => if 0 <= t < s.handles.len() && s.handles[t] == Handle::Live {
            finish_drop(begin_drop(s, t), t)
        } else {
            s
        },
    }
}

pub open spec fn arc_run(s: ArcSystem, events: Seq<ArcEvent>) -> ArcSystem
    decreases events.len(),
{
    if events.len() == 0 {
        s
    } else {
        arc_run(arc_after(s, events[0]), events.drop_first())
    }
}

/// One handle, made by `Arc::new`.
pub open spec fn arc_initial() -> ArcSystem {
    ArcSystem { count: 1, handles: seq![Handle::Live], frees: 0 }
}

pub open spec fn count_live(hs: Seq<Handle>) -> nat
    decreases hs.len(),
{
    if hs.len() == 0 {
        0
    } else {
        count_live(hs.drop_last()) + if hs.last() == Handle::Live {
            1nat
        } else {
            0nat
        }
    }
}

/// Drops that run one at a time: no drop is left half done.
pub open spec fn whole_drops(events: Seq<ArcEvent>) -> bool {
    forall|i: int| 0 <= i < events.len() ==> #[trigger] events[i] is Clone || events[i] is Drop
}

proof fn lemma_count_live_update(hs: Seq<Handle>, i: int, h: Handle)
    requires
        0 <= i < hs.len(),
    ensures
        count_live(hs.update(i, h)) + (if hs[i] == Handle::Live {
            1int
        } else {
            0int
        }) == count_live(hs) + (if h == Handle::Live {
            1int
        } else {
            0int
        }),
    decreases hs.len(),
{
    let u = hs.update(i, h);
    if i == hs.len() - 1 {
        assert(u.drop_last() =~= hs.drop_last());
    } else {
        lemma_count_live_update(hs.drop_last(), i, h);
        assert(u.drop_last() =~= hs.drop_last().update(i, h));
    }
}

proof fn lemma_count_live_push(hs: Seq<Handle>, h: Handle)
    ensures
        count_live(hs.push(h)) == count_live(hs) + if h == Handle::Live {
            1nat
        } else {
            0nat
        },
{
    assert(hs.push(h).drop_last() =~= hs);
}

proof fn lemma_count_live_pos(hs: Seq<Handle>, i: int)
    requires
        0 <= i < hs.len(),
        hs[i] == Handle::Live,
    ensures
        count_live(hs) >= 1,
    decreases hs.len(),
{
    if i < hs.len() - 1 {
        lemma_count_live_pos(hs.drop_last(), i);
    }
}

/// The count always equals the number of live handles: it counts the clones
/// and the drops that have begun.
pub open spec fn arc_counts(s: ArcSystem) -> bool {
    s.count == count_live(s.handles)
}

proof fn lemma_arc_counts_step(s: ArcSystem, e: ArcEvent)
    requires
        arc_counts(s),
    ensures
        arc_counts(arc_after(s, e)),
{
    match e {
        ArcEvent::Clone(t) => {
            lemma_count_live_push(s.handles, Handle::Live);
        },
        ArcEvent::BeginDrop(t) => {
            if 0 <= t < s.handles.len() && s.handles[t] == Handle::Live {
                lemma_count_live_update(s.handles, t, Handle::Dropping);
            }
        },
        ArcEvent::FinishDrop(t) => {
            if 0 <= t < s.handles.len() && s.handles[t] == Handle::Dropping {
                lemma_count_live_update(s.handles, t, Handle::Gone);
            }
        },
        ArcEvent::Drop(t) => {
            if 0 <= t < s.handles.len() && s.handles[t] == Handle::Live {
                lemma_count_live_update(s.handles, t, Handle::Dropping);
                let s1 = begin_drop(s, t);
                lemma_count_live_update(s1.handles, t, Handle::Gone);
            }
        },
    }
}

/// However clones and the two steps of drops interleave, the count equals
/// the number of live handles.
pub proof fn lemma_count_is_live_handles(events: Seq<ArcEvent>)
    ensures
        arc_counts(arc_run(arc_initial(), events)),
{
    assert(seq![Handle::Live].drop_last() =~= Seq::<Handle>::empty());
    assert(count_live(Seq::<Handle>::empty()) == 0);
    assert(count_live(seq![Handle::Live]) == 1);
    lemma_arc_counts_run(arc_initial(), events);
}

proof fn lemma_arc_counts_run(s: ArcSystem, events: Seq<ArcEvent>)
    requires
        arc_counts(s),
    ensures
        arc_counts(arc_run(s, events)),
    decreases events.len(),
{
    if events.len() > 0 {
        lemma_arc_counts_step(s, events[0]);
        lemma_arc_counts_run(arc_after(s, events[0]), events.drop_first());
    }
}

/// What holds while drops run one at a time.
pub open spec fn arc_whole_inv(s: ArcSystem, budget: int) -> bool {
    &&& arc_counts(s)
    &&& 0 <= s.count
    &&& s.count + budget <= usize::MAX
    &&& forall|i: int| 0 <= i < s.handles.len() ==> #[trigger] s.handles[i] != Handle::Dropping
    &&& s.frees == if s.count == 0 {
        1nat
    } else {
        0nat
    }
}

proof fn lemma_arc_whole_run(s: ArcSystem, events: Seq<ArcEvent>)
    requires
        arc_whole_inv(s, events.len() as int),
        whole_drops(events),
    ensures
        arc_whole_inv(arc_run(s, events), 0),
    decreases events.len(),
{
    if events.len() > 0 {
        let e = events[0];
        let s2 = arc_after(s, e);
        lemma_arc_counts_step(s, e);
        assert(e is Clone || e is Drop);
        match e {
            ArcEvent::Clone(t) => {
                if 0 <= t < s.handles.len() && s.handles[t] == Handle::Live {
                    lemma_count_live_pos(s.handles, t);
                    assert forall|i: int| 0 <= i < s2.handles.len() implies #[trigger] s2.handles[i]
                        != Handle::Dropping by {
                        if i < s.handles.len() {
                            assert(s2.handles[i] == s.handles[i]);
                        }
                    }
                }
            },
            ArcEvent::Drop(t) => {
                if 0 <= t < s.handles.len() && s.handles[t] == Handle::Live {
                    lemma_count_live_pos(s.handles, t);
                    let s1 = begin_drop(s, t);
                    assert(s2 == finish_drop(s1, t));
                    assert(s1.handles[t] == Handle::Dropping);
                    assert forall|i: int| 0 <= i < s2.handles.len() implies #[trigger] s2.handles[i]
                        != Handle::Dropping by {
                        if i != t {
                            assert(s2.handles[i] == s.handles[i]);
                        }
                    }
                }
            },
            _ => {},
        }
        assert forall|i: int| 0 <= i < events.drop_first().len() implies #[trigger] events.drop_first()[i] is Clone
            || events.drop_first()[i] is Drop by {
            assert(events.drop_first()[i] == events[i + 1]);
        }
        lemma_arc_whole_run(s2, events.drop_first());
    }
}

/// While drops run one at a time, the shared value is freed exactly once
/// the last handle is dropped, and not before: it has been freed once when no
/// handle is live, and never while one is. (Drops that overlap can both read a
/// count of zero.) The clones are fewer than `usize::MAX`.
pub proof fn lemma_freed_once_at_last_drop(events: Seq<ArcEvent>)
    requires
        whole_drops(events),
        events.len() < usize::MAX,
    ensures
        ({
            let s = arc_run(arc_initial(), events);
            s.frees == if count_live(s.handles) == 0 {
                1nat
            } else {
                0nat
            }
        }),
{
    assert(seq![Handle::Live].drop_last() =~= Seq::<Handle>::empty());
    assert(count_live(Seq::<Handle>::empty()) == 0);
    assert(count_live(seq![Handle::Live]) == 1);
    lemma_arc_whole_run(arc_initial(), events);
}

} // verus!
