use std::sync::atomic::{AtomicBool, AtomicUsize, Ordering};
use vstd::prelude::*;

verus! {

/// One atomic operation on the two words that a lock shares between threads:
/// a flag that says a writer holds or is claiming the lock, and a count of
/// the readers that have announced themselves.
#[derive(PartialEq, Eq, Debug, Clone, Copy, Structural)]
pub enum LockOp {
    /// Read the writer flag.
    LoadWriting,
    /// Read the reader count.
    LoadReaders,
    /// Add one to the reader count.
    AddReader,
    /// Take one from the reader count.
    RemoveReader,
    /// Set the writer flag if it is clear; this may also fail while it is clear.
    ClaimWriting,
    /// Clear the writer flag.
    ClearWriting,
}

/// What an operation reported.
#[derive(PartialEq, Eq, Debug, Clone, Copy, Structural)]
pub enum Seen {
    /// The writer flag, as read.
    Flag(bool),
    /// The reader count, as read.
    Count(usize),
    /// Whether a claim of the writer flag succeeded.
    Claimed(bool),
    /// An update that reports nothing.
    Done,
}

impl LockOp {
    /// The kind of report that the operation gives.
    pub open spec fn reports(self, seen: Seen) -> bool {
        match self {
            LockOp::LoadWriting => seen is Flag,
            LockOp::LoadReaders => seen is Count,
            LockOp::ClaimWriting => seen is Claimed,
            _ => seen is Done,
        }
    }
}

/// Where a thread that takes a shared (read) lock stands.
#[derive(PartialEq, Eq, Debug, Clone, Copy, Structural)]
pub enum ReadPhase {
    /// Waiting until no writer holds the flag.
    AwaitNoWriter,
    /// About to announce itself in the reader count.
    Announce,
    /// Announced; checking that no writer came in meanwhile.
    Check,
    /// A writer came in: about to take back the announcement.
    Withdraw,
    /// Holds the lock; the next operation releases it.
    Holding,
}

/// Where a thread that takes the exclusive (write) lock stands.
#[derive(PartialEq, Eq, Debug, Clone, Copy, Structural)]
pub enum WritePhase {
    /// Waiting until no reader is announced.
    AwaitNoReaders,
    /// About to claim the writer flag.
    Claim,
    /// Holds the flag; checking that no reader announced itself meanwhile.
    Confirm,
    /// A reader came in: about to clear the flag again.
    Retreat,
    /// Holds the flag; waiting until no reader is announced.
    Drain,
    /// Holds the lock; the next operation releases it.
    Holding,
}

impl ReadPhase {
    pub open spec fn spec_op(self) -> LockOp {
        match self {
            ReadPhase::AwaitNoWriter => LockOp::LoadWriting,
            ReadPhase::Announce => LockOp::AddReader,
            ReadPhase::Check => LockOp::LoadWriting,
            ReadPhase::Withdraw => LockOp::RemoveReader,
            ReadPhase::Holding => LockOp::RemoveReader,
        }
    }

    /// The phase after the phase's operation reported `seen`. A reader
    /// that holds the lock and releases it has no next phase; it stays `Holding` here.
    pub open spec fn spec_advance(self, seen: Seen) -> ReadPhase {
        match self {
            ReadPhase::AwaitNoWriter => if seen == Seen::Flag(true) {
                ReadPhase::AwaitNoWriter
            } else {
                ReadPhase::Announce
            },
            ReadPhase::Announce => ReadPhase::Check,
            ReadPhase::Check => if seen == Seen::Flag(true) {
                ReadPhase::Withdraw
            } else {
                ReadPhase::Holding
            },
            ReadPhase::Withdraw => ReadPhase::AwaitNoWriter,
            ReadPhase::Holding => ReadPhase::Holding,
        }
    }

    /// Where a thread starts that asks for a shared lock.
    pub fn start() -> (r: ReadPhase)
        ensures
            r == ReadPhase::AwaitNoWriter,
    {
        ReadPhase::AwaitNoWriter
    }

    /// The operation that the thread does next.
    pub fn op(&self) -> (r: LockOp)
        ensures
            r == self.spec_op(),
    {
        match self {
            ReadPhase::AwaitNoWriter => LockOp::LoadWriting,
            ReadPhase::Announce => LockOp::AddReader,
            ReadPhase::Check => LockOp::LoadWriting,
            ReadPhase::Withdraw => LockOp::RemoveReader,
            ReadPhase::Holding => LockOp::RemoveReader,
        }
    }

    /// The phase that follows once the operation reported `seen`.
    pub fn advance(&self, seen: Seen) -> (r: ReadPhase)
        requires
            self.spec_op().reports(seen),
        ensures
            r == self.spec_advance(seen),
    {
        match self {
            ReadPhase::AwaitNoWriter => {
                if seen == Seen::Flag(true) {
                    ReadPhase::AwaitNoWriter
                } else {
                    ReadPhase::Announce
                }
            },
            ReadPhase::Announce => ReadPhase::Check,
            ReadPhase::Check => {
                if seen == Seen::Flag(true) {
                    ReadPhase::Withdraw
                } else {
                    ReadPhase::Holding
                }
            },
            ReadPhase::Withdraw => ReadPhase::AwaitNoWriter,
            ReadPhase::Holding => ReadPhase::Holding,
        }
    }

    /// Whether the thread holds the lock.
    pub fn is_holding(&self) -> (r: bool)
        ensures
            r == (*self == ReadPhase::Holding),
    {
        match self {
            ReadPhase::Holding => true,
            _ => false,
        }
    }
}

impl WritePhase {
    pub open spec fn spec_op(self) -> LockOp {
        match self {
            WritePhase::AwaitNoReaders => LockOp::LoadReaders,
            WritePhase::Claim => LockOp::ClaimWriting,
            WritePhase::Confirm => LockOp::LoadReaders,
            WritePhase::Retreat => LockOp::ClearWriting,
            WritePhase::Drain => LockOp::LoadReaders,
            WritePhase::Holding => LockOp::ClearWriting,
        }
    }

    /// The phase after the phase's operation reported `seen`. A writer that
    /// holds the lock and releases it has no next phase; it stays `Holding` here.
    pub open spec fn spec_advance(self, seen: Seen) -> WritePhase {
        match self {
            WritePhase::AwaitNoReaders => if seen == Seen::Count(0) {
                WritePhase::Claim
            } else {
                WritePhase::AwaitNoReaders
            },
            WritePhase::Claim => if seen == Seen::Claimed(true) {
                WritePhase::Confirm
            } else {
                WritePhase::AwaitNoReaders
            },
            WritePhase::Confirm => if seen == Seen::Count(0) {
                WritePhase::Drain
            } else {
                WritePhase::Retreat
            },
            WritePhase::Retreat => WritePhase::AwaitNoReaders,
            WritePhase::Drain => if seen == Seen::Count(0) {
                WritePhase::Holding
            } else {
                WritePhase::Drain
            },
            WritePhase::Holding => WritePhase::Holding,
        }
    }

    /// Where a thread starts that asks for the exclusive lock.
    pub fn start() -> (r: WritePhase)
        ensures
            r == WritePhase::AwaitNoReaders,
    {
        WritePhase::AwaitNoReaders
    }

    /// The operation that the thread does next.
    pub fn op(&self) -> (r: LockOp)
        ensures
            r == self.spec_op(),
    {
        match self {
            WritePhase::AwaitNoReaders => LockOp::LoadReaders,
            WritePhase::Claim => LockOp::ClaimWriting,
            WritePhase::Confirm => LockOp::LoadReaders,
            WritePhase::Retreat => LockOp::ClearWriting,
            WritePhase::Drain => LockOp::LoadReaders,
            WritePhase::Holding => LockOp::ClearWriting,
        }
    }

    /// The phase that follows once the operation reported `seen`.
    pub fn advance(&self, seen: Seen) -> (r: WritePhase)
        requires
            self.spec_op().reports(seen),
        ensures
            r == self.spec_advance(seen),
    {
        match self {
            WritePhase::AwaitNoReaders => {
                if seen == Seen::Count(0) {
                    WritePhase::Claim
                } else {
                    WritePhase::AwaitNoReaders
                }
            },
            WritePhase::Claim => {
                if seen == Seen::Claimed(true) {
                    WritePhase::Confirm
                } else {
                    WritePhase::AwaitNoReaders
                }
            },
            WritePhase::Confirm => {
                if seen == Seen::Count(0) {
                    WritePhase::Drain
                } else {
                    WritePhase::Retreat
                }
            },
            WritePhase::Retreat => WritePhase::AwaitNoReaders,
            WritePhase::Drain => {
                if seen == Seen::Count(0) {
                    WritePhase::Holding
                } else {
                    WritePhase::Drain
                }
            },
            WritePhase::Holding => WritePhase::Holding,
        }
    }

    /// Whether the thread holds the lock.
    pub fn is_holding(&self) -> (r: bool)
        ensures
            r == (*self == WritePhase::Holding),
    {
        match self {
            WritePhase::Holding => true,
            _ => false,
        }
    }
}

/// The two words that a lock shares between threads.
pub struct LockWords {
    pub writing: AtomicBool,
    pub readers: AtomicUsize,
}

impl LockWords {
    /// Words with the flag clear and no reader announced.
    pub fn new() -> (r: LockWords) {
        LockWords { writing: AtomicBool::new(false), readers: AtomicUsize::new(0) }
    }

    /// Does `op` on the words and reports the outcome. Every operation is
    /// sequentially consistent, so that all of them fall in one global order,
    /// as the lock's proof of exclusion assumes. What the outcome is depends on
    /// the other threads.
    pub fn perform(&self, op: LockOp) -> (r: Seen)
        ensures
            op.reports(r),
    {
        match op {
            LockOp::LoadWriting => Seen::Flag(self.writing.load(Ordering::SeqCst)),
            LockOp::LoadReaders => Seen::Count(self.readers.load(Ordering::SeqCst)),
            LockOp::AddReader => {
                self.readers.fetch_add(1, Ordering::SeqCst);
                Seen::Done
            },
            LockOp::RemoveReader => {
                self.readers.fetch_sub(1, Ordering::SeqCst);
                Seen::Done
            },
            LockOp::ClaimWriting => {
                let r = self.writing.compare_exchange_weak(
                    false,
                    true,
                    Ordering::SeqCst,
                    Ordering::SeqCst,
                );
                Seen::Claimed(r.is_ok())
            },
            LockOp::ClearWriting => {
                self.writing.store(false, Ordering::SeqCst);
                Seen::Done
            },
        }
    }
}


/// A thread's part in the lock.
#[derive(PartialEq, Eq, Debug, Clone, Copy, Structural)]
pub enum Role {
    Idle,
    Reading(ReadPhase),
    Writing(WritePhase),
}

/// A lock and the threads that use it, as the lock protocol sees them: the
/// writer flag, the reader count, and each thread's part.
pub struct LockSystem {
    pub writing: bool,
    pub readers: int,
    pub threads: Seq<Role>,
}

/// A step of one thread: it asks for a shared or for the exclusive lock, or it
/// does the next operation of its part. In `Act(t, may_claim)`, `may_claim`
/// says whether a claim of the writer flag succeeds if the flag is clear (a
/// claim may fail spuriously).
pub enum LockEvent {
    BeginRead(int),
    BeginWrite(int),
    Act(int, bool),
}

/// The words after `op`, done atomically, and what it reports.
pub open spec fn apply_op(writing: bool, readers: int, op: LockOp, may_claim: bool) -> (
    bool,
    int,
    Seen,
) {
    match op {
        LockOp::LoadWriting => (writing, readers, Seen::Flag(writing)),
        LockOp::LoadReaders => (writing, readers, Seen::Count(readers as usize)),
        LockOp::AddReader => (writing, readers + 1, Seen::Done),
        LockOp::RemoveReader => (writing, readers - 1, Seen::Done),
        LockOp::ClaimWriting => if may_claim && !writing {
            (true, readers, Seen::Claimed(true))
        } else {
            (writing, readers, Seen::Claimed(false))
        },
        LockOp::ClearWriting => (false, readers, Seen::Done),
    }
}

/// The system after one event. An event of a thread that is not there, or
/// that does not fit the thread's part, changes nothing.
pub open spec fn after_event(s: LockSystem, e: LockEvent) -> LockSystem {
    match e {
        LockEvent::BeginRead(t) => if 0 <= t < s.threads.len() && s.threads[t] == Role::Idle {
            LockSystem { threads: s.threads.update(t, Role::Reading(ReadPhase::AwaitNoWriter)), ..s }
        } else {
            s
        },
        LockEvent::BeginWrite(t) => if 0 <= t < s.threads.len() && s.threads[t] == Role::Idle {
            LockSystem { threads: s.threads.update(t, Role::Writing(WritePhase::AwaitNoReaders)), ..s }
        } else {
            s
        },
        LockEvent::Act(t, may_claim) => if 0 <= t < s.threads.len() {
            match s.threads[t] {
                Role::Idle => s,
                Role::Reading(p) => {
                    let (w, r, seen) = apply_op(s.writing, s.readers, p.spec_op(), may_claim);
                    let next = if p == ReadPhase::Holding {
                        Role::Idle
                    } else {
                        Role::Reading(p.spec_advance(seen))
                    };
                    LockSystem { writing: w, readers: r, threads: s.threads.update(t, next) }
                },
                Role::Writing(p) => {
                    let (w, r, seen) = apply_op(s.writing, s.readers, p.spec_op(), may_claim);
                    let next = if p == WritePhase::Holding {
                        Role::Idle
                    } else {
                        Role::Writing(p.spec_advance(seen))
                    };
                    LockSystem { writing: w, readers: r, threads: s.threads.update(t, next) }
                },
            }
        } else {
            s
        },
    }
}

/// The system after the events, in order.
pub open spec fn run_events(s: LockSystem, events: Seq<LockEvent>) -> LockSystem
    decreases events.len(),
{
    if events.len() == 0 {
        s
    } else {
        run_events(after_event(s, events[0]), events.drop_first())
    }
}

/// `n` threads, none of which uses the lock yet; flag clear, no readers.
pub open spec fn initial_system(n: nat) -> LockSystem {
    LockSystem { writing: false, readers: 0, threads: Seq::new(n, |i: int| Role::Idle) }
}

pub open spec fn holds_any(r: Role) -> bool {
    r == Role::Reading(ReadPhase::Holding) || r == Role::Writing(WritePhase::Holding)
}

/// While a thread holds the exclusive lock, no other thread holds the lock at all.
pub open spec fn exclusive(s: LockSystem) -> bool {
    forall|i: int, j: int|
        0 <= i < s.threads.len() && 0 <= j < s.threads.len() && i != j && #[trigger] s.threads[i]
            == Role::Writing(WritePhase::Holding) ==> !holds_any(#[trigger] s.threads[j])
}

/// Counted in the reader count: announced, and not yet withdrawn or released.
pub open spec fn announced(r: Role) -> bool {
    r == Role::Reading(ReadPhase::Check) || r == Role::Reading(ReadPhase::Withdraw) || r
        == Role::Reading(ReadPhase::Holding)
}

/// Owns the writer flag.
pub open spec fn owns_flag(r: Role) -> bool {
    r == Role::Writing(WritePhase::Confirm) || r == Role::Writing(WritePhase::Retreat) || r
        == Role::Writing(WritePhase::Drain) || r == Role::Writing(WritePhase::Holding)
}

/// Owns the flag and has seen no reader announced since it claimed it.
pub open spec fn writer_confirmed(r: Role) -> bool {
    r == Role::Writing(WritePhase::Drain) || r == Role::Writing(WritePhase::Holding)
}

pub open spec fn count_where(ts: Seq<Role>, f: spec_fn(Role) -> bool) -> nat
    decreases ts.len(),
{
    if ts.len() == 0 {
        0
    } else {
        count_where(ts.drop_last(), f) + if f(ts.last()) {
            1nat
        } else {
            0nat
        }
    }
}

/// What the protocol keeps true between any two steps.
pub open spec fn lock_inv(s: LockSystem) -> bool {
    &&& s.threads.len() <= usize::MAX
    &&& s.readers == count_where(s.threads, |r: Role| announced(r))
    &&& count_where(s.threads, |r: Role| owns_flag(r)) <= 1
    &&& s.writing == (count_where(s.threads, |r: Role| owns_flag(r)) == 1)
    &&& forall|i: int, j: int|
        0 <= i < s.threads.len() && 0 <= j < s.threads.len() && writer_confirmed(
            #[trigger] s.threads[i],
        ) ==> #[trigger] s.threads[j] != Role::Reading(ReadPhase::Holding)
}

proof fn lemma_count_bounds(ts: Seq<Role>, f: spec_fn(Role) -> bool)
    ensures
        count_where(ts, f) <= ts.len(),
    decreases ts.len(),
{
    if ts.len() > 0 {
        lemma_count_bounds(ts.drop_last(), f);
    }
}

proof fn lemma_count_update(ts: Seq<Role>, f: spec_fn(Role) -> bool, i: int, r: Role)
    requires
        0 <= i < ts.len(),
    ensures
        count_where(ts.update(i, r), f) + (if f(ts[i]) {
            1int
        } else {
            0int
        }) == count_where(ts, f) + (if f(r) {
            1int
        } else {
            0int
        }),
    decreases ts.len(),
{
    let u = ts.update(i, r);
    if i == ts.len() - 1 {
        assert(u.drop_last() =~= ts.drop_last());
    } else {
        lemma_count_update(ts.drop_last(), f, i, r);
        assert(u.drop_last() =~= ts.drop_last().update(i, r));
    }
}

proof fn lemma_count_zero(ts: Seq<Role>, f: spec_fn(Role) -> bool, i: int)
    requires
        0 <= i < ts.len(),
        f(ts[i]),
    ensures
        count_where(ts, f) >= 1,
    decreases ts.len(),
{
    if i < ts.len() - 1 {
        lemma_count_zero(ts.drop_last(), f, i);
    }
}

proof fn lemma_count_two(ts: Seq<Role>, f: spec_fn(Role) -> bool, i: int, j: int)
    requires
        0 <= i < ts.len(),
        0 <= j < ts.len(),
        i != j,
        f(ts[i]),
        f(ts[j]),
    ensures
        count_where(ts, f) >= 2,
    decreases ts.len(),
{
    let n = ts.len() - 1;
    if i == n {
        lemma_count_zero(ts.drop_last(), f, j);
    } else if j == n {
        lemma_count_zero(ts.drop_last(), f, i);
    } else {
        lemma_count_two(ts.drop_last(), f, i, j);
    }
}

proof fn lemma_count_agree(ts: Seq<Role>, f: spec_fn(Role) -> bool, g: spec_fn(Role) -> bool)
    requires
        forall|i: int| 0 <= i < ts.len() ==> f(#[trigger] ts[i]) == g(ts[i]),
    ensures
        count_where(ts, f) == count_where(ts, g),
    decreases ts.len(),
{
    if ts.len() > 0 {
        assert forall|i: int| 0 <= i < ts.drop_last().len() implies f(#[trigger] ts.drop_last()[i])
            == g(ts.drop_last()[i]) by {
            assert(ts.drop_last()[i] == ts[i]);
        }
        lemma_count_agree(ts.drop_last(), f, g);
        assert(f(ts[ts.len() - 1]) == g(ts[ts.len() - 1]));
    }
}

proof fn lemma_count_witness(ts: Seq<Role>, f: spec_fn(Role) -> bool) -> (i: int)
    requires
        count_where(ts, f) >= 1,
    ensures
        0 <= i < ts.len(),
        f(ts[i]),
    decreases ts.len(),
{
    if f(ts.last()) {
        ts.len() - 1
    } else {
        let j = lemma_count_witness(ts.drop_last(), f);
        assert(ts.drop_last()[j] == ts[j]);
        j
    }
}

proof fn lemma_count_none(n: nat, f: spec_fn(Role) -> bool)
    requires
        !f(Role::Idle),
    ensures
        count_where(Seq::new(n, |i: int| Role::Idle), f) == 0,
    decreases n,
{
    if n > 0 {
        assert(Seq::new(n, |i: int| Role::Idle).drop_last() =~= Seq::new(
            (n - 1) as nat,
            |i: int| Role::Idle,
        ));
        lemma_count_none((n - 1) as nat, f);
    }
}

proof fn lemma_inv_initial(n: nat)
    requires
        n <= usize::MAX,
    ensures
        lock_inv(initial_system(n)),
{
    lemma_count_none(n, |r: Role| announced(r));
    lemma_count_none(n, |r: Role| owns_flag(r));
}

proof fn lemma_inv_step(s: LockSystem, e: LockEvent)
    requires
        lock_inv(s),
    ensures
        lock_inv(after_event(s, e)),
{
    let fa = |r: Role| announced(r);
    let fo = |r: Role| owns_flag(r);
    let s2 = after_event(s, e);
    lemma_count_bounds(s.threads, fa);
    let t = match e {
        LockEvent::BeginRead(t) => t,
        LockEvent::BeginWrite(t) => t,
        LockEvent::Act(t, _) => t,
    };
    if s2 != s && 0 <= t < s.threads.len() {
        let r2 = s2.threads[t];
        assert(s2.threads =~= s.threads.update(t, r2));
        lemma_count_update(s.threads, fa, t, r2);
        lemma_count_update(s.threads, fo, t, r2);
        // A thread that enters a phase with the flag confirmed does so only
        // when no reader is announced; a reader enters `Holding` only when
        // the flag is clear.
        if writer_confirmed(r2) && !writer_confirmed(s.threads[t]) {
            assert forall|j: int| 0 <= j < s.threads.len() implies !announced(s.threads[j]) by {
                if announced(s.threads[j]) {
                    lemma_count_zero(s.threads, fa, j);
                }
            }
        }
        if r2 == Role::Reading(ReadPhase::Holding) && s.threads[t] != r2 {
            assert forall|i: int| 0 <= i < s.threads.len() implies !owns_flag(s.threads[i]) by {
                if owns_flag(s.threads[i]) {
                    lemma_count_zero(s.threads, fo, i);
                }
            }
        }
        assert forall|i: int, j: int|
            0 <= i < s2.threads.len() && 0 <= j < s2.threads.len() && writer_confirmed(
                #[trigger] s2.threads[i],
            ) implies #[trigger] s2.threads[j] != Role::Reading(ReadPhase::Holding) by {
            if i != t && j != t {
                assert(s2.threads[i] == s.threads[i]);
                assert(s2.threads[j] == s.threads[j]);
            }
        }
    } else {
        assert(s2 == s);
    }
}

proof fn lemma_inv_run(s: LockSystem, events: Seq<LockEvent>)
    requires
        lock_inv(s),
    ensures
        lock_inv(run_events(s, events)),
    decreases events.len(),
{
    if events.len() > 0 {
        lemma_inv_step(s, events[0]);
        lemma_inv_run(after_event(s, events[0]), events.drop_first());
    }
}

proof fn lemma_inv_exclusive(s: LockSystem)
    requires
        lock_inv(s),
    ensures
        exclusive(s),
{
    let fo = |r: Role| owns_flag(r);
    assert forall|i: int, j: int|
        0 <= i < s.threads.len() && 0 <= j < s.threads.len() && i != j && #[trigger] s.threads[i]
            == Role::Writing(WritePhase::Holding) implies !holds_any(#[trigger] s.threads[j]) by {
        assert(writer_confirmed(s.threads[i]));
        if s.threads[j] == Role::Writing(WritePhase::Holding) {
            lemma_count_two(s.threads, fo, i, j);
        }
    }
}

/// However the threads' steps interleave, with each operation on the shared
/// words done atomically and in one global order, a thread that holds the
/// exclusive lock is the only thread that holds the lock.
pub proof fn lemma_lock_exclusive(n: nat, events: Seq<LockEvent>)
    requires
        n <= usize::MAX,
    ensures
        exclusive(run_events(initial_system(n), events)),
        lock_inv(run_events(initial_system(n), events)),
{
    lemma_inv_initial(n);
    lemma_inv_run(initial_system(n), events);
    lemma_inv_exclusive(run_events(initial_system(n), events));
}


/// No thread is part way through taking the lock: each holds it or has no part in it.
pub open spec fn quiescent(s: LockSystem) -> bool {
    forall|i: int| 0 <= i < s.threads.len() ==> #[trigger] s.threads[i] == Role::Idle || holds_any(
        s.threads[i],
    )
}

/// While no thread is part way through taking the lock, the reader count is
/// the number of threads that hold a shared lock, and the writer flag is set
/// exactly when a thread holds the exclusive lock: taking a shared lock leaves
/// the count one higher, its release takes that back, and a reader's or a
/// writer's back-off leaves no trace.
pub proof fn lemma_words_match_holders(n: nat, events: Seq<LockEvent>)
    requires
        n <= usize::MAX,
        quiescent(run_events(initial_system(n), events)),
    ensures
        ({
            let s = run_events(initial_system(n), events);
            &&& s.readers == count_where(s.threads, |r: Role| r == Role::Reading(ReadPhase::Holding))
            &&& s.writing == exists|i: int|
                0 <= i < s.threads.len() && #[trigger] s.threads[i] == Role::Writing(
                    WritePhase::Holding,
                )
        }),
{
    let s = run_events(initial_system(n), events);
    lemma_lock_exclusive(n, events);
    let fa = |r: Role| announced(r);
    let fr = |r: Role| r == Role::Reading(ReadPhase::Holding);
    let fo = |r: Role| owns_flag(r);
    assert forall|i: int| 0 <= i < s.threads.len() implies fa(#[trigger] s.threads[i]) == fr(
        s.threads[i],
    ) by {
        assert(s.threads[i] == Role::Idle || holds_any(s.threads[i]));
    }
    lemma_count_agree(s.threads, fa, fr);
    if s.writing {
        let i = lemma_count_witness(s.threads, fo);
        assert(s.threads[i] == Role::Idle || holds_any(s.threads[i]));
        assert(s.threads[i] == Role::Writing(WritePhase::Holding));
    }
    if exists|i: int| 0 <= i < s.threads.len() && #[trigger] s.threads[i] == Role::Writing(
        WritePhase::Holding,
    ) {
        let i = choose|i: int|
            0 <= i < s.threads.len() && #[trigger] s.threads[i] == Role::Writing(
                WritePhase::Holding,
            );
        lemma_count_zero(s.threads, fo, i);
    }
}


/// No thread holds the lock or is taking it.
pub open spec fn all_idle(s: LockSystem) -> bool {
    forall|i: int| 0 <= i < s.threads.len() ==> #[trigger] s.threads[i] == Role::Idle
}

proof fn lemma_idle_words(s: LockSystem)
    requires
        lock_inv(s),
        all_idle(s),
    ensures
        s.readers == 0,
        !s.writing,
{
    let fa = |r: Role| announced(r);
    let fo = |r: Role| owns_flag(r);
    if count_where(s.threads, fa) >= 1 {
        let i = lemma_count_witness(s.threads, fa);
        assert(s.threads[i] == Role::Idle);
    }
    if count_where(s.threads, fo) >= 1 {
        let i = lemma_count_witness(s.threads, fo);
        assert(s.threads[i] == Role::Idle);
    }
}

/// A thread alone with a free lock takes a shared lock in three steps after
/// it asks for one.
pub proof fn lemma_read_alone_takes_lock(s: LockSystem, t: int)
    requires
        lock_inv(s),
        all_idle(s),
        0 <= t < s.threads.len(),
    ensures
        run_events(
            s,
            seq![
                LockEvent::BeginRead(t),
                LockEvent::Act(t, true),
                LockEvent::Act(t, true),
                LockEvent::Act(t, true),
            ],
        ).threads[t] == Role::Reading(ReadPhase::Holding),
{
    lemma_idle_words(s);
    let e = seq![
        LockEvent::BeginRead(t),
        LockEvent::Act(t, true),
        LockEvent::Act(t, true),
        LockEvent::Act(t, true),
    ];
    let s1 = after_event(s, e[0]);
    assert(s1.threads[t] == Role::Reading(ReadPhase::AwaitNoWriter));
    let s2 = after_event(s1, e[1]);
    assert(s2.threads[t] == Role::Reading(ReadPhase::Announce));
    let s3 = after_event(s2, e[2]);
    assert(s3.threads[t] == Role::Reading(ReadPhase::Check));
    assert(!s3.writing);
    let s4 = after_event(s3, e[3]);
    assert(s4.threads[t] == Role::Reading(ReadPhase::Holding));
    reveal_with_fuel(run_events, 5);
    assert(e.drop_first() =~= seq![e[1], e[2], e[3]]);
    assert(e.drop_first().drop_first() =~= seq![e[2], e[3]]);
    assert(e.drop_first().drop_first().drop_first() =~= seq![e[3]]);
    assert(e.drop_first().drop_first().drop_first().drop_first() =~= Seq::<LockEvent>::empty());
}

/// A thread alone with a free lock takes the exclusive lock in four steps
/// after it asks for it, when its claim of the writer flag does not fail
/// spuriously.
pub proof fn lemma_write_alone_takes_lock(s: LockSystem, t: int)
    requires
        lock_inv(s),
        all_idle(s),
        0 <= t < s.threads.len(),
    ensures
        run_events(
            s,
            seq![
                LockEvent::BeginWrite(t),
                LockEvent::Act(t, true),
                LockEvent::Act(t, true),
                LockEvent::Act(t, true),
                LockEvent::Act(t, true),
            ],
        ).threads[t] == Role::Writing(WritePhase::Holding),
{
    lemma_idle_words(s);
    let e = seq![
        LockEvent::BeginWrite(t),
        LockEvent::Act(t, true),
        LockEvent::Act(t, true),
        LockEvent::Act(t, true),
        LockEvent::Act(t, true),
    ];
    let s1 = after_event(s, e[0]);
    assert(s1.threads[t] == Role::Writing(WritePhase::AwaitNoReaders));
    let s2 = after_event(s1, e[1]);
    assert(s2.threads[t] == Role::Writing(WritePhase::Claim));
    let s3 = after_event(s2, e[2]);
    assert(s3.threads[t] == Role::Writing(WritePhase::Confirm));
    let s4 = after_event(s3, e[3]);
    assert(s4.threads[t] == Role::Writing(WritePhase::Drain));
    let s5 = after_event(s4, e[4]);
    assert(s5.threads[t] == Role::Writing(WritePhase::Holding));
    reveal_with_fuel(run_events, 6);
    assert(e.drop_first() =~= seq![e[1], e[2], e[3], e[4]]);
    assert(e.drop_first().drop_first() =~= seq![e[2], e[3], e[4]]);
    assert(e.drop_first().drop_first().drop_first() =~= seq![e[3], e[4]]);
    assert(e.drop_first().drop_first().drop_first().drop_first() =~= seq![e[4]]);
    assert(e.drop_first().drop_first().drop_first().drop_first().drop_first() =~= Seq::<
        LockEvent,
    >::empty());
}

} // verus!
