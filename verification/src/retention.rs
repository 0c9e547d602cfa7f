//! The diagnostic hook's retention bound: completed-task records are kept at
//! most a fixed window past completion, so memory use stays bounded.

use vstd::prelude::*;

verus! {

/// How long a completed-task record is retained, in seconds.
pub const RETENTION_WINDOW_SECS: u64 = 300;

/// A completed-task record: its identifier and the second it completed.
#[derive(Debug, Clone, Copy, PartialEq, Eq, Structural)]
pub struct TaskRecord {
    pub task_id: u64,
    pub completed_at: u64,
}

/// Whether a record completed at `completed_at` is still inside the window at
/// `now`.
pub open spec fn live(window: u64, completed_at: u64, now: u64) -> bool {
    now < completed_at + window
}

/// The records of `s` still inside the window at `now`, in their given order.
pub open spec fn live_records(s: Seq<TaskRecord>, window: u64, now: u64) -> Seq<TaskRecord>
    decreases s.len(),
{
    if s.len() == 0 {
        Seq::empty()
    } else {
        let rest = live_records(s.drop_last(), window, now);
        if live(window, s.last().completed_at, now) {
            rest.push(s.last())
        } else {
            rest
        }
    }
}

/// Whether some record of `s` names the task.
pub open spec fn spec_has_task(s: Seq<TaskRecord>, task_id: u64) -> bool {
    exists|i: int| 0 <= i < s.len() && s[i].task_id == task_id
}

/// A record survives the sweep exactly when it is present and still inside
/// the window.
pub proof fn lemma_live_records_contains(s: Seq<TaskRecord>, window: u64, now: u64, r: TaskRecord)
    ensures
        live_records(s, window, now).contains(r) <==> (s.contains(r) && live(
            window,
            r.completed_at,
            now,
        )),
    decreases s.len(),
{
    if s.len() > 0 {
        let s0 = s.drop_last();
        lemma_live_records_contains(s0, window, now, r);
        assert(s.contains(r) <==> (s0.contains(r) || s.last() == r)) by {
            if s.contains(r) {
                let i = choose|i: int| 0 <= i < s.len() && s[i] == r;
                if i < s.len() - 1 {
                    assert(s0[i] == r);
                }
            }
            if s0.contains(r) {
                let i = choose|i: int| 0 <= i < s0.len() && s0[i] == r;
                assert(s[i] == r);
            }
            if s.last() == r {
                assert(s[s.len() - 1] == r);
            }
        }
        let rest = live_records(s0, window, now);
        if live(window, s.last().completed_at, now) {
            assert(rest.push(s.last()).contains(r) <==> (rest.contains(r) || s.last() == r)) by {
                if rest.contains(r) {
                    let i = choose|i: int| 0 <= i < rest.len() && rest[i] == r;
                    assert(rest.push(s.last())[i] == r);
                }
                if s.last() == r {
                    assert(rest.push(s.last())[rest.len() as int] == r);
                }
                if rest.push(s.last()).contains(r) {
                    let i = choose|i: int|
                        0 <= i < rest.push(s.last()).len() && rest.push(s.last())[i] == r;
                    if i < rest.len() {
                        assert(rest[i] == r);
                    }
                }
            }
        }
    }
}

/// Retention boundary: a record completed at `t` is observable after any
/// sweep strictly before `t` plus the window, and absent after any sweep at
/// or past it.
pub proof fn lemma_retention_boundary(
    s: Seq<TaskRecord>,
    window: u64,
    r: TaskRecord,
    before: u64,
    after: u64,
)
    requires
        s.contains(r),
        before < r.completed_at + window,
        after >= r.completed_at + window,
    ensures
        live_records(s, window, before).contains(r),
        !live_records(s, window, after).contains(r),
{
    lemma_live_records_contains(s, window, before, r);
    lemma_live_records_contains(s, window, after, r);
}

/// The cache invariant of the window: after a sweep at `now`, every retained
/// record was present before and is still inside the window — no record
/// older than the window is retained.
pub proof fn lemma_only_live_records_retained(
    s: Seq<TaskRecord>,
    window: u64,
    now: u64,
    i: int,
)
    requires
        0 <= i < live_records(s, window, now).len(),
    ensures
        s.contains(live_records(s, window, now)[i]),
        live(window, live_records(s, window, now)[i].completed_at, now),
{
    let r = live_records(s, window, now)[i];
    assert(live_records(s, window, now).contains(r));
    lemma_live_records_contains(s, window, now, r);
}

/// The completed-task store of the diagnostic hook: the only mutable state
/// left once the subscriber is installed, bounded by its retention window.
#[derive(Debug)]
pub struct CompletedTasks {
    window_secs: u64,
    records: Vec<TaskRecord>,
}

impl CompletedTasks {
    /// The retention window this store was made with.
    pub closed spec fn spec_window(&self) -> u64 {
        self.window_secs
    }

    /// The retained records, oldest first among survivors.
    pub closed spec fn spec_records(&self) -> Seq<TaskRecord> {
        self.records@
    }

    /// An empty store with the given window.
    pub fn new(window_secs: u64) -> (s: CompletedTasks)
        ensures
            s.spec_window() == window_secs,
            s.spec_records() == Seq::<TaskRecord>::empty(),
    {
        let s = CompletedTasks { window_secs, records: Vec::new() };
        proof {
            assert(s.spec_records() =~= Seq::<TaskRecord>::empty());
        }
        s
    }

    /// An empty store with the default window.
    pub fn with_default_window() -> (s: CompletedTasks)
        ensures
            s.spec_window() == RETENTION_WINDOW_SECS,
            s.spec_records() == Seq::<TaskRecord>::empty(),
    {
        CompletedTasks::new(RETENTION_WINDOW_SECS)
    }

    /// Records one completed task.
    pub fn record_completed(&mut self, task_id: u64, completed_at: u64)
        ensures
            final(self).spec_window() == old(self).spec_window(),
            final(self).spec_records() == old(self).spec_records().push(
                TaskRecord { task_id, completed_at },
            ),
    {
        self.records.push(TaskRecord { task_id, completed_at });
    }

    /// Evicts every record older than the window: afterwards exactly the
    /// records still inside the window at `now` remain, in order.
    pub fn evict_expired(&mut self, now: u64)
        ensures
            final(self).spec_window() == old(self).spec_window(),
            final(self).spec_records() == live_records(
                old(self).spec_records(),
                old(self).spec_window(),
                now,
            ),
    {
        let mut kept: Vec<TaskRecord> = Vec::new();
        let mut i: usize = 0;
        while i < self.records.len()
            invariant
                i <= self.records.len(),
                self == old(self),
                kept@ == live_records(
                    self.records@.subrange(0, i as int),
                    self.window_secs,
                    now,
                ),
            decreases self.records.len() - i,
        {
            let ghost pre = self.records@.subrange(0, i as int);
            let r = self.records[i];
            proof {
                let post = self.records@.subrange(0, i as int + 1);
                assert(post.drop_last() =~= pre);
                assert(post.last() == r);
            }
            let keep = if r.completed_at > now {
                true
            } else {
                now - r.completed_at < self.window_secs
            };
            if keep {
                kept.push(r);
            }
            i += 1;
        }
        proof {
            assert(self.records@.subrange(0, self.records@.len() as int) =~= self.records@);
        }
        self.records = kept;
    }

    /// Whether some retained record names the task.
    pub fn contains_task(&self, task_id: u64) -> (r: bool)
        ensures
            r == spec_has_task(self.spec_records(), task_id),
    {
        let mut i: usize = 0;
        while i < self.records.len()
            invariant
                i <= self.records.len(),
                forall|j: int| 0 <= j < i ==> self.records@[j].task_id != task_id,
            decreases self.records.len() - i,
        {
            if self.records[i].task_id == task_id {
                return true;
            }
            i += 1;
        }
        false
    }

    /// How many records are retained.
    pub fn len(&self) -> (n: usize)
        ensures
            n == self.spec_records().len(),
    {
        self.records.len()
    }
}

} // verus!
