//! Bookkeeping of background tasks: ids, lifecycle states and the decisions
//! taken when a task starts, finishes or is cancelled.
//!
//! Running the jobs (a Tokio runtime, timers, aborting) is the host's part;
//! it asks this registry what to do at each step.

use vstd::prelude::*;

use crate::decimal::{decimal, format_u64, lemma_decimal};
use crate::strmap::StrMap;
use crate::text::{ascii_lower_seq, ascii_lowercase, chars_eq, chars_of, extend, to_string, trim, trim_ws};

verus! {

/// Lifecycle of a background task.
#[derive(Debug, Clone, Copy, PartialEq, Eq, Structural)]
pub enum TaskStatus {
    Pending,
    Running,
    Done,
    Cancelled,
    Failed,
}

/// Wire code of a status.
pub open spec fn status_code(s: TaskStatus) -> u8 {
    match s {
        TaskStatus::Pending => 0,
        TaskStatus::Running => 1,
        TaskStatus::Done => 2,
        TaskStatus::Cancelled => 3,
        TaskStatus::Failed => 4,
    }
}

/// Status of a wire code; unknown codes read as `Pending`.
pub open spec fn status_of_code(v: u8) -> TaskStatus {
    if v == 1 {
        TaskStatus::Running
    } else if v == 2 {
        TaskStatus::Done
    } else if v == 3 {
        TaskStatus::Cancelled
    } else if v == 4 {
        TaskStatus::Failed
    } else {
        TaskStatus::Pending
    }
}

/// Stable name of a status.
pub open spec fn status_name(s: TaskStatus) -> Seq<char> {
    match s {
        TaskStatus::Pending => "pending"@,
        TaskStatus::Running => "running"@,
        TaskStatus::Done => "done"@,
        TaskStatus::Cancelled => "cancelled"@,
        TaskStatus::Failed => "failed"@,
    }
}

/// Status named by `s` (trimmed, ASCII case-insensitive; `canceled` too).
pub open spec fn status_named(s: Seq<char>) -> Option<TaskStatus> {
    let n = ascii_lower_seq(trim_ws(s));
    if n == "pending"@ {
        Some(TaskStatus::Pending)
    } else if n == "running"@ {
        Some(TaskStatus::Running)
    } else if n == "done"@ {
        Some(TaskStatus::Done)
    } else if n == "cancelled"@ || n == "canceled"@ {
        Some(TaskStatus::Cancelled)
    } else if n == "failed"@ {
        Some(TaskStatus::Failed)
    } else {
        None
    }
}

/// Done, cancelled or failed.
pub open spec fn is_final(s: TaskStatus) -> bool {
    s == TaskStatus::Done || s == TaskStatus::Cancelled || s == TaskStatus::Failed
}

fn is_name(n: &Vec<char>, name: &str) -> (b: bool)
    ensures
        b == (n@ == name@),
{
    let c = chars_of(name);
    chars_eq(n, &c)
}

impl TaskStatus {
    /// Status of a wire code; unknown codes read as `Pending`.
    pub fn from_u8(v: u8) -> (s: Self)
        ensures
            s == status_of_code(v),
    {
        match v {
            1 => TaskStatus::Running,
            2 => TaskStatus::Done,
            3 => TaskStatus::Cancelled,
            4 => TaskStatus::Failed,
            _ => TaskStatus::Pending,
        }
    }

    /// Wire code of the status.
    pub fn as_u8(self) -> (v: u8)
        ensures
            v == status_code(self),
    {
        match self {
            TaskStatus::Pending => 0,
            TaskStatus::Running => 1,
            TaskStatus::Done => 2,
            TaskStatus::Cancelled => 3,
            TaskStatus::Failed => 4,
        }
    }

    /// Stable string for language bindings.
    pub fn as_str(self) -> (r: &'static str)
        ensures
            r@ == status_name(self),
    {
        match self {
            TaskStatus::Pending => "pending",
            TaskStatus::Running => "running",
            TaskStatus::Done => "done",
            TaskStatus::Cancelled => "cancelled",
            TaskStatus::Failed => "failed",
        }
    }

    /// Parse a status name (case-insensitive).
    pub fn parse(s: &str) -> (r: Option<Self>)
        ensures
            r == status_named(s@),
    {
        let c = chars_of(s);
        let t = trim(&c);
        let n = ascii_lowercase(&t);
        if is_name(&n, "pending") {
            Some(TaskStatus::Pending)
        } else if is_name(&n, "running") {
            Some(TaskStatus::Running)
        } else if is_name(&n, "done") {
            Some(TaskStatus::Done)
        } else if is_name(&n, "cancelled") || is_name(&n, "canceled") {
            Some(TaskStatus::Cancelled)
        } else if is_name(&n, "failed") {
            Some(TaskStatus::Failed)
        } else {
            None
        }
    }
}

/// Reading the wire code of a status gives the status back.
pub proof fn law_status_code_roundtrip(s: TaskStatus)
    ensures
        status_of_code(status_code(s)) == s,
{
}

/// Parsing the name of a status gives the status back.
pub proof fn law_status_name_roundtrip(s: TaskStatus)
    ensures
        status_named(status_name(s)) == Some(s),
{
    reveal_strlit("pending");
    reveal_strlit("running");
    reveal_strlit("done");
    reveal_strlit("cancelled");
    reveal_strlit("canceled");
    reveal_strlit("failed");
    let n = status_name(s);
    assert(trim_ws(n) == n) by {
        assert(crate::text::trim_end_ws(n) == n);
    }
    assert(ascii_lower_seq(n) =~= n);
}

/// States after the job of `id` starts (a cancelled task does not start).
pub open spec fn after_begin(st: Map<Seq<char>, TaskStatus>, id: Seq<char>) -> Map<Seq<char>, TaskStatus> {
    if st.contains_key(id) && st[id] != TaskStatus::Cancelled {
        st.insert(id, TaskStatus::Running)
    } else {
        st
    }
}

/// States after the job of `id` returns (`ok`) or fails; only a running task changes.
pub open spec fn after_finish(st: Map<Seq<char>, TaskStatus>, id: Seq<char>, ok: bool) -> Map<
    Seq<char>,
    TaskStatus,
> {
    if st.contains_key(id) && st[id] == TaskStatus::Running {
        st.insert(
            id,
            if ok {
                TaskStatus::Done
            } else {
                TaskStatus::Failed
            },
        )
    } else {
        st
    }
}

/// States after cancelling `id`; finished tasks keep their state.
pub open spec fn after_cancel(st: Map<Seq<char>, TaskStatus>, id: Seq<char>) -> Map<Seq<char>, TaskStatus> {
    if st.contains_key(id) && !is_final(st[id]) {
        st.insert(id, TaskStatus::Cancelled)
    } else {
        st
    }
}

/// `task-<n>`: the id of the `n`-th task.
pub open spec fn task_id(n: u64) -> Seq<char> {
    "task-"@ + decimal(n as nat)
}

/// Ids, counter and lifecycle state of the tracked tasks.
pub struct TaskRegistry {
    next_id: u64,
    statuses: StrMap<TaskStatus>,
}

impl TaskRegistry {
    /// Counter for the next id.
    pub closed spec fn counter(&self) -> u64 {
        self.next_id
    }

    /// Status of every tracked task.
    pub closed spec fn states(&self) -> Map<Seq<char>, TaskStatus> {
        self.statuses@
    }

    /// An empty registry whose first id is `task-1`.
    pub fn new() -> (r: Self)
        ensures
            r.counter() == 1,
            r.states() == Map::<Seq<char>, TaskStatus>::empty(),
    {
        TaskRegistry { next_id: 1, statuses: StrMap::new() }
    }

    /// Takes the next id; the counter wraps like an atomic `fetch_add`.
    pub fn alloc_id(&mut self) -> (id: String)
        ensures
            id@ == task_id(old(self).counter()),
            final(self).counter() == if old(self).counter() == u64::MAX {
                0
            } else {
                (old(self).counter() + 1) as u64
            },
            final(self).states() == old(self).states(),
    {
        let n = self.next_id;
        self.next_id = if n == u64::MAX {
            0
        } else {
            n + 1
        };
        let mut out = chars_of("task-");
        let digits = format_u64(n);
        extend(&mut out, &digits);
        to_string(&out)
    }

    /// Tracks a newly spawned task as pending.
    pub fn register(&mut self, id: String)
        ensures
            final(self).states() == old(self).states().insert(id@, TaskStatus::Pending),
            final(self).counter() == old(self).counter(),
    {
        self.statuses.insert(id, TaskStatus::Pending);
    }

    /// Current status for a task id, if known.
    pub fn status(&self, id: &str) -> (r: Option<TaskStatus>)
        ensures
            r == (if self.states().contains_key(id@) {
                Some(self.states()[id@])
            } else {
                None
            }),
    {
        match self.statuses.get(id) {
            Some(s) => Some(*s),
            None => None,
        }
    }

    /// A task is about to run its job: `false` when it was cancelled first
    /// (the job must not run); otherwise it is marked running.
    pub fn begin_run(&mut self, id: &str) -> (run: bool)
        ensures
            run == !(old(self).states().contains_key(id@) && old(self).states()[id@]
                == TaskStatus::Cancelled),
            final(self).states() == after_begin(old(self).states(), id@),
            final(self).counter() == old(self).counter(),
    {
        match self.statuses.get(id) {
            Some(s) => {
                if *s == TaskStatus::Cancelled {
                    false
                } else {
                    self.statuses.insert(id.to_string(), TaskStatus::Running);
                    true
                }
            },
            None => true,
        }
    }

    /// A job has returned (`ok`) or panicked: a running task becomes done or
    /// failed; any other state (a cancel that raced the job) is kept.
    pub fn finish(&mut self, id: &str, ok: bool)
        ensures
            final(self).states() == after_finish(old(self).states(), id@, ok),
            final(self).counter() == old(self).counter(),
    {
        match self.statuses.get(id) {
            Some(s) => {
                if *s == TaskStatus::Running {
                    let done = if ok {
                        TaskStatus::Done
                    } else {
                        TaskStatus::Failed
                    };
                    self.statuses.insert(id.to_string(), done);
                }
            },
            None => {},
        }
    }

    /// Whether cancelling `id` now stops a pending or running job (its handle must be aborted).
    pub fn cancel_aborts(&self, id: &str) -> (b: bool)
        ensures
            b == (self.states().contains_key(id@) && !is_final(self.states()[id@])),
    {
        match self.statuses.get(id) {
            Some(s) => !(*s == TaskStatus::Done || *s == TaskStatus::Cancelled || *s
                == TaskStatus::Failed),
            None => false,
        }
    }

    /// Cancel a pending/running task. Returns whether the id was known.
    pub fn cancel(&mut self, id: &str) -> (known: bool)
        ensures
            known == old(self).states().contains_key(id@),
            final(self).states() == after_cancel(old(self).states(), id@),
            final(self).counter() == old(self).counter(),
    {
        match self.statuses.get(id) {
            Some(s) => {
                if !(*s == TaskStatus::Done || *s == TaskStatus::Cancelled || *s
                    == TaskStatus::Failed) {
                    self.statuses.insert(id.to_string(), TaskStatus::Cancelled);
                }
                true
            },
            None => false,
        }
    }

    /// Drop all tracked tasks (the host aborts their jobs).
    pub fn reset_for_tests(&mut self)
        ensures
            final(self).states() == Map::<Seq<char>, TaskStatus>::empty(),
            final(self).counter() == old(self).counter(),
    {
        self.statuses.clear();
    }
}

/// A cancel that comes before the job starts wins: the job does not run and
/// the task ends cancelled whatever the job would have returned.
pub proof fn law_cancel_before_run_wins(st: Map<Seq<char>, TaskStatus>, id: Seq<char>, ok: bool)
    requires
        st.contains_key(id),
        st[id] == TaskStatus::Pending,
    ensures
        after_cancel(st, id)[id] == TaskStatus::Cancelled,
        after_begin(after_cancel(st, id), id) == after_cancel(st, id),
        after_finish(after_begin(after_cancel(st, id), id), id, ok)[id] == TaskStatus::Cancelled,
{
}

/// A cancel that races a running job is not undone when the job returns.
pub proof fn law_cancel_while_running_is_kept(st: Map<Seq<char>, TaskStatus>, id: Seq<char>, ok: bool)
    requires
        st.contains_key(id),
        st[id] == TaskStatus::Running,
    ensures
        after_finish(after_cancel(st, id), id, ok)[id] == TaskStatus::Cancelled,
{
}

/// Finished tasks are never changed by a cancel.
pub proof fn law_cancel_keeps_finished(st: Map<Seq<char>, TaskStatus>, id: Seq<char>)
    requires
        st.contains_key(id),
        is_final(st[id]),
    ensures
        after_cancel(st, id) == st,
{
}

/// Tasks that are not cancelled run and then end done or failed by the job's outcome.
pub proof fn law_run_to_completion(st: Map<Seq<char>, TaskStatus>, id: Seq<char>, ok: bool)
    requires
        st.contains_key(id),
        st[id] == TaskStatus::Pending,
    ensures
        after_finish(after_begin(st, id), id, ok)[id] == if ok {
            TaskStatus::Done
        } else {
            TaskStatus::Failed
        },
{
}

/// Different counter values give different task ids, so every task that the
/// registry allocates before its counter wraps has an id of its own.
pub proof fn law_task_ids_distinct(n: u64, m: u64)
    requires
        n != m,
    ensures
        task_id(n) != task_id(m),
{
    lemma_decimal(n as nat);
    lemma_decimal(m as nat);
    let p = "task-"@;
    assert((p + decimal(n as nat)).skip(p.len() as int) =~= decimal(n as nat));
    assert((p + decimal(m as nat)).skip(p.len() as int) =~= decimal(m as nat));
}

} // verus!
