//! The background task queue: claim order, retry policy and the counts
//! that the user interface shows.
use vstd::prelude::*;
use vstd::string::StringExecFns;
use crate::listing::{is_listing, listing_order};
use crate::paths::{text_path_for, text_path_of};
use crate::text::{copy_opt, same_str};
use crate::records::{
    has_id, index_of, lemma_index_of, RecordStore, Transcription, TranscriptionStatus,
};

verus! {

/// How urgent a task is; higher ranks are claimed first.
#[derive(PartialEq, Eq, Structural, Clone, Copy, Debug)]
pub enum TaskPriority {
    Low,
    Normal,
    High,
}

impl TaskPriority {
    pub open spec fn rank(self) -> int {
        match self {
            TaskPriority::Low => 0,
            TaskPriority::Normal => 1,
            TaskPriority::High => 2,
        }
    }

    /// The stored number of a priority.
    pub fn value(&self) -> (r: u8)
        ensures
            r as int == self.rank(),
    {
        match self {
            TaskPriority::Low => 0,
            TaskPriority::Normal => 1,
            TaskPriority::High => 2,
        }
    }

    /// The priority a stored number stands for; an unknown number reads as
    /// `Normal`.
    pub fn from_value(v: i64) -> (r: TaskPriority)
        ensures
            0 <= v <= 2 ==> r.rank() == v,
            !(0 <= v <= 2) ==> r == TaskPriority::Normal,
    {
        if v == 0 {
            TaskPriority::Low
        } else if v == 2 {
            TaskPriority::High
        } else {
            TaskPriority::Normal
        }
    }
}

/// Where a task stands.
#[derive(PartialEq, Eq, Structural, Clone, Copy, Debug)]
pub enum TaskStatus {
    Pending,
    Processing,
    Completed,
    Failed,
}

impl Default for TaskStatus {
    fn default() -> (r: Self)
        ensures
            r == TaskStatus::Pending,
    {
        TaskStatus::Pending
    }
}

/// The work a task stands for.
#[derive(Debug)]
pub enum TaskType {
    TranscribeOrphan { audio_path: String, output_path: String },
    TranscribeImported { audio_path: String, original_name: String },
    FileSystemSync { full_scan: bool },
    ProcessImport { import_path: String, target_dir: String },
}

impl TaskType {
    /// A field-by-field copy.
    pub fn copy(&self) -> (r: TaskType)
        ensures
            r == *self,
    {
        match self {
            TaskType::TranscribeOrphan { audio_path, output_path } => TaskType::TranscribeOrphan {
                audio_path: audio_path.clone(),
                output_path: output_path.clone(),
            },
            TaskType::TranscribeImported { audio_path, original_name } =>
                TaskType::TranscribeImported {
                    audio_path: audio_path.clone(),
                    original_name: original_name.clone(),
                },
            TaskType::FileSystemSync { full_scan } => TaskType::FileSystemSync {
                full_scan: *full_scan,
            },
            TaskType::ProcessImport { import_path, target_dir } => TaskType::ProcessImport {
                import_path: import_path.clone(),
                target_dir: target_dir.clone(),
            },
        }
    }
}

/// One unit of background work. Times are seconds since the Unix epoch.
#[derive(Debug)]
pub struct BackgroundTask {
    pub id: String,
    pub transcription_id: String,
    pub task_type: TaskType,
    pub priority: TaskPriority,
    pub status: TaskStatus,
    pub created_at: i64,
    pub started_at: Option<i64>,
    pub completed_at: Option<i64>,
    pub retry_count: u32,
    pub max_retries: u32,
    pub error_message: Option<String>,
}

impl BackgroundTask {
    /// A field-by-field copy.
    pub fn copy(&self) -> (r: BackgroundTask)
        ensures
            r == *self,
    {
        BackgroundTask {
            id: self.id.clone(),
            transcription_id: self.transcription_id.clone(),
            task_type: self.task_type.copy(),
            priority: self.priority,
            status: self.status,
            created_at: self.created_at,
            started_at: self.started_at,
            completed_at: self.completed_at,
            retry_count: self.retry_count,
            max_retries: self.max_retries,
            error_message: copy_opt(&self.error_message),
        }
    }
}

/// What the queue holds, by status.
#[derive(Debug)]
pub struct QueueStatus {
    pub is_paused: bool,
    pub is_processing: bool,
    pub active_task: Option<BackgroundTask>,
    pub pending_count: usize,
    pub processing_count: usize,
    pub completed_count: usize,
    pub failed_count: usize,
    pub total_count: usize,
}

/// A queue error.
#[derive(PartialEq, Eq, Structural, Clone, Copy, Debug)]
pub enum QueueError {
    /// A task with this id is already queued.
    DuplicateTaskId,
    /// The task has used more retries than it allows.
    InvalidRetryCount,
    /// The task's times are out of order.
    InvalidTimestamps,
    /// No task has this id.
    TaskNotFound,
    /// Only a failed task can be retried by hand.
    NotFailed,
}

/// Whether `a` (at position `ia`) is claimed before `b` (at `ib`): higher
/// priority first, then older first, then the one queued first.
pub open spec fn claims_before(a: BackgroundTask, ia: int, b: BackgroundTask, ib: int) -> bool {
    a.priority.rank() > b.priority.rank() || (a.priority.rank() == b.priority.rank() && (
    a.created_at < b.created_at || (a.created_at == b.created_at && ia < ib)))
}

pub open spec fn has_pending(tasks: Seq<BackgroundTask>) -> bool {
    exists|j: int| 0 <= j < tasks.len() && (#[trigger] tasks[j]).status == TaskStatus::Pending
}

/// `k` is the pending task that a claim takes.
pub open spec fn is_next_claim(tasks: Seq<BackgroundTask>, k: int) -> bool {
    &&& 0 <= k < tasks.len()
    &&& tasks[k].status == TaskStatus::Pending
    &&& forall|j: int|
        0 <= j < tasks.len() && j != k && (#[trigger] tasks[j]).status == TaskStatus::Pending
            ==> claims_before(tasks[k], k, tasks[j], j)
}

pub open spec fn next_claim(tasks: Seq<BackgroundTask>) -> int {
    choose|k: int| is_next_claim(tasks, k)
}

/// The later of two times.
pub open spec fn later_of(a: i64, b: i64) -> i64 {
    if a < b {
        b
    } else {
        a
    }
}

/// A task as a claim at `now` leaves it; a clock behind the task's own
/// times does not make it start before it was created.
pub open spec fn claimed(t: BackgroundTask, now: i64) -> BackgroundTask {
    BackgroundTask {
        status: TaskStatus::Processing,
        started_at: Some(later_of(now, t.created_at)),
        completed_at: None,
        ..t
    }
}

/// A task as completion at `now` leaves it, never completed before it
/// started.
pub open spec fn completed(t: BackgroundTask, now: i64) -> BackgroundTask {
    BackgroundTask {
        status: TaskStatus::Completed,
        completed_at: Some(
            later_of(
                now,
                match t.started_at {
                    Some(s) => s,
                    None => t.created_at,
                },
            ),
        ),
        ..t
    }
}

/// A task's times run forward: created, then started, then completed.
pub open spec fn times_in_order(t: BackgroundTask) -> bool {
    &&& t.started_at matches Some(s) ==> t.created_at <= s
    &&& t.completed_at matches Some(c) ==> t.created_at <= c && (t.started_at matches Some(s)
        ==> s <= c)
}

pub open spec fn all_times_in_order(tasks: Seq<BackgroundTask>) -> bool {
    forall|k: int| 0 <= k < tasks.len() ==> times_in_order(#[trigger] tasks[k])
}

/// A task after one failed execution: back to `Pending` while retries are
/// left, else `Failed`; the error is kept either way.
pub open spec fn failed_once(t: BackgroundTask, error: String) -> BackgroundTask {
    if t.retry_count < t.max_retries {
        BackgroundTask {
            status: TaskStatus::Pending,
            retry_count: (t.retry_count + 1) as u32,
            error_message: Some(error),
            ..t
        }
    } else {
        BackgroundTask { status: TaskStatus::Failed, error_message: Some(error), ..t }
    }
}

/// A task as it enters the queue.
pub open spec fn queued(t: BackgroundTask, now: i64) -> BackgroundTask {
    BackgroundTask {
        status: TaskStatus::Pending,
        created_at: now,
        started_at: None,
        completed_at: None,
        error_message: None,
        ..t
    }
}

pub open spec fn task_has_id(tasks: Seq<BackgroundTask>, id: Seq<char>) -> bool {
    exists|k: int| 0 <= k < tasks.len() && (#[trigger] tasks[k]).id@ == id
}

pub open spec fn unique_task_ids(tasks: Seq<BackgroundTask>) -> bool {
    forall|a: int, b: int|
        0 <= a < tasks.len() && 0 <= b < tasks.len() && (#[trigger] tasks[a]).id@ == (
        #[trigger] tasks[b]).id@ ==> a == b
}

pub open spec fn retries_in_bounds(tasks: Seq<BackgroundTask>) -> bool {
    forall|k: int| 0 <= k < tasks.len() ==> (#[trigger] tasks[k]).retry_count <= tasks[k].max_retries
}

/// The position of the task with id `id`, or -1.
pub open spec fn task_index_before(tasks: Seq<BackgroundTask>, id: Seq<char>, n: int) -> int
    decreases n,
{
    if n <= 0 {
        -1
    } else if tasks[n - 1].id@ == id {
        n - 1
    } else {
        task_index_before(tasks, id, n - 1)
    }
}

pub open spec fn task_index_of(tasks: Seq<BackgroundTask>, id: Seq<char>) -> int {
    task_index_before(tasks, id, tasks.len() as int)
}

proof fn lemma_task_index_before(tasks: Seq<BackgroundTask>, id: Seq<char>, n: int)
    requires
        0 <= n <= tasks.len(),
    ensures
        -1 <= task_index_before(tasks, id, n) < n,
        task_index_before(tasks, id, n) >= 0 ==> tasks[task_index_before(tasks, id, n)].id@
            == id,
        task_index_before(tasks, id, n) == -1 ==> forall|k: int|
            0 <= k < n ==> (#[trigger] tasks[k]).id@ != id,
    decreases n,
{
    if n > 0 && tasks[n - 1].id@ != id {
        lemma_task_index_before(tasks, id, n - 1);
    }
}

pub proof fn lemma_task_index_of(tasks: Seq<BackgroundTask>, id: Seq<char>)
    ensures
        -1 <= task_index_of(tasks, id) < tasks.len(),
        task_has_id(tasks, id) <==> task_index_of(tasks, id) >= 0,
        task_index_of(tasks, id) >= 0 ==> tasks[task_index_of(tasks, id)].id@ == id,
{
    lemma_task_index_before(tasks, id, tasks.len() as int);
}

/// Only one task can be next: the claim order is strict and total.
pub proof fn lemma_next_claim_unique(tasks: Seq<BackgroundTask>, k: int)
    requires
        is_next_claim(tasks, k),
    ensures
        next_claim(tasks) == k,
{
    let c = next_claim(tasks);
    assert(is_next_claim(tasks, c));
    if c != k {
        assert(claims_before(tasks[k], k, tasks[c], c));
        assert(claims_before(tasks[c], c, tasks[k], k));
    }
}

/// A task that a claim has taken is no longer claimable: of any number of
/// claims made one after another, at most one takes a given task.
pub proof fn lemma_claim_at_most_once(tasks: Seq<BackgroundTask>, now: i64)
    requires
        has_pending(tasks),
    ensures
        ({
            let k = next_claim(tasks);
            let after = tasks.update(k, claimed(tasks[k], now));
            &&& is_next_claim(tasks, k)
            &&& after[k].status == TaskStatus::Processing
            &&& forall|j: int| is_next_claim(after, j) ==> j != k
            &&& has_pending(after) ==> next_claim(after) != k
        }),
{
    lemma_next_claim_exists(tasks);
    let k = next_claim(tasks);
    let after = tasks.update(k, claimed(tasks[k], now));
    if has_pending(after) {
        lemma_next_claim_exists(after);
    }
}

/// The best pending task among `tasks[0..n]`.
proof fn lemma_best_among(tasks: Seq<BackgroundTask>, n: int) -> (b: int)
    requires
        0 <= n <= tasks.len(),
        exists|j: int| 0 <= j < n && (#[trigger] tasks[j]).status == TaskStatus::Pending,
    ensures
        0 <= b < n,
        tasks[b].status == TaskStatus::Pending,
        forall|j: int|
            0 <= j < n && j != b && (#[trigger] tasks[j]).status == TaskStatus::Pending
                ==> claims_before(tasks[b], b, tasks[j], j),
    decreases n,
{
    if exists|j: int| 0 <= j < n - 1 && (#[trigger] tasks[j]).status == TaskStatus::Pending {
        let b0 = lemma_best_among(tasks, n - 1);
        if tasks[n - 1].status == TaskStatus::Pending && claims_before(
            tasks[n - 1],
            n - 1,
            tasks[b0],
            b0,
        ) {
            n - 1
        } else {
            b0
        }
    } else {
        n - 1
    }
}

/// Where a task is pending, a claim has one to take.
pub proof fn lemma_next_claim_exists(tasks: Seq<BackgroundTask>)
    requires
        has_pending(tasks),
    ensures
        is_next_claim(tasks, next_claim(tasks)),
{
    let b = lemma_best_among(tasks, tasks.len() as int);
    lemma_next_claim_unique(tasks, b);
}

/// `r` and `after` are what a claim at `now` gives from `tasks`, with the
/// queue paused or not.
pub open spec fn claim_result(
    tasks: Seq<BackgroundTask>,
    paused: bool,
    now: i64,
    r: Option<BackgroundTask>,
    after: Seq<BackgroundTask>,
) -> bool {
    &&& r is None <==> paused || !has_pending(tasks)
    &&& r is None ==> after == tasks
    &&& r is Some ==> {
        let k = next_claim(tasks);
        &&& is_next_claim(tasks, k)
        &&& after == tasks.update(k, claimed(tasks[k], now))
        &&& r == Some(after[k])
    }
}

/// Claims made one after another, as concurrent claimers are serialised:
/// on an unpaused queue with a pending task the first claim takes one; a
/// later claim never takes the same task, which stays `Processing`; where
/// that task was the only pending one, the later claim gets nothing.
pub proof fn lemma_claims_take_a_task_once(
    tasks0: Seq<BackgroundTask>,
    paused: bool,
    now1: i64,
    r1: Option<BackgroundTask>,
    tasks1: Seq<BackgroundTask>,
    now2: i64,
    r2: Option<BackgroundTask>,
    tasks2: Seq<BackgroundTask>,
)
    requires
        unique_task_ids(tasks0),
        claim_result(tasks0, paused, now1, r1, tasks1),
        claim_result(tasks1, paused, now2, r2, tasks2),
    ensures
        !paused && has_pending(tasks0) ==> r1 is Some,
        r1 matches Some(x1) ==> {
            &&& r2 matches Some(x2) ==> x2.id@ != x1.id@
            &&& tasks2[next_claim(tasks0)].status == TaskStatus::Processing
            &&& tasks2[next_claim(tasks0)].id@ == x1.id@
        },
        r1 is Some && (forall|j: int|
            0 <= j < tasks0.len() && (#[trigger] tasks0[j]).status == TaskStatus::Pending ==> j
                == next_claim(tasks0)) ==> r2 is None,
{
    if r1 is Some {
        let k = next_claim(tasks0);
        if r2 is Some {
            let k2 = next_claim(tasks1);
            assert(tasks1[k2].status == TaskStatus::Pending);
            assert(k2 != k);
            assert(tasks1[k2] == tasks0[k2]);
        }
        if forall|j: int|
            0 <= j < tasks0.len() && (#[trigger] tasks0[j]).status == TaskStatus::Pending ==> j
                == next_claim(tasks0) {
            if has_pending(tasks1) {
                let j = choose|j: int| 0 <= j < tasks1.len() && (#[trigger] tasks1[j]).status == TaskStatus::Pending;
                assert(j != k);
                assert(tasks1[j] == tasks0[j]);
            }
        }
    }
}

/// A task through one claim and one failed execution.
pub open spec fn claimed_then_failed(t: BackgroundTask, now: i64, error: String) -> BackgroundTask {
    failed_once(claimed(t, now), error)
}

/// A task through `n` rounds of claim and failure.
pub open spec fn fail_rounds(t: BackgroundTask, n: nat, now: i64, error: String) -> BackgroundTask
    decreases n,
{
    if n == 0 {
        t
    } else {
        claimed_then_failed(fail_rounds(t, (n - 1) as nat, now, error), now, error)
    }
}

/// A fresh task that fails every execution goes back to the queue once per
/// allowed retry and is `Failed`, with every retry used, after one failure
/// more than it allows retries.
pub proof fn lemma_retry_exhaustion(t: BackgroundTask, now: i64, error: String, n: nat)
    requires
        t.retry_count == 0,
        n <= t.max_retries + 1,
    ensures
        n <= t.max_retries ==> fail_rounds(t, n, now, error).retry_count == n,
        1 <= n <= t.max_retries ==> fail_rounds(t, n, now, error).status == TaskStatus::Pending,
        n == t.max_retries + 1 ==> fail_rounds(t, n, now, error).status == TaskStatus::Failed
            && fail_rounds(t, n, now, error).retry_count == t.max_retries,
        fail_rounds(t, n, now, error).max_retries == t.max_retries,
    decreases n,
{
    if n > 0 {
        lemma_retry_exhaustion(t, now, error, (n - 1) as nat);
    }
}

pub open spec fn count_task_status(tasks: Seq<BackgroundTask>, s: TaskStatus) -> nat
    decreases tasks.len(),
{
    if tasks.len() == 0 {
        0
    } else {
        count_task_status(tasks.drop_last(), s) + if tasks.last().status == s {
            1nat
        } else {
            0nat
        }
    }
}

/// The first position at or after `i` of a task with status `s`, or `tasks.len()`.
pub open spec fn first_with_status(tasks: Seq<BackgroundTask>, s: TaskStatus, i: int) -> int
    decreases tasks.len() - i,
{
    if i < 0 || i >= tasks.len() {
        tasks.len() as int
    } else if tasks[i].status == s {
        i
    } else {
        first_with_status(tasks, s, i + 1)
    }
}

/// The tasks that are not completed, in order.
pub open spec fn without_completed(tasks: Seq<BackgroundTask>) -> Seq<BackgroundTask>
    decreases tasks.len(),
{
    if tasks.len() == 0 {
        tasks
    } else if tasks.last().status == TaskStatus::Completed {
        without_completed(tasks.drop_last())
    } else {
        without_completed(tasks.drop_last()).push(tasks.last())
    }
}

/// A task is unresolved while it waits or runs.
pub open spec fn is_unresolved(t: BackgroundTask) -> bool {
    t.status == TaskStatus::Pending || t.status == TaskStatus::Processing
}

pub open spec fn has_unresolved_for(tasks: Seq<BackgroundTask>, transcription_id: Seq<char>) -> bool {
    exists|k: int|
        0 <= k < tasks.len() && (#[trigger] tasks[k]).transcription_id@ == transcription_id
            && is_unresolved(tasks[k])
}

pub open spec fn has_unresolved_sync(tasks: Seq<BackgroundTask>) -> bool {
    exists|k: int|
        0 <= k < tasks.len() && (#[trigger] tasks[k]).task_type is FileSystemSync && is_unresolved(
            tasks[k],
        )
}

/// How a status weighs in listings: running, then waiting, then failed,
/// then completed.
pub open spec fn status_weight(s: TaskStatus) -> int {
    match s {
        TaskStatus::Processing => 3,
        TaskStatus::Pending => 2,
        TaskStatus::Failed => 1,
        TaskStatus::Completed => 0,
    }
}

/// The listing key of a task: by status weight, then priority, then newest
/// first, each field taking bits of its own.
pub open spec fn list_key(t: BackgroundTask) -> i128 {
    (status_weight(t.status) * 0x4_0000_0000_0000_0000 + t.priority.rank() * 0x1_0000_0000_0000_0000
        + (t.created_at + 0x8000_0000_0000_0000)) as i128
}

pub open spec fn list_keys(tasks: Seq<BackgroundTask>) -> Seq<i128> {
    tasks.map_values(|t: BackgroundTask| list_key(t))
}

/// How many items a page of `limit` from `offset` holds out of `n`.
pub open spec fn page_len(n: int, limit: int, offset: int) -> int {
    if offset >= n {
        0
    } else if limit < n - offset {
        limit
    } else {
        n - offset
    }
}

fn list_key_exec(t: &BackgroundTask) -> (r: i128)
    ensures
        r == list_key(*t),
{
    let w: i128 = match t.status {
        TaskStatus::Processing => 3,
        TaskStatus::Pending => 2,
        TaskStatus::Failed => 1,
        TaskStatus::Completed => 0,
    };
    let p = t.priority.value() as i128;
    w * 0x4_0000_0000_0000_0000 + p * 0x1_0000_0000_0000_0000 + (t.created_at as i128
        + 0x8000_0000_0000_0000)
}

/// Some stored task has an id as long as a fresh one; only then can a fresh
/// id collide.
pub open spec fn has_id_of_fresh_length(tasks: Seq<BackgroundTask>) -> bool {
    exists|k: int| 0 <= k < tasks.len() && (#[trigger] tasks[k]).id@.len() == 36
}

/// Relies on uuid's `Uuid::new_v4` and its hyphenated text form, which is
/// 36 characters long.
#[verifier::external_body]
pub(crate) fn new_task_id() -> (r: String)
    ensures
        r@.len() == 36,
{
    uuid::Uuid::new_v4().to_string()
}

fn claims_before_exec(a: &BackgroundTask, ia: usize, b: &BackgroundTask, ib: usize) -> (r: bool)
    ensures
        r == claims_before(*a, ia as int, *b, ib as int),
{
    let ra = a.priority.value();
    let rb = b.priority.value();
    ra > rb || (ra == rb && (a.created_at < b.created_at || (a.created_at == b.created_at && ia
        < ib)))
}

/// The task table and the paused flag.
pub struct TaskQueue {
    tasks: Vec<BackgroundTask>,
    paused: bool,
}

impl View for TaskQueue {
    type V = Seq<BackgroundTask>;

    closed spec fn view(&self) -> Seq<BackgroundTask> {
        self.tasks@
    }
}

impl TaskQueue {
    pub closed spec fn paused(&self) -> bool {
        self.paused
    }

    /// Task ids are unique, no task has used more retries than it allows,
    /// and every task's times run forward.
    pub open spec fn wf(&self) -> bool {
        unique_task_ids(self@) && retries_in_bounds(self@) && all_times_in_order(self@)
    }

    pub fn new() -> (r: TaskQueue)
        ensures
            r@ == Seq::<BackgroundTask>::empty(),
            !r.paused(),
            r.wf(),
    {
        TaskQueue { tasks: Vec::new(), paused: false }
    }

    /// A queue holding `tasks` as they are, refused where two share an id,
    /// one has used more retries than it allows, or one's times run
    /// backward.
    pub fn restore(tasks: Vec<BackgroundTask>, paused: bool) -> (r: Result<TaskQueue, QueueError>)
        ensures
            r is Ok <==> unique_task_ids(tasks@) && retries_in_bounds(tasks@) && all_times_in_order(
                tasks@,
            ),
            !unique_task_ids(tasks@) ==> r == Err::<TaskQueue, QueueError>(QueueError::DuplicateTaskId),
            unique_task_ids(tasks@) && !retries_in_bounds(tasks@) ==> r == Err::<TaskQueue, QueueError>(QueueError::InvalidRetryCount),
            unique_task_ids(tasks@) && retries_in_bounds(tasks@) && !all_times_in_order(tasks@) ==> r
                == Err::<TaskQueue, QueueError>(QueueError::InvalidTimestamps),
            r matches Ok(q) ==> q@ == tasks@ && q.paused() == paused && q.wf(),
    {
        let ghost all = tasks@;
        let mut rest = tasks;
        let mut q = TaskQueue { tasks: Vec::new(), paused };
        let mut bad_retry = false;
        let mut bad_time = false;
        while rest.len() > 0
            invariant
                unique_task_ids(q@),
                q@ + rest@ == all,
                all == tasks@,
                q.paused == paused,
                bad_retry ==> !retries_in_bounds(all),
                !bad_retry ==> retries_in_bounds(q@),
                bad_time ==> !all_times_in_order(all),
                !bad_time ==> all_times_in_order(q@),
            decreases rest@.len(),
        {
            let ghost before = q@;
            let t = rest.remove(0);
            if q.find(t.id.as_str()).is_some() {
                proof {
                    let w = choose|w: int| 0 <= w < before.len() && (#[trigger] before[w]).id@ == t.id@;
                    assert(all[w] == before[w]);
                    assert(all[before.len() as int] == t);
                    assert(all[w].id@ == all[before.len() as int].id@);
                    assert(!unique_task_ids(all));
                }
                return Err(QueueError::DuplicateTaskId);
            }
            if t.retry_count > t.max_retries {
                bad_retry = true;
                assert(all[before.len() as int] == t);
            }
            let time_ok = match (t.started_at, t.completed_at) {
                (Some(st), Some(c)) => t.created_at <= st && st <= c && t.created_at <= c,
                (Some(st), None) => t.created_at <= st,
                (None, Some(c)) => t.created_at <= c,
                (None, None) => true,
            };
            if !time_ok {
                bad_time = true;
                assert(all[before.len() as int] == t);
            }
            let ghost t2 = t;
            q.tasks.push(t);
            proof {
                let s = q@;
                assert forall|a: int, b: int|
                    0 <= a < s.len() && 0 <= b < s.len() && (#[trigger] s[a]).id@ == (
                    #[trigger] s[b]).id@ implies a == b by {
                    if a == s.len() - 1 && b < s.len() - 1 {
                        assert(before[b].id@ == t2.id@);
                    }
                    if b == s.len() - 1 && a < s.len() - 1 {
                        assert(before[a].id@ == t2.id@);
                    }
                }
                assert(q@ + rest@ =~= all);
            }
        }
        assert(q@ =~= all);
        if bad_retry {
            return Err(QueueError::InvalidRetryCount);
        }
        if bad_time {
            return Err(QueueError::InvalidTimestamps);
        }
        Ok(q)
    }

    /// Halts claiming; the tasks stay.
    pub fn pause(&mut self)
        ensures
            final(self)@ == old(self)@,
            final(self).paused(),
    {
        self.paused = true;
    }

    /// Lets claiming go on.
    pub fn resume(&mut self)
        ensures
            final(self)@ == old(self)@,
            !final(self).paused(),
    {
        self.paused = false;
    }

    pub fn is_paused(&self) -> (r: bool)
        ensures
            r == self.paused(),
    {
        self.paused
    }

    pub fn len(&self) -> (r: usize)
        ensures
            r == self@.len(),
    {
        self.tasks.len()
    }

    /// The task at position `i`.
    pub fn at(&self, i: usize) -> (r: &BackgroundTask)
        requires
            i < self@.len(),
        ensures
            *r == self@[i as int],
    {
        &self.tasks[i]
    }

    /// Where the task with id `id` stands.
    pub fn find(&self, id: &str) -> (r: Option<usize>)
        ensures
            task_has_id(self@, id@) <==> r is Some,
            r matches Some(k) ==> k as int == task_index_of(self@, id@) && k < self@.len(),
    {
        proof {
            lemma_task_index_of(self@, id@);
        }
        let mut j: usize = self.tasks.len();
        while j > 0
            invariant
                j <= self@.len(),
                self@ == self.tasks@,
                task_index_of(self@, id@) == task_index_before(self@, id@, j as int),
            decreases j,
        {
            if same_str(self.tasks[j - 1].id.as_str(), id) {
                return Some(j - 1);
            }
            j = j - 1;
        }
        None
    }

    /// Queues a task as `Pending`, created at `now`.
    pub fn enqueue_task(&mut self, task: BackgroundTask, now: i64) -> (r: Result<(), QueueError>)
        requires
            old(self).wf(),
        ensures
            final(self).wf(),
            final(self).paused() == old(self).paused(),
            task_has_id(old(self)@, task.id@) ==> r == Err::<(), QueueError>(
                QueueError::DuplicateTaskId,
            ),
            !task_has_id(old(self)@, task.id@) && task.retry_count > task.max_retries ==> r
                == Err::<(), QueueError>(QueueError::InvalidRetryCount),
            r is Err ==> final(self)@ == old(self)@,
            r is Ok <==> !task_has_id(old(self)@, task.id@) && task.retry_count
                <= task.max_retries,
            r is Ok ==> final(self)@ == old(self)@.push(queued(task, now)),
    {
        if self.find(task.id.as_str()).is_some() {
            return Err(QueueError::DuplicateTaskId);
        }
        if task.retry_count > task.max_retries {
            return Err(QueueError::InvalidRetryCount);
        }
        let t = BackgroundTask {
            status: TaskStatus::Pending,
            created_at: now,
            started_at: None,
            completed_at: None,
            error_message: None,
            ..task
        };
        let ghost t2 = t;
        self.tasks.push(t);
        proof {
            let s = self@;
            assert forall|a: int, b: int|
                0 <= a < s.len() && 0 <= b < s.len() && (#[trigger] s[a]).id@ == (
                #[trigger] s[b]).id@ implies a == b by {
                if a == s.len() - 1 && b < s.len() - 1 {
                    assert(old(self)@[b].id@ == t2.id@);
                }
                if b == s.len() - 1 && a < s.len() - 1 {
                    assert(old(self)@[a].id@ == t2.id@);
                }
            }
            assert(retries_in_bounds(s));
        }
        Ok(())
    }

    /// Takes the next pending task, by priority, then age, then queue
    /// order, and marks it `Processing`, started at `now`, in one step.
    /// Nothing is taken while the queue is paused.
    pub fn claim_next_task(&mut self, now: i64) -> (r: Option<BackgroundTask>)
        requires
            old(self).wf(),
        ensures
            final(self).wf(),
            final(self).paused() == old(self).paused(),
            claim_result(old(self)@, old(self).paused(), now, r, final(self)@),
            r is None <==> old(self).paused() || !has_pending(old(self)@),
            r is None ==> final(self)@ == old(self)@,
            r is Some ==> {
                let k = next_claim(old(self)@);
                &&& is_next_claim(old(self)@, k)
                &&& final(self)@ == old(self)@.update(k, claimed(old(self)@[k], now))
                &&& r == Some(final(self)@[k])
            },
    {
        if self.paused {
            return None;
        }
        let mut best: Option<usize> = None;
        let mut i: usize = 0;
        while i < self.tasks.len()
            invariant
                i <= self@.len(),
                self@ == self.tasks@,
                best matches Some(b) ==> b < i && self@[b as int].status == TaskStatus::Pending
                    && forall|j: int|
                    0 <= j < i && j != b && (#[trigger] self@[j]).status == TaskStatus::Pending
                        ==> claims_before(self@[b as int], b as int, self@[j], j),
                best is None ==> forall|j: int|
                    0 <= j < i ==> (#[trigger] self@[j]).status != TaskStatus::Pending,
            decreases self@.len() - i,
        {
            if self.tasks[i].status == TaskStatus::Pending {
                match best {
                    None => {
                        best = Some(i);
                    },
                    Some(b) => {
                        if claims_before_exec(&self.tasks[i], i, &self.tasks[b], b) {
                            best = Some(i);
                        }
                    },
                }
            }
            i = i + 1;
        }
        match best {
            None => None,
            Some(k) => {
                proof {
                    lemma_next_claim_unique(self@, k as int);
                }
                let start = if now < self.tasks[k].created_at {
                    self.tasks[k].created_at
                } else {
                    now
                };
                self.tasks[k].status = TaskStatus::Processing;
                self.tasks[k].started_at = Some(start);
                self.tasks[k].completed_at = None;
                proof {
                    assert(self@ =~= old(self)@.update(k as int, claimed(old(self)@[k as int], now)));
                    assert forall|a: int| 0 <= a < self@.len() implies (#[trigger] self@[a]).id@
                        == old(self)@[a].id@ && self@[a].retry_count == old(self)@[a].retry_count
                        && self@[a].max_retries == old(self)@[a].max_retries by {}
                }
                Some(self.tasks[k].copy())
            },
        }
    }

    /// Marks the task with id `task_id` `Completed` at `now` and, in the same
    /// step, the record it resolves `Complete` with `text`.
    pub fn complete_task(
        &mut self,
        records: &mut RecordStore,
        task_id: &str,
        text: String,
        now: i64,
    ) -> (r: Result<(), QueueError>)
        requires
            old(self).wf(),
            old(records).wf(),
        ensures
            final(self).wf(),
            final(records).wf(),
            final(self).paused() == old(self).paused(),
            r is Ok <==> task_has_id(old(self)@, task_id@),
            r is Err ==> r == Err::<(), QueueError>(QueueError::TaskNotFound) && final(self)@
                == old(self)@ && final(records)@ == old(records)@,
            r is Ok ==> {
                let k = task_index_of(old(self)@, task_id@);
                let tid = old(self)@[k].transcription_id@;
                &&& final(self)@ == old(self)@.update(k, completed(old(self)@[k], now))
                &&& has_id(old(records)@, tid) ==> final(records)@ == old(records)@.update(
                    index_of(old(records)@, tid),
                    Transcription {
                        status: TranscriptionStatus::Complete,
                        transcription_text: Some(text),
                        transcribed_at: Some(now),
                        error_message: None,
                        ..old(records)@[index_of(old(records)@, tid)]
                    },
                )
                &&& !has_id(old(records)@, tid) ==> final(records)@ == old(records)@
            },
    {
        let k = match self.find(task_id) {
            Some(k) => k,
            None => {
                return Err(QueueError::TaskNotFound);
            },
        };
        proof {
            lemma_index_of(records@, self@[k as int].transcription_id@);
        }
        match records.find(self.tasks[k].transcription_id.as_str()) {
            Some(j) => {
                let old_rec = records.at(j);
                let rec = Transcription {
                    status: TranscriptionStatus::Complete,
                    transcription_text: Some(text),
                    transcribed_at: Some(now),
                    error_message: None,
                    ..old_rec.copy()
                };
                records.replace_at(j, rec);
            },
            None => {},
        }
        let from = match self.tasks[k].started_at {
            Some(st) => st,
            None => self.tasks[k].created_at,
        };
        let done = if now < from {
            from
        } else {
            now
        };
        self.tasks[k].status = TaskStatus::Completed;
        self.tasks[k].completed_at = Some(done);
        proof {
            assert forall|a: int| 0 <= a < self@.len() implies (#[trigger] self@[a]).id@ == old(self)@[a].id@ && self@[a].retry_count == old(self)@[a].retry_count
                && self@[a].max_retries == old(self)@[a].max_retries by {}
        }
        Ok(())
    }

    /// Records a failed execution of the task with id `task_id`: it goes
    /// back to `Pending` with one retry more while retries are left, else
    /// it becomes `Failed`. The error is kept; the new status is returned.
    pub fn record_failure(&mut self, task_id: &str, error: String) -> (r: Result<
        TaskStatus,
        QueueError,
    >)
        requires
            old(self).wf(),
        ensures
            final(self).wf(),
            final(self).paused() == old(self).paused(),
            r is Ok <==> task_has_id(old(self)@, task_id@),
            r is Err ==> r == Err::<TaskStatus, QueueError>(QueueError::TaskNotFound)
                && final(self)@ == old(self)@,
            r is Ok ==> {
                let k = task_index_of(old(self)@, task_id@);
                &&& final(self)@ == old(self)@.update(k, failed_once(old(self)@[k], error))
                &&& r == Ok::<TaskStatus, QueueError>(final(self)@[k].status)
            },
    {
        let k = match self.find(task_id) {
            Some(k) => k,
            None => {
                return Err(QueueError::TaskNotFound);
            },
        };
        if self.tasks[k].retry_count < self.tasks[k].max_retries {
            self.tasks[k].status = TaskStatus::Pending;
            self.tasks[k].retry_count = self.tasks[k].retry_count + 1;
        } else {
            self.tasks[k].status = TaskStatus::Failed;
        }
        self.tasks[k].error_message = Some(error);
        proof {
            assert(self@[k as int] == failed_once(old(self)@[k as int], error));
            assert(self@ =~= old(self)@.update(k as int, failed_once(old(self)@[k as int], error)));
            assert forall|a: int| 0 <= a < self@.len() implies (#[trigger] self@[a]).id@ == old(self)@[a].id@ by {}
        }
        Ok(self.tasks[k].status)
    }

    /// Puts a `Failed` task back in the queue with its retries reset.
    pub fn retry_failed_task(&mut self, task_id: &str) -> (r: Result<(), QueueError>)
        requires
            old(self).wf(),
        ensures
            final(self).wf(),
            final(self).paused() == old(self).paused(),
            !task_has_id(old(self)@, task_id@) ==> r == Err::<(), QueueError>(
                QueueError::TaskNotFound,
            ),
            task_has_id(old(self)@, task_id@) && old(self)@[task_index_of(
                old(self)@,
                task_id@,
            )].status != TaskStatus::Failed ==> r == Err::<(), QueueError>(QueueError::NotFailed),
            task_has_id(old(self)@, task_id@) && old(self)@[task_index_of(
                old(self)@,
                task_id@,
            )].status == TaskStatus::Failed ==> r is Ok,
            r is Err ==> final(self)@ == old(self)@,
            r is Ok ==> {
                let k = task_index_of(old(self)@, task_id@);
                &&& task_has_id(old(self)@, task_id@)
                &&& old(self)@[k].status == TaskStatus::Failed
                &&& final(self)@ == old(self)@.update(
                    k,
                    BackgroundTask {
                        status: TaskStatus::Pending,
                        retry_count: 0,
                        error_message: None,
                        ..old(self)@[k]
                    },
                )
            },
    {
        let k = match self.find(task_id) {
            Some(k) => k,
            None => {
                return Err(QueueError::TaskNotFound);
            },
        };
        if self.tasks[k].status != TaskStatus::Failed {
            return Err(QueueError::NotFailed);
        }
        self.tasks[k].status = TaskStatus::Pending;
        self.tasks[k].retry_count = 0;
        self.tasks[k].error_message = None;
        proof {
            assert forall|a: int| 0 <= a < self@.len() implies (#[trigger] self@[a]).id@ == old(self)@[a].id@ by {}
        }
        Ok(())
    }

    /// Removes every `Completed` task and returns how many went.
    pub fn clear_completed_tasks(&mut self) -> (r: usize)
        requires
            old(self).wf(),
        ensures
            final(self).wf(),
            final(self).paused() == old(self).paused(),
            final(self)@ == without_completed(old(self)@),
            r == old(self)@.len() - final(self)@.len(),
    {
        let mut kept: Vec<BackgroundTask> = Vec::new();
        let ghost mut src: Seq<int> = Seq::empty();
        let n = self.tasks.len();
        let mut removed: usize = 0;
        let mut i: usize = 0;
        while i < n
            invariant
                n == old(self)@.len(),
                self.tasks@ == old(self)@,
                i <= n,
                kept@ == without_completed(old(self)@.take(i as int)),
                removed + kept@.len() == i,
                src.len() == kept@.len(),
                forall|a: int| 0 <= a < src.len() ==> 0 <= #[trigger] src[a] < i,
                forall|a: int, b: int| 0 <= a < b < src.len() ==> #[trigger] src[a] < #[trigger] src[b],
                forall|a: int| 0 <= a < src.len() ==> kept@[a] == old(self)@[#[trigger] src[a]],
            decreases n - i,
        {
            proof {
                let p = old(self)@.take(i + 1);
                assert(p.drop_last() =~= old(self)@.take(i as int));
                assert(p.last() == old(self)@[i as int]);
            }
            if self.tasks[i].status == TaskStatus::Completed {
                removed = removed + 1;
            } else {
                let t = self.tasks[i].copy();
                kept.push(t);
                proof {
                    src = src.push(i as int);
                }
            }
            i = i + 1;
        }
        proof {
            assert(old(self)@.take(n as int) =~= old(self)@);
            let s = kept@;
            let o = old(self)@;
            assert forall|a: int, b: int|
                0 <= a < s.len() && 0 <= b < s.len() && (#[trigger] s[a]).id@ == (
                #[trigger] s[b]).id@ implies a == b by {
                assert(s[a] == o[src[a]]);
                assert(s[b] == o[src[b]]);
                if a < b {
                    assert(src[a] < src[b]);
                }
                if b < a {
                    assert(src[b] < src[a]);
                }
            }
            assert forall|a: int| 0 <= a < s.len() implies (#[trigger] s[a]).retry_count
                <= s[a].max_retries by {
                assert(s[a] == o[src[a]]);
            }
            assert forall|a: int| 0 <= a < s.len() implies times_in_order(#[trigger] s[a]) by {
                assert(s[a] == o[src[a]]);
            }
        }
        self.tasks = kept;
        removed
    }

    /// Whether a task for record `transcription_id` is pending or running.
    pub fn has_unresolved_task_for(&self, transcription_id: &str) -> (r: bool)
        ensures
            r == has_unresolved_for(self@, transcription_id@),
    {
        let mut i: usize = 0;
        while i < self.tasks.len()
            invariant
                i <= self@.len(),
                self@ == self.tasks@,
                forall|j: int|
                    0 <= j < i ==> !((#[trigger] self@[j]).transcription_id@ == transcription_id@
                        && is_unresolved(self@[j])),
            decreases self@.len() - i,
        {
            let t = &self.tasks[i];
            if (t.status == TaskStatus::Pending || t.status == TaskStatus::Processing) && same_str(
                t.transcription_id.as_str(),
                transcription_id,
            ) {
                return true;
            }
            i = i + 1;
        }
        false
    }

    /// Whether a filesystem sync task is pending or running.
    pub fn has_unresolved_sync_task(&self) -> (r: bool)
        ensures
            r == has_unresolved_sync(self@),
    {
        let mut i: usize = 0;
        while i < self.tasks.len()
            invariant
                i <= self@.len(),
                self@ == self.tasks@,
                forall|j: int|
                    0 <= j < i ==> !((#[trigger] self@[j]).task_type is FileSystemSync
                        && is_unresolved(self@[j])),
            decreases self@.len() - i,
        {
            let t = &self.tasks[i];
            if (t.status == TaskStatus::Pending || t.status == TaskStatus::Processing) && matches!(t.task_type, TaskType::FileSystemSync { .. }) {
                return true;
            }
            i = i + 1;
        }
        false
    }

    /// Queues a filesystem sync task unless one is already pending or
    /// running; whether one was queued.
    pub fn enqueue_sync_task(&mut self, full_scan: bool, now: i64) -> (r: Result<bool, QueueError>)
        requires
            old(self).wf(),
        ensures
            final(self).wf(),
            final(self).paused() == old(self).paused(),
            has_unresolved_sync(old(self)@) ==> r == Ok::<bool, QueueError>(false) && final(self)@ == old(self)@,
            r is Err ==> r == Err::<bool, QueueError>(QueueError::DuplicateTaskId) && final(self)@
                == old(self)@ && has_id_of_fresh_length(old(self)@),
            !has_unresolved_sync(old(self)@) && !has_id_of_fresh_length(old(self)@) ==> r
                == Ok::<bool, QueueError>(true),
            r == Ok::<bool, QueueError>(true) ==> {
                let t = final(self)@.last();
                &&& !has_unresolved_sync(old(self)@)
                &&& final(self)@ == old(self)@.push(t)
                &&& t.id@.len() == 36
                &&& t.transcription_id@ == t.id@
                &&& t.task_type == (TaskType::FileSystemSync { full_scan })
                &&& t.priority == TaskPriority::Low
                &&& t.status == TaskStatus::Pending
                &&& t.created_at == now
                &&& t.retry_count == 0
                &&& t.max_retries == 1
            },
            !has_unresolved_sync(old(self)@) ==> r != Ok::<bool, QueueError>(false),
    {
        if self.has_unresolved_sync_task() {
            return Ok(false);
        }
        let id = new_task_id();
        let task = BackgroundTask {
            id: id.clone(),
            transcription_id: id,
            task_type: TaskType::FileSystemSync { full_scan },
            priority: TaskPriority::Low,
            status: TaskStatus::Pending,
            created_at: now,
            started_at: None,
            completed_at: None,
            retry_count: 0,
            max_retries: 1,
            error_message: None,
        };
        match self.enqueue_task(task, now) {
            Ok(()) => Ok(true),
            Err(e) => Err(e),
        }
    }

    /// Counts by status, the paused flag and the running task.
    pub fn get_queue_status(&self) -> (r: QueueStatus)
        ensures
            r.is_paused == self.paused(),
            r.pending_count == count_task_status(self@, TaskStatus::Pending),
            r.processing_count == count_task_status(self@, TaskStatus::Processing),
            r.completed_count == count_task_status(self@, TaskStatus::Completed),
            r.failed_count == count_task_status(self@, TaskStatus::Failed),
            r.total_count == self@.len(),
            r.is_processing == r.active_task is Some,
            ({
                let a = first_with_status(self@, TaskStatus::Processing, 0);
                &&& a < self@.len() ==> r.active_task == Some(self@[a])
                &&& a >= self@.len() ==> r.active_task is None
            }),
    {
        let mut pending: usize = 0;
        let mut processing: usize = 0;
        let mut completed: usize = 0;
        let mut failed: usize = 0;
        let mut active: Option<usize> = None;
        let mut i: usize = 0;
        while i < self.tasks.len()
            invariant
                i <= self@.len(),
                self@ == self.tasks@,
                pending == count_task_status(self@.take(i as int), TaskStatus::Pending),
                processing == count_task_status(self@.take(i as int), TaskStatus::Processing),
                completed == count_task_status(self@.take(i as int), TaskStatus::Completed),
                failed == count_task_status(self@.take(i as int), TaskStatus::Failed),
                pending <= i,
                processing <= i,
                completed <= i,
                failed <= i,
                active is None ==> first_with_status(self@, TaskStatus::Processing, 0)
                    == first_with_status(self@, TaskStatus::Processing, i as int),
                active matches Some(a) ==> a as int == first_with_status(
                    self@,
                    TaskStatus::Processing,
                    0,
                ) && a < self@.len(),
            decreases self@.len() - i,
        {
            proof {
                let p = self@.take(i + 1);
                assert(p.drop_last() =~= self@.take(i as int));
                assert(p.last() == self@[i as int]);
            }
            let s = self.tasks[i].status;
            if s == TaskStatus::Pending {
                pending = pending + 1;
            } else if s == TaskStatus::Processing {
                processing = processing + 1;
                if active.is_none() {
                    active = Some(i);
                }
            } else if s == TaskStatus::Completed {
                completed = completed + 1;
            } else {
                failed = failed + 1;
            }
            i = i + 1;
        }
        assert(self@.take(i as int) =~= self@);
        let active_task = match active {
            Some(a) => Some(self.tasks[a].copy()),
            None => None,
        };
        QueueStatus {
            is_paused: self.paused,
            is_processing: active_task.is_some(),
            active_task,
            pending_count: pending,
            processing_count: processing,
            completed_count: completed,
            failed_count: failed,
            total_count: self.tasks.len(),
        }
    }

    /// A page of the tasks: running first, then waiting, failed and
    /// completed; within a status by priority, newest first.
    pub fn get_tasks(&self, limit: usize, offset: usize) -> (r: Vec<BackgroundTask>)
        ensures
            exists|order: Seq<usize>|
                {
                    &&& is_listing(order, list_keys(self@))
                    &&& r@.len() == page_len(self@.len() as int, limit as int, offset as int)
                    &&& forall|a: int|
                        0 <= a < r@.len() ==> (#[trigger] r@[a]) == self@[order[offset + a] as int]
                },
    {
        let mut keys: Vec<i128> = Vec::new();
        let mut i: usize = 0;
        while i < self.tasks.len()
            invariant
                i <= self@.len(),
                self@ == self.tasks@,
                keys@ == list_keys(self@).take(i as int),
            decreases self@.len() - i,
        {
            keys.push(list_key_exec(&self.tasks[i]));
            i = i + 1;
            assert(keys@ =~= list_keys(self@).take(i as int));
        }
        assert(keys@ =~= list_keys(self@));
        let order = listing_order(&keys);
        let n = self.tasks.len();
        let mut out: Vec<BackgroundTask> = Vec::new();
        if offset >= n {
            return out;
        }
        let end = if limit < n - offset {
            offset + limit
        } else {
            n
        };
        let mut a: usize = offset;
        while a < end
            invariant
                offset <= a <= end <= n,
                n == self@.len(),
                self@ == self.tasks@,
                is_listing(order@, list_keys(self@)),
                out@.len() == a - offset,
                forall|b: int| 0 <= b < out@.len() ==> (#[trigger] out@[b]) == self@[order@[offset + b] as int],
            decreases end - a,
        {
            let t = self.tasks[order[a]].copy();
            out.push(t);
            a = a + 1;
        }
        out
    }

    /// Queues, at the user's request, the transcription of the audio file at
    /// `audio_path` for record `transcription_id`, its text going next to
    /// it. Returns the new task's id.
    pub fn enqueue_orphan_task(
        &mut self,
        transcription_id: &str,
        audio_path: &str,
        now: i64,
    ) -> (r: Result<String, QueueError>)
        requires
            old(self).wf(),
        ensures
            final(self).wf(),
            final(self).paused() == old(self).paused(),
            r is Err ==> r == Err::<String, QueueError>(QueueError::DuplicateTaskId) && final(self)@
                == old(self)@ && has_id_of_fresh_length(old(self)@),
            !has_id_of_fresh_length(old(self)@) ==> r is Ok,
            r matches Ok(id) ==> {
                let t = final(self)@.last();
                &&& final(self)@ == old(self)@.push(t)
                &&& t.id@ == id@
                &&& id@.len() == 36
                &&& t.transcription_id@ == transcription_id@
                &&& (t.task_type matches TaskType::TranscribeOrphan { audio_path: a, output_path: o }
                    && a@ == audio_path@ && o@ == text_path_of(audio_path@))
                &&& t.priority == TaskPriority::Low
                &&& t.status == TaskStatus::Pending
                &&& t.created_at == now
                &&& t.retry_count == 0
                &&& t.max_retries == 2
            },
    {
        let id = new_task_id();
        let task = BackgroundTask {
            id: id.clone(),
            transcription_id: String::from_str(transcription_id),
            task_type: TaskType::TranscribeOrphan {
                audio_path: String::from_str(audio_path),
                output_path: text_path_for(audio_path),
            },
            priority: TaskPriority::Low,
            status: TaskStatus::Pending,
            created_at: now,
            started_at: None,
            completed_at: None,
            retry_count: 0,
            max_retries: 2,
            error_message: None,
        };
        match self.enqueue_task(task, now) {
            Ok(()) => Ok(id),
            Err(e) => Err(e),
        }
    }
}

} // verus!
