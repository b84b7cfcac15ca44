//! Reconciliation of the record store with the audio files found on disk.
use vstd::prelude::*;
use crate::ids::{file_name, file_name_start, normalize_audio_path, normalized_path};
use crate::paths::{
    best_timestamp, file_id, file_id_of, path_timestamp, pick_timestamp, text_path_for,
    text_path_of,
};
use crate::queue::{
    has_unresolved_for, is_unresolved, new_task_id, BackgroundTask, TaskPriority, TaskQueue,
    TaskStatus, TaskType,
};
use crate::records::{
    has_id, index_of, lemma_index_of, unique_ids, RecordStore, Transcription,
    TranscriptionSource, TranscriptionStatus,
};
use crate::text::{chars_of, contains_str, copy_opt, copy_str, same_str};

verus! {

/// An audio file as a scan of the notes tree found it. Times are seconds
/// since the Unix epoch.
#[derive(Debug)]
pub struct DiscoveredFile {
    /// The path as the scan spelled it.
    pub path: String,
    pub file_size_bytes: u64,
    /// What the sibling text file holds, where there is one that could be read.
    pub text: Option<String>,
    /// Whether a sibling metadata file exists.
    pub has_sidecar: bool,
    pub modified_at: Option<i64>,
    pub created_at: Option<i64>,
    /// The length of the recording, as its metadata file gives it.
    pub duration_ms: Option<u64>,
    /// The language of the recording, as its metadata file gives it.
    pub language: Option<String>,
}

/// What one reconciliation pass did.
#[derive(Debug)]
pub struct SyncReport {
    pub total_files_found: usize,
    pub new_transcriptions: usize,
    pub updated_transcriptions: usize,
    pub missing_files: usize,
    pub errors: Vec<String>,
}

impl SyncReport {
    pub fn new() -> (r: SyncReport)
        ensures
            r.total_files_found == 0,
            r.new_transcriptions == 0,
            r.updated_transcriptions == 0,
            r.missing_files == 0,
            r.errors@.len() == 0,
    {
        SyncReport {
            total_files_found: 0,
            new_transcriptions: 0,
            updated_transcriptions: 0,
            missing_files: 0,
            errors: Vec::new(),
        }
    }
}

pub open spec fn opt_view(o: Option<String>) -> Option<Seq<char>> {
    match o {
        Some(s) => Some(s@),
        None => None,
    }
}

/// A file can be reconciled when its path names a file.
pub open spec fn is_valid_file(f: DiscoveredFile) -> bool {
    file_name(f.path@).len() > 0
}

pub open spec fn id_of(f: DiscoveredFile) -> Seq<char> {
    file_id(f.path@)
}

pub open spec fn has_text(f: DiscoveredFile) -> bool {
    f.text matches Some(t) && t@.len() > 0
}

/// The status that a file's surroundings give it: `Complete` with a
/// non-empty text file, `Orphaned` with a metadata file but no text,
/// `Pending` otherwise.
pub open spec fn found_status(f: DiscoveredFile) -> TranscriptionStatus {
    if has_text(f) {
        TranscriptionStatus::Complete
    } else if f.has_sidecar {
        TranscriptionStatus::Orphaned
    } else {
        TranscriptionStatus::Pending
    }
}

pub open spec fn found_text(f: DiscoveredFile) -> Option<Seq<char>> {
    if has_text(f) {
        opt_view(f.text)
    } else {
        None
    }
}

pub open spec fn found_text_path(f: DiscoveredFile) -> Option<Seq<char>> {
    if has_text(f) {
        Some(normalized_path(text_path_of(f.path@)))
    } else {
        None
    }
}

/// `t` is the record that file `f`, found at `now`, makes.
pub open spec fn is_found_record(t: Transcription, f: DiscoveredFile, now: i64) -> bool {
    &&& t.id@ == id_of(f)
    &&& t.audio_path@ == normalized_path(f.path@)
    &&& opt_view(t.text_path) == found_text_path(f)
    &&& opt_view(t.transcription_text) == found_text(f)
    &&& t.created_at == best_timestamp(f.modified_at, f.created_at, path_timestamp(f.path@), now)
    &&& t.transcribed_at is None
    &&& t.duration_ms == match f.duration_ms {
        Some(d) => d,
        None => 0,
    }
    &&& t.language@ == match f.language {
        Some(l) => l@,
        None => "en"@,
    }
    &&& t.file_size_bytes == f.file_size_bytes
    &&& t.status == found_status(f)
    &&& t.source == if has_text(f) {
        TranscriptionSource::Import
    } else {
        TranscriptionSource::Orphan
    }
    &&& t.error_message is None
}

/// A stored record says what file `f` shows: the same text, the same size,
/// and complete exactly when the file has its text.
pub open spec fn agrees(e: Transcription, f: DiscoveredFile) -> bool {
    &&& opt_view(e.transcription_text) == found_text(f)
    &&& e.file_size_bytes == f.file_size_bytes
    &&& (e.status == TranscriptionStatus::Complete) == (found_status(f)
        == TranscriptionStatus::Complete)
}

/// `n` is record `e` brought in line with file `f`.
pub open spec fn is_refreshed(n: Transcription, e: Transcription, f: DiscoveredFile) -> bool {
    &&& n == Transcription {
        status: found_status(f),
        transcription_text: n.transcription_text,
        text_path: n.text_path,
        file_size_bytes: f.file_size_bytes,
        ..e
    }
    &&& opt_view(n.transcription_text) == found_text(f)
    &&& opt_view(n.text_path) == found_text_path(f)
}

/// `id` is the id of a valid file among `files[0..n]`.
pub open spec fn is_file_id_before(files: Seq<DiscoveredFile>, n: int, id: Seq<char>) -> bool {
    exists|j: int| 0 <= j < n && is_valid_file(#[trigger] files[j]) && id_of(files[j]) == id
}

/// `id` is the id of a valid file of `files`.
pub open spec fn is_file_id(files: Seq<DiscoveredFile>, id: Seq<char>) -> bool {
    is_file_id_before(files, files.len() as int, id)
}

/// `files[j]` is valid and no valid file before it has its id: the file
/// that a pass reconciles for that id. A later file of the same id is
/// reported as an error.
pub open spec fn is_first(files: Seq<DiscoveredFile>, j: int) -> bool {
    is_valid_file(files[j]) && !is_file_id_before(files, j, id_of(files[j]))
}

/// How many of the files `files[0..n]` that a pass reconciles have a stored
/// record that they disagree with.
pub open spec fn count_updates(files: Seq<DiscoveredFile>, n: int, recs: Seq<Transcription>) -> nat
    decreases n,
{
    if n <= 0 {
        0
    } else {
        count_updates(files, n - 1, recs) + if is_first(files, n - 1) && has_id(
            recs,
            id_of(files[n - 1]),
        ) && !agrees(recs[index_of(recs, id_of(files[n - 1]))], files[n - 1]) {
            1nat
        } else {
            0nat
        }
    }
}

/// How many records have no file among `files` and are not yet `Orphaned`.
pub open spec fn count_missing(recs: Seq<Transcription>, files: Seq<DiscoveredFile>) -> nat
    decreases recs.len(),
{
    if recs.len() == 0 {
        0
    } else {
        let t = recs.last();
        count_missing(recs.drop_last(), files) + if !is_file_id(files, t.id@) && t.status
            != TranscriptionStatus::Orphaned {
            1nat
        } else {
            0nat
        }
    }
}

/// A record whose file has gone, as reconciliation leaves it.
pub open spec fn marked_missing(t: Transcription) -> Transcription {
    if t.status == TranscriptionStatus::Orphaned {
        t
    } else {
        Transcription { status: TranscriptionStatus::Orphaned, error_message: None, ..t }
    }
}

/// A task that reconciliation queues for a record without text.
pub open spec fn is_orphan_task(t: BackgroundTask, now: i64) -> bool {
    &&& t.task_type is TranscribeOrphan
    &&& t.priority == TaskPriority::Low
    &&& t.status == TaskStatus::Pending
    &&& t.created_at == now
    &&& t.retry_count == 0
    &&& t.max_retries == 2
}

/// File `f` calls for a transcription task: it has no text, and its id is
/// new or its record was complete.
pub open spec fn needs_task(recs: Seq<Transcription>, f: DiscoveredFile) -> bool {
    found_status(f) != TranscriptionStatus::Complete && (!has_id(recs, id_of(f)) || recs[index_of(
        recs,
        id_of(f),
    )].status == TranscriptionStatus::Complete)
}

pub open spec fn has_error(errors: Seq<String>, m: Seq<char>) -> bool {
    exists|q: int| 0 <= q < errors.len() && (#[trigger] errors[q])@ == m
}

/// The error for a path that names no file.
pub open spec fn unusable_error(p: Seq<char>) -> Seq<char> {
    "no file name: "@ + p
}

/// The error for a file whose id an earlier file has.
pub open spec fn duplicate_error(p: Seq<char>) -> Seq<char> {
    "another file has the same id: "@ + p
}

/// The error for a file whose task could not be queued.
pub open spec fn queue_error(p: Seq<char>) -> Seq<char> {
    "could not queue: "@ + p
}

/// Every valid file among `files[0..n]` has its record; the new records are
/// exactly those of reconciled files whose ids were not stored; every
/// reconciled file's record is in line with it.
pub open spec fn files_recorded_before(
    recs0: Seq<Transcription>,
    files: Seq<DiscoveredFile>,
    n: int,
    now: i64,
    recs: Seq<Transcription>,
) -> bool {
    let n0 = recs0.len();
    &&& forall|j: int| 0 <= j < n && is_valid_file(#[trigger] files[j]) ==> has_id(recs, id_of(files[j]))
    &&& forall|k: int|
        n0 <= k < recs.len() ==> !has_id(recs0, (#[trigger] recs[k]).id@) && exists|j: int|
            0 <= j < n && is_first(files, j) && id_of(#[trigger] files[j]) == recs[k].id@
                && is_found_record(recs[k], files[j], now)
    &&& forall|j: int|
        0 <= j < n && is_first(files, j) ==> agrees(
            recs[index_of(recs, id_of(#[trigger] files[j]))],
            files[j],
        )
}

pub open spec fn files_recorded(
    recs0: Seq<Transcription>,
    files: Seq<DiscoveredFile>,
    now: i64,
    recs: Seq<Transcription>,
) -> bool {
    files_recorded_before(recs0, files, files.len() as int, now, recs)
}

/// Each stored record with a file among `files[0..n]` is as it was, or was
/// refreshed from the reconciled file of its id, which disagreed with it.
pub open spec fn kept_unless_disagreed_before(
    recs0: Seq<Transcription>,
    files: Seq<DiscoveredFile>,
    n: int,
    recs: Seq<Transcription>,
) -> bool {
    forall|k: int|
        0 <= k < recs0.len() && is_file_id_before(files, n, (#[trigger] recs0[k]).id@) ==> recs[k]
            == recs0[k] || exists|j: int|
            0 <= j < n && is_first(files, j) && id_of(#[trigger] files[j]) == recs0[k].id@
                && !agrees(recs0[k], files[j]) && is_refreshed(recs[k], recs0[k], files[j])
}

/// Tasks are only added, one for each reconciled file among `files[0..n]`
/// that calls for one, unless an error names that file.
pub open spec fn tasks_added_before(
    recs0: Seq<Transcription>,
    tasks0: Seq<BackgroundTask>,
    files: Seq<DiscoveredFile>,
    n: int,
    now: i64,
    tasks: Seq<BackgroundTask>,
    errors: Seq<String>,
) -> bool {
    &&& tasks.len() >= tasks0.len()
    &&& forall|q: int| 0 <= q < tasks0.len() ==> tasks[q] == tasks0[q]
    &&& forall|q: int|
        tasks0.len() <= q < tasks.len() ==> is_orphan_task(#[trigger] tasks[q], now) && exists|
            j: int,
        |
            0 <= j < n && is_first(files, j) && id_of(#[trigger] files[j])
                == tasks[q].transcription_id@ && needs_task(recs0, files[j])
    &&& forall|q1: int, q2: int|
        tasks0.len() <= q1 < tasks.len() && tasks0.len() <= q2 < tasks.len() && (#[trigger] tasks[q1]).transcription_id@
            == (#[trigger] tasks[q2]).transcription_id@ ==> q1 == q2
    &&& forall|j: int|
        0 <= j < n && is_first(files, j) && needs_task(recs0, #[trigger] files[j])
            ==> has_unresolved_for(tasks, id_of(files[j])) || has_error(
            errors,
            queue_error(files[j].path@),
        )
}

/// Each file among `files[0..n]` that a pass could not use has an error
/// naming its path.
pub open spec fn errors_reported_before(files: Seq<DiscoveredFile>, n: int, errors: Seq<String>) -> bool {
    &&& forall|j: int|
        0 <= j < n && !is_valid_file(#[trigger] files[j]) ==> has_error(
            errors,
            unusable_error(files[j].path@),
        )
    &&& forall|j: int|
        0 <= j < n && is_valid_file(#[trigger] files[j]) && !is_first(files, j) ==> has_error(
            errors,
            duplicate_error(files[j].path@),
        )
}

/// What reconciling `files` at `now` does to the records `recs0` and the
/// tasks `tasks0`, giving `recs`, `tasks` and report `r`.
pub open spec fn reconciled(
    recs0: Seq<Transcription>,
    tasks0: Seq<BackgroundTask>,
    files: Seq<DiscoveredFile>,
    now: i64,
    recs: Seq<Transcription>,
    tasks: Seq<BackgroundTask>,
    r: SyncReport,
) -> bool {
    let n0 = recs0.len();
    let n = files.len() as int;
    &&& unique_ids(recs)
    // records are never deleted and keep their place
    &&& recs.len() >= n0
    &&& forall|k: int| 0 <= k < n0 ==> (#[trigger] recs[k]).id@ == recs0[k].id@
    // a record whose file has gone is marked, nothing more
    &&& forall|k: int|
        0 <= k < n0 && !is_file_id(files, (#[trigger] recs0[k]).id@) ==> recs[k] == marked_missing(
            recs0[k],
        )
    &&& files_recorded(recs0, files, now, recs)
    &&& kept_unless_disagreed_before(recs0, files, n, recs)
    // the counts
    &&& r.total_files_found == files.len()
    &&& r.new_transcriptions == recs.len() - n0
    &&& r.updated_transcriptions == count_updates(files, n, recs0)
    &&& r.new_transcriptions + r.updated_transcriptions <= files.len()
    &&& r.missing_files == count_missing(recs0, files)
    &&& tasks_added_before(recs0, tasks0, files, n, now, tasks, r.errors@)
    &&& errors_reported_before(files, n, r.errors@)
}

/// The state of a pass after the files `files[0..i]`.
#[verifier::opaque]
pub open spec fn pass_state(
    recs0: Seq<Transcription>,
    tasks0: Seq<BackgroundTask>,
    files: Seq<DiscoveredFile>,
    now: i64,
    i: int,
    recs: Seq<Transcription>,
    tasks: Seq<BackgroundTask>,
    errors: Seq<String>,
    seen: Seq<String>,
    new: int,
    updated: int,
) -> bool {
    let n0 = recs0.len();
    &&& 0 <= i <= files.len()
    &&& unique_ids(recs0)
    &&& unique_ids(recs)
    &&& recs.len() >= n0
    &&& forall|k: int| 0 <= k < n0 ==> (#[trigger] recs[k]).id@ == recs0[k].id@
    &&& forall|k: int|
        0 <= k < n0 && !is_file_id_before(files, i, (#[trigger] recs0[k]).id@) ==> recs[k]
            == recs0[k]
    &&& files_recorded_before(recs0, files, i, now, recs)
    &&& kept_unless_disagreed_before(recs0, files, i, recs)
    &&& new == recs.len() - n0
    &&& updated == count_updates(files, i, recs0)
    &&& new + updated <= i
    &&& forall|q: int| 0 <= q < seen.len() ==> is_file_id_before(files, i, (#[trigger] seen[q])@)
    &&& forall|j: int|
        0 <= j < i && is_valid_file(#[trigger] files[j]) ==> exists|q: int|
            0 <= q < seen.len() && (#[trigger] seen[q])@ == id_of(files[j])
    &&& tasks_added_before(recs0, tasks0, files, i, now, tasks, errors)
    &&& errors_reported_before(files, i, errors)
}

fn has_text_exec(f: &DiscoveredFile) -> (r: bool)
    ensures
        r == has_text(*f),
{
    match &f.text {
        Some(t) => t.as_str().unicode_len() > 0,
        None => false,
    }
}

fn found_status_exec(f: &DiscoveredFile) -> (r: TranscriptionStatus)
    ensures
        r == found_status(*f),
{
    if has_text_exec(f) {
        TranscriptionStatus::Complete
    } else if f.has_sidecar {
        TranscriptionStatus::Orphaned
    } else {
        TranscriptionStatus::Pending
    }
}

fn found_text_exec(f: &DiscoveredFile) -> (r: Option<String>)
    ensures
        opt_view(r) == found_text(*f),
{
    if has_text_exec(f) {
        copy_opt(&f.text)
    } else {
        None
    }
}

fn found_text_path_exec(f: &DiscoveredFile) -> (r: Option<String>)
    ensures
        opt_view(r) == found_text_path(*f),
{
    if has_text_exec(f) {
        let t = text_path_for(f.path.as_str());
        Some(normalize_audio_path(t.as_str()))
    } else {
        None
    }
}

/// Whether the path of `f` names a file.
fn is_valid_file_exec(f: &DiscoveredFile) -> (r: bool)
    ensures
        r == is_valid_file(*f),
{
    let p = chars_of(f.path.as_str());
    let s0 = file_name_start(&p);
    s0 < p.len()
}

/// The record that file `f`, found at `now`, makes.
pub fn found_record(f: &DiscoveredFile, now: i64) -> (t: Transcription)
    ensures
        is_found_record(t, *f, now),
{
    let text = has_text_exec(f);
    Transcription {
        id: file_id_of(f.path.as_str()),
        audio_path: normalize_audio_path(f.path.as_str()),
        text_path: found_text_path_exec(f),
        transcription_text: found_text_exec(f),
        created_at: pick_timestamp(f.modified_at, f.created_at, f.path.as_str(), now),
        transcribed_at: None,
        duration_ms: match f.duration_ms {
            Some(d) => d,
            None => 0,
        },
        file_size_bytes: f.file_size_bytes,
        language: match &f.language {
            Some(l) => l.clone(),
            None => copy_str("en"),
        },
        model: copy_str("base.en"),
        status: found_status_exec(f),
        source: if text {
            TranscriptionSource::Import
        } else {
            TranscriptionSource::Orphan
        },
        error_message: None,
    }
}

fn same_opt(a: &Option<String>, b: &Option<String>) -> (r: bool)
    ensures
        r == (opt_view(*a) == opt_view(*b)),
{
    match (a, b) {
        (Some(x), Some(y)) => same_str(x.as_str(), y.as_str()),
        (None, None) => true,
        _ => false,
    }
}

/// Whether a stored record says what file `f` shows.
pub fn agrees_with(e: &Transcription, f: &DiscoveredFile) -> (r: bool)
    ensures
        r == agrees(*e, *f),
{
    let t = found_text_exec(f);
    let st = found_status_exec(f);
    same_opt(&e.transcription_text, &t) && e.file_size_bytes == f.file_size_bytes && ((e.status
        == TranscriptionStatus::Complete) == (st == TranscriptionStatus::Complete))
}

/// Record `e` brought in line with file `f`.
fn refreshed(e: &Transcription, f: &DiscoveredFile) -> (n: Transcription)
    ensures
        is_refreshed(n, *e, *f),
{
    let c = e.copy();
    Transcription {
        status: found_status_exec(f),
        transcription_text: found_text_exec(f),
        text_path: found_text_path_exec(f),
        file_size_bytes: f.file_size_bytes,
        ..c
    }
}

/// `what` followed by the path.
fn error_text(what: &str, path: &str) -> (r: String)
    ensures
        r@ == what@ + path@,
{
    let mut r = copy_str(what);
    r.append(path);
    r
}

/// Reconciles a file whose id no earlier file of the pass had: a new id
/// gets a record, a stored record that disagrees is refreshed, and a file
/// that calls for a transcription gets a task unless one is pending or
/// running. Returns whether a record was added, whether one was refreshed,
/// and whether queueing failed.
fn process_first(
    store: &mut RecordStore,
    queue: &mut TaskQueue,
    f: &DiscoveredFile,
    n0: usize,
    now: i64,
) -> (r: (bool, bool, bool))
    requires
        old(store).wf(),
        old(queue).wf(),
        is_valid_file(*f),
        n0 <= old(store)@.len(),
        has_id(old(store)@, id_of(*f)) ==> index_of(old(store)@, id_of(*f)) < n0,
    ensures
        final(store).wf(),
        final(queue).wf(),
        final(queue).paused() == old(queue).paused(),
        ({
            let s0 = old(store)@;
            let s1 = final(store)@;
            let id = id_of(*f);
            let k = index_of(s0, id);
            &&& r.0 == !has_id(s0, id)
            &&& r.1 == (has_id(s0, id) && !agrees(s0[k], *f))
            &&& !has_id(s0, id) ==> s1.len() == s0.len() + 1 && s1.drop_last() == s0
                && is_found_record(s1.last(), *f, now)
            &&& has_id(s0, id) && agrees(s0[k], *f) ==> s1 == s0
            &&& has_id(s0, id) && !agrees(s0[k], *f) ==> 0 <= k < n0 && s1 == s0.update(k, s1[k])
                && is_refreshed(s1[k], s0[k], *f)
        }),
        ({
            let q0 = old(queue)@;
            let q1 = final(queue)@;
            let id = id_of(*f);
            &&& q1 == q0 || (q1.len() == q0.len() + 1 && q1.drop_last() == q0 && is_orphan_task(
                q1.last(),
                now,
            ) && q1.last().transcription_id@ == id && needs_task(old(store)@, *f))
            &&& r.2 ==> q1 == q0 && needs_task(old(store)@, *f)
            &&& needs_task(old(store)@, *f) ==> has_unresolved_for(q1, id) || r.2
        }),
{
    let rec = found_record(f, now);
    let ghost recg = rec;
    let id = rec.id.clone();
    proof {
        lemma_index_of(store@, id@);
    }
    let mut added = false;
    let mut refreshed_one = false;
    let needs: bool;
    match store.find(id.as_str()) {
        None => {
            needs = rec.status != TranscriptionStatus::Complete;
            let _ = store.insert_transcription(rec);
            added = true;
            assert(store@.drop_last() =~= old(store)@);
        },
        Some(k) => {
            let was_complete = store.at(k).status == TranscriptionStatus::Complete;
            let st = found_status_exec(f);
            needs = st != TranscriptionStatus::Complete && was_complete;
            if !agrees_with(store.at(k), f) {
                let n = refreshed(store.at(k), f);
                store.replace_at(k, n);
                refreshed_one = true;
            }
        },
    }
    assert(needs == needs_task(old(store)@, *f));
    let mut failed = false;
    if needs && !queue.has_unresolved_task_for(id.as_str()) {
        let task = BackgroundTask {
            id: new_task_id(),
            transcription_id: id.clone(),
            task_type: TaskType::TranscribeOrphan {
                audio_path: f.path.clone(),
                output_path: text_path_for(f.path.as_str()),
            },
            priority: TaskPriority::Low,
            status: TaskStatus::Pending,
            created_at: now,
            started_at: None,
            completed_at: None,
            retry_count: 0,
            max_retries: 2,
            error_message: None,
        };
        match queue.enqueue_task(task, now) {
            Ok(()) => {
                proof {
                    let w = queue@.len() - 1;
                    assert(queue@[w].transcription_id@ == id@ && is_unresolved(queue@[w]));
                    assert(queue@.drop_last() =~= old(queue)@);
                }
            },
            Err(_) => {
                failed = true;
            },
        }
    }
    (added, refreshed_one, failed)
}

proof fn lemma_seen_iff(
    recs0: Seq<Transcription>,
    tasks0: Seq<BackgroundTask>,
    fs: Seq<DiscoveredFile>,
    now: i64,
    i: int,
    recs: Seq<Transcription>,
    tasks: Seq<BackgroundTask>,
    errors: Seq<String>,
    seen: Seq<String>,
    new: int,
    upd: int,
    x: Seq<char>,
)
    requires
        pass_state(recs0, tasks0, fs, now, i, recs, tasks, errors, seen, new, upd),
    ensures
        (exists|q: int| 0 <= q < seen.len() && (#[trigger] seen[q])@ == x) <==> is_file_id_before(
            fs,
            i,
            x,
        ),
{
    reveal(pass_state);
    if is_file_id_before(fs, i, x) {
        let j = choose|j: int| 0 <= j < i && is_valid_file(#[trigger] fs[j]) && id_of(fs[j]) == x;
        let q = choose|q: int| 0 <= q < seen.len() && (#[trigger] seen[q])@ == id_of(fs[j]);
    }
}

/// A reconciled file's id, where stored, is stored among the records that
/// were there before the pass.
proof fn lemma_first_index(
    recs0: Seq<Transcription>,
    tasks0: Seq<BackgroundTask>,
    fs: Seq<DiscoveredFile>,
    now: i64,
    i: int,
    recs: Seq<Transcription>,
    tasks: Seq<BackgroundTask>,
    errors: Seq<String>,
    seen: Seq<String>,
    new: int,
    upd: int,
)
    requires
        pass_state(recs0, tasks0, fs, now, i, recs, tasks, errors, seen, new, upd),
        0 <= i < fs.len(),
        is_first(fs, i),
    ensures
        has_id(recs, id_of(fs[i])) ==> index_of(recs, id_of(fs[i])) < recs0.len(),
        has_id(recs, id_of(fs[i])) == has_id(recs0, id_of(fs[i])),
        has_id(recs, id_of(fs[i])) ==> index_of(recs, id_of(fs[i])) == index_of(recs0, id_of(fs[i]))
            && recs[index_of(recs, id_of(fs[i]))] == recs0[index_of(recs0, id_of(fs[i]))],
        needs_task(recs, fs[i]) == needs_task(recs0, fs[i]),
{
    reveal(pass_state);
    let x = id_of(fs[i]);
    lemma_index_of(recs, x);
    lemma_index_of(recs0, x);
    if has_id(recs, x) {
        let k = index_of(recs, x);
        if k >= recs0.len() {
            let j = choose|j: int|
                0 <= j < i && is_first(fs, j) && id_of(#[trigger] fs[j]) == recs[k].id@
                    && is_found_record(recs[k], fs[j], now);
            assert(is_file_id_before(fs, i, x));
        }
        assert(recs[k].id@ == recs0[k].id@);
    }
    if has_id(recs0, x) {
        let k = index_of(recs0, x);
        assert(recs[k].id@ == x);
    }
}

proof fn lemma_error_kept(errors: Seq<String>, e: String, m: Seq<char>)
    requires
        has_error(errors, m),
    ensures
        has_error(errors.push(e), m),
{
    let q = choose|q: int| 0 <= q < errors.len() && (#[trigger] errors[q])@ == m;
    assert(errors.push(e)[q] == errors[q]);
}

proof fn lemma_count_same(fs: Seq<DiscoveredFile>, i: int, recs: Seq<Transcription>)
    requires
        0 <= i < fs.len(),
        !is_first(fs, i),
    ensures
        count_updates(fs, i + 1, recs) == count_updates(fs, i, recs),
{
}

proof fn lemma_step_skip(
    recs0: Seq<Transcription>,
    tasks0: Seq<BackgroundTask>,
    fs: Seq<DiscoveredFile>,
    now: i64,
    i: int,
    recs: Seq<Transcription>,
    tasks: Seq<BackgroundTask>,
    errors: Seq<String>,
    seen: Seq<String>,
    new: int,
    upd: int,
    e: String,
)
    requires
        pass_state(recs0, tasks0, fs, now, i, recs, tasks, errors, seen, new, upd),
        0 <= i < fs.len(),
        !is_valid_file(fs[i]) ==> e@ == unusable_error(fs[i].path@),
        is_valid_file(fs[i]) ==> is_file_id_before(fs, i, id_of(fs[i])) && e@ == duplicate_error(
            fs[i].path@,
        ),
    ensures
        pass_state(recs0, tasks0, fs, now, i + 1, recs, tasks, errors.push(e), seen, new, upd),
{
    reveal(pass_state);
    let e2 = errors.push(e);
    assert forall|x: Seq<char>| #[trigger]
        is_file_id_before(fs, i + 1, x) <==> is_file_id_before(fs, i, x) by {
        if is_file_id_before(fs, i + 1, x) {
            let j = choose|j: int| 0 <= j < i + 1 && is_valid_file(#[trigger] fs[j]) && id_of(fs[j]) == x;
        }
    }
    lemma_count_same(fs, i, recs0);
    assert forall|j: int|
        0 <= j < i + 1 && is_first(fs, j) && needs_task(recs0, #[trigger] fs[j])
            implies has_unresolved_for(tasks, id_of(fs[j])) || has_error(
            e2,
            queue_error(fs[j].path@),
        ) by {
        if !has_unresolved_for(tasks, id_of(fs[j])) {
            lemma_error_kept(errors, e, queue_error(fs[j].path@));
        }
    }
    assert forall|j: int|
        0 <= j < i + 1 && !is_valid_file(#[trigger] fs[j]) implies has_error(
            e2,
            unusable_error(fs[j].path@),
        ) by {
        if j < i {
            lemma_error_kept(errors, e, unusable_error(fs[j].path@));
        } else {
            assert(e2[errors.len() as int] == e);
        }
    }
    assert forall|j: int|
        0 <= j < i + 1 && is_valid_file(#[trigger] fs[j]) && !is_first(fs, j) implies has_error(
            e2,
            duplicate_error(fs[j].path@),
        ) by {
        if j < i {
            lemma_error_kept(errors, e, duplicate_error(fs[j].path@));
        } else {
            assert(e2[errors.len() as int] == e);
        }
    }
    assert forall|j: int|
        0 <= j < i + 1 && is_valid_file(#[trigger] fs[j]) implies exists|q: int|
        0 <= q < seen.len() && (#[trigger] seen[q])@ == id_of(fs[j]) by {
        if j == i {
            let j2 = choose|j2: int| 0 <= j2 < i && is_valid_file(#[trigger] fs[j2]) && id_of(fs[j2]) == id_of(fs[i]);
        }
    }
    assert forall|j: int| 0 <= j < i + 1 && is_valid_file(#[trigger] fs[j]) implies has_id(recs, id_of(fs[j])) by {
        if j == i {
            let j2 = choose|j2: int| 0 <= j2 < i && is_valid_file(#[trigger] fs[j2]) && id_of(fs[j2]) == id_of(fs[i]);
        }
    }
}

proof fn lemma_unresolved_kept(tasks: Seq<BackgroundTask>, tasks2: Seq<BackgroundTask>, x: Seq<char>)
    requires
        has_unresolved_for(tasks, x),
        tasks2.len() >= tasks.len(),
        forall|q: int| 0 <= q < tasks.len() ==> tasks2[q] == tasks[q],
    ensures
        has_unresolved_for(tasks2, x),
{
    let w = choose|w: int|
        0 <= w < tasks.len() && (#[trigger] tasks[w]).transcription_id@ == x && is_unresolved(tasks[w]);
    assert(tasks2[w] == tasks[w]);
}

proof fn lemma_step_first(
    recs0: Seq<Transcription>,
    tasks0: Seq<BackgroundTask>,
    fs: Seq<DiscoveredFile>,
    now: i64,
    i: int,
    recs: Seq<Transcription>,
    tasks: Seq<BackgroundTask>,
    errors: Seq<String>,
    seen: Seq<String>,
    new: int,
    upd: int,
    recs2: Seq<Transcription>,
    tasks2: Seq<BackgroundTask>,
    errors2: Seq<String>,
    r: (bool, bool, bool),
    sid: String,
    e: String,
)
    requires
        pass_state(recs0, tasks0, fs, now, i, recs, tasks, errors, seen, new, upd),
        0 <= i < fs.len(),
        is_first(fs, i),
        unique_ids(recs2),
        ({
            let s0 = recs;
            let s1 = recs2;
            let f = fs[i];
            let id = id_of(f);
            let k = index_of(s0, id);
            &&& r.0 == !has_id(s0, id)
            &&& r.1 == (has_id(s0, id) && !agrees(s0[k], f))
            &&& !has_id(s0, id) ==> s1.len() == s0.len() + 1 && s1.drop_last() == s0
                && is_found_record(s1.last(), f, now)
            &&& has_id(s0, id) && agrees(s0[k], f) ==> s1 == s0
            &&& has_id(s0, id) && !agrees(s0[k], f) ==> 0 <= k < recs0.len() && s1 == s0.update(
                k,
                s1[k],
            ) && is_refreshed(s1[k], s0[k], f)
        }),
        ({
            let q0 = tasks;
            let q1 = tasks2;
            let f = fs[i];
            let id = id_of(f);
            &&& q1 == q0 || (q1.len() == q0.len() + 1 && q1.drop_last() == q0 && is_orphan_task(
                q1.last(),
                now,
            ) && q1.last().transcription_id@ == id && needs_task(recs, f))
            &&& r.2 ==> q1 == q0 && needs_task(recs, f)
            &&& needs_task(recs, f) ==> has_unresolved_for(q1, id) || r.2
        }),
        r.2 ==> errors2 == errors.push(e),
        !r.2 ==> errors2 == errors,
        e@ == queue_error(fs[i].path@),
        sid@ == id_of(fs[i]),
    ensures
        pass_state(
            recs0,
            tasks0,
            fs,
            now,
            i + 1,
            recs2,
            tasks2,
            errors2,
            seen.push(sid),
            new + if r.0 {
                1int
            } else {
                0int
            },
            upd + if r.1 {
                1int
            } else {
                0int
            },
        ),
{
    lemma_first_index(recs0, tasks0, fs, now, i, recs, tasks, errors, seen, new, upd);
    reveal(pass_state);
    let n0 = recs0.len();
    let f = fs[i];
    let x = id_of(f);
    let seen2 = seen.push(sid);
    lemma_index_of(recs, x);
    lemma_index_of(recs0, x);
    lemma_index_of(recs2, x);
    assert forall|y: Seq<char>| #[trigger]
        is_file_id_before(fs, i + 1, y) <==> (is_file_id_before(fs, i, y) || y == x) by {
        if is_file_id_before(fs, i + 1, y) {
            let j = choose|j: int| 0 <= j < i + 1 && is_valid_file(#[trigger] fs[j]) && id_of(fs[j]) == y;
        }
        if y == x {
            assert(is_valid_file(fs[i]));
        }
    }
    assert forall|j: int| 0 <= j < i && is_valid_file(#[trigger] fs[j]) implies id_of(fs[j]) != x by {}
    // records other than the file's keep their place and value
    assert(recs2.len() >= recs.len());
    assert forall|w: int| 0 <= w < recs.len() implies (#[trigger] recs2[w]).id@ == recs[w].id@ && (
    recs[w].id@ != x ==> recs2[w] == recs[w]) by {
        if !has_id(recs, x) {
            assert(recs2[w] == recs2.drop_last()[w]);
        }
    }
    assert forall|w: int| n0 <= w < recs.len() implies recs[w].id@ != x by {
        let j = choose|j: int|
            0 <= j < i && is_first(fs, j) && id_of(#[trigger] fs[j]) == recs[w].id@
                && is_found_record(recs[w], fs[j], now);
    }
    // the file's own record is in line with it
    assert(has_id(recs2, x));
    assert(agrees(recs2[index_of(recs2, x)], f)) by {
        if !has_id(recs, x) {
            assert(recs2[recs.len() as int].id@ == x);
        } else {
            assert(recs2[index_of(recs, x)].id@ == x);
        }
    }
    assert forall|k: int|
        0 <= k < n0 && !is_file_id_before(fs, i + 1, (#[trigger] recs0[k]).id@) implies recs2[k]
        == recs0[k] by {
        assert(recs[k].id@ == recs0[k].id@);
    }
    assert forall|j: int| 0 <= j < i + 1 && is_valid_file(#[trigger] fs[j]) implies has_id(
        recs2,
        id_of(fs[j]),
    ) by {
        if j < i {
            let w = choose|w: int| 0 <= w < recs.len() && (#[trigger] recs[w]).id@ == id_of(fs[j]);
            assert(recs2[w].id@ == id_of(fs[j]));
        }
    }
    assert forall|k: int| n0 <= k < recs2.len() implies !has_id(recs0, (#[trigger] recs2[k]).id@)
        && exists|j: int|
        0 <= j < i + 1 && is_first(fs, j) && id_of(#[trigger] fs[j]) == recs2[k].id@
            && is_found_record(recs2[k], fs[j], now) by {
        if k < recs.len() {
            assert(recs2[k] == recs[k]);
        } else {
            assert(recs2[k] == recs2.last());
        }
    }
    assert forall|j: int| 0 <= j < i + 1 && is_first(fs, j) implies agrees(
        recs2[index_of(recs2, id_of(#[trigger] fs[j]))],
        fs[j],
    ) by {
        if j < i {
            let y = id_of(fs[j]);
            lemma_index_of(recs, y);
            lemma_index_of(recs2, y);
            let w = index_of(recs, y);
            assert(recs2[w] == recs[w]);
        }
    }
    assert forall|k: int|
        0 <= k < n0 && is_file_id_before(fs, i + 1, (#[trigger] recs0[k]).id@) implies recs2[k]
        == recs0[k] || exists|j: int|
        0 <= j < i + 1 && is_first(fs, j) && id_of(#[trigger] fs[j]) == recs0[k].id@ && !agrees(
            recs0[k],
            fs[j],
        ) && is_refreshed(recs2[k], recs0[k], fs[j]) by {
        assert(recs[k].id@ == recs0[k].id@);
        if recs0[k].id@ == x {
            assert(recs[k] == recs0[k]);
            assert(index_of(recs, x) == k);
        } else {
            assert(recs2[k] == recs[k]);
        }
    }
    // counts
    assert(count_updates(fs, i + 1, recs0) == count_updates(fs, i, recs0) + if r.1 {
        1nat
    } else {
        0nat
    });
    // seen
    assert forall|q: int| 0 <= q < seen2.len() implies is_file_id_before(
        fs,
        i + 1,
        (#[trigger] seen2[q])@,
    ) by {
        if q < seen.len() {
            assert(seen2[q] == seen[q]);
        }
    }
    assert forall|j: int| 0 <= j < i + 1 && is_valid_file(#[trigger] fs[j]) implies exists|q: int|
        0 <= q < seen2.len() && (#[trigger] seen2[q])@ == id_of(fs[j]) by {
        if j < i {
            let q = choose|q: int| 0 <= q < seen.len() && (#[trigger] seen[q])@ == id_of(fs[j]);
            assert(seen2[q] == seen[q]);
        } else {
            assert(seen2[seen.len() as int] == sid);
        }
    }
    // tasks
    assert forall|q: int| 0 <= q < tasks.len() implies tasks2[q] == tasks[q] by {
        if tasks2 != tasks {
            assert(tasks2[q] == tasks2.drop_last()[q]);
        }
    }
    assert forall|q: int| 0 <= q < tasks0.len() implies tasks2[q] == tasks0[q] by {}
    assert forall|q: int| tasks0.len() <= q < tasks2.len() implies is_orphan_task(
        #[trigger] tasks2[q],
        now,
    ) && exists|j: int|
        0 <= j < i + 1 && is_first(fs, j) && id_of(#[trigger] fs[j]) == tasks2[q].transcription_id@
            && needs_task(recs0, fs[j]) by {
        if q < tasks.len() {
            assert(tasks2[q] == tasks[q]);
        } else {
            assert(tasks2[q] == tasks2.last());
        }
    }
    assert forall|q1: int, q2: int|
        tasks0.len() <= q1 < tasks2.len() && tasks0.len() <= q2 < tasks2.len() && (
        #[trigger] tasks2[q1]).transcription_id@ == (#[trigger] tasks2[q2]).transcription_id@
            implies q1 == q2 by {
        if q1 < tasks.len() && q2 < tasks.len() {
            assert(tasks2[q1] == tasks[q1] && tasks2[q2] == tasks[q2]);
        } else if q1 < tasks.len() {
            assert(tasks2[q1] == tasks[q1]);
            let j = choose|j: int|
                0 <= j < i && is_first(fs, j) && id_of(#[trigger] fs[j]) == tasks[q1].transcription_id@
                    && needs_task(recs0, fs[j]);
        } else if q2 < tasks.len() {
            assert(tasks2[q2] == tasks[q2]);
            let j = choose|j: int|
                0 <= j < i && is_first(fs, j) && id_of(#[trigger] fs[j]) == tasks[q2].transcription_id@
                    && needs_task(recs0, fs[j]);
        }
    }
    assert forall|j: int|
        0 <= j < i + 1 && is_first(fs, j) && needs_task(recs0, #[trigger] fs[j])
            implies has_unresolved_for(tasks2, id_of(fs[j])) || has_error(
            errors2,
            queue_error(fs[j].path@),
        ) by {
        if j < i {
            if has_unresolved_for(tasks, id_of(fs[j])) {
                lemma_unresolved_kept(tasks, tasks2, id_of(fs[j]));
            } else if r.2 {
                lemma_error_kept(errors, e, queue_error(fs[j].path@));
            }
        } else if r.2 && !has_unresolved_for(tasks2, x) {
            assert(errors2[errors.len() as int] == e);
        }
    }
    assert forall|j: int|
        0 <= j < i + 1 && !is_valid_file(#[trigger] fs[j]) implies has_error(
            errors2,
            unusable_error(fs[j].path@),
        ) by {
        if r.2 {
            lemma_error_kept(errors, e, unusable_error(fs[j].path@));
        }
    }
    assert forall|j: int|
        0 <= j < i + 1 && is_valid_file(#[trigger] fs[j]) && !is_first(fs, j) implies has_error(
            errors2,
            duplicate_error(fs[j].path@),
        ) by {
        if r.2 {
            lemma_error_kept(errors, e, duplicate_error(fs[j].path@));
        }
    }
}

/// What the pass over the files leaves, in plain facts.
proof fn lemma_pass_facts(
    recs0: Seq<Transcription>,
    tasks0: Seq<BackgroundTask>,
    fs: Seq<DiscoveredFile>,
    now: i64,
    recs: Seq<Transcription>,
    tasks: Seq<BackgroundTask>,
    errors: Seq<String>,
    seen: Seq<String>,
    new: int,
    upd: int,
)
    requires
        pass_state(recs0, tasks0, fs, now, fs.len() as int, recs, tasks, errors, seen, new, upd),
    ensures
        unique_ids(recs),
        recs.len() >= recs0.len(),
        new == recs.len() - recs0.len(),
        upd == count_updates(fs, fs.len() as int, recs0),
        new + upd <= fs.len(),
        forall|k: int| 0 <= k < recs0.len() ==> (#[trigger] recs[k]).id@ == recs0[k].id@,
        forall|k: int|
            0 <= k < recs0.len() && !is_file_id(fs, (#[trigger] recs0[k]).id@) ==> recs[k] == recs0[k],
        forall|q: int| 0 <= q < seen.len() ==> is_file_id(fs, (#[trigger] seen[q])@),
        forall|j: int|
            0 <= j < fs.len() && is_valid_file(#[trigger] fs[j]) ==> exists|q: int|
                0 <= q < seen.len() && (#[trigger] seen[q])@ == id_of(fs[j]),
{
    reveal(pass_state);
}

proof fn lemma_finish(
    recs0: Seq<Transcription>,
    tasks0: Seq<BackgroundTask>,
    fs: Seq<DiscoveredFile>,
    now: i64,
    s1: Seq<Transcription>,
    s2: Seq<Transcription>,
    tasks: Seq<BackgroundTask>,
    errors: Seq<String>,
    seen: Seq<String>,
    new: int,
    upd: int,
    r: SyncReport,
)
    requires
        pass_state(recs0, tasks0, fs, now, fs.len() as int, s1, tasks, errors, seen, new, upd),
        unique_ids(s2),
        s2.len() == s1.len(),
        forall|q: int|
            0 <= q < s1.len() ==> (#[trigger] s2[q]) == if q < recs0.len() && !is_file_id(
                fs,
                s1[q].id@,
            ) {
                marked_missing(s1[q])
            } else {
                s1[q]
            },
        r.total_files_found == fs.len(),
        r.new_transcriptions == new,
        r.updated_transcriptions == upd,
        r.missing_files == count_missing(recs0, fs),
        r.errors@ == errors,
    ensures
        reconciled(recs0, tasks0, fs, now, s2, tasks, r),
{
    reveal(pass_state);
    let n0 = recs0.len();
    assert forall|q: int| 0 <= q < s1.len() implies (#[trigger] s2[q]).id@ == s1[q].id@ by {}
    assert forall|k: int|
        0 <= k < n0 && !is_file_id(fs, (#[trigger] recs0[k]).id@) implies s2[k] == marked_missing(
        recs0[k],
    ) by {
        assert(s1[k].id@ == recs0[k].id@);
    }
    assert forall|k: int| 0 <= k < n0 implies (#[trigger] s2[k]).id@ == recs0[k].id@ by {
        assert(s1[k].id@ == recs0[k].id@);
    }
    assert forall|j: int| 0 <= j < fs.len() && is_valid_file(#[trigger] fs[j]) implies has_id(
        s2,
        id_of(fs[j]),
    ) by {
        let w = choose|w: int| 0 <= w < s1.len() && (#[trigger] s1[w]).id@ == id_of(fs[j]);
        assert(s2[w].id@ == id_of(fs[j]));
    }
    assert forall|k: int| n0 <= k < s2.len() implies !has_id(recs0, (#[trigger] s2[k]).id@)
        && exists|j: int|
        0 <= j < fs.len() && is_first(fs, j) && id_of(#[trigger] fs[j]) == s2[k].id@
            && is_found_record(s2[k], fs[j], now) by {
        assert(s2[k] == s1[k]);
    }
    assert forall|j: int| 0 <= j < fs.len() && is_first(fs, j) implies agrees(
        s2[index_of(s2, id_of(#[trigger] fs[j]))],
        fs[j],
    ) by {
        let x = id_of(fs[j]);
        lemma_index_of(s1, x);
        lemma_index_of(s2, x);
        let w = index_of(s1, x);
        assert(is_file_id(fs, s1[w].id@));
        assert(s2[w] == s1[w]);
    }
    assert forall|k: int|
        0 <= k < n0 && is_file_id_before(fs, fs.len() as int, (#[trigger] recs0[k]).id@) implies s2[k]
        == recs0[k] || exists|j: int|
        0 <= j < fs.len() && is_first(fs, j) && id_of(#[trigger] fs[j]) == recs0[k].id@
            && !agrees(recs0[k], fs[j]) && is_refreshed(s2[k], recs0[k], fs[j]) by {
        assert(s1[k].id@ == recs0[k].id@);
        assert(s2[k] == s1[k]);
    }
}

/// Makes the records match the audio files found on disk. A valid file is
/// reconciled when no earlier file of the pass has its id (a later one is
/// reported as an error): a new id gets a record; a stored record that
/// disagrees with its file is brought in line; a file without text whose
/// id is new or whose record was complete gets a task. A record whose file
/// is gone is marked `Orphaned`, never deleted. Every file that could not
/// be used gets an error naming its path.
pub fn reconcile(
    store: &mut RecordStore,
    queue: &mut TaskQueue,
    files: &Vec<DiscoveredFile>,
    now: i64,
) -> (report: SyncReport)
    requires
        old(store).wf(),
        old(queue).wf(),
    ensures
        final(store).wf(),
        final(queue).wf(),
        final(queue).paused() == old(queue).paused(),
        reconciled(old(store)@, old(queue)@, files@, now, final(store)@, final(queue)@, report),
{
    let ghost recs0 = store@;
    let ghost tasks0 = queue@;
    let ghost fs = files@;
    let n0 = store.len();
    let mut report = SyncReport::new();
    report.total_files_found = files.len();
    let mut seen: Vec<String> = Vec::new();
    let mut i: usize = 0;
    proof {
        reveal(pass_state);
        assert(tasks_added_before(recs0, tasks0, fs, 0, now, queue@, report.errors@));
    }
    while i < files.len()
        invariant
            fs == files@,
            recs0 == old(store)@,
            tasks0 == old(queue)@,
            recs0.len() == n0,
            i <= fs.len(),
            store.wf(),
            queue.wf(),
            queue.paused() == old(queue).paused(),
            report.total_files_found == fs.len(),
            report.missing_files == 0,
            store@.len() >= n0,
            report.new_transcriptions + report.updated_transcriptions <= i,
            pass_state(
                recs0,
                tasks0,
                fs,
                now,
                i as int,
                store@,
                queue@,
                report.errors@,
                seen@,
                report.new_transcriptions as int,
                report.updated_transcriptions as int,
            ),
        decreases fs.len() - i,
    {
        let f = &files[i];
        if !is_valid_file_exec(f) {
            let e = error_text("no file name: ", f.path.as_str());
            proof {
                lemma_step_skip(
                    recs0,
                    tasks0,
                    fs,
                    now,
                    i as int,
                    store@,
                    queue@,
                    report.errors@,
                    seen@,
                    report.new_transcriptions as int,
                    report.updated_transcriptions as int,
                    e,
                );
            }
            report.errors.push(e);
            i = i + 1;
            continue;
        }
        let id = file_id_of(f.path.as_str());
        proof {
            lemma_seen_iff(
                recs0,
                tasks0,
                fs,
                now,
                i as int,
                store@,
                queue@,
                report.errors@,
                seen@,
                report.new_transcriptions as int,
                report.updated_transcriptions as int,
                id@,
            );
        }
        if contains_str(&seen, id.as_str()) {
            let e = error_text("another file has the same id: ", f.path.as_str());
            proof {
                lemma_step_skip(
                    recs0,
                    tasks0,
                    fs,
                    now,
                    i as int,
                    store@,
                    queue@,
                    report.errors@,
                    seen@,
                    report.new_transcriptions as int,
                    report.updated_transcriptions as int,
                    e,
                );
            }
            report.errors.push(e);
            i = i + 1;
            continue;
        }
        proof {
            lemma_first_index(
                recs0,
                tasks0,
                fs,
                now,
                i as int,
                store@,
                queue@,
                report.errors@,
                seen@,
                report.new_transcriptions as int,
                report.updated_transcriptions as int,
            );
        }
        let ghost s_i = store@;
        let ghost q_i = queue@;
        let ghost e_i = report.errors@;
        let ghost seen_i = seen@;
        let ghost new_i = report.new_transcriptions as int;
        let ghost upd_i = report.updated_transcriptions as int;
        let r = process_first(store, queue, f, n0, now);
        let e = error_text("could not queue: ", f.path.as_str());
        let ghost eg = e;
        if r.2 {
            report.errors.push(e);
        }
        if r.0 {
            report.new_transcriptions = report.new_transcriptions + 1;
        }
        if r.1 {
            report.updated_transcriptions = report.updated_transcriptions + 1;
        }
        let ghost sid = id;
        seen.push(id);
        proof {
            lemma_step_first(
                recs0,
                tasks0,
                fs,
                now,
                i as int,
                s_i,
                q_i,
                e_i,
                seen_i,
                new_i,
                upd_i,
                store@,
                queue@,
                report.errors@,
                r,
                sid,
                eg,
            );
        }
        i = i + 1;
    }
    let ghost s1 = store@;
    let ghost q1 = queue@;
    let ghost e1 = report.errors@;
    let ghost seen1 = seen@;
    let ghost new1 = report.new_transcriptions as int;
    let ghost upd1 = report.updated_transcriptions as int;
    proof {
        lemma_pass_facts(recs0, tasks0, fs, now, s1, q1, e1, seen1, new1, upd1);
    }
    let mut k: usize = 0;
    assert(recs0.take(0) =~= Seq::<Transcription>::empty());
    while k < n0
        invariant
            fs == files@,
            recs0.len() == n0,
            n0 <= s1.len(),
            store.wf(),
            store@.len() == s1.len(),
            k <= n0,
            forall|q: int| k <= q < s1.len() ==> (#[trigger] store@[q]) == s1[q],
            forall|q: int|
                0 <= q < k ==> (#[trigger] store@[q]) == if is_file_id(fs, s1[q].id@) {
                    s1[q]
                } else {
                    marked_missing(s1[q])
                },
            forall|q: int| 0 <= q < n0 ==> (#[trigger] s1[q]).id@ == recs0[q].id@,
            forall|q: int|
                0 <= q < n0 && !is_file_id(fs, (#[trigger] recs0[q]).id@) ==> s1[q] == recs0[q],
            forall|q: int| 0 <= q < seen@.len() ==> is_file_id(fs, (#[trigger] seen@[q])@),
            forall|j: int|
                0 <= j < fs.len() && is_valid_file(#[trigger] fs[j]) ==> exists|q: int|
                    0 <= q < seen@.len() && (#[trigger] seen@[q])@ == id_of(fs[j]),
            report.missing_files == count_missing(recs0.take(k as int), fs),
            report.missing_files <= k,
            queue@ == q1,
            queue.wf(),
            queue.paused() == old(queue).paused(),
            report.errors@ == e1,
            report.total_files_found == fs.len(),
            report.new_transcriptions == new1,
            report.updated_transcriptions == upd1,
        decreases n0 - k,
    {
        proof {
            let p = recs0.take(k + 1);
            assert(p.drop_last() =~= recs0.take(k as int));
            assert(p.last() == recs0[k as int]);
        }
        let present = contains_str(&seen, store.at(k).id.as_str());
        proof {
            let x = s1[k as int].id@;
            if is_file_id(fs, x) {
                let j = choose|j: int| 0 <= j < fs.len() && is_valid_file(#[trigger] fs[j]) && id_of(fs[j]) == x;
                assert(exists|q: int| 0 <= q < seen@.len() && (#[trigger] seen@[q])@ == id_of(fs[j]));
            }
            assert(present == is_file_id(fs, x));
        }
        if !present && store.at(k).status != TranscriptionStatus::Orphaned {
            store.set_status_at(k, TranscriptionStatus::Orphaned, None);
            report.missing_files = report.missing_files + 1;
        }
        k = k + 1;
    }
    proof {
        assert(recs0.take(n0 as int) =~= recs0);
        lemma_finish(recs0, tasks0, fs, now, s1, store@, q1, e1, seen1, new1, upd1, report);
    }
    report
}

proof fn lemma_no_updates(files: Seq<DiscoveredFile>, n: int, recs: Seq<Transcription>)
    requires
        0 <= n <= files.len(),
        forall|j: int|
            0 <= j < n && is_first(files, j) ==> has_id(recs, id_of(#[trigger] files[j])) && agrees(
                recs[index_of(recs, id_of(files[j]))],
                files[j],
            ),
    ensures
        count_updates(files, n, recs) == 0,
    decreases n,
{
    if n > 0 {
        lemma_no_updates(files, n - 1, recs);
    }
}

proof fn lemma_none_missing(g: Seq<Transcription>, files: Seq<DiscoveredFile>)
    requires
        forall|k: int|
            0 <= k < g.len() ==> is_file_id(files, (#[trigger] g[k]).id@) || g[k].status
                == TranscriptionStatus::Orphaned,
    ensures
        count_missing(g, files) == 0,
    decreases g.len(),
{
    if g.len() > 0 {
        let h = g.drop_last();
        assert forall|k: int| 0 <= k < h.len() implies is_file_id(files, (#[trigger] h[k]).id@)
            || h[k].status == TranscriptionStatus::Orphaned by {
            assert(h[k] == g[k]);
        }
        lemma_none_missing(h, files);
        assert(g.last() == g[g.len() - 1]);
    }
}

/// Two reconciled files never share an id.
proof fn lemma_first_unique(files: Seq<DiscoveredFile>, a: int, b: int)
    requires
        0 <= a < files.len(),
        0 <= b < files.len(),
        is_first(files, a),
        is_first(files, b),
        id_of(files[a]) == id_of(files[b]),
    ensures
        a == b,
{
    if a < b {
        assert(is_file_id_before(files, b, id_of(files[b])));
    }
    if b < a {
        assert(is_file_id_before(files, a, id_of(files[a])));
    }
}

/// Reconciling the same files twice in a row: the second pass finds nothing
/// new, nothing to update and nothing missing, and leaves records and tasks
/// as the first pass left them.
pub proof fn lemma_reconcile_idempotent(
    recs0: Seq<Transcription>,
    tasks0: Seq<BackgroundTask>,
    files: Seq<DiscoveredFile>,
    now1: i64,
    recs1: Seq<Transcription>,
    tasks1: Seq<BackgroundTask>,
    r1: SyncReport,
    now2: i64,
    recs2: Seq<Transcription>,
    tasks2: Seq<BackgroundTask>,
    r2: SyncReport,
)
    requires
        reconciled(recs0, tasks0, files, now1, recs1, tasks1, r1),
        reconciled(recs1, tasks1, files, now2, recs2, tasks2, r2),
    ensures
        r2.new_transcriptions == 0,
        r2.updated_transcriptions == 0,
        r2.missing_files == 0,
        recs2 == recs1,
        tasks2 == tasks1,
{
    let n0 = recs0.len();
    let n1 = recs1.len();
    let nf = files.len() as int;
    if recs2.len() > n1 {
        let k = n1 as int;
        let j = choose|j: int|
            0 <= j < nf && is_first(files, j) && id_of(#[trigger] files[j]) == recs2[k].id@
                && is_found_record(recs2[k], files[j], now2);
        assert(has_id(recs1, id_of(files[j])));
    }
    lemma_no_updates(files, nf, recs1);
    assert forall|k: int| 0 <= k < n1 implies is_file_id(files, (#[trigger] recs1[k]).id@)
        || recs1[k].status == TranscriptionStatus::Orphaned by {
        if k < n0 {
            assert(recs1[k].id@ == recs0[k].id@);
            if !is_file_id(files, recs0[k].id@) {
                assert(recs1[k] == marked_missing(recs0[k]));
            }
        } else {
            let j = choose|j: int|
                0 <= j < nf && is_first(files, j) && id_of(#[trigger] files[j]) == recs1[k].id@
                    && is_found_record(recs1[k], files[j], now1);
        }
    }
    lemma_none_missing(recs1, files);
    assert forall|k: int| 0 <= k < n1 implies #[trigger] recs2[k] == recs1[k] by {
        if is_file_id(files, recs1[k].id@) {
            if recs2[k] != recs1[k] {
                let j = choose|j: int|
                    0 <= j < nf && is_first(files, j) && id_of(#[trigger] files[j]) == recs1[k].id@
                        && !agrees(recs1[k], files[j]) && is_refreshed(recs2[k], recs1[k], files[j]);
                lemma_index_of(recs1, id_of(files[j]));
            }
        } else {
            assert(recs2[k] == marked_missing(recs1[k]));
        }
    }
    assert(recs2 =~= recs1);
    if tasks2.len() > tasks1.len() {
        let q = tasks1.len() as int;
        let j = choose|j: int|
            0 <= j < nf && is_first(files, j) && id_of(#[trigger] files[j]) == tasks2[q].transcription_id@
                && needs_task(recs1, files[j]);
        assert(has_id(recs1, id_of(files[j])));
    }
    assert(tasks2 =~= tasks1);
}

/// A new audio file without text, the first of its id in the scan, gets a
/// record that is `Orphaned` or `Pending` and exactly one unresolved task,
/// where the queue held none for it and no error says its task could not
/// be queued; a second pass over the same files queues nothing more.
pub proof fn lemma_orphan_queued_once(
    recs0: Seq<Transcription>,
    tasks0: Seq<BackgroundTask>,
    files: Seq<DiscoveredFile>,
    j: int,
    now1: i64,
    recs1: Seq<Transcription>,
    tasks1: Seq<BackgroundTask>,
    r1: SyncReport,
    now2: i64,
    recs2: Seq<Transcription>,
    tasks2: Seq<BackgroundTask>,
    r2: SyncReport,
)
    requires
        0 <= j < files.len(),
        is_first(files, j),
        !has_text(files[j]),
        !has_id(recs0, id_of(files[j])),
        !has_unresolved_for(tasks0, id_of(files[j])),
        reconciled(recs0, tasks0, files, now1, recs1, tasks1, r1),
        !has_error(r1.errors@, queue_error(files[j].path@)),
        reconciled(recs1, tasks1, files, now2, recs2, tasks2, r2),
    ensures
        has_id(recs1, id_of(files[j])),
        recs1[index_of(recs1, id_of(files[j]))].status == TranscriptionStatus::Orphaned
            || recs1[index_of(recs1, id_of(files[j]))].status == TranscriptionStatus::Pending,
        has_unresolved_for(tasks1, id_of(files[j])),
        forall|q1: int, q2: int|
            0 <= q1 < tasks1.len() && 0 <= q2 < tasks1.len() && (#[trigger] tasks1[q1]).transcription_id@
                == id_of(files[j]) && (#[trigger] tasks1[q2]).transcription_id@ == id_of(files[j])
                && is_unresolved(tasks1[q1]) && is_unresolved(tasks1[q2]) ==> q1 == q2,
        tasks2 == tasks1,
{
    let x = id_of(files[j]);
    let n0 = recs0.len();
    let nf = files.len() as int;
    assert(needs_task(recs0, files[j]));
    assert(is_first(files, j) && needs_task(recs0, files[j]));
    lemma_index_of(recs1, x);
    let w = index_of(recs1, x);
    if w < n0 {
        assert(recs1[w].id@ == recs0[w].id@);
        assert(has_id(recs0, x));
    }
    let j2 = choose|j2: int|
        0 <= j2 < nf && is_first(files, j2) && id_of(#[trigger] files[j2]) == recs1[w].id@
            && is_found_record(recs1[w], files[j2], now1);
    lemma_first_unique(files, j, j2);
    assert forall|q1: int, q2: int|
        0 <= q1 < tasks1.len() && 0 <= q2 < tasks1.len() && (#[trigger] tasks1[q1]).transcription_id@
            == x && (#[trigger] tasks1[q2]).transcription_id@ == x && is_unresolved(tasks1[q1])
            && is_unresolved(tasks1[q2]) implies q1 == q2 by {
        if q1 < tasks0.len() {
            assert(tasks1[q1] == tasks0[q1]);
        }
        if q2 < tasks0.len() {
            assert(tasks1[q2] == tasks0[q2]);
        }
    }
    lemma_reconcile_idempotent(recs0, tasks0, files, now1, recs1, tasks1, r1, now2, recs2, tasks2, r2);
}

/// Re-reconciling after a file's audio was deleted keeps its record and
/// marks it `Orphaned`, where no other file of the scan has its id.
pub proof fn lemma_missing_file_marked(
    recs0: Seq<Transcription>,
    tasks0: Seq<BackgroundTask>,
    files: Seq<DiscoveredFile>,
    j: int,
    now1: i64,
    recs1: Seq<Transcription>,
    tasks1: Seq<BackgroundTask>,
    r1: SyncReport,
    now2: i64,
    recs2: Seq<Transcription>,
    tasks2: Seq<BackgroundTask>,
    r2: SyncReport,
)
    requires
        0 <= j < files.len(),
        is_valid_file(files[j]),
        !is_file_id(files.remove(j), id_of(files[j])),
        reconciled(recs0, tasks0, files, now1, recs1, tasks1, r1),
        reconciled(recs1, tasks1, files.remove(j), now2, recs2, tasks2, r2),
    ensures
        has_id(recs2, id_of(files[j])),
        recs2.len() >= recs1.len(),
        recs2[index_of(recs2, id_of(files[j]))] == marked_missing(
            recs1[index_of(recs1, id_of(files[j]))],
        ),
        recs2[index_of(recs2, id_of(files[j]))].status == TranscriptionStatus::Orphaned,
{
    let x = id_of(files[j]);
    lemma_index_of(recs1, x);
    let k = index_of(recs1, x);
    assert(recs2[k] == marked_missing(recs1[k]));
    lemma_index_of(recs2, x);
}

} // verus!
