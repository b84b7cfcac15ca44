//! Audio files dropped into the imports folder: where each one is filed
//! and the work queued for it.
use vstd::prelude::*;
use vstd::string::StringExecFns;
use crate::ids::{file_name, file_name_start, lemma_last_sep_range};
use crate::notices::{decimal, decimal_string};
use crate::paths::{ext_dot, ext_dot_exec, sub_vec, text_path_for, text_path_of};
use crate::queue::{
    has_id_of_fresh_length, new_task_id, BackgroundTask, QueueError, TaskPriority, TaskQueue, TaskStatus,
    TaskType,
};
use crate::records::{RecordStore, Transcription, TranscriptionSource, TranscriptionStatus};
use crate::text::{chars_of, copy_str, push_char, string_from};

verus! {

/// A local calendar date and time.
#[derive(PartialEq, Eq, Structural, Clone, Copy, Debug)]
pub struct LocalTime {
    pub year: u32,
    pub month: u32,
    pub day: u32,
    pub hour: u32,
    pub minute: u32,
    pub second: u32,
}

/// The decimal digits of `n`, with leading zeros up to `w` digits.
pub open spec fn padded(n: nat, w: nat) -> Seq<char> {
    let d = decimal(n);
    if d.len() >= w {
        d
    } else {
        Seq::new((w - d.len()) as nat, |i: int| '0') + d
    }
}

/// The name of an imported file without its extension; `imported` where the
/// path names no file.
pub open spec fn import_stem(p: Seq<char>) -> Seq<char> {
    let name = file_name(p);
    if name.len() == 0 {
        "imported"@
    } else if ext_dot(name) > 0 {
        name.take(ext_dot(name))
    } else {
        name
    }
}

/// Where an import is filed: `<notes>/YYYY/YYYY-MM-DD/HHMMSS-imported-<stem>.wav`.
pub open spec fn import_target(notes_dir: Seq<char>, t: LocalTime, stem: Seq<char>) -> Seq<char> {
    let y = padded(t.year as nat, 4);
    notes_dir + "/"@ + y + "/"@ + y + "-"@ + padded(t.month as nat, 2) + "-"@ + padded(
        t.day as nat,
        2,
    ) + "/"@ + padded(t.hour as nat, 2) + padded(t.minute as nat, 2) + padded(t.second as nat, 2)
        + "-imported-"@ + stem + ".wav"@
}

/// Why an import could not be queued.
#[derive(PartialEq, Eq, Structural, Clone, Copy, Debug)]
pub enum ImportError {
    /// A fresh id was already taken.
    DuplicateId,
}

/// Appends `n` to `s` with leading zeros up to `w` digits.
fn push_padded(s: &mut String, n: u32, w: usize)
    ensures
        final(s)@ == old(s)@ + padded(n as nat, w as nat),
{
    let d = decimal_string(n as u64);
    let dl = d.as_str().unicode_len();
    let ghost start = s@;
    if dl < w {
        let mut k: usize = 0;
        while k < w - dl
            invariant
                dl < w,
                k <= w - dl,
                s@ == start + Seq::new(k as nat, |i: int| '0'),
            decreases w - dl - k,
        {
            push_char(s, '0');
            k = k + 1;
            assert(s@ =~= start + Seq::new(k as nat, |i: int| '0'));
        }
    }
    s.append(d.as_str());
    assert(s@ =~= start + padded(n as nat, w as nat));
}

/// The name of the file at `path` without its extension, or `imported`.
fn import_stem_of(path: &str) -> (r: String)
    ensures
        r@ == import_stem(path@),
{
    let p = chars_of(path);
    let s0 = file_name_start(&p);
    proof {
        lemma_last_sep_range(p@, p@.len() as int);
    }
    if s0 == p.len() {
        assert(file_name(p@).len() == 0);
        return copy_str("imported");
    }
    let name = sub_vec(&p, s0, p.len());
    assert(name@ =~= file_name(p@));
    match ext_dot_exec(&p) {
        Some(k) => {
            let v = sub_vec(&p, s0, k);
            assert(v@ =~= name@.take(ext_dot(name@)));
            string_from(&v, 0)
        },
        None => string_from(&name, 0),
    }
}

/// Where the import at `import_path`, taken in at `when`, is filed.
pub fn import_target_path(notes_dir: &str, import_path: &str, when: &LocalTime) -> (r: String)
    ensures
        r@ == import_target(notes_dir@, *when, import_stem(import_path@)),
{
    let mut s = copy_str(notes_dir);
    s.append("/");
    push_padded(&mut s, when.year, 4);
    s.append("/");
    push_padded(&mut s, when.year, 4);
    s.append("-");
    push_padded(&mut s, when.month, 2);
    s.append("-");
    push_padded(&mut s, when.day, 2);
    s.append("/");
    push_padded(&mut s, when.hour, 2);
    push_padded(&mut s, when.minute, 2);
    push_padded(&mut s, when.second, 2);
    s.append("-imported-");
    let stem = import_stem_of(import_path);
    s.append(stem.as_str());
    s.append(".wav");
    s
}

/// Files the import at `import_path`: a `Pending` record for it and a
/// `ProcessImport` task, both under fresh ids. Returns the task's id.
pub fn queue_import(
    store: &mut RecordStore,
    queue: &mut TaskQueue,
    notes_dir: &str,
    import_path: &str,
    when: &LocalTime,
    now: i64,
) -> (r: Result<String, ImportError>)
    requires
        old(store).wf(),
        old(queue).wf(),
    ensures
        final(store).wf(),
        final(queue).wf(),
        final(queue).paused() == old(queue).paused(),
        r is Err ==> final(store)@ == old(store)@ && final(queue)@ == old(queue)@ && (
        has_id_of_fresh_length(old(queue)@) || exists|k: int|
            0 <= k < old(store)@.len() && (#[trigger] old(store)@[k]).id@.len() == 36),
        r matches Ok(tid) ==> {
            let rec = final(store)@.last();
            let t = final(queue)@.last();
            let target = import_target(notes_dir@, *when, import_stem(import_path@));
            &&& final(store)@ == old(store)@.push(rec)
            &&& final(queue)@ == old(queue)@.push(t)
            &&& t.id@ == tid@
            &&& tid@.len() == 36
            &&& rec.id@.len() == 36
            &&& t.transcription_id@ == rec.id@
            &&& t.priority == TaskPriority::Normal
            &&& t.status == TaskStatus::Pending
            &&& t.created_at == now
            &&& t.retry_count == 0
            &&& t.max_retries == 2
            &&& (t.task_type matches TaskType::ProcessImport { import_path: ip, target_dir: td }
                && ip@ == import_path@ && td@ == target)
            &&& rec.audio_path@ == target
            &&& rec.status == TranscriptionStatus::Pending
            &&& rec.source == TranscriptionSource::Import
            &&& rec.created_at == now
        },
{
    let task_id = new_task_id();
    let transcription_id = new_task_id();
    if queue.find(task_id.as_str()).is_some() || store.find(transcription_id.as_str()).is_some() {
        return Err(ImportError::DuplicateId);
    }
    let target = import_target_path(notes_dir, import_path, when);
    let rec = Transcription {
        id: transcription_id.clone(),
        audio_path: target.clone(),
        text_path: None,
        transcription_text: None,
        created_at: now,
        transcribed_at: None,
        duration_ms: 0,
        file_size_bytes: 0,
        language: copy_str("en"),
        model: copy_str("base.en"),
        status: TranscriptionStatus::Pending,
        source: TranscriptionSource::Import,
        error_message: None,
    };
    let task = BackgroundTask {
        id: task_id.clone(),
        transcription_id,
        task_type: TaskType::ProcessImport { import_path: copy_str(import_path), target_dir: target },
        priority: TaskPriority::Normal,
        status: TaskStatus::Pending,
        created_at: now,
        started_at: None,
        completed_at: None,
        retry_count: 0,
        max_retries: 2,
        error_message: None,
    };
    let _ = store.insert_transcription(rec);
    let _ = queue.enqueue_task(task, now);
    Ok(task_id)
}

/// Queues the transcription of an import filed at `target_path`, its text
/// going next to it, under a fresh record id. Returns the task's id.
pub fn queue_imported_transcription(queue: &mut TaskQueue, target_path: &str, now: i64) -> (r:
    Result<String, QueueError>)
    requires
        old(queue).wf(),
    ensures
        final(queue).wf(),
        final(queue).paused() == old(queue).paused(),
        r is Err ==> r == Err::<String, QueueError>(QueueError::DuplicateTaskId) && final(queue)@
            == old(queue)@ && has_id_of_fresh_length(old(queue)@),
        !has_id_of_fresh_length(old(queue)@) ==> r is Ok,
        r matches Ok(tid) ==> {
            let t = final(queue)@.last();
            &&& final(queue)@ == old(queue)@.push(t)
            &&& t.id@ == tid@
            &&& tid@.len() == 36
            &&& t.transcription_id@.len() == 36
            &&& (t.task_type matches TaskType::TranscribeImported { audio_path: a, original_name: o }
                && a@ == target_path@ && o@ == text_path_of(target_path@))
            &&& t.priority == TaskPriority::Normal
            &&& t.status == TaskStatus::Pending
            &&& t.created_at == now
            &&& t.retry_count == 0
            &&& t.max_retries == 2
        },
{
    let task_id = new_task_id();
    let task = BackgroundTask {
        id: task_id.clone(),
        transcription_id: new_task_id(),
        task_type: TaskType::TranscribeImported {
            audio_path: copy_str(target_path),
            original_name: text_path_for(target_path),
        },
        priority: TaskPriority::Normal,
        status: TaskStatus::Pending,
        created_at: now,
        started_at: None,
        completed_at: None,
        retry_count: 0,
        max_retries: 2,
        error_message: None,
    };
    match queue.enqueue_task(task, now) {
        Ok(()) => Ok(task_id),
        Err(e) => Err(e),
    }
}

} // verus!
