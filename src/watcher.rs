//! What a change seen in the notes or imports folder calls for. Watching
//! the folders is left to the application.
use vstd::prelude::*;
use vstd::string::StringExecFns;
use crate::ids::{file_name, lemma_last_sep_range, matches_at_exec, normalize_audio_path, normalized_path};
use crate::paths::{ext_dot_exec, extension, file_id, file_id_of, is_audio_ext, is_audio_file, sub_vec};
use crate::queue::{has_unresolved_for, QueueError, TaskQueue};
use crate::records::{has_id, RecordStore, Transcription, TranscriptionStatus};
use crate::text::{chars_of, copy_str};

verus! {

/// A change to a file.
#[derive(PartialEq, Eq, Structural, Clone, Copy, Debug)]
pub enum WatchEvent {
    Created,
    Modified,
    Removed,
}

/// What the change calls for.
#[derive(PartialEq, Eq, Debug)]
pub enum WatchAction {
    Ignore,
    /// File the new import.
    QueueImport,
    /// Record the new audio file and queue its transcription.
    QueueOrphan { id: String },
    /// Store the changed text of record `id`.
    UpdateText { id: String },
    /// Mark record `id`, whose audio is gone.
    MarkMissing { id: String },
}

/// `p` lies inside directory `dir`.
pub open spec fn is_under(p: Seq<char>, dir: Seq<char>) -> bool {
    dir.len() < p.len() && p.take(dir.len() as int) == dir && p[dir.len() as int] == '/'
}

/// The folder where imports wait.
pub open spec fn pending_dir(imports_dir: Seq<char>) -> Seq<char> {
    imports_dir + "/pending"@
}

pub open spec fn is_txt_ext(e: Seq<char>) -> bool {
    e == seq!['t', 'x', 't']
}

fn is_under_exec(p: &str, dir: &str) -> (r: bool)
    ensures
        r == is_under(p@, dir@),
{
    let pv = chars_of(p);
    let dv = chars_of(dir);
    if dv.len() >= pv.len() {
        return false;
    }
    let m = matches_at_exec(&pv, &dv, 0);
    proof {
        assert(pv@.subrange(0, dv@.len() as int) =~= pv@.take(dv@.len() as int));
    }
    m && pv[dv.len()] == '/'
}

/// Whether the extension of `path` is `txt`.
fn is_txt_file(path: &str) -> (r: bool)
    ensures
        r == is_txt_ext(extension(path@)),
{
    let p = chars_of(path);
    let n = p.len();
    proof {
        lemma_last_sep_range(p@, p@.len() as int);
    }
    match ext_dot_exec(&p) {
        None => {
            assert(extension(p@).len() == 0);
            false
        },
        Some(k) => {
            let e = sub_vec(&p, k + 1, n);
            proof {
                let name = file_name(p@);
                assert(name =~= p@.skip(p@.len() - name.len()));
                assert(e@ =~= extension(p@));
            }
            let lit = vec!['t', 'x', 't'];
            assert(lit@ =~= seq!['t', 'x', 't']);
            let r = e.len() == 3 && matches_at_exec(&e, &lit, 0);
            proof {
                if e@.len() == 3 {
                    assert(e@.subrange(0, 3) =~= e@);
                }
            }
            r
        },
    }
}

/// What a change to `path` calls for: a new audio file in the pending
/// imports is filed; a new audio file in the notes without its text is
/// queued; a changed text file updates its record; a removed audio file
/// marks its record.
pub fn watch_action(
    event: WatchEvent,
    path: &str,
    notes_dir: &str,
    imports_dir: &str,
    text_exists: bool,
) -> (r: WatchAction)
    ensures
        event == WatchEvent::Created ==> if is_under(path@, pending_dir(imports_dir@)) {
            if is_audio_ext(extension(path@)) {
                r == WatchAction::QueueImport
            } else {
                r == WatchAction::Ignore
            }
        } else if is_under(path@, notes_dir@) && is_audio_ext(extension(path@)) && !text_exists {
            r matches WatchAction::QueueOrphan { id } && id@ == file_id(path@)
        } else {
            r == WatchAction::Ignore
        },
        event == WatchEvent::Modified ==> if is_under(path@, notes_dir@) && is_txt_ext(
            extension(path@),
        ) {
            r matches WatchAction::UpdateText { id } && id@ == file_id(path@)
        } else {
            r == WatchAction::Ignore
        },
        event == WatchEvent::Removed ==> if is_under(path@, notes_dir@) && is_audio_ext(
            extension(path@),
        ) {
            r matches WatchAction::MarkMissing { id } && id@ == file_id(path@)
        } else {
            r == WatchAction::Ignore
        },
{
    match event {
        WatchEvent::Created => {
            let mut pending = copy_str(imports_dir);
            pending.append("/pending");
            if is_under_exec(path, pending.as_str()) {
                if is_audio_file(path) {
                    WatchAction::QueueImport
                } else {
                    WatchAction::Ignore
                }
            } else if is_under_exec(path, notes_dir) && is_audio_file(path) && !text_exists {
                WatchAction::QueueOrphan { id: file_id_of(path) }
            } else {
                WatchAction::Ignore
            }
        },
        WatchEvent::Modified => {
            if is_under_exec(path, notes_dir) && is_txt_file(path) {
                WatchAction::UpdateText { id: file_id_of(path) }
            } else {
                WatchAction::Ignore
            }
        },
        WatchEvent::Removed => {
            if is_under_exec(path, notes_dir) && is_audio_file(path) {
                WatchAction::MarkMissing { id: file_id_of(path) }
            } else {
                WatchAction::Ignore
            }
        },
    }
}

/// Records the new audio file at `path`, unless its id is stored, and
/// queues its transcription, unless one is pending or running. Whether a
/// task was queued.
pub fn record_orphan(
    store: &mut RecordStore,
    queue: &mut TaskQueue,
    path: &str,
    now: i64,
) -> (r: Result<bool, QueueError>)
    requires
        old(store).wf(),
        old(queue).wf(),
    ensures
        final(store).wf(),
        final(queue).wf(),
        final(queue).paused() == old(queue).paused(),
        has_id(final(store)@, file_id(path@)),
        has_id(old(store)@, file_id(path@)) ==> final(store)@ == old(store)@,
        !has_id(old(store)@, file_id(path@)) ==> final(store)@.len() == old(store)@.len() + 1
            && final(store)@.drop_last() == old(store)@ && final(store)@.last().status
            == TranscriptionStatus::Orphaned && final(store)@.last().audio_path@ == normalized_path(
            path@,
        ),
        has_unresolved_for(old(queue)@, file_id(path@)) ==> r == Ok::<bool, QueueError>(false)
            && final(queue)@ == old(queue)@,
        r == Ok::<bool, QueueError>(true) ==> final(queue)@.len() == old(queue)@.len() + 1
            && final(queue)@.drop_last() == old(queue)@ && final(queue)@.last().transcription_id@
            == file_id(path@),
        r is Err ==> final(queue)@ == old(queue)@,
        !has_unresolved_for(old(queue)@, file_id(path@)) ==> r != Ok::<bool, QueueError>(false),
{
    let id = file_id_of(path);
    if store.find(id.as_str()).is_none() {
        let rec = Transcription::new_orphan(id.clone(), normalize_audio_path(path), now);
        let _ = store.insert_transcription(rec);
        assert(store@[store@.len() - 1].id@ == id@);
    }
    if queue.has_unresolved_task_for(id.as_str()) {
        return Ok(false);
    }
    match queue.enqueue_orphan_task(id.as_str(), path, now) {
        Ok(_) => {
            assert(queue@.drop_last() =~= old(queue)@);
            Ok(true)
        },
        Err(e) => Err(e),
    }
}

} // verus!
