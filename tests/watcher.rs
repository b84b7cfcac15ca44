use voicetextrs::queue::TaskQueue;
use voicetextrs::records::{RecordStore, TranscriptionStatus};
use voicetextrs::watcher::{record_orphan, watch_action, WatchAction, WatchEvent};

const NOTES: &str = "/home/u/notes";
const IMPORTS: &str = "/home/u/imports";

#[test]
fn created_files() {
    assert_eq!(watch_action(WatchEvent::Created, "/home/u/imports/pending/a.mp3", NOTES, IMPORTS, false), WatchAction::QueueImport);
    assert_eq!(watch_action(WatchEvent::Created, "/home/u/imports/pending/a.txt", NOTES, IMPORTS, false), WatchAction::Ignore);
    assert_eq!(
        watch_action(WatchEvent::Created, "/home/u/notes/2025/2025-08-10/160626-voice-note.wav", NOTES, IMPORTS, false),
        WatchAction::QueueOrphan { id: "20250810160626".to_string() }
    );
    assert_eq!(watch_action(WatchEvent::Created, "/home/u/notes/2025/2025-08-10/160626-voice-note.wav", NOTES, IMPORTS, true), WatchAction::Ignore);
    assert_eq!(watch_action(WatchEvent::Created, "/home/u/notesx/160626.wav", NOTES, IMPORTS, false), WatchAction::Ignore);
}

#[test]
fn modified_and_removed_files() {
    assert_eq!(
        watch_action(WatchEvent::Modified, "/home/u/notes/2025/2025-08-10/160626-voice-note.txt", NOTES, IMPORTS, true),
        WatchAction::UpdateText { id: "20250810160626".to_string() }
    );
    assert_eq!(watch_action(WatchEvent::Modified, "/home/u/notes/2025/2025-08-10/160626-voice-note.wav", NOTES, IMPORTS, true), WatchAction::Ignore);
    assert_eq!(
        watch_action(WatchEvent::Removed, "/home/u/notes/2025/2025-08-10/160626-voice-note.wav", NOTES, IMPORTS, false),
        WatchAction::MarkMissing { id: "20250810160626".to_string() }
    );
    assert_eq!(watch_action(WatchEvent::Removed, "/elsewhere/160626-voice-note.wav", NOTES, IMPORTS, false), WatchAction::Ignore);
}

#[test]
fn orphan_recorded_once() {
    let mut store = RecordStore::new();
    let mut queue = TaskQueue::new();
    let p = "/home/u/notes/2025/2025-08-10/160626-voice-note.wav";
    assert_eq!(record_orphan(&mut store, &mut queue, p, 5), Ok(true));
    assert_eq!(record_orphan(&mut store, &mut queue, p, 6), Ok(false));
    assert_eq!(store.len(), 1);
    assert_eq!(queue.len(), 1);
    let r = store.get_transcription("20250810160626").unwrap();
    assert_eq!(r.status, TranscriptionStatus::Orphaned);
    assert_eq!(r.audio_path, "2025/2025-08-10/160626-voice-note.wav");
}
