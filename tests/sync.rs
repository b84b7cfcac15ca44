use voicetextrs::queue::{TaskPriority, TaskQueue, TaskStatus, TaskType};
use voicetextrs::records::{RecordStore, TranscriptionSource, TranscriptionStatus};
use voicetextrs::sync::{reconcile, DiscoveredFile};

fn found(path: &str, text: Option<&str>, size: u64) -> DiscoveredFile {
    DiscoveredFile {
        path: path.to_string(),
        file_size_bytes: size,
        text: text.map(|t| t.to_string()),
        has_sidecar: false,
        modified_at: None,
        created_at: None,
        duration_ms: None,
        language: None,
    }
}

const A: &str = "/home/u/notes/2025/2025-08-10/160626-voice-note.wav";
const B: &str = "/home/u/notes/2025/2025-08-10/171500-voice-note.wav";

#[test]
fn new_files_get_records() {
    let mut store = RecordStore::new();
    let mut queue = TaskQueue::new();
    let files = vec![found(A, Some("hello"), 100), found(B, None, 200)];
    let r = reconcile(&mut store, &mut queue, &files, 99);
    assert_eq!(r.total_files_found, 2);
    assert_eq!(r.new_transcriptions, 2);
    assert_eq!(r.updated_transcriptions, 0);
    assert_eq!(r.missing_files, 0);
    assert!(r.errors.is_empty());
    let a = store.get_transcription("20250810160626").unwrap();
    assert_eq!(a.audio_path, "2025/2025-08-10/160626-voice-note.wav");
    assert_eq!(a.text_path, Some("2025/2025-08-10/160626-voice-note.txt".to_string()));
    assert_eq!(a.transcription_text, Some("hello".to_string()));
    assert_eq!(a.status, TranscriptionStatus::Complete);
    assert_eq!(a.source, TranscriptionSource::Import);
    assert_eq!(a.created_at, 1754841986);
    assert_eq!(a.file_size_bytes, 100);
    let b = store.get_transcription("20250810171500").unwrap();
    assert_eq!(b.status, TranscriptionStatus::Pending);
    assert_eq!(b.source, TranscriptionSource::Orphan);
    assert_eq!(b.transcription_text, None);
}

#[test]
fn orphan_gets_exactly_one_task() {
    let mut store = RecordStore::new();
    let mut queue = TaskQueue::new();
    let files = vec![found(B, None, 200)];
    reconcile(&mut store, &mut queue, &files, 1);
    assert_eq!(queue.len(), 1);
    let t = queue.at(0);
    assert_eq!(t.transcription_id, "20250810171500");
    assert_eq!(t.priority, TaskPriority::Low);
    assert_eq!(t.status, TaskStatus::Pending);
    assert_eq!(t.max_retries, 2);
    assert_eq!(t.id.len(), 36);
    match &t.task_type {
        TaskType::TranscribeOrphan { audio_path, output_path } => {
            assert_eq!(audio_path, B);
            assert_eq!(output_path, "/home/u/notes/2025/2025-08-10/171500-voice-note.txt");
        }
        _ => panic!("wrong task type"),
    }
    let r2 = reconcile(&mut store, &mut queue, &files, 2);
    assert_eq!(queue.len(), 1);
    assert_eq!(r2.new_transcriptions, 0);
}

#[test]
fn sidecar_without_text_is_orphaned() {
    let mut store = RecordStore::new();
    let mut queue = TaskQueue::new();
    let mut f = found(B, Some(""), 5);
    f.has_sidecar = true;
    reconcile(&mut store, &mut queue, &vec![f], 1);
    assert_eq!(store.get_transcription("20250810171500").unwrap().status, TranscriptionStatus::Orphaned);
    assert_eq!(queue.len(), 1);
}

#[test]
fn second_pass_changes_nothing() {
    let mut store = RecordStore::new();
    let mut queue = TaskQueue::new();
    let files = vec![found(A, Some("hello"), 100), found(B, None, 200)];
    reconcile(&mut store, &mut queue, &files, 5);
    let r = reconcile(&mut store, &mut queue, &files, 6);
    assert_eq!(r.new_transcriptions, 0);
    assert_eq!(r.updated_transcriptions, 0);
    assert_eq!(r.missing_files, 0);
    assert_eq!(store.len(), 2);
    assert_eq!(queue.len(), 1);
}

#[test]
fn changed_file_counts_as_updated() {
    let mut store = RecordStore::new();
    let mut queue = TaskQueue::new();
    reconcile(&mut store, &mut queue, &vec![found(B, None, 200)], 5);
    let r = reconcile(&mut store, &mut queue, &vec![found(B, Some("now done"), 200)], 6);
    assert_eq!(r.updated_transcriptions, 1);
    let b = store.get_transcription("20250810171500").unwrap();
    assert_eq!(b.status, TranscriptionStatus::Complete);
    assert_eq!(b.transcription_text, Some("now done".to_string()));
}

#[test]
fn deleted_file_is_marked_not_removed() {
    let mut store = RecordStore::new();
    let mut queue = TaskQueue::new();
    reconcile(&mut store, &mut queue, &vec![found(A, Some("hello"), 100), found(B, None, 200)], 5);
    let r = reconcile(&mut store, &mut queue, &vec![found(B, None, 200)], 6);
    assert_eq!(r.missing_files, 1);
    assert_eq!(store.len(), 2);
    let a = store.get_transcription("20250810160626").unwrap();
    assert_eq!(a.status, TranscriptionStatus::Orphaned);
    assert_eq!(a.transcription_text, Some("hello".to_string()));
    let again = reconcile(&mut store, &mut queue, &vec![found(B, None, 200)], 7);
    assert_eq!(again.missing_files, 0);
}

#[test]
fn same_id_twice_is_an_error() {
    let mut store = RecordStore::new();
    let mut queue = TaskQueue::new();
    let files = vec![found(A, None, 1), found("/other/notes/2025/2025-08-10/160626-voice-note.mp3", None, 2)];
    let r = reconcile(&mut store, &mut queue, &files, 1);
    assert_eq!(r.new_transcriptions, 1);
    assert_eq!(r.errors.len(), 1);
    assert_eq!(store.len(), 1);
}

#[test]
fn path_without_file_name_is_an_error() {
    let mut store = RecordStore::new();
    let mut queue = TaskQueue::new();
    let r = reconcile(&mut store, &mut queue, &vec![found("/home/u/notes/", None, 1)], 1);
    assert_eq!(r.errors.len(), 1);
    assert_eq!(store.len(), 0);
}

#[test]
fn files_sharing_an_id_settle_after_one_pass() {
    let mut store = RecordStore::new();
    let mut queue = TaskQueue::new();
    let files = vec![
        found("/n/notes/2025/2025-08-10/160626.wav", Some("one"), 10),
        found("/n/notes/2025/2025-08-10/160626.mp3", Some("two"), 20),
    ];
    let r1 = reconcile(&mut store, &mut queue, &files, 1);
    assert_eq!(r1.new_transcriptions, 1);
    assert_eq!(r1.errors, vec!["another file has the same id: /n/notes/2025/2025-08-10/160626.mp3".to_string()]);
    let r2 = reconcile(&mut store, &mut queue, &files, 2);
    assert_eq!((r2.new_transcriptions, r2.updated_transcriptions, r2.missing_files), (0, 0, 0));
    assert_eq!(store.get_transcription("20250810160626").unwrap().file_size_bytes, 10);
}

#[test]
fn unusable_path_error_names_it() {
    let mut store = RecordStore::new();
    let mut queue = TaskQueue::new();
    let r = reconcile(&mut store, &mut queue, &vec![found("/home/u/notes/", None, 1)], 1);
    assert_eq!(r.errors, vec!["no file name: /home/u/notes/".to_string()]);
}

#[test]
fn text_removed_from_complete_record_queues_task() {
    let mut store = RecordStore::new();
    let mut queue = TaskQueue::new();
    reconcile(&mut store, &mut queue, &vec![found(A, Some("hello"), 100)], 1);
    assert_eq!(queue.len(), 0);
    let r = reconcile(&mut store, &mut queue, &vec![found(A, None, 100)], 2);
    assert_eq!(r.updated_transcriptions, 1);
    assert_eq!(store.get_transcription("20250810160626").unwrap().status, TranscriptionStatus::Pending);
    assert_eq!(queue.len(), 1);
    assert_eq!(queue.at(0).transcription_id, "20250810160626");
}

#[test]
fn sidecar_metadata_is_carried() {
    let mut store = RecordStore::new();
    let mut queue = TaskQueue::new();
    let mut f = found(B, None, 5);
    f.has_sidecar = true;
    f.duration_ms = Some(4200);
    f.language = Some("de".to_string());
    reconcile(&mut store, &mut queue, &vec![f], 1);
    let r = store.get_transcription("20250810171500").unwrap();
    assert_eq!(r.duration_ms, 4200);
    assert_eq!(r.language, "de");
    let mut store2 = RecordStore::new();
    reconcile(&mut store2, &mut queue, &vec![found(A, None, 5)], 1);
    assert_eq!(store2.get_transcription("20250810160626").unwrap().language, "en");
}
