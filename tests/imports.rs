use voicetextrs::imports::{import_target_path, queue_import, LocalTime};
use voicetextrs::queue::{TaskPriority, TaskQueue, TaskStatus, TaskType};
use voicetextrs::records::{RecordStore, TranscriptionSource, TranscriptionStatus};

fn when() -> LocalTime {
    LocalTime { year: 2025, month: 8, day: 9, hour: 7, minute: 5, second: 3 }
}

#[test]
fn import_target_naming() {
    assert_eq!(
        import_target_path("/n", "/in/pending/My Memo.m4a", &when()),
        "/n/2025/2025-08-09/070503-imported-My Memo.wav"
    );
    assert_eq!(import_target_path("n", "/in/pending/", &when()), "n/2025/2025-08-09/070503-imported-imported.wav");
    assert_eq!(import_target_path("n", "a.b.c", &when()), "n/2025/2025-08-09/070503-imported-a.b.wav");
    let early = LocalTime { year: 987, month: 12, day: 31, hour: 23, minute: 59, second: 59 };
    assert_eq!(import_target_path("n", "x", &early), "n/0987/0987-12-31/235959-imported-x.wav");
}

#[test]
fn queue_import_adds_record_and_task() {
    let mut store = RecordStore::new();
    let mut queue = TaskQueue::new();
    let id = queue_import(&mut store, &mut queue, "/n", "/in/pending/memo.mp3", &when(), 42).unwrap();
    assert_eq!(id.len(), 36);
    assert_eq!(store.len(), 1);
    assert_eq!(queue.len(), 1);
    let rec = store.at(0);
    assert_eq!(rec.audio_path, "/n/2025/2025-08-09/070503-imported-memo.wav");
    assert_eq!(rec.status, TranscriptionStatus::Pending);
    assert_eq!(rec.source, TranscriptionSource::Import);
    let t = queue.at(0);
    assert_eq!(t.id, id);
    assert_eq!(t.transcription_id, rec.id);
    assert_eq!(t.priority, TaskPriority::Normal);
    assert_eq!(t.status, TaskStatus::Pending);
    assert_eq!(t.max_retries, 2);
    match &t.task_type {
        TaskType::ProcessImport { import_path, target_dir } => {
            assert_eq!(import_path, "/in/pending/memo.mp3");
            assert_eq!(target_dir, "/n/2025/2025-08-09/070503-imported-memo.wav");
        }
        _ => panic!("wrong task type"),
    }
}
