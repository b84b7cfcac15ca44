use voicetextrs::records::{RecordStore, StoreError, Transcription, TranscriptionSource, TranscriptionStatus, TranscriptionUpdate};

fn record(id: &str, size: u64, status: TranscriptionStatus) -> Transcription {
    Transcription {
        id: id.to_string(),
        audio_path: format!("{}.wav", id),
        text_path: None,
        transcription_text: None,
        created_at: 0,
        transcribed_at: None,
        duration_ms: 1500,
        file_size_bytes: size,
        language: "en".to_string(),
        model: "base.en".to_string(),
        status,
        source: TranscriptionSource::Recording,
        error_message: None,
    }
}

#[test]
fn insert_get_delete() {
    let mut s = RecordStore::new();
    assert_eq!(s.insert_transcription(record("a", 1, TranscriptionStatus::Pending)), Ok(()));
    assert_eq!(s.insert_transcription(record("a", 2, TranscriptionStatus::Pending)), Err(StoreError::DuplicateId));
    assert_eq!(s.get_transcription("a").unwrap().file_size_bytes, 1);
    assert!(s.get_transcription("b").is_none());
    assert!(s.delete_transcription("a"));
    assert!(!s.delete_transcription("a"));
    assert_eq!(s.len(), 0);
}

#[test]
fn status_update_keeps_error_only_when_failed() {
    let mut s = RecordStore::new();
    s.insert_transcription(record("a", 1, TranscriptionStatus::Pending)).unwrap();
    assert_eq!(s.update_transcription_status("a", TranscriptionStatus::Failed, Some("e".to_string())), Ok(()));
    assert_eq!(s.get_transcription("a").unwrap().error_message, Some("e".to_string()));
    assert_eq!(s.update_transcription_status("a", TranscriptionStatus::Complete, Some("e".to_string())), Ok(()));
    let a = s.get_transcription("a").unwrap();
    assert_eq!(a.status, TranscriptionStatus::Complete);
    assert_eq!(a.error_message, None);
    assert_eq!(s.update_transcription_status("zz", TranscriptionStatus::Failed, None), Err(StoreError::NotFound));
}

#[test]
fn ids_and_stats() {
    let mut s = RecordStore::new();
    s.insert_transcription(record("a", 10, TranscriptionStatus::Pending)).unwrap();
    s.insert_transcription(record("b", 20, TranscriptionStatus::Complete)).unwrap();
    s.insert_transcription(record("c", 30, TranscriptionStatus::Failed)).unwrap();
    assert_eq!(s.get_all_transcription_ids(), vec!["a", "b", "c"]);
    let st = s.get_stats();
    assert_eq!(st.total_transcriptions, 3);
    assert_eq!(st.total_size_bytes, 60);
    assert_eq!(st.total_duration_ms, 4500);
    assert_eq!(st.pending_count, 1);
    assert_eq!(st.completed_count, 1);
    assert_eq!(st.failed_count, 1);
    s.clear_all_transcriptions();
    assert_eq!(s.len(), 0);
}

fn dated(id: &str, path: &str, created_at: i64, status: TranscriptionStatus) -> Transcription {
    let mut t = record(id, 1, status);
    t.audio_path = path.to_string();
    t.created_at = created_at;
    t
}

#[test]
fn partial_update() {
    let mut s = RecordStore::new();
    s.insert_transcription(record("a", 1, TranscriptionStatus::Pending)).unwrap();
    let u = TranscriptionUpdate {
        text_path: Some("a.txt".to_string()),
        transcription_text: None,
        transcribed_at: Some(77),
        status: Some(TranscriptionStatus::Complete),
        error_message: None,
    };
    assert_eq!(s.update_transcription("a", u), Ok(()));
    let a = s.get_transcription("a").unwrap();
    assert_eq!(a.text_path, Some("a.txt".to_string()));
    assert_eq!(a.transcription_text, None);
    assert_eq!(a.transcribed_at, Some(77));
    assert_eq!(a.status, TranscriptionStatus::Complete);
    let none = TranscriptionUpdate { text_path: None, transcription_text: None, transcribed_at: None, status: None, error_message: None };
    assert_eq!(s.update_transcription("b", none), Err(StoreError::NotFound));
}

#[test]
fn listing_newest_first_with_filter() {
    let mut s = RecordStore::new();
    s.insert_transcription(dated("old", "1.wav", 10, TranscriptionStatus::Complete)).unwrap();
    s.insert_transcription(dated("new", "2.wav", 30, TranscriptionStatus::Pending)).unwrap();
    s.insert_transcription(dated("mid", "3.wav", 20, TranscriptionStatus::Complete)).unwrap();
    let all: Vec<String> = s.list_transcriptions(10, 0, None).into_iter().map(|t| t.id).collect();
    assert_eq!(all, vec!["new", "mid", "old"]);
    let done: Vec<String> = s.list_transcriptions(10, 0, Some(TranscriptionStatus::Complete)).into_iter().map(|t| t.id).collect();
    assert_eq!(done, vec!["mid", "old"]);
    let page: Vec<String> = s.list_transcriptions(1, 1, None).into_iter().map(|t| t.id).collect();
    assert_eq!(page, vec!["mid"]);
    assert!(s.list_transcriptions(5, 3, None).is_empty());
}

#[test]
fn cleanup_keeps_newest_clean_record() {
    let mut s = RecordStore::new();
    s.insert_transcription(dated("a", "2025/2025-08-10/1.wav", 10, TranscriptionStatus::Complete)).unwrap();
    s.insert_transcription(dated("b", "notes/2025/2025-08-10/1.wav", 20, TranscriptionStatus::Complete)).unwrap();
    s.insert_transcription(dated("c", r"D:\x\notes\2025\2025-08-10\2.wav", 30, TranscriptionStatus::Complete)).unwrap();
    s.insert_transcription(dated("d", "2025/2025-08-10/3.wav", 5, TranscriptionStatus::Complete)).unwrap();
    assert_eq!(s.cleanup_duplicates(), 2);
    assert_eq!(s.get_all_transcription_ids(), vec!["b", "d"]);
    assert_eq!(s.cleanup_duplicates(), 0);
}

#[test]
fn restore_refuses_duplicate_ids() {
    let ok = RecordStore::restore(vec![record("a", 1, TranscriptionStatus::Pending), record("b", 1, TranscriptionStatus::Pending)]);
    assert_eq!(ok.unwrap().len(), 2);
    let bad = RecordStore::restore(vec![record("a", 1, TranscriptionStatus::Pending), record("a", 2, TranscriptionStatus::Pending)]);
    assert_eq!(bad.err(), Some(StoreError::DuplicateId));
}

#[test]
fn record_constructors() {
    let r = Transcription::new_recording("20250810160626".to_string(), "2025/2025-08-10/160626-voice-note.wav".to_string(), 5);
    assert_eq!(r.status, TranscriptionStatus::Pending);
    assert_eq!(r.source, TranscriptionSource::Recording);
    let o = Transcription::new_orphan("x".to_string(), "x.wav".to_string(), 6);
    assert_eq!(o.status, TranscriptionStatus::Orphaned);
    assert_eq!(o.source, TranscriptionSource::Orphan);
    assert_eq!(o.created_at, 6);
}
