use voicetextrs::queue::{BackgroundTask, QueueError, TaskPriority, TaskQueue, TaskStatus, TaskType};
use voicetextrs::records::{RecordStore, Transcription, TranscriptionSource, TranscriptionStatus};
use voicetextrs::worker::{after_claim, finish_task, next_worker_action, RecordingState, WorkerAction};

fn task(id: &str, priority: TaskPriority, max_retries: u32) -> BackgroundTask {
    BackgroundTask {
        id: id.to_string(),
        transcription_id: format!("rec-{}", id),
        task_type: TaskType::TranscribeOrphan {
            audio_path: format!("{}.wav", id),
            output_path: format!("{}.txt", id),
        },
        priority,
        status: TaskStatus::Failed,
        created_at: 0,
        started_at: Some(9),
        completed_at: None,
        retry_count: 0,
        max_retries,
        error_message: Some("old".to_string()),
    }
}

fn record(id: &str) -> Transcription {
    Transcription {
        id: id.to_string(),
        audio_path: format!("2025/2025-08-10/{}.wav", id),
        text_path: None,
        transcription_text: None,
        created_at: 100,
        transcribed_at: None,
        duration_ms: 0,
        file_size_bytes: 10,
        language: "en".to_string(),
        model: "base.en".to_string(),
        status: TranscriptionStatus::Pending,
        source: TranscriptionSource::Recording,
        error_message: None,
    }
}

#[test]
fn enqueue_resets_to_pending() {
    let mut q = TaskQueue::new();
    assert_eq!(q.enqueue_task(task("a", TaskPriority::Normal, 2), 50), Ok(()));
    let t = q.at(0);
    assert_eq!(t.status, TaskStatus::Pending);
    assert_eq!(t.created_at, 50);
    assert_eq!(t.started_at, None);
    assert_eq!(t.error_message, None);
}

#[test]
fn enqueue_errors() {
    let mut q = TaskQueue::new();
    assert_eq!(q.enqueue_task(task("a", TaskPriority::Normal, 2), 1), Ok(()));
    assert_eq!(q.enqueue_task(task("a", TaskPriority::High, 2), 2), Err(QueueError::DuplicateTaskId));
    let mut bad = task("b", TaskPriority::Low, 1);
    bad.retry_count = 2;
    assert_eq!(q.enqueue_task(bad, 3), Err(QueueError::InvalidRetryCount));
    assert_eq!(q.len(), 1);
}

#[test]
fn claim_order_by_priority_then_age() {
    let mut q = TaskQueue::new();
    q.enqueue_task(task("low", TaskPriority::Low, 2), 10).unwrap();
    q.enqueue_task(task("high1", TaskPriority::High, 2), 10).unwrap();
    q.enqueue_task(task("normal", TaskPriority::Normal, 2), 10).unwrap();
    q.enqueue_task(task("high2", TaskPriority::High, 2), 10).unwrap();
    let mut order = Vec::new();
    while let Some(t) = q.claim_next_task(20) {
        assert_eq!(t.status, TaskStatus::Processing);
        assert_eq!(t.started_at, Some(20));
        order.push(t.id);
    }
    assert_eq!(order, vec!["high1", "high2", "normal", "low"]);
}

#[test]
fn older_task_claimed_first_within_priority() {
    let mut q = TaskQueue::new();
    q.enqueue_task(task("newer", TaskPriority::Normal, 2), 30).unwrap();
    q.enqueue_task(task("older", TaskPriority::Normal, 2), 10).unwrap();
    assert_eq!(q.claim_next_task(40).unwrap().id, "older");
}

#[test]
fn a_task_is_claimed_at_most_once() {
    let mut q = TaskQueue::new();
    q.enqueue_task(task("only", TaskPriority::Normal, 2), 1).unwrap();
    let mut claims = 0;
    for _ in 0..8 {
        if q.claim_next_task(2).is_some() {
            claims += 1;
        }
    }
    assert_eq!(claims, 1);
    assert_eq!(q.at(0).status, TaskStatus::Processing);
}

#[test]
fn retry_exhaustion_ends_failed() {
    let mut q = TaskQueue::new();
    q.enqueue_task(task("t", TaskPriority::Normal, 2), 1).unwrap();
    let mut last = TaskStatus::Pending;
    for n in 0..3 {
        let t = q.claim_next_task(2 + n).unwrap();
        last = q.record_failure(&t.id, format!("boom {}", n)).unwrap();
    }
    assert_eq!(last, TaskStatus::Failed);
    let t = q.at(0);
    assert_eq!(t.status, TaskStatus::Failed);
    assert_eq!(t.retry_count, 2);
    assert_eq!(t.error_message, Some("boom 2".to_string()));
    assert!(q.claim_next_task(9).is_none());
}

#[test]
fn failure_keeps_error_across_retries() {
    let mut q = TaskQueue::new();
    q.enqueue_task(task("t", TaskPriority::Normal, 2), 1).unwrap();
    q.claim_next_task(2).unwrap();
    assert_eq!(q.record_failure("t", "first".to_string()), Ok(TaskStatus::Pending));
    assert_eq!(q.at(0).retry_count, 1);
    assert_eq!(q.at(0).error_message, Some("first".to_string()));
    assert_eq!(q.record_failure("missing", "x".to_string()), Err(QueueError::TaskNotFound));
}

#[test]
fn retry_failed_only_from_failed() {
    let mut q = TaskQueue::new();
    q.enqueue_task(task("t", TaskPriority::Normal, 0), 1).unwrap();
    assert_eq!(q.retry_failed_task("t"), Err(QueueError::NotFailed));
    assert_eq!(q.retry_failed_task("nope"), Err(QueueError::TaskNotFound));
    q.claim_next_task(2).unwrap();
    assert_eq!(q.record_failure("t", "bad".to_string()), Ok(TaskStatus::Failed));
    assert_eq!(q.retry_failed_task("t"), Ok(()));
    let t = q.at(0);
    assert_eq!(t.status, TaskStatus::Pending);
    assert_eq!(t.retry_count, 0);
    assert_eq!(t.error_message, None);
}

#[test]
fn completion_updates_task_and_record() {
    let mut q = TaskQueue::new();
    let mut store = RecordStore::new();
    store.insert_transcription(record("rec-t")).unwrap();
    q.enqueue_task(task("t", TaskPriority::High, 2), 1).unwrap();
    q.claim_next_task(2).unwrap();
    assert_eq!(q.complete_task(&mut store, "t", "hello".to_string(), 3), Ok(()));
    assert_eq!(q.at(0).status, TaskStatus::Completed);
    assert_eq!(q.at(0).completed_at, Some(3));
    let r = store.get_transcription("rec-t").unwrap();
    assert_eq!(r.status, TranscriptionStatus::Complete);
    assert_eq!(r.transcription_text, Some("hello".to_string()));
    assert_eq!(r.transcribed_at, Some(3));
    assert_eq!(q.complete_task(&mut store, "zzz", "x".to_string(), 4), Err(QueueError::TaskNotFound));
}

#[test]
fn clear_completed_counts_removed() {
    let mut q = TaskQueue::new();
    let mut store = RecordStore::new();
    q.enqueue_task(task("a", TaskPriority::High, 2), 1).unwrap();
    q.enqueue_task(task("b", TaskPriority::Low, 2), 1).unwrap();
    q.enqueue_task(task("c", TaskPriority::Normal, 2), 1).unwrap();
    q.claim_next_task(2).unwrap();
    q.complete_task(&mut store, "a", "x".to_string(), 3).unwrap();
    q.claim_next_task(4).unwrap();
    q.complete_task(&mut store, "c", "y".to_string(), 5).unwrap();
    assert_eq!(q.clear_completed_tasks(), 2);
    assert_eq!(q.len(), 1);
    assert_eq!(q.at(0).id, "b");
    assert_eq!(q.clear_completed_tasks(), 0);
}

#[test]
fn queue_status_counts() {
    let mut q = TaskQueue::new();
    q.enqueue_task(task("a", TaskPriority::High, 0), 1).unwrap();
    q.enqueue_task(task("b", TaskPriority::Low, 2), 1).unwrap();
    q.enqueue_task(task("c", TaskPriority::Normal, 2), 1).unwrap();
    q.claim_next_task(2).unwrap();
    q.record_failure("a", "e".to_string()).unwrap();
    q.claim_next_task(3).unwrap();
    q.pause();
    let s = q.get_queue_status();
    assert!(s.is_paused);
    assert_eq!(s.pending_count, 1);
    assert_eq!(s.processing_count, 1);
    assert_eq!(s.failed_count, 1);
    assert_eq!(s.completed_count, 0);
    assert_eq!(s.total_count, 3);
    assert!(s.is_processing);
    assert_eq!(s.active_task.unwrap().id, "c");
    q.resume();
    assert!(!q.is_paused());
}

#[test]
fn task_listing_order() {
    let mut q = TaskQueue::new();
    q.enqueue_task(task("done", TaskPriority::High, 2), 1).unwrap();
    q.enqueue_task(task("p-low-old", TaskPriority::Low, 2), 2).unwrap();
    q.enqueue_task(task("p-low-new", TaskPriority::Low, 2), 3).unwrap();
    q.enqueue_task(task("p-high", TaskPriority::High, 2), 1).unwrap();
    let mut store = RecordStore::new();
    q.claim_next_task(5).unwrap();
    q.complete_task(&mut store, "done", "t".to_string(), 6).unwrap();
    q.claim_next_task(7).unwrap();
    let ids: Vec<String> = q.get_tasks(10, 0).into_iter().map(|t| t.id).collect();
    assert_eq!(ids, vec!["p-high", "p-low-new", "p-low-old", "done"]);
    let page: Vec<String> = q.get_tasks(2, 1).into_iter().map(|t| t.id).collect();
    assert_eq!(page, vec!["p-low-new", "p-low-old"]);
    assert!(q.get_tasks(3, 4).is_empty());
}

#[test]
fn sync_task_queued_once() {
    let mut q = TaskQueue::new();
    assert_eq!(q.enqueue_sync_task(true, 10), Ok(true));
    assert_eq!(q.enqueue_sync_task(false, 11), Ok(false));
    let t = q.at(0);
    assert_eq!(t.id.len(), 36);
    assert_eq!(t.transcription_id, t.id);
    assert_eq!(t.max_retries, 1);
    assert!(matches!(t.task_type, TaskType::FileSystemSync { full_scan: true }));
}

#[test]
fn priority_values() {
    assert_eq!(TaskPriority::High.value(), 2);
    assert_eq!(TaskPriority::from_value(0), TaskPriority::Low);
    assert_eq!(TaskPriority::from_value(7), TaskPriority::Normal);
}

#[test]
fn worker_decisions() {
    assert_eq!(next_worker_action(false, true, RecordingState::Recording), WorkerAction::Stop);
    assert_eq!(next_worker_action(true, true, RecordingState::Idle), WorkerAction::Wait { seconds: 1 });
    assert_eq!(next_worker_action(true, false, RecordingState::Processing), WorkerAction::Wait { seconds: 2 });
    assert_eq!(next_worker_action(true, false, RecordingState::Idle), WorkerAction::Claim);
    assert_eq!(after_claim(&None), WorkerAction::Wait { seconds: 5 });
}

#[test]
fn finish_task_outcomes() {
    let mut q = TaskQueue::new();
    let mut store = RecordStore::new();
    store.insert_transcription(record("rec-a")).unwrap();
    q.enqueue_task(task("a", TaskPriority::Normal, 1), 1).unwrap();
    q.claim_next_task(2).unwrap();
    assert_eq!(finish_task(&mut q, &mut store, "a", Err("x".to_string()), 3), Ok(TaskStatus::Pending));
    q.claim_next_task(4).unwrap();
    assert_eq!(finish_task(&mut q, &mut store, "a", Ok("text".to_string()), 5), Ok(TaskStatus::Completed));
    assert_eq!(store.get_transcription("rec-a").unwrap().status, TranscriptionStatus::Complete);
    assert_eq!(finish_task(&mut q, &mut store, "b", Ok("t".to_string()), 6), Err(QueueError::TaskNotFound));
}

#[test]
fn restore_keeps_state_and_checks_it() {
    let mut a = task("a", TaskPriority::Normal, 2);
    a.status = TaskStatus::Processing;
    let q = TaskQueue::restore(vec![a, task("b", TaskPriority::Low, 1)], true).unwrap();
    assert_eq!(q.len(), 2);
    assert_eq!(q.at(0).status, TaskStatus::Processing);
    assert!(q.is_paused());
    let dup = TaskQueue::restore(vec![task("a", TaskPriority::Normal, 2), task("a", TaskPriority::Low, 1)], false);
    assert_eq!(dup.err().map(|e| e), Some(QueueError::DuplicateTaskId));
    let mut over = task("c", TaskPriority::Low, 1);
    over.retry_count = 3;
    assert_eq!(TaskQueue::restore(vec![over], false).err(), Some(QueueError::InvalidRetryCount));
}

#[test]
fn task_times_never_run_backward() {
    let mut q = TaskQueue::new();
    let mut store = RecordStore::new();
    q.enqueue_task(task("t", TaskPriority::Normal, 2), 100).unwrap();
    let t = q.claim_next_task(90).unwrap();
    assert_eq!(t.started_at, Some(100));
    q.complete_task(&mut store, "t", "x".to_string(), 95).unwrap();
    assert_eq!(q.at(0).completed_at, Some(100));
    let mut bad = task("b", TaskPriority::Low, 1);
    bad.created_at = 10;
    bad.started_at = Some(5);
    assert_eq!(TaskQueue::restore(vec![bad], false).err(), Some(QueueError::InvalidTimestamps));
}

#[test]
fn paused_queue_claims_nothing() {
    let mut q = TaskQueue::new();
    q.enqueue_task(task("t", TaskPriority::High, 2), 1).unwrap();
    q.pause();
    assert!(q.claim_next_task(2).is_none());
    assert_eq!(q.at(0).status, TaskStatus::Pending);
    q.resume();
    assert_eq!(q.claim_next_task(3).unwrap().id, "t");
}
