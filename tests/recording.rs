use voicetextrs::queue::{TaskPriority, TaskQueue, TaskType};
use voicetextrs::recording::{recorded_transcription, recorder_transition, RecorderEvent, RecorderStep};
use voicetextrs::records::{TranscriptionSource, TranscriptionStatus};
use voicetextrs::worker::RecordingState;

#[test]
fn recorder_cycle() {
    let (s, step) = recorder_transition(RecordingState::Idle, RecorderEvent::StartRequested);
    assert_eq!((s, step), (RecordingState::Idle, RecorderStep::BeginCapture));
    let (s, _) = recorder_transition(s, RecorderEvent::CaptureStarted);
    assert_eq!(s, RecordingState::Recording);
    assert_eq!(recorder_transition(s, RecorderEvent::StartRequested), (RecordingState::Recording, RecorderStep::Ignore));
    let (s, step) = recorder_transition(s, RecorderEvent::StopRequested);
    assert_eq!((s, step), (RecordingState::Processing, RecorderStep::EndCapture));
    assert_eq!(recorder_transition(s, RecorderEvent::StopRequested), (RecordingState::Processing, RecorderStep::Ignore));
    assert_eq!(recorder_transition(s, RecorderEvent::Finished), (RecordingState::Idle, RecorderStep::Done));
    assert_eq!(recorder_transition(RecordingState::Idle, RecorderEvent::StopRequested), (RecordingState::Idle, RecorderStep::Ignore));
    assert_eq!(recorder_transition(RecordingState::Idle, RecorderEvent::CaptureFailed), (RecordingState::Idle, RecorderStep::Done));
}

#[test]
fn finished_recording_record() {
    let r = recorded_transcription(
        "/home/u/notes/2024/2024-05-06/081500-voice-note.wav",
        "hi there".to_string(),
        "en".to_string(),
        3200,
        64000,
        1714983300,
        1714983310,
    );
    assert_eq!(r.id, "20240506081500");
    assert_eq!(r.audio_path, "2024/2024-05-06/081500-voice-note.wav");
    assert_eq!(r.text_path, Some("2024/2024-05-06/081500-voice-note.txt".to_string()));
    assert_eq!(r.status, TranscriptionStatus::Complete);
    assert_eq!(r.source, TranscriptionSource::Recording);
    assert_eq!(r.transcribed_at, Some(1714983310));
}

#[test]
fn explicit_orphan_enqueue() {
    let mut q = TaskQueue::new();
    let id = q.enqueue_orphan_task("20250810171500", "notes/2025/2025-08-10/171500-voice-note.mp3", 9).unwrap();
    let t = q.at(0);
    assert_eq!(t.id, id);
    assert_eq!(t.priority, TaskPriority::Low);
    match &t.task_type {
        TaskType::TranscribeOrphan { output_path, .. } => assert_eq!(output_path, "notes/2025/2025-08-10/171500-voice-note.txt"),
        _ => panic!("wrong task type"),
    }
}
