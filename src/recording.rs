//! The recorder's state and the record that a finished recording makes.
//! Capturing audio and running the engine are left to the application.
use vstd::prelude::*;
use crate::ids::{normalize_audio_path, normalized_path};
use crate::paths::{file_id, file_id_of, text_path_for, text_path_of};
use crate::records::{Transcription, TranscriptionSource, TranscriptionStatus};
use crate::text::copy_str;
use crate::worker::RecordingState;

verus! {

/// What happened to the recorder.
#[derive(PartialEq, Eq, Structural, Clone, Copy, Debug)]
pub enum RecorderEvent {
    /// The user asked to start recording.
    StartRequested,
    /// The audio device began capturing.
    CaptureStarted,
    /// The audio device could not start.
    CaptureFailed,
    /// The user asked to stop recording.
    StopRequested,
    /// The recording was transcribed, or its transcription failed.
    Finished,
}

/// What the application does next with the recorder.
#[derive(PartialEq, Eq, Structural, Clone, Copy, Debug)]
pub enum RecorderStep {
    /// Nothing: the request does not fit the recorder's state.
    Ignore,
    /// Start capturing audio.
    BeginCapture,
    /// Stop capturing, then transcribe the file.
    EndCapture,
    /// Nothing more to do.
    Done,
}

/// The recorder's next state and step: a start is taken only when idle, a
/// stop only while recording; a stopped recording is processed, then the
/// recorder is idle again.
pub fn recorder_transition(state: RecordingState, event: RecorderEvent) -> (r: (
    RecordingState,
    RecorderStep,
))
    ensures
        event == RecorderEvent::StartRequested ==> r == if state == RecordingState::Idle {
            (RecordingState::Idle, RecorderStep::BeginCapture)
        } else {
            (state, RecorderStep::Ignore)
        },
        event == RecorderEvent::CaptureStarted ==> r == if state == RecordingState::Idle {
            (RecordingState::Recording, RecorderStep::Done)
        } else {
            (state, RecorderStep::Ignore)
        },
        event == RecorderEvent::CaptureFailed ==> r == (state, RecorderStep::Done),
        event == RecorderEvent::StopRequested ==> r == if state == RecordingState::Recording {
            (RecordingState::Processing, RecorderStep::EndCapture)
        } else {
            (state, RecorderStep::Ignore)
        },
        event == RecorderEvent::Finished ==> r == if state == RecordingState::Processing {
            (RecordingState::Idle, RecorderStep::Done)
        } else {
            (state, RecorderStep::Ignore)
        },
{
    match event {
        RecorderEvent::StartRequested => if state == RecordingState::Idle {
            (RecordingState::Idle, RecorderStep::BeginCapture)
        } else {
            (state, RecorderStep::Ignore)
        },
        RecorderEvent::CaptureStarted => if state == RecordingState::Idle {
            (RecordingState::Recording, RecorderStep::Done)
        } else {
            (state, RecorderStep::Ignore)
        },
        RecorderEvent::CaptureFailed => (state, RecorderStep::Done),
        RecorderEvent::StopRequested => if state == RecordingState::Recording {
            (RecordingState::Processing, RecorderStep::EndCapture)
        } else {
            (state, RecorderStep::Ignore)
        },
        RecorderEvent::Finished => if state == RecordingState::Processing {
            (RecordingState::Idle, RecorderStep::Done)
        } else {
            (state, RecorderStep::Ignore)
        },
    }
}

/// The record of a recording at `audio_path` that was transcribed at `now`
/// into `text`: complete, with the id and paths that reconciliation would
/// give the same file.
pub fn recorded_transcription(
    audio_path: &str,
    text: String,
    language: String,
    duration_ms: u64,
    file_size_bytes: u64,
    created_at: i64,
    now: i64,
) -> (r: Transcription)
    ensures
        r.id@ == file_id(audio_path@),
        r.audio_path@ == normalized_path(audio_path@),
        r.text_path matches Some(p) && p@ == normalized_path(text_path_of(audio_path@)),
        r.transcription_text == Some(text),
        r.created_at == created_at,
        r.transcribed_at == Some(now),
        r.duration_ms == duration_ms,
        r.file_size_bytes == file_size_bytes,
        r.language == language,
        r.status == TranscriptionStatus::Complete,
        r.source == TranscriptionSource::Recording,
        r.error_message is None,
{
    let text_path = text_path_for(audio_path);
    Transcription {
        id: file_id_of(audio_path),
        audio_path: normalize_audio_path(audio_path),
        text_path: Some(normalize_audio_path(text_path.as_str())),
        transcription_text: Some(text),
        created_at,
        transcribed_at: Some(now),
        duration_ms,
        file_size_bytes,
        language,
        model: copy_str("base.en"),
        status: TranscriptionStatus::Complete,
        source: TranscriptionSource::Recording,
        error_message: None,
    }
}

} // verus!
