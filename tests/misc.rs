use voicetextrs::config::{Config, RecordingMode};
use voicetextrs::notices::{show_error, show_recording_started, show_recording_stopped, show_transcription_complete};
use voicetextrs::ports::PortManager;
use voicetextrs::transcriber::{whisper_candidates, Transcriber, TranscriberError};

#[test]
fn default_settings() {
    let c = Config::load().unwrap();
    assert_eq!(c.audio.sample_rate, 16000);
    assert_eq!(c.recording.mode, RecordingMode::PushToTalk);
    assert_eq!(c.hotkeys.record, "Ctrl+Space");
    assert_eq!(c.storage.notes_directory, "./notes");
    assert!(c.save().is_ok());
}

#[test]
fn notices_text() {
    assert_eq!(show_recording_started().title, "Recording Started");
    let n = show_recording_stopped(42);
    assert_eq!(n.message, "Recording saved (42 seconds). Transcribing...");
    assert_eq!(show_recording_stopped(0).message, "Recording saved (0 seconds). Transcribing...");
    assert_eq!(show_recording_stopped(1234567).message, "Recording saved (1234567 seconds). Transcribing...");
    assert_eq!(show_error("disk full").message, "disk full");
    assert_eq!(show_transcription_complete("short").message, "short");
    let long = "x".repeat(150);
    let m = show_transcription_complete(&long).message;
    assert_eq!(m, format!("{}...", "x".repeat(100)));
    let wide = "\u{e9}".repeat(60);
    assert_eq!(show_transcription_complete(&wide).message, format!("{}...", "\u{e9}".repeat(50)));
    let exact = "\u{e9}".repeat(50);
    assert_eq!(show_transcription_complete(&exact).message, exact);
    let mixed = format!("{}\u{e9}", "x".repeat(99));
    assert_eq!(show_transcription_complete(&mixed).message, format!("{}...", "x".repeat(99)));
}

#[test]
fn transcriber_paths() {
    assert_eq!(whisper_candidates().len(), 3);
    let t = Transcriber::new(Some("../../whisper/Release/whisper-cli.exe".to_string())).unwrap();
    assert_eq!(t.model_path, "../../whisper/models/ggml-medium.en.bin");
    let t = Transcriber::with_model("base", Some("Release/whisper-cli.exe".to_string())).unwrap();
    assert_eq!(t.model_path, "models/ggml-base.bin");
    assert_eq!(t.model_type, "base");
    assert_eq!(Transcriber::new(None).unwrap_err(), TranscriberError::WhisperNotFound);
    assert_eq!(Transcriber::new(Some(String::new())).unwrap_err(), TranscriberError::InvalidWhisperPath);
}

#[test]
fn port_candidates() {
    let p = PortManager::new(5173);
    let ports = p.candidate_ports();
    assert_eq!(ports.len(), 100);
    assert_eq!(ports[0], 5173);
    assert_eq!(ports[99], 5272);
    assert_eq!(PortManager::new(65500).candidate_ports().len(), 35);
}
