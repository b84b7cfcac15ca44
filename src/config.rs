//! Application settings and their defaults.
use vstd::prelude::*;
use crate::text::copy_str;

verus! {

/// How a recording is started and stopped.
#[derive(PartialEq, Eq, Structural, Clone, Copy, Debug)]
pub enum RecordingMode {
    PushToTalk,
    Toggle,
    VoiceActivityDetection,
}

#[derive(Debug)]
pub struct AudioConfig {
    pub sample_rate: u32,
    pub channels: u16,
    pub buffer_size: usize,
    pub device: Option<String>,
}

#[derive(Debug)]
pub struct RecordingConfig {
    pub mode: RecordingMode,
    pub max_duration_seconds: u64,
    pub auto_stop_silence_ms: u64,
}

#[derive(Debug)]
pub struct HotkeyConfig {
    pub record: String,
    pub stop: String,
}

#[derive(Debug)]
pub struct WhisperConfig {
    pub model: String,
    pub language: String,
    pub threads: u32,
}

#[derive(Debug)]
pub struct StorageConfig {
    pub notes_directory: String,
    pub keep_audio_files: bool,
    pub auto_archive_days: u32,
    pub compression: bool,
}

#[derive(Debug)]
pub struct UiConfig {
    pub theme: String,
    pub minimize_to_tray: bool,
    pub show_notifications: bool,
}

#[derive(Debug)]
pub struct Config {
    pub audio: AudioConfig,
    pub recording: RecordingConfig,
    pub hotkeys: HotkeyConfig,
    pub whisper: WhisperConfig,
    pub storage: StorageConfig,
    pub ui: UiConfig,
}

/// A settings error.
#[derive(PartialEq, Eq, Structural, Clone, Copy, Debug)]
pub enum ConfigError {
    /// The settings could not be read or written.
    Unavailable,
}

/// The numbers and flags of the default settings.
pub open spec fn is_default_config(c: Config) -> bool {
    &&& c.audio.sample_rate == 16000
    &&& c.audio.channels == 1
    &&& c.audio.buffer_size == 1024
    &&& c.audio.device is None
    &&& c.recording.mode == RecordingMode::PushToTalk
    &&& c.recording.max_duration_seconds == 300
    &&& c.recording.auto_stop_silence_ms == 2000
    &&& c.hotkeys.record@ == "Ctrl+Space"@
    &&& c.hotkeys.stop@ == "Escape"@
    &&& c.whisper.model@ == "base"@
    &&& c.whisper.language@ == "en"@
    &&& c.whisper.threads == 4
    &&& c.storage.notes_directory@ == "./notes"@
    &&& c.storage.keep_audio_files
    &&& c.storage.auto_archive_days == 30
    &&& !c.storage.compression
    &&& c.ui.theme@ == "dark"@
    &&& c.ui.minimize_to_tray
    &&& c.ui.show_notifications
}

impl Config {
    /// The default settings.
    pub fn default_config() -> (r: Config)
        ensures
            is_default_config(r),
    {
        Config {
            audio: AudioConfig { sample_rate: 16000, channels: 1, buffer_size: 1024, device: None },
            recording: RecordingConfig {
                mode: RecordingMode::PushToTalk,
                max_duration_seconds: 300,
                auto_stop_silence_ms: 2000,
            },
            hotkeys: HotkeyConfig { record: copy_str("Ctrl+Space"), stop: copy_str("Escape") },
            whisper: WhisperConfig {
                model: copy_str("base"),
                language: copy_str("en"),
                threads: 4,
            },
            storage: StorageConfig {
                notes_directory: copy_str("./notes"),
                keep_audio_files: true,
                auto_archive_days: 30,
                compression: false,
            },
            ui: UiConfig {
                theme: copy_str("dark"),
                minimize_to_tray: true,
                show_notifications: true,
            },
        }
    }

    /// The settings in force: there is no settings file yet, so the defaults.
    pub fn load() -> (r: Result<Config, ConfigError>)
        ensures
            r matches Ok(c) && is_default_config(c),
    {
        Ok(Config::default_config())
    }

    /// Keeps the settings; there is no settings file yet, so nothing is
    /// written.
    pub fn save(&self) -> (r: Result<(), ConfigError>)
        ensures
            r is Ok,
    {
        Ok(())
    }
}

impl Default for Config {
    fn default() -> (r: Config)
        ensures
            is_default_config(r),
    {
        Config::default_config()
    }
}

} // verus!
