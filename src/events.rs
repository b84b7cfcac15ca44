//! Commands that the hotkeys, the tray and the user interface issue.
use vstd::prelude::*;

verus! {

/// A global hotkey was pressed.
#[derive(PartialEq, Eq, Structural, Clone, Copy, Debug)]
pub enum HotkeyEvent {
    RecordingToggle,
    QuickNote,
    ShowWindow,
}

/// A tray menu entry was chosen.
#[derive(PartialEq, Eq, Structural, Clone, Copy, Debug)]
pub enum TrayCommand {
    StartRecording,
    StopRecording,
    ShowWindow,
    OpenSettings,
    ToggleHotkeys,
    Exit,
}

/// What the user interface asks of the record list.
#[derive(Debug)]
pub struct TranscriptionFilter {
    pub status: Option<String>,
    pub source: Option<String>,
    pub search: Option<String>,
    pub limit: Option<i32>,
    pub offset: Option<i32>,
}

} // verus!
