use voicetextrs::ids::{date_from_dir, derive_id, extract_date_path, generate_id_from_filename, normalize_audio_path};
use voicetextrs::paths::{file_id_of, is_audio_file, path_timestamp_of, pick_timestamp, text_path_for};

#[test]
fn test_normalize_audio_path() {
    let cases = vec![
        (r"D:\projects\voice\voicetextrs\notes\2025\2025-08-10\160626-voice-note.wav", "2025/2025-08-10/160626-voice-note.wav"),
        (r"\\?\D:\projects\voice\voicetextrs\notes\2025\2025-08-10\160626-voice-note.wav", "2025/2025-08-10/160626-voice-note.wav"),
        (r"notes/2025/2025-08-10/160626-voice-note.wav", "2025/2025-08-10/160626-voice-note.wav"),
        (r"C:\Users\test\notes\2025\2025-08-10\test.wav", "2025/2025-08-10/test.wav"),
    ];

    for (input, expected) in cases {
        assert_eq!(normalize_audio_path(input), expected);
    }
}

#[test]
fn test_generate_id_from_filename() {
    let cases = vec![
        ("160626-voice-note.wav", "20250810160626"),
        ("20250810-160626-voice-note.wav", "20250810160626"),
        ("test.wav", "test"),
        ("160626.wav", "20250810160626"),
        ("125633-voice-note.wav", "20250810125633"),
    ];

    for (input, expected) in cases {
        assert_eq!(generate_id_from_filename(input), expected);
    }
}

#[test]
fn spellings_of_one_file_normalize_alike() {
    let a = normalize_audio_path(r"D:\x\notes\2025\2025-08-10\160626-voice-note.wav");
    let b = normalize_audio_path(r"\\?\D:\x\notes\2025\2025-08-10\160626-voice-note.wav");
    let c = normalize_audio_path("notes/2025/2025-08-10/160626-voice-note.wav");
    assert_eq!(a, "2025/2025-08-10/160626-voice-note.wav");
    assert_eq!(a, b);
    assert_eq!(b, c);
}

#[test]
fn normalize_without_notes_root_uses_year_segment() {
    assert_eq!(normalize_audio_path(r"E:\audio\2024\2024-01-15\143022.wav"), "2024/2024-01-15/143022.wav");
}

#[test]
fn normalize_falls_back_to_file_name() {
    assert_eq!(normalize_audio_path("/tmp/memo.wav"), "memo.wav");
    assert_eq!(normalize_audio_path(r"C:\tmp\memo.wav"), "memo.wav");
    assert_eq!(normalize_audio_path("memo.wav"), "memo.wav");
    assert_eq!(normalize_audio_path(""), "");
}

#[test]
fn normalize_trims_separators_after_root() {
    assert_eq!(normalize_audio_path(r"notes\/\x.wav"), "x.wav");
    assert_eq!(normalize_audio_path(r"x/notes/\a.wav"), "a.wav");
}

#[test]
fn derive_id_takes_date_from_directory() {
    assert_eq!(derive_id("160626-voice-note.wav", "2025-08-10"), "20250810160626");
    assert_eq!(derive_id("093000-voice-note.wav", "2024-02-29"), "20240229093000");
    assert_eq!(derive_id("20250810-160626-voice-note.wav", "2023-01-01"), "20250810160626");
    assert_eq!(derive_id("093000-voice-note.wav", "misc"), "20250810093000");
}

#[test]
fn id_from_long_digit_runs() {
    assert_eq!(generate_id_from_filename("20250810160626.wav"), "20250810160626");
    assert_eq!(generate_id_from_filename("rec_2025_08_10_16_06_26_extra.wav"), "20250810160626");
    assert_eq!(generate_id_from_filename("take-12345678.wav"), "20250810123456");
    assert_eq!(generate_id_from_filename("a-b.c.d"), "a-b");
}

#[test]
fn date_from_dir_accepts_only_dates() {
    assert_eq!(date_from_dir("2025-08-10"), Some("20250810".to_string()));
    assert_eq!(date_from_dir("2025-8-10"), None);
    assert_eq!(date_from_dir("2025x08-10"), None);
    assert_eq!(date_from_dir("20a5-08-10"), None);
}

#[test]
fn file_id_of_full_path() {
    assert_eq!(file_id_of("/home/u/notes/2024/2024-03-05/101500-voice-note.wav"), "20240305101500");
    assert_eq!(file_id_of("101500-voice-note.wav"), "20250810101500");
}

#[test]
fn audio_extensions() {
    assert!(is_audio_file("a/b/c.wav"));
    assert!(is_audio_file("c.mp3"));
    assert!(is_audio_file("c.m4a"));
    assert!(is_audio_file("x.y.ogg"));
    assert!(!is_audio_file("c.txt"));
    assert!(!is_audio_file(".wav"));
    assert!(!is_audio_file("wav"));
    assert!(!is_audio_file("c.WAV"));
}

#[test]
fn text_path_replaces_extension() {
    assert_eq!(text_path_for("notes/2025/2025-08-10/160626-voice-note.wav"), "notes/2025/2025-08-10/160626-voice-note.txt");
    assert_eq!(text_path_for("a.b/c"), "a.b/c.txt");
    assert_eq!(text_path_for("dir/.hidden"), "dir/.hidden.txt");
}

#[test]
fn timestamp_from_path_convention() {
    assert_eq!(path_timestamp_of("notes/2025/2025-08-10/160626-voice-note.wav"), Some(1754841986));
    assert_eq!(path_timestamp_of("notes/2025/2025-02-30/160626-voice-note.wav"), None);
    assert_eq!(path_timestamp_of("notes/2025/2025-08-10/256626-voice-note.wav"), None);
    assert_eq!(path_timestamp_of("notes/misc/160626-voice-note.wav"), None);
}

#[test]
fn timestamp_selection_order() {
    let p = "notes/2025/2025-08-10/160626-voice-note.wav";
    assert_eq!(pick_timestamp(Some(5), Some(6), p, 7), 5);
    assert_eq!(pick_timestamp(None, Some(6), p, 7), 6);
    assert_eq!(pick_timestamp(None, None, p, 7), 1754841986);
    assert_eq!(pick_timestamp(None, None, "x.wav", 7), 7);
}

#[test]
fn date_path_extraction() {
    assert_eq!(extract_date_path(r"E:\a\2024\2024-01-15\x.wav"), Some("2024/2024-01-15/x.wav".to_string()));
    assert_eq!(extract_date_path("abc2024"), None);
    assert_eq!(extract_date_path("no digits"), None);
}

#[test]
fn notes_root_is_a_whole_component() {
    assert_eq!(normalize_audio_path(r"C:\voicenotes\notes\2025\2025-08-10\a.wav"), "2025/2025-08-10/a.wav");
    assert_eq!(normalize_audio_path(r"C:\voicenotes\2025\2025-08-10\a.wav"), "2025/2025-08-10/a.wav");
    assert_eq!(normalize_audio_path("/srv/mynotes/a.wav"), "a.wav");
}

#[test]
fn date_segment_needs_year_and_date_components() {
    assert_eq!(normalize_audio_path(r"C:\Users\u1234\2025\2025-08-10\a.wav"), "2025/2025-08-10/a.wav");
    assert_eq!(normalize_audio_path(r"C:\Users\u1234\2025\misc\a.wav"), "a.wav");
}

#[test]
fn id_from_first_hyphen_part() {
    assert_eq!(generate_id_from_filename("160626-extra.wav"), "20250810160626");
    assert_eq!(derive_id("093000-meeting-notes.m4a", "2024-03-01"), "20240301093000");
}

#[test]
fn timestamps_across_calendar_edges() {
    assert_eq!(path_timestamp_of("notes/2024/2024-02-29/000000.wav"), Some(1709164800));
    assert_eq!(path_timestamp_of("notes/1969/1969-12-31/235959.wav"), Some(-1));
    assert_eq!(path_timestamp_of("notes/2023/2023-02-29/000000.wav"), None);
}
