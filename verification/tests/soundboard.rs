use audiover::playback::{Playback, TrackCursor};
use audiover::settings::load_persisted_hotkeys;
use audiover::soundboard::{
    default_category, library_file_name, new_sound_id, normalize_sound_hotkey, play_by_hotkey,
    short_id, sound_for_hotkey, stored_hotkey, SOUND_ID_LEN,
};

fn sounds() -> Vec<(String, Option<String>)> {
    vec![
        ("a1".to_string(), None),
        ("b2".to_string(), Some(" f5 ".to_string())),
        ("c3".to_string(), Some("F5".to_string())),
    ]
}

#[test]
fn new_ids_are_eight_lower_hex_digits() {
    let id = new_sound_id();
    assert_eq!(id.len(), SOUND_ID_LEN);
    assert!(id.chars().all(|c| c.is_ascii_hexdigit() && !c.is_ascii_uppercase()));
    assert_eq!(short_id("1234abcd-0000-4000-8000-000000000000"), "1234abcd");
}

#[test]
fn library_names_and_categories() {
    assert_eq!(library_file_name("1234abcd", "horn.mp3"), "1234abcd_horn.mp3");
    assert_eq!(default_category(), "General");
    assert_eq!(normalize_sound_hotkey(" ctrl+1 "), "CTRL+1");
    assert_eq!(stored_hotkey("  ".to_string()), None);
    assert_eq!(stored_hotkey(" f1".to_string()), Some(" f1".to_string()));
}

#[test]
fn first_sound_answering_a_hotkey() {
    let s = sounds();
    assert_eq!(sound_for_hotkey(&s, "F5"), Some("b2".to_string()));
    assert_eq!(sound_for_hotkey(&s, " f5"), Some("b2".to_string()));
    assert_eq!(sound_for_hotkey(&s, "F6"), None);
}

#[test]
fn hotkey_toggles_the_sound() {
    let s = sounds();
    let mut p = Playback::new();
    p.insert("b2", TrackCursor { position: 10, len: 100, is_playing: false, loop_playback: false });
    assert!(play_by_hotkey(&mut p, &s, "f5"));
    assert!(p.is_playing("b2"));
    assert_eq!(p.cursor("b2").unwrap().position, 0);
    assert!(play_by_hotkey(&mut p, &s, "F5"));
    assert!(!p.is_playing("b2"));
    assert!(!play_by_hotkey(&mut p, &s, "F12"));
}

#[test]
fn persisted_hotkeys_override_defaults() {
    let entries: Vec<(String, Option<String>)> = vec![
        ("mute_mic".to_string(), Some(" f1 ".to_string())),
        ("legacy_key".to_string(), Some("F2".to_string())),
        ("stop_all".to_string(), Some("   ".to_string())),
        ("bypass_dsp".to_string(), None),
    ];
    let m = load_persisted_hotkeys(&entries);
    assert_eq!(m.len(), 4);
    assert_eq!(m.get("mute_mic").as_deref(), Some("F1"));
    assert_eq!(m.get("legacy_key"), None);
    assert_eq!(m.get("stop_all").as_deref(), Some("F11"));
    assert_eq!(m.get("bypass_dsp").as_deref(), Some("F10"));
    assert_eq!(m.get("toggle_hear_myself").as_deref(), Some("F8"));
}
