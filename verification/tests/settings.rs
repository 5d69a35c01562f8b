use audiover::hotkeys::watched_device;
use audiover::settings::{
    block_size_from_settings, hotkeys_from_settings, language_from_settings, saved_flag, saved_sounds,
    saved_text,
};

const SETTINGS: &str = r#"{
  "app": { "language": "en" },
  "audio": {
    "block_size": 512,
    "hear_myself": true,
    "input_device_name": "USB Mic",
    "mic_gain": 1.5
  },
  "voice_effects": { "active_preset": "Robot" },
  "hotkeys": { "mute_mic": " f1 ", "legacy": "F2", "stop_all": "  ", "bypass_dsp": 7 },
  "soundboard": {
    "sounds": [
      { "id": "1234abcd", "name": "Horn", "file_path": "/tmp/horn.mp3", "hotkey": "f5",
        "volume": 0.5, "loop": true, "category": "Fun", "duration_sec": 1.2 },
      { "file_path": "/tmp/bell.wav", "loop": "yes" }
    ]
  }
}"#;

#[test]
fn settings_hotkeys_override_defaults() {
    let m = hotkeys_from_settings(SETTINGS);
    assert_eq!(m.len(), 4);
    assert_eq!(m.get("mute_mic").as_deref(), Some("F1"));
    assert_eq!(m.get("legacy"), None);
    assert_eq!(m.get("stop_all").as_deref(), Some("F11"));
    assert_eq!(m.get("bypass_dsp").as_deref(), Some("F10"));
    assert_eq!(m.get("toggle_hear_myself").as_deref(), Some("F8"));
}

#[test]
fn unreadable_settings_give_the_defaults() {
    let m = hotkeys_from_settings("not json");
    assert_eq!(m.get("mute_mic").as_deref(), Some("F9"));
    assert_eq!(block_size_from_settings("not json"), 256);
    assert_eq!(language_from_settings("not json"), "tr");
    assert!(saved_sounds("not json").is_empty());
    assert!(saved_sounds("{}").is_empty());
}

#[test]
fn settings_audio_values() {
    assert_eq!(block_size_from_settings(SETTINGS), 512);
    assert_eq!(block_size_from_settings(r#"{"audio":{"block_size":10}}"#), 64);
    assert_eq!(block_size_from_settings(r#"{"audio":{"block_size":100000}}"#), 4096);
    assert_eq!(saved_text(SETTINGS, "audio", "input_device_name").as_deref(), Some("USB Mic"));
    assert_eq!(saved_text(SETTINGS, "audio", "monitor_device_name"), None);
    assert_eq!(saved_flag(SETTINGS, "audio", "hear_myself"), Some(true));
    assert_eq!(saved_flag(SETTINGS, "audio", "hear_soundboard"), None);
    assert_eq!(saved_text(SETTINGS, "voice_effects", "active_preset").as_deref(), Some("Robot"));
}

#[test]
fn settings_language() {
    assert_eq!(language_from_settings(SETTINGS), "en");
    assert_eq!(language_from_settings(r#"{"app":{"language":"de"}}"#), "tr");
}

#[test]
fn settings_saved_sounds_in_order() {
    let sounds = saved_sounds(SETTINGS);
    assert_eq!(sounds.len(), 2);
    let a = &sounds[0];
    assert_eq!(a.id.as_deref(), Some("1234abcd"));
    assert_eq!(a.name.as_deref(), Some("Horn"));
    assert_eq!(a.file_path.as_deref(), Some("/tmp/horn.mp3"));
    assert_eq!(a.hotkey.as_deref(), Some("f5"));
    assert_eq!(a.loop_playback, Some(true));
    assert_eq!(a.category.as_deref(), Some("Fun"));
    let b = &sounds[1];
    assert_eq!(b.id, None);
    assert_eq!(b.name, None);
    assert_eq!(b.file_path.as_deref(), Some("/tmp/bell.wav"));
    assert_eq!(b.hotkey, None);
    assert_eq!(b.loop_playback, None);
    assert_eq!(b.category, None);
}

#[test]
fn keyboards_are_watched() {
    assert!(watched_device(true, &vec![1, 30, 31]));
    assert!(watched_device(true, &vec![79]));
    assert!(!watched_device(false, &vec![30]));
    assert!(!watched_device(true, &vec![272, 273]));
    assert!(!watched_device(true, &vec![]));
}
