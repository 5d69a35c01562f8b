use audiover::hotkeys::{is_event_device, key_name_for_code};
use audiover::library::{
    library_copy_path, name_or_stem, new_record, owned_by_library, resolve_saved_path,
    restore_record, SoundLibrary, SoundRecord,
};
use audiover::soundboard::{play_by_hotkey, SOUND_ID_LEN};
use audiover::playback::{Playback, TrackCursor};

fn record(id: &str, name: &str, hotkey: Option<&str>) -> SoundRecord<u8> {
    restore_record(
        Some(id.to_string()),
        Some(name.to_string()),
        format!("/s/{}.wav", name),
        hotkey.map(|h| h.to_string()),
        None,
        None,
        0u8,
    )
}

#[test]
fn saved_sound_defaults() {
    let r = restore_record(None, None, "/music/horn.mp3".to_string(), None, None, None, 7u8);
    assert_eq!(r.id.len(), SOUND_ID_LEN);
    assert_eq!(r.name, "horn");
    assert_eq!(r.file_path, "/music/horn.mp3");
    assert_eq!(r.hotkey, None);
    assert!(!r.loop_playback);
    assert_eq!(r.category, "General");
    assert_eq!(r.extra, 7);
    let r2 = restore_record(
        Some("abc".to_string()),
        Some("Horn".to_string()),
        "/x/y.ogg".to_string(),
        Some("F5".to_string()),
        Some(true),
        Some("Memes".to_string()),
        1u8,
    );
    assert_eq!(r2.id, "abc");
    assert_eq!(r2.name, "Horn");
    assert_eq!(r2.hotkey.as_deref(), Some("F5"));
    assert!(r2.loop_playback);
    assert_eq!(r2.category, "Memes");
}

#[test]
fn saved_files_are_looked_up_in_the_library_folder() {
    assert_eq!(library_copy_path("/lib", "/old/place/horn.mp3"), "/lib/horn.mp3");
    assert_eq!(
        resolve_saved_path("/a".to_string(), true, "/b".to_string(), true),
        Some("/a".to_string())
    );
    assert_eq!(
        resolve_saved_path("/a".to_string(), false, "/b".to_string(), true),
        Some("/b".to_string())
    );
    assert_eq!(resolve_saved_path("/a".to_string(), false, "/b".to_string(), false), None);
    assert_eq!(name_or_stem(None, "/x/clip.final.wav"), "clip.final");
    assert_eq!(name_or_stem(Some("Given".to_string()), "/x/clip.wav"), "Given");
}

#[test]
fn added_sounds_get_a_fresh_id_and_library_copy() {
    let r = new_record("/home/u/horn.mp3", None, true, "/lib", None, false, 0u8);
    assert_eq!(r.id.len(), SOUND_ID_LEN);
    assert_eq!(r.name, "horn");
    assert_eq!(r.file_path, format!("/lib/{}_horn.mp3", r.id));
    assert_eq!(r.category, "General");
    let k = new_record("/home/u/horn.mp3", Some("Horn".to_string()), false, "/lib", Some("F2".to_string()), true, 0u8);
    assert_eq!(k.file_path, "/home/u/horn.mp3");
    assert_eq!(k.name, "Horn");
    assert!(k.loop_playback);
    assert_ne!(r.id, k.id);
}

#[test]
fn library_files_are_owned_by_component() {
    assert!(owned_by_library("/lib/sounds/a.wav", "/lib/sounds"));
    assert!(!owned_by_library("/lib/soundsx/a.wav", "/lib/sounds"));
    assert!(!owned_by_library("/elsewhere/a.wav", "/lib/sounds"));
}

#[test]
fn edit_and_remove_keep_order() {
    let mut lib: SoundLibrary<u8> = SoundLibrary::new();
    lib.add(record("a", "Alpha", None));
    lib.add(record("b", "Beta", Some("f5")));
    lib.add(record("c", "Gamma", Some("F6")));
    assert_eq!(lib.len(), 3);
    assert!(lib.update("a", Some(true), Some("F7".to_string()), Some(9)));
    assert!(!lib.update("zz", Some(true), None, None));
    let a = lib.get("a").unwrap();
    assert!(a.loop_playback);
    assert_eq!(a.hotkey.as_deref(), Some("F7"));
    assert_eq!(a.extra, 9);
    assert!(lib.update("b", None, Some("   ".to_string()), None));
    assert_eq!(lib.get("b").unwrap().hotkey, None);
    let ids = lib.sound_hotkeys();
    assert_eq!(
        ids,
        vec![
            ("a".to_string(), Some("F7".to_string())),
            ("b".to_string(), None),
            ("c".to_string(), Some("F6".to_string())),
        ]
    );
    assert_eq!(lib.named_hotkeys()[2].0, "Gamma");
    let removed = lib.remove("b").unwrap();
    assert_eq!(removed.name, "Beta");
    assert!(lib.remove("b").is_none());
    assert_eq!(lib.len(), 2);
    assert_eq!(lib.record_at(1).id, "c");
}

#[test]
fn library_hotkeys_drive_playback() {
    let mut lib: SoundLibrary<u8> = SoundLibrary::new();
    lib.add(record("a", "Alpha", Some("F7")));
    let mut p = Playback::new();
    p.insert("a", TrackCursor { position: 0, len: 10, is_playing: false, loop_playback: false });
    assert!(play_by_hotkey(&mut p, &lib.sound_hotkeys(), " f7 "));
    assert!(p.is_playing("a"));
}

#[test]
fn evdev_key_names() {
    assert_eq!(key_name_for_code(67), "F9");
    assert_eq!(key_name_for_code(30), "A");
    assert_eq!(key_name_for_code(2), "1");
    assert_eq!(key_name_for_code(79), "KP1");
    assert!(is_event_device("event3"));
    assert!(!is_event_device("mouse0"));
}

#[test]
fn user_edits_normalise_the_hotkey() {
    let mut lib: SoundLibrary<u8> = SoundLibrary::new();
    lib.add(record("a", "Alpha", Some("F1")));
    assert!(lib.edit_from_user("a", None, Some("  ctrl+x ".to_string()), None));
    assert_eq!(lib.get("a").unwrap().hotkey.as_deref(), Some("CTRL+X"));
    assert!(lib.edit_from_user("a", Some(true), Some("  ".to_string()), Some(3)));
    assert_eq!(lib.get("a").unwrap().hotkey, None);
    assert!(lib.get("a").unwrap().loop_playback);
    assert_eq!(lib.get("a").unwrap().extra, 3);
    assert!(!lib.edit_from_user("b", None, None, None));
}
