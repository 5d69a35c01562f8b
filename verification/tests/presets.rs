use audiover::presets::{
    builtin_name, initial_language, is_builtin_preset, is_supported_language, PresetBook,
    PresetError, BUILTIN_COUNT, CLEAN,
};
use audiover::table::Table;

fn book() -> PresetBook<u32> {
    let mut t: Table<u32> = Table::new();
    for i in 0..BUILTIN_COUNT {
        t.insert(builtin_name(i), i as u32);
    }
    PresetBook::new(t, None)
}

#[test]
fn builtin_presets_are_known() {
    assert_eq!(builtin_name(0), "Clean");
    assert_eq!(builtin_name(5), "Chipmunk");
    assert!(is_builtin_preset("Radio / Walkie-Talkie"));
    assert!(!is_builtin_preset("clean"));
    assert!(!is_builtin_preset("MyVoice"));
    assert_eq!(CLEAN, "Clean");
}

#[test]
fn saved_active_preset_is_restored_only_when_it_exists() {
    let mut t: Table<u32> = Table::new();
    t.insert("Clean", 0);
    t.insert("Robot", 3);
    let b = PresetBook::new(t, Some("Robot"));
    assert_eq!(b.active_name(), "Robot");
    let mut t2: Table<u32> = Table::new();
    t2.insert("Clean", 0);
    let b2 = PresetBook::new(t2, Some("Gone"));
    assert_eq!(b2.active_name(), "Clean");
}

#[test]
fn create_apply_delete_custom_preset() {
    let mut b = book();
    assert_eq!(b.create("  MyVoice ", 42), Ok("MyVoice".to_string()));
    assert_eq!(b.active_name(), "MyVoice");
    assert_eq!(b.get("MyVoice"), Some(&42));
    assert_eq!(b.len(), BUILTIN_COUNT + 1);
    assert_eq!(b.apply("Robot"), Ok(()));
    assert_eq!(b.active_name(), "Robot");
    assert_eq!(b.apply("Nope"), Err(PresetError::NotFound));
    assert_eq!(b.active_name(), "Robot");
    assert_eq!(b.delete("MyVoice"), Ok(false));
    assert_eq!(b.get("MyVoice"), None);
    assert_eq!(b.active_name(), "Robot");
}

#[test]
fn deleting_the_active_preset_falls_back_to_clean() {
    let mut b = book();
    assert_eq!(b.create("Mine", 7), Ok("Mine".to_string()));
    assert_eq!(b.delete("Mine"), Ok(true));
    assert_eq!(b.active_name(), "Clean");
}

#[test]
fn preset_errors() {
    let mut b = book();
    assert_eq!(b.create("   ", 1), Err(PresetError::EmptyName));
    assert_eq!(b.create(" Robot ", 1), Err(PresetError::BuiltIn));
    assert_eq!(b.delete("Robot"), Err(PresetError::BuiltIn));
    assert_eq!(b.delete("Unknown"), Err(PresetError::NotFound));
    assert_eq!(b.reset("Mine", 0), Err(PresetError::NotResettable));
    assert_eq!(b.save("", 0), Err(PresetError::EmptyName));
    assert_eq!(b.len(), BUILTIN_COUNT);
}

#[test]
fn save_reset_and_live_update() {
    let mut b = book();
    assert_eq!(b.save(" Robot ", 99), Ok("Robot".to_string()));
    assert_eq!(b.get("Robot"), Some(&99));
    assert_eq!(b.active_name(), "Clean");
    assert_eq!(b.reset("Robot", 3), Ok(()));
    assert_eq!(b.get("Robot"), Some(&3));
    assert!(b.update_active(11));
    assert_eq!(b.get("Clean"), Some(&11));
    let names = b.names();
    assert_eq!(names.len(), BUILTIN_COUNT);
    assert!(names.iter().any(|n| n == "Alien"));
}

#[test]
fn languages() {
    assert!(is_supported_language("tr"));
    assert!(is_supported_language("en"));
    assert!(!is_supported_language("de"));
    assert_eq!(initial_language(Some("en")), "en");
    assert_eq!(initial_language(Some("fr")), "tr");
    assert_eq!(initial_language(None), "tr");
}
