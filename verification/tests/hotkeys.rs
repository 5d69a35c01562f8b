use audiover::hotkeys::{
    debounced, action_label, default_bindings, is_known_action, normalize_key, BindOutcome, Dispatch,
    HotkeyManager,
};
use audiover::keymap::KeyMap;

fn count_runs(d: &Dispatch, id: &str, hits: &mut usize) -> bool {
    if *d == Dispatch::Action(id.to_string()) {
        *hits += 1;
        true
    } else {
        false
    }
}

#[test]
fn remap_action_updates_trigger_routing() {
    let mut mgr = HotkeyManager::new(false);
    let mut hits = 0usize;
    mgr.register_action("mute_mic", "F9");
    let d = mgr.trigger("F9");
    assert!(count_runs(&d, "mute_mic", &mut hits));
    assert_eq!(hits, 1);
    // Remap to a different key: old key stops working, new key works.
    assert_eq!(mgr.set_binding("mute_mic", "F7"), None);
    let d = mgr.trigger("F7");
    assert!(count_runs(&d, "mute_mic", &mut hits));
    assert_eq!(hits, 2);
}

#[test]
fn conflicting_remap_is_rejected() {
    let mut mgr = HotkeyManager::new(false);
    mgr.register_action("mute_mic", "F9");
    mgr.register_action("bypass_dsp", "F10");
    let conflict = mgr.set_binding("mute_mic", "F10");
    assert_eq!(conflict.as_deref(), Some("bypass_dsp"));
    // The binding it had stays.
    let status = mgr.get_status();
    let mute = status.hotkeys.iter().find(|h| h.id == "mute_mic").unwrap();
    assert_eq!(mute.key, "F9");
}

#[test]
fn status_reports_live_bindings_with_ids() {
    let mut saved = KeyMap::new();
    saved.insert("stop_all", "F6".to_string());
    let mgr = HotkeyManager::with_bindings(&saved, false);
    let status = mgr.get_status();
    assert_eq!(status.hotkeys.len(), 4);
    let stop = status.hotkeys.iter().find(|h| h.id == "stop_all").unwrap();
    assert_eq!(stop.key, "F6");
    // Unspecified ids fall back to defaults.
    let mute = status.hotkeys.iter().find(|h| h.id == "mute_mic").unwrap();
    assert_eq!(mute.key, "F9");
}

#[test]
fn old_key_is_unhandled_after_remap() {
    let mut mgr = HotkeyManager::new(false);
    mgr.register_action("mute_mic", "F9");
    assert_eq!(mgr.set_binding("mute_mic", "F7"), None);
    assert_eq!(mgr.route_key("F9"), Dispatch::Unhandled);
    assert_eq!(mgr.route_key("F7"), Dispatch::Action("mute_mic".to_string()));
}

#[test]
fn unbound_key_goes_to_fallback_when_set() {
    let mut mgr = HotkeyManager::new(false);
    assert_eq!(mgr.trigger("f1"), Dispatch::Unhandled);
    mgr.set_fallback();
    assert_eq!(mgr.trigger("f2"), Dispatch::Fallback("F2".to_string()));
    assert!(!Dispatch::Fallback("F2".to_string()).handled());
}

#[test]
fn direct_registration_routes_by_key() {
    let mut mgr = HotkeyManager::new(false);
    mgr.register(" ctrl+a ");
    assert_eq!(mgr.route_key("CTRL+A"), Dispatch::Direct("CTRL+A".to_string()));
    assert!(Dispatch::Direct("CTRL+A".to_string()).handled());
}

#[test]
fn repeated_press_is_debounced() {
    let mut mgr = HotkeyManager::new(false);
    mgr.register_action("stop_all", "F11");
    assert_eq!(mgr.trigger("F11"), Dispatch::Action("stop_all".to_string()));
    // The second press comes well within the debounce window.
    assert_eq!(mgr.trigger("F11"), Dispatch::Debounced);
}

#[test]
fn keys_are_normalised() {
    assert_eq!(normalize_key("  f9 "), "F9");
    assert_eq!(normalize_key(""), "");
    assert_eq!(normalize_key("ctrl+Shift+k"), "CTRL+SHIFT+K");
}

#[test]
fn fixed_actions_and_labels() {
    assert!(is_known_action("mute_mic"));
    assert!(is_known_action("toggle_hear_myself"));
    assert!(!is_known_action("launch_rockets"));
    assert_eq!(action_label("bypass_dsp"), "Bypass All DSP Effects");
    assert_eq!(action_label("unknown"), "unknown");
    let d = default_bindings();
    assert_eq!(d.len(), 4);
    assert_eq!(d.get("stop_all").as_deref(), Some("F11"));
    assert_eq!(d.get("toggle_hear_myself").as_deref(), Some("F8"));
}

#[test]
fn status_backend_follows_permission() {
    let mut mgr = HotkeyManager::new(true);
    let s = mgr.get_status();
    assert_eq!(s.backend, "evdev");
    assert!(s.has_permission);
    assert!(!s.is_running);
    assert!(mgr.start());
    assert!(mgr.is_running());
    assert!(!mgr.start());
    mgr.stop();
    assert!(!mgr.is_running());
    let s2 = HotkeyManager::new(false).get_status();
    assert_eq!(s2.backend, "in_window");
    assert_eq!(s2.hotkeys[0].action, "Mute Microphone");
}

#[test]
fn reset_restores_defaults() {
    let mut mgr = HotkeyManager::new(false);
    assert_eq!(mgr.set_binding("mute_mic", "F1"), None);
    assert_eq!(mgr.bindings_snapshot().get("mute_mic").as_deref(), Some("F1"));
    mgr.reset_bindings();
    assert_eq!(mgr.bindings_snapshot().get("mute_mic").as_deref(), Some("F9"));
}

#[test]
fn user_binding_outcomes() {
    let mut mgr = HotkeyManager::new(false);
    let sounds: Vec<(String, Option<String>)> = vec![
        ("Airhorn".to_string(), Some("f5".to_string())),
        ("Quiet".to_string(), None),
    ];
    assert_eq!(mgr.bind_from_user("nope", "F1", &sounds), BindOutcome::UnknownAction);
    assert_eq!(mgr.bind_from_user("mute_mic", "   ", &sounds), BindOutcome::EmptyKey);
    assert_eq!(
        mgr.bind_from_user("mute_mic", "ABCDEFGHIJKLMNOPQRSTU", &sounds),
        BindOutcome::InvalidKey
    );
    assert_eq!(
        mgr.bind_from_user("mute_mic", "f10", &sounds),
        BindOutcome::ConflictAction("bypass_dsp".to_string())
    );
    assert_eq!(
        mgr.bind_from_user("mute_mic", "F5", &sounds),
        BindOutcome::ConflictSound("Airhorn".to_string())
    );
    assert_eq!(
        mgr.bind_from_user("mute_mic", "f2", &sounds),
        BindOutcome::Bound { action_id: "mute_mic".to_string(), key: "F2".to_string() }
    );
    assert_eq!(mgr.bindings_snapshot().get("mute_mic").as_deref(), Some("F2"));
}

#[test]
fn empty_key_unbinds_the_action() {
    let mut mgr = HotkeyManager::new(false);
    mgr.register_action("mute_mic", "F9");
    assert_eq!(mgr.set_binding("mute_mic", "   "), None);
    assert_eq!(mgr.bindings_snapshot().get("mute_mic"), None);
    assert_eq!(mgr.route_key(""), Dispatch::Unhandled);
    assert_eq!(mgr.route_key("F9"), Dispatch::Unhandled);
}

#[test]
fn debounce_window_is_150_ms_per_key() {
    assert!(debounced(0));
    assert!(debounced(149));
    assert!(!debounced(150));
    let mut mgr = HotkeyManager::new(false);
    mgr.register_action("stop_all", "F11");
    let hit = Dispatch::Action("stop_all".to_string());
    assert_eq!(mgr.trigger_at("F11", 1000), hit);
    assert_eq!(mgr.trigger_at("f11", 1149), Dispatch::Debounced);
    // A debounced press does not move the window.
    assert_eq!(mgr.trigger_at("F11", 1150), hit);
    // Another key has its own window.
    assert_eq!(mgr.trigger_at("F1", 1151), Dispatch::Unhandled);
    assert_eq!(mgr.trigger_at("F11", 1299), Dispatch::Debounced);
    assert_eq!(mgr.trigger_at("F11", 1300), hit);
}

#[test]
fn bind_request_passing_every_check_binds() {
    let mut mgr = HotkeyManager::new(false);
    let sounds: Vec<(String, Option<String>)> = vec![("Horn".to_string(), Some("F5".to_string()))];
    assert_eq!(
        mgr.bind_from_user(" stop_all ", "ctrl+k", &sounds),
        BindOutcome::Bound { action_id: "stop_all".to_string(), key: "CTRL+K".to_string() }
    );
    assert_eq!(mgr.route_key("CTRL+K"), Dispatch::Unhandled);
    assert_eq!(mgr.bindings_snapshot().get("stop_all").as_deref(), Some("CTRL+K"));
}
