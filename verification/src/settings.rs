//! Settings restored at start-up from the settings file's text: hotkey
//! bindings, saved sounds, the saved block size, device names, active
//! preset and language. Reading
//! the JSON is serde_json's; what is made of it is verified here.
use vstd::prelude::*;
use crate::config;
use crate::hotkeys;
use crate::keymap::KeyMap;
use crate::library::opt_text;
use crate::presets;
use crate::text;

verus! {

// ----------------------------------------------------------------------
// Trusted items: reading the settings JSON
// ----------------------------------------------------------------------

/// The entries of the `hotkeys` object of a settings text, in the order
/// serde_json's map gives them: each key with its value when that is a
/// string. None when the text is not JSON or has no such object.
pub uninterp spec fn json_hotkeys(settings: Seq<char>) -> Seq<(Seq<char>, Option<Seq<char>>)>;

/// The string at `section.key` of a settings text, if there is one.
pub uninterp spec fn json_text(settings: Seq<char>, section: Seq<char>, key: Seq<char>) -> Option<Seq<char>>;

/// The unsigned integer at `section.key` of a settings text, if there is
/// one.
pub uninterp spec fn json_u64(settings: Seq<char>, section: Seq<char>, key: Seq<char>) -> Option<u64>;

/// The boolean at `section.key` of a settings text, if there is one.
pub uninterp spec fn json_bool(settings: Seq<char>, section: Seq<char>, key: Seq<char>) -> Option<bool>;

/// The characters of `(name, value)` entries.
pub open spec fn entry_texts(v: Seq<(String, Option<String>)>) -> Seq<(Seq<char>, Option<Seq<char>>)> {
    v.map_values(
        |e: (String, Option<String>)|
            (
                e.0@,
                match e.1 {
                    Some(s) => Some(s@),
                    None => None,
                },
            ),
    )
}

/// Parses `settings` with `serde_json::from_str` and lists the `hotkeys`
/// object's entries with `as_object` and `as_str`. Claimed: the entries
/// are `json_hotkeys` of the text.
#[verifier::external_body]
fn hotkey_entries_of(settings: &str) -> (r: Vec<(String, Option<String>)>)
    ensures
        entry_texts(r@) == json_hotkeys(settings@),
{
    let value: serde_json::Value = serde_json::from_str(settings).unwrap_or(serde_json::Value::Null);
    match value.get("hotkeys").and_then(|h| h.as_object()) {
        Some(map) => map.iter().map(|(k, v)| (k.clone(), v.as_str().map(|s| s.to_string()))).collect(),
        None => Vec::new(),
    }
}

/// Parses `settings` with `serde_json::from_str` and reads `section.key`
/// with `get` and `as_str`. Claimed: the result is `json_text` of the
/// three.
#[verifier::external_body]
fn text_at(settings: &str, section: &str, key: &str) -> (r: Option<String>)
    ensures
        opt_text(r) == json_text(settings@, section@, key@),
{
    let value: serde_json::Value = serde_json::from_str(settings).unwrap_or(serde_json::Value::Null);
    value.get(section).and_then(|s| s.get(key)).and_then(|v| v.as_str()).map(|s| s.to_string())
}

/// Parses `settings` with `serde_json::from_str` and reads `section.key`
/// with `get` and `as_u64`. Claimed: the result is `json_u64` of the
/// three.
#[verifier::external_body]
fn u64_at(settings: &str, section: &str, key: &str) -> (r: Option<u64>)
    ensures
        r == json_u64(settings@, section@, key@),
{
    let value: serde_json::Value = serde_json::from_str(settings).unwrap_or(serde_json::Value::Null);
    value.get(section).and_then(|s| s.get(key)).and_then(|v| v.as_u64())
}

/// The number of entries of the `soundboard.sounds` array of a settings
/// text (none when the text is not JSON or has no such array).
pub uninterp spec fn json_sound_count(settings: Seq<char>) -> nat;

/// The string under `key` of each entry of `soundboard.sounds`, when it is
/// one.
pub uninterp spec fn json_sound_texts(settings: Seq<char>, key: Seq<char>) -> Seq<Option<Seq<char>>>;

/// The boolean under `key` of each entry of `soundboard.sounds`, when it
/// is one.
pub uninterp spec fn json_sound_flags(settings: Seq<char>, key: Seq<char>) -> Seq<Option<bool>>;

/// Parses `settings` with `serde_json::from_str`, takes the
/// `soundboard.sounds` array with `get` and `as_array`, and reads `key` of
/// each entry with `get` and `as_str`. Claimed: one result per entry, and
/// the results are `json_sound_texts` of the text and key.
#[verifier::external_body]
fn sound_texts(settings: &str, key: &str) -> (r: Vec<Option<String>>)
    ensures
        r@.len() == json_sound_count(settings@),
        r@.map_values(|o: Option<String>| opt_text(o)) == json_sound_texts(settings@, key@),
{
    let value: serde_json::Value = serde_json::from_str(settings).unwrap_or(serde_json::Value::Null);
    match value.get("soundboard").and_then(|b| b.get("sounds")).and_then(|a| a.as_array()) {
        Some(items) => items.iter().map(|v| v.get(key).and_then(|x| x.as_str()).map(|x| x.to_string())).collect(),
        None => Vec::new(),
    }
}

/// As `sound_texts`, reading each entry's `key` with `as_bool`. Claimed:
/// one result per entry, and the results are `json_sound_flags` of the
/// text and key.
#[verifier::external_body]
fn sound_flags(settings: &str, key: &str) -> (r: Vec<Option<bool>>)
    ensures
        r@.len() == json_sound_count(settings@),
        r@ == json_sound_flags(settings@, key@),
{
    let value: serde_json::Value = serde_json::from_str(settings).unwrap_or(serde_json::Value::Null);
    match value.get("soundboard").and_then(|b| b.get("sounds")).and_then(|a| a.as_array()) {
        Some(items) => items.iter().map(|v| v.get(key).and_then(|x| x.as_bool())).collect(),
        None => Vec::new(),
    }
}

/// Parses `settings` with `serde_json::from_str` and reads `section.key`
/// with `get` and `as_bool`. Claimed: the result is `json_bool` of the
/// three.
#[verifier::external_body]
fn bool_at(settings: &str, section: &str, key: &str) -> (r: Option<bool>)
    ensures
        r == json_bool(settings@, section@, key@),
{
    let value: serde_json::Value = serde_json::from_str(settings).unwrap_or(serde_json::Value::Null);
    value.get(section).and_then(|s| s.get(key)).and_then(|v| v.as_bool())
}

// ----------------------------------------------------------------------
// Hotkeys
// ----------------------------------------------------------------------

/// The bindings restored from the persisted `hotkeys` entries
/// `(action id, value)`, taken in order over the defaults: an entry of a
/// fixed action whose value is a string that is not empty once normalised
/// binds the action to it; other entries are dropped.
pub open spec fn persisted(entries: Seq<(Seq<char>, Option<Seq<char>>)>) -> Map<Seq<char>, Seq<char>>
    decreases entries.len(),
{
    if entries.len() == 0 {
        hotkeys::default_map()
    } else {
        let m = persisted(entries.drop_last());
        let e = entries.last();
        match e.1 {
            Some(v) => if hotkeys::known(e.0) && text::normalized(v).len() > 0 {
                m.insert(e.0, text::normalized(v))
            } else {
                m
            },
            None => m,
        }
    }
}

/// Restored bindings cover exactly the fixed actions: entries for other
/// ids never add a binding, and no fixed action loses its binding.
pub proof fn law_persisted_covers_actions(entries: Seq<(Seq<char>, Option<Seq<char>>)>)
    ensures
        forall|x: Seq<char>| #[trigger] persisted(entries).contains_key(x) <==> hotkeys::known(x),
    decreases entries.len(),
{
    if entries.len() > 0 {
        let rest = entries.drop_last();
        law_persisted_covers_actions(rest);
        assert forall|x: Seq<char>| #[trigger] persisted(entries).contains_key(x) <==> hotkeys::known(x) by {
            assert(persisted(rest).contains_key(x) <==> hotkeys::known(x));
        }
    } else {
        assert forall|x: Seq<char>| #[trigger] persisted(entries).contains_key(x) <==> hotkeys::known(x) by {
            assert(hotkeys::default_map().contains_key(x) <==> hotkeys::known(x));
        }
    }
}

/// Restores the hotkey bindings from the persisted `hotkeys` entries
/// `(action id, value)` (`None` for a value that is not a string): unknown
/// ids and empty keys are dropped; actions not mentioned keep their
/// default keys.
pub fn load_persisted_hotkeys(entries: &Vec<(String, Option<String>)>) -> (m: KeyMap)
    ensures
        m.wf(),
        m@ == persisted(entry_texts(entries@)),
{
    let ghost all = entry_texts(entries@);
    let mut m = hotkeys::default_bindings();
    let mut i: usize = 0;
    assert(all.subrange(0, 0) =~= Seq::<(Seq<char>, Option<Seq<char>>)>::empty());
    while i < entries.len()
        invariant
            0 <= i <= entries.len(),
            all == entry_texts(entries@),
            all.len() == entries.len(),
            m.wf(),
            m@ == persisted(all.subrange(0, i as int)),
        decreases entries.len() - i,
    {
        proof {
            assert(all.subrange(0, i + 1).drop_last() =~= all.subrange(0, i as int));
            assert(all.subrange(0, i + 1).last() == all[i as int]);
        }
        let id = entries[i].0.as_str();
        if let Some(v) = &entries[i].1 {
            if hotkeys::is_known_action(id) {
                let normalized = hotkeys::normalize_key(v.as_str());
                if !normalized.as_str().is_empty() {
                    m.insert(id, normalized);
                }
            }
        }
        i += 1;
    }
    assert(all.subrange(0, all.len() as int) =~= all);
    m
}

/// The hotkey bindings a settings text restores: its `hotkeys` entries
/// over the defaults (see `persisted`); the defaults when the text is not
/// JSON or has no `hotkeys` object.
pub fn hotkeys_from_settings(settings: &str) -> (m: KeyMap)
    ensures
        m.wf(),
        m@ == persisted(json_hotkeys(settings@)),
{
    let entries = hotkey_entries_of(settings);
    load_persisted_hotkeys(&entries)
}

// ----------------------------------------------------------------------
// Saved sounds
// ----------------------------------------------------------------------

/// A sound saved under `soundboard.sounds`, field by field as the settings
/// text holds it: `None` where the field is missing or of another kind.
/// Its volume and length are read by the caller.
pub struct SavedSound {
    pub id: Option<String>,
    pub name: Option<String>,
    pub file_path: Option<String>,
    pub hotkey: Option<String>,
    pub loop_playback: Option<bool>,
    pub category: Option<String>,
}

/// `s` holds the fields of entry `i` of the settings text's saved sounds.
pub open spec fn saved_sound_at(settings: Seq<char>, s: SavedSound, i: int) -> bool {
    &&& opt_text(s.id) == json_sound_texts(settings, "id"@)[i]
    &&& opt_text(s.name) == json_sound_texts(settings, "name"@)[i]
    &&& opt_text(s.file_path) == json_sound_texts(settings, "file_path"@)[i]
    &&& opt_text(s.hotkey) == json_sound_texts(settings, "hotkey"@)[i]
    &&& s.loop_playback == json_sound_flags(settings, "loop"@)[i]
    &&& opt_text(s.category) == json_sound_texts(settings, "category"@)[i]
}

/// A copy of an optional string.
fn copy_text(o: &Option<String>) -> (r: Option<String>)
    ensures
        opt_text(r) == opt_text(*o),
{
    match o {
        Some(s) => Some(s.clone()),
        None => None,
    }
}

/// The sounds saved in a settings text, one per entry of
/// `soundboard.sounds` and in its order (none when the text is not JSON or
/// has no such array).
pub fn saved_sounds(settings: &str) -> (r: Vec<SavedSound>)
    ensures
        r@.len() == json_sound_count(settings@),
        forall|i: int| 0 <= i < r@.len() ==> saved_sound_at(settings@, #[trigger] r@[i], i),
{
    let ids = sound_texts(settings, "id");
    let names = sound_texts(settings, "name");
    let paths = sound_texts(settings, "file_path");
    let hotkeys = sound_texts(settings, "hotkey");
    let loops = sound_flags(settings, "loop");
    let categories = sound_texts(settings, "category");
    let ghost n = json_sound_count(settings@);
    let mut r: Vec<SavedSound> = Vec::new();
    let mut i: usize = 0;
    while i < ids.len()
        invariant
            0 <= i <= ids@.len(),
            ids@.len() == n && names@.len() == n && paths@.len() == n,
            hotkeys@.len() == n && loops@.len() == n && categories@.len() == n,
            ids@.map_values(|o: Option<String>| opt_text(o)) == json_sound_texts(settings@, "id"@),
            names@.map_values(|o: Option<String>| opt_text(o)) == json_sound_texts(settings@, "name"@),
            paths@.map_values(|o: Option<String>| opt_text(o)) == json_sound_texts(settings@, "file_path"@),
            hotkeys@.map_values(|o: Option<String>| opt_text(o)) == json_sound_texts(settings@, "hotkey"@),
            loops@ == json_sound_flags(settings@, "loop"@),
            categories@.map_values(|o: Option<String>| opt_text(o)) == json_sound_texts(settings@, "category"@),
            r@.len() == i,
            forall|k: int| 0 <= k < i ==> saved_sound_at(settings@, #[trigger] r@[k], k),
        decreases ids@.len() - i,
    {
        let s = SavedSound {
            id: copy_text(&ids[i]),
            name: copy_text(&names[i]),
            file_path: copy_text(&paths[i]),
            hotkey: copy_text(&hotkeys[i]),
            loop_playback: loops[i],
            category: copy_text(&categories[i]),
        };
        proof {
            let ii = i as int;
            assert(ids@.map_values(|o: Option<String>| opt_text(o))[ii] == opt_text(ids@[ii]));
            assert(names@.map_values(|o: Option<String>| opt_text(o))[ii] == opt_text(names@[ii]));
            assert(paths@.map_values(|o: Option<String>| opt_text(o))[ii] == opt_text(paths@[ii]));
            assert(hotkeys@.map_values(|o: Option<String>| opt_text(o))[ii] == opt_text(hotkeys@[ii]));
            assert(categories@.map_values(|o: Option<String>| opt_text(o))[ii] == opt_text(categories@[ii]));
        }
        r.push(s);
        i += 1;
    }
    r
}

// ----------------------------------------------------------------------
// Audio, voice and language
// ----------------------------------------------------------------------

/// The block size a settings text restores (see
/// `config::restore_block_size`).
pub fn block_size_from_settings(settings: &str) -> (r: usize)
    ensures
        r == config::restored_block(json_u64(settings@, "audio"@, "block_size"@)),
{
    let saved = u64_at(settings, "audio", "block_size");
    config::restore_block_size(saved)
}

/// The saved string at `section.key` of a settings text (the input and
/// monitor device names under `audio`, the active preset under
/// `voice_effects`).
pub fn saved_text(settings: &str, section: &str, key: &str) -> (r: Option<String>)
    ensures
        opt_text(r) == json_text(settings@, section@, key@),
{
    text_at(settings, section, key)
}

/// The saved flag at `section.key` of a settings text (the monitoring
/// flags `hear_myself` and `hear_soundboard` under `audio`).
pub fn saved_flag(settings: &str, section: &str, key: &str) -> (r: Option<bool>)
    ensures
        r == json_bool(settings@, section@, key@),
{
    bool_at(settings, section, key)
}

/// The interface language a settings text restores: `app.language` when
/// supported, else `tr`.
pub fn language_from_settings(settings: &str) -> (r: String)
    ensures
        r@ == (match json_text(settings@, "app"@, "language"@) {
            Some(s) => if s == "tr"@ || s == "en"@ {
                s
            } else {
                "tr"@
            },
            None => "tr"@,
        }),
{
    let saved = text_at(settings, "app", "language");
    match saved {
        Some(s) => presets::initial_language(Some(s.as_str())),
        None => presets::initial_language(None),
    }
}

} // verus!
