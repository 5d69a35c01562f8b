//! Soundboard library rules: sound ids, file names in the library, the
//! category new sounds get, and playing a sound by its hotkey.
use vstd::prelude::*;
use crate::playback::Playback;
use crate::text;

verus! {

/// Number of characters of a sound id.
pub const SOUND_ID_LEN: usize = 8;

/// Whether `c` is a lower-case hexadecimal digit.
pub open spec fn lower_hex(c: char) -> bool {
    ('0' <= c && c <= '9') || ('a' <= c && c <= 'f')
}

/// The hyphenated text of a UUID: 36 characters, hyphens at positions 8,
/// 13, 18 and 23, lower-case hexadecimal digits elsewhere.
pub open spec fn uuid_text(s: Seq<char>) -> bool {
    &&& s.len() == 36
    &&& forall|i: int|
        0 <= i < 36 ==> if i == 8 || i == 13 || i == 18 || i == 23 {
            s[i] == '-'
        } else {
            lower_hex(#[trigger] s[i])
        }
}

/// Calls `uuid::Uuid::new_v4` and formats the id with `to_string`, whose
/// `Display` is the lower-case hyphenated form (36 characters); which id
/// comes out is random.
#[verifier::external_body]
fn random_uuid_text() -> (r: String)
    ensures
        uuid_text(r@),
{
    uuid::Uuid::new_v4().to_string()
}

/// A new sound id: the first eight characters of a random UUID (so eight
/// lower-case hexadecimal digits).
pub fn new_sound_id() -> (id: String)
    ensures
        id@.len() == SOUND_ID_LEN,
        forall|i: int| 0 <= i < SOUND_ID_LEN ==> lower_hex(#[trigger] id@[i]),
{
    let u = random_uuid_text();
    short_id(u.as_str())
}

/// The first eight characters of a UUID's text.
pub fn short_id(uuid: &str) -> (id: String)
    requires
        uuid@.len() >= SOUND_ID_LEN,
    ensures
        id@ == uuid@.subrange(0, SOUND_ID_LEN as int),
{
    let chars = text::chars_of(uuid);
    text::string_of_range(&chars, 0, SOUND_ID_LEN)
}

/// The category a sound gets when none is given.
pub fn default_category() -> (s: String)
    ensures
        s@ == "General"@,
{
    "General".to_string()
}

/// The name a sound's file gets when it is copied into the library: its
/// id, an underscore, then the name of the file it was copied from.
pub fn library_file_name(id: &str, file_name: &str) -> (r: String)
    ensures
        r@ == id@ + "_"@ + file_name@,
{
    let mut r = id.to_string();
    r.append("_");
    r.append(file_name);
    r
}

/// A hotkey as the soundboard stores it from a user's edit: trimmed and
/// upper-cased.
pub fn normalize_sound_hotkey(hotkey: &str) -> (r: String)
    ensures
        r@ == text::normalized(hotkey@),
{
    text::normalize_text(hotkey)
}

/// The hotkey a sound keeps after an edit: none when the new one is blank.
pub fn stored_hotkey(hotkey: String) -> (r: Option<String>)
    ensures
        text::trim_seq(hotkey@).len() == 0 ==> r is None,
        text::trim_seq(hotkey@).len() > 0 ==> r == Some(hotkey),
{
    let t = text::trim(hotkey.as_str());
    if t.as_str().is_empty() {
        None
    } else {
        Some(hotkey)
    }
}

/// The sound `(id, hotkey)` answers to the pressed key: both normalised
/// are equal.
pub open spec fn answers_key(entry: (String, Option<String>), key: Seq<char>) -> bool {
    match entry.1 {
        Some(h) => text::normalized(h@) == text::normalized(key),
        None => false,
    }
}

/// The id of the first sound, among `(id, hotkey)` entries, whose hotkey
/// answers to `key`.
pub fn sound_for_hotkey(sounds: &Vec<(String, Option<String>)>, key: &str) -> (r: Option<String>)
    ensures
        match r {
            Some(id) => exists|i: int|
                0 <= i < sounds.len() && (#[trigger] sounds@[i]).0@ == id@ && answers_key(sounds@[i], key@)
                    && forall|j: int| 0 <= j < i ==> !answers_key(#[trigger] sounds@[j], key@),
            None => forall|i: int| 0 <= i < sounds.len() ==> !answers_key(#[trigger] sounds@[i], key@),
        },
{
    let wanted = text::normalize_text(key);
    let mut i: usize = 0;
    while i < sounds.len()
        invariant
            0 <= i <= sounds.len(),
            wanted@ == text::normalized(key@),
            forall|j: int| 0 <= j < i ==> !answers_key(#[trigger] sounds@[j], key@),
        decreases sounds.len() - i,
    {
        if let Some(h) = &sounds[i].1 {
            let n = text::normalize_text(h.as_str());
            if text::same_text(n.as_str(), wanted.as_str()) {
                proof {
                    assert(answers_key(sounds@[i as int], key@));
                }
                return Some(sounds[i].0.clone());
            }
        }
        i += 1;
    }
    None
}

/// Plays or stops, by its hotkey, the first sound (of `(id, hotkey)`
/// entries) whose hotkey answers to `key`: a playing sound stops and
/// rewinds, any other plays from its start. Returns whether a sound
/// answered.
pub fn play_by_hotkey(
    playback: &mut Playback,
    sounds: &Vec<(String, Option<String>)>,
    key: &str,
) -> (found: bool)
    requires
        old(playback).wf(),
    ensures
        final(playback).wf(),
        found == exists|i: int| 0 <= i < sounds.len() && answers_key(#[trigger] sounds@[i], key@),
        !found ==> final(playback)@ == old(playback)@,
        found ==> exists|i: int|
            0 <= i < sounds.len() && answers_key(#[trigger] sounds@[i], key@) && (forall|j: int|
                0 <= j < i ==> !answers_key(#[trigger] sounds@[j], key@)) && ({
                let id = sounds@[i].0@;
                final(playback)@ == if old(playback)@.contains_key(id) && old(playback)@[id].is_playing {
                    crate::playback::stopped(old(playback)@, id)
                } else {
                    crate::playback::played(old(playback)@, id)
                }
            }),
{
    match sound_for_hotkey(sounds, key) {
        Some(id) => {
            let _ = playback.toggle(id.as_str());
            true
        },
        None => false,
    }
}

} // verus!
