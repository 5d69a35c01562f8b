//! The soundboard's library: one record per sound, by id, with the rules
//! for restoring saved sounds, adding new ones, editing and removing them.
//! What only the caller holds (a sound's volume and length) rides along in
//! each record as an opaque value.
use vstd::prelude::*;
use base64::Engine;
use crate::soundboard;
use crate::table::Table;
use crate::text;

verus! {

// ----------------------------------------------------------------------
// Trusted items: paths
// ----------------------------------------------------------------------

/// What `Path::file_name` gives for a path, as text.
pub uninterp spec fn path_file_name(path: Seq<char>) -> Option<Seq<char>>;

/// What `Path::file_stem` gives for a path, as text.
pub uninterp spec fn path_file_stem(path: Seq<char>) -> Option<Seq<char>>;

/// What `Path::join` gives for a base path and a name, as text.
pub uninterp spec fn path_join(base: Seq<char>, name: Seq<char>) -> Seq<char>;

/// What `Path::starts_with` answers for a path and a base path.
pub uninterp spec fn path_starts_with(path: Seq<char>, base: Seq<char>) -> bool;

/// The characters of an optional string.
pub open spec fn opt_text(o: Option<String>) -> Option<Seq<char>> {
    match o {
        Some(s) => Some(s@),
        None => None,
    }
}

/// The text held, or the empty text.
pub open spec fn or_empty(o: Option<Seq<char>>) -> Seq<char> {
    match o {
        Some(s) => s,
        None => Seq::empty(),
    }
}

/// Calls `Path::file_name` on `path`: its last component as text, when it
/// has one. Claimed: the result is `path_file_name` of the path.
#[verifier::external_body]
pub(crate) fn file_name_of(path: &str) -> (r: Option<String>)
    ensures
        opt_text(r) == path_file_name(path@),
{
    match std::path::Path::new(path).file_name() {
        Some(n) => Some(n.to_string_lossy().to_string()),
        None => None,
    }
}

/// Calls `Path::file_stem` on `path`: its file name without the
/// extension, when it has one. Claimed: the result is `path_file_stem` of
/// the path.
#[verifier::external_body]
fn file_stem_of(path: &str) -> (r: Option<String>)
    ensures
        opt_text(r) == path_file_stem(path@),
{
    match std::path::Path::new(path).file_stem() {
        Some(n) => Some(n.to_string_lossy().to_string()),
        None => None,
    }
}

/// Calls `Path::join` on `base` and `name`. Claimed: the result is
/// `path_join` of the two.
#[verifier::external_body]
fn join_path(base: &str, name: &str) -> (r: String)
    ensures
        r@ == path_join(base@, name@),
{
    std::path::Path::new(base).join(name).to_string_lossy().to_string()
}

/// Calls `Path::starts_with` on `path` and `base`. Claimed: the answer is
/// `path_starts_with` of the two.
#[verifier::external_body]
fn path_under(path: &str, base: &str) -> (b: bool)
    ensures
        b == path_starts_with(path@, base@),
{
    std::path::Path::new(path).starts_with(base)
}

// ----------------------------------------------------------------------
// Records
// ----------------------------------------------------------------------

/// One sound of the library.
pub struct SoundRecord<X> {
    /// Eight lower-case hexadecimal digits for sounds added here.
    pub id: String,
    pub name: String,
    /// Where the sound's file is.
    pub file_path: String,
    /// The hotkey as the user gave it.
    pub hotkey: Option<String>,
    pub loop_playback: bool,
    pub category: String,
    /// What the caller keeps with the sound (its volume and length).
    pub extra: X,
}

/// Where a saved sound's file is looked for in the library folder when it
/// is not where it was saved: the folder joined with the saved path's file
/// name (the empty name when it has none).
pub fn library_copy_path(sounds_dir: &str, saved_path: &str) -> (r: String)
    ensures
        r@ == path_join(sounds_dir@, or_empty(path_file_name(saved_path@))),
{
    let name = match file_name_of(saved_path) {
        Some(n) => n,
        None => String::new(),
    };
    join_path(sounds_dir, name.as_str())
}

/// The file a saved sound is restored from: the saved path when the file is
/// there, else its copy in the library folder when that is there, else
/// none (the sound is skipped).
pub fn resolve_saved_path(
    saved_path: String,
    saved_exists: bool,
    copy_path: String,
    copy_exists: bool,
) -> (r: Option<String>)
    ensures
        r == (if saved_exists {
            Some(saved_path)
        } else if copy_exists {
            Some(copy_path)
        } else {
            None
        }),
{
    if saved_exists {
        Some(saved_path)
    } else if copy_exists {
        Some(copy_path)
    } else {
        None
    }
}

/// The name a sound gets: the given one, else the stem of its file
/// (empty when the path has none).
pub fn name_or_stem(name: Option<String>, file_path: &str) -> (r: String)
    ensures
        r@ == (match name {
            Some(n) => n@,
            None => or_empty(path_file_stem(file_path@)),
        }),
{
    match name {
        Some(n) => n,
        None => match file_stem_of(file_path) {
            Some(s) => s,
            None => String::new(),
        },
    }
}

/// A sound restored from the saved settings, whose file was found at
/// `file_path`: each missing field takes its default (a new id, the file's
/// stem as name, no looping, the `General` category).
pub fn restore_record<X>(
    id: Option<String>,
    name: Option<String>,
    file_path: String,
    hotkey: Option<String>,
    loop_playback: Option<bool>,
    category: Option<String>,
    extra: X,
) -> (r: SoundRecord<X>)
    ensures
        match id {
            Some(i) => r.id == i,
            None => r.id@.len() == soundboard::SOUND_ID_LEN && forall|k: int|
                0 <= k < soundboard::SOUND_ID_LEN ==> soundboard::lower_hex(#[trigger] r.id@[k]),
        },
        r.name@ == (match name {
            Some(n) => n@,
            None => or_empty(path_file_stem(file_path@)),
        }),
        r.file_path == file_path,
        r.hotkey == hotkey,
        r.loop_playback == (match loop_playback {
            Some(l) => l,
            None => false,
        }),
        r.category@ == (match category {
            Some(c) => c@,
            None => "General"@,
        }),
        r.extra == extra,
{
    let id = match id {
        Some(i) => i,
        None => soundboard::new_sound_id(),
    };
    let name = name_or_stem(name, file_path.as_str());
    let loop_playback = match loop_playback {
        Some(l) => l,
        None => false,
    };
    let category = match category {
        Some(c) => c,
        None => soundboard::default_category(),
    };
    SoundRecord { id, name, file_path, hotkey, loop_playback, category, extra }
}

/// A sound added from the file at `source_path`: a new id, the given name
/// or the file's stem, the `General` category; with `copy_to_library` its
/// file is the copy `<id>_<file name>` in the library folder (which the
/// caller makes), else the source file itself.
pub fn new_record<X>(
    source_path: &str,
    name: Option<String>,
    copy_to_library: bool,
    sounds_dir: &str,
    hotkey: Option<String>,
    loop_playback: bool,
    extra: X,
) -> (r: SoundRecord<X>)
    ensures
        r.id@.len() == soundboard::SOUND_ID_LEN,
        forall|k: int| 0 <= k < soundboard::SOUND_ID_LEN ==> soundboard::lower_hex(#[trigger] r.id@[k]),
        r.name@ == (match name {
            Some(n) => n@,
            None => or_empty(path_file_stem(source_path@)),
        }),
        r.file_path@ == (if copy_to_library {
            path_join(sounds_dir@, r.id@ + "_"@ + or_empty(path_file_name(source_path@)))
        } else {
            source_path@
        }),
        r.hotkey == hotkey,
        r.loop_playback == loop_playback,
        r.category@ == "General"@,
        r.extra == extra,
{
    let id = soundboard::new_sound_id();
    let name = name_or_stem(name, source_path);
    let file_path = if copy_to_library {
        let file_name = match file_name_of(source_path) {
            Some(n) => n,
            None => String::new(),
        };
        let dest = soundboard::library_file_name(id.as_str(), file_name.as_str());
        join_path(sounds_dir, dest.as_str())
    } else {
        source_path.to_string()
    };
    let category = soundboard::default_category();
    SoundRecord { id, name, file_path, hotkey, loop_playback, category, extra }
}

/// Whether a removed sound's file belongs to the library folder (and so is
/// deleted with it).
pub fn owned_by_library(file_path: &str, sounds_dir: &str) -> (b: bool)
    ensures
        b == path_starts_with(file_path@, sounds_dir@),
{
    path_under(file_path, sounds_dir)
}

/// A record after an edit: the loop flag, the hotkey (none when the new
/// one is blank) and the caller's value change where given.
pub open spec fn edited<X>(
    r: SoundRecord<X>,
    loop_playback: Option<bool>,
    hotkey: Option<String>,
    extra: Option<X>,
) -> SoundRecord<X> {
    SoundRecord {
        loop_playback: match loop_playback {
            Some(l) => l,
            None => r.loop_playback,
        },
        hotkey: match hotkey {
            Some(h) => if text::trim_seq(h@).len() == 0 {
                None
            } else {
                Some(h)
            },
            None => r.hotkey,
        },
        extra: match extra {
            Some(x) => x,
            None => r.extra,
        },
        ..r
    }
}

/// A sound's hotkey after a user's edit: the new one trimmed and
/// upper-cased, none when that is blank; the old one when none is given.
pub open spec fn user_hotkey(edit: Option<String>, current: Option<String>) -> Option<Seq<char>> {
    match edit {
        Some(h) => if text::trim_seq(text::normalized(h@)).len() == 0 {
            None
        } else {
            Some(text::normalized(h@))
        },
        None => opt_text(current),
    }
}

fn clone_hotkey(h: &Option<String>) -> (r: Option<String>)
    ensures
        opt_text(r) == opt_text(*h),
{
    match h {
        Some(s) => Some(s.clone()),
        None => None,
    }
}

// ----------------------------------------------------------------------
// Sounds dropped onto the window as base64 text
// ----------------------------------------------------------------------

/// Declares `base64::DecodeError`, kept opaque.
#[verifier::external_type_specification]
#[verifier::external_body]
pub struct ExDecodeError(base64::DecodeError);

/// What the standard base64 engine decodes from this text: the bytes, or
/// `None` when the text is not valid base64.
pub uninterp spec fn base64_standard(s: Seq<char>) -> Option<Seq<u8>>;

/// Calls `Engine::decode` of `base64::engine::general_purpose::STANDARD`
/// on the text. Claimed: it succeeds exactly when `base64_standard` gives
/// bytes, and then gives those bytes.
#[verifier::external_body]
fn decode_standard(s: &str) -> (r: Result<Vec<u8>, base64::DecodeError>)
    ensures
        match r {
            Ok(b) => base64_standard(s@) == Some(b@),
            Err(_) => base64_standard(s@) is None,
        },
{
    base64::engine::general_purpose::STANDARD.decode(s)
}

/// Why a dropped sound is refused.
pub enum DropError {
    /// The text is not valid base64; the decoder's error says where.
    InvalidBase64(base64::DecodeError),
}

/// `k` is the position of the first comma of `s`.
pub open spec fn first_comma_at(s: Seq<char>, k: int) -> bool {
    &&& 0 <= k < s.len()
    &&& s[k] == ','
    &&& forall|j: int| 0 <= j < k ==> s[j] != ','
}

/// The base64 part of a dropped sound's text: what follows its first
/// comma (ending a data-URL header), or all of it when it has none.
pub open spec fn base64_payload(data: Seq<char>) -> Seq<char> {
    if exists|k: int| first_comma_at(data, k) {
        let k = choose|k: int| first_comma_at(data, k);
        data.subrange(k + 1, data.len() as int)
    } else {
        data
    }
}

/// The base64 part of `data` (see `base64_payload`).
pub fn payload_of(data: &str) -> (r: String)
    ensures
        r@ == base64_payload(data@),
{
    let chars = text::chars_of(data);
    let mut i: usize = 0;
    while i < chars.len()
        invariant
            0 <= i <= chars.len(),
            chars@ == data@,
            forall|j: int| 0 <= j < i ==> chars@[j] != ',',
        decreases chars.len() - i,
    {
        if chars[i] == ',' {
            proof {
                assert(first_comma_at(data@, i as int));
                let k = choose|k: int| first_comma_at(data@, k);
                if k < i {
                    assert(data@[k] == ',');
                } else if k > i {
                    assert(data@[i as int] != ',');
                }
            }
            return text::string_of_range(&chars, i + 1, chars.len());
        }
        i += 1;
    }
    proof {
        if exists|k: int| first_comma_at(data@, k) {
            let k = choose|k: int| first_comma_at(data@, k);
            assert(data@[k] == ',');
        }
    }
    data.to_string()
}

/// The bytes of a sound dropped as base64 text (optionally behind a
/// data-URL header), or why they cannot be read.
pub fn dropped_sound_bytes(data: &str) -> (r: Result<Vec<u8>, DropError>)
    ensures
        match r {
            Ok(b) => base64_standard(base64_payload(data@)) == Some(b@),
            Err(_) => base64_standard(base64_payload(data@)) is None,
        },
{
    let payload = payload_of(data);
    match decode_standard(payload.as_str()) {
        Ok(b) => Ok(b),
        Err(e) => Err(DropError::InvalidBase64(e)),
    }
}

/// The name a dropped sound is filed under: the file name of what was
/// dropped, or `dropped-audio` when it has none.
pub fn dropped_file_name(file_name: &str) -> (r: String)
    ensures
        r@ == (match path_file_name(file_name@) {
            Some(n) => n,
            None => "dropped-audio"@,
        }),
{
    match file_name_of(file_name) {
        Some(n) => n,
        None => "dropped-audio".to_string(),
    }
}

/// The name of the temporary file a dropped sound is staged in:
/// `audiover-drop-<pid>-<seq>-<name>`.
pub open spec fn staging_name(pid: u32, seq: u64, name: Seq<char>) -> Seq<char> {
    "audiover-drop-"@ + text::decimal_seq(pid as nat) + "-"@ + text::decimal_seq(seq as nat) + "-"@ + name
}

/// The staging file name of a drop: the process id and the drop's number
/// in the process (which the caller never repeats) keep concurrent drops
/// of same-named files, in one process or in several, apart.
pub fn staging_file_name(pid: u32, seq: u64, name: &str) -> (r: String)
    ensures
        r@ == staging_name(pid, seq, name@),
{
    let mut r = "audiover-drop-".to_string();
    let p = text::decimal(pid as u64);
    r.append(p.as_str());
    r.append("-");
    let q = text::decimal(seq);
    r.append(q.as_str());
    r.append("-");
    r.append(name);
    r
}

/// Two drops with different process ids or different numbers never share
/// a staging file, whatever their file names.
pub proof fn law_staging_names_distinct(
    pid1: u32,
    seq1: u64,
    name1: Seq<char>,
    pid2: u32,
    seq2: u64,
    name2: Seq<char>,
)
    requires
        pid1 != pid2 || seq1 != seq2,
    ensures
        staging_name(pid1, seq1, name1) != staging_name(pid2, seq2, name2),
{
    if staging_name(pid1, seq1, name1) == staging_name(pid2, seq2, name2) {
        reveal_strlit("audiover-drop-");
        reveal_strlit("-");
        let pre = "audiover-drop-"@;
        let dp1 = text::decimal_seq(pid1 as nat);
        let dp2 = text::decimal_seq(pid2 as nat);
        let ds1 = text::decimal_seq(seq1 as nat);
        let ds2 = text::decimal_seq(seq2 as nat);
        let u1 = "-"@ + ds1 + "-"@ + name1;
        let u2 = "-"@ + ds2 + "-"@ + name2;
        let v1 = "-"@ + name1;
        let v2 = "-"@ + name2;
        assert(staging_name(pid1, seq1, name1) =~= pre + (dp1 + u1));
        assert(staging_name(pid2, seq2, name2) =~= pre + (dp2 + u2));
        assert(dp1 + u1 =~= (pre + (dp1 + u1)).subrange(pre.len() as int, (pre + (dp1 + u1)).len() as int));
        assert(dp2 + u2 =~= (pre + (dp2 + u2)).subrange(pre.len() as int, (pre + (dp2 + u2)).len() as int));
        text::lemma_decimal_shape(pid1 as nat);
        text::lemma_decimal_shape(pid2 as nat);
        text::lemma_decimal_shape(seq1 as nat);
        text::lemma_decimal_shape(seq2 as nat);
        assert(u1[0] == '-');
        assert(u2[0] == '-');
        text::lemma_digits_then_dash(dp1, u1, dp2, u2);
        text::lemma_decimal_injective(pid1 as nat, pid2 as nat);
        assert(ds1 + v1 =~= u1.subrange(1, u1.len() as int));
        assert(ds2 + v2 =~= u2.subrange(1, u2.len() as int));
        assert(v1[0] == '-');
        assert(v2[0] == '-');
        text::lemma_digits_then_dash(ds1, v1, ds2, v2);
        text::lemma_decimal_injective(seq1 as nat, seq2 as nat);
    }
}

// ----------------------------------------------------------------------
// The library
// ----------------------------------------------------------------------

/// The sounds by id, in the order they were added.
pub struct SoundLibrary<X> {
    sounds: Table<SoundRecord<X>>,
}

impl<X> SoundLibrary<X> {
    /// Each record is filed under its own id.
    pub closed spec fn wf(&self) -> bool {
        &&& self.sounds.wf()
        &&& forall|k: Seq<char>| #[trigger] self.sounds.map().contains_key(k) ==> self.sounds.map()[k].id@ == k
    }

    /// The records by id.
    pub closed spec fn records(&self) -> Map<Seq<char>, SoundRecord<X>> {
        self.sounds.map()
    }

    /// The ids in the order the sounds were added.
    pub closed spec fn order(&self) -> Seq<Seq<char>> {
        self.sounds.order()
    }

    /// The empty library.
    pub fn new() -> (l: SoundLibrary<X>)
        ensures
            l.wf(),
            l.records() == Map::<Seq<char>, SoundRecord<X>>::empty(),
    {
        SoundLibrary { sounds: Table::new() }
    }

    /// Files `rec` under its id, in place of any record with that id.
    pub fn add(&mut self, rec: SoundRecord<X>)
        requires
            old(self).wf(),
        ensures
            final(self).wf(),
            final(self).records() == old(self).records().insert(rec.id@, rec),
    {
        let id = rec.id.clone();
        self.sounds.insert(id.as_str(), rec);
    }

    /// The record of the sound `id`.
    pub fn get(&self, id: &str) -> (r: Option<&SoundRecord<X>>)
        requires
            self.wf(),
        ensures
            match r {
                Some(rec) => self.records().contains_key(id@) && self.records()[id@] == *rec,
                None => !self.records().contains_key(id@),
            },
    {
        self.sounds.get(id)
    }

    /// Edits the sound `id` as `edited` says; `false` when there is none.
    /// Its place in the order stays.
    pub fn update(
        &mut self,
        id: &str,
        loop_playback: Option<bool>,
        hotkey: Option<String>,
        extra: Option<X>,
    ) -> (found: bool)
        requires
            old(self).wf(),
        ensures
            final(self).wf(),
            final(self).order() == old(self).order(),
            found == old(self).records().contains_key(id@),
            found ==> final(self).records() == old(self).records().insert(
                id@,
                edited(old(self).records()[id@], loop_playback, hotkey, extra),
            ),
            !found ==> final(self).records() == old(self).records(),
    {
        let ghost before = self.sounds;
        let ghost h = hotkey;
        let ghost lp = loop_playback;
        let ghost x = extra;
        match self.sounds.take_entry(id) {
            Some((i, rec)) => {
                let hotkey = match hotkey {
                    Some(h) => soundboard::stored_hotkey(h),
                    None => rec.hotkey,
                };
                let loop_playback = match loop_playback {
                    Some(l) => l,
                    None => rec.loop_playback,
                };
                let extra = match extra {
                    Some(x) => x,
                    None => rec.extra,
                };
                let new_rec = SoundRecord {
                    id: rec.id,
                    name: rec.name,
                    file_path: rec.file_path,
                    hotkey,
                    loop_playback,
                    category: rec.category,
                    extra,
                };
                let ghost nr = new_rec;
                proof {
                    assert(nr == edited(before.map()[id@], lp, h, x));
                }
                self.sounds.put_entry(i, id, new_rec);
                proof {
                    assert(self.sounds.map() =~= before.map().insert(id@, nr));
                    assert(self.sounds.order() =~= before.order());
                }
                true
            },
            None => false,
        }
    }

    /// Edits the sound `id` as a user asked: the new hotkey is trimmed and
    /// upper-cased first (a blank one clears it); see `update`.
    pub fn edit_from_user(
        &mut self,
        id: &str,
        loop_playback: Option<bool>,
        hotkey: Option<String>,
        extra: Option<X>,
    ) -> (found: bool)
        requires
            old(self).wf(),
        ensures
            final(self).wf(),
            final(self).order() == old(self).order(),
            found == old(self).records().contains_key(id@),
            found ==> {
                let o = old(self).records()[id@];
                let n = final(self).records()[id@];
                &&& final(self).records() == old(self).records().insert(id@, n)
                &&& n.id == o.id && n.name == o.name && n.file_path == o.file_path
                &&& n.category == o.category
                &&& n.loop_playback == (match loop_playback {
                    Some(l) => l,
                    None => o.loop_playback,
                })
                &&& n.extra == (match extra {
                    Some(x) => x,
                    None => o.extra,
                })
                &&& opt_text(n.hotkey) == user_hotkey(hotkey, o.hotkey)
            },
            !found ==> final(self).records() == old(self).records(),
    {
        let normalized = match hotkey {
            Some(h) => Some(soundboard::normalize_sound_hotkey(h.as_str())),
            None => None,
        };
        self.update(id, loop_playback, normalized, extra)
    }

    /// Takes the sound `id` out of the library, handing back its record.
    pub fn remove(&mut self, id: &str) -> (r: Option<SoundRecord<X>>)
        requires
            old(self).wf(),
        ensures
            final(self).wf(),
            final(self).records() == old(self).records().remove(id@),
            match r {
                Some(rec) => old(self).records().contains_key(id@) && old(self).records()[id@] == rec,
                None => !old(self).records().contains_key(id@),
            },
    {
        self.sounds.take(id)
    }

    /// Number of sounds.
    pub fn len(&self) -> (n: usize)
        requires
            self.wf(),
        ensures
            n == self.records().len(),
            n == self.order().len(),
    {
        self.sounds.len()
    }

    /// The `i`-th sound in the order.
    pub fn record_at(&self, i: usize) -> (r: &SoundRecord<X>)
        requires
            self.wf(),
            i < self.order().len(),
        ensures
            self.records().contains_key(self.order()[i as int]),
            *r == self.records()[self.order()[i as int]],
            r.id@ == self.order()[i as int],
    {
        let (_, rec) = self.sounds.entry_at(i);
        rec
    }

    fn hotkey_list(&self, by_name: bool) -> (r: Vec<(String, Option<String>)>)
        requires
            self.wf(),
        ensures
            r.len() == self.order().len(),
            forall|i: int|
                0 <= i < r.len() ==> {
                    let rec = self.records()[self.order()[i]];
                    &&& (#[trigger] r@[i]).0@ == (if by_name {
                        rec.name@
                    } else {
                        self.order()[i]
                    })
                    &&& opt_text(r@[i].1) == opt_text(rec.hotkey)
                },
    {
        let mut r: Vec<(String, Option<String>)> = Vec::new();
        let mut i: usize = 0;
        let n = self.sounds.len();
        while i < n
            invariant
                self.wf(),
                n == self.order().len(),
                0 <= i <= n,
                r.len() == i,
                forall|k: int|
                    0 <= k < i ==> {
                        let rec = self.records()[self.order()[k]];
                        &&& (#[trigger] r@[k]).0@ == (if by_name {
                            rec.name@
                        } else {
                            self.order()[k]
                        })
                        &&& opt_text(r@[k].1) == opt_text(rec.hotkey)
                    },
            decreases n - i,
        {
            let rec = self.record_at(i);
            let label = if by_name {
                rec.name.clone()
            } else {
                rec.id.clone()
            };
            r.push((label, clone_hotkey(&rec.hotkey)));
            i += 1;
        }
        r
    }

    /// Each sound's id with its hotkey, in order.
    pub fn sound_hotkeys(&self) -> (r: Vec<(String, Option<String>)>)
        requires
            self.wf(),
        ensures
            r.len() == self.order().len(),
            forall|i: int|
                0 <= i < r.len() ==> (#[trigger] r@[i]).0@ == self.order()[i] && opt_text(r@[i].1)
                    == opt_text(self.records()[self.order()[i]].hotkey),
    {
        self.hotkey_list(false)
    }

    /// Each sound's name with its hotkey, in order.
    pub fn named_hotkeys(&self) -> (r: Vec<(String, Option<String>)>)
        requires
            self.wf(),
        ensures
            r.len() == self.order().len(),
            forall|i: int|
                0 <= i < r.len() ==> (#[trigger] r@[i]).0@ == self.records()[self.order()[i]].name@
                    && opt_text(r@[i].1) == opt_text(self.records()[self.order()[i]].hotkey),
    {
        self.hotkey_list(true)
    }
}

} // verus!
