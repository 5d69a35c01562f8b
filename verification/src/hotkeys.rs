//! Global hotkeys: the four fixed actions, their remappable key bindings,
//! the per-key debounce, and the routing of a pressed key to an action
//! callback, a direct key callback or the soundboard fallback.
//!
//! The callbacks themselves live with the caller; the manager records
//! which names have one and answers which to run.
use vstd::prelude::*;
use std::time::Instant;
use crate::keymap::KeyMap;
use crate::text;

verus! {

/// Number of fixed global actions.
pub const ACTION_COUNT: usize = 4;

/// A key pressed again within this many milliseconds is ignored.
pub const DEBOUNCE_MS: u128 = 150;

/// Longest key name (in UTF-8 bytes) a binding may use.
pub const MAX_KEY_BYTES: usize = 16;

/// One row of the hotkey table shown to the user.
#[derive(Debug, Clone)]
pub struct HotkeyItem {
    /// Stable action id, e.g. `mute_mic`.
    pub id: String,
    pub action: String,
    pub key: String,
}

/// What the hotkey page shows.
#[derive(Debug, Clone)]
pub struct HotkeyStatus {
    pub backend: String,
    pub has_permission: bool,
    pub is_running: bool,
    pub hotkeys: Vec<HotkeyItem>,
}

/// What to do for a pressed key.
#[derive(Debug, Clone, PartialEq, Eq)]
pub enum Dispatch {
    /// Run the callback registered for this action id.
    Action(String),
    /// Run the callback registered directly under this (normalised) key.
    Direct(String),
    /// Hand the normalised key to the fallback handler; it decides.
    Fallback(String),
    /// Nothing handles the key.
    Unhandled,
    /// The key was pressed again too soon and is ignored.
    Debounced,
}

impl Dispatch {
    /// Whether the press is handled without asking the fallback handler.
    pub fn handled(&self) -> (b: bool)
        ensures
            b == (self is Action || self is Direct),
    {
        match self {
            Dispatch::Action(_) => true,
            Dispatch::Direct(_) => true,
            _ => false,
        }
    }
}

/// Outcome of a user's request to bind a key to an action.
#[derive(Debug, Clone, PartialEq, Eq)]
pub enum BindOutcome {
    /// The action id is not one of the fixed actions.
    UnknownAction,
    /// The key is empty once trimmed.
    EmptyKey,
    /// The key name is longer than `MAX_KEY_BYTES` bytes.
    InvalidKey,
    /// Another action already uses the key.
    ConflictAction(String),
    /// A sound (named here) already uses the key.
    ConflictSound(String),
    /// The action is now bound to the key.
    Bound { action_id: String, key: String },
}

// ----------------------------------------------------------------------
// The fixed actions
// ----------------------------------------------------------------------

/// Ids of the fixed actions, in display order.
pub open spec fn default_ids() -> Seq<Seq<char>> {
    seq!["mute_mic"@, "bypass_dsp"@, "stop_all"@, "toggle_hear_myself"@]
}

/// Display labels of the fixed actions.
pub open spec fn default_labels() -> Seq<Seq<char>> {
    seq![
        "Mute Microphone"@,
        "Bypass All DSP Effects"@,
        "Stop All Sounds (Panic)"@,
        "Toggle Hear Myself (Loopback)"@,
    ]
}

/// Default keys of the fixed actions.
pub open spec fn default_keys() -> Seq<Seq<char>> {
    seq!["F9"@, "F10"@, "F11"@, "F8"@]
}

/// Whether `id` is one of the fixed actions.
pub open spec fn known(id: Seq<char>) -> bool {
    default_ids().contains(id)
}

/// Position of the fixed action `id`.
pub open spec fn action_pos(id: Seq<char>) -> int {
    choose|i: int| 0 <= i < ACTION_COUNT && default_ids()[i] == id
}

/// The default bindings: each fixed action to its default key.
pub open spec fn default_map() -> Map<Seq<char>, Seq<char>> {
    Map::new(|id: Seq<char>| known(id), |id: Seq<char>| default_keys()[action_pos(id)])
}

/// The label shown for an action id: the fixed label, or the id itself.
pub open spec fn label_of(id: Seq<char>) -> Seq<char> {
    if known(id) {
        default_labels()[action_pos(id)]
    } else {
        id
    }
}

/// The bindings after merging `saved` into the defaults: a fixed action
/// takes its saved key, normalised, unless that is empty.
pub open spec fn merged(saved: Map<Seq<char>, Seq<char>>) -> Map<Seq<char>, Seq<char>> {
    Map::new(
        |id: Seq<char>| known(id),
        |id: Seq<char>|
            if saved.contains_key(id) && text::normalized(saved[id]).len() > 0 {
                text::normalized(saved[id])
            } else {
                default_map()[id]
            },
    )
}

proof fn lemma_defaults_distinct()
    ensures
        forall|i: int, j: int|
            0 <= i < ACTION_COUNT && 0 <= j < ACTION_COUNT && i != j ==> default_ids()[i]
                != default_ids()[j],
        default_ids().len() == ACTION_COUNT,
        default_labels().len() == ACTION_COUNT,
        default_keys().len() == ACTION_COUNT,
{
    reveal_strlit("mute_mic");
    reveal_strlit("bypass_dsp");
    reveal_strlit("stop_all");
    reveal_strlit("toggle_hear_myself");
    assert("mute_mic"@[0] != "bypass_dsp"@[0]);
    assert("mute_mic"@[0] != "stop_all"@[0]);
    assert("mute_mic"@[0] != "toggle_hear_myself"@[0]);
    assert("bypass_dsp"@[0] != "stop_all"@[0]);
    assert("bypass_dsp"@[0] != "toggle_hear_myself"@[0]);
    assert("stop_all"@[0] != "toggle_hear_myself"@[0]);
}

proof fn lemma_action_pos(id: Seq<char>, i: int)
    requires
        0 <= i < ACTION_COUNT,
        default_ids()[i] == id,
    ensures
        known(id),
        action_pos(id) == i,
{
    lemma_defaults_distinct();
    assert(default_ids()[i] == id);
    let p = action_pos(id);
    assert(0 <= p < ACTION_COUNT && default_ids()[p] == id);
}

/// Id, label and default key of the fixed action at position `i`.
fn default_hotkey(i: usize) -> (r: (&'static str, &'static str, &'static str))
    requires
        i < ACTION_COUNT,
    ensures
        r.0@ == default_ids()[i as int],
        r.1@ == default_labels()[i as int],
        r.2@ == default_keys()[i as int],
{
    if i == 0 {
        ("mute_mic", "Mute Microphone", "F9")
    } else if i == 1 {
        ("bypass_dsp", "Bypass All DSP Effects", "F10")
    } else if i == 2 {
        ("stop_all", "Stop All Sounds (Panic)", "F11")
    } else {
        ("toggle_hear_myself", "Toggle Hear Myself (Loopback)", "F8")
    }
}

/// Position of the fixed action `id`, if it is one.
fn find_action(id: &str) -> (r: Option<usize>)
    ensures
        match r {
            Some(i) => i < ACTION_COUNT && default_ids()[i as int] == id@ && action_pos(id@)
                == i,
            None => !known(id@),
        },
{
    let mut i: usize = 0;
    while i < ACTION_COUNT
        invariant
            0 <= i <= ACTION_COUNT,
            forall|j: int| 0 <= j < i ==> default_ids()[j] != id@,
        decreases ACTION_COUNT - i,
    {
        let (aid, _, _) = default_hotkey(i);
        if text::same_text(aid, id) {
            proof {
                lemma_action_pos(id@, i as int);
            }
            return Some(i);
        }
        i += 1;
    }
    proof {
        if known(id@) {
            let k = choose|k: int| 0 <= k < default_ids().len() && default_ids()[k] == id@;
            assert(default_ids()[k] != id@);
        }
    }
    None
}

/// The default bindings: each fixed action to its default key.
pub fn default_bindings() -> (m: KeyMap)
    ensures
        m.wf(),
        m@ == default_map(),
        m.order() == default_ids(),
{
    let mut m = KeyMap::new();
    let mut i: usize = 0;
    while i < ACTION_COUNT
        invariant
            0 <= i <= ACTION_COUNT,
            m.wf(),
            m.order() == default_ids().subrange(0, i as int),
            forall|x: Seq<char>| #[trigger]
                m@.contains_key(x) == (exists|j: int| 0 <= j < i && default_ids()[j] == x),
            forall|j: int| 0 <= j < i ==> #[trigger] m@[default_ids()[j]] == default_keys()[j],
        decreases ACTION_COUNT - i,
    {
        let (id, _, key) = default_hotkey(i);
        proof {
            lemma_defaults_distinct();
            assert(!m@.contains_key(id@)) by {
                if m@.contains_key(id@) {
                    let j = choose|j: int| 0 <= j < i && default_ids()[j] == id@;
                    assert(default_ids()[j] != default_ids()[i as int]);
                }
            }
        }
        m.insert(id, key.to_string());
        proof {
            assert(default_ids().subrange(0, i + 1) =~= default_ids().subrange(0, i as int).push(
                id@,
            ));
            assert forall|x: Seq<char>| #[trigger]
                m@.contains_key(x) == (exists|j: int| 0 <= j < i + 1 && default_ids()[j] == x) by {
                if x == id@ {
                    assert(default_ids()[i as int] == x);
                }
            }
            assert forall|j: int| 0 <= j < i + 1 implies #[trigger] m@[default_ids()[j]]
                == default_keys()[j] by {
                if j < i {
                    assert(default_ids()[j] != default_ids()[i as int]);
                }
            }
        }
        i += 1;
    }
    proof {
        lemma_defaults_distinct();
        assert forall|x: Seq<char>| #[trigger] m@.contains_key(x) == known(x) by {
            if known(x) {
                let k = choose|k: int| 0 <= k < default_ids().len() && default_ids()[k] == x;
                assert(m@.contains_key(default_ids()[k]));
            }
            if m@.contains_key(x) {
                let k = choose|k: int| 0 <= k < 4 && default_ids()[k] == x;
                assert(default_ids().contains(x));
            }
        }
        assert forall|x: Seq<char>| m@.contains_key(x) implies #[trigger] m@[x] == default_map()[x] by {
            let k = choose|k: int| 0 <= k < 4 && default_ids()[k] == x;
            lemma_action_pos(x, k);
        }
        assert(m@ =~= default_map());
        assert(default_ids().subrange(0, 4) =~= default_ids());
    }
    m
}

/// Whether `action_id` is one of the fixed actions.
pub fn is_known_action(action_id: &str) -> (b: bool)
    ensures
        b == known(action_id@),
{
    find_action(action_id).is_some()
}

/// The label shown for an action: the fixed label of a known action,
/// else the id itself.
pub fn action_label(action_id: &str) -> (r: String)
    ensures
        r@ == label_of(action_id@),
{
    match find_action(action_id) {
        Some(i) => {
            let (_, label, _) = default_hotkey(i);
            label.to_string()
        },
        None => action_id.to_string(),
    }
}

/// A key name as bindings store it: trimmed, then upper-cased.
pub fn normalize_key(key: &str) -> (r: String)
    ensures
        r@ == text::normalized(key@),
{
    text::normalize_text(key)
}

// ----------------------------------------------------------------------
// Key events
// ----------------------------------------------------------------------

/// What `evdev::KeyCode`'s `Debug` prints for a key code: the name of the
/// code's constant (`KEY_F9`), or `unknown key: ` and the number.
pub uninterp spec fn key_code_debug(code: u16) -> Seq<char>;

/// Calls `evdev::KeyCode::new` on `code` and formats the key code with
/// `Debug`. Claimed: the text is `key_code_debug` of the code.
#[verifier::external_body]
fn key_code_text(code: u16) -> (r: String)
    ensures
        r@ == key_code_debug(code),
{
    format!("{:?}", evdev::KeyCode::new(code))
}

/// The key name a press of the evdev key `code` is handled under: the
/// code's name with `KEY_` removed, upper-cased (`KEY_F9` gives `F9`).
pub fn key_name_for_code(code: u16) -> (r: String)
    ensures
        r@ == text::uppercase(text::without_all(key_code_debug(code), "KEY_"@)),
{
    let debug = key_code_text(code);
    let bare = text::remove_all(debug.as_str(), "KEY_");
    text::to_upper(bare.as_str())
}

/// Whether a file of `/dev/input` is an event device (its name begins
/// with `event`).
pub fn is_event_device(file_name: &str) -> (b: bool)
    ensures
        b == text::starts_with_seq(file_name@, "event"@),
{
    text::starts_with_str(file_name, "event")
}

/// The keys whose presence marks a device as a keyboard worth watching:
/// `KEY_1`, `KEY_A`, `KEY_SPACE`, `KEY_F9` and `KEY_KP1` (Linux input
/// codes 2, 30, 57, 67 and 79).
pub open spec fn probe_key(code: u16) -> bool {
    code == 2 || code == 30 || code == 57 || code == 67 || code == 79
}

/// Whether an input device is watched for hotkeys: it reports key events
/// and one of its supported key codes is a probe key.
pub fn watched_device(has_key_events: bool, key_codes: &Vec<u16>) -> (b: bool)
    ensures
        b == (has_key_events && exists|i: int| 0 <= i < key_codes@.len() && probe_key(#[trigger] key_codes@[i])),
{
    if !has_key_events {
        return false;
    }
    let mut i: usize = 0;
    while i < key_codes.len()
        invariant
            has_key_events,
            0 <= i <= key_codes@.len(),
            forall|k: int| 0 <= k < i ==> !probe_key(#[trigger] key_codes@[k]),
        decreases key_codes@.len() - i,
    {
        let c = key_codes[i];
        if c == 2 || c == 30 || c == 57 || c == 67 || c == 79 {
            assert(probe_key(key_codes@[i as int]));
            return true;
        }
        i += 1;
    }
    false
}

// ----------------------------------------------------------------------
// Trusted items: the monotonic clock
// ----------------------------------------------------------------------

/// Declares `std::time::Instant`, kept opaque.
#[verifier::external_type_specification]
#[verifier::external_body]
pub struct ExInstant(std::time::Instant);

/// Calls `Instant::now`; nothing is claimed of the instant it returns.
#[verifier::external_body]
fn instant_now() -> Instant {
    Instant::now()
}

/// Calls `Instant::duration_since` (which saturates at zero) and converts
/// the duration to whole milliseconds; nothing is claimed of the value.
#[verifier::external_body]
fn millis_between(earlier: &Instant, later: &Instant) -> u128 {
    later.duration_since(*earlier).as_millis()
}

// ----------------------------------------------------------------------
// The manager
// ----------------------------------------------------------------------

/// Bindings, the names that have a callback, the fallback flag and the
/// per-key time of the last accepted press (milliseconds since `origin`).
pub struct HotkeyManager {
    bindings: KeyMap,
    callbacks: Vec<String>,
    has_fallback: bool,
    origin: Instant,
    last_triggers: Vec<(String, u128)>,
    is_running: bool,
    has_permission: bool,
}

/// A sound `(name, hotkey)` uses the normalised key `k`.
pub open spec fn sound_uses(entry: (String, Option<String>), k: Seq<char>) -> bool {
    match entry.1 {
        Some(h) => text::normalized(h@) == k,
        None => false,
    }
}

/// A bind request that passes the checks on its own text: a known action
/// and a non-empty key of at most `MAX_KEY_BYTES` bytes.
pub open spec fn bindable(action_id: Seq<char>, key: Seq<char>) -> bool {
    &&& known(text::trim_seq(action_id))
    &&& text::normalized(key).len() > 0
    &&& text::byte_len(text::normalized(key)) <= MAX_KEY_BYTES
}

/// Some action other than `id` is bound to the key `k`.
pub open spec fn taken_by_other(m: Map<Seq<char>, Seq<char>>, k: Seq<char>, id: Seq<char>) -> bool {
    exists|n: Seq<char>| #[trigger] m.contains_key(n) && m[n] == k && n != id
}

/// The characters a dispatch names, if it names any.
pub open spec fn dispatch_text(d: Dispatch) -> Option<Seq<char>> {
    match d {
        Dispatch::Action(s) => Some(s@),
        Dispatch::Direct(s) => Some(s@),
        Dispatch::Fallback(s) => Some(s@),
        _ => None,
    }
}

/// The routing of a normalised key, compared by kind and by the text it
/// names.
pub open spec fn routes_to(
    d: Dispatch,
    bindings: KeyMap,
    registered: Set<Seq<char>>,
    has_fallback: bool,
    key: Seq<char>,
) -> bool {
    let bound = bindings.first_bound(key);
    if bound is Some && registered.contains(bound->0) {
        d is Action && dispatch_text(d) == Some(bound->0)
    } else if registered.contains(key) {
        d is Direct && dispatch_text(d) == Some(key)
    } else if has_fallback {
        d is Fallback && dispatch_text(d) == Some(key)
    } else {
        d is Unhandled
    }
}

/// Whether a press `elapsed_ms` milliseconds after the key's last
/// accepted press is ignored.
pub fn debounced(elapsed_ms: u128) -> (b: bool)
    ensures
        b == (elapsed_ms < DEBOUNCE_MS),
{
    elapsed_ms < DEBOUNCE_MS
}

/// Milliseconds from `last` to `now`; zero when `now` is earlier.
pub open spec fn elapsed_since(last: u128, now: u128) -> int {
    if now >= last {
        now - last
    } else {
        0
    }
}

/// A press of the normalised key `k` at `now` is ignored: the key's last
/// accepted press was less than `DEBOUNCE_MS` before.
pub open spec fn is_debounced(presses: Map<Seq<char>, u128>, k: Seq<char>, now: u128) -> bool {
    presses.contains_key(k) && elapsed_since(presses[k], now) < DEBOUNCE_MS
}

/// What a press of `key` at `now` does to the manager `old`, giving `new`
/// and the dispatch `d`: the key is normalised; a debounced press changes
/// nothing; any other press is recorded at `now` and routed as
/// `routes_to` says. Bindings, callbacks, fallback and flags stay.
pub open spec fn pressed_at(old: HotkeyManager, key: Seq<char>, now: u128, new: HotkeyManager, d: Dispatch) -> bool {
    let k = text::normalized(key);
    &&& new.wf()
    &&& (d is Debounced) == is_debounced(old.presses(), k, now)
    &&& d is Debounced ==> new.presses() == old.presses()
    &&& !(d is Debounced) ==> routes_to(d, old.bindings(), old.registered(), old.fallback_set(), k)
        && new.presses() == old.presses().insert(k, now)
    &&& new.bindings() == old.bindings()
    &&& new.registered() == old.registered()
    &&& new.fallback_set() == old.fallback_set()
    &&& new.running() == old.running()
    &&& new.permission() == old.permission()
}

impl HotkeyManager {
    /// The manager's well-formedness: its bindings are, and each key has
    /// at most one recorded press.
    pub closed spec fn wf(&self) -> bool {
        &&& self.bindings.wf()
        &&& forall|i: int, j: int|
            0 <= i < self.last_triggers.len() && 0 <= j < self.last_triggers.len() && i != j
                ==> self.last_triggers@[i].0@ != self.last_triggers@[j].0@
    }

    /// The key bindings, action id to normalised key.
    pub closed spec fn bindings(&self) -> KeyMap {
        self.bindings
    }

    /// Names (action ids or keys) that have a callback.
    pub closed spec fn registered(&self) -> Set<Seq<char>> {
        Set::new(|x: Seq<char>| exists|i: int| 0 <= i < self.callbacks.len() && self.callbacks@[i]@ == x)
    }

    /// Whether a fallback handler is set.
    pub closed spec fn fallback_set(&self) -> bool {
        self.has_fallback
    }

    spec fn press_index(&self, x: Seq<char>) -> int {
        choose|i: int| 0 <= i < self.last_triggers.len() && self.last_triggers@[i].0@ == x
    }

    /// The keys that have had an accepted press, each with the time of the
    /// last one (milliseconds of the manager's clock).
    pub closed spec fn presses(&self) -> Map<Seq<char>, u128> {
        Map::new(
            |x: Seq<char>| exists|i: int| 0 <= i < self.last_triggers.len() && self.last_triggers@[i].0@ == x,
            |x: Seq<char>| self.last_triggers@[self.press_index(x)].1,
        )
    }

    proof fn lemma_press_at(&self, i: int)
        requires
            self.wf(),
            0 <= i < self.last_triggers.len(),
        ensures
            self.presses().contains_key(self.last_triggers@[i].0@),
            self.presses()[self.last_triggers@[i].0@] == self.last_triggers@[i].1,
    {
        let x = self.last_triggers@[i].0@;
        assert(0 <= i < self.last_triggers.len() && self.last_triggers@[i].0@ == x);
        let j = self.press_index(x);
        assert(0 <= j < self.last_triggers.len() && self.last_triggers@[j].0@ == x);
    }

    /// Whether the key listener runs.
    pub closed spec fn running(&self) -> bool {
        self.is_running
    }

    /// Whether the input devices can be read.
    pub closed spec fn permission(&self) -> bool {
        self.has_permission
    }

    /// A manager with the default bindings, no callbacks and no fallback.
    pub fn new(has_permission: bool) -> (m: HotkeyManager)
        ensures
            m.wf(),
            m.bindings()@ == default_map(),
            m.registered() == Set::<Seq<char>>::empty(),
            !m.fallback_set(),
            m.presses() == Map::<Seq<char>, u128>::empty(),
            !m.running(),
            m.permission() == has_permission,
    {
        let m = HotkeyManager {
            bindings: default_bindings(),
            callbacks: Vec::new(),
            has_fallback: false,
            origin: instant_now(),
            last_triggers: Vec::new(),
            is_running: false,
            has_permission,
        };
        assert(m.registered() =~= Set::<Seq<char>>::empty());
        assert(m.presses() =~= Map::<Seq<char>, u128>::empty());
        m
    }

    /// A manager whose bindings are the defaults with `saved` merged in:
    /// a fixed action takes its saved key, normalised, unless that is
    /// empty; other saved entries are dropped.
    pub fn with_bindings(saved: &KeyMap, has_permission: bool) -> (m: HotkeyManager)
        requires
            saved.wf(),
        ensures
            m.wf(),
            m.bindings()@ == merged(saved@),
            m.registered() == Set::<Seq<char>>::empty(),
            !m.fallback_set(),
            m.presses() == Map::<Seq<char>, u128>::empty(),
            !m.running(),
            m.permission() == has_permission,
    {
        let bindings = merge_bindings(saved);
        let m = HotkeyManager {
            bindings,
            callbacks: Vec::new(),
            has_fallback: false,
            origin: instant_now(),
            last_triggers: Vec::new(),
            is_running: false,
            has_permission,
        };
        assert(m.registered() =~= Set::<Seq<char>>::empty());
        assert(m.presses() =~= Map::<Seq<char>, u128>::empty());
        m
    }

    /// Records a fallback handler for keys no binding or callback takes.
    pub fn set_fallback(&mut self)
        requires
            old(self).wf(),
        ensures
            final(self).fallback_set(),
            final(self).bindings() == old(self).bindings(),
            final(self).registered() == old(self).registered(),
            final(self).presses() == old(self).presses(),
            final(self).running() == old(self).running(),
            final(self).permission() == old(self).permission(),
            final(self).wf(),
    {
        self.has_fallback = true;
        proof {
            self.lemma_same_presses(*old(self));
        }
    }

    proof fn lemma_same_presses(&self, other: HotkeyManager)
        requires
            other.wf(),
            self.bindings.wf(),
            self.last_triggers@ == other.last_triggers@,
        ensures
            self.wf(),
    {
        assert forall|i: int, j: int|
            0 <= i < self.last_triggers.len() && 0 <= j < self.last_triggers.len() && i != j implies self.last_triggers@[i].0@
            != self.last_triggers@[j].0@ by {
            assert(self.last_triggers@[i] == other.last_triggers@[i]);
            assert(self.last_triggers@[j] == other.last_triggers@[j]);
        }
    }

    fn add_callback(&mut self, name: String)
        requires
            old(self).wf(),
        ensures
            final(self).wf(),
            final(self).registered() == old(self).registered().insert(name@),
            final(self).bindings() == old(self).bindings(),
            final(self).fallback_set() == old(self).fallback_set(),
            final(self).presses() == old(self).presses(),
            final(self).running() == old(self).running(),
            final(self).permission() == old(self).permission(),
    {
        let ghost before = self.registered();
        let ghost n = name@;
        self.callbacks.push(name);
        proof {
            let len = self.callbacks.len() as int;
            assert forall|x: Seq<char>| #[trigger] self.registered().contains(x) == before.insert(
                n,
            ).contains(x) by {
                if x == n {
                    assert(self.callbacks@[len - 1]@ == x);
                }
                if before.contains(x) {
                    let k = choose|k: int| 0 <= k < len - 1 && old(self).callbacks@[k]@ == x;
                    assert(self.callbacks@[k]@ == x);
                }
                if self.registered().contains(x) && x != n {
                    let k = choose|k: int| 0 <= k < len && self.callbacks@[k]@ == x;
                    assert(old(self).callbacks@[k]@ == x);
                }
            }
            assert(self.registered() =~= before.insert(n));
            self.lemma_same_presses(*old(self));
        }
    }

    /// Registers a callback under `action_id` and, when the normalised
    /// `key` is not empty, binds the action to it.
    pub fn register_action(&mut self, action_id: &str, key: &str)
        requires
            old(self).wf(),
        ensures
            final(self).wf(),
            final(self).registered() == old(self).registered().insert(action_id@),
            text::normalized(key@).len() > 0 ==> final(self).bindings()@ == old(
                self,
            ).bindings()@.insert(action_id@, text::normalized(key@)),
            text::normalized(key@).len() == 0 ==> final(self).bindings() == old(self).bindings(),
            final(self).fallback_set() == old(self).fallback_set(),
            final(self).presses() == old(self).presses(),
            final(self).running() == old(self).running(),
            final(self).permission() == old(self).permission(),
    {
        let normalized = normalize_key(key);
        self.add_callback(action_id.to_string());
        let ghost mid = *self;
        if !normalized.as_str().is_empty() {
            self.bindings.insert(action_id, normalized);
        }
        proof {
            self.lemma_same_presses(mid);
        }
    }

    /// Registers a callback directly under the normalised `key`.
    pub fn register(&mut self, key: &str)
        requires
            old(self).wf(),
        ensures
            final(self).wf(),
            final(self).registered() == old(self).registered().insert(text::normalized(key@)),
            final(self).bindings() == old(self).bindings(),
            final(self).fallback_set() == old(self).fallback_set(),
            final(self).presses() == old(self).presses(),
            final(self).running() == old(self).running(),
            final(self).permission() == old(self).permission(),
    {
        let normalized = normalize_key(key);
        self.add_callback(normalized);
    }

    /// Remaps `action_id` to the normalised `new_key`. When another action
    /// already uses that key, returns its id and changes nothing; an empty
    /// key unbinds the action.
    pub fn set_binding(&mut self, action_id: &str, new_key: &str) -> (r: Option<String>)
        requires
            old(self).wf(),
        ensures
            final(self).wf(),
            match r {
                Some(other) => {
                    &&& text::normalized(new_key@).len() > 0
                    &&& other@ != action_id@
                    &&& old(self).bindings()@.contains_key(other@)
                    &&& old(self).bindings()@[other@] == text::normalized(new_key@)
                    &&& final(self).bindings() == old(self).bindings()
                },
                None => {
                    &&& text::normalized(new_key@).len() == 0 ==> final(self).bindings()@ == old(
                        self,
                    ).bindings()@.remove(action_id@)
                    &&& text::normalized(new_key@).len() > 0 ==> final(self).bindings()@ == old(
                        self,
                    ).bindings()@.insert(action_id@, text::normalized(new_key@))
                },
            },
            (text::normalized(new_key@).len() == 0 || !taken_by_other(
                old(self).bindings()@,
                text::normalized(new_key@),
                action_id@,
            )) <==> r is None,
            final(self).registered() == old(self).registered(),
            final(self).fallback_set() == old(self).fallback_set(),
            final(self).presses() == old(self).presses(),
            final(self).running() == old(self).running(),
            final(self).permission() == old(self).permission(),
    {
        let normalized = normalize_key(new_key);
        if !normalized.as_str().is_empty() {
            let conflict = self.bindings.name_with_value_except(
                normalized.as_str(),
                Some(action_id),
            );
            if conflict.is_some() {
                return conflict;
            }
            self.bindings.insert(action_id, normalized);
        } else {
            self.bindings.remove(action_id);
        }
        None
    }

    /// Restores the default bindings.
    pub fn reset_bindings(&mut self)
        requires
            old(self).wf(),
        ensures
            final(self).wf(),
            final(self).bindings()@ == default_map(),
            final(self).registered() == old(self).registered(),
            final(self).fallback_set() == old(self).fallback_set(),
            final(self).presses() == old(self).presses(),
            final(self).running() == old(self).running(),
            final(self).permission() == old(self).permission(),
    {
        self.bindings = default_bindings();
        proof {
            self.lemma_same_presses(*old(self));
        }
    }

    /// A copy of the current bindings.
    pub fn bindings_snapshot(&self) -> (r: KeyMap)
        requires
            self.wf(),
        ensures
            r.wf(),
            r@ == self.bindings()@,
            r.order() == self.bindings().order(),
    {
        self.bindings.snapshot()
    }

    fn has_callback(&self, name: &str) -> (b: bool)
        ensures
            b == self.registered().contains(name@),
    {
        let mut i: usize = 0;
        while i < self.callbacks.len()
            invariant
                0 <= i <= self.callbacks.len(),
                forall|j: int| 0 <= j < i ==> (#[trigger] self.callbacks@[j])@ != name@,
            decreases self.callbacks.len() - i,
        {
            if text::same_text(self.callbacks[i].as_str(), name) {
                return true;
            }
            i += 1;
        }
        proof {
            if self.registered().contains(name@) {
                let k = choose|k: int| 0 <= k < self.callbacks.len() && self.callbacks@[k]@ == name@;
                assert(self.callbacks@[k]@ != name@);
            }
        }
        false
    }

    /// Where a press of the already normalised `key` goes: the callback of
    /// the first action bound to it, else a callback registered directly
    /// under it, else the fallback handler, else nowhere.
    pub fn route_key(&self, key: &str) -> (d: Dispatch)
        requires
            self.wf(),
        ensures
            routes_to(d, self.bindings(), self.registered(), self.fallback_set(), key@),
    {
        let bound = self.bindings.first_name_with_value(key);
        if let Some(id) = bound {
            if self.has_callback(id.as_str()) {
                return Dispatch::Action(id);
            }
        }
        if self.has_callback(key) {
            return Dispatch::Direct(key.to_string());
        }
        if self.has_fallback {
            return Dispatch::Fallback(key.to_string());
        }
        Dispatch::Unhandled
    }

    fn last_trigger_of(&self, key: &str) -> (r: Option<usize>)
        ensures
            match r {
                Some(i) => i < self.last_triggers.len() && self.last_triggers@[i as int].0@ == key@,
                None => !self.presses().contains_key(key@),
            },
    {
        let mut i: usize = 0;
        while i < self.last_triggers.len()
            invariant
                0 <= i <= self.last_triggers.len(),
                forall|j: int| 0 <= j < i ==> (#[trigger] self.last_triggers@[j]).0@ != key@,
            decreases self.last_triggers.len() - i,
        {
            if text::same_text(self.last_triggers[i].0.as_str(), key) {
                return Some(i);
            }
            i += 1;
        }
        proof {
            if self.presses().contains_key(key@) {
                let k = choose|k: int|
                    0 <= k < self.last_triggers.len() && self.last_triggers@[k].0@ == key@;
                assert(self.last_triggers@[k].0@ != key@);
            }
        }
        None
    }

    /// Handles a press of `key` at `now_ms` (milliseconds of the manager's
    /// clock), as `pressed_at` says: the key is normalised; a press within
    /// `DEBOUNCE_MS` of the key's last accepted press is ignored and
    /// changes nothing; any other press is recorded at `now_ms` and routed
    /// as `route_key` says.
    pub fn trigger_at(&mut self, key: &str, now_ms: u128) -> (d: Dispatch)
        requires
            old(self).wf(),
        ensures
            pressed_at(*old(self), key@, now_ms, *final(self), d),
    {
        let normalized = normalize_key(key);
        let ghost n = normalized@;
        let ghost before = *self;
        match self.last_trigger_of(normalized.as_str()) {
            Some(i) => {
                let last = self.last_triggers[i].1;
                let elapsed: u128 = if now_ms >= last {
                    now_ms - last
                } else {
                    0
                };
                proof {
                    before.lemma_press_at(i as int);
                }
                if debounced(elapsed) {
                    return Dispatch::Debounced;
                }
                let entry = (self.last_triggers[i].0.clone(), now_ms);
                self.last_triggers.set(i, entry);
                proof {
                    let after = *self;
                    assert forall|a: int, b: int|
                        0 <= a < after.last_triggers.len() && 0 <= b < after.last_triggers.len() && a
                            != b implies after.last_triggers@[a].0@ != after.last_triggers@[b].0@ by {
                        assert(after.last_triggers@[a].0@ == before.last_triggers@[a].0@);
                        assert(after.last_triggers@[b].0@ == before.last_triggers@[b].0@);
                    }
                    assert forall|x: Seq<char>| #[trigger] after.presses().contains_key(x)
                        == before.presses().contains_key(x) by {
                        if before.presses().contains_key(x) {
                            let k = before.press_index(x);
                            assert(after.last_triggers@[k].0@ == x);
                        }
                        if after.presses().contains_key(x) {
                            let k = after.press_index(x);
                            assert(before.last_triggers@[k].0@ == x);
                        }
                    }
                    assert forall|x: Seq<char>| after.presses().contains_key(x) implies #[trigger] after.presses()[x]
                        == before.presses().insert(n, now_ms)[x] by {
                        let k = after.press_index(x);
                        after.lemma_press_at(k);
                        if k != i {
                            before.lemma_press_at(k);
                        }
                    }
                    assert(after.presses() =~= before.presses().insert(n, now_ms));
                }
            },
            None => {
                self.last_triggers.push((normalized.clone(), now_ms));
                proof {
                    let after = *self;
                    let len = after.last_triggers.len() as int;
                    assert forall|a: int, b: int|
                        0 <= a < len && 0 <= b < len && a != b implies after.last_triggers@[a].0@
                        != after.last_triggers@[b].0@ by {
                        if a == len - 1 {
                            assert(before.last_triggers@[b].0@ != n) by {
                                if before.last_triggers@[b].0@ == n {
                                    assert(before.presses().contains_key(n));
                                }
                            }
                        } else if b == len - 1 {
                            assert(before.last_triggers@[a].0@ != n) by {
                                if before.last_triggers@[a].0@ == n {
                                    assert(before.presses().contains_key(n));
                                }
                            }
                        }
                    }
                    assert forall|x: Seq<char>| #[trigger] after.presses().contains_key(x)
                        == before.presses().insert(n, now_ms).contains_key(x) by {
                        if x == n {
                            assert(after.last_triggers@[len - 1].0@ == x);
                        }
                        if before.presses().contains_key(x) {
                            let k = before.press_index(x);
                            assert(after.last_triggers@[k].0@ == x);
                        }
                        if after.presses().contains_key(x) && x != n {
                            let k = after.press_index(x);
                            assert(before.last_triggers@[k].0@ == x);
                        }
                    }
                    assert forall|x: Seq<char>| after.presses().contains_key(x) implies #[trigger] after.presses()[x]
                        == before.presses().insert(n, now_ms)[x] by {
                        let k = after.press_index(x);
                        after.lemma_press_at(k);
                        if k != len - 1 {
                            before.lemma_press_at(k);
                        }
                    }
                    assert(after.presses() =~= before.presses().insert(n, now_ms));
                }
            },
        }
        self.route_key(normalized.as_str())
    }

    /// Handles a press of `key` now, as `trigger_at` does at the reading
    /// of the manager's monotonic clock (which only the clock decides).
    pub fn trigger(&mut self, key: &str) -> (d: Dispatch)
        requires
            old(self).wf(),
        ensures
            exists|now_ms: u128| #[trigger] pressed_at(*old(self), key@, now_ms, *final(self), d),
    {
        let now = instant_now();
        let now_ms = millis_between(&self.origin, &now);
        let d = self.trigger_at(key, now_ms);
        assert(pressed_at(*old(self), key@, now_ms, *self, d));
        d
    }

    /// The hotkey table: every fixed action with its label and its bound
    /// key (or its default key when unbound); the backend is `evdev` with
    /// input permission, else `in_window`.
    pub fn get_status(&self) -> (s: HotkeyStatus)
        requires
            self.wf(),
        ensures
            s.has_permission == self.permission(),
            s.is_running == self.running(),
            s.backend@ == (if self.permission() {
                "evdev"@
            } else {
                "in_window"@
            }),
            s.hotkeys.len() == ACTION_COUNT,
            forall|i: int|
                0 <= i < ACTION_COUNT ==> {
                    let item = #[trigger] s.hotkeys@[i];
                    &&& item.id@ == default_ids()[i]
                    &&& item.action@ == default_labels()[i]
                    &&& item.key@ == (if self.bindings()@.contains_key(default_ids()[i]) {
                        self.bindings()@[default_ids()[i]]
                    } else {
                        default_keys()[i]
                    })
                },
    {
        let mut hotkeys: Vec<HotkeyItem> = Vec::new();
        let mut i: usize = 0;
        while i < ACTION_COUNT
            invariant
                0 <= i <= ACTION_COUNT,
                self.wf(),
                hotkeys.len() == i,
                forall|j: int|
                    0 <= j < i ==> {
                        let item = #[trigger] hotkeys@[j];
                        &&& item.id@ == default_ids()[j]
                        &&& item.action@ == default_labels()[j]
                        &&& item.key@ == (if self.bindings()@.contains_key(default_ids()[j]) {
                            self.bindings()@[default_ids()[j]]
                        } else {
                            default_keys()[j]
                        })
                    },
            decreases ACTION_COUNT - i,
        {
            let (id, _, default_key) = default_hotkey(i);
            let key = match self.bindings.get(id) {
                Some(k) => k,
                None => default_key.to_string(),
            };
            let label = action_label(id);
            proof {
                lemma_action_pos(id@, i as int);
            }
            hotkeys.push(HotkeyItem { id: id.to_string(), action: label, key });
            i += 1;
        }
        let backend = if self.has_permission {
            "evdev".to_string()
        } else {
            "in_window".to_string()
        };
        HotkeyStatus {
            backend,
            has_permission: self.has_permission,
            is_running: self.is_running,
            hotkeys,
        }
    }

    /// Marks the key listener as running; returns whether it was stopped
    /// before (and so has to be started now).
    pub fn start(&mut self) -> (started: bool)
        ensures
            started == !old(self).running(),
            final(self).running(),
            final(self).bindings() == old(self).bindings(),
            final(self).registered() == old(self).registered(),
            final(self).fallback_set() == old(self).fallback_set(),
            final(self).presses() == old(self).presses(),
            final(self).permission() == old(self).permission(),
            final(self).wf() == old(self).wf(),
    {
        if self.is_running {
            return false;
        }
        self.is_running = true;
        true
    }

    /// Marks the key listener as stopped.
    pub fn stop(&mut self)
        ensures
            !final(self).running(),
            final(self).bindings() == old(self).bindings(),
            final(self).registered() == old(self).registered(),
            final(self).fallback_set() == old(self).fallback_set(),
            final(self).presses() == old(self).presses(),
            final(self).permission() == old(self).permission(),
            final(self).wf() == old(self).wf(),
    {
        self.is_running = false;
        proof {
            let before = *old(self);
            if before.wf() {
                self.lemma_same_presses(before);
            }
            if self.wf() {
                before.lemma_same_presses(*self);
            }
        }
    }

    /// Whether the key listener runs.
    pub fn is_running(&self) -> (b: bool)
        ensures
            b == self.running(),
    {
        self.is_running
    }

    /// The bindings of the fixed actions only, as they are persisted.
    pub fn known_bindings(&self) -> (r: Vec<(String, String)>)
        requires
            self.wf(),
        ensures
            forall|i: int|
                0 <= i < r.len() ==> known((#[trigger] r@[i]).0@) && self.bindings()@.contains_key(
                    r@[i].0@,
                ) && self.bindings()@[r@[i].0@] == r@[i].1@,
            forall|n: Seq<char>|
                known(n) && self.bindings()@.contains_key(n) ==> exists|i: int|
                    0 <= i < r.len() && (#[trigger] r@[i]).0@ == n,
    {
        let all = self.bindings.pairs();
        let mut r: Vec<(String, String)> = Vec::new();
        let mut i: usize = 0;
        while i < all.len()
            invariant
                0 <= i <= all.len(),
                forall|j: int|
                    0 <= j < all.len() ==> self.bindings()@.contains_key((#[trigger] all@[j]).0@)
                        && self.bindings()@[all@[j].0@] == all@[j].1@,
                forall|j: int|
                    0 <= j < r.len() ==> known((#[trigger] r@[j]).0@) && self.bindings()@.contains_key(
                        r@[j].0@,
                    ) && self.bindings()@[r@[j].0@] == r@[j].1@,
                forall|j: int|
                    0 <= j < i && known((#[trigger] all@[j]).0@) ==> exists|k: int|
                        0 <= k < r.len() && (#[trigger] r@[k]).0@ == all@[j].0@,
            decreases all.len() - i,
        {
            let ghost before = r@;
            if is_known_action(all[i].0.as_str()) {
                r.push((all[i].0.clone(), all[i].1.clone()));
            }
            proof {
                assert forall|j: int|
                    0 <= j < i + 1 && known((#[trigger] all@[j]).0@) implies exists|k: int|
                    0 <= k < r.len() && (#[trigger] r@[k]).0@ == all@[j].0@ by {
                    if j < i {
                        let k = choose|k: int|
                            0 <= k < before.len() && (#[trigger] before[k]).0@ == all@[j].0@;
                        assert(r@[k] == before[k]);
                    } else {
                        assert(r@[r.len() - 1].0@ == all@[i as int].0@);
                    }
                }
            }
            i += 1;
        }
        proof {
            assert forall|n: Seq<char>|
                known(n) && self.bindings()@.contains_key(n) implies exists|i: int|
                0 <= i < r.len() && (#[trigger] r@[i]).0@ == n by {
                let j = choose|j: int| 0 <= j < all.len() && (#[trigger] all@[j]).0@ == n;
                assert(known(all@[j].0@));
            }
        }
        r
    }

    /// Handles a user's request to bind `action_id` (trimmed) to `key`
    /// (normalised), given the hotkeys of the soundboard's sounds as
    /// `(name, hotkey)`: refuses an unknown action, an empty or over-long
    /// key, a key another action uses and a key a sound uses (the first
    /// such sound is named); otherwise binds the action to the key.
    pub fn bind_from_user(
        &mut self,
        action_id: &str,
        key: &str,
        sound_hotkeys: &Vec<(String, Option<String>)>,
    ) -> (r: BindOutcome)
        requires
            old(self).wf(),
        ensures
            final(self).wf(),
            !known(text::trim_seq(action_id@)) ==> r == BindOutcome::UnknownAction,
            known(text::trim_seq(action_id@)) && text::normalized(key@).len() == 0 ==> r
                == BindOutcome::EmptyKey,
            known(text::trim_seq(action_id@)) && text::normalized(key@).len() > 0 && text::byte_len(text::normalized(key@)) > MAX_KEY_BYTES ==> r == BindOutcome::InvalidKey,
            r matches BindOutcome::ConflictAction(other) ==> {
                &&& bindable(action_id@, key@)
                &&& other@ != text::trim_seq(action_id@)
                &&& old(self).bindings()@.contains_key(other@)
                &&& old(self).bindings()@[other@] == text::normalized(key@)
            },
            bindable(action_id@, key@) && taken_by_other(
                old(self).bindings()@,
                text::normalized(key@),
                text::trim_seq(action_id@),
            ) ==> r is ConflictAction,
            r matches BindOutcome::ConflictSound(name) ==> {
                &&& bindable(action_id@, key@)
                &&& !taken_by_other(
                    old(self).bindings()@,
                    text::normalized(key@),
                    text::trim_seq(action_id@),
                )
                &&& exists|i: int|
                    0 <= i < sound_hotkeys.len() && (#[trigger] sound_hotkeys@[i]).0@ == name@
                        && sound_uses(sound_hotkeys@[i], text::normalized(key@)) && forall|j: int|
                        0 <= j < i ==> !sound_uses(#[trigger] sound_hotkeys@[j], text::normalized(key@))
            },
            bindable(action_id@, key@) && !taken_by_other(
                old(self).bindings()@,
                text::normalized(key@),
                text::trim_seq(action_id@),
            ) && (exists|i: int|
                0 <= i < sound_hotkeys.len() && sound_uses(
                    #[trigger] sound_hotkeys@[i],
                    text::normalized(key@),
                )) ==> r is ConflictSound,
            r matches BindOutcome::Bound { action_id: a, key: k } ==> {
                &&& a@ == text::trim_seq(action_id@)
                &&& known(a@)
                &&& k@ == text::normalized(key@)
                &&& k@.len() > 0
                &&& text::byte_len(k@) <= MAX_KEY_BYTES
                &&& forall|i: int|
                    0 <= i < sound_hotkeys.len() ==> !sound_uses(#[trigger] sound_hotkeys@[i], k@)
                &&& forall|n: Seq<char>|
                    #![trigger old(self).bindings()@[n]]
                    old(self).bindings()@.contains_key(n) && old(self).bindings()@[n] == k@ ==> n
                        == a@
                &&& final(self).bindings()@ == old(self).bindings()@.insert(a@, k@)
            },
            bindable(action_id@, key@) && !taken_by_other(
                old(self).bindings()@,
                text::normalized(key@),
                text::trim_seq(action_id@),
            ) && (forall|i: int|
                0 <= i < sound_hotkeys.len() ==> !sound_uses(
                    #[trigger] sound_hotkeys@[i],
                    text::normalized(key@),
                )) ==> r is Bound,
            !(r is Bound) ==> final(self).bindings() == old(self).bindings(),
            final(self).registered() == old(self).registered(),
            final(self).fallback_set() == old(self).fallback_set(),
            final(self).presses() == old(self).presses(),
            final(self).running() == old(self).running(),
            final(self).permission() == old(self).permission(),
    {
        let id = text::trim(action_id);
        if !is_known_action(id.as_str()) {
            return BindOutcome::UnknownAction;
        }
        let normalized = normalize_key(key);
        if normalized.as_str().is_empty() {
            return BindOutcome::EmptyKey;
        }
        if normalized.as_str().len() > MAX_KEY_BYTES {
            return BindOutcome::InvalidKey;
        }
        match self.bindings.name_with_value_except(normalized.as_str(), Some(id.as_str())) {
            Some(other) => {
                return BindOutcome::ConflictAction(other);
            },
            None => {},
        }
        let mut i: usize = 0;
        while i < sound_hotkeys.len()
            invariant
                0 <= i <= sound_hotkeys.len(),
                forall|j: int| 0 <= j < i ==> !sound_uses(#[trigger] sound_hotkeys@[j], normalized@),
                *self == *old(self),
                self.wf(),
                known(id@),
                id@ == text::trim_seq(action_id@),
                normalized@ == text::normalized(key@),
                normalized@.len() > 0,
                text::byte_len(normalized@) <= MAX_KEY_BYTES,
                forall|n: Seq<char>|
                    #![trigger self.bindings()@[n]]
                    self.bindings()@.contains_key(n) && self.bindings()@[n] == normalized@ ==> n
                        == id@,
            decreases sound_hotkeys.len() - i,
        {
            if let Some(h) = &sound_hotkeys[i].1 {
                let hn = normalize_key(h.as_str());
                if text::same_text(hn.as_str(), normalized.as_str()) {
                    return BindOutcome::ConflictSound(sound_hotkeys[i].0.clone());
                }
            }
            i += 1;
        }
        let bound = normalized.clone();
        self.bindings.insert(id.as_str(), bound);
        BindOutcome::Bound { action_id: id, key: normalized }
    }
}


// ----------------------------------------------------------------------
// Laws
// ----------------------------------------------------------------------

/// After an action with a callback is remapped to a key (a `set_binding`
/// that found no conflict), pressing that key runs the action.
pub proof fn law_remap_routes_to_action(
    before: HotkeyManager,
    after: HotkeyManager,
    action_id: Seq<char>,
    new_key: Seq<char>,
)
    requires
        before.wf(),
        after.wf(),
        before.registered().contains(action_id),
        text::normalized(new_key).len() > 0,
        forall|n: Seq<char>|
            #![trigger before.bindings()@[n]]
            before.bindings()@.contains_key(n) && before.bindings()@[n] == text::normalized(new_key)
                ==> n == action_id,
        after.bindings()@ == before.bindings()@.insert(action_id, text::normalized(new_key)),
        after.registered() == before.registered(),
    ensures
        after.bindings().first_bound(text::normalized(new_key)) == Some(action_id),
        forall|d: Dispatch|
            routes_to(d, after.bindings(), after.registered(), after.fallback_set(), text::normalized(new_key))
                ==> d is Action && dispatch_text(d) == Some(action_id),
{
    let k = text::normalized(new_key);
    assert forall|n: Seq<char>| #![trigger after.bindings()@[n]]
        after.bindings()@.contains_key(n) && after.bindings()@[n] == k implies n == action_id by {
        if n != action_id {
            assert(before.bindings()@.contains_key(n) && before.bindings()@[n] == k);
        }
    }
    after.bindings().lemma_first_bound_unique(k, action_id);
}

/// A key bound to no action, with no direct callback, goes to the fallback
/// handler when one is set (the soundboard's hotkeys), else nowhere.
pub proof fn law_unbound_key_falls_back(m: HotkeyManager, key: Seq<char>, d: Dispatch)
    requires
        m.wf(),
        forall|n: Seq<char>|
            #![trigger m.bindings()@[n]]
            m.bindings()@.contains_key(n) ==> m.bindings()@[n] != key,
        !m.registered().contains(key),
        routes_to(d, m.bindings(), m.registered(), m.fallback_set(), key),
    ensures
        m.fallback_set() ==> d is Fallback && dispatch_text(d) == Some(key),
        !m.fallback_set() ==> d is Unhandled,
{
    let names = m.bindings().order();
    assert(m.bindings().first_bound(key) is None) by {
        if exists|i: int| 0 <= i < names.len() && #[trigger] m.bindings()@[names[i]] == key {
            let i = choose|i: int| 0 <= i < names.len() && #[trigger] m.bindings()@[names[i]] == key;
            m.bindings().lemma_order_in_map(i);
            assert(m.bindings()@[names[i]] != key);
        }
    }
}

/// The defaults with the saved bindings merged in (see `merged`).
fn merge_bindings(saved: &KeyMap) -> (m: KeyMap)
    requires
        saved.wf(),
    ensures
        m.wf(),
        m@ == merged(saved@),
{
    let pairs = saved.pairs();
    let mut m = default_bindings();
    let mut i: usize = 0;
    while i < pairs.len()
        invariant
            0 <= i <= pairs.len(),
            m.wf(),
            forall|j: int|
                0 <= j < pairs.len() ==> saved@.contains_key((#[trigger] pairs@[j]).0@)
                    && saved@[pairs@[j].0@] == pairs@[j].1@,
            forall|a: int, b: int|
                0 <= a < pairs.len() && 0 <= b < pairs.len() && a != b ==> pairs@[a].0@
                    != pairs@[b].0@,
            forall|x: Seq<char>| #[trigger] m@.contains_key(x) == known(x),
            forall|x: Seq<char>|
                #![trigger m@[x]]
                known(x) ==> m@[x] == (if exists|j: int|
                    0 <= j < i && (#[trigger] pairs@[j]).0@ == x && text::normalized(pairs@[j].1@).len()
                        > 0 {
                    text::normalized(saved@[x])
                } else {
                    default_map()[x]
                }),
        decreases pairs.len() - i,
    {
        let id = pairs[i].0.as_str();
        let normalized = normalize_key(pairs[i].1.as_str());
        let ghost before = m@;
        if is_known_action(id) && !normalized.as_str().is_empty() {
            m.insert(id, normalized);
        }
        proof {
            assert forall|x: Seq<char>| #![trigger m@[x]] known(x) implies m@[x] == (if exists|j: int|
                0 <= j < i + 1 && (#[trigger] pairs@[j]).0@ == x && text::normalized(pairs@[j].1@).len()
                    > 0 {
                text::normalized(saved@[x])
            } else {
                default_map()[x]
            }) by {
                if x == pairs@[i as int].0@ {
                    if exists|j: int|
                        0 <= j < i && (#[trigger] pairs@[j]).0@ == x && text::normalized(
                            pairs@[j].1@,
                        ).len() > 0 {
                        let j = choose|j: int|
                            0 <= j < i && (#[trigger] pairs@[j]).0@ == x && text::normalized(
                                pairs@[j].1@,
                            ).len() > 0;
                        assert(pairs@[j].0@ != pairs@[i as int].0@);
                    }
                } else {
                    if exists|j: int|
                        0 <= j < i + 1 && (#[trigger] pairs@[j]).0@ == x && text::normalized(
                            pairs@[j].1@,
                        ).len() > 0 {
                        let j = choose|j: int|
                            0 <= j < i + 1 && (#[trigger] pairs@[j]).0@ == x && text::normalized(
                                pairs@[j].1@,
                            ).len() > 0;
                        assert(j < i);
                    }
                }
            }
        }
        i += 1;
    }
    proof {
        assert forall|x: Seq<char>| m@.contains_key(x) implies #[trigger] m@[x] == merged(saved@)[x] by {
            if saved@.contains_key(x) && text::normalized(saved@[x]).len() > 0 {
                let j = choose|j: int| 0 <= j < pairs.len() && (#[trigger] pairs@[j]).0@ == x;
                assert(pairs@[j].1@ == saved@[x]);
            }
        }
        assert(m@ =~= merged(saved@));
    }
    m
}

} // verus!
