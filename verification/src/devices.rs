//! Device-name rules: which endpoints are Audiover's own virtual devices,
//! how a saved device name is matched again after re-enumeration, and
//! which device the engine falls back to.
use vstd::prelude::*;
use crate::text;

verus! {

/// Name stored as the selected monitor when monitor output is disabled.
pub const MONITOR_DISABLED: &'static str = "none";

/// One enumerated audio endpoint, as the settings page lists it.
#[derive(Debug, Clone)]
pub struct AudioDeviceInfo {
    pub index: usize,
    pub name: String,
    pub is_default: bool,
}

// ----------------------------------------------------------------------
// Specifications
// ----------------------------------------------------------------------

/// A name belongs to Audiover's own virtual devices or to a generic
/// virtual endpoint (null sink, remapped source).
pub open spec fn virtual_name(name: Seq<char>) -> bool {
    virtual_lower(text::lowercase(name))
}

/// A lower-cased name of a virtual device: it mentions `audiover`,
/// `virtual_sink`, `null_sink` or `remap_source`.
pub open spec fn virtual_lower(lower: Seq<char>) -> bool {
    ||| text::contains_seq(lower, "audiover"@)
    ||| text::contains_seq(lower, "virtual_sink"@)
    ||| text::contains_seq(lower, "null_sink"@)
    ||| text::contains_seq(lower, "remap_source"@)
}

/// A name that the engine takes for Audiover's virtual sink (and not for
/// its virtual microphone).
pub open spec fn virtual_sink_name(name: Seq<char>) -> bool {
    virtual_sink_lower(text::lowercase(name))
}

/// A lower-cased name of Audiover's virtual sink: it mentions Audiover's
/// sink (or Audiover) and neither a microphone, a source nor a remap.
pub open spec fn virtual_sink_lower(lower: Seq<char>) -> bool {
    &&& (text::contains_seq(lower, "audiover_sink"@) || text::contains_seq(lower, "audiover_virtual_sink"@)
        || text::contains_seq(lower, "audiover"@))
    &&& !text::contains_seq(lower, "mic"@)
    &&& !text::contains_seq(lower, "source"@)
    &&& !text::contains_seq(lower, "remap"@)
}

/// The form a saved device name is compared in: trimmed, then lower-cased.
pub open spec fn clean_name(saved: Seq<char>) -> Seq<char> {
    text::lowercase(text::trim_seq(saved))
}

/// A listed device name answers to a saved name: equal or containing it,
/// case-insensitively.
pub open spec fn name_answers(device: Seq<char>, saved: Seq<char>) -> bool {
    answers_lower(text::lowercase(device), clean_name(saved))
}

/// A lower-cased device name answers to a cleaned saved name: equal to it
/// or containing it.
pub open spec fn answers_lower(a: Seq<char>, b: Seq<char>) -> bool {
    a == b || text::contains_seq(a, b)
}

/// The saved name picks device `device`: it is non-empty once cleaned, the
/// device answers to it and is not a virtual device.
pub open spec fn saved_picks(device: Seq<char>, saved: Seq<char>) -> bool {
    &&& clean_name(saved).len() > 0
    &&& name_answers(device, saved)
    &&& !virtual_name(device)
}

/// Index of the first name in `names` that satisfies `p`.
#[verifier::opaque]
pub open spec fn first_index(names: Seq<String>, p: spec_fn(Seq<char>) -> bool) -> Option<int> {
    if exists|i: int| 0 <= i < names.len() && p(#[trigger] names[i]@) {
        let i = choose|i: int|
            0 <= i < names.len() && p(#[trigger] names[i]@) && forall|j: int|
                0 <= j < i ==> !p(#[trigger] names[j]@);
        Some(i)
    } else {
        None
    }
}

/// `r` is the index of the first name in `names` that satisfies `p`, or
/// `None` when no name does.
pub open spec fn is_first_index(names: Seq<String>, p: spec_fn(Seq<char>) -> bool, r: Option<usize>) -> bool {
    match r {
        Some(i) => {
            &&& i < names.len()
            &&& p(names[i as int]@)
            &&& forall|j: int| 0 <= j < i ==> !p(#[trigger] names[j]@)
        },
        None => forall|j: int| 0 <= j < names.len() ==> !p(#[trigger] names[j]@),
    }
}


/// Names picked by the saved name `s`.
pub open spec fn picked_by(s: Seq<char>) -> spec_fn(Seq<char>) -> bool {
    |d: Seq<char>| saved_picks(d, s)
}

/// Names of physical (non-virtual) devices.
pub open spec fn physical() -> spec_fn(Seq<char>) -> bool {
    |d: Seq<char>| !virtual_name(d)
}

/// Names that answer to `n`.
pub open spec fn answering(n: Seq<char>) -> spec_fn(Seq<char>) -> bool {
    |d: Seq<char>| name_answers(d, n)
}

/// Which device the engine opens.
#[derive(Debug, Clone, Copy, PartialEq, Eq, Structural)]
pub enum DeviceChoice {
    /// The device at this position of the enumerated list.
    Listed(usize),
    /// The host's default device.
    HostDefault,
}

/// The engine's choice of device: the saved name first, then the host
/// default unless it is virtual, then the first non-virtual listed device.
pub open spec fn device_choice(
    names: Seq<String>,
    default_name: Option<Seq<char>>,
    saved: Option<Seq<char>>,
) -> Option<DeviceChoice> {
    let by_saved = match saved {
        Some(s) => first_index(names, picked_by(s)),
        None => None,
    };
    if by_saved is Some {
        Some(DeviceChoice::Listed(by_saved->0 as usize))
    } else if default_name is Some && !virtual_name(default_name->0) {
        Some(DeviceChoice::HostDefault)
    } else {
        match first_index(names, physical()) {
            Some(i) => Some(DeviceChoice::Listed(i as usize)),
            None => None,
        }
    }
}

// ----------------------------------------------------------------------
// Lemmas
// ----------------------------------------------------------------------

proof fn lemma_first_index(names: Seq<String>, p: spec_fn(Seq<char>) -> bool, r: Option<usize>)
    requires
        is_first_index(names, p, r),
    ensures
        first_index(names, p) == (match r {
            Some(i) => Some(i as int),
            None => None::<int>,
        }),
{
    reveal(first_index);
    if let Some(i) = r {
        assert(0 <= i < names.len() && p(names[i as int]@));
        let k = choose|k: int|
            0 <= k < names.len() && p(#[trigger] names[k]@) && forall|j: int|
                0 <= j < k ==> !p(#[trigger] names[j]@);
        if k < i {
            assert(!p(names[k]@));
        }
        if i < k {
            assert(!p(names[i as int]@));
        }
    }
}


/// The engine never opens one of Audiover's own virtual devices as the
/// microphone or the monitor: a listed choice is a physical device, and
/// the host default is only chosen when it is physical.
pub proof fn law_choice_never_virtual(
    names: Seq<String>,
    default_name: Option<Seq<char>>,
    saved: Option<Seq<char>>,
)
    requires
        names.len() <= usize::MAX,
    ensures
        device_choice(names, default_name, saved) matches Some(DeviceChoice::Listed(i)) ==> i < names.len()
            && !virtual_name(names[i as int]@),
        device_choice(names, default_name, saved) matches Some(DeviceChoice::HostDefault) ==> (default_name matches Some(
            d,
        ) && !virtual_name(d)),
{
    let by_saved = match saved {
        Some(s) => first_index(names, picked_by(s)),
        None => None,
    };
    if let Some(s) = saved {
        lemma_first_index_sound(names, picked_by(s));
        if let Some(i) = first_index(names, picked_by(s)) {
            assert(saved_picks(names[i]@, s));
        }
    }
    lemma_first_index_sound(names, physical());
    if let Some(i) = first_index(names, physical()) {
        assert(!virtual_name(names[i]@));
    }
}

/// The index `first_index` gives satisfies the predicate.
proof fn lemma_first_index_sound(names: Seq<String>, p: spec_fn(Seq<char>) -> bool)
    ensures
        first_index(names, p) matches Some(i) ==> 0 <= i < names.len() && p(names[i]@),
{
    reveal(first_index);
    if exists|i: int| 0 <= i < names.len() && p(#[trigger] names[i]@) {
        let w = choose|i: int| 0 <= i < names.len() && p(#[trigger] names[i]@);
        lemma_least(names, p, w);
    }
}

/// Where some name satisfies `p`, a first one does.
proof fn lemma_least(names: Seq<String>, p: spec_fn(Seq<char>) -> bool, w: int)
    requires
        0 <= w < names.len(),
        p(names[w]@),
    ensures
        exists|i: int|
            0 <= i < names.len() && p(#[trigger] names[i]@) && forall|j: int|
                0 <= j < i ==> !p(#[trigger] names[j]@),
    decreases w,
{
    if exists|j: int| 0 <= j < w && p(#[trigger] names[j]@) {
        let j = choose|j: int| 0 <= j < w && p(#[trigger] names[j]@);
        lemma_least(names, p, j);
    } else {
        assert(forall|j: int| 0 <= j < w ==> !p(#[trigger] names[j]@));
    }
}

// ----------------------------------------------------------------------
// Verified functions
// ----------------------------------------------------------------------

/// Whether `name` is one of Audiover's own virtual devices or a generic
/// virtual endpoint; such devices are never offered or opened as the
/// microphone or the monitor, to avoid feedback loops.
pub fn is_virtual_device_name(name: &str) -> (b: bool)
    ensures
        b == virtual_name(name@),
{
    let lower = text::to_lower(name);
    is_virtual_lowered(lower.as_str())
}

/// Whether the lower-cased name `lower` is one of a virtual device (see
/// `virtual_lower`).
pub fn is_virtual_lowered(lower: &str) -> (b: bool)
    ensures
        b == virtual_lower(lower@),
{
    let l = text::chars_of(lower);
    text::contains_chars(&l, &text::chars_of("audiover")) || text::contains_chars(&l, &text::chars_of("virtual_sink"))
        || text::contains_chars(&l, &text::chars_of("null_sink")) || text::contains_chars(
        &l,
        &text::chars_of("remap_source"),
    )
}

/// Whether an output endpoint called `name` is Audiover's virtual sink.
pub fn is_virtual_sink_name(name: &str) -> (b: bool)
    ensures
        b == virtual_sink_name(name@),
{
    let lower = text::to_lower(name);
    is_virtual_sink_lowered(lower.as_str())
}

/// Whether the lower-cased name `lower` is Audiover's virtual sink (see
/// `virtual_sink_lower`).
pub fn is_virtual_sink_lowered(lower: &str) -> (b: bool)
    ensures
        b == virtual_sink_lower(lower@),
{
    let l = text::chars_of(lower);
    (text::contains_chars(&l, &text::chars_of("audiover_sink")) || text::contains_chars(
        &l,
        &text::chars_of("audiover_virtual_sink"),
    ) || text::contains_chars(&l, &text::chars_of("audiover"))) && !text::contains_chars(&l, &text::chars_of("mic"))
        && !text::contains_chars(&l, &text::chars_of("source")) && !text::contains_chars(&l, &text::chars_of("remap"))
}

/// Whether the listed name `device` answers to the saved name `saved`
/// (equal to it, or containing it, after trimming and lower-casing).
pub fn device_name_answers(device: &str, saved: &str) -> (b: bool)
    ensures
        b == name_answers(device@, saved@),
{
    let a = text::to_lower(device);
    let t = text::trim(saved);
    let b = text::to_lower(t.as_str());
    lowered_name_answers(a.as_str(), b.as_str())
}

/// Whether the lower-cased device name `a` answers to the cleaned saved
/// name `b` (see `answers_lower`).
pub fn lowered_name_answers(a: &str, b: &str) -> (r: bool)
    ensures
        r == answers_lower(a@, b@),
{
    let x = text::chars_of(a);
    let y = text::chars_of(b);
    let same = x.len() == y.len() && text::contains_chars(&x, &y);
    proof {
        if x.len() == y.len() && text::contains_seq(x@, y@) {
            let i = choose|i: int| text::occurs_at(x@, y@, i);
            assert(x@.subrange(0, x@.len() as int) =~= x@);
        }
        if x@ == y@ {
            assert(x@.subrange(0, y@.len() as int) =~= x@);
            assert(text::occurs_at(x@, y@, 0));
        }
    }
    same || text::contains_chars(&x, &y)
}

/// Position of the first listed device that the saved name picks: it must
/// be non-empty after trimming, answer to the device's name and the device
/// must not be virtual.
pub fn match_device_by_name(names: &Vec<String>, saved: &str) -> (r: Option<usize>)
    ensures
        is_first_index(names@, picked_by(saved@), r),
{
    let t = text::trim(saved);
    let clean = text::to_lower(t.as_str());
    if clean.as_str().is_empty() {
        return None;
    }
    let mut i: usize = 0;
    while i < names.len()
        invariant
            0 <= i <= names.len(),
            clean_name(saved@).len() > 0,
            forall|j: int| 0 <= j < i ==> !saved_picks(#[trigger] names@[j]@, saved@),
        decreases names.len() - i,
    {
        let n = names[i].as_str();
        if device_name_answers(n, saved) && !is_virtual_device_name(n) {
            return Some(i);
        }
        i += 1;
    }
    None
}

/// Position of the first listed device that is not virtual.
pub fn first_physical(names: &Vec<String>) -> (r: Option<usize>)
    ensures
        is_first_index(names@, physical(), r),
{
    let mut i: usize = 0;
    while i < names.len()
        invariant
            0 <= i <= names.len(),
            forall|j: int| 0 <= j < i ==> virtual_name(#[trigger] names@[j]@),
        decreases names.len() - i,
    {
        if !is_virtual_device_name(names[i].as_str()) {
            return Some(i);
        }
        i += 1;
    }
    None
}

/// Which input device to open: the saved name if it still picks a
/// physical device, else the host default unless it is virtual, else the
/// first physical device listed; `None` when there is none.
pub fn resolve_input_device(
    names: &Vec<String>,
    default_name: Option<&str>,
    saved: Option<&str>,
) -> (r: Option<DeviceChoice>)
    ensures
        r == device_choice(
            names@,
            match default_name {
                Some(d) => Some(d@),
                None => None,
            },
            match saved {
                Some(s) => Some(s@),
                None => None,
            },
        ),
{
    let ghost dn = match default_name {
        Some(d) => Some(d@),
        None => None::<Seq<char>>,
    };
    let ghost sv = match saved {
        Some(s) => Some(s@),
        None => None::<Seq<char>>,
    };
    if let Some(s) = saved {
        let m = match_device_by_name(names, s);
        proof {
            lemma_first_index(names@, picked_by(s@), m);
        }
        if let Some(i) = m {
            return Some(DeviceChoice::Listed(i));
        }
    }
    if let Some(d) = default_name {
        if !is_virtual_device_name(d) {
            return Some(DeviceChoice::HostDefault);
        }
    }
    let f = first_physical(names);
    proof {
        lemma_first_index(names@, physical(), f);
    }
    match f {
        Some(i) => Some(DeviceChoice::Listed(i)),
        None => None,
    }
}

/// Which monitor device to open: none when the saved name is the
/// disabled marker, otherwise as for the input side.
pub fn resolve_monitor_device(
    names: &Vec<String>,
    default_name: Option<&str>,
    saved: Option<&str>,
) -> (r: Option<DeviceChoice>)
    ensures
        (match saved {
            Some(s) => s@ == MONITOR_DISABLED@,
            None => false,
        }) ==> r is None,
        !(match saved {
            Some(s) => s@ == MONITOR_DISABLED@,
            None => false,
        }) ==> r == device_choice(
            names@,
            match default_name {
                Some(d) => Some(d@),
                None => None,
            },
            match saved {
                Some(s) => Some(s@),
                None => None,
            },
        ),
{
    if let Some(s) = saved {
        if text::same_text(s, MONITOR_DISABLED) {
            return None;
        }
    }
    resolve_input_device(names, default_name, saved)
}


// ----------------------------------------------------------------------
// The devices page
// ----------------------------------------------------------------------

/// A listed device is shown as the current input: it answers to the
/// selected name, or nothing is selected and it is the physical default.
pub open spec fn shown_as_input(d: AudioDeviceInfo, selected: Option<Seq<char>>) -> bool {
    match selected {
        Some(s) => name_answers(d.name@, s),
        None => d.is_default && !virtual_name(d.name@),
    }
}

/// A listed device is shown as the current monitor: it answers to the
/// selected name.
pub open spec fn shown_as_monitor(d: AudioDeviceInfo, selected: Option<Seq<char>>) -> bool {
    match selected {
        Some(s) => name_answers(d.name@, s),
        None => false,
    }
}


/// Devices shown as the current input for the selection `sel`.
pub open spec fn input_shown(sel: Option<Seq<char>>) -> spec_fn(AudioDeviceInfo) -> bool {
    |d: AudioDeviceInfo| shown_as_input(d, sel)
}

/// Devices shown as the current monitor for the selection `sel`.
pub open spec fn monitor_shown(sel: Option<Seq<char>>) -> spec_fn(AudioDeviceInfo) -> bool {
    |d: AudioDeviceInfo| shown_as_monitor(d, sel)
}

/// Devices named exactly `f`.
pub open spec fn named(f: Seq<char>) -> spec_fn(AudioDeviceInfo) -> bool {
    |d: AudioDeviceInfo| d.name@ == f
}

/// Devices listed with index `i`.
pub open spec fn indexed(i: usize) -> spec_fn(AudioDeviceInfo) -> bool {
    |d: AudioDeviceInfo| d.index == i
}

/// `r` is the position of the first device satisfying `p`, or `None`.
pub open spec fn is_first_info(infos: Seq<AudioDeviceInfo>, p: spec_fn(AudioDeviceInfo) -> bool, r: Option<usize>) -> bool {
    match r {
        Some(i) => {
            &&& i < infos.len()
            &&& p(infos[i as int])
            &&& forall|j: int| 0 <= j < i ==> !p(#[trigger] infos[j])
        },
        None => forall|j: int| 0 <= j < infos.len() ==> !p(#[trigger] infos[j]),
    }
}

/// Position of the first listed device satisfying `p`.
#[verifier::opaque]
pub open spec fn first_info(infos: Seq<AudioDeviceInfo>, p: spec_fn(AudioDeviceInfo) -> bool) -> Option<int> {
    if exists|i: int| 0 <= i < infos.len() && p(#[trigger] infos[i]) {
        Some(choose|i: int|
            0 <= i < infos.len() && p(#[trigger] infos[i]) && forall|j: int|
                0 <= j < i ==> !p(#[trigger] infos[j]))
    } else {
        None
    }
}

/// The `index` field of the first device satisfying `p`, else that of the
/// first device named exactly `fallback`.
pub open spec fn current_index(
    infos: Seq<AudioDeviceInfo>,
    p: spec_fn(AudioDeviceInfo) -> bool,
    fallback: Option<Seq<char>>,
) -> Option<usize> {
    match first_info(infos, p) {
        Some(i) => Some(infos[i].index),
        None => match fallback {
            Some(f) => match first_info(infos, named(f)) {
                Some(k) => Some(infos[k].index),
                None => None,
            },
            None => None,
        },
    }
}

proof fn lemma_first_info(infos: Seq<AudioDeviceInfo>, p: spec_fn(AudioDeviceInfo) -> bool, r: Option<usize>)
    requires
        is_first_info(infos, p, r),
    ensures
        first_info(infos, p) == (match r {
            Some(i) => Some(i as int),
            None => None::<int>,
        }),
{
    reveal(first_info);
    if let Some(i) = r {
        assert(0 <= i < infos.len() && p(infos[i as int]));
        let k = choose|k: int|
            0 <= k < infos.len() && p(#[trigger] infos[k]) && forall|j: int|
                0 <= j < k ==> !p(#[trigger] infos[j]);
        if k < i {
            assert(!p(infos[k]));
        }
        if i < k {
            assert(!p(infos[i as int]));
        }
    }
}

/// The characters of an optional string.
pub open spec fn opt_seq(o: Option<&str>) -> Option<Seq<char>> {
    match o {
        Some(s) => Some(s@),
        None => None,
    }
}

/// Position of the first listed device whose name is exactly `name`.
fn find_exact(infos: &Vec<AudioDeviceInfo>, name: &str) -> (r: Option<usize>)
    ensures
        is_first_info(infos@, named(name@), r),
{
    let mut i: usize = 0;
    while i < infos.len()
        invariant
            0 <= i <= infos.len(),
            forall|j: int| 0 <= j < i ==> (#[trigger] infos@[j]).name@ != name@,
        decreases infos.len() - i,
    {
        if text::same_text(infos[i].name.as_str(), name) {
            return Some(i);
        }
        i += 1;
    }
    None
}

fn index_or_fallback(
    infos: &Vec<AudioDeviceInfo>,
    found: Option<usize>,
    fallback: Option<&str>,
) -> (r: Option<usize>)
    requires
        found matches Some(i) ==> i < infos.len(),
    ensures
        found matches Some(i) ==> r == Some(infos@[i as int].index),
        found is None ==> r == (match fallback {
            Some(f) => match first_info(infos@, named(f@)) {
                Some(k) => Some(infos@[k].index),
                None => None,
            },
            None => None,
        }),
{
    match found {
        Some(i) => Some(infos[i].index),
        None => match fallback {
            Some(f) => {
                let k = find_exact(infos, f);
                proof {
                    lemma_first_info(infos@, named(f@), k);
                }
                match k {
                    Some(k) => Some(infos[k].index),
                    None => None,
                }
            },
            None => None,
        },
    }
}

/// The input the devices page marks as current: the first listed device
/// that answers to the selected name (or, with nothing selected, the
/// physical default), else the device the engine would open, found by
/// its exact name `fallback`.
pub fn current_input_index(
    infos: &Vec<AudioDeviceInfo>,
    selected: Option<&str>,
    fallback: Option<&str>,
) -> (r: Option<usize>)
    ensures
        r == current_index(
            infos@,
            input_shown(opt_seq(selected)),
            opt_seq(fallback),
        ),
{
    let found = first_shown_input(infos, selected);
    proof {
        lemma_first_info(infos@, input_shown(opt_seq(selected)), found);
    }
    index_or_fallback(infos, found, fallback)
}

fn first_shown_input(infos: &Vec<AudioDeviceInfo>, selected: Option<&str>) -> (r: Option<usize>)
    ensures
        is_first_info(infos@, input_shown(opt_seq(selected)), r),
{
    let mut i: usize = 0;
    while i < infos.len()
        invariant
            0 <= i <= infos.len(),
            forall|j: int| 0 <= j < i ==> !shown_as_input(#[trigger] infos@[j], opt_seq(selected)),
        decreases infos.len() - i,
    {
        let d = &infos[i];
        let hit = match selected {
            Some(s) => device_name_answers(d.name.as_str(), s),
            None => d.is_default && !is_virtual_device_name(d.name.as_str()),
        };
        if hit {
            return Some(i);
        }
        i += 1;
    }
    None
}

fn first_shown_monitor(infos: &Vec<AudioDeviceInfo>, selected: Option<&str>) -> (r: Option<usize>)
    ensures
        is_first_info(infos@, monitor_shown(opt_seq(selected)), r),
{
    let mut i: usize = 0;
    while i < infos.len()
        invariant
            0 <= i <= infos.len(),
            forall|j: int| 0 <= j < i ==> !shown_as_monitor(#[trigger] infos@[j], opt_seq(selected)),
        decreases infos.len() - i,
    {
        let d = &infos[i];
        let hit = match selected {
            Some(s) => device_name_answers(d.name.as_str(), s),
            None => false,
        };
        if hit {
            return Some(i);
        }
        i += 1;
    }
    None
}

/// The monitor the devices page marks as current: none when monitor
/// output is disabled, else the first listed device that answers to the
/// selected name, else the device the engine would open, found by its
/// exact name `fallback`.
pub fn current_monitor_index(
    infos: &Vec<AudioDeviceInfo>,
    selected: Option<&str>,
    fallback: Option<&str>,
) -> (r: Option<usize>)
    ensures
        (opt_seq(selected) == Some(MONITOR_DISABLED@)) ==> r is None,
        (opt_seq(selected) != Some(MONITOR_DISABLED@)) ==> r == current_index(
            infos@,
            monitor_shown(opt_seq(selected)),
            opt_seq(fallback),
        ),
{
    if let Some(s) = selected {
        if text::same_text(s, MONITOR_DISABLED) {
            return None;
        }
    }
    let found = first_shown_monitor(infos, selected);
    proof {
        lemma_first_info(infos@, monitor_shown(opt_seq(selected)), found);
    }
    index_or_fallback(infos, found, fallback)
}

/// The devices of `s` that are not virtual, in order.
pub open spec fn physical_only(s: Seq<AudioDeviceInfo>) -> Seq<AudioDeviceInfo>
    decreases s.len(),
{
    if s.len() == 0 {
        s
    } else if virtual_name(s.last().name@) {
        physical_only(s.drop_last())
    } else {
        physical_only(s.drop_last()).push(s.last())
    }
}

/// The listed devices without Audiover's virtual ones, in order; the
/// settings page never offers those.
pub fn visible_devices(list: &Vec<AudioDeviceInfo>) -> (r: Vec<AudioDeviceInfo>)
    ensures
        r@ == physical_only(list@),
{
    let mut r: Vec<AudioDeviceInfo> = Vec::new();
    let mut i: usize = 0;
    while i < list.len()
        invariant
            0 <= i <= list.len(),
            r@ == physical_only(list@.subrange(0, i as int)),
        decreases list.len() - i,
    {
        let d = &list[i];
        assert(list@.subrange(0, i + 1).drop_last() =~= list@.subrange(0, i as int));
        if !is_virtual_device_name(d.name.as_str()) {
            r.push(
                AudioDeviceInfo { index: d.index, name: d.name.clone(), is_default: d.is_default },
            );
        }
        i += 1;
    }
    assert(list@.subrange(0, list.len() as int) =~= list@);
    r
}

// ----------------------------------------------------------------------
// Persisted device names
// ----------------------------------------------------------------------

/// The input name written to the settings: none for a virtual device,
/// else the first listed name that answers to it, else the name itself.
pub open spec fn persisted_input(selected: Option<Seq<char>>, names: Seq<String>) -> Option<Seq<char>> {
    match selected {
        None => None,
        Some(n) => if virtual_name(n) {
            None
        } else {
            match first_index(names, answering(n)) {
                Some(i) => Some(names[i]@),
                None => Some(n),
            }
        },
    }
}

/// The input device name to persist for the selection `selected`, given
/// the names of the input devices listed now.
pub fn persisted_input_name(selected: Option<&str>, names: &Vec<String>) -> (r: Option<String>)
    ensures
        (match r {
            Some(s) => Some(s@),
            None => None,
        }) == persisted_input(opt_seq(selected), names@),
{
    match selected {
        None => None,
        Some(n) => {
            if is_virtual_device_name(n) {
                return None;
            }
            let mut i: usize = 0;
            while i < names.len()
                invariant
                    0 <= i <= names.len(),
                    !virtual_name(n@),
                    opt_seq(selected) == Some(n@),
                    forall|j: int| 0 <= j < i ==> !name_answers(#[trigger] names@[j]@, n@),
                decreases names.len() - i,
            {
                if device_name_answers(names[i].as_str(), n) {
                    proof {
                        lemma_first_index(names@, answering(n@), Some(i));
                    }
                    return Some(names[i].clone());
                }
                i += 1;
            }
            proof {
                lemma_first_index(names@, answering(n@), None);
            }
            Some(n.to_string())
        },
    }
}

/// The monitor device name to persist: a virtual device is dropped,
/// except the disabled marker, which is kept.
pub fn persisted_monitor_name(selected: Option<&str>) -> (r: Option<String>)
    ensures
        (match r {
            Some(s) => Some(s@),
            None => None,
        }) == (match selected {
            None => None,
            Some(n) => if n@ != MONITOR_DISABLED@ && virtual_name(n@) {
                None
            } else {
                Some(n@)
            },
        }),
{
    match selected {
        None => None,
        Some(n) => {
            if !text::same_text(n, MONITOR_DISABLED) && is_virtual_device_name(n) {
                None
            } else {
                Some(n.to_string())
            }
        },
    }
}

/// The name to select for the device listed with `index`, if one is.
pub fn name_at_index(infos: &Vec<AudioDeviceInfo>, index: usize) -> (r: Option<String>)
    ensures
        (match r {
            Some(s) => Some(s@),
            None => None,
        }) == (match first_info(infos@, indexed(index)) {
            Some(k) => Some(infos@[k].name@),
            None => None,
        }),
{
    let mut i: usize = 0;
    while i < infos.len()
        invariant
            0 <= i <= infos.len(),
            forall|j: int| 0 <= j < i ==> (#[trigger] infos@[j]).index != index,
        decreases infos.len() - i,
    {
        if infos[i].index == index {
            proof {
                lemma_first_info(infos@, indexed(index), Some(i));
            }
            return Some(infos[i].name.clone());
        }
        i += 1;
    }
    proof {
        lemma_first_info(infos@, indexed(index), None);
    }
    None
}

/// The monitor selection after the user picks `index` among `outputs`:
/// `None` disables the monitor (the disabled marker); an index that no
/// listed device has leaves the selection as it was.
pub fn monitor_selection(
    current: Option<String>,
    index: Option<usize>,
    outputs: &Vec<AudioDeviceInfo>,
) -> (r: Option<String>)
    ensures
        index is None ==> (r matches Some(s) && s@ == MONITOR_DISABLED@),
        index matches Some(i) ==> (match first_info(outputs@, indexed(i)) {
            Some(k) => (r matches Some(s) && s@ == outputs@[k].name@),
            None => r == current,
        }),
{
    match index {
        None => Some(MONITOR_DISABLED.to_string()),
        Some(i) => match name_at_index(outputs, i) {
            Some(n) => Some(n),
            None => current,
        },
    }
}

/// Whether enabling sidetone must restart the engine: it is enabled, the
/// engine runs, no monitor stream is open and the monitor is not disabled.
pub fn sidetone_needs_restart(
    enabled: bool,
    running: bool,
    monitor_open: bool,
    selected_monitor: Option<&str>,
) -> (b: bool)
    ensures
        b == (enabled && running && !monitor_open && opt_seq(selected_monitor) != Some(
            MONITOR_DISABLED@,
        )),
{
    if enabled && running && !monitor_open {
        match selected_monitor {
            Some(s) => !text::same_text(s, MONITOR_DISABLED),
            None => true,
        }
    } else {
        false
    }
}

} // verus!
