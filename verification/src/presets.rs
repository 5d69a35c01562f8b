//! Voice presets by name: the built-in ones, the user's own, and which one
//! is active. A preset's settings are carried as an opaque value `C`.
use vstd::prelude::*;
use crate::table::Table;
use crate::text;

verus! {

/// Number of built-in presets.
pub const BUILTIN_COUNT: usize = 6;

/// The preset that is active when no other is.
pub const CLEAN: &'static str = "Clean";

/// Names of the built-in presets.
pub open spec fn builtin_names() -> Seq<Seq<char>> {
    seq![
        "Clean"@,
        "Deep Voice"@,
        "Radio / Walkie-Talkie"@,
        "Robot"@,
        "Alien"@,
        "Chipmunk"@,
    ]
}

/// Whether `name` is a built-in preset.
pub open spec fn builtin(name: Seq<char>) -> bool {
    builtin_names().contains(name)
}

/// Why a preset request is refused.
#[derive(Debug, Clone, Copy, PartialEq, Eq, Structural)]
pub enum PresetError {
    /// The name is empty once trimmed.
    EmptyName,
    /// A built-in preset cannot be overwritten by a new one or deleted.
    BuiltIn,
    /// Only built-in presets can be reset.
    NotResettable,
    /// No preset has that name.
    NotFound,
}

/// Name of the built-in preset at position `i`.
pub fn builtin_name(i: usize) -> (s: &'static str)
    requires
        i < BUILTIN_COUNT,
    ensures
        s@ == builtin_names()[i as int],
{
    if i == 0 {
        "Clean"
    } else if i == 1 {
        "Deep Voice"
    } else if i == 2 {
        "Radio / Walkie-Talkie"
    } else if i == 3 {
        "Robot"
    } else if i == 4 {
        "Alien"
    } else {
        "Chipmunk"
    }
}

/// Whether `name` is a built-in preset.
pub fn is_builtin_preset(name: &str) -> (b: bool)
    ensures
        b == builtin(name@),
{
    let mut i: usize = 0;
    while i < BUILTIN_COUNT
        invariant
            0 <= i <= BUILTIN_COUNT,
            forall|j: int| 0 <= j < i ==> builtin_names()[j] != name@,
        decreases BUILTIN_COUNT - i,
    {
        if text::same_text(builtin_name(i), name) {
            return true;
        }
        i += 1;
    }
    proof {
        if builtin(name@) {
            let k = choose|k: int| 0 <= k < builtin_names().len() && builtin_names()[k] == name@;
            assert(builtin_names()[k] != name@);
        }
    }
    false
}

/// The presets and the name of the active one.
pub struct PresetBook<C> {
    presets: Table<C>,
    active: String,
}

impl<C> PresetBook<C> {
    /// The table is well formed.
    pub closed spec fn wf(&self) -> bool {
        self.presets.wf()
    }

    /// The presets by name.
    pub closed spec fn presets(&self) -> Map<Seq<char>, C> {
        self.presets.map()
    }

    /// The name of the active preset.
    pub closed spec fn active(&self) -> Seq<char> {
        self.active@
    }

    /// A book holding `presets`, whose active preset is `saved_active`
    /// when it names one of them, else `Clean`.
    pub fn new(presets: Table<C>, saved_active: Option<&str>) -> (b: PresetBook<C>)
        requires
            presets.wf(),
        ensures
            b.wf(),
            b.presets() == presets.map(),
            b.active() == (match saved_active {
                Some(s) => if presets.map().contains_key(s@) {
                    s@
                } else {
                    CLEAN@
                },
                None => CLEAN@,
            }),
    {
        let active = match saved_active {
            Some(s) => if presets.contains(s) {
                s.to_string()
            } else {
                CLEAN.to_string()
            },
            None => CLEAN.to_string(),
        };
        PresetBook { presets, active }
    }

    /// The settings of the preset `name`.
    pub fn get(&self, name: &str) -> (r: Option<&C>)
        requires
            self.wf(),
        ensures
            match r {
                Some(c) => self.presets().contains_key(name@) && self.presets()[name@] == *c,
                None => !self.presets().contains_key(name@),
            },
    {
        self.presets.get(name)
    }

    /// The name of the active preset.
    pub fn active_name(&self) -> (s: String)
        ensures
            s@ == self.active(),
    {
        self.active.clone()
    }

    /// The preset names, in the order they were added.
    pub closed spec fn order(&self) -> Seq<Seq<char>> {
        self.presets.order()
    }

    /// The preset names, in the order they were added.
    pub fn names(&self) -> (r: Vec<String>)
        requires
            self.wf(),
        ensures
            r.len() == self.order().len(),
            forall|i: int| 0 <= i < r.len() ==> (#[trigger] r@[i])@ == self.order()[i],
            forall|i: int| 0 <= i < r.len() ==> self.presets().contains_key((#[trigger] r@[i])@),
            forall|x: Seq<char>| self.presets().contains_key(x) ==> exists|i: int|
                0 <= i < r.len() && (#[trigger] r@[i])@ == x,
    {
        self.presets.names()
    }

    /// Number of presets.
    pub fn len(&self) -> (n: usize)
        requires
            self.wf(),
        ensures
            n == self.presets().len(),
    {
        self.presets.len()
    }

    /// Makes `name` the active preset, if there is one of that name.
    pub fn apply(&mut self, name: &str) -> (r: Result<(), PresetError>)
        requires
            old(self).wf(),
        ensures
            final(self).wf(),
            final(self).presets() == old(self).presets(),
            r is Ok <==> old(self).presets().contains_key(name@),
            r is Ok ==> final(self).active() == name@,
            r matches Err(e) ==> e == PresetError::NotFound && final(self).active() == old(self).active(),
    {
        if self.presets.contains(name) {
            self.active = name.to_string();
            Ok(())
        } else {
            Err(PresetError::NotFound)
        }
    }

    /// Adds a preset under the trimmed `name` and makes it active; refuses
    /// an empty name and the name of a built-in preset. Returns the name.
    pub fn create(&mut self, name: &str, config: C) -> (r: Result<String, PresetError>)
        requires
            old(self).wf(),
        ensures
            final(self).wf(),
            text::trim_seq(name@).len() == 0 ==> r == Err::<String, PresetError>(PresetError::EmptyName),
            text::trim_seq(name@).len() > 0 && builtin(text::trim_seq(name@)) ==> r == Err::<
                String,
                PresetError,
            >(PresetError::BuiltIn),
            text::trim_seq(name@).len() > 0 && !builtin(text::trim_seq(name@)) ==> r is Ok,
            r is Err ==> final(self).presets() == old(self).presets() && final(self).active() == old(
                self,
            ).active(),
            r matches Ok(n) ==> {
                &&& n@ == text::trim_seq(name@)
                &&& n@.len() > 0
                &&& !builtin(n@)
                &&& final(self).presets() == old(self).presets().insert(n@, config)
                &&& final(self).active() == n@
            },
    {
        let n = text::trim(name);
        if n.as_str().is_empty() {
            return Err(PresetError::EmptyName);
        }
        if is_builtin_preset(n.as_str()) {
            return Err(PresetError::BuiltIn);
        }
        self.presets.insert(n.as_str(), config);
        self.active = n.clone();
        Ok(n)
    }

    /// Stores a preset under the trimmed `name` (a built-in one too),
    /// leaving the active preset as it is; refuses an empty name.
    pub fn save(&mut self, name: &str, config: C) -> (r: Result<String, PresetError>)
        requires
            old(self).wf(),
        ensures
            final(self).wf(),
            final(self).active() == old(self).active(),
            text::trim_seq(name@).len() == 0 <==> r == Err::<String, PresetError>(PresetError::EmptyName),
            text::trim_seq(name@).len() > 0 ==> r is Ok,
            r is Err ==> final(self).presets() == old(self).presets(),
            r matches Ok(n) ==> n@ == text::trim_seq(name@) && final(self).presets() == old(
                self,
            ).presets().insert(n@, config),
    {
        let n = text::trim(name);
        if n.as_str().is_empty() {
            return Err(PresetError::EmptyName);
        }
        self.presets.insert(n.as_str(), config);
        Ok(n)
    }

    /// Deletes the user preset `name`; refuses a built-in preset and an
    /// unknown name. When it was active, `Clean` becomes active; returns
    /// whether that happened.
    pub fn delete(&mut self, name: &str) -> (r: Result<bool, PresetError>)
        requires
            old(self).wf(),
        ensures
            final(self).wf(),
            builtin(name@) ==> r == Err::<bool, PresetError>(PresetError::BuiltIn),
            !builtin(name@) && !old(self).presets().contains_key(name@) ==> r == Err::<
                bool,
                PresetError,
            >(PresetError::NotFound),
            !builtin(name@) && old(self).presets().contains_key(name@) ==> r is Ok,
            r is Err ==> final(self).presets() == old(self).presets() && final(self).active() == old(
                self,
            ).active(),
            r matches Ok(reset) ==> {
                &&& !builtin(name@)
                &&& old(self).presets().contains_key(name@)
                &&& final(self).presets() == old(self).presets().remove(name@)
                &&& reset == (old(self).active() == name@)
                &&& final(self).active() == (if reset {
                    CLEAN@
                } else {
                    old(self).active()
                })
            },
    {
        if is_builtin_preset(name) {
            return Err(PresetError::BuiltIn);
        }
        if !self.presets.contains(name) {
            return Err(PresetError::NotFound);
        }
        self.presets.remove(name);
        if text::same_text(self.active.as_str(), name) {
            self.active = CLEAN.to_string();
            Ok(true)
        } else {
            Ok(false)
        }
    }

    /// Restores the built-in preset `name` to `default_config` (its
    /// built-in settings); refuses a name that is not built in. The active
    /// preset stays.
    pub fn reset(&mut self, name: &str, default_config: C) -> (r: Result<(), PresetError>)
        requires
            old(self).wf(),
        ensures
            final(self).wf(),
            final(self).active() == old(self).active(),
            r is Ok <==> builtin(name@),
            r is Ok ==> final(self).presets() == old(self).presets().insert(name@, default_config),
            r matches Err(e) ==> e == PresetError::NotResettable && final(self).presets() == old(
                self,
            ).presets(),
    {
        if !is_builtin_preset(name) {
            return Err(PresetError::NotResettable);
        }
        self.presets.insert(name, default_config);
        Ok(())
    }

    /// Replaces the settings of the active preset, if it exists (live
    /// tweaks are kept on the active preset); returns whether it did.
    pub fn update_active(&mut self, config: C) -> (done: bool)
        requires
            old(self).wf(),
        ensures
            final(self).wf(),
            final(self).active() == old(self).active(),
            done == old(self).presets().contains_key(old(self).active()),
            done ==> final(self).presets() == old(self).presets().insert(old(self).active(), config),
            !done ==> final(self).presets() == old(self).presets(),
    {
        let name = self.active.clone();
        if self.presets.contains(name.as_str()) {
            self.presets.insert(name.as_str(), config);
            true
        } else {
            false
        }
    }
}

/// Whether the interface language `lang` is supported (`tr` or `en`).
pub fn is_supported_language(lang: &str) -> (b: bool)
    ensures
        b == (lang@ == "tr"@ || lang@ == "en"@),
{
    text::same_text(lang, "tr") || text::same_text(lang, "en")
}

/// The interface language at start-up: the saved one when supported,
/// else `tr`.
pub fn initial_language(saved: Option<&str>) -> (r: String)
    ensures
        r@ == (match saved {
            Some(s) => if s@ == "tr"@ || s@ == "en"@ {
                s@
            } else {
                "tr"@
            },
            None => "tr"@,
        }),
{
    match saved {
        Some(s) => if is_supported_language(s) {
            s.to_string()
        } else {
            "tr".to_string()
        },
        None => "tr".to_string(),
    }
}

} // verus!
