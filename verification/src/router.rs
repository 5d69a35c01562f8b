//! The decisions of setting up and tearing down Audiover's virtual devices
//! (a null sink and a microphone remapped from its monitor): a step
//! function from the pending step and what `pactl` answered to the next
//! command. The caller runs each command and reports back.
use vstd::prelude::*;
use crate::devices;
use crate::pactl;
use crate::text;

verus! {

/// The names and descriptions of the two virtual devices.
pub struct RouterNames {
    pub sink_name: String,
    pub sink_desc: String,
    pub source_name: String,
    pub source_desc: String,
}

/// The step the setup waits on.
#[derive(Debug, Clone, Copy, PartialEq, Eq, Structural)]
pub enum SetupStage {
    CheckingDaemon,
    FindingDefaults,
    RemovingLeftovers,
    LoadingSink,
    LoadingSource,
    UnloadingSink,
    SettingSink,
    SettingSource,
    Finished,
}

/// What the caller does next.
#[derive(Debug, Clone, PartialEq, Eq)]
pub enum SetupAction {
    /// Run `pactl info` and report whether it succeeded.
    CheckDaemon,
    /// Find the physical default sink and source (see
    /// `pactl::physical_default`) and report them.
    FindPhysicalDefaults,
    /// Unload the leftover Audiover modules (see
    /// `pactl::leftover_module_ids`).
    RemoveLeftovers,
    /// Run `pactl` with these arguments and report its output.
    LoadModule(Vec<String>),
    /// Run `pactl unload-module` with this module id.
    UnloadModule(String),
    /// Make this sink the default one.
    SetDefaultSink(String),
    /// Make this source the default one.
    SetDefaultSource(String),
    /// The setup is over: whether the devices are up.
    Done(bool),
}

/// What happened when the caller ran the last action.
#[derive(Debug, Clone, PartialEq, Eq)]
pub enum SetupEvent {
    /// Whether `pactl info` succeeded.
    DaemonChecked(bool),
    /// The physical default sink and source, when found.
    PhysicalDefaults(Option<String>, Option<String>),
    LeftoversRemoved,
    /// Whether `pactl load-module` ran and succeeded, and what it printed.
    ModuleLoaded(bool, String),
    Unloaded,
    DefaultSet,
}

/// The setup so far: the step it waits on, the physical defaults found
/// and the ids of the modules loaded.
#[derive(Debug, Clone, PartialEq, Eq)]
pub struct SetupState {
    pub stage: SetupStage,
    pub phys_sink: Option<String>,
    pub phys_source: Option<String>,
    pub sink_id: Option<String>,
    pub source_id: Option<String>,
}

/// The `pactl` arguments that load the null sink: named `sink_name`,
/// described as `sink_desc`, abstract, passive and never elected default.
pub open spec fn sink_args(n: RouterNames) -> Seq<Seq<char>> {
    seq![
        "load-module"@,
        "module-null-sink"@,
        "sink_name"@ + "="@ + n.sink_name@,
        "sink_properties"@ + "="@ + pactl::sink_props_seq(n.sink_desc@),
    ]
}

/// The `pactl` arguments that load the virtual microphone: a remap of the
/// sink's monitor, named `source_name`, described as `source_desc`.
pub open spec fn source_args(n: RouterNames) -> Seq<Seq<char>> {
    seq![
        "load-module"@,
        "module-remap-source"@,
        "source_name"@ + "="@ + n.source_name@,
        "master"@ + "="@ + (n.sink_name@ + ".monitor"@),
        "source_properties"@ + "="@ + pactl::source_props_seq(n.source_desc@),
    ]
}

/// The characters of each string.
pub open spec fn texts(v: Seq<String>) -> Seq<Seq<char>> {
    v.map_values(|s: String| s@)
}

/// The characters of an optional string.
pub open spec fn opt_chars(o: Option<String>) -> Option<Seq<char>> {
    match o {
        Some(s) => Some(s@),
        None => None,
    }
}

/// The action a state asks for once the source is loaded or a default was
/// set: set the next physical default still to set, else finish.
pub open spec fn after_source(st: SetupState, from_sink: bool) -> (SetupStage, Option<Seq<char>>, bool) {
    if !from_sink && st.phys_sink is Some {
        (SetupStage::SettingSink, opt_chars(st.phys_sink), true)
    } else if st.phys_source is Some {
        (SetupStage::SettingSource, opt_chars(st.phys_source), false)
    } else {
        (SetupStage::Finished, None, false)
    }
}

/// Where the setup starts: checking that the sound server answers.
pub fn setup_start() -> (r: (SetupState, SetupAction))
    ensures
        r.0.stage == SetupStage::CheckingDaemon,
        r.0.phys_sink is None && r.0.phys_source is None,
        r.0.sink_id is None && r.0.source_id is None,
        r.1 == SetupAction::CheckDaemon,
        setup_inv(r.0),
{
    (
        SetupState {
            stage: SetupStage::CheckingDaemon,
            phys_sink: None,
            phys_source: None,
            sink_id: None,
            source_id: None,
        },
        SetupAction::CheckDaemon,
    )
}

fn string_args_sink(names: &RouterNames) -> (r: Vec<String>)
    ensures
        texts(r@) == sink_args(*names),
{
    let mut v: Vec<String> = Vec::new();
    v.push("load-module".to_string());
    v.push("module-null-sink".to_string());
    v.push(pactl::module_arg("sink_name", names.sink_name.as_str()));
    let props = pactl::sink_properties(names.sink_desc.as_str());
    v.push(pactl::module_arg("sink_properties", props.as_str()));
    proof {
        let t = texts(v@);
        assert(t[0] == v@[0]@);
        assert(t[1] == v@[1]@);
        assert(t[2] == v@[2]@);
        assert(t[3] == v@[3]@);
        assert(t =~= sink_args(*names));
    }
    v
}

fn string_args_source(names: &RouterNames) -> (r: Vec<String>)
    ensures
        texts(r@) == source_args(*names),
{
    let mut v: Vec<String> = Vec::new();
    v.push("load-module".to_string());
    v.push("module-remap-source".to_string());
    v.push(pactl::module_arg("source_name", names.source_name.as_str()));
    let mut monitor = names.sink_name.clone();
    monitor.append(".monitor");
    v.push(pactl::module_arg("master", monitor.as_str()));
    let props = pactl::source_properties(names.source_desc.as_str());
    v.push(pactl::module_arg("source_properties", props.as_str()));
    proof {
        let t = texts(v@);
        assert(t[0] == v@[0]@);
        assert(t[1] == v@[1]@);
        assert(t[2] == v@[2]@);
        assert(t[3] == v@[3]@);
        assert(t[4] == v@[4]@);
        assert(t =~= source_args(*names));
    }
    v
}

/// Whether `ev` answers the step `stage` waits on.
pub open spec fn answers(stage: SetupStage, ev: SetupEvent) -> bool {
    match stage {
        SetupStage::CheckingDaemon => ev is DaemonChecked,
        SetupStage::FindingDefaults => ev is PhysicalDefaults,
        SetupStage::RemovingLeftovers => ev is LeftoversRemoved,
        SetupStage::LoadingSink => ev is ModuleLoaded,
        SetupStage::LoadingSource => ev is ModuleLoaded,
        SetupStage::UnloadingSink => ev is Unloaded,
        SetupStage::SettingSink => ev is DefaultSet,
        SetupStage::SettingSource => ev is DefaultSet,
        SetupStage::Finished => false,
    }
}

/// What one step of the setup does (see `setup_step`).
pub open spec fn stepped(
    names: RouterNames,
    st: SetupState,
    ev: SetupEvent,
    r: (SetupState, SetupAction),
) -> bool {
    &&& !answers(st.stage, ev) ==> r.0.stage == SetupStage::Finished && r.1 == SetupAction::Done(false)
            && r.0.sink_id == st.sink_id && r.0.source_id == st.source_id
    &&& answers(st.stage, ev) ==> match (st.stage, ev) {
            (SetupStage::CheckingDaemon, SetupEvent::DaemonChecked(ok)) => if ok {
                r.0 == (SetupState { stage: SetupStage::FindingDefaults, ..st })
                    && r.1 == SetupAction::FindPhysicalDefaults
            } else {
                r.0 == (SetupState { stage: SetupStage::Finished, ..st }) && r.1 == SetupAction::Done(false)
            },
            (SetupStage::FindingDefaults, SetupEvent::PhysicalDefaults(s, m)) => r.0 == (SetupState {
                stage: SetupStage::RemovingLeftovers,
                phys_sink: s,
                phys_source: m,
                ..st
            }) && r.1 == SetupAction::RemoveLeftovers,
            (SetupStage::RemovingLeftovers, SetupEvent::LeftoversRemoved) => r.0 == (SetupState {
                stage: SetupStage::LoadingSink,
                ..st
            }) && (r.1 matches SetupAction::LoadModule(a) && texts(a@) == sink_args(names)),
            (SetupStage::LoadingSink, SetupEvent::ModuleLoaded(ok, out)) => if ok {
                &&& r.0.stage == SetupStage::LoadingSource
                &&& r.0.phys_sink == st.phys_sink && r.0.phys_source == st.phys_source
                &&& opt_chars(r.0.sink_id) == Some(text::trim_seq(out@))
                &&& r.0.source_id == st.source_id
                &&& r.1 matches SetupAction::LoadModule(a) && texts(a@) == source_args(names)
            } else {
                r.0 == (SetupState { stage: SetupStage::Finished, ..st }) && r.1 == SetupAction::Done(false)
            },
            (SetupStage::LoadingSource, SetupEvent::ModuleLoaded(ok, out)) => if ok {
                let (stage, target, sink) = after_source(st, false);
                &&& r.0.stage == stage
                &&& r.0.phys_sink == st.phys_sink && r.0.phys_source == st.phys_source
                &&& r.0.sink_id == st.sink_id
                &&& opt_chars(r.0.source_id) == Some(text::trim_seq(out@))
                &&& match target {
                    Some(t) => if sink {
                        r.1 matches SetupAction::SetDefaultSink(x) && x@ == t
                    } else {
                        r.1 matches SetupAction::SetDefaultSource(x) && x@ == t
                    },
                    None => r.1 == SetupAction::Done(true),
                }
            } else {
                &&& r.0 == (SetupState { stage: SetupStage::UnloadingSink, ..st })
                &&& match st.sink_id {
                    Some(id) => r.1 == SetupAction::UnloadModule(id),
                    None => r.1 == SetupAction::Done(false),
                }
            },
            (SetupStage::UnloadingSink, SetupEvent::Unloaded) => r.0 == (SetupState {
                stage: SetupStage::Finished,
                sink_id: None,
                ..st
            }) && r.1 == SetupAction::Done(false),
            (SetupStage::SettingSink, SetupEvent::DefaultSet) => {
                let (stage, target, _) = after_source(st, true);
                &&& r.0 == (SetupState { stage, ..st })
                &&& match target {
                    Some(t) => r.1 matches SetupAction::SetDefaultSource(x) && x@ == t,
                    None => r.1 == SetupAction::Done(true),
                }
            },
            (SetupStage::SettingSource, SetupEvent::DefaultSet) => r.0 == (SetupState {
                stage: SetupStage::Finished,
                ..st
            }) && r.1 == SetupAction::Done(true),
            _ => false,
        }
}

/// One step of the setup. The server must answer, then the physical
/// defaults are remembered, the leftovers removed, the sink and then the
/// microphone loaded (each module's id is what `pactl` printed, trimmed);
/// when the microphone fails to load, the sink is unloaded again. Once
/// both are up, the remembered physical sink and source are made the
/// defaults again. Any failure ends the setup with `Done(false)`, and so
/// does an event that does not answer the pending step.
pub fn setup_step(names: &RouterNames, st: SetupState, ev: SetupEvent) -> (r: (SetupState, SetupAction))
    ensures
        stepped(*names, st, ev, r),
{
    let stage = st.stage;
    match (stage, ev) {
        (SetupStage::CheckingDaemon, SetupEvent::DaemonChecked(ok)) => {
            if ok {
                (SetupState { stage: SetupStage::FindingDefaults, ..st }, SetupAction::FindPhysicalDefaults)
            } else {
                (SetupState { stage: SetupStage::Finished, ..st }, SetupAction::Done(false))
            }
        },
        (SetupStage::FindingDefaults, SetupEvent::PhysicalDefaults(s, m)) => {
            (
                SetupState { stage: SetupStage::RemovingLeftovers, phys_sink: s, phys_source: m, ..st },
                SetupAction::RemoveLeftovers,
            )
        },
        (SetupStage::RemovingLeftovers, SetupEvent::LeftoversRemoved) => {
            let args = string_args_sink(names);
            (SetupState { stage: SetupStage::LoadingSink, ..st }, SetupAction::LoadModule(args))
        },
        (SetupStage::LoadingSink, SetupEvent::ModuleLoaded(ok, out)) => {
            if ok {
                let id = text::trim(out.as_str());
                let args = string_args_source(names);
                (
                    SetupState { stage: SetupStage::LoadingSource, sink_id: Some(id), ..st },
                    SetupAction::LoadModule(args),
                )
            } else {
                (SetupState { stage: SetupStage::Finished, ..st }, SetupAction::Done(false))
            }
        },
        (SetupStage::LoadingSource, SetupEvent::ModuleLoaded(ok, out)) => {
            if ok {
                let id = text::trim(out.as_str());
                match (&st.phys_sink, &st.phys_source) {
                    (Some(p), _) => {
                        let target = p.clone();
                        (
                            SetupState { stage: SetupStage::SettingSink, source_id: Some(id), ..st },
                            SetupAction::SetDefaultSink(target),
                        )
                    },
                    (None, Some(p)) => {
                        let target = p.clone();
                        (
                            SetupState { stage: SetupStage::SettingSource, source_id: Some(id), ..st },
                            SetupAction::SetDefaultSource(target),
                        )
                    },
                    (None, None) => {
                        (
                            SetupState { stage: SetupStage::Finished, source_id: Some(id), ..st },
                            SetupAction::Done(true),
                        )
                    },
                }
            } else {
                let action = match &st.sink_id {
                    Some(id) => SetupAction::UnloadModule(id.clone()),
                    None => SetupAction::Done(false),
                };
                (SetupState { stage: SetupStage::UnloadingSink, ..st }, action)
            }
        },
        (SetupStage::UnloadingSink, SetupEvent::Unloaded) => {
            (SetupState { stage: SetupStage::Finished, sink_id: None, ..st }, SetupAction::Done(false))
        },
        (SetupStage::SettingSink, SetupEvent::DefaultSet) => {
            match &st.phys_source {
                Some(p) => {
                    let target = p.clone();
                    (SetupState { stage: SetupStage::SettingSource, ..st }, SetupAction::SetDefaultSource(target))
                },
                None => (SetupState { stage: SetupStage::Finished, ..st }, SetupAction::Done(true)),
            }
        },
        (SetupStage::SettingSource, SetupEvent::DefaultSet) => {
            (SetupState { stage: SetupStage::Finished, ..st }, SetupAction::Done(true))
        },
        _ => (SetupState { stage: SetupStage::Finished, ..st }, SetupAction::Done(false)),
    }
}

/// What holds at every step of a setup: before the sink is loaded no
/// module is; while the microphone loads, and while the sink is unloaded
/// after it failed, the sink's id is known; while the defaults are put
/// back, both ids are.
pub open spec fn setup_inv(st: SetupState) -> bool {
    match st.stage {
        SetupStage::CheckingDaemon | SetupStage::FindingDefaults | SetupStage::RemovingLeftovers
        | SetupStage::LoadingSink => st.sink_id is None && st.source_id is None,
        SetupStage::LoadingSource | SetupStage::UnloadingSink => st.sink_id is Some && st.source_id is None,
        SetupStage::SettingSink | SetupStage::SettingSource => st.sink_id is Some && st.source_id is Some,
        SetupStage::Finished => true,
    }
}

/// Every step keeps the invariant, and a setup reported successful has
/// both modules loaded and is over.
pub proof fn law_setup_success_has_both_modules(
    names: RouterNames,
    st: SetupState,
    ev: SetupEvent,
    r: (SetupState, SetupAction),
)
    requires
        setup_inv(st),
        stepped(names, st, ev, r),
    ensures
        setup_inv(r.0),
        r.1 == SetupAction::Done(true) ==> r.0.stage == SetupStage::Finished && r.0.sink_id is Some
            && r.0.source_id is Some,
{
}

/// When the microphone fails to load, the sink loaded just before is the
/// module unloaded, and the setup then ends as failed with no module kept.
pub proof fn law_failed_microphone_unloads_sink(
    names: RouterNames,
    st: SetupState,
    out: String,
    r: (SetupState, SetupAction),
    r2: (SetupState, SetupAction),
)
    requires
        setup_inv(st),
        st.stage == SetupStage::LoadingSource,
        stepped(names, st, SetupEvent::ModuleLoaded(false, out), r),
        stepped(names, r.0, SetupEvent::Unloaded, r2),
    ensures
        r.1 == SetupAction::UnloadModule(st.sink_id->0),
        r2.1 == SetupAction::Done(false),
        r2.0.sink_id is None && r2.0.source_id is None,
{
}

/// The endpoint to make the default again on teardown: the remembered
/// physical one, when the current default is Audiover's own or mentions
/// Audiover.
pub fn restore_target(current: Option<&str>, own_name: &str, remembered: Option<&str>) -> (r: Option<String>)
    ensures
        opt_chars(r) == (if pactl::hijacked(devices::opt_seq(current), own_name@) {
            devices::opt_seq(remembered)
        } else {
            None
        }),
{
    if pactl::default_hijacked(current, own_name) {
        match remembered {
            Some(t) => Some(t.to_string()),
            None => None,
        }
    } else {
        None
    }
}

} // verus!
