use audiover::library::{
    dropped_file_name, dropped_sound_bytes, payload_of, staging_file_name, DropError,
};
use audiover::pactl::{pacat_args, pacat_chunk_frames};
use audiover::router::{
    restore_target, setup_start, setup_step, RouterNames, SetupAction, SetupEvent, SetupStage,
};
use audiover::text::decimal;

fn names() -> RouterNames {
    RouterNames {
        sink_name: "Audiover_Sink".to_string(),
        sink_desc: "Audiover Sink".to_string(),
        source_name: "Audiover_Mic".to_string(),
        source_desc: "Audiover Mic".to_string(),
    }
}

#[test]
fn setup_runs_every_step_when_all_succeeds() {
    let n = names();
    let (st, a) = setup_start();
    assert_eq!(a, SetupAction::CheckDaemon);
    let (st, a) = setup_step(&n, st, SetupEvent::DaemonChecked(true));
    assert_eq!(a, SetupAction::FindPhysicalDefaults);
    let (st, a) = setup_step(
        &n,
        st,
        SetupEvent::PhysicalDefaults(Some("hw_sink".to_string()), Some("hw_mic".to_string())),
    );
    assert_eq!(a, SetupAction::RemoveLeftovers);
    let (st, a) = setup_step(&n, st, SetupEvent::LeftoversRemoved);
    assert_eq!(
        a,
        SetupAction::LoadModule(vec![
            "load-module".to_string(),
            "module-null-sink".to_string(),
            "sink_name=Audiover_Sink".to_string(),
            "sink_properties=device.description=\"Audiover Sink\" device.class=\"abstract\" node.passive=true priority.driver=0 priority.session=0".to_string(),
        ])
    );
    let (st, a) = setup_step(&n, st, SetupEvent::ModuleLoaded(true, "536870913\n".to_string()));
    assert_eq!(st.sink_id.as_deref(), Some("536870913"));
    assert_eq!(
        a,
        SetupAction::LoadModule(vec![
            "load-module".to_string(),
            "module-remap-source".to_string(),
            "source_name=Audiover_Mic".to_string(),
            "master=Audiover_Sink.monitor".to_string(),
            "source_properties=device.description=\"Audiover Mic\" device.class=\"abstract\" priority.driver=1 priority.session=1".to_string(),
        ])
    );
    let (st, a) = setup_step(&n, st, SetupEvent::ModuleLoaded(true, " 536870914 ".to_string()));
    assert_eq!(st.source_id.as_deref(), Some("536870914"));
    assert_eq!(a, SetupAction::SetDefaultSink("hw_sink".to_string()));
    let (st, a) = setup_step(&n, st, SetupEvent::DefaultSet);
    assert_eq!(a, SetupAction::SetDefaultSource("hw_mic".to_string()));
    let (st, a) = setup_step(&n, st, SetupEvent::DefaultSet);
    assert_eq!(a, SetupAction::Done(true));
    assert_eq!(st.stage, SetupStage::Finished);
}

#[test]
fn setup_without_daemon_fails_at_once() {
    let n = names();
    let (st, _) = setup_start();
    let (st, a) = setup_step(&n, st, SetupEvent::DaemonChecked(false));
    assert_eq!(a, SetupAction::Done(false));
    assert_eq!(st.stage, SetupStage::Finished);
}

#[test]
fn failed_microphone_unloads_the_sink() {
    let n = names();
    let (st, _) = setup_start();
    let (st, _) = setup_step(&n, st, SetupEvent::DaemonChecked(true));
    let (st, _) = setup_step(&n, st, SetupEvent::PhysicalDefaults(None, None));
    let (st, _) = setup_step(&n, st, SetupEvent::LeftoversRemoved);
    let (st, _) = setup_step(&n, st, SetupEvent::ModuleLoaded(true, "7".to_string()));
    let (st, a) = setup_step(&n, st, SetupEvent::ModuleLoaded(false, String::new()));
    assert_eq!(a, SetupAction::UnloadModule("7".to_string()));
    let (st, a) = setup_step(&n, st, SetupEvent::Unloaded);
    assert_eq!(a, SetupAction::Done(false));
    assert_eq!(st.sink_id, None);
    assert_eq!(st.source_id, None);
}

#[test]
fn setup_without_physical_defaults_ends_after_loading() {
    let n = names();
    let (st, _) = setup_start();
    let (st, _) = setup_step(&n, st, SetupEvent::DaemonChecked(true));
    let (st, _) = setup_step(&n, st, SetupEvent::PhysicalDefaults(None, Some("mic".to_string())));
    let (st, _) = setup_step(&n, st, SetupEvent::LeftoversRemoved);
    let (st, _) = setup_step(&n, st, SetupEvent::ModuleLoaded(true, "1".to_string()));
    let (st, a) = setup_step(&n, st, SetupEvent::ModuleLoaded(true, "2".to_string()));
    assert_eq!(a, SetupAction::SetDefaultSource("mic".to_string()));
    let (_, a) = setup_step(&n, st, SetupEvent::DefaultSet);
    assert_eq!(a, SetupAction::Done(true));
}

#[test]
fn out_of_turn_event_ends_setup() {
    let n = names();
    let (st, _) = setup_start();
    let (st, a) = setup_step(&n, st, SetupEvent::Unloaded);
    assert_eq!(a, SetupAction::Done(false));
    assert_eq!(st.stage, SetupStage::Finished);
}

#[test]
fn teardown_restores_hijacked_defaults_only() {
    assert_eq!(
        restore_target(Some("Audiover_Sink"), "Audiover_Sink", Some("hw")),
        Some("hw".to_string())
    );
    assert_eq!(restore_target(Some("hw"), "Audiover_Sink", Some("hw")), None);
    assert_eq!(restore_target(Some("audiover_other"), "Audiover_Sink", None), None);
    assert_eq!(restore_target(None, "Audiover_Sink", Some("hw")), None);
}

#[test]
fn dropped_sounds_are_decoded() {
    assert_eq!(payload_of("data:audio/wav;base64,AAEC"), "AAEC");
    assert_eq!(payload_of("AAEC"), "AAEC");
    assert_eq!(payload_of("a,b,c"), "b,c");
    match dropped_sound_bytes("data:audio/wav;base64,AAEC") {
        Ok(b) => assert_eq!(b, vec![0u8, 1, 2]),
        Err(_) => panic!("valid base64 was refused"),
    }
    assert!(matches!(dropped_sound_bytes("%%%"), Err(DropError::InvalidBase64(_))));
    assert_eq!(dropped_file_name("/a/b/horn.wav"), "horn.wav");
    assert_eq!(dropped_file_name(".."), "dropped-audio");
    assert_eq!(staging_file_name(4242, 7, "horn.wav"), "audiover-drop-4242-7-horn.wav");
    assert_ne!(staging_file_name(4242, 7, "horn.wav"), staging_file_name(4242, 8, "horn.wav"));
}

#[test]
fn pacat_command_line() {
    let args = pacat_args("Audiover_Sink", 48000);
    assert_eq!(
        args,
        vec![
            "--playback",
            "-d",
            "Audiover_Sink",
            "--format=float32le",
            "--rate=48000",
            "--channels=2",
            "--latency-msec=10",
            "--raw",
            "--stream-name=Audiover_Virtual_Mic",
        ]
    );
    assert_eq!(pacat_chunk_frames(10), 64);
    assert_eq!(pacat_chunk_frames(256), 256);
    assert_eq!(decimal(0), "0");
    assert_eq!(decimal(1024), "1024");
    assert_eq!(decimal(u64::MAX), "18446744073709551615");
}
