use audiover::pactl::{
    default_from_output, default_hijacked, first_usable_listed, is_usable_endpoint,
    leftover_module_ids, mentions_audiover, module_arg, physical_default, scrub_state_file,
    sink_from_listing, sink_properties, sink_query, source_properties,
};

const SHORT_SINKS: &str = "51\tAudiover_Sink\tPipeWire\tfloat32le 2ch 48000Hz\tIDLE\n\
52\talsa_output.pci-0000_00_1f.3.analog-stereo\tPipeWire\ts32le 2ch 48000Hz\tRUNNING\n";

const SHORT_SOURCES: &str = "60\talsa_output.pci.analog-stereo.monitor\tPipeWire\ts32le\tIDLE\n\
61\tAudiover_Mic\tPipeWire\tfloat32le\tIDLE\n\
62\talsa_input.pci.analog-stereo\tPipeWire\ts32le\tRUNNING\n";

const LONG_SINKS: &str = "Sink #51\n\tName: Audiover_Sink\n\tDescription: Audiover Virtual Sink\n\
Sink #52\n\tName: alsa_output.pci-0000_00_1f.3.analog-stereo\n\tDescription: Built-in Audio Analog Stereo\n\
\tProperties:\n\t\talsa.card_name = \"HDA Intel PCH\"\n\
Sink #53\n\tName: bluez_output.headset\n\tDescription: WH-1000XM4\n";

#[test]
fn default_endpoint_from_pactl_output() {
    assert_eq!(default_from_output(true, " sink_a \n"), Some("sink_a".to_string()));
    assert_eq!(default_from_output(true, "  \n"), None);
    assert_eq!(default_from_output(false, "sink_a"), None);
}

#[test]
fn usable_endpoints_skip_virtual_and_monitors() {
    assert!(!is_usable_endpoint("Audiover_Sink", false));
    assert!(is_usable_endpoint("alsa_output.x.monitor", false));
    assert!(!is_usable_endpoint("alsa_output.x.monitor", true));
    assert_eq!(
        first_usable_listed(SHORT_SINKS, false),
        Some("alsa_output.pci-0000_00_1f.3.analog-stereo".to_string())
    );
    assert_eq!(
        first_usable_listed(SHORT_SOURCES, true),
        Some("alsa_input.pci.analog-stereo".to_string())
    );
    assert_eq!(first_usable_listed("", false), None);
}

#[test]
fn physical_default_prefers_the_reported_default() {
    assert_eq!(physical_default(Some("hw_sink"), Some(SHORT_SINKS), false), Some("hw_sink".to_string()));
    assert_eq!(
        physical_default(Some("Audiover_Sink"), Some(SHORT_SINKS), false),
        Some("alsa_output.pci-0000_00_1f.3.analog-stereo".to_string())
    );
    assert_eq!(physical_default(Some("Audiover_Sink"), None, false), None);
    assert_eq!(physical_default(None, None, true), None);
}

#[test]
fn sink_queries() {
    assert_eq!(sink_query(Some("  HDA Intel PCH ")), Some("hda intel pch".to_string()));
    assert_eq!(sink_query(Some("Audiover_Sink")), None);
    assert_eq!(sink_query(Some("none")), None);
    assert_eq!(sink_query(Some("PipeWire Sound Server")), None);
    assert_eq!(sink_query(Some("default")), None);
    assert_eq!(sink_query(Some("   ")), None);
    assert_eq!(sink_query(None), None);
}

#[test]
fn sink_found_by_any_line_of_its_block() {
    assert_eq!(
        sink_from_listing("hda intel pch", LONG_SINKS),
        Some("alsa_output.pci-0000_00_1f.3.analog-stereo".to_string())
    );
    assert_eq!(sink_from_listing("wh-1000xm4", LONG_SINKS), Some("bluez_output.headset".to_string()));
    // The virtual sink is never chosen, even when it matches.
    assert_eq!(sink_from_listing("audiover virtual", LONG_SINKS), None);
    assert_eq!(sink_from_listing("missing", LONG_SINKS), None);
}

#[test]
fn leftover_modules_are_found_by_name() {
    let listing = "536870913\tmodule-null-sink\tsink_name=Audiover_Sink\n\
536870914\tmodule-remap-source\tsource_name=Audiover_Mic master=Audiover_Sink.monitor\n\
536870915\tmodule-alsa-card\tdevice_id=0\n";
    assert_eq!(
        leftover_module_ids(listing, "Audiover_Sink", "Audiover_Mic"),
        vec!["536870913".to_string(), "536870914".to_string()]
    );
    assert!(leftover_module_ids("", "Audiover_Sink", "Audiover_Mic").is_empty());
}

#[test]
fn wireplumber_state_is_scrubbed() {
    let sp = "[stream-properties]\nFirefox={\"target\": \"Audiover_Sink\"}\nmpv={\"target\": \"hw\"}\n";
    assert!(mentions_audiover(sp));
    assert!(!mentions_audiover("[x]\nnothing\n"));
    assert_eq!(
        scrub_state_file(sp, false),
        "[stream-properties]\nmpv={\"target\": \"hw\"}\n"
    );
    let dn = "[default-nodes]\ndefault.configured.audio.sink=Audiover_Sink\ndefault.configured.audio.source=hw_mic";
    assert_eq!(
        scrub_state_file(dn, true),
        "[default-nodes]\ndefault.configured.audio.source=hw_mic\n"
    );
}

#[test]
fn hijacked_default_and_module_arguments() {
    assert!(default_hijacked(Some("Audiover_Sink"), "Audiover_Sink"));
    assert!(default_hijacked(Some("my_AUDIOVER_thing"), "Audiover_Sink"));
    assert!(!default_hijacked(Some("hw_sink"), "Audiover_Sink"));
    assert!(!default_hijacked(None, "Audiover_Sink"));
    assert_eq!(module_arg("sink_name", "Audiover_Sink"), "sink_name=Audiover_Sink");
    assert_eq!(
        sink_properties("Audiover Sink"),
        "device.description=\"Audiover Sink\" device.class=\"abstract\" node.passive=true priority.driver=0 priority.session=0"
    );
    assert_eq!(
        source_properties("Audiover Mic"),
        "device.description=\"Audiover Mic\" device.class=\"abstract\" priority.driver=1 priority.session=1"
    );
}

#[test]
fn lowered_queries() {
    assert_eq!(
        audiover::pactl::query_if_usable("hda intel pch".to_string()),
        Some("hda intel pch".to_string())
    );
    assert_eq!(audiover::pactl::query_if_usable("none".to_string()), None);
    assert_eq!(audiover::pactl::query_if_usable(String::new()), None);
    assert_eq!(audiover::pactl::query_if_usable("default sink".to_string()), None);
}
