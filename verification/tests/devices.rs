use audiover::config::{
    clamp_block_size, pick_input_config, pick_output_config, restore_block_size, ring_capacity,
    BufferChoice, BufferRange, ConfigRange, DefaultConfig, SampleFormatKind,
};
use audiover::devices::{
    current_input_index, current_monitor_index, device_name_answers, is_virtual_device_name,
    is_virtual_sink_name, match_device_by_name, monitor_selection, persisted_input_name,
    persisted_monitor_name, resolve_input_device, resolve_monitor_device, sidetone_needs_restart,
    visible_devices, AudioDeviceInfo, DeviceChoice,
};

fn names(list: &[&str]) -> Vec<String> {
    list.iter().map(|s| s.to_string()).collect()
}

fn infos(list: &[(&str, bool)]) -> Vec<AudioDeviceInfo> {
    list.iter()
        .enumerate()
        .map(|(i, (n, d))| AudioDeviceInfo { index: i, name: n.to_string(), is_default: *d })
        .collect()
}

#[test]
fn test_is_virtual_device_name() {
    assert!(is_virtual_device_name("Audiover_Sink"));
    assert!(is_virtual_device_name("Audiover_Mic"));
    assert!(is_virtual_device_name("Audiover_Virtual_Sink"));
    assert!(is_virtual_device_name("module-null_sink"));
    assert!(!is_virtual_device_name("Realtek ALC256"));
    assert!(!is_virtual_device_name("HDA Intel PCH"));
}

#[test]
fn virtual_names_are_case_insensitive() {
    assert!(is_virtual_device_name("AUDIOVER"));
    assert!(is_virtual_device_name("alsa_input.REMAP_SOURCE"));
    assert!(!is_virtual_device_name(""));
}

#[test]
fn virtual_sink_excludes_microphone_side() {
    assert!(is_virtual_sink_name("Audiover_Sink"));
    assert!(is_virtual_sink_name("Audiover_Virtual_Sink"));
    assert!(!is_virtual_sink_name("Audiover_Mic"));
    assert!(!is_virtual_sink_name("Audiover source"));
    assert!(!is_virtual_sink_name("Audiover_remap"));
    assert!(!is_virtual_sink_name("Speakers"));
}

#[test]
fn saved_names_match_by_substring() {
    assert!(device_name_answers("HDA Intel PCH: ALC256 Analog", "  alc256 "));
    assert!(device_name_answers("USB Mic", "usb mic"));
    assert!(!device_name_answers("USB Mic", "webcam"));
    let list = names(&["Audiover_Mic", "Webcam", "USB Mic"]);
    assert_eq!(match_device_by_name(&list, "mic"), Some(2));
    assert_eq!(match_device_by_name(&list, "   "), None);
    assert_eq!(match_device_by_name(&list, "headset"), None);
}

#[test]
fn input_resolution_order() {
    let list = names(&["Audiover_Mic", "Webcam", "USB Mic"]);
    assert_eq!(resolve_input_device(&list, Some("Default"), Some("usb")), Some(DeviceChoice::Listed(2)));
    assert_eq!(resolve_input_device(&list, Some("Default"), Some("nothing")), Some(DeviceChoice::HostDefault));
    assert_eq!(resolve_input_device(&list, Some("Audiover_Mic"), None), Some(DeviceChoice::Listed(1)));
    assert_eq!(resolve_input_device(&names(&["Audiover_Mic"]), None, None), None);
}

#[test]
fn monitor_disabled_resolves_to_nothing() {
    let list = names(&["Speakers"]);
    assert_eq!(resolve_monitor_device(&list, Some("Speakers"), Some("none")), None);
    assert_eq!(resolve_monitor_device(&list, None, None), Some(DeviceChoice::Listed(0)));
}

#[test]
fn devices_page_current_entries() {
    let ins = infos(&[("Audiover_Mic", true), ("Webcam", false), ("USB Mic", false)]);
    assert_eq!(current_input_index(&ins, Some("usb"), None), Some(2));
    // nothing selected and the default is virtual: fall back to the engine's device by exact name
    assert_eq!(current_input_index(&ins, None, Some("Webcam")), Some(1));
    assert_eq!(current_input_index(&ins, None, None), None);
    let outs = infos(&[("Speakers", true), ("Headphones", false)]);
    assert_eq!(current_monitor_index(&outs, Some("none"), Some("Speakers")), None);
    assert_eq!(current_monitor_index(&outs, Some("head"), None), Some(1));
    assert_eq!(current_monitor_index(&outs, None, Some("Speakers")), Some(0));
}

#[test]
fn settings_page_hides_virtual_devices() {
    let list = infos(&[("Audiover_Mic", false), ("Webcam", true), ("null_sink", false)]);
    let shown = visible_devices(&list);
    assert_eq!(shown.len(), 1);
    assert_eq!(shown[0].name, "Webcam");
    assert_eq!(shown[0].index, 1);
}

#[test]
fn persisted_device_names() {
    let list = names(&["HDA Intel PCH: ALC256 Analog"]);
    assert_eq!(persisted_input_name(Some("alc256"), &list), Some("HDA Intel PCH: ALC256 Analog".to_string()));
    assert_eq!(persisted_input_name(Some("Audiover_Mic"), &list), None);
    assert_eq!(persisted_input_name(Some("Webcam"), &list), Some("Webcam".to_string()));
    assert_eq!(persisted_input_name(None, &list), None);
    assert_eq!(persisted_monitor_name(Some("none")), Some("none".to_string()));
    assert_eq!(persisted_monitor_name(Some("Audiover_Sink")), None);
    assert_eq!(persisted_monitor_name(Some("Speakers")), Some("Speakers".to_string()));
}

#[test]
fn monitor_selection_and_sidetone() {
    let outs = infos(&[("Speakers", true), ("Headphones", false)]);
    assert_eq!(monitor_selection(Some("Speakers".to_string()), None, &outs), Some("none".to_string()));
    assert_eq!(monitor_selection(None, Some(1), &outs), Some("Headphones".to_string()));
    assert_eq!(monitor_selection(Some("Speakers".to_string()), Some(7), &outs), Some("Speakers".to_string()));
    assert!(sidetone_needs_restart(true, true, false, None));
    assert!(!sidetone_needs_restart(true, true, false, Some("none")));
    assert!(!sidetone_needs_restart(true, true, true, None));
    assert!(!sidetone_needs_restart(false, true, false, None));
}

fn range(ch: u16, f: SampleFormatKind, lo: u32, hi: u32, buf: BufferRange) -> ConfigRange {
    ConfigRange { channels: ch, format: f, min_rate: lo, max_rate: hi, buffer: buf }
}

#[test]
fn input_config_prefers_rate_then_float_then_mono() {
    let ranges = vec![
        range(2, SampleFormatKind::F32, 8000, 96000, BufferRange::Unknown),
        range(1, SampleFormatKind::I16, 8000, 96000, BufferRange::Range { min: 64, max: 1024 }),
        range(1, SampleFormatKind::F32, 8000, 44100, BufferRange::Unknown),
        range(1, SampleFormatKind::F32, 8000, 96000, BufferRange::Range { min: 64, max: 1024 }),
    ];
    let (cfg, ch) = pick_input_config(&ranges, None, 48000, 256).unwrap();
    assert_eq!(ch, 1);
    assert_eq!(cfg.format, SampleFormatKind::F32);
    assert_eq!(cfg.sample_rate, 48000);
    assert_eq!(cfg.buffer, BufferChoice::Fixed(256));
    // no range covers the rate: the first best takes its highest rate
    let low = vec![range(1, SampleFormatKind::I16, 8000, 16000, BufferRange::Unknown)];
    let (cfg, _) = pick_input_config(&low, None, 48000, 4096).unwrap();
    assert_eq!(cfg.sample_rate, 16000);
    assert_eq!(cfg.buffer, BufferChoice::Default);
    let def = DefaultConfig { channels: 2, format: SampleFormatKind::U16, sample_rate: 44100 };
    let (cfg, ch) = pick_input_config(&vec![], Some(def), 48000, 256).unwrap();
    assert_eq!((cfg.sample_rate, ch, cfg.buffer), (44100, 2, BufferChoice::Default));
    assert!(pick_input_config(&vec![], None, 48000, 256).is_none());
}

#[test]
fn output_config_needs_stereo() {
    let ranges = vec![
        range(1, SampleFormatKind::F32, 8000, 96000, BufferRange::Unknown),
        range(6, SampleFormatKind::F32, 8000, 96000, BufferRange::Unknown),
        range(2, SampleFormatKind::I16, 8000, 96000, BufferRange::Unknown),
    ];
    let cfg = pick_output_config(&ranges, None, 48000, 256).unwrap();
    assert_eq!(cfg.channels, 2);
    assert_eq!(cfg.format, SampleFormatKind::F32);
    let mono = vec![range(1, SampleFormatKind::F32, 8000, 96000, BufferRange::Unknown)];
    assert!(pick_output_config(&mono, None, 48000, 256).is_none());
    let def = DefaultConfig { channels: 1, format: SampleFormatKind::F32, sample_rate: 48000 };
    assert!(pick_output_config(&vec![], Some(def), 48000, 256).is_none());
}

#[test]
fn block_sizes_are_clamped() {
    assert_eq!(clamp_block_size(10), 64);
    assert_eq!(clamp_block_size(512), 512);
    assert_eq!(clamp_block_size(100_000), 4096);
    assert_eq!(restore_block_size(None), 256);
    assert_eq!(restore_block_size(Some(1)), 64);
    assert_eq!(restore_block_size(Some(9999)), 4096);
    assert_eq!(restore_block_size(Some(512)), 512);
    assert_eq!(ring_capacity(256), 8192);
}

#[test]
fn lowered_name_rules() {
    assert!(audiover::devices::is_virtual_lowered("my null_sink"));
    assert!(!audiover::devices::is_virtual_lowered("hda intel pch"));
    assert!(audiover::devices::is_virtual_sink_lowered("audiover_sink"));
    assert!(!audiover::devices::is_virtual_sink_lowered("audiover_mic source"));
    assert!(audiover::devices::lowered_name_answers("hda intel pch analog", "hda intel"));
    assert!(audiover::devices::lowered_name_answers("usb mic", "usb mic"));
    assert!(!audiover::devices::lowered_name_answers("usb", "usb mic"));
}
