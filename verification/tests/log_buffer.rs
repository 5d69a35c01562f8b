use audiover::log_buffer::{
    clock_of_day, level_enabled, level_from_setting, LevelFilter, LogBuffer, LogLevel, MAX_ENTRIES,
};

#[test]
fn buffer_caps_and_filters_by_seq() {
    let mut buf = LogBuffer::new();
    buf.push(LogLevel::Info, "t", "a".to_string());
    buf.push(LogLevel::Error, "t", "b".to_string());
    let all = buf.tail_since(None);
    assert_eq!(all.len(), 2);
    let rest = buf.tail_since(Some(all[0].seq));
    assert_eq!(rest.len(), 1);
    assert_eq!(rest[0].message, "b");
    buf.clear();
    assert_eq!(buf.len(), 0);
}

#[test]
fn records_are_numbered_from_one_and_keep_their_fields() {
    let mut buf = LogBuffer::new();
    buf.push_at(LogLevel::Warn, "audio", "late".to_string(), 42);
    let all = buf.tail_since(None);
    assert_eq!(all.len(), 1);
    assert_eq!(all[0].seq, 1);
    assert_eq!(all[0].ts_ms, 42);
    assert_eq!(all[0].level, "WARN");
    assert_eq!(all[0].target, "audio");
    assert_eq!(all[0].message, "late");
}

#[test]
fn oldest_record_is_dropped_at_capacity() {
    let mut buf = LogBuffer::new();
    for i in 0..(MAX_ENTRIES + 5) {
        buf.push_at(LogLevel::Debug, "t", format!("m{}", i), 0);
    }
    assert_eq!(buf.len(), MAX_ENTRIES);
    let all = buf.tail_since(None);
    assert_eq!(all[0].seq, 6);
    assert_eq!(all[0].message, "m5");
    assert_eq!(all[MAX_ENTRIES - 1].seq, (MAX_ENTRIES + 5) as u64);
}

#[test]
fn numbering_continues_after_clear() {
    let mut buf = LogBuffer::new();
    buf.push_at(LogLevel::Info, "t", "a".to_string(), 1);
    buf.push_at(LogLevel::Info, "t", "b".to_string(), 2);
    buf.clear();
    buf.push_at(LogLevel::Trace, "t", "c".to_string(), 3);
    let all = buf.tail_since(None);
    assert_eq!(all.len(), 1);
    assert_eq!(all[0].seq, 3);
    assert_eq!(all[0].level, "TRACE");
    assert_eq!(buf.tail_since(Some(3)).len(), 0);
    assert_eq!(buf.tail_since(Some(0)).len(), 1);
}

#[test]
fn level_names_and_filtering() {
    assert_eq!(LogLevel::Error.as_str(), "ERROR");
    assert_eq!(LogLevel::Info.as_str(), "INFO");
    assert!(level_enabled(LogLevel::Error, LevelFilter::Warn));
    assert!(level_enabled(LogLevel::Info, LevelFilter::Info));
    assert!(!level_enabled(LogLevel::Debug, LevelFilter::Info));
    assert!(!level_enabled(LogLevel::Error, LevelFilter::Off));
    assert!(level_enabled(LogLevel::Trace, LevelFilter::Trace));
}

#[test]
fn level_setting_is_parsed_like_rust_log() {
    assert_eq!(level_from_setting(None), LevelFilter::Info);
    assert_eq!(level_from_setting(Some("")), LevelFilter::Info);
    assert_eq!(level_from_setting(Some("audiover=debug,info")), LevelFilter::Debug);
    assert_eq!(level_from_setting(Some(" WARNING ")), LevelFilter::Warn);
    assert_eq!(level_from_setting(Some("mod:trace")), LevelFilter::Trace);
    assert_eq!(level_from_setting(Some("off")), LevelFilter::Off);
    assert_eq!(level_from_setting(Some("nonsense,error")), LevelFilter::Error);
    assert_eq!(level_from_setting(Some("nonsense")), LevelFilter::Info);
}

#[test]
fn clock_of_day_splits_seconds() {
    assert_eq!(clock_of_day(0), (0, 0, 0));
    assert_eq!(clock_of_day(86_399), (23, 59, 59));
    assert_eq!(clock_of_day(86_400 + 3_600 + 61), (1, 1, 1));
}

#[test]
fn level_words() {
    assert_eq!(audiover::log_buffer::filter_for_word("warning"), Some(LevelFilter::Warn));
    assert_eq!(audiover::log_buffer::filter_for_word("trace"), Some(LevelFilter::Trace));
    assert_eq!(audiover::log_buffer::filter_for_word("WARN"), None);
    assert_eq!(audiover::log_buffer::filter_for_word("audiover"), None);
}
