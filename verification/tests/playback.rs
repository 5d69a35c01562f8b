use audiover::playback::{
    initial_rate, mix_track, needs_resample, resample_source, retarget_rate, to_stereo, Playback,
    ResampleSource, TrackCursor, MAX_RATE, MIN_RATE,
};

fn cursor(len: usize) -> TrackCursor {
    TrackCursor { position: 0, len, is_playing: false, loop_playback: false }
}

fn position(p: &Playback, id: &str) -> usize {
    p.cursor(id).unwrap().position
}

#[test]
fn pause_halts_without_toggling() {
    let mut player = Playback::new();
    player.insert("s1", cursor(1024));
    player.play("s1");
    assert!(player.is_playing("s1"));
    player.pause("s1");
    assert!(!player.is_playing("s1"));
    // A second pause must NOT resume playback.
    player.pause("s1");
    assert!(!player.is_playing("s1"));
}

#[test]
fn play_restarts_from_zero() {
    let mut player = Playback::new();
    player.insert("s1", cursor(1024));
    player.play("s1");
    let _ = player.advance(256);
    assert_eq!(position(&player, "s1"), 256);
    player.play("s1");
    assert_eq!(position(&player, "s1"), 0);
}

#[test]
fn mix_advances_position_exactly_once_per_block() {
    let mut player = Playback::new();
    player.insert("s1", cursor(4096));
    player.play("s1");
    let plans = player.advance(256);
    // One mix call consumes exactly one block.
    assert_eq!(position(&player, "s1"), 256);
    assert_eq!(plans.len(), 1);
    assert_eq!(plans[0].0, "s1");
    let expected: Vec<usize> = (0..256).collect();
    assert_eq!(plans[0].1, expected);
}

#[test]
fn retarget_rescales_tracks_and_stays_idempotent() {
    let mut player = Playback::new();
    let mut rate = initial_rate(48000);
    player.insert("s1", cursor(4800)); // 0.1 s @ 48 kHz
    player.play("s1");
    let new_rate = retarget_rate(rate, 16000);
    assert_eq!(new_rate, Some(16000));
    rate = new_rate.unwrap();
    assert_eq!(resample_source(4800, 48000, 4800), ResampleSource::Decoded);
    // 4800 frames @ 48 kHz -> 1600 frames @ 16 kHz, same duration.
    player.resize("s1", 1600);
    assert_eq!(player.cursor("s1").unwrap().len, 1600);
    // Asking for the same rate again resamples nothing.
    assert_eq!(retarget_rate(rate, 16000), None);
    // Back to 48 kHz gives the decoded length again, from the decoded frames.
    assert_eq!(retarget_rate(rate, 48000), Some(48000));
    assert_eq!(resample_source(4800, 48000, 1600), ResampleSource::Decoded);
    player.resize("s1", 4800);
    assert_eq!(player.cursor("s1").unwrap().len, 4800);
}

#[test]
fn rates_are_held_to_their_range() {
    assert_eq!(initial_rate(0), MIN_RATE);
    assert_eq!(initial_rate(44100), 44100);
    assert_eq!(retarget_rate(48000, 1), Some(MIN_RATE));
    assert_eq!(retarget_rate(48000, 1_000_000), Some(MAX_RATE));
    assert_eq!(retarget_rate(MAX_RATE, 1_000_000), None);
    assert!(needs_resample(44100, 48000, 10));
    assert!(!needs_resample(44100, 44100, 10));
    assert!(!needs_resample(44100, 48000, 0));
    assert_eq!(resample_source(0, 44100, 0), ResampleSource::Empty);
    assert_eq!(resample_source(0, 44100, 12), ResampleSource::Current);
    assert_eq!(resample_source(12, 0, 12), ResampleSource::Current);
}

#[test]
fn non_looping_sound_stops_and_rewinds_at_end() {
    let (frames, after) = mix_track(
        TrackCursor { position: 6, len: 8, is_playing: true, loop_playback: false },
        5,
    );
    assert_eq!(frames, vec![6, 7]);
    assert_eq!(after.position, 0);
    assert!(!after.is_playing);
}

#[test]
fn looping_sound_wraps_to_the_start() {
    let (frames, after) = mix_track(
        TrackCursor { position: 6, len: 8, is_playing: true, loop_playback: true },
        5,
    );
    assert_eq!(frames, vec![6, 7, 0, 1, 2]);
    assert_eq!(after.position, 3);
    assert!(after.is_playing);
}

#[test]
fn silent_and_paused_sounds_are_not_mixed() {
    let mut player = Playback::new();
    player.insert("a", cursor(100));
    player.insert("b", cursor(0));
    player.insert("c", cursor(100));
    player.play("a");
    player.play("b");
    let plans = player.advance(10);
    assert_eq!(plans.len(), 1);
    assert_eq!(plans[0].0, "a");
    assert_eq!(position(&player, "c"), 0);
    let progress = player.progress();
    assert_eq!(progress.len(), 3);
    assert_eq!(progress[0].0, "a");
    assert_eq!(progress[0].1.position, 10);
}

#[test]
fn toggle_stop_and_loop_flags() {
    let mut player = Playback::new();
    player.insert("s", cursor(50));
    assert!(!player.toggle("missing"));
    assert!(player.toggle("s"));
    assert!(player.is_playing("s"));
    let _ = player.advance(20);
    assert!(player.toggle("s"));
    assert!(!player.is_playing("s"));
    assert_eq!(position(&player, "s"), 0);
    player.set_loop("s", Some(true));
    assert!(player.cursor("s").unwrap().loop_playback);
    player.set_loop("s", None);
    assert!(player.cursor("s").unwrap().loop_playback);
    player.play("s");
    player.stop("s");
    assert!(!player.is_playing("s"));
    player.play("s");
    player.stop_all();
    assert!(!player.is_playing("s"));
    player.remove("s");
    assert!(player.cursor("s").is_none());
}

#[test]
fn resize_keeps_position_within_the_sound() {
    let mut player = Playback::new();
    player.insert("s", TrackCursor { position: 40, len: 50, is_playing: true, loop_playback: false });
    player.resize("s", 20);
    assert_eq!(position(&player, "s"), 20);
    player.resize("s", 100);
    assert_eq!(position(&player, "s"), 20);
}

#[test]
fn decoded_samples_become_stereo_frames() {
    assert_eq!(to_stereo(&vec![1, 2, 3], 1), vec![[1, 1], [2, 2], [3, 3]]);
    assert_eq!(to_stereo(&vec![1, 2, 3, 4, 5, 6, 7], 3), vec![[1, 2], [4, 5]]);
    assert_eq!(to_stereo(&vec![1, 2, 3, 4], 2), vec![[1, 2], [3, 4]]);
    assert!(to_stereo(&vec![1, 2], 0).is_empty());
    let f: Vec<[f32; 2]> = to_stereo(&vec![0.5f32, -0.5], 2);
    assert_eq!(f, vec![[0.5, -0.5]]);
}
