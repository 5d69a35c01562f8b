//! Soundboard playback state: for each loaded sound, where playback
//! stands in its frames, whether it plays and whether it loops; and which
//! source frame each output frame of a mixed block takes.
//!
//! The samples and gains are held by the caller, which adds the frames
//! this module names.
use vstd::prelude::*;
use crate::text;

verus! {

/// Lowest sample rate the soundboard runs at.
pub const MIN_RATE: u32 = 4000;

/// Highest sample rate the soundboard retargets to.
pub const MAX_RATE: u32 = 192000;

/// Playback state of one sound.
#[derive(Debug, Clone, Copy, PartialEq, Eq, Structural)]
pub struct TrackCursor {
    /// Next frame to play.
    pub position: usize,
    /// Number of frames of the sound at the current rate.
    pub len: usize,
    pub is_playing: bool,
    pub loop_playback: bool,
}

/// What mixing `n` frames of the sound does: the source frame for each
/// output frame, in order, and the state afterwards. At the end of the
/// sound a looping sound starts over at frame 0; any other stops, rewinds
/// and contributes nothing more to the block.
pub open spec fn mixed(c: TrackCursor, n: nat) -> (Seq<usize>, TrackCursor)
    decreases n,
{
    if n == 0 {
        (Seq::empty(), c)
    } else if c.position >= c.len {
        if c.loop_playback {
            let rest = mixed((TrackCursor { position: 1, ..c }), (n - 1) as nat);
            (seq![0usize].add(rest.0), rest.1)
        } else {
            (Seq::empty(), (TrackCursor { position: 0, is_playing: false, ..c }))
        }
    } else {
        let rest = mixed((TrackCursor { position: (c.position + 1) as usize, ..c }), (n - 1) as nat);
        (seq![c.position].add(rest.0), rest.1)
    }
}

/// Whether a sound takes part in mixing.
pub open spec fn audible(c: TrackCursor) -> bool {
    c.is_playing && c.len > 0
}

/// The state after mixing a block of `n` frames: audible sounds advance,
/// the others stay.
pub open spec fn after_block(c: TrackCursor, n: nat) -> TrackCursor {
    if audible(c) {
        mixed(c, n).1
    } else {
        c
    }
}

/// A sound that plays from a frame with at least `n` frames left takes
/// exactly the next `n` frames and stays playing.
pub proof fn law_block_advances_once(c: TrackCursor, n: nat)
    requires
        c.position + n <= c.len,
        c.len <= usize::MAX,
    ensures
        mixed(c, n).0 == (Seq::new(n, |k: int| (c.position + k) as usize)),
        mixed(c, n).1 == (TrackCursor { position: (c.position + n) as usize, ..c }),
    decreases n,
{
    if n > 0 {
        let next = (TrackCursor { position: (c.position + 1) as usize, ..c });
        law_block_advances_once(next, (n - 1) as nat);
        assert(mixed(c, n).0 =~= (Seq::new(n, |k: int| (c.position + k) as usize)));
    }
}

/// Mixing never leaves the state past the end, and the position only
/// grows by the frames taken.
pub proof fn law_mixed_in_range(c: TrackCursor, n: nat)
    requires
        0 < c.len,
        c.position <= c.len,
    ensures
        mixed(c, n).1.position <= c.len,
        mixed(c, n).1.len == c.len,
        mixed(c, n).1.loop_playback == c.loop_playback,
        mixed(c, n).0.len() <= n,
        forall|k: int| 0 <= k < mixed(c, n).0.len() ==> #[trigger] mixed(c, n).0[k] < c.len,
    decreases n,
{
    if n > 0 {
        if c.position >= c.len {
            if c.loop_playback {
                law_mixed_in_range((TrackCursor { position: 1, ..c }), (n - 1) as nat);
                let rest = mixed((TrackCursor { position: 1, ..c }), (n - 1) as nat);
                assert forall|k: int| 0 <= k < mixed(c, n).0.len() implies #[trigger] mixed(c, n).0[k]
                    < c.len by {
                    if k > 0 {
                        assert(mixed(c, n).0[k] == rest.0[k - 1]);
                    }
                }
            }
        } else {
            let next = (TrackCursor { position: (c.position + 1) as usize, ..c });
            law_mixed_in_range(next, (n - 1) as nat);
            let rest = mixed(next, (n - 1) as nat);
            assert forall|k: int| 0 <= k < mixed(c, n).0.len() implies #[trigger] mixed(c, n).0[k]
                < c.len by {
                if k > 0 {
                    assert(mixed(c, n).0[k] == rest.0[k - 1]);
                }
            }
        }
    }
}

/// Mixes `n` frames of one sound: the source frame of each output frame
/// and the state afterwards.
pub fn mix_track(c: TrackCursor, n: usize) -> (r: (Vec<usize>, TrackCursor))
    requires
        c.len > 0,
        c.position <= c.len,
    ensures
        r.0@ == mixed(c, n as nat).0,
        r.1 == mixed(c, n as nat).1,
{
    let mut frames: Vec<usize> = Vec::new();
    let mut cur = c;
    let mut k: usize = 0;
    while k < n
        invariant
            0 <= k <= n,
            cur.len == c.len,
            c.len > 0,
            cur.position <= cur.len,
            mixed(c, n as nat) == ({
                let rest = mixed(cur, (n - k) as nat);
                (frames@ + rest.0, rest.1)
            }),
        decreases n - k,
    {
        let ghost before = cur;
        let ghost taken = frames@;
        if cur.position >= cur.len {
            if cur.loop_playback {
                cur.position = 0;
            } else {
                cur.is_playing = false;
                cur.position = 0;
                proof {
                    assert(frames@ + Seq::<usize>::empty() =~= frames@);
                }
                return (frames, cur);
            }
        }
        frames.push(cur.position);
        cur.position = cur.position + 1;
        proof {
            let rest = mixed(cur, (n - k - 1) as nat);
            if before.position >= before.len {
                assert(mixed(before, (n - k) as nat).0 == seq![0usize].add(rest.0));
            } else {
                assert(mixed(before, (n - k) as nat).0 == seq![before.position].add(rest.0));
            }
            assert(taken + mixed(before, (n - k) as nat).0 =~= frames@ + rest.0);
        }
        k += 1;
    }
    proof {
        assert(frames@ + Seq::<usize>::empty() =~= frames@);
    }
    (frames, cur)
}


/// The states after `play(id)`: the sound, if loaded, plays from frame 0.
pub open spec fn played(m: Map<Seq<char>, TrackCursor>, id: Seq<char>) -> Map<Seq<char>, TrackCursor> {
    if m.contains_key(id) {
        m.insert(id, (TrackCursor { position: 0, is_playing: true, ..m[id] }))
    } else {
        m
    }
}

/// The states after `pause(id)`: the sound, if loaded, halts where it is.
pub open spec fn paused(m: Map<Seq<char>, TrackCursor>, id: Seq<char>) -> Map<Seq<char>, TrackCursor> {
    if m.contains_key(id) {
        m.insert(id, (TrackCursor { is_playing: false, ..m[id] }))
    } else {
        m
    }
}

/// The states after `stop(id)`: the sound, if loaded, halts and rewinds.
pub open spec fn stopped(m: Map<Seq<char>, TrackCursor>, id: Seq<char>) -> Map<Seq<char>, TrackCursor> {
    if m.contains_key(id) {
        m.insert(id, (TrackCursor { position: 0, is_playing: false, ..m[id] }))
    } else {
        m
    }
}

/// Pausing a sound that is paused already changes nothing: a second pause
/// does not resume it.
pub proof fn law_pause_twice(m: Map<Seq<char>, TrackCursor>, id: Seq<char>)
    ensures
        paused(paused(m, id), id) == paused(m, id),
        !(paused(m, id).contains_key(id) && paused(m, id)[id].is_playing),
{
    assert(paused(paused(m, id), id) =~= paused(m, id));
}

/// Playing a sound again restarts it from its first frame, wherever it
/// was.
pub proof fn law_play_restarts(m: Map<Seq<char>, TrackCursor>, id: Seq<char>)
    requires
        m.contains_key(id),
    ensures
        played(m, id)[id].position == 0,
        played(m, id)[id].is_playing,
        played(played(m, id), id) == played(m, id),
{
    assert(played(played(m, id), id) =~= played(m, id));
}

/// The rate the soundboard starts at: the requested one, at least
/// `MIN_RATE`.
pub fn initial_rate(requested: u32) -> (r: u32)
    ensures
        r == (if requested < MIN_RATE {
            MIN_RATE
        } else {
            requested
        }),
{
    if requested < MIN_RATE {
        MIN_RATE
    } else {
        requested
    }
}

/// A requested rate held to `MIN_RATE..=MAX_RATE`.
pub open spec fn held_rate(requested: u32) -> u32 {
    if requested < MIN_RATE {
        MIN_RATE
    } else if requested > MAX_RATE {
        MAX_RATE
    } else {
        requested
    }
}

/// What retargeting from `current` to `requested` does: the held rate, or
/// nothing when that is the current rate.
pub open spec fn retargeted(current: u32, requested: u32) -> Option<u32> {
    if held_rate(requested) == current {
        None
    } else {
        Some(held_rate(requested))
    }
}

/// Retargeting twice to the same rate resamples once: after the first
/// retarget the second asks for nothing.
pub proof fn law_retarget_idempotent(current: u32, requested: u32)
    ensures
        retargeted(current, requested) matches Some(r) ==> retargeted(r, requested) is None,
        retargeted(held_rate(requested), requested) is None,
{
}

/// The rate to retarget to, held to `MIN_RATE..=MAX_RATE`, or `None` when
/// that is the current rate (nothing is resampled again then).
pub fn retarget_rate(current: u32, requested: u32) -> (r: Option<u32>)
    ensures
        r == retargeted(current, requested),
{
    let held = if requested < MIN_RATE {
        MIN_RATE
    } else if requested > MAX_RATE {
        MAX_RATE
    } else {
        requested
    };
    if held == current {
        None
    } else {
        Some(held)
    }
}

/// Which frames a retargeted sound is resampled from.
#[derive(Debug, Clone, Copy, PartialEq, Eq, Structural)]
pub enum ResampleSource {
    /// Nothing to resample: the sound is empty.
    Empty,
    /// The frames as decoded, at their own rate.
    Decoded,
    /// The frames held now, at the previous rate.
    Current,
}

/// Where a sound is resampled from when retargeting: the frames as
/// decoded when there are any and their rate is known, else the frames
/// held now; nothing when both are empty.
pub fn resample_source(decoded_len: usize, decoded_rate: u32, current_len: usize) -> (r: ResampleSource)
    ensures
        r == (if decoded_len == 0 && current_len == 0 {
            ResampleSource::Empty
        } else if decoded_len > 0 && decoded_rate > 0 {
            ResampleSource::Decoded
        } else {
            ResampleSource::Current
        }),
{
    if decoded_len == 0 && current_len == 0 {
        ResampleSource::Empty
    } else if decoded_len > 0 && decoded_rate > 0 {
        ResampleSource::Decoded
    } else {
        ResampleSource::Current
    }
}

/// Whether a freshly decoded sound must be resampled to the soundboard
/// rate: its rate differs and it has frames.
pub fn needs_resample(decoded_rate: u32, target_rate: u32, decoded_len: usize) -> (b: bool)
    ensures
        b == (decoded_rate != target_rate && decoded_len > 0),
{
    decoded_rate != target_rate && decoded_len > 0
}

/// The stereo frames of interleaved samples with `channels` channels: a
/// mono sample is doubled; with two or more channels each whole frame
/// gives its first two samples; no channels give no frames.
pub open spec fn stereo_frame_ok<T>(s: Seq<T>, channels: nat, i: int, f: [T; 2]) -> bool {
    if channels == 1 {
        f[0] == s[i] && f[1] == s[i]
    } else {
        f[0] == s[i * channels] && f[1] == s[i * channels + 1]
    }
}

/// How many stereo frames `len` interleaved samples with `channels`
/// channels give.
pub open spec fn stereo_len(len: nat, channels: nat) -> nat {
    if channels == 0 {
        0
    } else if channels == 1 {
        len
    } else {
        len / channels
    }
}

proof fn lemma_frame_in_bounds(i: int, ch: int, len: int)
    by (nonlinear_arith)
    requires
        ch >= 2,
        0 <= i < len / ch,
        len >= 0,
    ensures
        0 <= i * ch,
        i * ch + 1 < len,
{
    assert((i + 1) * ch <= (len / ch) * ch);
    assert((len / ch) * ch <= len);
}

/// The stereo frames of decoded interleaved samples (see
/// `stereo_frame_ok`).
pub fn to_stereo<T: Copy>(samples: &Vec<T>, channels: usize) -> (r: Vec<[T; 2]>)
    ensures
        r.len() == stereo_len(samples.len() as nat, channels as nat),
        forall|i: int| 0 <= i < r.len() ==> stereo_frame_ok(samples@, channels as nat, i, #[trigger] r@[i]),
{
    let mut r: Vec<[T; 2]> = Vec::new();
    if channels == 0 {
        return r;
    }
    let n = if channels == 1 {
        samples.len()
    } else {
        samples.len() / channels
    };
    let mut i: usize = 0;
    while i < n
        invariant
            channels >= 1,
            n == stereo_len(samples.len() as nat, channels as nat),
            0 <= i <= n,
            r.len() == i,
            forall|k: int| 0 <= k < i ==> stereo_frame_ok(samples@, channels as nat, k, #[trigger] r@[k]),
        decreases n - i,
    {
        if channels == 1 {
            let x = samples[i];
            r.push([x, x]);
        } else {
            proof {
                lemma_frame_in_bounds(i as int, channels as int, samples.len() as int);
            }
            let base = i * channels;
            let a = samples[base];
            let b = samples[base + 1];
            r.push([a, b]);
        }
        i += 1;
    }
    r
}

/// The playback state of every loaded sound, by sound id.
pub struct Playback {
    entries: Vec<(String, TrackCursor)>,
}

impl Playback {
    /// Sound ids are distinct and no position is past the end.
    pub closed spec fn wf(&self) -> bool {
        self.distinct() && self.in_range()
    }

    spec fn distinct(&self) -> bool {
        forall|i: int, j: int|
            0 <= i < self.entries.len() && 0 <= j < self.entries.len() && i != j
                ==> self.entries@[i].0@ != self.entries@[j].0@
    }

    spec fn in_range(&self) -> bool {
        forall|i: int| 0 <= i < self.entries.len() ==> #[trigger] self.entries@[i].1.position <= self.entries@[i].1.len
    }

    spec fn pos(&self, id: Seq<char>) -> int {
        choose|i: int| 0 <= i < self.entries.len() && self.entries@[i].0@ == id
    }

    spec fn has(&self, id: Seq<char>) -> bool {
        exists|i: int| 0 <= i < self.entries.len() && self.entries@[i].0@ == id
    }

    /// The sound ids in the order they were loaded.
    pub closed spec fn order(&self) -> Seq<Seq<char>> {
        Seq::new(self.entries@.len(), |i: int| self.entries@[i].0@)
    }

    proof fn lemma_pos(&self, id: Seq<char>, i: int)
        requires
            self.distinct(),
            0 <= i < self.entries.len(),
            self.entries@[i].0@ == id,
        ensures
            self.has(id),
            self.pos(id) == i,
    {
        let p = self.pos(id);
        assert(0 <= p < self.entries.len() && self.entries@[p].0@ == id);
    }

    proof fn lemma_same_names(a: Playback, b: Playback)
        requires
            a.entries.len() == b.entries.len(),
            forall|i: int| 0 <= i < a.entries.len() ==> #[trigger] a.entries@[i].0@ == b.entries@[i].0@,
        ensures
            forall|x: Seq<char>| #[trigger] a.has(x) == b.has(x),
            a.distinct() == b.distinct(),
            a.distinct() ==> forall|x: Seq<char>| a.has(x) ==> #[trigger] a.pos(x) == b.pos(x),
            a.order() == b.order(),
    {
        assert forall|x: Seq<char>| #[trigger] a.has(x) == b.has(x) by {
            if a.has(x) {
                let k = a.pos(x);
                assert(b.entries@[k].0@ == x);
            }
            if b.has(x) {
                let k = b.pos(x);
                assert(a.entries@[k].0@ == x);
            }
        }
        assert(a.distinct() == b.distinct()) by {
            if a.distinct() && !b.distinct() {
                let (i, j) = choose|i: int, j: int|
                    0 <= i < b.entries.len() && 0 <= j < b.entries.len() && i != j
                        && b.entries@[i].0@ == b.entries@[j].0@;
                assert(a.entries@[i].0@ == b.entries@[i].0@);
                assert(a.entries@[j].0@ == b.entries@[j].0@);
            }
            if !a.distinct() && b.distinct() {
                let (i, j) = choose|i: int, j: int|
                    0 <= i < a.entries.len() && 0 <= j < a.entries.len() && i != j
                        && a.entries@[i].0@ == a.entries@[j].0@;
                assert(a.entries@[i].0@ == b.entries@[i].0@);
                assert(a.entries@[j].0@ == b.entries@[j].0@);
            }
        }
        if a.distinct() {
            assert forall|x: Seq<char>| a.has(x) implies #[trigger] a.pos(x) == b.pos(x) by {
                let k = a.pos(x);
                a.lemma_pos(x, k);
                assert(b.entries@[k].0@ == x);
                b.lemma_pos(x, k);
            }
        }
        assert(a.order() =~= b.order());
    }

    /// No sounds.
    pub fn new() -> (p: Playback)
        ensures
            p.wf(),
            p@ == Map::<Seq<char>, TrackCursor>::empty(),
            p.order() == Seq::<Seq<char>>::empty(),
    {
        let p = Playback { entries: Vec::new() };
        assert(p@ =~= Map::<Seq<char>, TrackCursor>::empty());
        assert(p.order() =~= Seq::<Seq<char>>::empty());
        p
    }

    fn find(&self, id: &str) -> (r: Option<usize>)
        requires
            self.wf(),
        ensures
            match r {
                Some(i) => i < self.entries.len() && self.entries@[i as int].0@ == id@ && self.pos(id@)
                    == i && self@.contains_key(id@),
                None => !self@.contains_key(id@),
            },
    {
        let mut i: usize = 0;
        while i < self.entries.len()
            invariant
                0 <= i <= self.entries.len(),
                self.wf(),
                forall|j: int| 0 <= j < i ==> (#[trigger] self.entries@[j]).0@ != id@,
            decreases self.entries.len() - i,
        {
            if text::same_text(self.entries[i].0.as_str(), id) {
                proof {
                    self.lemma_pos(id@, i as int);
                }
                return Some(i);
            }
            i += 1;
        }
        None
    }

    /// Replaces the state at position `i`, keeping its id.
    fn replace(&mut self, i: usize, c: TrackCursor)
        requires
            old(self).wf(),
            c.position <= c.len,
            i < old(self).entries.len(),
        ensures
            final(self).wf(),
            final(self)@ == old(self)@.insert(old(self).entries@[i as int].0@, c),
            final(self).order() == old(self).order(),
    {
        let ghost before = *self;
        let ghost id = self.entries@[i as int].0@;
        let name = self.entries[i].0.clone();
        self.entries.set(i, (name, c));
        proof {
            let after = *self;
            Playback::lemma_same_names(before, after);
            before.lemma_pos(id, i as int);
            assert forall|x: Seq<char>| after.has(x) implies #[trigger] after@[x] == (if x == id {
                c
            } else {
                before@[x]
            }) by {
                let k = before.pos(x);
                before.lemma_pos(x, k);
            }
            assert(after@ =~= before@.insert(id, c));
        }
    }

    /// Records the state of the sound `id` (replacing any held for it); a
    /// new id goes last in the order.
    pub fn insert(&mut self, id: &str, c: TrackCursor)
        requires
            old(self).wf(),
            c.position <= c.len,
        ensures
            final(self).wf(),
            final(self)@ == old(self)@.insert(id@, c),
    {
        match self.find(id) {
            Some(i) => {
                self.replace(i, c);
            },
            None => {
                let ghost before = *self;
                self.entries.push((id.to_string(), c));
                proof {
                    let after = *self;
                    let n = before.entries.len() as int;
                    assert forall|x: Seq<char>| #[trigger] after.has(x) == (before.has(x) || x == id@) by {
                        if before.has(x) {
                            let k = before.pos(x);
                            assert(after.entries@[k].0@ == x);
                        }
                        if x == id@ {
                            assert(after.entries@[n].0@ == x);
                        }
                        if after.has(x) && x != id@ {
                            let k = after.pos(x);
                            assert(before.entries@[k].0@ == x);
                        }
                    }
                    assert forall|x: Seq<char>| after.has(x) implies #[trigger] after@[x] == (if x == id@ {
                        c
                    } else {
                        before@[x]
                    }) by {
                        let k = after.pos(x);
                        after.lemma_pos(x, k);
                        if x != id@ {
                            before.lemma_pos(x, k);
                        }
                    }
                    assert(after@ =~= before@.insert(id@, c));
                }
            },
        }
    }

    /// Forgets the sound `id`.
    pub fn remove(&mut self, id: &str)
        requires
            old(self).wf(),
        ensures
            final(self).wf(),
            final(self)@ == old(self)@.remove(id@),
    {
        if let Some(i) = self.find(id) {
            let ghost before = *self;
            let _ = self.entries.remove(i);
            proof {
                let after = *self;
                assert forall|x: Seq<char>| #[trigger] after.has(x) == (before.has(x) && x != id@) by {
                    if before.has(x) && x != id@ {
                        let k = before.pos(x);
                        if k < i {
                            assert(after.entries@[k].0@ == x);
                        } else {
                            assert(k != i);
                            assert(after.entries@[k - 1].0@ == x);
                        }
                    }
                    if after.has(x) {
                        let k = after.pos(x);
                        if k < i {
                            assert(before.entries@[k].0@ == x);
                        } else {
                            assert(before.entries@[k + 1].0@ == x);
                        }
                    }
                }
                assert forall|x: Seq<char>| after.has(x) implies #[trigger] after@[x] == before@[x] by {
                    let k = after.pos(x);
                    after.lemma_pos(x, k);
                    if k < i {
                        before.lemma_pos(x, k);
                    } else {
                        before.lemma_pos(x, k + 1);
                    }
                }
                assert(after@ =~= before@.remove(id@));
            }
        } else {
            proof {
                assert(self@ =~= old(self)@.remove(id@));
            }
        }
    }

    /// The state of the sound `id`, if it is loaded.
    pub fn cursor(&self, id: &str) -> (r: Option<TrackCursor>)
        requires
            self.wf(),
        ensures
            r == (if self@.contains_key(id@) {
                Some(self@[id@])
            } else {
                None
            }),
    {
        match self.find(id) {
            Some(i) => Some(self.entries[i].1),
            None => None,
        }
    }

    /// Whether the sound `id` is loaded and playing.
    pub fn is_playing(&self, id: &str) -> (b: bool)
        requires
            self.wf(),
        ensures
            b == (self@.contains_key(id@) && self@[id@].is_playing),
    {
        match self.cursor(id) {
            Some(c) => c.is_playing,
            None => false,
        }
    }

    /// Applies `f`'s effect to the sound `id`, if loaded; see the callers.
    fn update(&mut self, id: &str, c: TrackCursor)
        requires
            old(self).wf(),
            c.position <= c.len,
            old(self)@.contains_key(id@),
        ensures
            final(self).wf(),
            final(self)@ == old(self)@.insert(id@, c),
    {
        let i = self.find(id).unwrap();
        self.replace(i, c);
    }

    /// Plays the sound `id` from its first frame.
    pub fn play(&mut self, id: &str)
        requires
            old(self).wf(),
        ensures
            final(self).wf(),
            final(self)@ == played(old(self)@, id@),
    {
        if let Some(c) = self.cursor(id) {
            self.update(id, (TrackCursor { position: 0, is_playing: true, ..c }));
        }
    }

    /// Halts the sound `id` where it is; pausing again does not resume it.
    pub fn pause(&mut self, id: &str)
        requires
            old(self).wf(),
        ensures
            final(self).wf(),
            final(self)@ == paused(old(self)@, id@),
    {
        if let Some(c) = self.cursor(id) {
            self.update(id, (TrackCursor { is_playing: false, ..c }));
        }
    }

    /// Halts the sound `id` and rewinds it.
    pub fn stop(&mut self, id: &str)
        requires
            old(self).wf(),
        ensures
            final(self).wf(),
            final(self)@ == stopped(old(self)@, id@),
    {
        if let Some(c) = self.cursor(id) {
            self.update(id, (TrackCursor { position: 0, is_playing: false, ..c }));
        }
    }

    /// Plays the sound `id` from the start when it is not playing, else
    /// stops it; `false` when no sound has that id.
    pub fn toggle(&mut self, id: &str) -> (found: bool)
        requires
            old(self).wf(),
        ensures
            final(self).wf(),
            found == old(self)@.contains_key(id@),
            found ==> final(self)@ == (if old(self)@[id@].is_playing {
                stopped(old(self)@, id@)
            } else {
                played(old(self)@, id@)
            }),
            !found ==> final(self)@ == old(self)@,
    {
        match self.cursor(id) {
            Some(c) => {
                if c.is_playing {
                    self.stop(id);
                } else {
                    self.play(id);
                }
                true
            },
            None => false,
        }
    }

    /// Changes whether the sound `id` loops, when a choice is given.
    pub fn set_loop(&mut self, id: &str, loop_playback: Option<bool>)
        requires
            old(self).wf(),
        ensures
            final(self).wf(),
            final(self)@ == (match loop_playback {
                Some(l) => if old(self)@.contains_key(id@) {
                    old(self)@.insert(id@, (TrackCursor { loop_playback: l, ..old(self)@[id@] }))
                } else {
                    old(self)@
                },
                None => old(self)@,
            }),
    {
        if let Some(l) = loop_playback {
            if let Some(c) = self.cursor(id) {
                self.update(id, (TrackCursor { loop_playback: l, ..c }));
            }
        }
    }

    /// Records that the sound `id` now has `len` frames (after
    /// resampling), keeping its position within them.
    pub fn resize(&mut self, id: &str, len: usize)
        requires
            old(self).wf(),
        ensures
            final(self).wf(),
            final(self)@ == (if old(self)@.contains_key(id@) {
                old(self)@.insert(
                    id@,
                    (TrackCursor {
                        len,
                        position: if old(self)@[id@].position < len {
                            old(self)@[id@].position
                        } else {
                            len
                        },
                        ..old(self)@[id@]
                    }),
                )
            } else {
                old(self)@
            }),
    {
        if let Some(c) = self.cursor(id) {
            let position = if c.position < len {
                c.position
            } else {
                len
            };
            self.update(id, (TrackCursor { len, position, ..c }));
        }
    }

    /// Halts and rewinds every sound.
    pub fn stop_all(&mut self)
        requires
            old(self).wf(),
        ensures
            final(self).wf(),
            final(self)@.dom() == old(self)@.dom(),
            forall|id: Seq<char>|
                #[trigger] final(self)@.contains_key(id) ==> final(self)@[id] == (TrackCursor {
                    position: 0,
                    is_playing: false,
                    ..old(self)@[id]
                }),
    {
        let ghost start = *self;
        let mut i: usize = 0;
        while i < self.entries.len()
            invariant
                0 <= i <= self.entries.len(),
                self.wf(),
                self.entries.len() == start.entries.len(),
                forall|j: int| 0 <= j < self.entries.len() ==> #[trigger] self.entries@[j].0@ == start.entries@[j].0@,
                forall|j: int|
                    0 <= j < i ==> #[trigger] self.entries@[j].1 == (TrackCursor {
                        position: 0,
                        is_playing: false,
                        ..start.entries@[j].1
                    }),
                forall|j: int| i <= j < self.entries.len() ==> #[trigger] self.entries@[j].1 == start.entries@[j].1,
            decreases self.entries.len() - i,
        {
            let c = self.entries[i].1;
            let name = self.entries[i].0.clone();
            self.entries.set(i, (name, (TrackCursor { position: 0, is_playing: false, ..c })));
            proof {
                let cur = *self;
                assert forall|a: int, b: int|
                    0 <= a < cur.entries.len() && 0 <= b < cur.entries.len() && a != b implies cur.entries@[a].0@
                    != cur.entries@[b].0@ by {
                    assert(cur.entries@[a].0@ == start.entries@[a].0@);
                    assert(cur.entries@[b].0@ == start.entries@[b].0@);
                }
            }
            i += 1;
        }
        proof {
            let after = *self;
            Playback::lemma_same_names(start, after);
            assert(after@.dom() =~= start@.dom());
            assert forall|id: Seq<char>| #[trigger] after@.contains_key(id) implies after@[id] == (TrackCursor {
                position: 0,
                is_playing: false,
                ..start@[id]
            }) by {
                let k = start.pos(id);
                start.lemma_pos(id, k);
                after.lemma_pos(id, k);
            }
        }
    }

    /// Mixes one block of `n` frames: every audible sound (playing, with
    /// frames) advances as `mixed` says; returns, in load order, each
    /// audible sound's id with the source frame of each output frame.
    pub fn advance(&mut self, n: usize) -> (plans: Vec<(String, Vec<usize>)>)
        requires
            old(self).wf(),
        ensures
            final(self).wf(),
            final(self)@.dom() == old(self)@.dom(),
            forall|id: Seq<char>|
                #[trigger] final(self)@.contains_key(id) ==> final(self)@[id] == after_block(old(self)@[id], n as nat),
            forall|k: int|
                0 <= k < plans.len() ==> {
                    let id = (#[trigger] plans@[k]).0@;
                    &&& old(self)@.contains_key(id)
                    &&& audible(old(self)@[id])
                    &&& plans@[k].1@ == mixed(old(self)@[id], n as nat).0
                },
            forall|id: Seq<char>|
                #[trigger] old(self)@.contains_key(id) && audible(old(self)@[id]) ==> exists|k: int|
                    0 <= k < plans.len() && (#[trigger] plans@[k]).0@ == id,
    {
        let ghost start = *self;
        let mut plans: Vec<(String, Vec<usize>)> = Vec::new();
        let ghost mut which: Seq<int> = Seq::empty();
        let mut i: usize = 0;
        while i < self.entries.len()
            invariant
                0 <= i <= self.entries.len(),
                self.wf(),
                start.wf(),
                self.entries.len() == start.entries.len(),
                forall|j: int| 0 <= j < self.entries.len() ==> #[trigger] self.entries@[j].0@ == start.entries@[j].0@,
                forall|j: int|
                    0 <= j < i ==> #[trigger] self.entries@[j].1 == after_block(start.entries@[j].1, n as nat),
                forall|j: int| i <= j < self.entries.len() ==> #[trigger] self.entries@[j].1 == start.entries@[j].1,
                which.len() == plans.len(),
                forall|k: int|
                    0 <= k < plans.len() ==> {
                        let j = #[trigger] which[k];
                        &&& 0 <= j < i
                        &&& plans@[k].0@ == start.entries@[j].0@
                        &&& audible(start.entries@[j].1)
                        &&& plans@[k].1@ == mixed(start.entries@[j].1, n as nat).0
                    },
                forall|j: int|
                    0 <= j < i && audible(#[trigger] start.entries@[j].1) ==> exists|k: int|
                        0 <= k < which.len() && #[trigger] which[k] == j,
            decreases self.entries.len() - i,
        {
            let c = self.entries[i].1;
            assert(c.position <= c.len);
            if c.is_playing && c.len > 0 {
                let (frames, next) = mix_track(c, n);
                proof {
                    law_mixed_in_range(c, n as nat);
                }
                let name = self.entries[i].0.clone();
                let name2 = self.entries[i].0.clone();
                self.entries.set(i, (name, next));
                let ghost old_which = which;
                plans.push((name2, frames));
                proof {
                    which = which.push(i as int);
                    assert forall|j: int|
                        0 <= j < i + 1 && audible(#[trigger] start.entries@[j].1) implies exists|k: int|
                        0 <= k < which.len() && #[trigger] which[k] == j by {
                        if j < i {
                            let k = choose|k: int| 0 <= k < old_which.len() && #[trigger] old_which[k] == j;
                            assert(which[k] == j);
                        } else {
                            assert(which[which.len() - 1] == j);
                        }
                    }
                }
            }
            proof {
                let cur = *self;
                assert forall|a: int, b: int|
                    0 <= a < cur.entries.len() && 0 <= b < cur.entries.len() && a != b implies cur.entries@[a].0@
                    != cur.entries@[b].0@ by {
                    assert(cur.entries@[a].0@ == start.entries@[a].0@);
                    assert(cur.entries@[b].0@ == start.entries@[b].0@);
                }
            }
            i += 1;
        }
        proof {
            let after = *self;
            Playback::lemma_same_names(start, after);
            assert(after@.dom() =~= start@.dom());
            assert forall|id: Seq<char>| #[trigger] after@.contains_key(id) implies after@[id] == after_block(
                start@[id],
                n as nat,
            ) by {
                let k = start.pos(id);
                start.lemma_pos(id, k);
                after.lemma_pos(id, k);
            }
            assert forall|k: int| 0 <= k < plans.len() implies ({
                let id = (#[trigger] plans@[k]).0@;
                &&& start@.contains_key(id)
                &&& audible(start@[id])
                &&& plans@[k].1@ == mixed(start@[id], n as nat).0
            }) by {
                let j = which[k];
                start.lemma_pos(start.entries@[j].0@, j);
            }
            assert forall|id: Seq<char>|
                #[trigger] start@.contains_key(id) && audible(start@[id]) implies exists|k: int|
                0 <= k < plans.len() && (#[trigger] plans@[k]).0@ == id by {
                let j = start.pos(id);
                start.lemma_pos(id, j);
                let k = choose|k: int| 0 <= k < which.len() && #[trigger] which[k] == j;
                assert(plans@[k].0@ == id);
            }
        }
        plans
    }

    /// Every loaded sound's id with its position and frame count, in load
    /// order (the caller computes the progress ratio).
    pub fn progress(&self) -> (r: Vec<(String, TrackCursor)>)
        requires
            self.wf(),
        ensures
            r.len() == self.order().len(),
            forall|k: int|
                0 <= k < r.len() ==> (#[trigger] r@[k]).0@ == self.order()[k] && self@.contains_key(
                    r@[k].0@,
                ) && self@[r@[k].0@] == r@[k].1,
    {
        let mut r: Vec<(String, TrackCursor)> = Vec::new();
        let mut i: usize = 0;
        while i < self.entries.len()
            invariant
                0 <= i <= self.entries.len(),
                self.wf(),
                r.len() == i,
                forall|k: int|
                    0 <= k < i ==> (#[trigger] r@[k]).0@ == self.entries@[k].0@ && r@[k].1 == self.entries@[k].1,
            decreases self.entries.len() - i,
        {
            r.push((self.entries[i].0.clone(), self.entries[i].1));
            i += 1;
        }
        proof {
            assert forall|k: int| 0 <= k < r.len() implies (#[trigger] r@[k]).0@ == self.order()[k]
                && self@.contains_key(r@[k].0@) && self@[r@[k].0@] == r@[k].1 by {
                self.lemma_pos(self.entries@[k].0@, k);
            }
        }
        r
    }
}

impl View for Playback {
    type V = Map<Seq<char>, TrackCursor>;

    closed spec fn view(&self) -> Map<Seq<char>, TrackCursor> {
        Map::new(|x: Seq<char>| self.has(x), |x: Seq<char>| self.entries@[self.pos(x)].1)
    }
}

} // verus!
