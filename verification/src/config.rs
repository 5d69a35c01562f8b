//! Stream-configuration negotiation: which of the configurations a device
//! supports the engine asks for, and the block-size limits it works with.
use vstd::prelude::*;

verus! {

/// Smallest block size the engine accepts.
pub const MIN_BLOCK: usize = 64;

/// Largest block size the engine accepts.
pub const MAX_BLOCK: usize = 4096;

/// Block size used when the settings hold none.
pub const DEFAULT_BLOCK: usize = 256;

/// Number of blocks each cross-thread ring holds.
pub const RING_BLOCKS: usize = 32;

/// Sample formats the engine converts from and to.
#[derive(Debug, Clone, Copy, PartialEq, Eq, Structural)]
pub enum SampleFormatKind {
    F32,
    I16,
    U16,
    Other,
}

/// Buffer sizes a configuration supports.
#[derive(Debug, Clone, Copy, PartialEq, Eq, Structural)]
pub enum BufferRange {
    Range { min: u32, max: u32 },
    Unknown,
}

/// One supported configuration range of a device.
#[derive(Debug, Clone, Copy, PartialEq, Eq, Structural)]
pub struct ConfigRange {
    pub channels: u16,
    pub format: SampleFormatKind,
    pub min_rate: u32,
    pub max_rate: u32,
    pub buffer: BufferRange,
}

/// A device's default configuration.
#[derive(Debug, Clone, Copy, PartialEq, Eq, Structural)]
pub struct DefaultConfig {
    pub channels: u16,
    pub format: SampleFormatKind,
    pub sample_rate: u32,
}

/// The buffer size to request.
#[derive(Debug, Clone, Copy, PartialEq, Eq, Structural)]
pub enum BufferChoice {
    Fixed(u32),
    Default,
}

/// The configuration the engine opens a stream with.
#[derive(Debug, Clone, Copy, PartialEq, Eq, Structural)]
pub struct ChosenConfig {
    pub channels: u16,
    pub sample_rate: u32,
    pub buffer: BufferChoice,
    pub format: SampleFormatKind,
}

// ----------------------------------------------------------------------
// Specifications
// ----------------------------------------------------------------------

/// 0 when the range covers the wanted rate, else 1.
pub open spec fn rate_score(c: ConfigRange, want: u32) -> int {
    if c.min_rate <= want && want <= c.max_rate {
        0
    } else {
        1
    }
}

/// Float first, then 16-bit signed, then 16-bit unsigned, then the rest.
pub open spec fn format_score(f: SampleFormatKind) -> int {
    match f {
        SampleFormatKind::F32 => 0,
        SampleFormatKind::I16 => 1,
        SampleFormatKind::U16 => 2,
        SampleFormatKind::Other => 3,
    }
}

/// Inputs prefer mono, then fewer channels.
pub open spec fn input_channel_score(ch: u16) -> int {
    if ch == 1 {
        0
    } else {
        ch as int
    }
}

/// Outputs prefer stereo, then more channels, then fewer.
pub open spec fn output_channel_score(ch: u16) -> int {
    if ch == 2 {
        0
    } else if ch > 2 {
        1
    } else {
        2
    }
}

/// Lexicographic order on score triples.
pub open spec fn key_lt(a: (int, int, int), b: (int, int, int)) -> bool {
    ||| a.0 < b.0
    ||| a.0 == b.0 && a.1 < b.1
    ||| a.0 == b.0 && a.1 == b.1 && a.2 < b.2
}

/// The preference key of an input range.
pub open spec fn input_key(c: ConfigRange, want: u32) -> (int, int, int) {
    (rate_score(c, want), format_score(c.format), input_channel_score(c.channels))
}

/// The preference key of an output range.
pub open spec fn output_key(c: ConfigRange, want: u32) -> (int, int, int) {
    (rate_score(c, want), format_score(c.format), output_channel_score(c.channels))
}

/// `i` is the first range of least key: what a stable sort by key puts
/// first.
pub open spec fn is_best(keys: Seq<(int, int, int)>, i: int) -> bool {
    &&& 0 <= i < keys.len()
    &&& forall|j: int| 0 <= j < keys.len() ==> !key_lt(#[trigger] keys[j], keys[i])
    &&& forall|j: int| 0 <= j < i ==> key_lt(keys[i], #[trigger] keys[j])
}

/// The buffer size to ask of a range for the block size `block`.
pub open spec fn buffer_for(b: BufferRange, block: u32) -> BufferChoice {
    match b {
        BufferRange::Range { min, max } => if min <= block && block <= max {
            BufferChoice::Fixed(block)
        } else {
            BufferChoice::Default
        },
        BufferRange::Unknown => BufferChoice::Default,
    }
}

/// The rate to ask of a range: the wanted one when covered, else its
/// highest.
pub open spec fn rate_for(c: ConfigRange, want: u32) -> u32 {
    if want >= c.min_rate && want <= c.max_rate {
        want
    } else {
        c.max_rate
    }
}

/// The input keys of `ranges`.
pub open spec fn input_keys(ranges: Seq<ConfigRange>, want: u32) -> Seq<(int, int, int)> {
    Seq::new(ranges.len(), |i: int| input_key(ranges[i], want))
}

/// The output keys of `ranges`.
pub open spec fn output_keys(ranges: Seq<ConfigRange>, want: u32) -> Seq<(int, int, int)> {
    Seq::new(ranges.len(), |i: int| output_key(ranges[i], want))
}

/// What the engine asks of the range it prefers.
pub open spec fn chosen_from(c: ConfigRange, want: u32, block: u32, channels: u16) -> ChosenConfig {
    ChosenConfig {
        channels,
        sample_rate: rate_for(c, want),
        buffer: buffer_for(c.buffer, block),
        format: c.format,
    }
}

/// The range covers the wanted rate.
pub open spec fn covers(c: ConfigRange, want: u32) -> bool {
    c.min_rate <= want && want <= c.max_rate
}

/// Range `i` of `ranges` is preferred as to rate and format: it covers the
/// wanted rate whenever some range does, and among the ranges that agree
/// with it on covering the rate none has a better format (float before
/// 16-bit signed, before 16-bit unsigned, before anything else).
pub open spec fn rate_and_format_preferred(ranges: Seq<ConfigRange>, want: u32, i: int) -> bool {
    &&& forall|j: int| 0 <= j < ranges.len() && covers(#[trigger] ranges[j], want) ==> covers(ranges[i], want)
    &&& forall|j: int|
        0 <= j < ranges.len() && covers(#[trigger] ranges[j], want) == covers(ranges[i], want) ==> {
            &&& ranges[j].format == SampleFormatKind::F32 ==> ranges[i].format == SampleFormatKind::F32
            &&& ranges[j].format == SampleFormatKind::I16 ==> (ranges[i].format == SampleFormatKind::F32
                || ranges[i].format == SampleFormatKind::I16)
            &&& ranges[j].format == SampleFormatKind::U16 ==> ranges[i].format != SampleFormatKind::Other
        }
}

/// Among the ranges that agree with range `i` on covering the rate and on
/// the format, `i` has the fewest channels, mono first: it is mono when
/// one of them is, and otherwise has no more channels than any of them.
pub open spec fn fewest_channels(ranges: Seq<ConfigRange>, want: u32, i: int) -> bool {
    forall|j: int|
        0 <= j < ranges.len() && covers(#[trigger] ranges[j], want) == covers(ranges[i], want)
            && ranges[j].format == ranges[i].format ==> {
            &&& ranges[j].channels == 1 ==> ranges[i].channels <= 1
            &&& ranges[j].channels != 1 ==> (ranges[i].channels == 1 || ranges[i].channels
                <= ranges[j].channels)
        }
}

/// Among the ranges that agree with range `i` on covering the rate and on
/// the format, `i` is stereo when one of them is, and has at least two
/// channels when one of them has more.
pub open spec fn stereo_first(ranges: Seq<ConfigRange>, want: u32, i: int) -> bool {
    forall|j: int|
        0 <= j < ranges.len() && covers(#[trigger] ranges[j], want) == covers(ranges[i], want)
            && ranges[j].format == ranges[i].format ==> {
            &&& ranges[j].channels == 2 ==> ranges[i].channels == 2
            &&& ranges[j].channels > 2 ==> ranges[i].channels >= 2
        }
}

/// The input range the engine prefers covers the wanted rate when any
/// range does, has the best format among the ranges alike in that, and
/// the fewest channels (mono first) among those alike in both.
pub proof fn law_input_preference(ranges: Seq<ConfigRange>, want: u32, i: int)
    requires
        is_best(input_keys(ranges, want), i),
    ensures
        rate_and_format_preferred(ranges, want, i),
        fewest_channels(ranges, want, i),
{
    let keys = input_keys(ranges, want);
    assert(keys[i] == input_key(ranges[i], want));
    assert forall|j: int| 0 <= j < ranges.len() implies !key_lt(input_key(#[trigger] ranges[j], want), input_key(ranges[i], want)) by {
        assert(keys[j] == input_key(ranges[j], want));
    }
}

/// The output range the engine prefers covers the wanted rate when any
/// range does, has the best format among the ranges alike in that, and is
/// stereo (else has more channels) when one alike in both is.
pub proof fn law_output_preference(ranges: Seq<ConfigRange>, want: u32, i: int)
    requires
        is_best(output_keys(ranges, want), i),
    ensures
        rate_and_format_preferred(ranges, want, i),
        stereo_first(ranges, want, i),
{
    let keys = output_keys(ranges, want);
    assert(keys[i] == output_key(ranges[i], want));
    assert forall|j: int| 0 <= j < ranges.len() implies !key_lt(output_key(#[trigger] ranges[j], want), output_key(ranges[i], want)) by {
        assert(keys[j] == output_key(ranges[j], want));
    }
}

// ----------------------------------------------------------------------
// Verified functions
// ----------------------------------------------------------------------

fn key_less(a: (u32, u32, u32), b: (u32, u32, u32)) -> (r: bool)
    ensures
        r == key_lt((a.0 as int, a.1 as int, a.2 as int), (b.0 as int, b.1 as int, b.2 as int)),
{
    a.0 < b.0 || (a.0 == b.0 && a.1 < b.1) || (a.0 == b.0 && a.1 == b.1 && a.2 < b.2)
}

fn format_rank(f: SampleFormatKind) -> (r: u32)
    ensures
        r as int == format_score(f),
{
    match f {
        SampleFormatKind::F32 => 0,
        SampleFormatKind::I16 => 1,
        SampleFormatKind::U16 => 2,
        SampleFormatKind::Other => 3,
    }
}

fn range_key(c: &ConfigRange, want: u32, output: bool) -> (k: (u32, u32, u32))
    ensures
        !output ==> (k.0 as int, k.1 as int, k.2 as int) == input_key(*c, want),
        output ==> (k.0 as int, k.1 as int, k.2 as int) == output_key(*c, want),
{
    let rate: u32 = if c.min_rate <= want && want <= c.max_rate {
        0
    } else {
        1
    };
    let ch: u32 = if output {
        if c.channels == 2 {
            0
        } else if c.channels > 2 {
            1
        } else {
            2
        }
    } else {
        if c.channels == 1 {
            0
        } else {
            c.channels as u32
        }
    };
    (rate, format_rank(c.format), ch)
}

/// Position of the range a stable sort by preference key puts first.
fn best_range(ranges: &Vec<ConfigRange>, want: u32, output: bool) -> (i: usize)
    requires
        ranges.len() > 0,
    ensures
        !output ==> is_best(input_keys(ranges@, want), i as int),
        output ==> is_best(output_keys(ranges@, want), i as int),
{
    let ghost keys = if output {
        output_keys(ranges@, want)
    } else {
        input_keys(ranges@, want)
    };
    let mut best: usize = 0;
    let mut best_key = range_key(&ranges[0], want, output);
    let mut j: usize = 1;
    while j < ranges.len()
        invariant
            keys == (if output {
                output_keys(ranges@, want)
            } else {
                input_keys(ranges@, want)
            }),
            keys.len() == ranges.len(),
            1 <= j <= ranges.len(),
            best < j,
            (best_key.0 as int, best_key.1 as int, best_key.2 as int) == keys[best as int],
            forall|m: int| 0 <= m < j ==> !key_lt(#[trigger] keys[m], keys[best as int]),
            forall|m: int| 0 <= m < best ==> key_lt(keys[best as int], #[trigger] keys[m]),
        decreases ranges.len() - j,
    {
        let k = range_key(&ranges[j], want, output);
        assert((k.0 as int, k.1 as int, k.2 as int) == keys[j as int]);
        if key_less(k, best_key) {
            best = j;
            best_key = k;
        }
        j += 1;
    }
    best
}

/// The input configuration the engine asks for: among the supported
/// ranges, the first of least key (covers the wanted rate; float, then
/// i16, then u16; mono, then fewer channels), at the wanted rate when
/// covered, else its highest, with a fixed buffer of `block` frames when
/// the range allows it. With no ranges listed, the device default with
/// the default buffer. Also returns the channel count.
pub fn pick_input_config(
    ranges: &Vec<ConfigRange>,
    default: Option<DefaultConfig>,
    want_rate: u32,
    block: u32,
) -> (r: Option<(ChosenConfig, u16)>)
    ensures
        ranges.len() == 0 ==> r == (match default {
            Some(d) => Some(
                (
                    ChosenConfig {
                        channels: d.channels,
                        sample_rate: d.sample_rate,
                        buffer: BufferChoice::Default,
                        format: d.format,
                    },
                    d.channels,
                ),
            ),
            None => None,
        }),
        ranges.len() > 0 ==> exists|i: int|
            #![trigger ranges@[i]]
            is_best(input_keys(ranges@, want_rate), i) && rate_and_format_preferred(ranges@, want_rate, i)
                && fewest_channels(ranges@, want_rate, i) && r == Some(
                (
                    chosen_from(ranges@[i], want_rate, block, ranges@[i].channels),
                    ranges@[i].channels,
                ),
            ),
        (exists|j: int|
            0 <= j < ranges.len() && #[trigger] covers(ranges@[j], want_rate) && ranges@[j].format
                == SampleFormatKind::F32) ==> (r matches Some((c, n)) && c.format == SampleFormatKind::F32
            && c.sample_rate == want_rate),
        (exists|j: int| 0 <= j < ranges.len() && #[trigger] covers(ranges@[j], want_rate)) ==> (r matches Some(
            (c, n),
        ) && c.sample_rate == want_rate && c.channels == n),
{
    if ranges.len() == 0 {
        return match default {
            Some(d) => Some(
                (
                    ChosenConfig {
                        channels: d.channels,
                        sample_rate: d.sample_rate,
                        buffer: BufferChoice::Default,
                        format: d.format,
                    },
                    d.channels,
                ),
            ),
            None => None,
        };
    }
    let i = best_range(ranges, want_rate, false);
    let c = ranges[i];
    let chosen = ChosenConfig {
        channels: c.channels,
        sample_rate: if want_rate >= c.min_rate && want_rate <= c.max_rate {
            want_rate
        } else {
            c.max_rate
        },
        buffer: match c.buffer {
            BufferRange::Range { min, max } => if block >= min && block <= max {
                BufferChoice::Fixed(block)
            } else {
                BufferChoice::Default
            },
            BufferRange::Unknown => BufferChoice::Default,
        },
        format: c.format,
    };
    assert(is_best(input_keys(ranges@, want_rate), i as int) && ranges@[i as int] == c);
    proof {
        law_input_preference(ranges@, want_rate, i as int);
    }
    Some((chosen, c.channels))
}

/// The stereo output configuration the engine asks for: among the
/// supported ranges, the first of least key (covers the wanted rate;
/// float, then i16, then u16; stereo, then more channels), refused when
/// it has fewer than two channels; two channels, the wanted rate when
/// covered, else its highest, a fixed buffer of `block` frames when
/// allowed. With no ranges listed, the device default when it has at
/// least two channels.
pub fn pick_output_config(
    ranges: &Vec<ConfigRange>,
    default: Option<DefaultConfig>,
    want_rate: u32,
    block: u32,
) -> (r: Option<ChosenConfig>)
    ensures
        ranges.len() == 0 ==> r == (match default {
            Some(d) => if d.channels < 2 {
                None
            } else {
                Some(
                    ChosenConfig {
                        channels: 2,
                        sample_rate: d.sample_rate,
                        buffer: BufferChoice::Default,
                        format: d.format,
                    },
                )
            },
            None => None,
        }),
        ranges.len() > 0 ==> exists|i: int|
            #![trigger ranges@[i]]
            is_best(output_keys(ranges@, want_rate), i) && rate_and_format_preferred(ranges@, want_rate, i)
                && stereo_first(ranges@, want_rate, i) && r == (if ranges@[i].channels < 2 {
                None
            } else {
                Some(chosen_from(ranges@[i], want_rate, block, 2))
            }),
        (exists|j: int|
            0 <= j < ranges.len() && #[trigger] covers(ranges@[j], want_rate) && ranges@[j].format
                == SampleFormatKind::F32) ==> (r matches Some(c) ==> c.format == SampleFormatKind::F32
            && c.sample_rate == want_rate),
        (exists|j: int| 0 <= j < ranges.len() && #[trigger] covers(ranges@[j], want_rate)) ==> (r matches Some(c)
            ==> c.sample_rate == want_rate && c.channels == 2),
{
    if ranges.len() == 0 {
        return match default {
            Some(d) => if d.channels < 2 {
                None
            } else {
                Some(
                    ChosenConfig {
                        channels: 2,
                        sample_rate: d.sample_rate,
                        buffer: BufferChoice::Default,
                        format: d.format,
                    },
                )
            },
            None => None,
        };
    }
    let i = best_range(ranges, want_rate, true);
    let c = ranges[i];
    assert(is_best(output_keys(ranges@, want_rate), i as int) && ranges@[i as int] == c);
    proof {
        law_output_preference(ranges@, want_rate, i as int);
    }
    if c.channels < 2 {
        return None;
    }
    Some(
        ChosenConfig {
            channels: 2,
            sample_rate: if want_rate >= c.min_rate && want_rate <= c.max_rate {
                want_rate
            } else {
                c.max_rate
            },
            buffer: match c.buffer {
                BufferRange::Range { min, max } => if block >= min && block <= max {
                    BufferChoice::Fixed(block)
                } else {
                    BufferChoice::Default
                },
                BufferRange::Unknown => BufferChoice::Default,
            },
            format: c.format,
        },
    )
}

/// A requested block size, held to the supported limits.
pub fn clamp_block_size(size: usize) -> (r: usize)
    ensures
        r == (if size < MIN_BLOCK {
            MIN_BLOCK
        } else if size > MAX_BLOCK {
            MAX_BLOCK
        } else {
            size
        }),
{
    if size < MIN_BLOCK {
        MIN_BLOCK
    } else if size > MAX_BLOCK {
        MAX_BLOCK
    } else {
        size
    }
}

/// The block size restored from a saved value: the default when there is
/// none, else the saved value held to `MIN_BLOCK..=MAX_BLOCK`.
pub open spec fn restored_block(saved: Option<u64>) -> int {
    match saved {
        None => DEFAULT_BLOCK as int,
        Some(v) => if v < MIN_BLOCK {
            MIN_BLOCK as int
        } else if v > MAX_BLOCK {
            MAX_BLOCK as int
        } else {
            v as int
        },
    }
}

/// The block size restored from the settings: the saved one held to the
/// limits, else the default.
pub fn restore_block_size(saved: Option<u64>) -> (r: usize)
    ensures
        r == restored_block(saved),
{
    match saved {
        None => DEFAULT_BLOCK,
        Some(v) => {
            if v < 64 {
                MIN_BLOCK
            } else if v > 4096 {
                MAX_BLOCK
            } else {
                v as usize
            }
        },
    }
}

/// Frames each cross-thread ring holds for the block size `block`.
pub fn ring_capacity(block: usize) -> (r: usize)
    requires
        block * RING_BLOCKS <= usize::MAX,
    ensures
        r == block * RING_BLOCKS,
{
    block * RING_BLOCKS
}

} // verus!
