//! Capturing audio: the choice of an input stream configuration among those
//! a device supports, and the reduction of interleaved integer samples to
//! one mono channel of `i16` samples.
use vstd::prelude::*;

verus! {

/// The smallest buffer, in frames, worth asking a device for.
pub const MIN_USEFUL_BUFFER_SIZE: u32 = 256;

/// The buffer size ranked for a device that does not say which it supports.
pub const UNKNOWN_BUFFER_SIZE_RANK: u32 = 8192;

/// The sample format of a supported input configuration.
#[derive(Clone, Copy, Debug, PartialEq, Eq, Structural)]
pub enum SampleFormatKind {
    I16,
    U16,
    F32,
    Other,
}

/// The buffer sizes a supported input configuration allows, in frames.
#[derive(Clone, Copy, Debug, PartialEq, Eq, Structural)]
pub enum BufferSizeRange {
    Range { min: u32, max: u32 },
    Unknown,
}

/// A range of input stream configurations a device supports.
#[derive(Clone, Copy, Debug, PartialEq, Eq, Structural)]
pub struct InputConfigRange {
    pub sample_format: SampleFormatKind,
    pub min_sample_rate: u32,
    pub max_sample_rate: u32,
    pub buffer_size: BufferSizeRange,
    pub channels: u16,
}

/// A configuration is usable when its samples are `i16`, `u16` or `f32`,
/// it allows `sample_rate`, its buffers can be at least
/// `MIN_USEFUL_BUFFER_SIZE` frames long, and it has a channel.
pub open spec fn config_usable(c: InputConfigRange, sample_rate: u32) -> bool {
    &&& (c.sample_format == SampleFormatKind::I16 || c.sample_format == SampleFormatKind::U16
        || c.sample_format == SampleFormatKind::F32)
    &&& c.min_sample_rate <= sample_rate <= c.max_sample_rate
    &&& match c.buffer_size {
        BufferSizeRange::Range { max, .. } => MIN_USEFUL_BUFFER_SIZE <= max,
        BufferSizeRange::Unknown => true,
    }
    &&& c.channels >= 1
}

/// The rank of a configuration: the buffer size it would run with.
pub open spec fn config_rank(c: InputConfigRange) -> u32 {
    match c.buffer_size {
        BufferSizeRange::Range { min, .. } => if MIN_USEFUL_BUFFER_SIZE >= min {
            MIN_USEFUL_BUFFER_SIZE
        } else {
            min
        },
        BufferSizeRange::Unknown => UNKNOWN_BUFFER_SIZE_RANK,
    }
}

/// What makes a configuration usable, and how usable ones are ranked:
/// its samples are `i16`, `u16` or `f32`, `sample_rate` lies between its
/// least and greatest rate, its buffers can reach 256 frames, and it has at
/// least one channel; it ranks by the buffer size it would run with, the
/// larger of 256 and its least buffer size, or 8192 when that is unknown.
pub proof fn lemma_usable_configs(c: InputConfigRange, sample_rate: u32)
    ensures
        config_usable(c, sample_rate) <==> {
            &&& (c.sample_format == SampleFormatKind::I16 || c.sample_format == SampleFormatKind::U16
                || c.sample_format == SampleFormatKind::F32)
            &&& c.min_sample_rate <= sample_rate
            &&& sample_rate <= c.max_sample_rate
            &&& (c.buffer_size matches BufferSizeRange::Range { max, .. } ==> 256 <= max)
            &&& c.channels >= 1
        },
        c.buffer_size matches BufferSizeRange::Range { min, .. } ==> config_rank(c) == if min <= 256 {
            256
        } else {
            min
        },
        c.buffer_size is Unknown ==> config_rank(c) == 8192,
{
}

/// Whether a configuration is usable at `sample_rate` (see `config_usable`).
pub fn is_config_usable(c: &InputConfigRange, sample_rate: u32) -> (r: bool)
    ensures
        r == config_usable(*c, sample_rate),
{
    let format_ok = match c.sample_format {
        SampleFormatKind::I16 | SampleFormatKind::U16 | SampleFormatKind::F32 => true,
        SampleFormatKind::Other => false,
    };
    let buffer_ok = match c.buffer_size {
        BufferSizeRange::Range { max, .. } => MIN_USEFUL_BUFFER_SIZE <= max,
        BufferSizeRange::Unknown => true,
    };
    format_ok && c.min_sample_rate <= sample_rate && sample_rate <= c.max_sample_rate && buffer_ok
        && c.channels >= 1
}

/// The rank of a configuration (see `config_rank`).
pub fn config_rank_exec(c: &InputConfigRange) -> (r: u32)
    ensures
        r == config_rank(*c),
{
    match c.buffer_size {
        BufferSizeRange::Range { min, .. } => if MIN_USEFUL_BUFFER_SIZE >= min {
            MIN_USEFUL_BUFFER_SIZE
        } else {
            min
        },
        BufferSizeRange::Unknown => UNKNOWN_BUFFER_SIZE_RANK,
    }
}

/// The configuration to capture with: the first of the usable ones with the
/// smallest rank, or `None` when none is usable.
pub fn choose_input_config(configs: &Vec<InputConfigRange>, sample_rate: u32) -> (r: Option<usize>)
    ensures
        match r {
            Some(i) => {
                &&& i < configs.len()
                &&& config_usable(configs@[i as int], sample_rate)
                &&& configs@[i as int].min_sample_rate <= sample_rate
                &&& sample_rate <= configs@[i as int].max_sample_rate
                &&& configs@[i as int].sample_format != SampleFormatKind::Other
                &&& (configs@[i as int].buffer_size matches BufferSizeRange::Range { max, .. } ==> 256 <= max)
                &&& configs@[i as int].channels >= 1
                &&& forall|j: int|
                    0 <= j < configs.len() && config_usable(#[trigger] configs@[j], sample_rate)
                        ==> config_rank(configs@[i as int]) <= config_rank(configs@[j])
                &&& forall|j: int|
                    0 <= j < i && config_usable(#[trigger] configs@[j], sample_rate) ==> config_rank(
                        configs@[i as int],
                    ) < config_rank(configs@[j])
            },
            None => forall|j: int|
                0 <= j < configs.len() ==> !config_usable(#[trigger] configs@[j], sample_rate),
        },
{
    let mut best: Option<usize> = None;
    for i in 0..configs.len()
        invariant
            match best {
                Some(b) => {
                    &&& b < i
                    &&& config_usable(configs@[b as int], sample_rate)
                    &&& forall|j: int|
                        0 <= j < i && config_usable(#[trigger] configs@[j], sample_rate)
                            ==> config_rank(configs@[b as int]) <= config_rank(configs@[j])
                    &&& forall|j: int|
                        0 <= j < b && config_usable(#[trigger] configs@[j], sample_rate)
                            ==> config_rank(configs@[b as int]) < config_rank(configs@[j])
                },
                None => forall|j: int|
                    0 <= j < i ==> !config_usable(#[trigger] configs@[j], sample_rate),
            },
    {
        if is_config_usable(&configs[i], sample_rate) {
            match best {
                None => {
                    best = Some(i);
                },
                Some(b) => {
                    if config_rank_exec(&configs[i]) < config_rank_exec(&configs[b]) {
                        best = Some(i);
                    }
                },
            }
        }
    }
    best
}

/// The fixed buffer size to ask for with a chosen configuration: the
/// smallest useful size it allows, when it says which sizes it allows.
pub fn fixed_buffer_size(range: &BufferSizeRange) -> (r: Option<u32>)
    ensures
        match *range {
            BufferSizeRange::Range { min, .. } => r == Some(
                if MIN_USEFUL_BUFFER_SIZE >= min {
                    MIN_USEFUL_BUFFER_SIZE
                } else {
                    min
                },
            ),
            BufferSizeRange::Unknown => r is None,
        },
{
    match *range {
        BufferSizeRange::Range { min, .. } => Some(
            if MIN_USEFUL_BUFFER_SIZE >= min {
                MIN_USEFUL_BUFFER_SIZE
            } else {
                min
            },
        ),
        BufferSizeRange::Unknown => None,
    }
}

// ---------------------------------------------------------------------------
// Mono mixdown
// ---------------------------------------------------------------------------

/// The sum of `data[start..end]`.
pub open spec fn sum_i16(data: Seq<i16>, start: int, end: int) -> int
    decreases end - start,
{
    if end <= start {
        0
    } else {
        sum_i16(data, start, end - 1) + data[end - 1]
    }
}

/// The sum of `data[start..end]`.
pub open spec fn sum_u16(data: Seq<u16>, start: int, end: int) -> int
    decreases end - start,
{
    if end <= start {
        0
    } else {
        sum_u16(data, start, end - 1) + data[end - 1]
    }
}

/// Integer division rounding towards zero, as Rust's `/` on `i32` does.
pub open spec fn div_toward_zero(a: int, b: int) -> int {
    if a >= 0 {
        a / b
    } else {
        -((-a) / b)
    }
}

/// The number of frames (`slice::chunks`) in `len` interleaved samples.
pub open spec fn frame_count(len: int, channels: int) -> int {
    (len + channels - 1) / channels
}

/// Where frame `k` ends: after `channels` samples, or at the end of the
/// data for a last, shorter frame.
pub open spec fn frame_end(len: int, channels: int, k: int) -> int {
    if (k + 1) * channels <= len {
        (k + 1) * channels
    } else {
        len
    }
}

/// The mono sample of frame `k` of interleaved `i16` samples: the sum of the
/// frame's samples divided by the channel count, rounded towards zero.
pub open spec fn mono_i16(data: Seq<i16>, channels: int, k: int) -> int {
    div_toward_zero(sum_i16(data, k * channels, frame_end(data.len() as int, channels, k)), channels)
}

/// The mono sample of frame `k` of interleaved `u16` samples: the sum of the
/// frame's samples divided by the channel count, moved down by 32768.
pub open spec fn mono_u16(data: Seq<u16>, channels: int, k: int) -> int {
    sum_u16(data, k * channels, frame_end(data.len() as int, channels, k)) / channels - 32768
}

proof fn lemma_sum_i16_bounds(data: Seq<i16>, start: int, end: int)
    requires
        0 <= start <= end <= data.len(),
    ensures
        -32768 * (end - start) <= sum_i16(data, start, end) <= 32767 * (end - start),
    decreases end - start,
{
    if end > start {
        lemma_sum_i16_bounds(data, start, end - 1);
    }
}

proof fn lemma_sum_u16_bounds(data: Seq<u16>, start: int, end: int)
    requires
        0 <= start <= end <= data.len(),
    ensures
        0 <= sum_u16(data, start, end) <= 65535 * (end - start),
    decreases end - start,
{
    if end > start {
        lemma_sum_u16_bounds(data, start, end - 1);
    }
}

proof fn lemma_frame(len: int, c: int, k: int)
    requires
        c >= 1,
        len >= 0,
        0 <= k,
        k * c < len,
    ensures
        k * c < frame_end(len, c, k) <= len,
        frame_end(len, c, k) - k * c <= c,
        k < frame_count(len, c),
{
    assert((k + 1) * c == k * c + c) by (nonlinear_arith);
    assert(k < (len + c - 1) / c) by (nonlinear_arith)
        requires
            k * c < len,
            c >= 1,
            k >= 0,
    ;
}

proof fn lemma_frame_count(len: int, c: int)
    requires
        c >= 1,
        len >= 0,
    ensures
        frame_count(len, c) * c >= len,
        frame_count(len, c) >= 0,
        frame_count(len, c) > 0 ==> (frame_count(len, c) - 1) * c < len,
{
    let q = (len + c - 1) / c;
    assert(q * c >= len && q >= 0 && (q > 0 ==> (q - 1) * c < len)) by (nonlinear_arith)
        requires
            q == (len + c - 1) / c,
            c >= 1,
            len >= 0,
    ;
}

/// Reduces interleaved `i16` samples with `channels` channels to one
/// channel: one sample per frame (`mono_i16`), the last frame possibly
/// shorter.
pub fn downmix_i16(data: &[i16], channels: u16) -> (r: Vec<i16>)
    requires
        channels >= 1,
    ensures
        r.len() == frame_count(data@.len() as int, channels as int),
        forall|k: int| 0 <= k < r.len() ==> #[trigger] r@[k] as int == mono_i16(data@, channels as int, k),
{
    let c: usize = channels as usize;
    let len = data.len();
    let mut r: Vec<i16> = Vec::new();
    let mut start: usize = 0;
    let ghost cc = c as int;
    assert(0 * cc == 0);
    proof {
        lemma_frame_count(len as int, cc);
        if len == 0 {
            assert(frame_count(0, cc) == 0) by (nonlinear_arith)
                requires
                    frame_count(0, cc) >= 0,
                    frame_count(0, cc) > 0 ==> (frame_count(0, cc) - 1) * cc < 0,
                    cc >= 1,
            ;
        }
    }
    while start < len
        invariant
            c == channels,
            cc == c,
            c >= 1,
            c <= 65535,
            len == data@.len(),
            start <= len,
            start < len ==> start == r.len() * cc,
            start == len ==> r.len() == frame_count(len as int, cc),
            forall|k: int| 0 <= k < r.len() ==> #[trigger] r@[k] as int == mono_i16(data@, cc, k),
            r.len() <= frame_count(len as int, cc),
        decreases len - start,
    {
        let ghost k = r.len() as int;
        proof {
            lemma_frame(len as int, cc, k);
        }
        let end: usize = if len - start >= c {
            start + c
        } else {
            len
        };
        assert(end as int == frame_end(len as int, cc, k)) by {
            assert((k + 1) * cc == k * cc + cc) by (nonlinear_arith);
            assert(start == k * cc);
        }
        let mut sum: i32 = 0;
        let mut i = start;
        while i < end
            invariant
                start <= i <= end <= len,
                end - start <= c,
                c <= 65535,
                len == data@.len(),
                sum as int == sum_i16(data@, start as int, i as int),
            decreases end - i,
        {
            proof {
                lemma_sum_i16_bounds(data@, start as int, i + 1);
            }
            sum = sum + data[i] as i32;
            i = i + 1;
        }
        proof {
            lemma_sum_i16_bounds(data@, start as int, end as int);
            let s = sum as int;
            let n = (end - start) as int;
            assert(-32768 <= div_toward_zero(s, cc) <= 32767) by (nonlinear_arith)
                requires
                    -32768 * n <= s <= 32767 * n,
                    1 <= n <= cc,
            {
                if s >= 0 {
                    assert(s / cc <= s / n);
                } else {
                    assert((-s) / cc <= (-s) / n);
                }
            }
        }
        let m = sum / (c as i32);
        assert(m as int == div_toward_zero(sum as int, cc));
        assert(sum as int == sum_i16(data@, k * cc, frame_end(len as int, cc, k)));
        let ghost before = r@;
        r.push(m as i16);
        assert(r@[k] as int == mono_i16(data@, cc, k));
        assert forall|j: int| 0 <= j < r.len() implies #[trigger] r@[j] as int == mono_i16(data@, cc, j) by {
            if j < k {
                assert(r@[j] == before[j]);
            }
        }
        start = end;
        proof {
            assert((k + 1) * cc == k * cc + cc) by (nonlinear_arith);
            lemma_frame_count(len as int, cc);
            if start == len {
                assert(r.len() == frame_count(len as int, cc)) by (nonlinear_arith)
                    requires
                        (r.len() - 1) * cc < len as int,
                        r.len() * cc >= len as int,
                        frame_count(len as int, cc) * cc >= len as int,
                        frame_count(len as int, cc) > 0 ==> (frame_count(len as int, cc) - 1) * cc < len as int,
                        cc >= 1,
                ;
            }
        }
    }
    r
}

proof fn lemma_sum_u16_prefix(data: Seq<u16>, start: int, i: int, end: int)
    requires
        0 <= start <= i <= end <= data.len(),
    ensures
        sum_u16(data, start, i) <= sum_u16(data, start, end),
    decreases end - i,
{
    if i < end {
        lemma_sum_u16_prefix(data, start, i, end - 1);
    }
}

/// Reduces interleaved `u16` samples with `channels` channels to one
/// channel of `i16` samples: one sample per frame (`mono_u16`), the last
/// frame possibly shorter. The sum of each frame must fit an `i32`.
pub fn downmix_u16(data: &[u16], channels: u16) -> (r: Vec<i16>)
    requires
        channels >= 1,
        forall|k: int|
            0 <= k < frame_count(data@.len() as int, channels as int) ==> sum_u16(
                data@,
                k * channels,
                #[trigger] frame_end(data@.len() as int, channels as int, k),
            ) <= i32::MAX,
    ensures
        r.len() == frame_count(data@.len() as int, channels as int),
        forall|k: int| 0 <= k < r.len() ==> #[trigger] r@[k] as int == mono_u16(data@, channels as int, k),
{
    let c: usize = channels as usize;
    let len = data.len();
    let mut r: Vec<i16> = Vec::new();
    let mut start: usize = 0;
    let ghost cc = c as int;
    assert(0 * cc == 0);
    proof {
        lemma_frame_count(len as int, cc);
        if len == 0 {
            assert(frame_count(0, cc) == 0) by (nonlinear_arith)
                requires
                    frame_count(0, cc) >= 0,
                    frame_count(0, cc) > 0 ==> (frame_count(0, cc) - 1) * cc < 0,
                    cc >= 1,
            ;
        }
    }
    while start < len
        invariant
            c == channels,
            cc == c,
            c >= 1,
            c <= 65535,
            len == data@.len(),
            start <= len,
            start < len ==> start == r.len() * cc,
            start == len ==> r.len() == frame_count(len as int, cc),
            forall|k: int| 0 <= k < r.len() ==> #[trigger] r@[k] as int == mono_u16(data@, cc, k),
            r.len() <= frame_count(len as int, cc),
            forall|k: int|
                0 <= k < frame_count(data@.len() as int, channels as int) ==> sum_u16(
                    data@,
                    k * channels,
                    #[trigger] frame_end(data@.len() as int, channels as int, k),
                ) <= i32::MAX,
        decreases len - start,
    {
        let ghost k = r.len() as int;
        proof {
            lemma_frame(len as int, cc, k);
        }
        assert(sum_u16(data@, k * cc, frame_end(len as int, cc, k)) <= i32::MAX);
        let end: usize = if len - start >= c {
            start + c
        } else {
            len
        };
        assert(end as int == frame_end(len as int, cc, k)) by {
            assert((k + 1) * cc == k * cc + cc) by (nonlinear_arith);
            assert(start == k * cc);
        }
        let mut sum: i32 = 0;
        let mut i = start;
        while i < end
            invariant
                start <= i <= end <= len,
                end - start <= c,
                c <= 65535,
                len == data@.len(),
                sum as int == sum_u16(data@, start as int, i as int),
                sum_u16(data@, start as int, end as int) <= i32::MAX,
            decreases end - i,
        {
            proof {
                lemma_sum_u16_bounds(data@, start as int, i + 1);
                lemma_sum_u16_prefix(data@, start as int, i + 1, end as int);
            }
            sum = sum + data[i] as i32;
            i = i + 1;
        }
        proof {
            lemma_sum_u16_bounds(data@, start as int, end as int);
            let s = sum as int;
            let n = (end - start) as int;
            assert(0 <= s / cc <= 65535) by (nonlinear_arith)
                requires
                    0 <= s <= 65535 * n,
                    1 <= n <= cc,
            {
                assert(s / cc <= s / n);
            }
        }
        let m = sum / (c as i32) - 32768;
        assert(sum as int == sum_u16(data@, k * cc, frame_end(len as int, cc, k)));
        let ghost before = r@;
        r.push(m as i16);
        assert(r@[k] as int == mono_u16(data@, cc, k));
        assert forall|j: int| 0 <= j < r.len() implies #[trigger] r@[j] as int == mono_u16(data@, cc, j) by {
            if j < k {
                assert(r@[j] == before[j]);
            }
        }
        start = end;
        proof {
            assert((k + 1) * cc == k * cc + cc) by (nonlinear_arith);
            lemma_frame_count(len as int, cc);
            if start == len {
                assert(r.len() == frame_count(len as int, cc)) by (nonlinear_arith)
                    requires
                        (r.len() - 1) * cc < len as int,
                        r.len() * cc >= len as int,
                        frame_count(len as int, cc) * cc >= len as int,
                        frame_count(len as int, cc) > 0 ==> (frame_count(len as int, cc) - 1) * cc < len as int,
                        cc >= 1,
                ;
            }
        }
    }
    r
}

} // verus!
