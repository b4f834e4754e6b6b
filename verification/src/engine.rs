//! The mixer's buffer arithmetic: converting milliseconds to frames, how
//! much stale audio to drop from a ring buffer that has fallen behind, and
//! the backlog window of a monitor's output.
use vstd::prelude::*;

use crate::devices::INTERNAL_SAMPLE_RATE;
use crate::routing::{MAX_MONITOR_BUFFER_MS, MAX_MONITOR_DELAY_MS, MAX_OUTPUT_CHANNELS};

verus! {

/// Above this much queued audio a source's ring buffer is trimmed ...
pub const MAX_BACKLOG_MS: usize = 80;
/// ... back down to this much.
pub const TARGET_BACKLOG_MS: usize = 20;
/// Room a monitor's backlog may grow beyond its own target before it is
/// trimmed.
pub const MONITOR_BACKLOG_HEADROOM_MS: usize = 60;
/// The most a single mixer tick catches up by.
pub const MAX_TICK_MS: usize = 200;

/// Frames covered by `ms` milliseconds at `sample_rate`, rounded down.
pub fn ms_to_frames(ms: usize, sample_rate: u32) -> (frames: usize)
    requires
        sample_rate as int * ms as int <= usize::MAX,
    ensures
        frames as int == (sample_rate as int * ms as int) / 1000,
{
    (sample_rate as usize * ms) / 1000
}

/// How many queued samples to drop from a ring buffer holding `occupied`
/// samples of `channels`-channel audio (0 counts as 1): none while it
/// holds at most `max_frames` whole frames, otherwise enough whole frames
/// to leave `target_frames`.
pub open spec fn backlog_excess_spec(occupied: int, channels: int, max_frames: int, target_frames: int) -> int {
    let ch = if channels < 1 { 1 } else { channels };
    let frames = occupied / ch;
    if frames > max_frames {
        (frames - target_frames) * ch
    } else {
        0
    }
}

/// The number of stale samples to skip so that a ring buffer's backlog
/// snaps back to its target (0: nothing to drop).
pub fn backlog_excess(occupied: usize, channels: usize, max_frames: usize, target_frames: usize) -> (drop: usize)
    requires
        target_frames <= max_frames,
    ensures
        drop as int == backlog_excess_spec(occupied as int, channels as int, max_frames as int, target_frames as int),
        drop <= occupied,
        drop > 0 ==> occupied - drop < (target_frames + 1) * (if channels < 1 { 1 } else { channels }),
{
    let ch = if channels < 1 {
        1
    } else {
        channels
    };
    let frames = occupied / ch;
    if frames > max_frames {
        let d = frames - target_frames;
        assert(d * ch <= frames * ch) by (nonlinear_arith)
            requires
                d <= frames,
                ch >= 1,
        ;
        assert(frames * ch <= occupied) by (nonlinear_arith)
            requires
                frames == occupied / ch,
                ch >= 1,
        ;
        assert(occupied - d * ch < (target_frames + 1) * ch) by (nonlinear_arith)
            requires
                frames == occupied / ch,
                ch >= 1,
                d == frames - target_frames,
        ;
        d * ch
    } else {
        0
    }
}

/// The frames one mixer tick mixes: the frames that elapsed since the last
/// tick, at least one and at most `MAX_TICK_MS` worth.
pub fn tick_frames(elapsed_frames: usize) -> (frames: usize)
    ensures
        frames == (if elapsed_frames < 1 {
            1
        } else if elapsed_frames > frames_at_internal_rate(MAX_TICK_MS as int) {
            frames_at_internal_rate(MAX_TICK_MS as int) as usize
        } else {
            elapsed_frames
        }),
{
    let max_frames = ms_to_frames(MAX_TICK_MS, INTERNAL_SAMPLE_RATE);
    if elapsed_frames < 1 {
        1
    } else if elapsed_frames > max_frames {
        max_frames
    } else {
        elapsed_frames
    }
}

/// The backlog window of a monitor's output ring buffer, in frames at the
/// internal rate: it is pre-filled with `target_frames` of silence
/// (its buffer plus its delay) and trimmed back to that once it holds more
/// than `max_frames`.
pub struct MonitorBacklog {
    pub target_frames: usize,
    pub max_frames: usize,
    pub prefill_samples: usize,
}

pub open spec fn frames_at_internal_rate(ms: int) -> int {
    (INTERNAL_SAMPLE_RATE as int * ms) / 1000
}

/// The backlog window of a monitor with `buffer_ms` of buffer and
/// `delay_ms` of delay (within their ranges), for a device mix of
/// `channels` channels (0 counts as 1).
pub fn monitor_backlog(buffer_ms: u32, delay_ms: u32, channels: usize) -> (b: MonitorBacklog)
    requires
        buffer_ms <= MAX_MONITOR_BUFFER_MS,
        delay_ms <= MAX_MONITOR_DELAY_MS,
        channels <= MAX_OUTPUT_CHANNELS,
    ensures
        b.target_frames == frames_at_internal_rate(buffer_ms as int) + frames_at_internal_rate(delay_ms as int),
        b.max_frames == b.target_frames + frames_at_internal_rate(MONITOR_BACKLOG_HEADROOM_MS as int),
        b.prefill_samples == b.target_frames * (if channels < 1 { 1 } else { channels }),
{
    let delay_frames = ms_to_frames(delay_ms as usize, INTERNAL_SAMPLE_RATE);
    let target = ms_to_frames(buffer_ms as usize, INTERNAL_SAMPLE_RATE) + delay_frames;
    let headroom = ms_to_frames(MONITOR_BACKLOG_HEADROOM_MS, INTERNAL_SAMPLE_RATE);
    let ch: usize = if channels < 1 {
        1
    } else {
        channels
    };
    assert(target * ch <= 36000 * 32) by (nonlinear_arith)
        requires
            target <= 36000,
            ch <= 32,
    ;
    MonitorBacklog { target_frames: target, max_frames: target + headroom, prefill_samples: target * ch }
}

// ---------------------------------------------------------------------
// Routing the device mix onto a monitor's channels.
// ---------------------------------------------------------------------

/// The sample a monitor's channel `m` takes from frame `f` of the mix (of
/// `ic` channels, 0 counting as 1): the mix channel its map names, or
/// silence when it is unwired or the frame has no such channel.
pub open spec fn routed_sample<T>(src: Seq<T>, ic: int, map: Seq<Option<usize>>, f: int, m: int, silence: T) -> T {
    let c = if ic < 1 { 1 } else { ic };
    let start = f * c;
    match map[m] {
        Some(sc) => if sc < c && start + sc < src.len() { src[start + sc] } else { silence },
        None => silence,
    }
}

/// Writes frame `f` into `out` at `f * mc`: one sample per map entry,
/// as far as `out` reaches.
pub open spec fn write_frame<T>(
    out: Seq<T>,
    src: Seq<T>,
    ic: int,
    map: Seq<Option<usize>>,
    mc: int,
    f: int,
    silence: T,
) -> Seq<T> {
    Seq::new(
        out.len(),
        |p: int|
            if f * mc <= p < f * mc + map.len() {
                routed_sample(src, ic, map, f, p - f * mc, silence)
            } else {
                out[p]
            },
    )
}

/// `out` after writing frames `0..n` in order.
pub open spec fn frames_written<T>(
    out: Seq<T>,
    src: Seq<T>,
    ic: int,
    map: Seq<Option<usize>>,
    mc: int,
    n: int,
    silence: T,
) -> Seq<T>
    decreases n,
{
    if n <= 0 {
        out
    } else {
        write_frame(frames_written(out, src, ic, map, mc, n - 1, silence), src, ic, map, mc, n - 1, silence)
    }
}

/// Number of (possibly partial) frames in a mix of `len` samples.
pub open spec fn frame_count(len: int, ic: int) -> int {
    let c = if ic < 1 { 1 } else { ic };
    (len + c - 1) / c
}

/// A monitor's output buffer after routing: every frame of the mix written
/// at its place (stride `mc`), and everything past the last frame silent.
pub open spec fn routed_output<T>(out: Seq<T>, src: Seq<T>, ic: int, map: Seq<Option<usize>>, mc: int, silence: T) -> Seq<T> {
    let n = frame_count(src.len() as int, ic);
    let done = frames_written(out, src, ic, map, mc, n, silence);
    let tail = if n * mc < out.len() { n * mc } else { out.len() as int };
    Seq::new(out.len(), |p: int| if p >= tail { silence } else { done[p] })
}

proof fn lemma_frames_written_len<T>(
    out: Seq<T>,
    src: Seq<T>,
    ic: int,
    map: Seq<Option<usize>>,
    mc: int,
    n: int,
    silence: T,
)
    ensures
        frames_written(out, src, ic, map, mc, n, silence).len() == out.len(),
    decreases n,
{
    if n > 0 {
        lemma_frames_written_len(out, src, ic, map, mc, n - 1, silence);
    }
}

proof fn lemma_frames_beyond_end<T>(
    out: Seq<T>,
    src: Seq<T>,
    ic: int,
    map: Seq<Option<usize>>,
    mc: int,
    f: int,
    n: int,
    silence: T,
)
    requires
        0 <= f <= n,
        mc >= 0,
        f * mc >= out.len(),
    ensures
        frames_written(out, src, ic, map, mc, n, silence) == frames_written(out, src, ic, map, mc, f, silence),
    decreases n - f,
{
    if n > f {
        lemma_frames_beyond_end(out, src, ic, map, mc, f, n - 1, silence);
        lemma_frames_written_len(out, src, ic, map, mc, n - 1, silence);
        let prev = frames_written(out, src, ic, map, mc, n - 1, silence);
        assert((n - 1) * mc >= f * mc) by (nonlinear_arith)
            requires
                n - 1 >= f,
                mc >= 0,
        ;
        assert(write_frame(prev, src, ic, map, mc, n - 1, silence) =~= prev);
    }
}

/// Fills a monitor's output buffer from the device mix `source` (frames of
/// `internal_channels` samples): output frame `f` starts at
/// `f * monitor_channels`, and its channel `m` gets the mix channel that
/// `map[m]` names, or `silence`; whatever lies past the last frame is
/// silenced.
pub fn route_monitor_frames<T: Copy>(
    source: &[T],
    internal_channels: usize,
    map: &[Option<usize>],
    output: &mut [T],
    monitor_channels: usize,
    silence: T,
)
    requires
        source@.len() + internal_channels + 1 <= usize::MAX,
        old(output)@.len() + monitor_channels <= usize::MAX,
        old(output)@.len() + map@.len() <= usize::MAX,
    ensures
        final(output)@ == routed_output(
            old(output)@,
            source@,
            internal_channels as int,
            map@,
            monitor_channels as int,
            silence,
        ),
{
    let c: usize = if internal_channels < 1 {
        1
    } else {
        internal_channels
    };
    let ghost out0 = output@;
    let ghost ic = internal_channels as int;
    let ghost mc = monitor_channels as int;
    let ghost n = frame_count(source@.len() as int, ic);
    let len = output.len();
    let mut out_idx: usize = 0;
    let mut start: usize = 0;
    let ghost mut f: int = 0;
    proof {
        if source@.len() == 0 {
            assert((c as int - 1) / (c as int) == 0) by (nonlinear_arith)
                requires
                    c >= 1,
            ;
        }
    }
    while start < source.len()
        invariant
            ic == internal_channels as int,
            mc == monitor_channels as int,
            c == (if internal_channels < 1 { 1 } else { internal_channels }),
            len == output@.len(),
            output@.len() == out0.len(),
            source@.len() + internal_channels + 1 <= usize::MAX,
            len + monitor_channels <= usize::MAX,
            len + map@.len() <= usize::MAX,
            n == frame_count(source@.len() as int, ic),
            0 <= f <= n,
            out_idx == f * mc,
            start == f * c,
            start >= source@.len() ==> f == n,
            output@ == frames_written(out0, source@, ic, map@, mc, f, silence),
        ensures
            output@ == frames_written(out0, source@, ic, map@, mc, f, silence),
            0 <= f <= n,
            out_idx == f * mc,
            f == n || f * mc >= len,
        decreases n - f,
    {
        proof {
            assert(f < n) by (nonlinear_arith)
                requires
                    start == f * c,
                    start < source@.len(),
                    c >= 1,
                    n == (source@.len() as int + c as int - 1) / (c as int),
            ;
        }
        if out_idx >= len {
            break;
        }
        let ghost prev = output@;
        let mut m: usize = 0;
        while m < map.len()
            invariant
                ic == internal_channels as int,
                mc == monitor_channels as int,
                start < source@.len(),
                source@.len() + internal_channels + 1 <= usize::MAX,
                out_idx < len,
                len == output@.len(),
                len + map@.len() <= usize::MAX,
                c == (if internal_channels < 1 { 1 } else { internal_channels }),
                out_idx == f * mc,
                start == f * c,
                m <= map@.len(),
                prev.len() == len,
                output@ == Seq::new(
                    len as nat,
                    |p: int|
                        if f * mc <= p < f * mc + m {
                            routed_sample(source@, ic, map@, f, p - f * mc, silence)
                        } else {
                            prev[p]
                        },
                ),
            ensures
                output@ == write_frame(prev, source@, ic, map@, mc, f, silence),
            decreases map@.len() - m,
        {
            if out_idx + m >= len {
                assert(output@ =~= write_frame(prev, source@, ic, map@, mc, f, silence));
                break;
            }
            let v = match map[m] {
                Some(sc) => if sc < c && start + sc < source.len() {
                    source[start + sc]
                } else {
                    silence
                },
                None => silence,
            };
            output[out_idx + m] = v;
            m = m + 1;
            assert(output@ =~= Seq::new(
                len as nat,
                |p: int|
                    if f * mc <= p < f * mc + m {
                        routed_sample(source@, ic, map@, f, p - f * mc, silence)
                    } else {
                        prev[p]
                    },
            ));
        }
        proof {
            assert(output@ =~= write_frame(prev, source@, ic, map@, mc, f, silence));
            assert((f + 1) * mc == f * mc + mc) by (nonlinear_arith);
            assert((f + 1) * c == f * c + c) by (nonlinear_arith);
        }
        out_idx = out_idx + monitor_channels;
        start = start + c;
        proof {
            f = f + 1;
            if start >= source@.len() {
                assert(f >= n) by (nonlinear_arith)
                    requires
                        start == f * c,
                        start >= source@.len(),
                        c >= 1,
                        n == (source@.len() as int + c as int - 1) / (c as int),
                ;
            }
        }
    }
    proof {
        if f < n {
            lemma_frames_beyond_end(out0, source@, ic, map@, mc, f, n, silence);
            assert(n * mc >= f * mc) by (nonlinear_arith)
                requires
                    n >= f,
                    mc >= 0,
            ;
        }
    }
    let tail = if out_idx < len {
        out_idx
    } else {
        len
    };
    let ghost done = output@;
    let mut p: usize = tail;
    while p < len
        invariant
            tail <= p <= len,
            len == output@.len(),
            output@ == Seq::new(len as nat, |q: int| if tail <= q < p { silence } else { done[q] }),
        decreases len - p,
    {
        output[p] = silence;
        p = p + 1;
        assert(output@ =~= Seq::new(len as nat, |q: int| if tail <= q < p { silence } else { done[q] }));
    }
    assert(output@ =~= routed_output(out0, source@, ic, map@, mc, silence));
}

proof fn lemma_frames_written_closed<T>(
    out: Seq<T>,
    src: Seq<T>,
    ic: int,
    map: Seq<Option<usize>>,
    mc: int,
    k: int,
    silence: T,
)
    requires
        mc >= 1,
        map.len() <= mc,
        k >= 0,
    ensures
        frames_written(out, src, ic, map, mc, k, silence).len() == out.len(),
        forall|p: int|
            0 <= p < out.len() ==> #[trigger] frames_written(out, src, ic, map, mc, k, silence)[p] == if p / mc < k
                && p % mc < map.len() {
                routed_sample(src, ic, map, p / mc, p % mc, silence)
            } else {
                out[p]
            },
    decreases k,
{
    lemma_frames_written_len(out, src, ic, map, mc, k, silence);
    if k > 0 {
        lemma_frames_written_closed(out, src, ic, map, mc, k - 1, silence);
        let prev = frames_written(out, src, ic, map, mc, k - 1, silence);
        let f = k - 1;
        assert forall|p: int| 0 <= p < out.len() implies #[trigger] frames_written(out, src, ic, map, mc, k, silence)[p]
            == if p / mc < k && p % mc < map.len() {
            routed_sample(src, ic, map, p / mc, p % mc, silence)
        } else {
            out[p]
        } by {
            let q = p / mc;
            let r = p % mc;
            assert(p == q * mc + r && 0 <= r < mc) by (nonlinear_arith)
                requires
                    mc >= 1,
                    q == p / mc,
                    r == p % mc,
            ;
            if f * mc <= p && p < f * mc + map.len() {
                assert(q == f && r == p - f * mc) by (nonlinear_arith)
                    requires
                        p == q * mc + r,
                        0 <= r < mc,
                        f * mc <= p < f * mc + map.len(),
                        map.len() <= mc,
                ;
            } else {
                assert(q != f || r >= map.len()) by (nonlinear_arith)
                    requires
                        p == q * mc + r,
                        0 <= r < mc,
                        !(f * mc <= p && p < f * mc + map.len()),
                ;
            }
        }
    }
}

/// When a monitor's map has no more entries than the monitor has channels,
/// sample `p` of the routed output (before the silenced tail) is channel
/// `p % mc` of output frame `p / mc`: the mix sample its map entry names,
/// or what the buffer held when that channel has no map entry.
pub proof fn lemma_monitor_channel_routing<T>(
    out: Seq<T>,
    src: Seq<T>,
    ic: int,
    map: Seq<Option<usize>>,
    mc: int,
    silence: T,
    p: int,
)
    requires
        mc >= 1,
        map.len() <= mc,
        0 <= p < out.len(),
        p < frame_count(src.len() as int, ic) * mc,
    ensures
        routed_output(out, src, ic, map, mc, silence)[p] == if p % mc < map.len() {
            routed_sample(src, ic, map, p / mc, p % mc, silence)
        } else {
            out[p]
        },
{
    let n = frame_count(src.len() as int, ic);
    lemma_frames_written_closed(out, src, ic, map, mc, n, silence);
    assert(p / mc < n) by (nonlinear_arith)
        requires
            mc >= 1,
            0 <= p < n * mc,
    ;
}

/// Each sample a monitor plays comes from its own frame of the mix. Where
/// the map has no more entries than the monitor has channels, take sample
/// `p` of the routed output within the mix's frames: its frame is
/// `f = p / mc`, its channel `m = p % mc`, and the mix has `c` channels
/// (`ic`, at least 1), frame `f` being `src[f * c .. f * c + c)`.
/// - If `m` is wired to a mix channel `sc < c` that the (possibly short)
///   last frame holds, the sample is `src[f * c + sc]`.
/// - If `m` is wired to a channel `sc >= c` the mix does not have, the
///   sample is silence, whatever the samples after the frame are.
/// - Two mixes of the same length that agree on frame `f` give the same
///   sample: nothing outside the frame reaches it.
pub proof fn lemma_monitor_reads_own_frame<T>(
    out: Seq<T>,
    src: Seq<T>,
    other: Seq<T>,
    ic: int,
    map: Seq<Option<usize>>,
    mc: int,
    silence: T,
    p: int,
)
    requires
        mc >= 1,
        map.len() <= mc,
        0 <= p < out.len(),
        p < frame_count(src.len() as int, ic) * mc,
        other.len() == src.len(),
        forall|j: int|
            (p / mc) * (if ic < 1 { 1 } else { ic }) <= j < (p / mc) * (if ic < 1 { 1 } else { ic }) + (if ic < 1 {
                1
            } else {
                ic
            }) && j < src.len() ==> #[trigger] src[j] == other[j],
    ensures
        p % mc < map.len() ==> match map[p % mc] {
            Some(sc) => if sc < (if ic < 1 { 1 } else { ic }) && (p / mc) * (if ic < 1 { 1 } else { ic }) + sc
                < src.len() {
                routed_output(out, src, ic, map, mc, silence)[p] == src[(p / mc) * (if ic < 1 { 1 } else { ic }) + sc]
            } else {
                routed_output(out, src, ic, map, mc, silence)[p] == silence
            },
            None => routed_output(out, src, ic, map, mc, silence)[p] == silence,
        },
        routed_output(out, src, ic, map, mc, silence)[p] == routed_output(out, other, ic, map, mc, silence)[p],
{
    lemma_monitor_channel_routing(out, src, ic, map, mc, silence, p);
    lemma_monitor_channel_routing(out, other, ic, map, mc, silence, p);
    let c = if ic < 1 { 1 } else { ic };
    let f = p / mc;
    if p % mc < map.len() {
        match map[p % mc] {
            Some(sc) => {
                if sc < c && f * c + sc < src.len() {
                    assert(src[f * c + sc] == other[f * c + sc]);
                }
            },
            None => {},
        }
    }
}

} // verus!
