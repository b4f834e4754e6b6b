//! Values exchanged with the operating system's audio and device APIs:
//! the formats probed for exclusive-mode output, the check of a shared-mode
//! mix format, and the identifiers of created system endpoints.
use vstd::prelude::*;
use vstd::string::*;

use crate::text::chars_of;

verus! {

pub const WAVE_FORMAT_IEEE_FLOAT: u16 = 3;
pub const WAVE_FORMAT_EXTENSIBLE: u16 = 0xFFFE;
/// Bytes after `WAVEFORMATEX` in `WAVEFORMATEXTENSIBLE`.
pub const EXTENSIBLE_EXTRA_BYTES: u16 = 22;
pub const FLOAT_BITS_PER_SAMPLE: u16 = 32;

/// The sample rates probed for exclusive mode, in order of preference.
pub open spec fn candidate_rate(i: int) -> u32 {
    if i == 0 {
        48_000
    } else if i == 1 {
        44_100
    } else if i == 2 {
        96_000
    } else {
        32_000
    }
}

pub const CANDIDATE_RATE_COUNT: usize = 4;

fn candidate_rate_exec(i: usize) -> (r: u32)
    requires
        i < CANDIDATE_RATE_COUNT,
    ensures
        r == candidate_rate(i as int),
{
    if i == 0 {
        48_000
    } else if i == 1 {
        44_100
    } else if i == 2 {
        96_000
    } else {
        32_000
    }
}

/// The (channels, sample rate) pairs offered to an exclusive-mode device,
/// in order: channel counts from `desired` (at least 1) down to 1, each at
/// every candidate rate.
pub open spec fn format_candidates_spec(desired: int) -> Seq<(usize, u32)> {
    let top = if desired < 1 { 1 } else { desired };
    Seq::new(
        (top * CANDIDATE_RATE_COUNT) as nat,
        |k: int| ((top - k / CANDIDATE_RATE_COUNT as int) as usize, candidate_rate(k % CANDIDATE_RATE_COUNT as int)),
    )
}

/// The formats to probe, widest first; the first one the device accepts is
/// used.
pub fn format_candidates(desired_channels: usize) -> (r: Vec<(usize, u32)>)
    requires
        desired_channels <= usize::MAX / 4,
    ensures
        r@ == format_candidates_spec(desired_channels as int),
{
    let top = if desired_channels < 1 {
        1
    } else {
        desired_channels
    };
    let mut r: Vec<(usize, u32)> = Vec::new();
    let mut ch = top;
    while ch >= 1
        invariant
            1 <= top <= usize::MAX / 4,
            top == (if desired_channels < 1 { 1 } else { desired_channels as int }),
            0 <= ch <= top,
            r@.len() == (top - ch) * 4,
            forall|k: int|
                0 <= k < r@.len() ==> #[trigger] r@[k] == ((top - k / 4) as usize, candidate_rate(k % 4)),
        decreases ch,
    {
        let mut i: usize = 0;
        while i < CANDIDATE_RATE_COUNT
            invariant
                1 <= top <= usize::MAX / 4,
                1 <= ch <= top,
                i <= 4,
                r@.len() == (top - ch) * 4 + i,
                forall|k: int|
                    0 <= k < r@.len() ==> #[trigger] r@[k] == ((top - k / 4) as usize, candidate_rate(k % 4)),
            decreases 4 - i,
        {
            let ghost k = r@.len() as int;
            r.push((ch, candidate_rate_exec(i)));
            assert(k / 4 == top - ch && k % 4 == i) by (nonlinear_arith)
                requires
                    k == (top - ch) * 4 + i,
                    0 <= i < 4,
            ;
            i = i + 1;
        }
        ch = ch - 1;
    }
    assert(r@ =~= format_candidates_spec(desired_channels as int));
    r
}

/// The first of the probed formats that the device accepted: the least
/// position of `accepted` that holds `true`, or None when it accepted none.
pub fn first_accepted(accepted: &[bool]) -> (r: Option<usize>)
    ensures
        match r {
            Some(k) => k < accepted@.len() && accepted@[k as int] && forall|j: int|
                0 <= j < k ==> !#[trigger] accepted@[j],
            None => forall|j: int| 0 <= j < accepted@.len() ==> !#[trigger] accepted@[j],
        },
{
    let mut i: usize = 0;
    while i < accepted.len()
        invariant
            i <= accepted@.len(),
            forall|j: int| 0 <= j < i ==> !#[trigger] accepted@[j],
        decreases accepted@.len() - i,
    {
        if accepted[i] {
            return Some(i);
        }
        i = i + 1;
    }
    None
}

/// One range of output configurations a device offers: whether its
/// samples are 32-bit float, its channel count and its sample-rate range.
#[derive(Clone, Copy)]
pub struct OutputConfigRange {
    pub is_f32: bool,
    pub channels: u16,
    pub min_sample_rate: u32,
    pub max_sample_rate: u32,
}

/// Position of the float range with the most channels among the first `n`
/// ranges; of equally wide ones the last.
pub open spec fn widest_f32_from(rs: Seq<OutputConfigRange>, n: int) -> Option<int>
    decreases n,
{
    if n <= 0 {
        None
    } else {
        let prev = widest_f32_from(rs, n - 1);
        if rs[n - 1].is_f32 && (match prev {
            None => true,
            Some(k) => rs[k].channels <= rs[n - 1].channels,
        }) {
            Some(n - 1)
        } else {
            prev
        }
    }
}

/// The rate a range is opened at: `preferred` when the range covers it,
/// else the range's highest rate.
pub open spec fn rate_for(r: OutputConfigRange, preferred: u32) -> u32 {
    if r.min_sample_rate <= preferred <= r.max_sample_rate {
        preferred
    } else {
        r.max_sample_rate
    }
}

/// Chooses the output configuration a device is mixed for: the float
/// range with the most channels (the last of equally wide ones), at
/// `preferred_rate` when that range covers it, else at its highest rate.
/// None when the device offers no float range; its default configuration
/// is used then.
pub fn best_output_config(ranges: &[OutputConfigRange], preferred_rate: u32) -> (r: Option<(usize, u32)>)
    ensures
        match widest_f32_from(ranges@, ranges@.len() as int) {
            None => r is None,
            Some(k) => r == Some((k as usize, rate_for(ranges@[k], preferred_rate))),
        },
        r is None <==> forall|j: int| 0 <= j < ranges@.len() ==> !(#[trigger] ranges@[j]).is_f32,
        r matches Some((k, rate)) ==> {
            &&& k < ranges@.len()
            &&& ranges@[k as int].is_f32
            &&& forall|j: int|
                0 <= j < ranges@.len() && (#[trigger] ranges@[j]).is_f32 ==> ranges@[j].channels
                    <= ranges@[k as int].channels
            &&& forall|j: int|
                k < j < ranges@.len() && (#[trigger] ranges@[j]).is_f32 ==> ranges@[j].channels
                    < ranges@[k as int].channels
        },
{
    let mut best: Option<usize> = None;
    let mut i: usize = 0;
    while i < ranges.len()
        invariant
            i <= ranges@.len(),
            best == (match widest_f32_from(ranges@, i as int) {
                None => None::<usize>,
                Some(k) => Some(k as usize),
            }),
            best is None <==> forall|j: int| 0 <= j < i ==> !(#[trigger] ranges@[j]).is_f32,
            best matches Some(k) ==> {
                &&& k < i
                &&& widest_f32_from(ranges@, i as int) == Some(k as int)
                &&& ranges@[k as int].is_f32
                &&& forall|j: int|
                    0 <= j < i && (#[trigger] ranges@[j]).is_f32 ==> ranges@[j].channels
                        <= ranges@[k as int].channels
                &&& forall|j: int|
                    k < j < i && (#[trigger] ranges@[j]).is_f32 ==> ranges@[j].channels
                        < ranges@[k as int].channels
            },
        decreases ranges@.len() - i,
    {
        let c = ranges[i];
        let take = c.is_f32 && match best {
            None => true,
            Some(k) => ranges[k].channels <= c.channels,
        };
        if take {
            best = Some(i);
        }
        i = i + 1;
    }
    match best {
        None => None,
        Some(k) => {
            let c = ranges[k];
            let rate = if c.min_sample_rate <= preferred_rate && preferred_rate <= c.max_sample_rate {
                preferred_rate
            } else {
                c.max_sample_rate
            };
            Some((k, rate))
        },
    }
}

/// The fields of a 32-bit float `WAVEFORMATEXTENSIBLE` (no channel mask).
pub struct FloatFormat {
    pub channels: u16,
    pub sample_rate: u32,
    pub avg_bytes_per_sec: u32,
    pub block_align: u16,
    pub bits_per_sample: u16,
    pub extra_bytes: u16,
}

/// `channels` as the format's 16-bit field holds it (truncated), times the
/// 4 bytes of a sample, saturating.
pub open spec fn block_align_spec(channels: usize) -> u16 {
    let c = (channels % 65536) as int;
    if c * 4 > u16::MAX { u16::MAX } else { (c * 4) as u16 }
}

/// The float format for `channels` channels at `sample_rate`.
pub fn float_format(channels: usize, sample_rate: u32) -> (f: FloatFormat)
    requires
        sample_rate as int * block_align_spec(channels) as int <= u32::MAX,
    ensures
        f.channels as int == channels % 65536,
        f.sample_rate == sample_rate,
        f.block_align == block_align_spec(channels),
        f.avg_bytes_per_sec as int == sample_rate as int * f.block_align as int,
        f.bits_per_sample == FLOAT_BITS_PER_SAMPLE,
        f.extra_bytes == EXTENSIBLE_EXTRA_BYTES,
{
    let c: u16 = (channels % 65536) as u16;
    let block_align: u16 = if c as u32 * 4 > u16::MAX as u32 {
        u16::MAX
    } else {
        c * 4
    };
    FloatFormat {
        channels: c,
        sample_rate,
        avg_bytes_per_sec: sample_rate * block_align as u32,
        block_align,
        bits_per_sample: FLOAT_BITS_PER_SAMPLE,
        extra_bytes: EXTENSIBLE_EXTRA_BYTES,
    }
}

pub open spec fn not_float_error() -> Seq<char> {
    "System audio loopback requires a float32 mix format, which this output device's shared-mode config doesn't use"@
}

pub open spec fn zero_channels_error() -> Seq<char> {
    "Loopback mix format reported zero channels"@
}

/// Accepts a shared-mode mix format for loopback capture only when it is
/// 32-bit float (tagged so directly, or extensible with the float
/// sub-format) and has channels; returns its channel count and rate.
pub fn check_mix_format(format_tag: u16, extensible_is_float: bool, channels: u16, sample_rate: u32) -> (r: Result<
    (usize, u32),
    String,
>)
    ensures
        ({
            let is_float = format_tag == WAVE_FORMAT_IEEE_FLOAT || (format_tag == WAVE_FORMAT_EXTENSIBLE
                && extensible_is_float);
            &&& !is_float ==> (r matches Err(e) && e@ == not_float_error())
            &&& is_float && channels == 0 ==> (r matches Err(e) && e@ == zero_channels_error())
            &&& is_float && channels > 0 ==> r == Ok::<(usize, u32), String>((channels as usize, sample_rate))
        }),
{
    let is_float = format_tag == WAVE_FORMAT_IEEE_FLOAT || (format_tag == WAVE_FORMAT_EXTENSIBLE
        && extensible_is_float);
    if !is_float {
        return Err(
            String::from_str(
                "System audio loopback requires a float32 mix format, which this output device's shared-mode config doesn't use",
            ),
        );
    }
    if channels == 0 {
        return Err(String::from_str("Loopback mix format reported zero channels"));
    }
    Ok((channels as usize, sample_rate))
}

// ---------------------------------------------------------------------
// System endpoints.
// ---------------------------------------------------------------------

/// The instance id requested for a new system endpoint.
pub open spec fn endpoint_instance_id_spec(suffix: Seq<char>) -> Seq<char> {
    "YomagAudioCable_"@ + suffix
}

pub fn endpoint_instance_id(suffix: &str) -> (id: String)
    ensures
        id@ == endpoint_instance_id_spec(suffix@),
{
    let mut s = String::from_str("YomagAudioCable_");
    s.append(suffix);
    s
}

/// The UTF-16 code units of one character.
pub open spec fn utf16_units(c: char) -> Seq<u16> {
    let v = c as u32;
    if v < 0x10000 {
        seq![v as u16]
    } else {
        let u = v - 0x10000;
        seq![(0xD800 + u / 1024) as u16, (0xDC00 + u % 1024) as u16]
    }
}

/// The UTF-16 encoding of a string.
pub open spec fn utf16(s: Seq<char>) -> Seq<u16>
    decreases s.len(),
{
    if s.len() == 0 {
        Seq::empty()
    } else {
        utf16(s.drop_last()) + utf16_units(s.last())
    }
}

/// `s` in UTF-16 followed by two zero units: a one-entry multi-string as
/// the device API expects its hardware id list.
pub fn double_null_terminated(s: &str) -> (v: Vec<u16>)
    requires
        2 * s@.len() + 2 <= usize::MAX,
    ensures
        v@ == utf16(s@) + seq![0u16, 0u16],
{
    let cs = chars_of(s);
    let mut v: Vec<u16> = Vec::new();
    let mut i: usize = 0;
    while i < cs.len()
        invariant
            i <= cs@.len(),
            cs@ == s@,
            v@ == utf16(cs@.subrange(0, i as int)),
        decreases cs@.len() - i,
    {
        let c = cs[i];
        let code = c as u32;
        assert(cs@.subrange(0, i + 1).drop_last() =~= cs@.subrange(0, i as int));
        if code < 0x10000 {
            v.push(code as u16);
        } else {
            let u = code - 0x10000;
            v.push((0xD800 + u / 1024) as u16);
            v.push((0xDC00 + u % 1024) as u16);
        }
        assert(v@ =~= utf16(cs@.subrange(0, i + 1)));
        i = i + 1;
    }
    assert(cs@.subrange(0, i as int) =~= s@);
    let ghost body = v@;
    v.push(0);
    v.push(0);
    assert(v@ =~= body + seq![0u16, 0u16]);
    v
}

pub open spec fn rejected_error(message: Seq<char>) -> Seq<char> {
    "Windows rejected the device creation request: "@ + message
}

/// The outcome once the system reported on a device creation: its
/// rejection message, or the instance id it reported (the requested one
/// when it reported none).
pub fn endpoint_completion(succeeded: bool, message: &str, reported_id: Option<String>, requested_id: String) -> (r:
    Result<String, String>)
    ensures
        !succeeded ==> (r matches Err(e) && e@ == rejected_error(message@)),
        succeeded ==> (r matches Ok(id) && id@ == match reported_id {
            Some(x) => x@,
            None => requested_id@,
        }),
{
    if !succeeded {
        let mut e = String::from_str("Windows rejected the device creation request: ");
        e.append(message);
        return Err(e);
    }
    match reported_id {
        Some(id) => Ok(id),
        None => Ok(requested_id),
    }
}

} // verus!
