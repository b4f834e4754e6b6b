//! Physical device descriptions and the name heuristics that pick the
//! machine's built-in microphone and speaker out of a device list.
use vstd::prelude::*;

use crate::text::{has_substring, lowercase, str_contains, string_views, to_lowercase};

verus! {

/// One physical audio endpoint as enumerated by the platform.
pub struct AudioDeviceInfo {
    pub name: String,
    pub is_default: bool,
    pub is_input: bool,
    /// Native sample rate from the device's default shared-mode config, or
    /// None when that query failed or the device has no native format.
    pub sample_rate: Option<u32>,
    pub channels: Option<u16>,
}

impl Clone for AudioDeviceInfo {
    fn clone(&self) -> (r: Self)
        ensures
            r == *self,
    {
        AudioDeviceInfo {
            name: self.name.clone(),
            is_default: self.is_default,
            is_input: self.is_input,
            sample_rate: self.sample_rate,
            channels: self.channels,
        }
    }
}

/// Entry point for device enumeration; carries no state of its own.
pub struct DeviceManager;

impl DeviceManager {
    pub fn new() -> (r: Self)
        ensures
            r == DeviceManager,
    {
        DeviceManager
    }
}

impl Default for DeviceManager {
    fn default() -> (r: Self)
        ensures
            r == DeviceManager,
    {
        Self::new()
    }
}

/// Builds the description of one enumerated device: it is the default
/// device exactly when its name equals the platform's default device name.
pub fn describe_device(
    name: String,
    default_name: &Option<String>,
    is_input: bool,
    sample_rate: Option<u32>,
    channels: Option<u16>,
) -> (r: AudioDeviceInfo)
    ensures
        r.name == name,
        r.is_default == (default_name matches Some(d) && d@ == name@),
        r.is_input == is_input,
        r.sample_rate == sample_rate,
        r.channels == channels,
{
    let is_default = match default_name {
        Some(d) => *d == name,
        None => false,
    };
    AudioDeviceInfo { name, is_default, is_input, sample_rate, channels }
}

/// The display name of the synthetic "what you hear" capture source.
pub const SYSTEM_AUDIO_SOURCE_NAME: &'static str = "System Audio (Loopback)";

/// The synthetic entry listed alongside real inputs for system-audio
/// loopback capture: an input, never the default, with no native format.
pub fn system_audio_device() -> (r: AudioDeviceInfo)
    ensures
        r.name@ == SYSTEM_AUDIO_SOURCE_NAME@,
        !r.is_default,
        r.is_input,
        r.sample_rate is None,
        r.channels is None,
{
    AudioDeviceInfo {
        name: SYSTEM_AUDIO_SOURCE_NAME.to_string(),
        is_default: false,
        is_input: true,
        sample_rate: None,
        channels: None,
    }
}

/// A lower-cased device name that mentions external hardware, a shared
/// jack, or a virtual endpoint rather than the built-in mic or speaker.
pub open spec fn is_external_name(low: Seq<char>) -> bool {
    ||| has_substring(low, "usb"@)
    ||| has_substring(low, "bluetooth"@)
    ||| has_substring(low, "virtual"@)
    ||| has_substring(low, "cable"@)
    ||| has_substring(low, "voicemeeter"@)
    ||| has_substring(low, "yomagaudio"@)
    ||| has_substring(low, "stereo mix"@)
    ||| has_substring(low, "what u hear"@)
    ||| has_substring(low, "wave out mix"@)
    ||| has_substring(low, "spdif"@)
    ||| has_substring(low, "hdmi"@)
    ||| has_substring(low, "displayport"@)
    ||| has_substring(low, "line in"@)
    ||| has_substring(low, "headset"@)
    ||| has_substring(low, "headphone"@)
}

/// The words that mark a device as external hardware, a shared jack or a
/// virtual endpoint, compared against lower-cased names.
pub open spec fn external_hints() -> Seq<Seq<char>> {
    seq![
        "usb"@,
        "bluetooth"@,
        "virtual"@,
        "cable"@,
        "voicemeeter"@,
        "yomagaudio"@,
        "stereo mix"@,
        "what u hear"@,
        "wave out mix"@,
        "spdif"@,
        "hdmi"@,
        "displayport"@,
        "line in"@,
        "headset"@,
        "headphone"@,
    ]
}

/// A lower-cased name counts as external exactly when it contains one of
/// the external hints: a "headset", "usb", "hdmi", ... device is never
/// taken for the built-in one.
pub proof fn lemma_external_hints(low: Seq<char>)
    ensures
        is_external_name(low) <==> exists|k: int|
            0 <= k < external_hints().len() && has_substring(low, #[trigger] external_hints()[k]),
{
    let h = external_hints();
    assert(h.len() == 15);
    assert(h[0] == "usb"@ && h[1] == "bluetooth"@ && h[2] == "virtual"@ && h[3] == "cable"@);
    assert(h[4] == "voicemeeter"@ && h[5] == "yomagaudio"@ && h[6] == "stereo mix"@);
    assert(h[7] == "what u hear"@ && h[8] == "wave out mix"@ && h[9] == "spdif"@ && h[10] == "hdmi"@);
    assert(h[11] == "displayport"@ && h[12] == "line in"@ && h[13] == "headset"@ && h[14] == "headphone"@);
    if is_external_name(low) {
        if has_substring(low, "usb"@) {
            assert(has_substring(low, h[0]));
        } else if has_substring(low, "bluetooth"@) {
            assert(has_substring(low, h[1]));
        } else if has_substring(low, "virtual"@) {
            assert(has_substring(low, h[2]));
        } else if has_substring(low, "cable"@) {
            assert(has_substring(low, h[3]));
        } else if has_substring(low, "voicemeeter"@) {
            assert(has_substring(low, h[4]));
        } else if has_substring(low, "yomagaudio"@) {
            assert(has_substring(low, h[5]));
        } else if has_substring(low, "stereo mix"@) {
            assert(has_substring(low, h[6]));
        } else if has_substring(low, "what u hear"@) {
            assert(has_substring(low, h[7]));
        } else if has_substring(low, "wave out mix"@) {
            assert(has_substring(low, h[8]));
        } else if has_substring(low, "spdif"@) {
            assert(has_substring(low, h[9]));
        } else if has_substring(low, "hdmi"@) {
            assert(has_substring(low, h[10]));
        } else if has_substring(low, "displayport"@) {
            assert(has_substring(low, h[11]));
        } else if has_substring(low, "line in"@) {
            assert(has_substring(low, h[12]));
        } else if has_substring(low, "headset"@) {
            assert(has_substring(low, h[13]));
        } else {
            assert(has_substring(low, h[14]));
        }
    }
}

/// What the search for a device of `tier` from position `i` finds is such
/// a device at or after `i`.
proof fn lemma_first_in_tier_found(
    devs: Seq<AudioDeviceInfo>,
    lows: Seq<Seq<char>>,
    want_input: bool,
    tier: int,
    i: int,
)
    requires
        0 <= i,
    ensures
        first_in_tier(devs, lows, want_input, tier, i) matches Some(k) ==> i <= k < devs.len() && tier_match(
            devs[k],
            lows[k],
            want_input,
            tier,
        ),
    decreases devs.len() - i,
{
    if i < devs.len() && !tier_match(devs[i], lows[i], want_input, tier) {
        lemma_first_in_tier_found(devs, lows, want_input, tier, i + 1);
    }
}

/// The built-in device guessed from a device list is one of its devices,
/// of the wanted direction, whose lower-cased name contains none of the
/// external hints: a headset, a USB or Bluetooth device, a virtual cable,
/// an HDMI output and the like are never guessed.
pub proof fn lemma_guess_is_never_external(devs: Seq<AudioDeviceInfo>, want_input: bool)
    ensures
        internal_guess(devs, lowered_names(devs), want_input) matches Some(d) ==> {
            &&& d.is_input == want_input
            &&& exists|i: int|
                0 <= i < devs.len() && devs[i] == d && forall|k: int|
                    0 <= k < external_hints().len() ==> !has_substring(
                        lowercase(devs[i].name@),
                        #[trigger] external_hints()[k],
                    )
        },
{
    let lows = lowered_names(devs);
    lemma_first_in_tier_found(devs, lows, want_input, 0, 0);
    lemma_first_in_tier_found(devs, lows, want_input, 1, 0);
    lemma_first_in_tier_found(devs, lows, want_input, 2, 0);
    match internal_pick(devs, lows, want_input) {
        Some(i) => {
            assert(lows[i] == lowercase(devs[i].name@));
            lemma_external_hints(lows[i]);
            assert(!is_external_name(lows[i]));
        },
        None => {},
    }
}

/// The external-hardware test on a name that is already lower-cased.
pub fn lowered_looks_external(low: &str) -> (b: bool)
    ensures
        b == is_external_name(low@),
        b <==> exists|k: int| 0 <= k < external_hints().len() && has_substring(low@, #[trigger] external_hints()[k]),
{
    proof {
        lemma_external_hints(low@);
    }
    str_contains(low, "usb") || str_contains(low, "bluetooth") || str_contains(low, "virtual")
        || str_contains(low, "cable") || str_contains(low, "voicemeeter") || str_contains(
        low,
        "yomagaudio",
    ) || str_contains(low, "stereo mix") || str_contains(low, "what u hear") || str_contains(
        low,
        "wave out mix",
    ) || str_contains(low, "spdif") || str_contains(low, "hdmi") || str_contains(
        low,
        "displayport",
    ) || str_contains(low, "line in") || str_contains(low, "headset") || str_contains(
        low,
        "headphone",
    )
}

/// Whether a device name (compared case-insensitively) looks like
/// external hardware or a virtual endpoint.
pub fn looks_external(name: &str) -> (b: bool)
    ensures
        b == is_external_name(lowercase(name@)),
        b <==> exists|k: int|
            0 <= k < external_hints().len() && has_substring(lowercase(name@), #[trigger] external_hints()[k]),
{
    proof {
        lemma_external_hints(lowercase(name@));
    }
    let low = to_lowercase(name);
    lowered_looks_external(low.as_str())
}

/// A name preferred for the built-in device: "speaker" for outputs;
/// "microphone", "mic array" or "internal" for inputs.
pub open spec fn has_preferred_name(low: Seq<char>, want_input: bool) -> bool {
    if want_input {
        has_substring(low, "microphone"@) || has_substring(low, "mic array"@) || has_substring(
            low,
            "internal"@,
        )
    } else {
        has_substring(low, "speaker"@)
    }
}

/// A device of the wanted direction whose name is not external.
pub open spec fn is_candidate(d: AudioDeviceInfo, low: Seq<char>, want_input: bool) -> bool {
    d.is_input == want_input && !is_external_name(low)
}

/// Tier 0: a candidate with a preferred name; tier 1: a candidate that is
/// the default device; tier 2: any candidate.
pub open spec fn tier_match(d: AudioDeviceInfo, low: Seq<char>, want_input: bool, tier: int) -> bool {
    &&& is_candidate(d, low, want_input)
    &&& (tier == 0 ==> has_preferred_name(low, want_input))
    &&& (tier == 1 ==> d.is_default)
}

/// Index of the first device at or after `i` that matches `tier`.
pub open spec fn first_in_tier(
    devs: Seq<AudioDeviceInfo>,
    lows: Seq<Seq<char>>,
    want_input: bool,
    tier: int,
    i: int,
) -> Option<int>
    decreases devs.len() - i,
{
    if i < 0 || i >= devs.len() {
        None
    } else if tier_match(devs[i], lows[i], want_input, tier) {
        Some(i)
    } else {
        first_in_tier(devs, lows, want_input, tier, i + 1)
    }
}

/// Index of the guessed built-in device: the first preferred-name
/// candidate, else the first default candidate, else the first candidate.
pub open spec fn internal_pick(
    devs: Seq<AudioDeviceInfo>,
    lows: Seq<Seq<char>>,
    want_input: bool,
) -> Option<int> {
    match first_in_tier(devs, lows, want_input, 0, 0) {
        Some(i) => Some(i),
        None => match first_in_tier(devs, lows, want_input, 1, 0) {
            Some(i) => Some(i),
            None => first_in_tier(devs, lows, want_input, 2, 0),
        },
    }
}

/// The device chosen by `internal_pick`, if any.
pub open spec fn internal_guess(
    devs: Seq<AudioDeviceInfo>,
    lows: Seq<Seq<char>>,
    want_input: bool,
) -> Option<AudioDeviceInfo> {
    match internal_pick(devs, lows, want_input) {
        Some(i) => Some(devs[i]),
        None => None,
    }
}

/// The lower-cased names of `devs`, in order.
pub open spec fn lowered_names(devs: Seq<AudioDeviceInfo>) -> Seq<Seq<char>> {
    Seq::new(devs.len(), |i: int| lowercase(devs[i].name@))
}

fn first_in_tier_exec(
    devices: &[AudioDeviceInfo],
    lowered: &[String],
    want_input: bool,
    tier: u8,
) -> (r: Option<usize>)
    requires
        devices@.len() == lowered@.len(),
        tier <= 2,
    ensures
        r matches Some(i) ==> i < devices@.len(),
        (match r {
            Some(i) => Some(i as int),
            None => None,
        }) == first_in_tier(devices@, string_views(lowered@), want_input, tier as int, 0),
{
    let ghost lows = string_views(lowered@);
    let mut i: usize = 0;
    while i < devices.len()
        invariant
            devices@.len() == lowered@.len(),
            lows == string_views(lowered@),
            i <= devices@.len(),
            first_in_tier(devices@, lows, want_input, tier as int, 0) == first_in_tier(
                devices@,
                lows,
                want_input,
                tier as int,
                i as int,
            ),
        decreases devices@.len() - i,
    {
        let d = &devices[i];
        let low = lowered[i].as_str();
        assert(lows[i as int] == low@);
        let candidate = d.is_input == want_input && !lowered_looks_external(low);
        let preferred = if tier == 0 {
            if want_input {
                str_contains(low, "microphone") || str_contains(low, "mic array") || str_contains(
                    low,
                    "internal",
                )
            } else {
                str_contains(low, "speaker")
            }
        } else {
            true
        };
        let default_ok = tier != 1 || d.is_default;
        if candidate && preferred && default_ok {
            return Some(i);
        }
        i = i + 1;
    }
    None
}

/// Picks the built-in device of one direction from `devices`, given each
/// device's lower-cased name in `lowered` (same order, same length).
pub fn choose_internal(devices: &[AudioDeviceInfo], lowered: &[String], want_input: bool) -> (r:
    Option<AudioDeviceInfo>)
    requires
        devices@.len() == lowered@.len(),
    ensures
        r == internal_guess(devices@, string_views(lowered@), want_input),
{
    let pick = match first_in_tier_exec(devices, lowered, want_input, 0) {
        Some(i) => Some(i),
        None => match first_in_tier_exec(devices, lowered, want_input, 1) {
            Some(i) => Some(i),
            None => first_in_tier_exec(devices, lowered, want_input, 2),
        },
    };
    match pick {
        Some(i) => Some(devices[i].clone()),
        None => None,
    }
}

fn lowered_names_exec(devices: &[AudioDeviceInfo]) -> (r: Vec<String>)
    ensures
        string_views(r@) == lowered_names(devices@),
        r@.len() == devices@.len(),
{
    let mut r: Vec<String> = Vec::new();
    let mut i: usize = 0;
    while i < devices.len()
        invariant
            i <= devices@.len(),
            r@.len() == i,
            forall|j: int| 0 <= j < i ==> r@[j]@ == lowercase(devices@[j].name@),
        decreases devices@.len() - i,
    {
        r.push(to_lowercase(devices[i].name.as_str()));
        i = i + 1;
    }
    assert(string_views(r@) =~= lowered_names(devices@));
    r
}

/// Best guess at the machine's built-in speaker among output devices.
pub fn guess_internal_output(devices: &[AudioDeviceInfo]) -> (r: Option<AudioDeviceInfo>)
    ensures
        r == internal_guess(devices@, lowered_names(devices@), false),
{
    let lowered = lowered_names_exec(devices);
    choose_internal(devices, lowered.as_slice(), false)
}

/// Best guess at the machine's built-in microphone among input devices.
pub fn guess_internal_input(devices: &[AudioDeviceInfo]) -> (r: Option<AudioDeviceInfo>)
    ensures
        r == internal_guess(devices@, lowered_names(devices@), true),
{
    let lowered = lowered_names_exec(devices);
    choose_internal(devices, lowered.as_slice(), true)
}

/// The pair of guesses offered for first-run setup.
pub struct InternalDeviceGuess {
    pub microphone: Option<AudioDeviceInfo>,
    pub speaker: Option<AudioDeviceInfo>,
}

/// Guesses the built-in microphone among `inputs` and the built-in
/// speaker among `outputs`.
pub fn guess_internal_devices(inputs: &[AudioDeviceInfo], outputs: &[AudioDeviceInfo]) -> (r:
    InternalDeviceGuess)
    ensures
        r.microphone == internal_guess(inputs@, lowered_names(inputs@), true),
        r.speaker == internal_guess(outputs@, lowered_names(outputs@), false),
{
    InternalDeviceGuess {
        microphone: guess_internal_input(inputs),
        speaker: guess_internal_output(outputs),
    }
}

/// The rate every source is resampled to and the mixer runs at.
pub const INTERNAL_SAMPLE_RATE: u32 = 48_000;

/// The mixer's nominal tick period in milliseconds.
pub const MIX_TICK_PERIOD_MS: u32 = 5;

/// Fixed facts about the mixing engine reported to the UI.
pub struct EngineInfo {
    pub internal_sample_rate: u32,
    pub mix_tick_period_ms: u32,
}

pub fn engine_info() -> (r: EngineInfo)
    ensures
        r.internal_sample_rate == 48_000,
        r.mix_tick_period_ms == 5,
{
    EngineInfo { internal_sample_rate: INTERNAL_SAMPLE_RATE, mix_tick_period_ms: MIX_TICK_PERIOD_MS }
}

} // verus!
