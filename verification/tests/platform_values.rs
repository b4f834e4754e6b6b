use yomag_audio::platform::{best_output_config, first_accepted, OutputConfigRange};
use yomag_audio::platform::{
    check_mix_format, double_null_terminated, endpoint_completion, endpoint_instance_id, float_format,
    format_candidates, WAVE_FORMAT_EXTENSIBLE, WAVE_FORMAT_IEEE_FLOAT,
};

#[test]
fn exclusive_formats_are_probed_widest_first() {
    let c = format_candidates(2);
    assert_eq!(
        c,
        vec![
            (2, 48_000),
            (2, 44_100),
            (2, 96_000),
            (2, 32_000),
            (1, 48_000),
            (1, 44_100),
            (1, 96_000),
            (1, 32_000)
        ]
    );
    assert_eq!(format_candidates(0), format_candidates(1));
    assert_eq!(format_candidates(32).len(), 128);
    assert_eq!(format_candidates(32)[4], (31, 48_000));
}

#[test]
fn float_formats_fill_their_fields() {
    let f = float_format(8, 48_000);
    assert_eq!(f.channels, 8);
    assert_eq!(f.block_align, 32);
    assert_eq!(f.avg_bytes_per_sec, 48_000 * 32);
    assert_eq!(f.bits_per_sample, 32);
    assert_eq!(f.extra_bytes, 22);
    let f = float_format(20_000, 1);
    assert_eq!(f.block_align, u16::MAX);
    let f = float_format(65_537, 48_000);
    assert_eq!(f.channels, 1);
    assert_eq!(f.block_align, 4);
}

#[test]
fn only_float_mix_formats_are_accepted() {
    assert_eq!(check_mix_format(WAVE_FORMAT_IEEE_FLOAT, false, 2, 48_000), Ok((2, 48_000)));
    assert_eq!(check_mix_format(WAVE_FORMAT_EXTENSIBLE, true, 6, 44_100), Ok((6, 44_100)));
    assert_eq!(
        check_mix_format(WAVE_FORMAT_EXTENSIBLE, false, 2, 48_000).unwrap_err(),
        "System audio loopback requires a float32 mix format, which this output device's shared-mode config doesn't use"
    );
    assert!(check_mix_format(1, true, 2, 48_000).is_err());
    assert_eq!(
        check_mix_format(WAVE_FORMAT_IEEE_FLOAT, false, 0, 48_000).unwrap_err(),
        "Loopback mix format reported zero channels"
    );
}

#[test]
fn endpoint_ids_and_hardware_ids() {
    assert_eq!(endpoint_instance_id("ep4"), "YomagAudioCable_ep4");
    let v = double_null_terminated("Root\\YomagAudioCable");
    let mut expected: Vec<u16> = "Root\\YomagAudioCable".encode_utf16().collect();
    expected.push(0);
    expected.push(0);
    assert_eq!(v, expected);
    let wide = double_null_terminated("a\u{1F600}é");
    let mut expected: Vec<u16> = "a\u{1F600}é".encode_utf16().collect();
    expected.extend_from_slice(&[0, 0]);
    assert_eq!(wide, expected);
    assert_eq!(double_null_terminated(""), vec![0, 0]);
}

#[test]
fn endpoint_creation_outcomes() {
    assert_eq!(
        endpoint_completion(false, "E_ACCESSDENIED", None, "YomagAudioCable_ep1".to_string()).unwrap_err(),
        "Windows rejected the device creation request: E_ACCESSDENIED"
    );
    assert_eq!(
        endpoint_completion(true, "", Some("SWD\\YomagAudio\\x".to_string()), "req".to_string()),
        Ok("SWD\\YomagAudio\\x".to_string())
    );
    assert_eq!(endpoint_completion(true, "", None, "req".to_string()), Ok("req".to_string()));
}

fn range(is_f32: bool, channels: u16, min: u32, max: u32) -> OutputConfigRange {
    OutputConfigRange { is_f32, channels, min_sample_rate: min, max_sample_rate: max }
}

#[test]
fn output_config_prefers_the_widest_float_range() {
    let ranges = vec![
        range(true, 2, 44_100, 48_000),
        range(false, 8, 44_100, 192_000),
        range(true, 8, 96_000, 192_000),
        range(true, 8, 44_100, 96_000),
        range(true, 6, 48_000, 48_000),
    ];
    assert_eq!(best_output_config(&ranges, 48_000), Some((3, 48_000)));
    assert_eq!(best_output_config(&ranges[..3], 48_000), Some((2, 192_000)));
    assert_eq!(best_output_config(&[range(false, 2, 8_000, 48_000)], 48_000), None);
    assert_eq!(best_output_config(&[], 48_000), None);
}

#[test]
fn the_first_accepted_format_is_used() {
    assert_eq!(first_accepted(&[false, false, true, true]), Some(2));
    assert_eq!(first_accepted(&[true]), Some(0));
    assert_eq!(first_accepted(&[false, false]), None);
    assert_eq!(first_accepted(&[]), None);
}
