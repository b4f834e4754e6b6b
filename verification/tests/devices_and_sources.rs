use yomag_audio::devices::{
    describe_device, engine_info, guess_internal_devices, guess_internal_input, guess_internal_output,
    looks_external, system_audio_device, AudioDeviceInfo, DeviceManager, INTERNAL_SAMPLE_RATE,
    SYSTEM_AUDIO_SOURCE_NAME,
};
use yomag_audio::sources::{classify_source, network_source_id, parse_app_source_id, path_file_name_of, SourceKind};

fn dev(name: &str, is_input: bool, is_default: bool) -> AudioDeviceInfo {
    AudioDeviceInfo {
        name: name.to_string(),
        is_default,
        is_input,
        sample_rate: Some(48_000),
        channels: Some(2),
    }
}

#[test]
fn app_source_ids_parse_like_u32_from_str() {
    assert_eq!(parse_app_source_id("app:0:x"), Some(0));
    assert_eq!(parse_app_source_id("app:+7:x"), Some(7));
    assert_eq!(parse_app_source_id("app:4294967295:x"), Some(4294967295));
    assert_eq!(parse_app_source_id("app:4294967296:x"), None);
    assert_eq!(parse_app_source_id("app::x"), None);
    assert_eq!(parse_app_source_id("app:12"), None);
    assert_eq!(parse_app_source_id("app:1a:x"), None);
    assert_eq!(parse_app_source_id("App:12:x"), None);
    assert_eq!(parse_app_source_id("app:12:name:with:colons"), Some(12));
}

#[test]
fn sources_are_classified_in_order() {
    assert!(matches!(classify_source(SYSTEM_AUDIO_SOURCE_NAME), SourceKind::SystemLoopback));
    assert!(matches!(classify_source("app:99:game.exe"), SourceKind::Application(99)));
    assert!(matches!(classify_source("Microphone (Realtek)"), SourceKind::InputDevice));
}

#[test]
fn network_source_ids_join_peer_and_device() {
    assert_eq!(network_source_id("peer1", "device-3"), "net:peer1:device-3");
    assert_eq!(network_source_id("", ""), "net::");
}

#[test]
fn process_paths_reduce_to_their_file_name() {
    assert_eq!(path_file_name_of("C:\\Program Files\\App\\app.exe"), "app.exe");
    assert_eq!(path_file_name_of("/usr/bin/tool"), "tool");
    assert_eq!(path_file_name_of("plain.exe"), "plain.exe");
    assert_eq!(path_file_name_of("dir/"), "");
}

#[test]
fn external_hints_are_matched_case_insensitively() {
    assert!(looks_external("USB Audio Device"));
    assert!(looks_external("Headphones (Bluetooth)"));
    assert!(looks_external("CABLE Input (VB-Audio Virtual Cable)"));
    assert!(looks_external("Realtek HDMI Output"));
    assert!(!looks_external("Speakers (Realtek(R) Audio)"));
    assert!(!looks_external("Microphone Array (Intel)"));
}

#[test]
fn internal_output_prefers_speaker_then_default_then_first() {
    let devices = vec![
        dev("USB Speakers", false, true),
        dev("Realtek Digital Output", false, false),
        dev("Speakers (Realtek)", false, false),
    ];
    assert_eq!(guess_internal_output(&devices).unwrap().name, "Speakers (Realtek)");

    let devices = vec![dev("Line A", false, false), dev("Line B", false, true)];
    assert_eq!(guess_internal_output(&devices).unwrap().name, "Line B");

    let devices = vec![dev("Line A", false, false), dev("Line B", false, false)];
    assert_eq!(guess_internal_output(&devices).unwrap().name, "Line A");

    let devices = vec![dev("HDMI", false, true), dev("Microphone", true, false)];
    assert!(guess_internal_output(&devices).is_none());
    assert!(guess_internal_output(&[]).is_none());
}

#[test]
fn internal_input_prefers_microphone_names() {
    let devices = vec![
        dev("Line In (Realtek)", true, true),
        dev("Stereo Mix", true, false),
        dev("Internal Mic Array", true, false),
        dev("Front Jack", true, true),
    ];
    assert_eq!(guess_internal_input(&devices).unwrap().name, "Internal Mic Array");

    let devices = vec![dev("Jack A", true, false), dev("Jack B", true, true)];
    assert_eq!(guess_internal_input(&devices).unwrap().name, "Jack B");

    let devices = vec![dev("Speakers", false, true)];
    assert!(guess_internal_input(&devices).is_none());
}

#[test]
fn internal_guess_covers_both_directions() {
    let inputs = vec![dev("Microphone (Realtek)", true, true)];
    let outputs = vec![dev("Speakers (Realtek)", false, true)];
    let guess = guess_internal_devices(&inputs, &outputs);
    assert_eq!(guess.microphone.unwrap().name, "Microphone (Realtek)");
    assert_eq!(guess.speaker.unwrap().name, "Speakers (Realtek)");
}

#[test]
fn device_descriptions_mark_the_default_by_name() {
    let d = describe_device("A".to_string(), &Some("A".to_string()), false, Some(44_100), Some(2));
    assert!(d.is_default);
    assert_eq!(d.sample_rate, Some(44_100));
    let d = describe_device("B".to_string(), &Some("A".to_string()), true, None, None);
    assert!(!d.is_default);
    assert!(d.is_input);
    let d = describe_device("B".to_string(), &None, true, None, None);
    assert!(!d.is_default);
}

#[test]
fn system_audio_is_a_non_default_input() {
    let d = system_audio_device();
    assert_eq!(d.name, "System Audio (Loopback)");
    assert!(d.is_input);
    assert!(!d.is_default);
    assert_eq!(d.sample_rate, None);
    let _ = DeviceManager::new();
}

#[test]
fn engine_info_reports_the_fixed_rate() {
    let info = engine_info();
    assert_eq!(info.internal_sample_rate, 48_000);
    assert_eq!(info.internal_sample_rate, INTERNAL_SAMPLE_RATE);
    assert_eq!(info.mix_tick_period_ms, 5);
}
