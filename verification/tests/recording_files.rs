use yomag_audio::recording::{
    default_recording_name, new_session_id, resolve_file_path, sanitize_component, sanitize_filename,
    sort_newest_first, track_file_name, unique_output_name, output_candidate_name, output_stem, validate_session_id, RecordingManifest,
    RecordingSummary, TrackManifest,
};

fn track(id: &str, frames: u64) -> TrackManifest {
    TrackManifest {
        source_id: id.to_string(),
        file: format!("track_{id}.wav"),
        channels: 2,
        sample_rate: 48_000,
        duration_frames: frames,
    }
}

fn summary(id: &str, created: u64) -> RecordingSummary {
    RecordingSummary {
        session_id: id.to_string(),
        name: id.to_string(),
        device_name: "Dev".to_string(),
        created_at_ms: created,
        duration_ms: 0,
        track_count: 0,
    }
}

#[test]
fn session_ids_and_names() {
    assert_eq!(new_session_id(1700000000123), "rec_1700000000123");
    assert_eq!(new_session_id(0), "rec_0");
    assert_eq!(default_recording_name("Desk Mix"), "Desk Mix recording");
}

#[test]
fn session_ids_that_could_escape_are_rejected() {
    assert!(validate_session_id("rec_123").is_ok());
    assert_eq!(validate_session_id("").unwrap_err(), "Invalid recording session id");
    assert_eq!(validate_session_id("../etc").unwrap_err(), "Invalid recording session id");
    assert_eq!(validate_session_id("a/b").unwrap_err(), "Invalid recording session id");
    assert_eq!(validate_session_id("a\\b").unwrap_err(), "Invalid recording session id");
    assert!(validate_session_id("a.b").is_ok());
    assert!(validate_session_id(".a").is_ok());
    assert_eq!(validate_session_id(".").unwrap_err(), "Invalid recording session id");
    assert_eq!(validate_session_id("C:").unwrap_err(), "Invalid recording session id");
}

#[test]
fn resolved_paths_join_base_session_and_file() {
    assert_eq!(
        resolve_file_path("/data/recordings", "rec_1", "track_a.wav").unwrap(),
        "/data/recordings/rec_1/track_a.wav"
    );
    assert_eq!(
        resolve_file_path("/data/recordings", "rec_1", "mixdown/My Mix.wav").unwrap(),
        "/data/recordings/rec_1/mixdown/My Mix.wav"
    );
    assert_eq!(resolve_file_path("/data/", "rec_1", "t.wav").unwrap(), "/data/rec_1/t.wav");
    assert_eq!(resolve_file_path("/base", "C:x", "t.wav").unwrap_err(), "Invalid recording session id");
}

#[test]
fn track_files_are_named_after_sanitized_sources() {
    assert_eq!(sanitize_component("Mic (USB) #1"), "Mic__USB___1");
    assert_eq!(track_file_name("app:12:x.exe"), "track_app_12_x_exe.wav");
    assert_eq!(track_file_name("device-1"), "track_device-1.wav");
}

#[test]
fn file_paths_are_checked_before_joining() {
    assert_eq!(
        resolve_file_path("/base", "..", "a.wav").unwrap_err(),
        "Invalid recording session id"
    );
    assert_eq!(
        resolve_file_path("/base", "rec_1", "../a.wav").unwrap_err(),
        "Invalid recording file name"
    );
    assert_eq!(
        resolve_file_path("/base", "rec_1", "/abs.wav").unwrap_err(),
        "Invalid recording file name"
    );
    assert_eq!(
        resolve_file_path("/base", "rec_1", "C:x.wav").unwrap_err(),
        "Invalid recording file name"
    );
    assert_eq!(resolve_file_path("/base", "rec_1", "").unwrap_err(), "Invalid recording file name");
    let p = resolve_file_path("/base", "rec_1", "track_a.wav").unwrap();
    assert!(p.starts_with("/base"));
    assert!(p.ends_with("track_a.wav"));
    assert!(p.contains("rec_1"));
}

#[test]
fn export_names_are_trimmed_of_unicode_white_space() {
    assert_eq!(output_stem("\u{3000}\tMix\u{2003}\n", "mixdown"), "Mix");
    assert_eq!(output_stem("\u{a0} \u{85}", "mixdown"), "mixdown");
    assert_eq!(output_stem("a b", "mixdown"), "a b");
}

#[test]
fn export_names_avoid_taken_files() {
    assert_eq!(output_stem("  My Mix  ", "mixdown"), "My Mix");
    assert_eq!(output_stem("take.wav", "mixdown"), "take");
    assert_eq!(output_stem("   ", "mixdown"), "mixdown");
    assert_eq!(output_stem("a/b:c", "mixdown"), "a_b_c");
    assert_eq!(output_candidate_name("mix", 0), "mix.wav");
    assert_eq!(output_candidate_name("mix", 2), "mix (2).wav");
    assert_eq!(output_candidate_name("mix", 2_147_483_647), "mix (2147483647).wav");
    let missing = "/nonexistent-recordings-dir/rec_1/mixdown";
    assert_eq!(unique_output_name(missing, "  My Mix  ", "mixdown"), Ok("My Mix.wav".to_string()));
    assert_eq!(unique_output_name(missing, "", "track_a"), Ok("track_a.wav".to_string()));
}

#[test]
fn filename_sanitizing_replaces_reserved_characters() {
    let s: String = sanitize_filename("a<b>c|d?e*f\"g").into_iter().collect();
    assert_eq!(s, "a_b_c_d_e_f_g");
    let s: String = sanitize_filename("ok name.wav").into_iter().collect();
    assert_eq!(s, "ok name.wav");
}

#[test]
fn summaries_take_the_longest_track() {
    let manifest = RecordingManifest {
        session_id: "rec_1".to_string(),
        device_id: "device-1".to_string(),
        device_name: "Desk".to_string(),
        name: "Take".to_string(),
        created_at_ms: 42,
        tracks: vec![track("a", 48_000), track("b", 96_000), track("c", 24)],
    };
    let s = RecordingSummary::from_manifest(&manifest);
    assert_eq!(s.duration_ms, 2000);
    assert_eq!(s.track_count, 3);
    assert_eq!(s.session_id, "rec_1");
    assert_eq!(s.device_name, "Desk");
    assert_eq!(s.created_at_ms, 42);

    let empty = RecordingManifest { tracks: vec![], ..manifest };
    assert_eq!(RecordingSummary::from_manifest(&empty).duration_ms, 0);
}

#[test]
fn recordings_list_newest_first() {
    let sorted = sort_newest_first(vec![summary("a", 5), summary("b", 9), summary("c", 1), summary("d", 9)]);
    let order: Vec<u64> = sorted.iter().map(|s| s.created_at_ms).collect();
    assert_eq!(order, vec![9, 9, 5, 1]);
    let mut ids: Vec<String> = sorted.iter().map(|s| s.session_id.clone()).collect();
    ids.sort();
    assert_eq!(ids, vec!["a", "b", "c", "d"]);
    assert!(sort_newest_first(vec![]).is_empty());
}
