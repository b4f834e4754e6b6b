use yomag_audio::edit::{
    clip_span, compute_timeline_frames, default_track_layouts, locate_track, mixdown_plan, source_frames, Clip,
    PendingTrack, RecordingLedger, TrackLayout,
};
use yomag_audio::recording::{RecordingManifest, TrackManifest};

fn clip(id: &str, source_start: u64, length: u64, timeline_start: u64) -> Clip {
    Clip {
        id: id.to_string(),
        source_start_frame: source_start,
        length_frames: length,
        timeline_start_frame: timeline_start,
    }
}

fn layout(source: &str, muted: bool, solo: bool, clips: Vec<Clip>) -> TrackLayout {
    TrackLayout { source_id: source.to_string(), muted, solo, clips }
}

fn file(source: &str, frames: u64) -> TrackManifest {
    TrackManifest {
        source_id: source.to_string(),
        file: format!("track_{source}.wav"),
        channels: 2,
        sample_rate: 48_000,
        duration_frames: frames,
    }
}

#[test]
fn timeline_is_the_latest_clip_end() {
    let tracks = vec![
        layout("a", false, false, vec![clip("c1", 0, 100, 0), clip("c2", 0, 50, 200)]),
        layout("b", true, false, vec![clip("c3", 10, 150, 150)]),
    ];
    assert_eq!(compute_timeline_frames(&tracks), Ok(300));
    let empty = vec![layout("a", false, false, vec![])];
    assert_eq!(compute_timeline_frames(&empty).unwrap_err(), "Project has no clips to render");
    assert_eq!(compute_timeline_frames(&[]).unwrap_err(), "Project has no clips to render");
}

#[test]
fn clip_spans_are_clamped_to_source_and_timeline() {
    let s = clip_span(&clip("c", 100, 500, 50), 400, 1000).unwrap();
    assert_eq!((s.source_start, s.dest_start, s.frames), (100, 50, 300));
    let s = clip_span(&clip("c", 0, 500, 900), 1000, 1000).unwrap();
    assert_eq!(s.frames, 100);
    let s = clip_span(&clip("c", 0, 500, 1200), 1000, 1000).unwrap();
    assert_eq!(s.frames, 0);
    assert!(clip_span(&clip("c", 400, 10, 0), 400, 1000).is_none());
}

#[test]
fn source_frames_count_whole_frames() {
    assert_eq!(source_frames(10, 2), (2, 5));
    assert_eq!(source_frames(11, 2), (2, 5));
    assert_eq!(source_frames(7, 0), (1, 7));
}

#[test]
fn mixdown_respects_mute_solo_and_missing_files() {
    let files = vec![file("a", 10), file("b", 10), file("c", 10)];
    let tracks = vec![
        layout("a", false, false, vec![]),
        layout("b", true, false, vec![]),
        layout("c", false, false, vec![]),
        layout("x", false, false, vec![]),
    ];
    assert_eq!(mixdown_plan(&tracks, &files), vec![(0, 0), (2, 2)]);
    let soloed = vec![
        layout("a", false, false, vec![]),
        layout("b", false, true, vec![]),
        layout("c", true, true, vec![]),
    ];
    assert_eq!(mixdown_plan(&soloed, &files), vec![(1, 1)]);
}

#[test]
fn single_track_exports_find_their_track_or_fail() {
    let files = vec![file("a", 10), file("b", 10)];
    let tracks = vec![layout("b", true, false, vec![]), layout("z", false, false, vec![])];
    assert_eq!(locate_track(&tracks, &files, "b"), Ok((0, 1)));
    assert_eq!(locate_track(&tracks, &files, "q").unwrap_err(), "Unknown track: q");
    assert_eq!(locate_track(&tracks, &files, "z").unwrap_err(), "No recorded audio for track: z");
}

#[test]
fn default_layouts_cover_each_file() {
    let manifest = RecordingManifest {
        session_id: "rec_1".to_string(),
        device_id: "device-1".to_string(),
        device_name: "Desk".to_string(),
        name: "Take".to_string(),
        created_at_ms: 1,
        tracks: vec![file("a", 480), file("b", 96)],
    };
    let layouts = default_track_layouts(&manifest);
    assert_eq!(layouts.len(), 2);
    assert_eq!(layouts[1].source_id, "b");
    assert!(!layouts[0].muted && !layouts[0].solo);
    assert_eq!(layouts[0].clips.len(), 1);
    assert_eq!(layouts[0].clips[0].length_frames, 480);
    assert_eq!(layouts[0].clips[0].source_start_frame, 0);
    assert_eq!(layouts[0].clips[0].timeline_start_frame, 0);
    assert_eq!(compute_timeline_frames(&layouts), Ok(480));
}

fn pending(source: &str) -> PendingTrack {
    PendingTrack { source_id: source.to_string(), file: format!("track_{source}.wav"), channels: 2 }
}

#[test]
fn the_ledger_closes_tracks_as_sources_go() {
    let mut ledger = RecordingLedger::new(
        "rec_7".to_string(),
        "Take".to_string(),
        "device-1".to_string(),
        "Desk".to_string(),
        7,
        vec![pending("a"), pending("b"), pending("c")],
    );
    assert_eq!(ledger.source_ids(), vec!["a", "b", "c"]);
    assert!(ledger.finalize_track("b", 100));
    assert!(!ledger.finalize_track("b", 5));
    assert!(!ledger.finalize_track("zzz", 5));
    assert_eq!(ledger.source_ids(), vec!["a", "c"]);
    let manifest = ledger.finish(&[300, 200]);
    assert_eq!(manifest.session_id, "rec_7");
    let order: Vec<(String, u64)> =
        manifest.tracks.iter().map(|t| (t.source_id.clone(), t.duration_frames)).collect();
    assert_eq!(
        order,
        vec![("b".to_string(), 100), ("a".to_string(), 300), ("c".to_string(), 200)]
    );
    assert_eq!(manifest.tracks[0].file, "track_b.wav");
    assert_eq!(manifest.tracks[0].sample_rate, 48_000);
}
