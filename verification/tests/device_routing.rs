use yomag_audio::routing::{CapturePlan, Connection, EnableStep, EqBandBits, PublishAction, VirtualDevice, UNITY_GAIN_BITS};

fn conn(source: &str, sc: usize, oc: usize, gain: f32) -> Connection {
    Connection { source_id: source.to_string(), source_channel: sc, output_channel: oc, gain_bits: gain.to_bits() }
}

fn device() -> VirtualDevice {
    VirtualDevice::new("device-1".to_string(), "Desk".to_string())
}

#[test]
fn a_new_device_is_stopped_and_stereo() {
    let d = device();
    assert_eq!(d.id, "device-1");
    assert_eq!(d.name, "Desk");
    assert!(!d.enabled);
    assert_eq!(d.output_channels, 2);
    assert!(d.sources.is_empty() && d.connections.is_empty() && d.monitors.is_empty());
    assert!(!d.is_published && d.take.is_none());
}

#[test]
fn sources_are_added_once_and_removed_with_their_connections() {
    let mut d = device();
    let names: Vec<String> = vec!["Line In".to_string(), "mic".to_string(), "mic".to_string()];
    assert_eq!(d.source_plan("mic", &names), Ok(Some(CapturePlan::InputDevice(1))));
    assert_eq!(d.source_plan("usb", &names).unwrap_err(), "Input device not found: usb");
    assert_eq!(d.source_plan("app:7:x.exe", &[]), Ok(Some(CapturePlan::Application(7))));
    assert_eq!(d.source_plan("System Audio (Loopback)", &[]), Ok(Some(CapturePlan::SystemLoopback)));
    d.add_source("mic".to_string(), 1);
    d.add_source("mic".to_string(), 8);
    assert_eq!(d.source_plan("mic", &[]), Ok(None));
    assert_eq!(d.sources.len(), 1);
    assert_eq!(d.sources[0].channels, 1);
    assert_eq!(d.sources[0].gain_bits, UNITY_GAIN_BITS);
    assert_eq!(f32::from_bits(UNITY_GAIN_BITS), 1.0);
    d.add_source("app:5:x".to_string(), 2);
    d.set_connection(conn("mic", 0, 0, 1.0));
    d.set_connection(conn("app:5:x", 1, 1, 0.5));
    d.set_connection(conn("mic", 0, 1, 0.25));
    d.remove_source("mic", 0);
    assert_eq!(d.sources.len(), 1);
    assert_eq!(d.connections.len(), 1);
    assert_eq!(d.connections[0].source_id, "app:5:x");
}

#[test]
fn gain_and_mute_need_a_known_source() {
    let mut d = device();
    d.add_source("mic".to_string(), 1);
    assert!(d.set_source_gain("mic", 2.0f32.to_bits()).is_ok());
    assert_eq!(f32::from_bits(d.sources[0].gain_bits), 2.0);
    assert!(d.set_source_muted("mic", true).is_ok());
    assert!(d.sources[0].muted);
    assert_eq!(d.set_source_gain("nope", 0).unwrap_err(), "Unknown source: nope");
    assert_eq!(d.set_source_muted("nope", true).unwrap_err(), "Unknown source: nope");
}

#[test]
fn setting_a_connection_twice_updates_its_gain() {
    let mut d = device();
    d.set_connection(conn("a", 0, 1, 1.0));
    d.set_connection(conn("a", 0, 1, 0.5));
    assert_eq!(d.connections.len(), 1);
    assert_eq!(f32::from_bits(d.connections[0].gain_bits), 0.5);
    d.set_connection(conn("a", 1, 1, 0.5));
    assert_eq!(d.connections.len(), 2);
}

#[test]
fn setting_then_removing_a_connection_restores_the_rest() {
    let mut d = device();
    d.set_connection(conn("a", 0, 0, 1.0));
    d.set_connection(conn("b", 0, 1, 1.0));
    d.set_connection(conn("a", 1, 0, 0.3));
    d.remove_connection("a", 1, 0);
    let keys: Vec<(String, usize, usize)> =
        d.connections.iter().map(|c| (c.source_id.clone(), c.source_channel, c.output_channel)).collect();
    assert_eq!(keys, vec![("a".to_string(), 0, 0), ("b".to_string(), 0, 1)]);
    d.remove_connection("zzz", 0, 0);
    assert_eq!(d.connections.len(), 2);
}

#[test]
fn mix_routes_skip_muted_missing_and_out_of_range() {
    let mut d = device();
    d.add_source("a".to_string(), 2);
    d.add_source("b".to_string(), 1);
    d.set_connection(conn("a", 0, 0, 1.0));
    d.set_connection(conn("a", 1, 5, 1.0));
    d.set_connection(conn("b", 1, 0, 1.0));
    d.set_connection(conn("c", 0, 0, 1.0));
    d.set_connection(conn("b", 0, 1, 1.0));
    assert_eq!(d.mix_routes(), vec![(0, 0), (4, 1)]);
    d.set_source_muted("b", true).unwrap();
    assert_eq!(d.mix_routes(), vec![(0, 0)]);
}

#[test]
fn monitors_start_unwired_and_clamp_their_settings() {
    let mut d = device();
    assert!(!d.add_monitor("Speakers".to_string(), 2));
    assert!(!d.add_monitor("Speakers".to_string(), 6));
    assert_eq!(d.monitors.len(), 1);
    assert_eq!(d.monitors[0].channel_map, vec![None, None]);
    assert_eq!(d.monitors[0].buffer_ms, 20);
    assert_eq!(d.set_monitor_buffer_ms("Speakers", 1), Ok(false));
    assert_eq!(d.monitors[0].buffer_ms, 5);
    d.set_monitor_buffer_ms("Speakers", 1000).unwrap();
    assert_eq!(d.monitors[0].buffer_ms, 250);
    d.set_monitor_delay_ms("Speakers", 9999).unwrap();
    assert_eq!(d.monitors[0].delay_ms, 500);
    d.set_monitor_exclusive("Speakers", true).unwrap();
    assert!(d.monitors[0].exclusive);
    let band = EqBandBits { freq_hz: 1000.0f32.to_bits(), gain_db: 3.0f32.to_bits(), q: 1.0f32.to_bits() };
    d.set_monitor_eq("Speakers", vec![band]).unwrap();
    assert_eq!(d.monitors[0].eq.len(), 1);
    assert_eq!(d.set_monitor_buffer_ms("Nope", 20).unwrap_err(), "Unknown monitor: Nope");
    assert_eq!(d.set_monitor_delay_ms("Nope", 20).unwrap_err(), "Unknown monitor: Nope");
    assert_eq!(d.set_monitor_exclusive("Nope", true).unwrap_err(), "Unknown monitor: Nope");
    assert_eq!(d.set_monitor_eq("Nope", vec![]).unwrap_err(), "Unknown monitor: Nope");
    d.remove_monitor("Speakers");
    assert!(d.monitors.is_empty());
}

#[test]
fn monitor_channels_are_wired_within_range() {
    let mut d = device();
    d.add_monitor("Speakers".to_string(), 2);
    assert!(d.set_monitor_channel("Speakers", 1, 0).is_ok());
    assert_eq!(d.monitors[0].channel_map, vec![None, Some(0)]);
    assert_eq!(d.set_monitor_channel("Speakers", 2, 0).unwrap_err(), "Monitor 'Speakers' has no channel 2");
    assert_eq!(d.clear_monitor_channel("Speakers", 7).unwrap_err(), "Monitor 'Speakers' has no channel 7");
    assert_eq!(d.set_monitor_channel("Nope", 0, 0).unwrap_err(), "Unknown monitor: Nope");
    d.clear_monitor_channel("Speakers", 1).unwrap();
    assert_eq!(d.monitors[0].channel_map, vec![None, None]);
    d.set_monitor_channel("Speakers", 0, 1).unwrap();
    assert!(d.resize_monitor_channels("Speakers", 4));
    assert_eq!(d.monitors[0].channel_map, vec![Some(1), None, None, None]);
    assert!(d.resize_monitor_channels("Speakers", 1));
    assert_eq!(d.monitors[0].channel_map, vec![Some(1)]);
    assert!(!d.resize_monitor_channels("Nope", 1));
}

#[test]
fn enabling_publishing_and_disabling() {
    let mut d = device();
    d.add_monitor("A".to_string(), 2);
    d.add_monitor("B".to_string(), 2);
    assert_eq!(
        d.set_published(true).unwrap_err(),
        "Enable the device before publishing it to the network"
    );
    match d.set_enabled(true) {
        EnableStep::StartMonitors(names) => assert_eq!(names, vec!["A", "B"]),
        _ => panic!("enabling a stopped device starts its monitors"),
    }
    assert!(!d.enabled);
    d.mark_monitor_live("A", true);
    d.mark_monitor_live("B", true);
    d.finish_enable();
    assert!(d.enabled);
    assert!(matches!(d.set_enabled(true), EnableStep::Unchanged));
    assert!(d.add_monitor("C".to_string(), 2));
    assert!(matches!(d.set_published(true), Ok(PublishAction::Publish)));
    assert!(matches!(d.set_published(true), Ok(PublishAction::Unchanged)));
    assert_eq!(d.set_monitor_buffer_ms("A", 40), Ok(true));
    assert!(!d.monitors[0].live);
    assert!(matches!(d.set_enabled(false), EnableStep::Stopped { unpublish: true }));
    assert!(!d.enabled && !d.is_published);
    assert!(d.monitors.iter().all(|m| !m.live));
    assert!(matches!(d.set_enabled(false), EnableStep::Unchanged));
}

#[test]
fn output_channels_clamp_and_stop_a_running_device() {
    let mut d = device();
    let r = d.set_output_channels(2);
    assert!(!r.resized);
    let r = d.set_output_channels(0);
    assert!(r.resized && !r.restart);
    assert_eq!(d.output_channels, 1);
    d.set_output_channels(100);
    assert_eq!(d.output_channels, 32);
    d.finish_enable();
    d.set_published(true).unwrap();
    let r = d.set_output_channels(8);
    assert!(r.resized && r.restart && r.unpublish);
    assert!(!d.enabled && !d.is_published);
}

#[test]
fn recordings_need_sources_and_run_once() {
    let mut d = device();
    assert_eq!(
        d.start_recording("rec_1".to_string(), None, 1).unwrap_err(),
        "Device has no sources to record"
    );
    assert!(d.take.is_none());
    d.add_source("a".to_string(), 2);
    d.add_source("mic 1".to_string(), 0);
    let tracks = d.start_recording("rec_1".to_string(), None, 1_000).unwrap();
    let files: Vec<(String, String, usize)> =
        tracks.iter().map(|t| (t.source_id.clone(), t.file.clone(), t.channels)).collect();
    assert_eq!(
        files,
        vec![
            ("a".to_string(), "track_a.wav".to_string(), 2),
            ("mic 1".to_string(), "track_mic_1.wav".to_string(), 1),
        ]
    );
    assert_eq!(
        d.start_recording("rec_2".to_string(), None, 2).unwrap_err(),
        "A recording is already in progress on this device"
    );
    assert_eq!(d.take.as_ref().unwrap().name, "Desk recording");
    assert_eq!(d.recording_sources().unwrap(), vec!["a", "mic 1"]);
    d.add_source("late".to_string(), 2);
    assert_eq!(d.recording_sources().unwrap().len(), 2);

    d.remove_source("a", 48_000);
    assert_eq!(d.recording_sources().unwrap(), vec!["mic 1"]);
    let (manifest, summary) = d.stop_recording(&[96_000]).unwrap();
    assert!(d.take.is_none());
    assert_eq!(manifest.session_id, "rec_1");
    assert_eq!(manifest.device_id, "device-1");
    let recorded: Vec<(String, u64)> =
        manifest.tracks.iter().map(|t| (t.source_id.clone(), t.duration_frames)).collect();
    assert_eq!(recorded, vec![("a".to_string(), 48_000), ("mic 1".to_string(), 96_000)]);
    assert_eq!(summary.session_id, "rec_1");
    assert_eq!(summary.name, "Desk recording");
    assert_eq!(summary.track_count, 2);
    assert_eq!(summary.duration_ms, 2_000);
    assert_eq!(summary.created_at_ms, 1_000);
    assert_eq!(d.stop_recording(&[]).unwrap_err(), "No recording in progress on this device");
}

#[test]
fn a_failed_take_start_can_be_cancelled() {
    let mut d = device();
    d.add_source("a".to_string(), 2);
    d.start_recording("rec_1".to_string(), Some("Take".to_string()), 5).unwrap();
    assert_eq!(d.take.as_ref().unwrap().name, "Take");
    d.cancel_recording();
    assert!(d.take.is_none());
    assert!(d.start_recording("rec_2".to_string(), None, 6).is_ok());
}

#[test]
fn network_sources_are_planned_by_id() {
    let mut d = device();
    let (id, present) = d.network_source_plan("peer", "device-9");
    assert_eq!(id, "net:peer:device-9");
    assert!(!present);
    d.add_source(id, 2);
    let (_, present) = d.network_source_plan("peer", "device-9");
    assert!(present);
}

#[test]
fn shutdown_clears_sources_and_connections() {
    let mut d = device();
    d.add_source("a".to_string(), 2);
    d.set_connection(conn("a", 0, 0, 1.0));
    d.finish_enable();
    d.set_published(true).unwrap();
    assert!(d.shutdown());
    assert!(d.sources.is_empty() && d.connections.is_empty());
    assert!(!d.enabled);
}
