use yomag_audio::profile::{DeviceProfile, MonitorProfile, Profile, SourceProfile};
use yomag_audio::router::Router;
use yomag_audio::routing::{Connection, EqBandBits};

fn conn(source: &str, sc: usize, oc: usize, gain: f32) -> Connection {
    Connection { source_id: source.to_string(), source_channel: sc, output_channel: oc, gain_bits: gain.to_bits() }
}

#[test]
fn devices_are_numbered_in_creation_order() {
    let mut r = Router::new();
    assert_eq!(r.create_device("A".to_string()), "device-1");
    assert_eq!(r.create_device("B".to_string()), "device-2");
    assert_eq!(r.device_index("device-2"), Ok(1));
    assert_eq!(r.device_index("device-9").unwrap_err(), "Unknown device: device-9");
    let removed = r.delete_device("device-1").unwrap();
    assert_eq!(removed.name, "A");
    assert!(r.delete_device("device-1").is_none());
    assert_eq!(r.create_device("C".to_string()), "device-3");
    let ids: Vec<String> = r.devices.iter().map(|d| d.id.clone()).collect();
    assert_eq!(ids, vec!["device-2", "device-3"]);
}

#[test]
fn renaming_needs_a_known_device() {
    let mut r = Router::new();
    let id = r.create_device("A".to_string());
    assert!(r.rename_device(&id, "Studio".to_string()).is_ok());
    assert_eq!(r.devices[0].name, "Studio");
    assert_eq!(r.rename_device("device-7", "X".to_string()).unwrap_err(), "Unknown device: device-7");
}

#[test]
fn with_device_mut_reaches_only_known_devices() {
    let mut r = Router::new();
    r.create_device("A".to_string());
    let id = r.create_device("B".to_string());
    let got = r.with_device_mut(&id, |d| {
        d.add_source("mic".to_string(), 1);
        Ok(d.sources.len())
    });
    assert_eq!(got, Ok(1));
    assert_eq!(r.devices[1].sources.len(), 1);
    assert!(r.devices[0].sources.is_empty());
    let missing: Result<(), String> = r.with_device_mut("device-9", |_| Ok(()));
    assert_eq!(missing.unwrap_err(), "Unknown device: device-9");
    let failed: Result<(), String> = r.with_device_mut(&id, |_| Err("refused".to_string()));
    assert_eq!(failed.unwrap_err(), "refused");
}

#[test]
fn system_endpoints_share_the_counter() {
    let mut r = Router::new();
    r.create_device("A".to_string());
    assert_eq!(r.next_endpoint_suffix(), "ep2");
    assert_eq!(r.create_device("B".to_string()), "device-3");
    r.add_endpoint("YomagAudioCable_ep2".to_string());
    r.add_endpoint("YomagAudioCable_ep2".to_string());
    r.add_endpoint("other".to_string());
    assert_eq!(r.list_endpoints(), vec!["YomagAudioCable_ep2", "other"]);
    r.remove_endpoint("YomagAudioCable_ep2");
    r.remove_endpoint("missing");
    assert_eq!(r.list_endpoints(), vec!["other"]);
}

fn sample_router() -> Router {
    let mut r = Router::new();
    let id = r.create_device("Desk".to_string());
    let i = r.device_index(&id).unwrap();
    let d = &mut r.devices[i];
    d.set_output_channels(4);
    d.add_source("mic".to_string(), 1);
    d.add_source("app:3:x".to_string(), 2);
    d.set_source_gain("mic", 1.5f32.to_bits()).unwrap();
    d.set_source_muted("app:3:x", true).unwrap();
    d.set_connection(conn("mic", 0, 0, 1.0));
    d.set_connection(conn("app:3:x", 1, 3, 0.5));
    d.add_monitor("Speakers".to_string(), 2);
    d.set_monitor_buffer_ms("Speakers", 40).unwrap();
    d.set_monitor_delay_ms("Speakers", 12).unwrap();
    d.set_monitor_channel("Speakers", 0, 3).unwrap();
    d.set_monitor_exclusive("Speakers", true).unwrap();
    d.set_monitor_eq(
        "Speakers",
        vec![EqBandBits { freq_hz: 100.0f32.to_bits(), gain_db: 2.0f32.to_bits(), q: 0.7f32.to_bits() }],
    )
    .unwrap();
    d.finish_enable();
    r.create_device("Empty".to_string());
    r
}

#[test]
fn a_snapshot_profile_lists_every_device_setting() {
    let r = sample_router();
    let p = r.snapshot_profile();
    assert_eq!(p.devices.len(), 2);
    let d = &p.devices[0];
    assert_eq!(d.name, "Desk");
    assert_eq!(d.output_channels, 4);
    assert!(d.enabled);
    assert_eq!(d.sources.len(), 2);
    assert_eq!(d.sources[0].id, "mic");
    assert_eq!(f32::from_bits(d.sources[0].gain_bits), 1.5);
    assert!(d.sources[1].muted);
    assert_eq!(d.connections.len(), 2);
    assert_eq!(d.monitors[0].buffer_ms, 40);
    assert_eq!(d.monitors[0].delay_ms, 12);
    assert_eq!(d.monitors[0].eq_bands.len(), 1);
    assert_eq!(d.monitors[0].channel_map, vec![Some(3), None]);
    assert!(d.monitors[0].exclusive);
    assert!(!p.devices[1].enabled);
    assert!(Profile::default().devices.is_empty());
}

fn same_profile(a: &Profile, b: &Profile) -> bool {
    a.devices.len() == b.devices.len()
        && a.devices.iter().zip(b.devices.iter()).all(|(x, y)| {
            x.name == y.name
                && x.output_channels == y.output_channels
                && x.enabled == y.enabled
                && x.sources.len() == y.sources.len()
                && x.sources.iter().zip(y.sources.iter()).all(|(s, t)| {
                    s.id == t.id && s.gain_bits == t.gain_bits && s.muted == t.muted
                })
                && x.connections.len() == y.connections.len()
                && x.connections.iter().zip(y.connections.iter()).all(|(c, d)| {
                    c.source_id == d.source_id
                        && c.source_channel == d.source_channel
                        && c.output_channel == d.output_channel
                        && c.gain_bits == d.gain_bits
                })
                && x.monitors.len() == y.monitors.len()
                && x.monitors.iter().zip(y.monitors.iter()).all(|(m, n)| {
                    m.name == n.name
                        && m.channel_map == n.channel_map
                        && m.exclusive == n.exclusive
                        && m.buffer_ms == n.buffer_ms
                        && m.delay_ms == n.delay_ms
                        && m.eq_bands.len() == n.eq_bands.len()
                })
        })
}

#[test]
fn saving_and_loading_a_profile_round_trips() {
    let original = sample_router();
    let saved = original.snapshot_profile();

    let mut loaded = Router::new();
    loaded.create_device("Old".to_string());
    let source_channels: Vec<Vec<usize>> = saved.devices.iter().map(|d| vec![2; d.sources.len()]).collect();
    let monitor_channels: Vec<Vec<usize>> =
        saved.devices.iter().map(|d| d.monitors.iter().map(|m| m.channel_map.len()).collect()).collect();
    let removed = loaded.apply_profile(&saved, &source_channels, &monitor_channels);
    assert_eq!(removed.len(), 1);
    assert_eq!(removed[0].name, "Old");
    let ids: Vec<String> = loaded.devices.iter().map(|d| d.id.clone()).collect();
    assert_eq!(ids, vec!["device-2", "device-3"]);
    assert!(loaded.devices.iter().all(|d| !d.enabled));
    assert_eq!(loaded.devices[0].monitors[0].channel_map, vec![Some(3), None]);
    assert!(loaded.devices[0].monitors[0].exclusive);
    for (i, dp) in saved.devices.iter().enumerate() {
        if dp.enabled {
            loaded.devices[i].finish_enable();
        }
    }
    assert!(same_profile(&loaded.snapshot_profile(), &saved));
}

#[test]
fn applying_a_profile_with_duplicates_and_out_of_range_values() {
    let profile = Profile {
        devices: vec![DeviceProfile {
            name: "X".to_string(),
            output_channels: 99,
            enabled: false,
            sources: vec![
                SourceProfile { id: "a".to_string(), gain_bits: 1, muted: false },
                SourceProfile { id: "a".to_string(), gain_bits: 2, muted: true },
            ],
            connections: vec![conn("a", 0, 0, 1.0), conn("a", 0, 0, 0.5)],
            monitors: vec![MonitorProfile {
                name: "M".to_string(),
                channel_map: vec![Some(1), None, Some(0)],
                exclusive: true,
                buffer_ms: 1,
                delay_ms: 10_000,
                eq_bands: vec![],
            }],
        }],
    };
    let mut r = Router::new();
    r.apply_profile(&profile, &vec![vec![2, 9]], &vec![vec![2]]);
    let d = &r.devices[0];
    assert_eq!(d.output_channels, 32);
    assert_eq!(d.sources.len(), 1);
    assert_eq!(d.sources[0].gain_bits, 2);
    assert!(d.sources[0].muted);
    assert_eq!(d.sources[0].channels, 2);
    assert_eq!(d.connections.len(), 1);
    assert_eq!(f32::from_bits(d.connections[0].gain_bits), 0.5);
    assert_eq!(d.monitors[0].buffer_ms, 5);
    assert_eq!(d.monitors[0].delay_ms, 500);
    assert_eq!(d.monitors[0].channel_map, vec![Some(1), None]);
    assert!(d.monitors[0].exclusive);
}

#[test]
fn a_wider_output_keeps_the_saved_wiring_and_leaves_new_channels_unwired() {
    let saved = sample_router().snapshot_profile();
    let mut loaded = Router::new();
    loaded.apply_profile(&saved, &vec![vec![1, 2], vec![]], &vec![vec![4], vec![]]);
    assert_eq!(loaded.devices[0].monitors[0].channel_map, vec![Some(3), None, None, None]);
}
