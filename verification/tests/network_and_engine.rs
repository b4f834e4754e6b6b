use yomag_audio::engine::{backlog_excess, monitor_backlog, ms_to_frames, route_monitor_frames};
use yomag_audio::network::{
    decode_packet, encode_packet, peer_id_for, PeerDeviceInfo, PeerSnapshot, PeerTable, Publication,
};

fn peer(id: &str, addr: &str) -> PeerSnapshot {
    PeerSnapshot {
        peer_id: id.to_string(),
        name: format!("{id}-pc"),
        addr: addr.to_string(),
        published: vec![PeerDeviceInfo { device_id: "device-1".to_string(), device_name: "Desk".to_string() }],
    }
}

#[test]
fn packets_carry_sequence_then_samples() {
    let samples: Vec<u32> = vec![0.5f32.to_bits(), (-1.0f32).to_bits()];
    let packet = encode_packet(7, &samples);
    assert_eq!(packet.len(), 12);
    assert_eq!(&packet[0..4], &7u32.to_le_bytes());
    assert_eq!(&packet[4..8], &0.5f32.to_le_bytes());
    assert_eq!(decode_packet(&packet), samples);
    assert_eq!(encode_packet(1, &[]), vec![1, 0, 0, 0]);
}

#[test]
fn short_datagrams_and_partial_words_are_dropped() {
    assert!(decode_packet(&[1, 2, 3, 4]).is_empty());
    assert!(decode_packet(&[]).is_empty());
    assert!(decode_packet(&[0, 0, 0, 0, 1, 2]).is_empty());
    let mut bytes = vec![0u8, 0, 0, 0];
    bytes.extend_from_slice(&2.0f32.to_le_bytes());
    bytes.push(9);
    let decoded = decode_packet(&bytes);
    assert_eq!(decoded.len(), 1);
    assert_eq!(f32::from_bits(decoded[0]), 2.0);
}

#[test]
fn peer_ids_are_hexadecimal() {
    assert_eq!(peer_id_for(255, 4096), "ff-1000");
    assert_eq!(peer_id_for(0, 0), "0-0");
    assert_eq!(peer_id_for(0xdead, u64::MAX), "dead-ffffffffffffffff");
}

#[test]
fn beacons_update_peers_and_ignore_ourselves() {
    let mut t = PeerTable::new();
    t.record_beacon("me", peer("me", "10.0.0.1"), 0);
    assert!(t.list_peers().is_empty());
    t.record_beacon("me", peer("a", "10.0.0.2"), 100);
    t.record_beacon("me", peer("b", "10.0.0.3"), 200);
    t.record_beacon("me", peer("a", "10.0.0.9"), 300);
    let list = t.list_peers();
    assert_eq!(list.len(), 2);
    assert_eq!(list[0].peer_id, "a");
    assert_eq!(list[0].addr, "10.0.0.9");
    assert_eq!(list[0].published[0].device_name, "Desk");
    assert_eq!(t.peer_addr("b"), Ok("10.0.0.3".to_string()));
    assert_eq!(t.peer_addr("zz").unwrap_err(), "Unknown peer: zz");
}

#[test]
fn silent_peers_expire_after_the_timeout() {
    let mut t = PeerTable::new();
    t.record_beacon("me", peer("a", "1"), 1_000);
    t.record_beacon("me", peer("b", "2"), 5_000);
    t.expire(8_999);
    assert_eq!(t.list_peers().len(), 2);
    t.expire(9_000);
    let ids: Vec<String> = t.list_peers().into_iter().map(|p| p.peer_id).collect();
    assert_eq!(ids, vec!["b"]);
    t.expire(0);
    assert_eq!(t.list_peers().len(), 1);
}

#[test]
fn publishing_sends_numbered_packets_to_live_listeners() {
    let mut p = Publication::new("device-1".to_string(), "Desk".to_string());
    let samples = vec![1u32, 2, 3];
    assert!(p.tick(&samples, 0).is_none());
    p.add_listener("10.0.0.5:5000".to_string(), 0);
    p.add_listener("10.0.0.6:5000".to_string(), 1_000);
    p.add_listener("10.0.0.5:5000".to_string(), 2_000);
    assert!(p.tick(&[], 3_000).is_none());
    let out = p.tick(&samples, 3_000).unwrap();
    assert_eq!(out.to, vec!["10.0.0.5:5000", "10.0.0.6:5000"]);
    assert_eq!(decode_packet(&out.packet), samples);
    assert_eq!(&out.packet[0..4], &0u32.to_le_bytes());
    assert_eq!(p.seq, 1);
    let out = p.tick(&samples, 9_500).unwrap();
    assert_eq!(out.to, vec!["10.0.0.5:5000"]);
    assert_eq!(&out.packet[0..4], &1u32.to_le_bytes());
    assert!(p.tick(&samples, 20_000).is_none());
    assert_eq!(p.seq, 2);
    assert!(p.listeners.is_empty());
}

#[test]
fn sequence_numbers_wrap() {
    let mut p = Publication::new("d".to_string(), "D".to_string());
    p.seq = u32::MAX;
    p.add_listener("x".to_string(), 0);
    let out = p.tick(&[5], 1).unwrap();
    assert_eq!(&out.packet[0..4], &u32::MAX.to_le_bytes());
    assert_eq!(p.seq, 0);
}

#[test]
fn buffer_arithmetic() {
    assert_eq!(ms_to_frames(80, 48_000), 3840);
    assert_eq!(ms_to_frames(5, 44_100), 220);
    assert_eq!(backlog_excess(3840 * 2, 2, 3840, 960), 0);
    assert_eq!(backlog_excess(3841 * 2 + 1, 2, 3840, 960), (3841 - 960) * 2);
    assert_eq!(backlog_excess(5000, 0, 3840, 960), 5000 - 960);
    let b = monitor_backlog(20, 10, 2);
    assert_eq!(b.target_frames, 960 + 480);
    assert_eq!(b.max_frames, 1440 + 2880);
    assert_eq!(b.prefill_samples, 2880);
    assert_eq!(monitor_backlog(5, 0, 0).prefill_samples, 240);
}

#[test]
fn monitor_routing_follows_the_channel_map() {
    let mix: Vec<f32> = vec![0.1, 0.2, 0.3, 1.1, 1.2, 1.3];
    let map = vec![Some(2), None, Some(0), Some(7)];
    let mut out = vec![9.0f32; 10];
    route_monitor_frames(&mix, 3, &map, &mut out, 4, 0.0);
    assert_eq!(out, vec![0.3, 0.0, 0.1, 0.0, 1.3, 0.0, 1.1, 0.0, 0.0, 0.0]);

    let mut out = vec![9.0f32; 3];
    route_monitor_frames(&mix, 3, &map, &mut out, 4, 0.0);
    assert_eq!(out, vec![0.3, 0.0, 0.1]);

    let short_map = vec![Some(1)];
    let mut out = vec![9.0f32; 5];
    route_monitor_frames(&mix, 3, &short_map, &mut out, 2, 0.0);
    assert_eq!(out, vec![0.2, 9.0, 1.2, 9.0, 0.0]);

    let mut out = vec![9.0f32; 4];
    route_monitor_frames(&[0.5f32, 0.6, 0.7], 2, &[Some(1), Some(0)], &mut out, 2, 0.0);
    assert_eq!(out, vec![0.6, 0.5, 0.0, 0.7]);
}
