use std::hint::black_box;
use std::time::Instant;

use yomag_audio::sources::parse_app_source_id;

#[test]
fn test_parse_app_source_id_roundtrips_pid() {
    assert_eq!(parse_app_source_id("app:1234:spotify.exe"), Some(1234));
    assert_eq!(parse_app_source_id("Microphone (Realtek)"), None);
}

#[test]
fn denormal_product_is_nonzero_by_default() {
    let product = black_box(f32::MIN_POSITIVE) * black_box(0.5f32);
    assert_ne!(product, 0.0, "sanity check: this product is a true nonzero subnormal");
}

#[test]
fn routing_loop_latency_is_well_under_one_tick_period() {
    const SOURCES: usize = 8;
    const SOURCE_CHANNELS: usize = 2;
    const OUTPUT_CHANNELS: usize = 8;
    const CHUNK_FRAMES: usize = 240;

    let sources: Vec<Vec<f32>> = (0..SOURCES)
        .map(|i| {
            (0..CHUNK_FRAMES * SOURCE_CHANNELS)
                .map(|n| ((i * 997 + n) as f32 * 0.001).sin())
                .collect()
        })
        .collect();

    let connections: Vec<(usize, usize, usize, f32)> = (0..SOURCES)
        .flat_map(|i| {
            let out_a = (i * 2) % OUTPUT_CHANNELS;
            let out_b = (i * 2 + 1) % OUTPUT_CHANNELS;
            [(i, 0, out_a, 0.8f32), (i, 1, out_b, 0.8f32)]
        })
        .collect();

    let mut mix = vec![0.0f32; CHUNK_FRAMES * OUTPUT_CHANNELS];

    let start = Instant::now();
    for _ in 0..100 {
        for s in mix.iter_mut() {
            *s = 0.0;
        }
        for &(src_idx, src_channel, out_channel, gain) in &connections {
            let chunk = &sources[src_idx];
            for frame in 0..CHUNK_FRAMES {
                let src_i = frame * SOURCE_CHANNELS + src_channel;
                let dst_i = frame * OUTPUT_CHANNELS + out_channel;
                mix[dst_i] += chunk[src_i] * gain;
            }
        }
        for s in mix.iter_mut() {
            *s = s.clamp(-1.0, 1.0);
        }
    }
    let elapsed_per_tick = start.elapsed() / 100;

    let tick_period_us = (CHUNK_FRAMES as f64 / 48_000.0) * 1_000_000.0;
    println!(
        "routing {SOURCES} sources x {CHUNK_FRAMES} frames into {OUTPUT_CHANNELS}ch: {:?} (tick period budget: {:.0}us)",
        elapsed_per_tick, tick_period_us
    );

    assert!(
        elapsed_per_tick.as_micros() < 1000,
        "routing loop took {:?}, expected comfortably under the {:.0}us tick period",
        elapsed_per_tick,
        tick_period_us
    );
}
