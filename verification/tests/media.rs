use audiopc::engine::AudioEngine;
use audiopc::ieee::{Double, Single};
use audiopc::math::{AudioMath, Tap};
use audiopc::metadata::{collect_tags, estimate_duration_millis, lower_names, select_track, TagMap, TrackInfo, Visual};
use audiopc::processor::{SpectrumMath, VisualizerProcessor};
use rustfft::{num_complex::Complex, FftPlanner};
use std::collections::HashMap;

fn single(x: f32) -> Single {
    Single { bits: x.to_bits() }
}

fn float(x: Single) -> f32 {
    f32::from_bits(x.bits)
}

fn floats(xs: &[Single]) -> Vec<f32> {
    xs.iter().map(|x| float(*x)).collect()
}

/// Only durations are computed here.
struct Times;

impl AudioMath for Times {
    fn scale(_: Single, _: Single) -> Single {
        unreachable!()
    }
    fn advance(_: Double, _: Single) -> Double {
        unreachable!()
    }
    fn position_of(_: u64) -> Double {
        unreachable!()
    }
    fn elapsed_nanos(_: Double, _: u32, _: usize) -> u128 {
        unreachable!()
    }
    fn queued_millis(_: usize, _: usize, _: u32) -> i32 {
        unreachable!()
    }
    fn has_right(_: usize, _: Double) -> bool {
        unreachable!()
    }
    fn split(_: Double) -> Tap {
        unreachable!()
    }
    fn step(_: Double, _: u32, _: u32) -> Double {
        unreachable!()
    }
    fn rebase(_: Double, _: usize) -> Double {
        unreachable!()
    }
    fn mix(_: &[Single]) -> Single {
        unreachable!()
    }
    fn interpolate(_: Single, _: Single, _: Single) -> Single {
        unreachable!()
    }
    fn effective_rate(_: u32, _: Single) -> u32 {
        unreachable!()
    }
    fn output_samples(_: i32, _: u32, _: usize, _: Single) -> usize {
        unreachable!()
    }
    fn duration_millis(frames: u64, sample_rate: u32) -> i32 {
        ((frames as f64 / sample_rate as f64) * 1000.0) as i32
    }
    fn duration_text(frames: u64, sample_rate: u32) -> String {
        (frames as f64 / sample_rate as f64).to_string()
    }
    fn to_signed(_: Single) -> i16 {
        unreachable!()
    }
    fn to_unsigned(_: Single) -> u16 {
        unreachable!()
    }
}

struct Bars;

impl SpectrumMath for Bars {
    fn decay_bar(bar: Single) -> Single {
        single(float(bar) * 0.93)
    }
    fn decay_fast(energy: Single) -> Single {
        single(float(energy) * 0.90)
    }
    fn decay_slow(energy: Single) -> Single {
        single(float(energy) * 0.97)
    }
    fn mono(frame: &[Single]) -> Single {
        single(floats(frame).iter().sum::<f32>() / frame.len() as f32)
    }
    fn add_square(sum: Single, mono: Single) -> Single {
        single(float(sum) + float(mono) * float(mono))
    }
    fn hann(index: usize, len: usize) -> Single {
        let x = index as f32 / (len - 1) as f32;
        single(0.5 - 0.5 * (2.0 * std::f32::consts::PI * x).cos())
    }
    fn weigh(mono: Single, weight: Single) -> Single {
        single(float(mono) * float(weight))
    }
    fn magnitudes(input: &[Single], window_frames: usize) -> Vec<Single> {
        let mut buffer: Vec<Complex<f32>> = input.iter().map(|x| Complex::new(float(*x), 0.0)).collect();
        FftPlanner::<f32>::new().plan_fft_forward(buffer.len()).process(&mut buffer);
        let norm = window_frames.max(1) as f32;
        buffer
            .iter()
            .take(input.len() / 2)
            .map(|c| single((c.re * c.re + c.im * c.im).sqrt() / norm))
            .collect()
    }
    fn rms(sum: Single, window_frames: usize) -> Single {
        single((float(sum) / window_frames.max(1) as f32).sqrt())
    }
    fn follow_fast(energy: Single, rms: Single) -> Single {
        single(float(energy) * 0.50 + float(rms) * 0.50)
    }
    fn follow_slow(energy: Single, rms: Single) -> Single {
        single(float(energy) * 0.97 + float(rms) * 0.03)
    }
    fn lead(fast: Single, slow: Single) -> Single {
        single((float(fast) - float(slow)) * 11.0)
    }
    fn bin(edge: usize, bars: usize, sample_rate: u32) -> usize {
        let max_hz = ((sample_rate as f32) * 0.46).max(36.0);
        let t = edge as f32 / bars as f32;
        let freq = 35.0f32 * (max_hz / 35.0).powf(t.clamp(0.0, 1.0));
        let clamped = freq.clamp(0.0, sample_rate as f32 / 2.0);
        ((clamped / sample_rate as f32) * 2048.0) as usize
    }
    fn mean(bins: &[Single]) -> Single {
        single(floats(bins).iter().sum::<f32>() / bins.len() as f32)
    }
    fn boost(mean: Single, beat: Single, bar: usize, bars: usize) -> Single {
        single(float(mean) * (1.0 + float(beat) * 0.55 * (1.0 - bar as f32 / bars as f32)))
    }
    fn adapt(level: Single, peak: Single) -> Single {
        single(float(level) * 0.95 + float(peak) * 0.05)
    }
    fn spread(left: Single, center: Single, right: Single) -> Single {
        single(float(left) * 0.20 + float(center) * 0.60 + float(right) * 0.20)
    }
    fn ratio(raw: Single, level: Single) -> Single {
        single(float(raw) / float(level))
    }
    fn shape(ratio: Single) -> Single {
        single(float(ratio).powf(0.78) * 0.70)
    }
    fn rise(current: Single, target: Single) -> Single {
        single(float(current) + (float(target) - float(current)) * 0.34)
    }
    fn fall(current: Single, target: Single) -> Single {
        single(float(current) + (float(target) - float(current)) * 0.08)
    }
}

fn tags(pairs: &[(&str, &str)]) -> Vec<(String, String)> {
    pairs.iter().map(|(k, v)| (k.to_string(), v.to_string())).collect()
}

fn track(decodable: bool, n_frames: Option<u64>, sample_rate: Option<u32>) -> TrackInfo {
    TrackInfo { decodable, channels: Some(2), sample_rate, n_frames, codec: "0x1003".to_string() }
}

fn parsed(text: &str) -> HashMap<String, String> {
    let value: serde_json::Value = serde_json::from_str(text).unwrap();
    value.as_object().unwrap().iter().map(|(k, v)| (k.clone(), v.as_str().unwrap().to_string())).collect()
}

#[test]
fn metadata_is_json() {
    let t = tags(&[("TITLE", "A \"b\" \\ \n\u{1} é"), ("Artist", "x"), ("artist", "y"), ("CODEC", "z")]);
    let tracks = vec![track(false, None, None), track(true, Some(88200), Some(44100))];
    let map = parsed(&AudioEngine::get_metadata::<Times>(&t, &tracks).unwrap());
    let expected: HashMap<String, String> = [
        ("title", "A \"b\" \\ \n\u{1} é"),
        ("artist", "y"),
        ("channels", "2"),
        ("sample_rate", "44100"),
        ("frame_count", "88200"),
        ("duration_seconds", "2"),
        ("codec", "0x1003"),
    ]
    .iter()
    .map(|(k, v)| (k.to_string(), v.to_string()))
    .collect();
    assert_eq!(map, expected);
}

#[test]
fn metadata_text_is_exact() {
    let t = Vec::new();
    let tracks = vec![TrackInfo {
        decodable: true,
        channels: None,
        sample_rate: None,
        n_frames: None,
        codec: "a\"\\\u{8}\t\n\u{c}\r\u{1f}/é".to_string(),
    }];
    assert_eq!(
        AudioEngine::get_metadata::<Times>(&t, &tracks).unwrap(),
        "{\"codec\":\"a\\\"\\\\\\b\\t\\n\\f\\r\\u001f/é\"}"
    );
}

#[test]
fn metadata_needs_a_track() {
    let none = vec![track(false, None, None)];
    assert_eq!(
        AudioEngine::get_metadata::<Times>(&Vec::new(), &none),
        Err("No decodable audio track found".to_string())
    );
    assert_eq!(select_track(&none), None);
}

#[test]
fn later_tags_replace_earlier_ones() {
    let map = collect_tags(&tags(&[("a", "1"), ("b", "2"), ("a", "3")]));
    assert_eq!(map.entries, tags(&[("a", "3"), ("b", "2")]));
    let mut map = TagMap::new();
    map.insert("k".to_string(), "v".to_string());
    assert_eq!(map.entries, tags(&[("k", "v")]));
    assert_eq!(lower_names(&tags(&[("ÄB", "Cd")])), tags(&[("äb", "Cd")]));
}

#[test]
fn durations() {
    assert_eq!(estimate_duration_millis::<Times>(None), -1);
    assert_eq!(estimate_duration_millis::<Times>(Some(&vec![])), -1);
    assert_eq!(estimate_duration_millis::<Times>(Some(&vec![track(true, None, Some(44100))])), -1);
    let two = vec![track(false, Some(1), Some(1)), track(true, Some(66150), Some(44100))];
    assert_eq!(estimate_duration_millis::<Times>(Some(&two)), 1500);
}

#[test]
fn thumbnails() {
    let v = |t: &str, d: u8| Visual { media_type: t.to_string(), data: vec![d] };
    assert_eq!(AudioEngine::get_thumbnail(&vec![v("image/gif", 1), v("image/png", 2), v("image/jpeg", 3)]), [1]);
    assert_eq!(AudioEngine::get_thumbnail(&vec![v("text/plain", 1), v("image/png", 2)]), [2]);
    assert!(AudioEngine::get_thumbnail(&vec![v("video/mp4", 1), v("image", 2)]).is_empty());
    assert!(AudioEngine::get_thumbnail(&vec![]).is_empty());
}

fn sine(hz: f32, channels: usize, frames: usize) -> Vec<Single> {
    (0..frames * channels)
        .map(|i| single((2.0 * std::f32::consts::PI * hz * (i / channels) as f32 / 48000.0).sin()))
        .collect()
}

#[test]
fn spectrum_shows_the_tone() {
    let mut v = VisualizerProcessor::new(32);
    let samples = sine(1000.0, 2, 4096);
    let mut out = vec![single(0.0); 32];
    assert_eq!(v.compute::<Bars>(&samples, 2, 48000, &mut out, true), 32);
    let bars = floats(&out);
    let top = (0..32).max_by(|a, b| bars[*a].total_cmp(&bars[*b])).unwrap();
    let low = Bars::bin(top, 32, 48000);
    let high = Bars::bin(top + 1, 32, 48000);
    assert!(low <= 43 && 42 <= high, "{low} {high}");
    assert_eq!(floats(&v.smoothed_bars), bars);
    // Without new samples the bars fall.
    assert_eq!(v.compute::<Bars>(&samples, 2, 48000, &mut out, false), 32);
    for (now, before) in floats(&out).iter().zip(&bars) {
        assert_eq!(*now, before * 0.93);
    }
}

#[test]
fn older_frames_do_not_matter() {
    let samples = sine(700.0, 2, 5000);
    let (mut v, mut w) = (VisualizerProcessor::new(8), VisualizerProcessor::new(8));
    let (mut out, mut other) = (vec![single(0.0); 8], vec![single(0.0); 8]);
    v.compute::<Bars>(&samples, 2, 48000, &mut out, true);
    w.compute::<Bars>(&samples[samples.len() - 4096..], 2, 48000, &mut other, true);
    assert_eq!(out, other);
    assert_eq!(v.smoothed_bars, w.smoothed_bars);
}

#[test]
fn bars_stay_between_zero_and_one() {
    let mut v = VisualizerProcessor::new(16);
    for step in 0..60 {
        let loud: Vec<Single> = (0..4500).map(|i| single(if (i / (step + 1)) % 2 == 0 { 1.0 } else { -1.0 })).collect();
        let mut out = vec![single(9.0); 16 + step % 2];
        v.compute::<Bars>(&loud, 1 + step % 3, 44100, &mut out, step % 5 != 0);
        assert!(floats(&out).iter().all(|x| (0.0..=1.0).contains(x)));
        if step % 20 == 19 {
            v.reset();
        }
    }
}

#[test]
fn one_frame_is_not_weighted() {
    let mut v = VisualizerProcessor::new(1);
    let mut out = vec![single(0.0)];
    assert_eq!(v.compute::<Bars>(&[single(0.5)], 1, 48000, &mut out, true), 1);
    // One impulse of 0.5 has that magnitude in every bin.
    let height = 0.5f32 * (1.0 + 1.0 * 0.55);
    assert!((float(v.adaptive_level) - (0.08 * 0.95 + height * 0.05)).abs() < 1.0e-4);
    assert!((float(out[0]) - 0.34).abs() < 1.0e-4);
}

#[test]
fn spectrum_edge_cases() {
    let mut v = VisualizerProcessor::new(0);
    assert_eq!(v.smoothed_bars.len(), 1);
    assert_eq!(v.compute::<Bars>(&sine(1000.0, 1, 64), 1, 48000, &mut [], true), 0);
    let mut out = vec![single(9.0); 4];
    assert_eq!(v.compute::<Bars>(&[], 1, 48000, &mut out, true), 4);
    assert_eq!(floats(&out), [0.0; 4]);
    assert_eq!(v.compute::<Bars>(&sine(1000.0, 1, 64), 1, 48000, &mut out, true), 4);
    assert!(floats(&out).iter().any(|x| *x > 0.0));
    assert!(float(v.fast_energy) > float(v.slow_energy));
    v.reset();
    assert_eq!(floats(&v.smoothed_bars), [0.0; 4]);
    assert_eq!(float(v.adaptive_level), 0.08);
    v.ensure_bar_count(7);
    assert_eq!(v.smoothed_bars.len(), 7);
    let mut out = vec![single(9.0); 2];
    assert_eq!(v.decay_only::<Bars>(&mut out), 2);
}

#[test]
fn engine_spectrum() {
    let mut e = AudioEngine::new(1, 48000);
    let mut out = vec![single(9.0); 8];
    assert_eq!(e.copy_visualizer_spectrum::<Bars>(None, &mut out), -1);
    assert_eq!(floats(&out), [9.0; 8]);
    assert_eq!(e.copy_visualizer_spectrum::<Bars>(Some((sine(500.0, 1, 2048), true)), &mut out), 8);
    assert!(floats(&out).iter().any(|x| *x > 0.0));
}
