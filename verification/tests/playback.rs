use audiopc::decode::{playback_rate, source_millis_to_output_samples, DecodeAction, DecodeSession, PacketDecode, PacketRead};
use audiopc::effects::{
    band_pass_filter, high_shelf_filter, highpass_filter, low_shelf_filter, lowpass_filter, notch_filter,
    peak_filter, AudioProcessor, BiquadFilter, Effects, FilterCore, FilterType, GainNode,
};
use audiopc::engine::{AudioEngine, EngineAction};
use audiopc::ieee::{Double, Single};
use audiopc::math::{AudioMath, Tap};
use audiopc::output::{write_output_f32, write_output_i16, write_output_u16};
use audiopc::player_state::{
    can_allocate, sample_count, PlaybackStatus, PlaybackUpdate, PlayerState, ResampleState, SharedPlayback,
};
use audiopc::resample::{convert_to_output, source_frame_sample};
use audiopc::source::AudioSource;
use biquad::{Biquad, Coefficients, DirectForm1, ToHertz, Type};
use std::time::Duration;

fn single(x: f32) -> Single {
    Single { bits: x.to_bits() }
}

fn singles(xs: &[f32]) -> Vec<Single> {
    xs.iter().map(|x| single(*x)).collect()
}

fn float(x: Single) -> f32 {
    f32::from_bits(x.bits)
}

fn floats(xs: &[Single]) -> Vec<f32> {
    xs.iter().map(|x| float(*x)).collect()
}

struct Native;

impl AudioMath for Native {
    fn scale(sample: Single, volume: Single) -> Single {
        single(float(sample) * float(volume))
    }
    fn advance(position: Double, rate: Single) -> Double {
        Double { bits: (f64::from_bits(position.bits) + float(rate) as f64).to_bits() }
    }
    fn position_of(samples: u64) -> Double {
        Double { bits: (samples as f64).to_bits() }
    }
    fn elapsed_nanos(position: Double, sample_rate: u32, channels: usize) -> u128 {
        let secs = f64::from_bits(position.bits) / (sample_rate as f64 * channels as f64);
        Duration::from_secs_f64(secs.max(0.0)).as_nanos()
    }
    fn queued_millis(samples: usize, channels: usize, sample_rate: u32) -> i32 {
        ((samples as f64 / channels as f64) / sample_rate as f64 * 1000.0) as i32
    }
    fn has_right(frames: usize, position: Double) -> bool {
        f64::from_bits(position.bits) + 1.0 < frames as f64
    }
    fn split(position: Double) -> Tap {
        let pos = f64::from_bits(position.bits);
        let index = pos.floor() as usize;
        Tap { index, fraction: single((pos - index as f64) as f32) }
    }
    fn step(position: Double, src_rate: u32, out_rate: u32) -> Double {
        let step = src_rate as f64 / out_rate as f64;
        Double { bits: (f64::from_bits(position.bits) + step).to_bits() }
    }
    fn rebase(position: Double, frames: usize) -> Double {
        Double { bits: (f64::from_bits(position.bits) - frames as f64).to_bits() }
    }
    fn mix(frame: &[Single]) -> Single {
        single(floats(frame).iter().sum::<f32>() / frame.len() as f32)
    }
    fn interpolate(left: Single, right: Single, fraction: Single) -> Single {
        single(float(left) + (float(right) - float(left)) * float(fraction))
    }
    fn effective_rate(out_sample_rate: u32, rate: Single) -> u32 {
        (out_sample_rate as f32 / float(rate)).max(1.0) as u32
    }
    fn output_samples(millis: i32, out_sample_rate: u32, out_channels: usize, rate: Single) -> usize {
        let rate = float(rate).max(1.0e-6);
        (millis as f64 * out_sample_rate as f64 * out_channels as f64 / 1000.0 / rate as f64) as usize
    }
    fn duration_millis(frames: u64, sample_rate: u32) -> i32 {
        ((frames as f64 / sample_rate as f64) * 1000.0) as i32
    }
    fn duration_text(frames: u64, sample_rate: u32) -> String {
        (frames as f64 / sample_rate as f64).to_string()
    }
    fn to_signed(sample: Single) -> i16 {
        (float(sample) * i16::MAX as f32) as i16
    }
    fn to_unsigned(sample: Single) -> u16 {
        (((float(sample) * 0.5) + 0.5) * u16::MAX as f32) as u16
    }
}

struct Form(DirectForm1<f32>);

impl FilterCore for Form {
    type Coeffs = Coefficients<f32>;
    fn design(kind: FilterType, sample_rate: u32, cutoff_hz: Single, q: Single) -> Option<Coefficients<f32>> {
        let kind = match kind {
            FilterType::PeakingEQ(g) => Type::PeakingEQ(float(g)),
            FilterType::LowShelf(g) => Type::LowShelf(float(g)),
            FilterType::HighShelf(g) => Type::HighShelf(float(g)),
            FilterType::BandPass => Type::BandPass,
            FilterType::LowPass => Type::LowPass,
            FilterType::HighPass => Type::HighPass,
            FilterType::Notch => Type::Notch,
        };
        Coefficients::<f32>::from_params(kind, sample_rate.hz(), float(cutoff_hz).hz(), float(q)).ok()
    }
    fn start(coeffs: Coefficients<f32>) -> Form {
        Form(DirectForm1::<f32>::new(coeffs))
    }
    fn run(mut self, sample: Single) -> (Form, Single) {
        let out = self.0.run(float(sample));
        (self, single(out))
    }
}

/// Adds a constant; keeps count of the format changes.
struct Offset {
    label: &'static str,
    by: f32,
    resets: u32,
}

impl AudioProcessor for Offset {
    fn process_sample(&mut self, sample: Single, _channel: usize) -> Single {
        single(float(sample) + self.by)
    }
    fn reset(&mut self, _sample_rate: u32, _channels: u16) {
        self.resets += 1;
    }
    fn name(&self) -> &'static str {
        self.label
    }
}

fn offset(label: &'static str, by: f32) -> Offset {
    Offset { label, by, resets: 0 }
}

type Plain = SharedPlayback<GainNode<Native>>;
type Filtered = SharedPlayback<BiquadFilter<Form>>;

// ── Effects ───────────────────────────────────────────────────────────────────

#[test]
fn empty_chain_bypasses() {
    let mut e: Effects<Offset> = Effects::new();
    assert!(e.is_empty());
    assert_eq!(e.process(single(0.25), 0), single(0.25));
    assert!(Effects::<Offset>::default().is_empty());
}

#[test]
fn chain_applies_in_order_and_removes_the_first() {
    let mut e: Effects<GainNode<Native>> = Effects::new();
    e.push(GainNode::new(single(2.0)));
    e.push(GainNode::new(single(3.0)));
    assert_eq!(e.process(single(0.5), 1), single(3.0));
    assert!(!e.remove_named("Gain"));
    assert!(e.remove_named("GainNode"));
    assert_eq!(e.process(single(0.5), 1), single(1.5));
    e.clear();
    assert!(e.is_empty());
}

#[test]
fn remove_named_takes_only_the_first_of_its_name() {
    let mut e: Effects<Offset> = Effects::new();
    e.push(offset("a", 1.0));
    e.push(offset("b", 10.0));
    e.push(offset("b", 100.0));
    assert!(e.remove_named("b"));
    assert_eq!(e.process(single(0.0), 0), single(101.0));
    e.reset_all(48000, 2);
    assert!(e.chain.iter().all(|p| p.resets == 1));
}

#[test]
fn biquad_filter_runs_and_resets() {
    let mut f = lowpass_filter::<Form>(44100, single(1000.0), single(0.7)).unwrap();
    assert_eq!(f.name(), "LowPass");
    let coeffs =
        Coefficients::<f32>::from_params(Type::LowPass, 44100u32.hz(), 1000.0f32.hz(), 0.7).unwrap();
    let mut direct = DirectForm1::<f32>::new(coeffs);
    for x in [1.0f32, 0.5, -0.25, 0.0] {
        assert_eq!(float(f.process_sample(single(x), 0)), direct.run(x));
    }
    f.reset(48000, 2);
    let mut fresh = DirectForm1::<f32>::new(coeffs);
    assert_eq!(float(f.process_sample(single(1.0), 0)), fresh.run(1.0));
}

#[test]
fn constructors_name_their_filters() {
    let (c, g, q) = (single(1000.0), single(3.0), single(0.7));
    assert_eq!(peak_filter::<Form>(48000, c, g, q).unwrap().label, "PeakEQ");
    assert_eq!(low_shelf_filter::<Form>(48000, c, g, q).unwrap().label, "LowShelf");
    assert_eq!(high_shelf_filter::<Form>(48000, c, g, q).unwrap().label, "HighShelf");
    assert_eq!(band_pass_filter::<Form>(48000, c, q).unwrap().label, "BandPass");
    assert_eq!(notch_filter::<Form>(48000, c, q).unwrap().label, "Notch");
    assert_eq!(lowpass_filter::<Form>(48000, c, q).unwrap().label, "LowPass");
    assert_eq!(highpass_filter::<Form>(48000, c, q).unwrap().label, "HighPass");
    assert!(lowpass_filter::<Form>(48000, c, single(-1.0)).is_none());
}

// ── SharedPlayback ────────────────────────────────────────────────────────────

#[test]
fn new_state_is_sized_for_the_device() {
    let s = Plain::new(2, 48000);
    assert_eq!(s.max_samples, 48000 * 2 * 20);
    assert_eq!(s.visualizer_max_samples, 48000 * 2 * 2);
    assert_eq!(s.effects.len(), 2);
    assert!(!s.playing && s.stream_finished);
    assert_eq!(float(s.volume), 1.0);
    assert_eq!(float(s.playback_rate), 1.0);
    assert_eq!(Plain::new(0, 48000).effects.len(), 1);
    assert_eq!(sample_count(u32::MAX, usize::MAX, 3), usize::MAX);
    assert!(!can_allocate(u32::MAX, usize::MAX, 3));
    assert!(can_allocate(48000, 2, 20));
}

#[test]
fn push_is_bounded() {
    let mut s = Plain::new(1, 1);
    assert_eq!(s.max_samples, 20);
    assert_eq!(s.push_samples_bounded(&vec![single(0.5); 15]), 15);
    assert_eq!(s.push_samples_bounded(&vec![single(0.25); 15]), 5);
    assert_eq!(s.push_samples_bounded(&vec![single(0.25); 15]), 0);
    assert_eq!(s.queue.len(), 20);
}

#[test]
fn resizing_drops_from_the_front() {
    let mut s = Plain::new(1, 2);
    let all: Vec<Single> = (0..40).map(|i| single(i as f32)).collect();
    assert_eq!(s.push_samples_bounded(&all), 40);
    s.set_max_queue_seconds(1, 3);
    assert_eq!(s.max_samples, 6);
    assert_eq!(floats(&s.queue.iter().copied().collect::<Vec<_>>()), [34.0, 35.0, 36.0, 37.0, 38.0, 39.0]);
    s.set_max_queue_seconds(1, 0);
    assert_eq!(s.max_queue_seconds, 1);
    s.set_max_queue_seconds(1, 1000);
    assert_eq!(s.max_queue_seconds, 120);
}

#[test]
fn ring_keeps_the_newest() {
    let mut s = Plain::new(1, 2);
    assert_eq!(s.visualizer_max_samples, 4);
    for i in 0..6 {
        s.push_visualizer_sample(single(i as f32));
    }
    let mut out = singles(&[9.0; 2]);
    assert_eq!(s.copy_latest_visualizer_samples(&mut out), 2);
    assert_eq!(floats(&out), [4.0, 5.0]);
    let mut out = singles(&[9.0; 6]);
    assert_eq!(s.copy_latest_visualizer_samples(&mut out), 4);
    assert_eq!(floats(&out), [2.0, 3.0, 4.0, 5.0, 9.0, 9.0]);
    assert_eq!(floats(&s.visualizer_snapshot()), [2.0, 3.0, 4.0, 5.0]);
    let mut none = Plain::new(1, 0);
    none.push_visualizer_sample(single(1.0));
    assert_eq!(none.visualizer_ring.len(), 0);
}

#[test]
fn next_sample_scales_clamps_and_records() {
    let mut s = Plain::new(2, 10);
    s.push_samples_bounded(&singles(&[0.5, 0.5, -0.9]));
    assert_eq!(float(s.next_sample::<Native>()), 0.0);
    assert_eq!(s.queue.len(), 3);
    s.set_playing(true);
    s.set_volume(single(2.0));
    s.effects[1].push(GainNode::new(single(0.25)));
    assert_eq!(float(s.next_sample::<Native>()), 1.0);
    assert_eq!(float(s.next_sample::<Native>()), 0.25);
    assert_eq!(float(s.next_sample::<Native>()), -1.0);
    assert_eq!(s.emitted_samples, 3);
    assert_eq!(f64::from_bits(s.source_position_samples.bits), 3.0);
    assert_eq!(floats(&s.visualizer_snapshot()), [1.0, 0.25, -1.0]);
}

#[test]
fn underrun_then_end() {
    let mut s = Plain::new(1, 10);
    s.set_playing(true);
    assert_eq!(float(s.next_sample::<Native>()), 0.0);
    assert_eq!(s.underrun_count, 1);
    assert!(s.playing);
    s.push_samples_bounded(&singles(&[0.5]));
    s.apply::<Native>(PlaybackUpdate::EndDecode);
    assert_eq!(float(s.next_sample::<Native>()), 0.5);
    assert_eq!(float(s.next_sample::<Native>()), 0.0);
    assert!(!s.playing);
    assert_eq!(s.status, PlaybackStatus::Finished);
    assert_eq!(PlayerState::from(&s.status), PlayerState::Stopped);
}

#[test]
fn volume_is_clamped() {
    let mut s = Plain::new(1, 10);
    s.set_volume(single(9.0));
    assert_eq!(float(s.volume), 4.0);
    s.set_volume(single(-1.0));
    assert_eq!(float(s.volume), 0.0);
    s.set_volume(single(0.75));
    assert_eq!(float(s.volume), 0.75);
}

#[test]
fn updates_change_what_they_name() {
    let mut s = Plain::new(1, 10);
    s.set_playing(true);
    s.push_samples_bounded(&singles(&[0.5, 0.5]));
    s.next_sample::<Native>();
    s.apply::<Native>(PlaybackUpdate::SetRate(single(1.5)));
    assert_eq!(float(s.playback_rate), 1.5);
    s.apply::<Native>(PlaybackUpdate::Restart { samples: 30 });
    assert_eq!((s.queue.len(), s.visualizer_ring.len(), s.emitted_samples, s.playing), (0, 0, 0, false));
    assert_eq!(f64::from_bits(s.source_position_samples.bits), 30.0);
    assert_eq!(s.position_millis::<Native>(1), 3000);
    assert_eq!(s.position::<Native>(1), 3_000_000_000);
    assert_eq!(s.position_millis::<Native>(0), 0);
    s.set_playing(true);
    s.effects[0].push(GainNode::new(single(0.25)));
    s.apply::<Native>(PlaybackUpdate::Interrupt);
    assert!(!s.playing && !s.stream_finished);
    assert_eq!(s.effects[0].chain.len(), 1);
    s.set_playing(true);
    s.apply::<Native>(PlaybackUpdate::Load);
    assert!(!s.stream_finished && !s.playing);
    assert_eq!(s.status, PlaybackStatus::Idle);
    assert!(s.effects[0].is_empty());
    s.apply::<Native>(PlaybackUpdate::Halt);
    assert!(s.stream_finished);
    s.apply::<Native>(PlaybackUpdate::BeginDecode);
    assert!(!s.stream_finished);
}

#[test]
fn pause_and_resume() {
    let mut s = Plain::new(1, 10);
    s.push_samples_bounded(&singles(&[0.5, 0.25]));
    s.set_playing(true);
    assert_eq!(float(s.next_sample::<Native>()), 0.5);
    s.set_playing(false);
    assert_eq!(s.status, PlaybackStatus::Paused);
    assert_eq!(float(s.next_sample::<Native>()), 0.0);
    assert_eq!(s.emitted_samples, 1);
    s.set_playing(true);
    assert_eq!(s.status, PlaybackStatus::Playing);
    assert_eq!(float(s.next_sample::<Native>()), 0.25);
}

// ── Filters through the engine ────────────────────────────────────────────────

fn names(s: &Filtered, channel: usize) -> Vec<&'static str> {
    s.effects[channel].chain.iter().map(|f| f.label).collect()
}

#[test]
fn filter_check_agrees_with_the_formula() {
    for rate in [0u32, 1, 2, 44100, 48000, 16_777_217, 16_777_219, 33_554_431, u32::MAX] {
        let mut s = Filtered::new(1, 10);
        s.sample_rate = rate;
        let half = rate as f32 / 2.0;
        for cutoff in [
            -1.0f32, -0.0, 0.0, 1.0e-45, 0.5, half, f32::from_bits(half.to_bits().wrapping_sub(1)),
            f32::from_bits(half.to_bits() + 1), 22050.0, 1.0e30, f32::INFINITY, f32::NEG_INFINITY, f32::NAN,
        ] {
            for q in [-1.0f32, 0.0, -0.0, 0.7, f32::NAN, f32::INFINITY] {
                let expected = if q <= 0.0 {
                    -1
                } else if cutoff <= 0.0 {
                    0
                } else if cutoff >= half {
                    -1
                } else {
                    0
                };
                assert_eq!(AudioEngine::filter_check(Some(&s), single(cutoff), single(q)), expected);
            }
        }
    }
    assert_eq!(AudioEngine::filter_check::<BiquadFilter<Form>>(None, single(100.0), single(1.0)), -1);
}

#[test]
fn setting_a_filter_replaces_the_old_one() {
    let mut s = Filtered::new(2, 48000);
    let (q, g) = (single(0.7), single(3.0));
    AudioEngine::set_lowpass_filter::<_, Form>(&mut s, single(8000.0), q);
    AudioEngine::set_peak_filter::<_, Form>(&mut s, single(1000.0), g, q);
    AudioEngine::set_lowpass_filter::<_, Form>(&mut s, single(4000.0), q);
    AudioEngine::set_lowpass_filter::<_, Form>(&mut s, single(4000.0), q);
    assert_eq!(names(&s, 0), ["PeakEQ", "LowPass"]);
    assert_eq!(names(&s, 1), ["PeakEQ", "LowPass"]);
    let expected = Coefficients::<f32>::from_params(Type::LowPass, 48000u32.hz(), 4000.0f32.hz(), 0.7).unwrap();
    assert_eq!(s.effects[1].chain[1].coeffs.b0, expected.b0);
    // Bad parameters change nothing.
    AudioEngine::set_peak_filter::<_, Form>(&mut s, single(24000.0), g, q);
    AudioEngine::set_peak_filter::<_, Form>(&mut s, single(1000.0), g, single(0.0));
    assert_eq!(names(&s, 0), ["PeakEQ", "LowPass"]);
    // A frequency that is not positive disables the filter.
    AudioEngine::set_peak_filter::<_, Form>(&mut s, single(0.0), g, q);
    assert_eq!(names(&s, 0), ["LowPass"]);
    AudioEngine::set_low_shelf_filter::<_, Form>(&mut s, single(100.0), g, q);
    AudioEngine::set_high_shelf_filter::<_, Form>(&mut s, single(9000.0), g, q);
    AudioEngine::set_band_pass_filter::<_, Form>(&mut s, single(1000.0), q);
    AudioEngine::set_high_pass_filter::<_, Form>(&mut s, single(30.0), q);
    AudioEngine::set_notch_filter::<_, Form>(&mut s, single(50.0), q);
    assert_eq!(names(&s, 0), ["LowPass", "LowShelf", "HighShelf", "BandPass", "HighPass", "Notch"]);
    AudioEngine::clear_filters(&mut s);
    assert!(names(&s, 0).is_empty() && names(&s, 1).is_empty());
}

// ── Output ────────────────────────────────────────────────────────────────────

#[test]
fn writes_every_format() {
    let queued = singles(&[0.5, -0.5, 1.0]);
    let mut s = Plain::new(1, 10);
    s.push_samples_bounded(&queued);
    s.set_playing(true);
    let mut data = singles(&[7.0; 4]);
    write_output_f32::<Native, _>(&mut data, &mut s);
    assert_eq!(floats(&data), [0.5, -0.5, 1.0, 0.0]);
    s.push_samples_bounded(&queued);
    let mut data = [7i16; 3];
    write_output_i16::<Native, _>(&mut data, &mut s);
    assert_eq!(data, [16383, -16383, 32767]);
    s.push_samples_bounded(&queued);
    let mut data = [7u16; 4];
    write_output_u16::<Native, _>(&mut data, &mut s);
    assert_eq!(data, [49151, 16383, 65535, 32767]);
}

// ── Resampling ────────────────────────────────────────────────────────────────

#[test]
fn picks_source_channels() {
    let frames = singles(&[1.0, 2.0, 3.0, 4.0, 5.0, 6.0]);
    let pick = |src, frame, ch, outs| float(source_frame_sample::<Native>(&frames, src, frame, ch, outs));
    assert_eq!(pick(2, 1, 0, 1), 3.5);
    assert_eq!(pick(1, 4, 1, 2), 5.0);
    assert_eq!(pick(2, 2, 1, 2), 6.0);
    assert_eq!(pick(3, 1, 7, 8), 6.0);
    assert_eq!(pick(0, 1, 0, 2), 0.0);
}

#[test]
fn upsamples_across_packets() {
    let mut st = ResampleState::new();
    let out = convert_to_output::<Native>(&singles(&[0.0, 1.0, 2.0]), 1, 1, 1, 2, &mut st);
    assert_eq!(floats(&out), [0.0, 0.5, 1.0, 1.5]);
    assert_eq!(floats(&st.carry), [2.0]);
    assert_eq!(f64::from_bits(st.pos.bits), 0.0);
    let out = convert_to_output::<Native>(&singles(&[3.0, 4.0]), 1, 1, 2, 2, &mut st);
    assert_eq!(floats(&out), [2.0, 2.0, 2.5, 2.5, 3.0, 3.0, 3.5, 3.5]);
    st.reset();
    assert!(st.carry.is_empty());
    assert!(ResampleState::default().carry.is_empty());
}

#[test]
fn downsamples_and_carries_short_packets() {
    let mut st = ResampleState::new();
    assert!(convert_to_output::<Native>(&singles(&[1.0]), 1, 2, 1, 1, &mut st).is_empty());
    assert_eq!(floats(&st.carry), [1.0]);
    let out = convert_to_output::<Native>(&singles(&[2.0, 3.0, 4.0]), 1, 2, 1, 1, &mut st);
    assert_eq!(floats(&out), [1.0, 3.0]);
    assert_eq!(f64::from_bits(st.pos.bits), 1.0);
    assert!(convert_to_output::<Native>(&singles(&[1.0]), 1, 0, 1, 1, &mut st).is_empty());
    assert_eq!(floats(&st.carry), [4.0]);
}

// ── Decoding ──────────────────────────────────────────────────────────────────

#[test]
fn decode_session_skips_and_feeds() {
    let mut s = Plain::new(1, 1);
    s.set_max_queue_seconds(1, 3);
    let mut d = DecodeSession::new::<Native>(2000, 1, 1, Some(single(1.0)));
    assert_eq!(d.skip_output_samples, 2);
    assert!(matches!(DecodeSession::begin(false), DecodeAction::ReadPacket));
    assert!(matches!(DecodeSession::begin(true), DecodeAction::Finish(Ok(()))));
    let packet = |xs: &[f32]| PacketDecode::Decoded { channels: 1, rate: 1, interleaved: singles(xs) };
    assert!(matches!(
        d.on_decoded::<Native>(packet(&[0.0, 1.0, 2.0]), false, Some(single(1.0))),
        DecodeAction::Continue
    ));
    assert_eq!(d.skip_output_samples, 0);
    let all: Vec<f32> = (3..9).map(|i| i as f32).collect();
    assert!(matches!(d.on_decoded::<Native>(packet(&all), false, Some(single(1.0))), DecodeAction::Feed));
    assert!(matches!(d.feed(true, &mut s), DecodeAction::Continue));
    assert!(matches!(d.feed(false, &mut s), DecodeAction::Feed));
    assert!(matches!(d.feed(false, &mut s), DecodeAction::Sleep));
    s.set_playing(true);
    let mut heard = Vec::new();
    for _ in 0..3 {
        heard.push(float(s.next_sample::<Native>()));
    }
    assert!(matches!(d.feed(false, &mut s), DecodeAction::Continue));
    assert_eq!(heard, [1.0, 1.0, 1.0]);
    assert_eq!(floats(&s.queue.iter().copied().collect::<Vec<_>>()), [5.0, 6.0, 7.0]);
}

#[test]
fn cutting_into_packets_changes_nothing() {
    let samples: Vec<f32> = (0..40).map(|i| ((i * 37) % 23) as f32).collect();
    for (src_rate, out_rate) in [(1, 4), (48000, 24000), (3, 1), (1, 1)] {
        let mut whole = ResampleState::new();
        let expected = convert_to_output::<Native>(&singles(&samples), 2, src_rate, 2, out_rate, &mut whole);
        for cut in 0..=20 {
            let mut st = ResampleState::new();
            let (a, b) = samples.split_at(2 * cut);
            let mut out = convert_to_output::<Native>(&singles(a), 2, src_rate, 2, out_rate, &mut st);
            out.extend(convert_to_output::<Native>(&singles(b), 2, src_rate, 2, out_rate, &mut st));
            assert_eq!(out, expected);
            assert_eq!(out.len() % 2, 0);
            assert_eq!(floats(&st.carry), samples[38..]);
            assert_eq!(f64::from_bits(st.pos.bits), f64::from_bits(whole.pos.bits));
            assert!(f64::from_bits(st.pos.bits) >= 0.0);
        }
    }
}

#[test]
fn seek_arrives_where_it_was_asked_to() {
    let mut e = AudioEngine::new(2, 48000);
    e.set_source(AudioSource::Path("a".to_string()), 60_000);
    let mut s = Plain::new(2, 48000);
    for millis in [0, 1, 1500, 59_999, 60_000] {
        for action in e.seek(millis, 0) {
            if let EngineAction::Update(update) = action {
                s.apply::<Native>(update);
            }
        }
        assert_eq!(e.position_millis::<Native, _>(Some(&s)), millis);
    }
}

#[test]
fn ended_run_is_played_out() {
    let mut s = Plain::new(1, 10);
    s.set_playing(true);
    s.push_samples_bounded(&singles(&[0.5]));
    assert_eq!(DecodeSession::finish::<Native, _>(Ok(()), &mut s), Ok(()));
    assert_eq!(float(s.next_sample::<Native>()), 0.5);
    assert!(s.playing);
    assert_eq!(float(s.next_sample::<Native>()), 0.0);
    assert_eq!((s.playing, s.status.clone()), (false, PlaybackStatus::Finished));
    let failed = DecodeSession::finish::<Native, _>(Err("e".to_string()), &mut s);
    assert_eq!(failed, Err("e".to_string()));
    assert!(s.stream_finished);
}

#[test]
fn decode_session_ends_as_it_should() {
    let mut d = DecodeSession::new::<Native>(-5, 48000, 2, None);
    assert_eq!(d.skip_output_samples, 0);
    let text = |a: DecodeAction| match a {
        DecodeAction::Finish(Err(e)) => e,
        _ => panic!("no error"),
    };
    assert_eq!(text(DecodeSession::on_packet(PacketRead::ResetRequired)), "Decoder reset required and not supported");
    assert_eq!(text(DecodeSession::on_packet(PacketRead::Failed("x".into()))), "Failed to read next packet: x");
    assert!(matches!(DecodeSession::on_packet(PacketRead::IoError), DecodeAction::Finish(Ok(()))));
    assert!(matches!(DecodeSession::on_packet(PacketRead::Packet), DecodeAction::DecodePacket));
    assert_eq!(
        text(d.on_decoded::<Native>(PacketDecode::Failed("y".into()), false, None)),
        "Failed to decode packet: y"
    );
    assert!(matches!(
        d.on_decoded::<Native>(PacketDecode::DecodeError("z".into()), false, None),
        DecodeAction::Continue
    ));
    assert!(matches!(d.on_decoded::<Native>(PacketDecode::IoError, false, None), DecodeAction::Finish(Ok(()))));
    let some = PacketDecode::Decoded { channels: 1, rate: 1, interleaved: singles(&[0.5]) };
    assert!(matches!(d.on_decoded::<Native>(some, true, None), DecodeAction::Finish(Ok(()))));
    let none = PacketDecode::Decoded { channels: 0, rate: 1, interleaved: singles(&[0.5]) };
    assert!(matches!(d.on_decoded::<Native>(none, true, None), DecodeAction::Continue));
    assert!(matches!(DecodeSession::locked_out(false), DecodeAction::Sleep));
    assert!(matches!(DecodeSession::locked_out(true), DecodeAction::Continue));
}

#[test]
fn rates_are_clamped() {
    assert_eq!(float(playback_rate(Some(single(0.1)))), 0.5);
    assert_eq!(float(playback_rate(Some(single(7.0)))), 2.0);
    assert_eq!(float(playback_rate(Some(single(1.25)))), 1.25);
    assert_eq!(float(playback_rate(None)), 1.0);
    assert_eq!(source_millis_to_output_samples::<Native>(1000, 48000, 2, single(9.0)), 48000);
}

#[test]
fn engine_queries_read_the_shared_state() {
    let engine = AudioEngine::new(2, 100);
    let mut s = Plain::new(2, 100);
    s.push_samples_bounded(&singles(&[0.5; 50]));
    assert_eq!(AudioEngine::buffered_samples(Some(&s)), 50);
    assert_eq!(engine.buffered_millis::<Native, _>(Some(&s)), 250);
    assert_eq!(AudioEngine::max_queue_seconds(Some(&s)), 20);
    assert_eq!(AudioEngine::is_playing(Some(&s)), 0);
    s.set_playing(true);
    assert_eq!(AudioEngine::is_playing(Some(&s)), 1);
    assert_eq!(float(AudioEngine::rate(Some(&s))), 1.0);
    assert_eq!(engine.position_millis::<Native, _>(Some(&s)), 0);
    s.next_sample::<Native>();
    assert_eq!(engine.position_millis::<Native, _>(Some(&s)), 5);
    assert_eq!(AudioEngine::visualizer_available_samples(Some(&s)), 1);
    assert_eq!(engine.get_state(Some(&s)), PlayerState::Idle);
    engine.set_max_queue_seconds(&mut s, 0);
    assert_eq!(AudioEngine::max_queue_seconds(Some(&s)), 1);
    AudioEngine::set_volume(&mut s, single(5.0));
    assert_eq!(float(s.volume), 4.0);
    let none: Option<&Plain> = None;
    assert_eq!(AudioEngine::buffered_samples(none), -1);
    assert_eq!(engine.buffered_millis::<Native, _>(none), -1);
    assert_eq!(AudioEngine::max_queue_seconds(none), -1);
    assert_eq!(AudioEngine::is_playing(none), -1);
    assert_eq!(engine.position_millis::<Native, _>(none), -1);
    assert_eq!(AudioEngine::visualizer_available_samples(none), -1);
    assert_eq!(float(AudioEngine::rate(none)), 1.0);
    let mut out = singles(&[9.0]);
    assert_eq!(AudioEngine::copy_visualizer_samples(none, &mut out), -1);
    assert_eq!(AudioEngine::copy_visualizer_samples(Some(&s), &mut out), 1);
    assert_eq!(float(out[0]), 0.5);
}
