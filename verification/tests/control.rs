use audiopc::device::{DefaultDevice, DeviceChoice, DeviceManager, DeviceWatcher, HostDevices};
use audiopc::engine::{
    default_output_channels, default_output_sample_rate, output_device_count, AudioEngine, DecodeStart, EngineAction, OutputFormat,
    SampleFormat, StreamAction, StreamEvent,
};
use audiopc::error::AudioError;
use audiopc::events::{AudioEvent, DeviceInfo};
use audiopc::ffi::{
    buffer_len, dispatch_step, metadata_reply, player_state_code, queue_seconds, revise_stream, source_path, thumbnail_reply,
    with_engine, with_engine_mut, with_engine_mut_i32, with_engine_ref, Dispatch, DispatchStep, EngineSlot,
};
use audiopc::ieee::Single;
use audiopc::player_state::{PlaybackUpdate, PlayerState};
use audiopc::source::AudioSource;
use EngineAction::{EnsureStream, StartDecode, StopDecode, TryStartDecode, Update};

fn single(x: f32) -> Single {
    Single { bits: x.to_bits() }
}

fn loaded(duration: i32) -> AudioEngine {
    let mut e = AudioEngine::new(2, 48000);
    assert_eq!(
        e.set_source(AudioSource::Path("a".to_string()), duration),
        [StopDecode, Update(PlaybackUpdate::Load)]
    );
    e
}

// ── Engine ────────────────────────────────────────────────────────────────────

#[test]
fn new_engine_is_idle() {
    let e = AudioEngine::with_device(Some("Speaker".to_string()), 2, 44100);
    assert_eq!(e.preferred_device.as_deref(), Some("Speaker"));
    assert_eq!((e.visualizer_channels(), e.visualizer_sample_rate()), (2, 44100));
    assert_eq!(e.duration_millis(), -1);
    assert!(!e.stream_started);
    assert_eq!(e.visualizer_processor.smoothed_bars.len(), 64);
}

#[test]
fn decode_thread_starts_once() {
    let mut e = AudioEngine::new(2, 48000);
    assert_eq!(
        e.start_decode_thread_if_needed(),
        Err("No source loaded. Call set_source first.".to_string())
    );
    let mut e = loaded(60_000);
    assert_eq!(e.start_decode_thread_if_needed(), Ok(Some(DecodeStart { millis: 0, update: PlaybackUpdate::BeginDecode })));
    assert_eq!(e.start_decode_thread_if_needed(), Ok(None));
    assert!(e.stop_decode_thread());
    assert!(!e.stop_decode_thread());
    // A run that has ended by itself makes room for the next.
    assert_eq!(e.start_decode_thread_if_needed(), Ok(Some(DecodeStart { millis: 0, update: PlaybackUpdate::BeginDecode })));
    e.decode_ended();
    assert_eq!(e.start_decode_thread_if_needed(), Ok(Some(DecodeStart { millis: 0, update: PlaybackUpdate::BeginDecode })));
}

/// Opens the stream and returns the result and the number of steps.
fn open(
    e: &mut AudioEngine,
    chosen: Result<SampleFormat, String>,
    built: Result<(), String>,
    started: Result<(), String>,
) -> (Result<(), String>, usize) {
    let mut event = StreamEvent::Wanted;
    let mut steps = 0;
    loop {
        steps += 1;
        event = match e.ensure_stream(event) {
            StreamAction::Choose => StreamEvent::Chosen(chosen.clone()),
            StreamAction::Build(_) => StreamEvent::Built(built.clone()),
            StreamAction::Start => StreamEvent::Started(started.clone()),
            StreamAction::Finish(result) => return (result, steps),
        };
    }
}

#[test]
fn stream_opens_step_by_step() {
    let mut e = AudioEngine::new(2, 48000);
    let fails = || Err("no".to_string());
    let i16 = || Ok(SampleFormat::I16);
    assert_eq!(open(&mut e, fails().map(|_: ()| SampleFormat::F32), Ok(()), Ok(())), (fails(), 2));
    assert_eq!(
        open(&mut e, Ok(SampleFormat::Other), Ok(()), Ok(())),
        (Err("Unsupported sample format".to_string()), 2)
    );
    assert_eq!(open(&mut e, i16(), fails(), Ok(())), (fails(), 3));
    assert_eq!(open(&mut e, i16(), Ok(()), fails()), (fails(), 4));
    assert!(!e.stream_started);
    assert_eq!(open(&mut e, i16(), Ok(()), Ok(())), (Ok(()), 4));
    assert!(e.stream_started);
    assert_eq!(open(&mut e, i16(), fails(), fails()), (Ok(()), 1));
}

#[test]
fn play_stop_and_rebuild() {
    let mut e = loaded(60_000);
    let play = Update(PlaybackUpdate::SetPlaying(true));
    assert_eq!(e.play(), [EnsureStream, StartDecode, play]);
    assert_eq!(e.set_playing(false), [Update(PlaybackUpdate::SetPlaying(false))]);
    assert_eq!(e.stop(), [Update(PlaybackUpdate::SetPlaying(false)), StopDecode, Update(PlaybackUpdate::Halt)]);
    e.stream_started = true;
    let rebuild = [StopDecode, Update(PlaybackUpdate::Interrupt), EnsureStream, StartDecode, play];
    assert_eq!(revise_stream(&mut e), rebuild);
    assert!(!e.stream_started);
    assert_eq!(e.reset_stream(), rebuild);
}

#[test]
fn failures_end_an_operation_or_not() {
    let failed = || Err("e".to_string());
    assert_eq!(EnsureStream.go_on(failed()), failed());
    assert_eq!(StartDecode.go_on(failed()), failed());
    assert_eq!(StartDecode.go_on(Ok(())), Ok(()));
    assert_eq!(TryStartDecode.go_on(failed()), Ok(()));
    assert_eq!(StopDecode.go_on(failed()), Ok(()));
    assert_eq!(Update(PlaybackUpdate::Load).go_on(failed()), Ok(()));
}

#[test]
fn seek_clamps_and_resumes() {
    let play = Update(PlaybackUpdate::SetPlaying(true));
    let at = |samples| Update(PlaybackUpdate::Restart { samples });
    let mut e = AudioEngine::new(2, 48000);
    assert!(e.seek(5, 1).is_empty());
    let mut e = loaded(60_000);
    assert_eq!(e.seek(1500, 0), [StopDecode, at(144_000), TryStartDecode, play]);
    assert_eq!(e.decode_start_millis, 1500);
    assert_eq!(e.seek(-5, 0), [StopDecode, at(0), TryStartDecode, play]);
    assert_eq!(e.seek(99_000, 0), [StopDecode, at(5_760_000)]);
    assert_eq!(e.decode_start_millis, 60_000);
    assert_eq!(e.seek(99_000, 1), [StopDecode, at(5_760_000), TryStartDecode, play]);
    // The end of a source of unknown length bounds nothing.
    let mut e = loaded(-1);
    assert_eq!(e.seek(99_000, -1), [StopDecode, at(9_504_000)]);
    assert_eq!(e.decode_start_millis, 99_000);
}

#[test]
fn rate_change_keeps_the_position() {
    let play = Update(PlaybackUpdate::SetPlaying(true));
    let rate = |x: f32| Update(PlaybackUpdate::SetRate(single(x)));
    let at = |samples| Update(PlaybackUpdate::Restart { samples });
    let mut e = loaded(60_000);
    assert_eq!(e.set_rate(single(9.0), 1, 1000), [rate(2.0), StopDecode, at(96_000), TryStartDecode, play]);
    assert_eq!(e.set_rate(single(0.1), 0, -1), [rate(0.5), StopDecode, at(0), TryStartDecode]);
    let mut e = AudioEngine::new(2, 48000);
    assert_eq!(e.set_rate(single(1.5), 1, 0), [rate(1.5), StopDecode, at(0)]);
}

#[test]
fn formats_that_can_be_written() {
    assert_eq!(AudioEngine::output_format(SampleFormat::F32), Ok(OutputFormat::F32));
    assert_eq!(AudioEngine::output_format(SampleFormat::I16), Ok(OutputFormat::I16));
    assert_eq!(AudioEngine::output_format(SampleFormat::U16), Ok(OutputFormat::U16));
    assert_eq!(AudioEngine::output_format(SampleFormat::Other), Err("Unsupported sample format".to_string()));
}

// ── Devices ───────────────────────────────────────────────────────────────────

fn host(names: &[Option<&str>], default_name: Option<&str>) -> HostDevices {
    HostDevices {
        listed: Some(names.iter().map(|n| n.map(|n| n.to_string())).collect()),
        default_device: default_name
            .map(|n| DefaultDevice { name: Some(n.to_string()), format: Some((48000, 2)) }),
    }
}

fn nothing() -> HostDevices {
    HostDevices { listed: None, default_device: None }
}

#[test]
fn lists_told_devices() {
    let m = DeviceManager::new(host(&[Some("a"), None, Some("b")], Some("b")), host(&[Some("mic")], None));
    let outs = m.output_devices();
    assert_eq!(outs.len(), 2);
    assert_eq!((outs[0].name.as_str(), outs[0].is_default), ("a", false));
    assert_eq!((outs[1].name.as_str(), outs[1].is_default), ("b", true));
    assert_eq!(m.input_devices().len(), 1);
    assert_eq!(m.default_output_format(), (48000, 2));
    assert_eq!(default_output_sample_rate(&m), 48000);
    assert_eq!(default_output_channels(&m), 2);
    assert_eq!(output_device_count(&m), 2);
    let none = DeviceManager::new(nothing(), nothing());
    assert_eq!(none.default_output_format(), (0, 0));
    assert_eq!(default_output_sample_rate(&none), -1);
    assert_eq!(default_output_channels(&none), -1);
    assert_eq!(output_device_count(&none), 0);
}

#[test]
fn resolves_devices() {
    let m = DeviceManager::new(host(&[Some("a"), None, Some("b"), Some("b")], Some("a")), host(&[Some("mic")], None));
    assert_eq!(m.resolve_output(Some("b")), Ok(DeviceChoice::Listed(2)));
    assert_eq!(m.resolve_output(None), Ok(DeviceChoice::Default));
    assert_eq!(m.resolve_output(Some("c")), Err(AudioError::DeviceNotFound { name: "c".to_string() }));
    assert_eq!(m.engine_output(Some("c")), Ok(DeviceChoice::Default));
    assert_eq!(m.engine_output(Some("b")), Ok(DeviceChoice::Listed(2)));
    assert_eq!(m.resolve_input(Some("mic")), Ok(DeviceChoice::Listed(0)));
    assert_eq!(m.resolve_input(Some("x")), Err(AudioError::NoDevice));
    let none = DeviceManager::new(nothing(), nothing());
    assert_eq!(none.resolve_output(None), Err(AudioError::NoDevice));
    assert_eq!(none.engine_output(Some("a")), Err(AudioError::NoDevice));
}

fn info(name: &str) -> DeviceInfo {
    DeviceInfo { name: name.to_string(), is_default: false }
}

#[test]
fn watcher_reports_changes() {
    let mut w = DeviceWatcher::new(&vec![info("a")], "a".to_string());
    let same = w.poll(&vec![info("a")], "a".to_string());
    assert!(same.events.is_empty() && !same.revise_stream);
    let more = w.poll(&vec![info("a"), info("b")], "a".to_string());
    assert!(matches!(&more.events[..], [AudioEvent::DeviceAdded(x)] if x.name == "b"));
    let fewer = w.poll(&vec![info("b")], "b".to_string());
    assert!(fewer.revise_stream);
    assert!(matches!(&fewer.events[..], [AudioEvent::DeviceRemoved(x), AudioEvent::DefaultDeviceChanged(d)]
        if x.name == "a" && d.name == "b" && d.is_default));
    assert!(!w.poll(&vec![info("b")], "b".to_string()).revise_stream);
    let swapped = w.poll(&vec![info("c")], "b".to_string());
    assert!(matches!(&swapped.events[..], [AudioEvent::DeviceAdded(x), AudioEvent::DeviceRemoved(y)]
        if x.name == "c" && y.name == "b"));
}

// ── C surface ─────────────────────────────────────────────────────────────────

#[test]
fn status_codes() {
    assert_eq!(with_engine(Dispatch::Done(3), 7), 3);
    assert_eq!(with_engine(Dispatch::Poisoned, 7), 7);
    assert_eq!(with_engine_mut(Dispatch::Done(Ok(()))), 0);
    assert_eq!(with_engine_mut(Dispatch::Done(Err("e".to_string()))), -1);
    assert_eq!(with_engine_mut(Dispatch::Poisoned), -500);
    assert_eq!(with_engine_mut(Dispatch::InitFailed), -501);
    assert_eq!(with_engine_mut(Dispatch::Missing), -502);
    assert_eq!(with_engine_ref(Dispatch::Done(9)), 9);
    assert_eq!(with_engine_ref(Dispatch::Missing), -502);
    assert_eq!(with_engine_ref(Dispatch::Poisoned), -500);
    assert_eq!(with_engine_mut_i32(Dispatch::Done(Ok(4))), 4);
    assert_eq!(with_engine_mut_i32(Dispatch::Done(Err("e".to_string()))), -1);
    assert_eq!(with_engine_mut_i32(Dispatch::InitFailed), -501);
    assert_eq!(player_state_code(PlayerState::Idle), 0);
    assert_eq!(player_state_code(PlayerState::Playing), 1);
    assert_eq!(player_state_code(PlayerState::Paused), 2);
    assert_eq!(player_state_code(PlayerState::Stopped), 3);
}

#[test]
fn first_call_makes_the_engine() {
    assert_eq!(dispatch_step(EngineSlot::Empty, None), DispatchStep::Create);
    assert_eq!(dispatch_step(EngineSlot::Empty, Some(false)), DispatchStep::RefuseInitFailed);
    assert_eq!(dispatch_step(EngineSlot::Empty, Some(true)), DispatchStep::RefuseMissing);
    assert_eq!(dispatch_step(EngineSlot::Filled, None), DispatchStep::Run);
    assert_eq!(dispatch_step(EngineSlot::Filled, Some(true)), DispatchStep::Run);
    assert_eq!(dispatch_step(EngineSlot::Poisoned, None), DispatchStep::RefusePoisoned);
}

#[test]
fn argument_checks() {
    assert_eq!(buffer_len(true, 4), Err(-2));
    assert_eq!(buffer_len(false, 0), Err(-2));
    assert_eq!(buffer_len(false, 4), Ok(4));
    assert_eq!(queue_seconds(0), Err(-2));
    assert_eq!(queue_seconds(5), Ok(5));
    assert_eq!(source_path(None, true), Err(-2));
    assert_eq!(source_path(Some("a".to_string()), false), Err(-1));
    assert_eq!(source_path(Some("a".to_string()), true), Ok("a".to_string()));
}

#[test]
fn replies_fit_their_buffers() {
    let r = metadata_reply(Ok("{é}".to_string()), 5);
    assert_eq!((r.code, r.bytes), (4, vec![0x7b, 0xc3, 0xa9, 0x7d, 0]));
    assert_eq!(metadata_reply(Ok("{é}".to_string()), 4).code, -2);
    assert_eq!(metadata_reply(Ok(String::new()), 4).code, -2);
    assert_eq!(metadata_reply(Err("e".to_string()), 4).code, -1);
    let r = thumbnail_reply(Ok(vec![1, 2, 3]), 2);
    assert_eq!((r.code, r.bytes), (2, vec![1, 2]));
    let r = thumbnail_reply(Ok(vec![1, 2, 3]), 9);
    assert_eq!((r.code, r.bytes), (3, vec![1, 2, 3]));
    assert_eq!(thumbnail_reply(Ok(Vec::new()), 9).code, 0);
    assert_eq!(thumbnail_reply(Err("e".to_string()), 9).code, -1);
}
