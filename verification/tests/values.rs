use audiopc::enums::{MAX_RATE, MAX_VOLUME, MIN_RATE, VISUALIZER_FFT_SIZE, VISUALIZER_MIN_HZ};
use audiopc::error::AudioError;
use audiopc::http_stream::{HttpStream, SeekError, SeekPos};
use audiopc::ieee::{Double, Single, MINUS_ONE, ONE};
use audiopc::processor::INITIAL_LEVEL;
use audiopc::source::AudioSource;
use audiopc::text::{begins_with, decimal_text, joined, parse_decimal, same_text, signed_decimal_text};

fn single(x: f32) -> Single {
    Single { bits: x.to_bits() }
}

fn probes() -> Vec<f32> {
    let mut v = vec![
        0.0, -0.0, 1.0, -1.0, 0.5, 2.0, -2.5, 1.0e-45, -1.0e-45, 1.1754944e-38, 1.1754942e-38, f32::MAX, f32::MIN,
        f32::INFINITY, f32::NEG_INFINITY, f32::NAN, -f32::NAN,
    ];
    v.push(f32::from_bits(0x7f80_0001));
    v
}

#[test]
fn order_is_that_of_floats() {
    for a in probes() {
        for b in probes() {
            assert_eq!(single(a).lt(single(b)), a < b, "{a} < {b}");
            assert_eq!(single(a).le(single(b)), a <= b, "{a} <= {b}");
        }
        assert_eq!(single(a).is_nan(), a.is_nan());
    }
}

#[test]
fn clamp_is_that_of_floats() {
    for x in probes() {
        for (low, high) in [(-1.0f32, 1.0f32), (0.5, 2.0), (0.0, 4.0)] {
            assert_eq!(single(x).clamp(single(low), single(high)).bits, x.clamp(low, high).to_bits());
        }
    }
}

#[test]
fn integers_round_as_casts_do() {
    let mut v: u32 = 1;
    for i in 0..200_000u32 {
        v = v.wrapping_mul(1_664_525).wrapping_add(1_013_904_223);
        for x in [v, i, v >> 7, u32::MAX - i, (1 << 24) + i, (1u32 << 31) - 100 + i] {
            assert_eq!(Single::from_u32(x).bits, (x as f32).to_bits(), "{x}");
            if x > 0 {
                assert_eq!(Single::from_u32(x).half().bits, (x as f32 / 2.0).to_bits());
            }
        }
    }
}

#[test]
fn constants_have_their_values() {
    assert_eq!(f32::from_bits(MIN_RATE), 0.5);
    assert_eq!(f32::from_bits(MAX_RATE), 2.0);
    assert_eq!(f32::from_bits(MAX_VOLUME), 4.0);
    assert_eq!(f32::from_bits(ONE), 1.0);
    assert_eq!(f32::from_bits(MINUS_ONE), -1.0);
    assert_eq!(f32::from_bits(INITIAL_LEVEL), 0.08);
    assert_eq!(f32::from_bits(VISUALIZER_MIN_HZ), 35.0);
    assert!(VISUALIZER_FFT_SIZE.is_power_of_two());
}

#[test]
fn numbers_as_text() {
    for n in [0u64, 7, 10, 99, 100, 65535, u64::MAX] {
        assert_eq!(decimal_text(n), n.to_string());
        assert_eq!(parse_decimal(&n.to_string()), Some(n));
    }
    for n in [0i32, -1, 42, i32::MIN, i32::MAX] {
        assert_eq!(signed_decimal_text(n), n.to_string());
    }
    for s in ["", "+", "-", "-1", " 1", "1 ", "+5", "007", "18446744073709551616", "99999999999999999999999", "1é"] {
        assert_eq!(parse_decimal(s), s.parse::<u64>().ok(), "{s}");
    }
}

#[test]
fn text_comparisons() {
    assert!(same_text("é漢", "é漢") && !same_text("a", "ab") && !same_text("a", "b"));
    assert!(begins_with("https://x", "https://") && !begins_with("http:/", "http://"));
    assert_eq!(joined("a", "é"), "aé");
}

#[test]
fn describes_sources() {
    assert_eq!(AudioSource::Path("a.mp3".to_string()).description(), "file://a.mp3");
    assert_eq!(AudioSource::Url("http://x/y".to_string()).description(), "http://x/y");
    assert_eq!(AudioSource::Memory(vec![0u8; 120]).description(), "<memory 120 bytes>");
    assert!(AudioSource::Url("u".to_string()).is_remote());
    assert!(!AudioSource::Path("http://p".to_string()).is_remote());
    assert!(!AudioSource::Memory(Vec::new()).is_remote());
}

#[test]
fn locates_sources() {
    assert!(matches!(AudioSource::locate("http://a"), AudioSource::Url(u) if u == "http://a"));
    assert!(matches!(AudioSource::locate("https://a"), AudioSource::Url(u) if u == "https://a"));
    assert!(matches!(AudioSource::locate("HTTP://a"), AudioSource::Path(p) if p == "HTTP://a"));
    assert!(matches!(AudioSource::locate("/tmp/a"), AudioSource::Path(p) if p == "/tmp/a"));
}

#[test]
fn error_texts() {
    let s = || "x".to_string();
    let cases = [
        (AudioError::NoDevice, "No output device available"),
        (AudioError::DeviceNotFound { name: s() }, "Device not found: x"),
        (AudioError::UnsupportedFormat(s()), "Unsupported format: x"),
        (AudioError::DecodeError(s()), "Decode error: x"),
        (AudioError::Io(s()), "I/O error: x"),
        (AudioError::Network(s()), "Network error: x"),
        (AudioError::StreamConfig(s()), "Stream config error: x"),
        (AudioError::StreamBuild(s()), "Stream build error: x"),
        (AudioError::SeekNotSupported, "Seek not supported for this source"),
        (AudioError::SeekOutOfRange { pos_ms: -12 }, "Seek out of range: -12 ms"),
        (AudioError::Pipeline(s()), "Pipeline error: x"),
        (AudioError::NoSource, "No source loaded"),
        (AudioError::Poisoned, "Internal mutex poisoned"),
    ];
    for (e, text) in cases {
        assert_eq!(e.text(), text);
        assert_eq!(String::from(e), text);
    }
    let io = std::io::Error::new(std::io::ErrorKind::Other, "boom");
    assert_eq!(AudioError::from(io), AudioError::Io("boom".to_string()));
}

#[test]
fn stream_reads_and_ends() {
    let mut h = HttpStream::new(Some("100"));
    assert_eq!(h.byte_len(), Some(100));
    assert!(h.is_seekable());
    assert_eq!(h.request_before_read(), Some(0));
    h.range_opened(0);
    assert_eq!(h.request_before_read(), None);
    h.received(40);
    assert_eq!((h.pos, h.open), (40, true));
    h.received(0);
    assert_eq!((h.pos, h.request_before_read()), (40, Some(40)));
    assert_eq!(HttpStream::range_header(1234), "bytes=1234-");
    assert!(!HttpStream::new(Some("many")).is_seekable());
    assert_eq!(HttpStream::new(None).byte_len(), None);
}

#[test]
fn stream_seeks() {
    let mut h = HttpStream::new(Some("100"));
    h.range_opened(30);
    assert_eq!(h.seek(SeekPos::Start(100)), Ok(100));
    assert_eq!(h.seek(SeekPos::Start(101)), Err(SeekError::BeyondEnd));
    assert_eq!(h.seek(SeekPos::End(-10)), Ok(90));
    assert_eq!(h.seek(SeekPos::End(1)), Err(SeekError::BeyondEnd));
    assert_eq!(h.seek(SeekPos::End(-101)), Err(SeekError::Underflow));
    assert_eq!(h.seek(SeekPos::Current(-30)), Ok(0));
    assert_eq!(h.seek(SeekPos::Current(-31)), Err(SeekError::Underflow));
    let open = HttpStream { open: false, pos: u64::MAX, len: None };
    assert_eq!(open.seek(SeekPos::End(0)), Err(SeekError::NoLength));
    assert_eq!(open.seek(SeekPos::Start(u64::MAX)), Ok(u64::MAX));
    assert_eq!(open.seek(SeekPos::Current(1)), Err(SeekError::Underflow));
    assert_eq!(SeekError::Underflow.text(), "Seek underflow");
    assert_eq!(SeekError::NoLength.text(), "Seek from end not supported without content length");
    assert_eq!(SeekError::BeyondEnd.text(), "Seek beyond end of stream");
    assert!(SeekError::NoLength.is_unsupported() && !SeekError::BeyondEnd.is_unsupported());
}

#[test]
fn urls_are_parsed() {
    assert_eq!(HttpStream::url("HTTP://Example.COM/a b").unwrap(), "http://example.com/a%20b");
    assert_eq!(HttpStream::url("no url").unwrap_err(), "Invalid URL: relative URL without a base");
    assert_eq!(HttpStream::checked_url(Err("e".to_string())), Err("Invalid URL: e".to_string()));
    assert_eq!(HttpStream::checked_url(Ok("u".to_string())), Ok("u".to_string()));
}

#[test]
fn double_order_is_that_of_floats() {
    let probes = [
        f64::NEG_INFINITY, -2.5, -1.0, -f64::MIN_POSITIVE, -0.0, 0.0, f64::MIN_POSITIVE, 0.1, 1.0, 1.0e300, f64::INFINITY,
    ];
    for a in probes {
        for b in probes {
            let (x, y) = (Double { bits: a.to_bits() }, Double { bits: b.to_bits() });
            assert_eq!(x.precedes(y), a < b);
        }
    }
}

#[test]
fn reads_go_on_where_the_stream_stands() {
    let resource: Vec<u8> = (0..100).collect();
    let mut h = HttpStream::new(Some("100"));
    let mut served = 0;
    let mut read = |h: &mut HttpStream, n: usize| {
        if let Some(start) = h.request_before_read() {
            h.range_opened(start);
            served = start as usize;
        }
        let bytes = resource[served..served + n].to_vec();
        h.received(n);
        served += n;
        bytes
    };
    assert_eq!(read(&mut h, 3), [0, 1, 2]);
    assert_eq!(read(&mut h, 2), [3, 4]);
    assert!(read(&mut h, 0).is_empty());
    assert_eq!((h.pos, h.open), (5, false));
    assert_eq!(read(&mut h, 2), [5, 6]);
    assert_eq!((h.pos, h.byte_len()), (7, Some(100)));
}
