//! Unified, typed error type for the entire audio library.

use crate::text::{joined, signed_decimal_text};
use vstd::prelude::*;
use vstd::string::StringExecFns;

verus! {

/// Everything that can go wrong, as a plain enum that is `Send + 'static`.
#[derive(Debug, Clone, PartialEq)]
pub enum AudioError {
    /// No output device is present on this host.
    NoDevice,
    /// A named device could not be found.
    DeviceNotFound { name: String },
    /// The audio format or codec is not supported.
    UnsupportedFormat(String),
    /// A decode/codec error occurred.
    DecodeError(String),
    /// An I/O error occurred (file open, read, write …).
    Io(String),
    /// A network/HTTP error occurred.
    Network(String),
    /// Querying the stream configurations from the device failed.
    StreamConfig(String),
    /// Building the output/input stream failed.
    StreamBuild(String),
    /// The source does not support seeking.
    SeekNotSupported,
    /// A seek target was outside the duration of the source.
    SeekOutOfRange { pos_ms: i32 },
    /// An error in the DSP/processing pipeline.
    Pipeline(String),
    /// No source has been loaded yet.
    NoSource,
    /// The engine's internal mutex was poisoned.
    Poisoned,
}

impl AudioError {
    /// The text shown for the error.
    pub open spec fn message(self) -> Seq<char> {
        match self {
            AudioError::NoDevice => "No output device available"@,
            AudioError::DeviceNotFound { name } => "Device not found: "@ + name@,
            AudioError::UnsupportedFormat(s) => "Unsupported format: "@ + s@,
            AudioError::DecodeError(s) => "Decode error: "@ + s@,
            AudioError::Io(s) => "I/O error: "@ + s@,
            AudioError::Network(s) => "Network error: "@ + s@,
            AudioError::StreamConfig(s) => "Stream config error: "@ + s@,
            AudioError::StreamBuild(s) => "Stream build error: "@ + s@,
            AudioError::SeekNotSupported => "Seek not supported for this source"@,
            AudioError::SeekOutOfRange { pos_ms } => "Seek out of range: "@ + crate::text::signed_decimal(
                pos_ms as int,
            ) + " ms"@,
            AudioError::Pipeline(s) => "Pipeline error: "@ + s@,
            AudioError::NoSource => "No source loaded"@,
            AudioError::Poisoned => "Internal mutex poisoned"@,
        }
    }

    /// The error as text.
    pub fn text(&self) -> (r: String)
        ensures
            r@ == self.message(),
    {
        match self {
            AudioError::NoDevice => "No output device available".to_owned(),
            AudioError::DeviceNotFound { name } => joined("Device not found: ", name.as_str()),
            AudioError::UnsupportedFormat(s) => joined("Unsupported format: ", s.as_str()),
            AudioError::DecodeError(s) => joined("Decode error: ", s.as_str()),
            AudioError::Io(s) => joined("I/O error: ", s.as_str()),
            AudioError::Network(s) => joined("Network error: ", s.as_str()),
            AudioError::StreamConfig(s) => joined("Stream config error: ", s.as_str()),
            AudioError::StreamBuild(s) => joined("Stream build error: ", s.as_str()),
            AudioError::SeekNotSupported => "Seek not supported for this source".to_owned(),
            AudioError::SeekOutOfRange { pos_ms } => {
                let mut r = joined("Seek out of range: ", signed_decimal_text(*pos_ms).as_str());
                r.append(" ms");
                r
            },
            AudioError::Pipeline(s) => joined("Pipeline error: ", s.as_str()),
            AudioError::NoSource => "No source loaded".to_owned(),
            AudioError::Poisoned => "Internal mutex poisoned".to_owned(),
        }
    }
}

impl vstd::std_specs::convert::FromSpecImpl<AudioError> for String {
    open spec fn obeys_from_spec() -> bool {
        false
    }

    open spec fn from_spec(e: AudioError) -> String {
        arbitrary()
    }
}

/// An `AudioError` as the `String` that the C surface logs.
impl From<AudioError> for String {
    fn from(e: AudioError) -> (r: String)
        ensures
            r@ == e.message(),
    {
        e.text()
    }
}

/// An I/O error of the standard library; opaque here.
#[verifier::external_type_specification]
#[verifier::external_body]
pub struct ExIoError(std::io::Error);

impl vstd::std_specs::convert::FromSpecImpl<std::io::Error> for AudioError {
    open spec fn obeys_from_spec() -> bool {
        false
    }

    open spec fn from_spec(e: std::io::Error) -> AudioError {
        arbitrary()
    }
}

impl From<std::io::Error> for AudioError {
    /// Keeps the error's text.
    fn from(e: std::io::Error) -> (r: AudioError)
        ensures
            r matches AudioError::Io(s) && vstd::string::to_string_from_display_ensures::<std::io::Error>(&e, s),
    {
        AudioError::Io(e.to_string())
    }
}

} // verus!
