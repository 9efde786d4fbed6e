//! Typed audio source.

use crate::text::{begins_with, decimal_text, joined};
use vstd::prelude::*;
use vstd::string::StringExecFns;

verus! {

/// Where the data of a track comes from.
///
/// The enum carries only the *address* of the data, not the decoded samples.
#[derive(Clone)]
pub enum AudioSource {
    /// A path to a local file (absolute or relative).
    Path(String),
    /// An HTTP/HTTPS URL, opened as a streaming connection on first use.
    Url(String),
    /// Raw bytes already loaded into memory.
    Memory(Vec<u8>),
}

impl AudioSource {
    /// The description used in logs.
    pub open spec fn described(self) -> Seq<char> {
        match self {
            AudioSource::Path(p) => "file://"@ + p@,
            AudioSource::Url(u) => u@,
            AudioSource::Memory(b) => "<memory "@ + crate::text::decimal(b@.len()) + " bytes>"@,
        }
    }

    /// Returns `true` if the source is a network URL.
    pub fn is_remote(&self) -> (r: bool)
        ensures
            r == (self is Url),
    {
        matches!(self, AudioSource::Url(_))
    }

    /// Returns a human-readable description, suitable for logging.
    pub fn description(&self) -> (r: String)
        ensures
            r@ == self.described(),
    {
        match self {
            AudioSource::Path(p) => joined("file://", p.as_str()),
            AudioSource::Url(u) => u.clone(),
            AudioSource::Memory(b) => {
                let mut r = joined("<memory ", decimal_text(b.len() as u64).as_str());
                r.append(" bytes>");
                r
            },
        }
    }

    /// Whether `path` is the URL of a network source.
    pub open spec fn names_url(path: Seq<char>) -> bool {
        "http://"@.is_prefix_of(path) || "https://"@.is_prefix_of(path)
    }

    /// The source that a path string *or* URL string names.
    pub fn locate(path: &str) -> (r: AudioSource)
        ensures
            match r {
                AudioSource::Url(u) => AudioSource::names_url(path@) && u@ == path@,
                AudioSource::Path(p) => !AudioSource::names_url(path@) && p@ == path@,
                AudioSource::Memory(_) => false,
            },
    {
        if begins_with(path, "http://") || begins_with(path, "https://") {
            AudioSource::Url(path.to_owned())
        } else {
            AudioSource::Path(path.to_owned())
        }
    }
}

} // verus!
