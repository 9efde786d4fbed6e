//! Reading a track over HTTP by range requests.
//!
//! [`HttpStream`] keeps track of where the connection stands and decides which
//! bytes to ask for; the connection itself is held by the caller.

use crate::text::{decimal_text, joined, parse_decimal};
use vstd::prelude::*;
use vstd::string::StringExecFns;

verus! {

/// A place in a stream, as a caller names it.
#[derive(Clone, Copy, Debug, PartialEq, Eq, Structural)]
pub enum SeekPos {
    /// Counted from the start.
    Start(u64),
    /// Counted from the end.
    End(i64),
    /// Counted from the current position.
    Current(i64),
}

/// Why a seek was refused.
#[derive(Clone, Copy, Debug, PartialEq, Eq, Structural)]
pub enum SeekError {
    /// The target is not a position of 64 bits.
    Underflow,
    /// The length is unknown, so there is no end to count from.
    NoLength,
    /// The target lies behind the end.
    BeyondEnd,
}

impl SeekError {
    pub open spec fn message(self) -> Seq<char> {
        match self {
            SeekError::Underflow => "Seek underflow"@,
            SeekError::NoLength => "Seek from end not supported without content length"@,
            SeekError::BeyondEnd => "Seek beyond end of stream"@,
        }
    }

    /// The error as text.
    pub fn text(&self) -> (r: &'static str)
        ensures
            r@ == self.message(),
    {
        match self {
            SeekError::Underflow => "Seek underflow",
            SeekError::NoLength => "Seek from end not supported without content length",
            SeekError::BeyondEnd => "Seek beyond end of stream",
        }
    }

    /// Whether the request is one that the stream never serves, as opposed to
    /// one with a bad target.
    pub fn is_unsupported(&self) -> (r: bool)
        ensures
            r == (self is NoLength),
    {
        matches!(self, SeekError::NoLength)
    }
}

/// What parsing `text` as an absolute URL gives: the URL in its normal form, or
/// the text of the error.
pub uninterp spec fn url_of(text: Seq<char>) -> Result<Seq<char>, Seq<char>>;

/// `reqwest::Url::parse`, which is the parser of the `url` crate.
///
/// Claimed of it: the serialization of the URL that it gives, or the text of its
/// error, depends on the characters of its argument alone.
#[verifier::external_body]
fn parse_url(text: &str) -> (r: Result<String, String>)
    ensures
        match r {
            Ok(url) => url_of(text@) == Ok::<Seq<char>, Seq<char>>(url@),
            Err(message) => url_of(text@) == Err::<Seq<char>, Seq<char>>(message@),
        },
{
    match reqwest::Url::parse(text) {
        Ok(url) => Ok(String::from(url)),
        Err(e) => Err(e.to_string()),
    }
}

/// A stream of bytes behind a URL.
pub struct HttpStream {
    /// Whether a response is being read.
    pub open: bool,
    /// The offset of the next byte.
    pub pos: u64,
    /// The length of the stream, where the server told it.
    pub len: Option<u64>,
}

impl HttpStream {
    /// The offset that `to` names, before it is held against the end.
    pub open spec fn offset_of(self, to: SeekPos) -> Option<int> {
        match to {
            SeekPos::Start(p) => Some(p as int),
            SeekPos::End(p) => match self.len {
                Some(len) => Some(len + p),
                None => None,
            },
            SeekPos::Current(p) => Some(self.pos + p),
        }
    }

    /// The offset to ask for in order to go to `to`, or why there is none.
    pub open spec fn sought(self, to: SeekPos) -> Result<u64, SeekError> {
        match self.offset_of(to) {
            None => Err(SeekError::NoLength),
            Some(offset) => if offset < 0 || offset > u64::MAX {
                Err(SeekError::Underflow)
            } else if self.len is Some && offset > self.len->0 {
                Err(SeekError::BeyondEnd)
            } else {
                Ok(offset as u64)
            },
        }
    }

    /// The stream once the server answers the request for everything from
    /// `start` on.
    pub open spec fn opened_at(self, start: u64) -> HttpStream {
        HttpStream { open: true, pos: start, ..self }
    }

    /// The stream once a read gave `n` bytes; none at all is the end of the
    /// response.
    pub open spec fn after_read(self, n: int) -> HttpStream {
        HttpStream { open: self.open && n > 0, pos: (self.pos + n) as u64, ..self }
    }

    /// The URL to connect to for the text `url_str`, or why it is none.
    pub fn url(url_str: &str) -> (r: Result<String, String>)
        ensures
            match url_of(url_str@) {
                Ok(url) => r matches Ok(s) && s@ == url,
                Err(message) => r matches Err(e) && e@ == "Invalid URL: "@ + message,
            },
    {
        HttpStream::checked_url(parse_url(url_str))
    }

    /// The URL to connect to once a text was parsed.
    pub fn checked_url(parsed: Result<String, String>) -> (r: Result<String, String>)
        ensures
            match parsed {
                Ok(url) => r == Ok::<String, String>(url),
                Err(message) => r matches Err(e) && e@ == "Invalid URL: "@ + message@,
            },
    {
        match parsed {
            Ok(url) => Ok(url),
            Err(message) => Err(joined("Invalid URL: ", message.as_str())),
        }
    }

    /// A stream whose server answered with this `Content-Length`, if any; a
    /// value that is not a decimal number is ignored.
    pub fn new(content_length: Option<&str>) -> (r: Self)
        ensures
            !r.open,
            r.pos == 0,
            r.len == match content_length {
                Some(text) => crate::text::parsed_decimal(text@),
                None => None,
            },
    {
        let len = match content_length {
            Some(text) => parse_decimal(text),
            None => None,
        };
        HttpStream { open: false, pos: 0, len }
    }

    /// The `Range` header that asks for everything from `start` on.
    pub fn range_header(start: u64) -> (r: String)
        ensures
            r@ == "bytes="@ + crate::text::decimal(start as nat) + "-"@,
    {
        let mut r = joined("bytes=", decimal_text(start).as_str());
        r.append("-");
        r
    }

    /// The server answers the request for everything from `start` on.
    pub fn range_opened(&mut self, start: u64)
        ensures
            *final(self) == old(self).opened_at(start),
    {
        self.open = true;
        self.pos = start;
    }

    /// The offset to ask for before anything can be read, if any.
    pub open spec fn requested(self) -> Option<u64> {
        if self.open {
            None
        } else {
            Some(self.pos)
        }
    }

    /// The offset to ask for before anything can be read, if any.
    pub fn request_before_read(&self) -> (r: Option<u64>)
        ensures
            r == self.requested(),
    {
        if self.open {
            None
        } else {
            Some(self.pos)
        }
    }

    /// A read of the open response gave `n` bytes; none at all is its end.
    pub fn received(&mut self, n: usize)
        requires
            old(self).pos + n <= u64::MAX,
        ensures
            *final(self) == old(self).after_read(n as int),
    {
        if n == 0 {
            self.open = false;
        } else {
            self.pos = self.pos + n as u64;
        }
    }

    /// The offset to ask for in order to go to `to`.
    pub fn seek(&self, to: SeekPos) -> (r: Result<u64, SeekError>)
        ensures
            r == self.sought(to),
    {
        let offset: u64 = match to {
            SeekPos::Start(p) => p,
            SeekPos::End(p) => match self.len {
                Some(len) => match len.checked_add_signed(p) {
                    Some(offset) => offset,
                    None => return Err(SeekError::Underflow),
                },
                None => return Err(SeekError::NoLength),
            },
            SeekPos::Current(p) => match self.pos.checked_add_signed(p) {
                Some(offset) => offset,
                None => return Err(SeekError::Underflow),
            },
        };
        let limit: u64 = match self.len {
            Some(len) => len,
            None => u64::MAX,
        };
        if offset > limit {
            Err(SeekError::BeyondEnd)
        } else {
            Ok(offset)
        }
    }

    /// Whether the length is known, so that the stream can be sought in.
    pub fn is_seekable(&self) -> (r: bool)
        ensures
            r == (self.len is Some),
    {
        self.len.is_some()
    }

    pub fn byte_len(&self) -> (r: Option<u64>)
        ensures
            r == self.len,
    {
        self.len
    }
}

} // verus!
