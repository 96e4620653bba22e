//! Herdr's one-request-per-connection, newline-delimited protocol: where to connect and how a
//! response must be framed.

use vstd::prelude::*;
use crate::herdr::json::{json_document_bytes, parse_json_bytes, JsonValue};

verus! {

/// The most bytes a response may hold.
pub const MAX_RESPONSE_BYTES: u64 = 4194304;

/// One-request-per-connection transport for Herdr's newline-delimited protocol.
#[derive(Debug)]
pub struct UnixSocketTransport {
    socket_path: std::path::PathBuf,
}

impl UnixSocketTransport {
    /// A transport to the socket at `socket_path`.
    pub fn new(socket_path: std::path::PathBuf) -> (t: Self)
        ensures
            t.socket_path() == socket_path,
    {
        UnixSocketTransport { socket_path }
    }

    /// The socket this transport connects to.
    pub closed spec fn socket_path(&self) -> std::path::PathBuf {
        self.socket_path
    }

    /// The socket this transport connects to.
    pub fn path(&self) -> (p: &std::path::PathBuf)
        ensures
            *p == self.socket_path(),
    {
        &self.socket_path
    }
}

/// Why the bytes read from the socket are not a usable response.
#[derive(Debug, Clone, Copy, PartialEq, Eq, Structural)]
pub enum FrameError {
    /// The socket closed before any byte arrived.
    Closed,
    /// More than [`MAX_RESPONSE_BYTES`] arrived.
    TooLarge,
    /// The response does not end with its newline.
    Truncated,
    /// The framed bytes are not one JSON value.
    Malformed,
}

/// What a response read up to and including its first newline (or [`MAX_RESPONSE_BYTES`]
/// plus one bytes, or the end of the stream) turns out to be.
pub open spec fn frame_outcome(bytes: Seq<u8>) -> Result<JsonValue, FrameError> {
    if bytes.len() == 0 {
        Err(FrameError::Closed)
    } else if bytes.len() > MAX_RESPONSE_BYTES {
        Err(FrameError::TooLarge)
    } else if bytes.last() != 0x0a {
        Err(FrameError::Truncated)
    } else {
        match json_document_bytes(bytes) {
            Some(v) => Ok(v),
            None => Err(FrameError::Malformed),
        }
    }
}

/// Checks the framing of the bytes read for a response and parses them.
pub fn response_from_frame(bytes: &[u8]) -> (r: Result<JsonValue, FrameError>)
    ensures
        r == frame_outcome(bytes@),
{
    let len = bytes.len();
    if len == 0 {
        return Err(FrameError::Closed);
    }
    if len as u64 > MAX_RESPONSE_BYTES {
        return Err(FrameError::TooLarge);
    }
    if bytes[len - 1] != 0x0a {
        return Err(FrameError::Truncated);
    }
    match parse_json_bytes(bytes) {
        Some(v) => Ok(v),
        None => Err(FrameError::Malformed),
    }
}

impl FrameError {
    /// The text this error reads as.
    pub open spec fn text(self) -> Seq<char> {
        match self {
            FrameError::Closed => "Herdr socket closed before sending a response"@,
            FrameError::TooLarge => "Herdr response exceeded 4194304 bytes"@,
            FrameError::Truncated => "Herdr response was truncated before newline framing"@,
            FrameError::Malformed => "malformed Herdr response JSON"@,
        }
    }

    /// The error as text, as it is reported to the user.
    pub fn message(&self) -> (s: String)
        ensures
            s@ == self.text(),
    {
        match self {
            FrameError::Closed => "Herdr socket closed before sending a response".to_owned(),
            FrameError::TooLarge => "Herdr response exceeded 4194304 bytes".to_owned(),
            FrameError::Truncated => "Herdr response was truncated before newline framing".to_owned(),
            FrameError::Malformed => "malformed Herdr response JSON".to_owned(),
        }
    }
}

} // verus!
