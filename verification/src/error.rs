//! The library's error type.

use vstd::prelude::*;
use vstd::string::*;

verus! {

/// Every failure the signaling core can report, each carrying a
/// human-readable detail string.
#[derive(Debug, Clone)]
pub enum Error {
    WebRTCError(String),
    WebSocketError(String),
    ConnectionError(String),
    SerializationError(String),
    InvalidMessage(String),
    Room(String),
    Peer(String),
    Media(String),
    IO(String),
    Turn(String),
    AddrParse(String),
    WarpError(String),
}

/// The prefixed form a display implementation would print.
pub open spec fn spec_message(e: &Error) -> Seq<char> {
    match e {
        Error::WebRTCError(m) => "WebRTC error: "@ + m@,
        Error::WebSocketError(m) => "WebSocket error: "@ + m@,
        Error::ConnectionError(m) => "Connection error: "@ + m@,
        Error::SerializationError(m) => "Serialization error: "@ + m@,
        Error::InvalidMessage(m) => "Invalid message: "@ + m@,
        Error::Room(m) => "Room error: "@ + m@,
        Error::Peer(m) => "Peer error: "@ + m@,
        Error::Media(m) => "Media error: "@ + m@,
        Error::IO(m) => "IO error: "@ + m@,
        Error::Turn(m) => "TURN error: "@ + m@,
        Error::AddrParse(m) => "Address parse error: "@ + m@,
        Error::WarpError(m) => "Warp error: "@ + m@,
    }
}

impl Error {
    /// The kind prefix followed by the detail string.
    pub fn message(&self) -> (r: String)
        ensures
            r@ == spec_message(self),
    {
        let (prefix, detail): (&str, &String) = match self {
            Error::WebRTCError(m) => ("WebRTC error: ", m),
            Error::WebSocketError(m) => ("WebSocket error: ", m),
            Error::ConnectionError(m) => ("Connection error: ", m),
            Error::SerializationError(m) => ("Serialization error: ", m),
            Error::InvalidMessage(m) => ("Invalid message: ", m),
            Error::Room(m) => ("Room error: ", m),
            Error::Peer(m) => ("Peer error: ", m),
            Error::Media(m) => ("Media error: ", m),
            Error::IO(m) => ("IO error: ", m),
            Error::Turn(m) => ("TURN error: ", m),
            Error::AddrParse(m) => ("Address parse error: ", m),
            Error::WarpError(m) => ("Warp error: ", m),
        };
        let mut r = String::from_str(prefix);
        r.append(detail.as_str());
        r
    }
}

/// The result type of the signaling core.
pub type Result<T> = core::result::Result<T, Error>;

} // verus!
