//! The ways in which loading a page fails.

use vstd::prelude::*;

verus! {

/// Why a request was given up. None of these is retried, and none leaves a
/// partial response behind.
#[derive(Debug, Clone, Copy, PartialEq, Eq, Structural)]
pub enum ResponseError {
    /// The URL asks for plain `http`, which is not spoken.
    UnsupportedScheme,
    /// The connection to the server could not be made or secured.
    ConnectionError,
    /// A line of the response could not be read as text.
    StreamReadError,
    /// The first line has fewer than three fields.
    MalformedStatusLine,
    /// A header line has no colon.
    MalformedHeaderLine,
    /// The body is not a well-formed sequence of chunks.
    ChunkDecodeError,
    /// The body is not a well-formed gzip stream.
    GzipDecodeError,
}

impl ResponseError {
    /// The text of the error.
    pub open spec fn spec_message(self) -> Seq<char> {
        match self {
            ResponseError::UnsupportedScheme => "no http supported"@,
            ResponseError::ConnectionError => "connection failed"@,
            ResponseError::StreamReadError => "error reading line"@,
            ResponseError::MalformedStatusLine => "malformed status line"@,
            ResponseError::MalformedHeaderLine => "malformed header line"@,
            ResponseError::ChunkDecodeError => "malformed chunked body"@,
            ResponseError::GzipDecodeError => "malformed gzip body"@,
        }
    }

    /// The text of the error.
    pub fn message(&self) -> (text: String)
        ensures
            text@ == self.spec_message(),
    {
        match self {
            ResponseError::UnsupportedScheme => "no http supported".to_owned(),
            ResponseError::ConnectionError => "connection failed".to_owned(),
            ResponseError::StreamReadError => "error reading line".to_owned(),
            ResponseError::MalformedStatusLine => "malformed status line".to_owned(),
            ResponseError::MalformedHeaderLine => "malformed header line".to_owned(),
            ResponseError::ChunkDecodeError => "malformed chunked body".to_owned(),
            ResponseError::GzipDecodeError => "malformed gzip body".to_owned(),
        }
    }
}

} // verus!
