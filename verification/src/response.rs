//! Assembling a response from the bytes that the server sent.

use crate::body::{body_text, decode_body, decoded_body, text_of};
use crate::error::ResponseError;
use crate::headers::{header_block, parse_response_headers, HeaderTable};
use crate::status::{parse_response_status, status_fields, StatusLine};
use crate::stream::{after_line, line_text, ByteStream};
use vstd::prelude::*;

verus! {

/// A response: its headers and the text of its body.
#[derive(Debug)]
pub struct Response {
    pub headers: HeaderTable,
    pub body: String,
}

/// The headers and the body text that the bytes of a header block and a
/// body give: the header lines are read into a table, all bytes that follow
/// them are the body as received, the body is decoded as the headers ask,
/// and what that gives is read as text.
pub open spec fn assembled(unread: Seq<u8>) -> Result<
    (Map<Seq<char>, Seq<char>>, Seq<char>),
    ResponseError,
> {
    match header_block(unread, Map::empty()) {
        Err(e) => Err(e),
        Ok((headers, body)) => match decoded_body(headers, body) {
            Err(e) => Err(e),
            Ok(bytes) => Ok((headers, text_of(bytes))),
        },
    }
}

/// The status fields, the headers and the body text that the bytes of a
/// whole response give. The first failure on the way is the result.
pub open spec fn response_of(raw: Seq<u8>) -> Result<
    ((Seq<char>, Seq<char>, Seq<char>), Map<Seq<char>, Seq<char>>, Seq<char>),
    ResponseError,
> {
    match line_text(raw) {
        None => Err(ResponseError::StreamReadError),
        Some(line) => match status_fields(line) {
            None => Err(ResponseError::MalformedStatusLine),
            Some(fields) => match assembled(after_line(raw)) {
                Err(e) => Err(e),
                Ok((headers, body)) => Ok((fields, headers, body)),
            },
        },
    }
}

/// Reads headers and body from a stream that stands after the status line.
/// The body is all that the stream still holds: the end of the stream ends
/// the body, whatever length the headers announce.
pub fn assemble_response(reader: &mut ByteStream) -> (response: Result<Response, ResponseError>)
    ensures
        match assembled(old(reader)@) {
            Ok((headers, body)) => response matches Ok(r) && r.headers@ == headers && r.body@
                == body,
            Err(e) => response matches Err(f) && f == e,
        },
{
    let headers = match parse_response_headers(reader) {
        Ok(headers) => headers,
        Err(e) => {
            return Err(e);
        },
    };
    let received = reader.read_to_end();
    let decoded = match decode_body(&headers, received) {
        Ok(decoded) => decoded,
        Err(e) => {
            return Err(e);
        },
    };
    let body = body_text(decoded.as_slice());
    Ok(Response { headers, body })
}

/// Reads a whole response from the bytes that the server sent: the status
/// line, the headers, then the body.
pub fn read_response(raw: Vec<u8>) -> (response: Result<(StatusLine, Response), ResponseError>)
    ensures
        match response_of(raw@) {
            Ok((fields, headers, body)) => {
                &&& response matches Ok((status, r))
                &&& status.version@ == fields.0
                &&& status.status@ == fields.1
                &&& status.reason@ == fields.2
                &&& r.headers@ == headers
                &&& r.body@ == body
            },
            Err(e) => response matches Err(f) && f == e,
        },
{
    let mut reader = ByteStream::new(raw);
    let status = match parse_response_status(&mut reader) {
        Ok(status) => status,
        Err(e) => {
            return Err(e);
        },
    };
    match assemble_response(&mut reader) {
        Ok(response) => Ok((status, response)),
        Err(e) => Err(e),
    }
}

} // verus!
