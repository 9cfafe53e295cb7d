//! Undoing the two transforms of a response body: chunked transfer framing
//! first, gzip compression second, each only where its header asks for it;
//! then reading the bytes as text.

use crate::error::ResponseError;
use crate::headers::HeaderTable;
use std::io::Read;
use vstd::prelude::*;
use vstd::utf8::{decode_utf8, valid_utf8};

verus! {

/// The payload that `chunked_transfer::Decoder` reads out of a chunked body;
/// `None` where it reports an error.
pub uninterp spec fn chunked_payload(wire: Seq<u8>) -> Option<Seq<u8>>;

/// The bytes that `flate2::read::GzDecoder` reads out of a gzip stream;
/// `None` where it reports an error.
pub uninterp spec fn gzip_payload(packed: Seq<u8>) -> Option<Seq<u8>>;

/// The text that `String::from_utf8_lossy` makes of bytes.
pub uninterp spec fn lossy_text(bytes: Seq<u8>) -> Seq<char>;

/// What `chunked_transfer::Decoder::remaining_chunks_size` reports once the
/// body was read to its end without an error: the number of bytes that the
/// chunk in which the input ended still owes; `None` where no chunk is open.
pub uninterp spec fn chunked_left(wire: Seq<u8>) -> Option<nat>;

/// Reads `wire` to its end through `chunked_transfer::Decoder` and then asks
/// the decoder for `remaining_chunks_size`. The decoder reads from the slice
/// alone, so what it yields, what it still expects, or that it fails,
/// depends on the bytes only; what was read before a failure is dropped.
#[verifier::external_body]
fn decode_chunked(wire: &[u8]) -> (read: Option<(Vec<u8>, Option<usize>)>)
    ensures
        match read {
            Some((p, left)) => chunked_payload(wire@) == Some(p@) && chunked_left(wire@) == (
            match left {
                Some(n) => Some(n as nat),
                None => None,
            }),
            None => chunked_payload(wire@) is None,
        },
{
    let mut decoder = chunked_transfer::Decoder::new(wire);
    let mut payload = Vec::new();
    match decoder.read_to_end(&mut payload) {
        Ok(_) => Some((payload, decoder.remaining_chunks_size())),
        Err(_) => None,
    }
}

/// Reads `packed` to its end through `flate2::read::GzDecoder`. The decoder
/// reads from the slice alone, so what it yields, or that it fails, depends
/// on the bytes only; what was read before a failure is dropped.
#[verifier::external_body]
fn decode_gzip(packed: &[u8]) -> (payload: Option<Vec<u8>>)
    ensures
        match payload {
            Some(p) => gzip_payload(packed@) == Some(p@),
            None => gzip_payload(packed@) is None,
        },
{
    let mut decoder = flate2::read::GzDecoder::new(packed);
    let mut payload = Vec::new();
    match decoder.read_to_end(&mut payload) {
        Ok(_) => Some(payload),
        Err(_) => None,
    }
}

/// Turns bytes into text with `String::from_utf8_lossy`: well-formed UTF-8
/// is decoded as it stands; elsewhere each malformed sequence gives way to
/// the replacement character.
#[verifier::external_body]
fn decode_lossy(bytes: &[u8]) -> (text: String)
    ensures
        text@ == lossy_text(bytes@),
        valid_utf8(bytes@) ==> text@ == decode_utf8(bytes@),
{
    String::from_utf8_lossy(bytes).into_owned()
}

/// The text of a body: the bytes read as UTF-8. Well-formed bytes are
/// decoded as they stand; elsewhere each malformed sequence gives way to the
/// replacement character.
pub open spec fn text_of(bytes: Seq<u8>) -> Seq<char> {
    if valid_utf8(bytes) {
        decode_utf8(bytes)
    } else {
        lossy_text(bytes)
    }
}

/// The headers ask for the chunked transfer framing to be undone: the table
/// holds `transfer-encoding` with exactly the value `chunked`.
pub open spec fn is_chunked(headers: Map<Seq<char>, Seq<char>>) -> bool {
    headers.contains_key("transfer-encoding"@) && headers["transfer-encoding"@] == "chunked"@
}

/// The headers ask for gzip compression to be undone: the table holds
/// `content-encoding` with exactly the value `gzip`.
pub open spec fn is_gzipped(headers: Map<Seq<char>, Seq<char>>) -> bool {
    headers.contains_key("content-encoding"@) && headers["content-encoding"@] == "gzip"@
}

/// A decoded payload, or the given failure where decoding gave none.
pub open spec fn payload_or(payload: Option<Seq<u8>>, failure: ResponseError) -> Result<
    Seq<u8>,
    ResponseError,
> {
    match payload {
        Some(p) => Ok(p),
        None => Err(failure),
    }
}

/// The payload of a chunked body that is whole: what the decoder read,
/// where it read without an error and up to the end of the last chunk.
/// `None` where the decoder failed and where the input ended inside the
/// data of a chunk: a body cut short has no payload.
pub open spec fn whole_payload(read: Option<Seq<u8>>, left: Option<nat>) -> Option<Seq<u8>> {
    match read {
        Some(p) => if left is None {
            Some(p)
        } else {
            None
        },
        None => None,
    }
}

/// The body without its chunked framing, where the headers ask for that; the
/// body as it is otherwise.
pub open spec fn dechunked(headers: Map<Seq<char>, Seq<char>>, body: Seq<u8>) -> Result<
    Seq<u8>,
    ResponseError,
> {
    if is_chunked(headers) {
        payload_or(
            whole_payload(chunked_payload(body), chunked_left(body)),
            ResponseError::ChunkDecodeError,
        )
    } else {
        Ok(body)
    }
}

/// The body decompressed, where the headers ask for that; the body as it is
/// otherwise.
pub open spec fn unzipped(headers: Map<Seq<char>, Seq<char>>, body: Seq<u8>) -> Result<
    Seq<u8>,
    ResponseError,
> {
    if is_gzipped(headers) {
        payload_or(gzip_payload(body), ResponseError::GzipDecodeError)
    } else {
        Ok(body)
    }
}

/// The body with both transforms undone: the chunked framing first, then,
/// on what that gave, the compression.
pub open spec fn decoded_body(headers: Map<Seq<char>, Seq<char>>, body: Seq<u8>) -> Result<
    Seq<u8>,
    ResponseError,
> {
    match dechunked(headers, body) {
        Ok(inner) => unzipped(headers, inner),
        Err(e) => Err(e),
    }
}

/// Where the headers ask for both transforms, the chunked framing is undone
/// on the body as received and the compression on what that gave; a
/// failure of the first is the result, and the second is then not tried.
pub proof fn lemma_chunking_undone_first(headers: Map<Seq<char>, Seq<char>>, body: Seq<u8>)
    requires
        is_chunked(headers),
        is_gzipped(headers),
    ensures
        decoded_body(headers, body) == match whole_payload(
            chunked_payload(body),
            chunked_left(body),
        ) {
            None => Err::<Seq<u8>, ResponseError>(ResponseError::ChunkDecodeError),
            Some(inner) => match gzip_payload(inner) {
                None => Err(ResponseError::GzipDecodeError),
                Some(bytes) => Ok(bytes),
            },
        },
{
}

/// `outcome` and the buffer `after` are what a decoding stage with the
/// result `wanted` makes of the buffer `before`: on success the buffer holds
/// the result; on failure it is left as it was.
pub open spec fn is_stage(
    outcome: Result<(), ResponseError>,
    after: Seq<u8>,
    before: Seq<u8>,
    wanted: Result<Seq<u8>, ResponseError>,
) -> bool {
    match wanted {
        Ok(bytes) => outcome is Ok && after == bytes,
        Err(e) => outcome == Err::<(), ResponseError>(e) && after == before,
    }
}

/// The payload of what the chunk decoder read, with the size that it still
/// expected: the bytes read where no chunk was left open, nothing where the
/// decoder failed or the input ended inside a chunk.
pub fn complete_payload(read: Option<(Vec<u8>, Option<usize>)>) -> (payload: Option<Vec<u8>>)
    ensures
        match read {
            Some((p, None)) => payload == Some(p),
            Some((_, Some(_))) => payload is None,
            None => payload is None,
        },
{
    match read {
        Some((p, None)) => Some(p),
        Some((_, Some(_))) => None,
        None => None,
    }
}

/// Puts a decoded payload in place of the buffer; where decoding gave none,
/// leaves the buffer and fails with `failure`.
pub fn replace_buffer(buffer: &mut Vec<u8>, payload: Option<Vec<u8>>, failure: ResponseError) -> (outcome:
    Result<(), ResponseError>)
    ensures
        is_stage(
            outcome,
            final(buffer)@,
            old(buffer)@,
            payload_or(
                match payload {
                    Some(p) => Some(p@),
                    None => None,
                },
                failure,
            ),
        ),
{
    match payload {
        Some(p) => {
            *buffer = p;
            Ok(())
        },
        None => Err(failure),
    }
}

/// Whether the headers ask for the chunked framing to be undone.
pub fn wants_chunk_decoding(headers: &HeaderTable) -> (wanted: bool)
    ensures
        wanted == is_chunked(headers@),
{
    headers.has("transfer-encoding", "chunked")
}

/// Whether the headers ask for gzip compression to be undone.
pub fn wants_gzip_decoding(headers: &HeaderTable) -> (wanted: bool)
    ensures
        wanted == is_gzipped(headers@),
{
    headers.has("content-encoding", "gzip")
}

/// Undoes the chunked framing of the buffer where the headers ask for it. A
/// body that the decoder refuses, or that ends inside the data of a chunk,
/// fails and leaves the buffer as it was.
pub fn handle_chunk_body(headers: &HeaderTable, buffer: &mut Vec<u8>) -> (outcome: Result<
    (),
    ResponseError,
>)
    ensures
        is_stage(outcome, final(buffer)@, old(buffer)@, dechunked(headers@, old(buffer)@)),
{
    if wants_chunk_decoding(headers) {
        let payload = complete_payload(decode_chunked(buffer.as_slice()));
        replace_buffer(buffer, payload, ResponseError::ChunkDecodeError)
    } else {
        Ok(())
    }
}

/// Undoes the gzip compression of the buffer where the headers ask for it.
pub fn handle_gzip_body(headers: &HeaderTable, buffer: &mut Vec<u8>) -> (outcome: Result<
    (),
    ResponseError,
>)
    ensures
        is_stage(outcome, final(buffer)@, old(buffer)@, unzipped(headers@, old(buffer)@)),
{
    if wants_gzip_decoding(headers) {
        let payload = decode_gzip(buffer.as_slice());
        replace_buffer(buffer, payload, ResponseError::GzipDecodeError)
    } else {
        Ok(())
    }
}

/// Undoes both transforms of a body as received: the chunked framing first,
/// the compression second.
pub fn decode_body(headers: &HeaderTable, body: Vec<u8>) -> (decoded: Result<
    Vec<u8>,
    ResponseError,
>)
    ensures
        match decoded_body(headers@, body@) {
            Ok(bytes) => decoded matches Ok(d) && d@ == bytes,
            Err(e) => decoded matches Err(f) && f == e,
        },
{
    let mut buffer = body;
    match handle_chunk_body(headers, &mut buffer) {
        Ok(_) => {},
        Err(e) => {
            return Err(e);
        },
    }
    match handle_gzip_body(headers, &mut buffer) {
        Ok(_) => {},
        Err(e) => {
            return Err(e);
        },
    }
    Ok(buffer)
}

/// The bytes of a body as text. Every byte sequence has a text: the bytes
/// are read as UTF-8 whatever the headers say of the character set.
pub fn body_text(bytes: &[u8]) -> (text: String)
    ensures
        text@ == text_of(bytes@),
{
    decode_lossy(bytes)
}

} // verus!
