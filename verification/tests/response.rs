use browser_core::body::{
    body_text, complete_payload, decode_body, handle_chunk_body, handle_gzip_body,
    replace_buffer, wants_chunk_decoding, wants_gzip_decoding,
};
use browser_core::error::ResponseError;
use browser_core::headers::{parse_header_line, parse_response_headers, HeaderTable};
use browser_core::response::{assemble_response, read_response};
use browser_core::status::{parse_response_status, parse_status_line};
use browser_core::stream::ByteStream;
use std::io::Write;

fn gzip(data: &[u8]) -> Vec<u8> {
    let mut encoder = flate2::write::GzEncoder::new(Vec::new(), flate2::Compression::default());
    encoder.write_all(data).unwrap();
    encoder.finish().unwrap()
}

fn chunk(data: &[u8], size: usize) -> Vec<u8> {
    let mut out = Vec::new();
    {
        let mut encoder = chunked_transfer::Encoder::with_chunks_size(&mut out, size);
        encoder.write_all(data).unwrap();
    }
    out
}

fn table(entries: &[(&str, &str)]) -> HeaderTable {
    let mut headers = HeaderTable::new();
    for (name, value) in entries {
        headers.insert(name.to_string(), value.to_string());
    }
    headers
}

fn response(head: &str, body: &[u8]) -> Vec<u8> {
    let mut raw = head.as_bytes().to_vec();
    raw.extend_from_slice(body);
    raw
}

fn failure(raw: Vec<u8>) -> ResponseError {
    match read_response(raw) {
        Ok(_) => panic!("the response was accepted"),
        Err(e) => e,
    }
}

#[test]
fn plain_body_is_kept() {
    let raw = b"HTTP/1.1 200 OK\r\ncontent-length: 5\r\n\r\nHello".to_vec();
    let (status, response) = read_response(raw).unwrap();
    assert_eq!(status.version, "HTTP/1.1");
    assert_eq!(status.status, "200");
    assert_eq!(status.reason, "OK");
    assert_eq!(response.body, "Hello");
    assert_eq!(response.headers.len(), 1);
    assert_eq!(response.headers.get("content-length").map(|v| v.as_str()), Some("5"));
}

#[test]
fn chunked_body_is_decoded() {
    let headers = table(&[("transfer-encoding", "chunked")]);
    let mut buffer = b"5\r\nHello\r\n0\r\n\r\n".to_vec();
    assert_eq!(handle_chunk_body(&headers, &mut buffer), Ok(()));
    assert_eq!(buffer, b"Hello");

    let raw = response(
        "HTTP/1.1 200 OK\r\nTransfer-Encoding: chunked\r\n\r\n",
        b"5\r\nHello\r\n0\r\n\r\n",
    );
    let (_, response) = read_response(raw).unwrap();
    assert_eq!(response.body, "Hello");
}

#[test]
fn gzip_body_is_decoded() {
    let packed = gzip(b"Hello");
    assert_ne!(packed, b"Hello");
    let headers = table(&[("content-encoding", "gzip")]);
    let mut buffer = packed.clone();
    assert_eq!(handle_gzip_body(&headers, &mut buffer), Ok(()));
    assert_eq!(buffer, b"Hello");

    let raw = response("HTTP/1.1 200 OK\r\nContent-Encoding: gzip\r\n\r\n", &packed);
    let (_, response) = read_response(raw).unwrap();
    assert_eq!(response.body, "Hello");
}

#[test]
fn header_line_without_colon_fails() {
    let raw = b"HTTP/1.1 200 OK\r\ncontent-length 5\r\n\r\nHello".to_vec();
    assert_eq!(failure(raw), ResponseError::MalformedHeaderLine);
    assert_eq!(
        parse_header_line("content-length 5\r\n").unwrap_err(),
        ResponseError::MalformedHeaderLine
    );
}

#[test]
fn early_end_of_stream_ends_the_body() {
    let raw = b"HTTP/1.1 200 OK\r\nserver: test\r\n\r\nHel".to_vec();
    let (_, response) = read_response(raw).unwrap();
    assert_eq!(response.body, "Hel");

    let raw = b"HTTP/1.1 200 OK\r\ncontent-length: 5\r\n\r\nHel".to_vec();
    let (_, response) = read_response(raw).unwrap();
    assert_eq!(response.body, "Hel");
}

#[test]
fn empty_body_is_accepted() {
    let raw = b"HTTP/1.1 204 No Content\r\n\r\n".to_vec();
    let (status, response) = read_response(raw).unwrap();
    assert_eq!(status.reason, "No Content");
    assert_eq!(response.body, "");
    assert_eq!(response.headers.len(), 0);
}

#[test]
fn chunking_is_undone_before_compression() {
    let text = b"Hello, chunked and compressed world!".repeat(20);
    let wire = chunk(&gzip(&text), 16);
    let headers = table(&[("transfer-encoding", "chunked"), ("content-encoding", "gzip")]);
    assert_eq!(decode_body(&headers, wire.clone()).unwrap(), text);

    let raw = response(
        "HTTP/1.1 200 OK\r\nTransfer-Encoding: chunked\r\nContent-Encoding: gzip\r\n\r\n",
        &wire,
    );
    let (_, response) = read_response(raw).unwrap();
    assert_eq!(response.body.as_bytes(), &text[..]);
}

#[test]
fn the_reverse_order_does_not_decode() {
    let text = b"Hello, chunked and compressed world!".repeat(20);
    let wire = chunk(&gzip(&text), 16);
    let only_gzip = table(&[("content-encoding", "gzip")]);
    let only_chunked = table(&[("transfer-encoding", "chunked")]);

    let mut buffer = wire.clone();
    let unzipped_first = handle_gzip_body(&only_gzip, &mut buffer);
    let reversed = match unzipped_first {
        Err(e) => Err(e),
        Ok(()) => handle_chunk_body(&only_chunked, &mut buffer).map(|_| buffer.clone()),
    };
    assert_ne!(reversed, Ok(text));
    assert_eq!(unzipped_first, Err(ResponseError::GzipDecodeError));
}

#[test]
fn chunk_encoding_round_trips() {
    let headers = table(&[("transfer-encoding", "chunked")]);
    let all_bytes: Vec<u8> = (0..=255u8).collect();
    let long: Vec<u8> = (0..20000u32).map(|i| (i * 7 % 251) as u8).collect();
    let inputs: Vec<&[u8]> = vec![b"", b"a", b"Hello", b"0\r\n\r\n", &all_bytes, &long];
    for data in inputs {
        for size in [1usize, 5, 8192] {
            let mut buffer = chunk(data, size);
            assert_eq!(handle_chunk_body(&headers, &mut buffer), Ok(()));
            assert_eq!(buffer, data);
        }
    }
}

#[test]
fn gzip_round_trips() {
    let headers = table(&[("content-encoding", "gzip")]);
    let all_bytes: Vec<u8> = (0..=255u8).collect();
    let long: Vec<u8> = (0..20000u32).map(|i| (i * 7 % 251) as u8).collect();
    let inputs: Vec<&[u8]> = vec![b"", b"a", b"Hello", &all_bytes, &long];
    for data in inputs {
        let mut buffer = gzip(data);
        assert_eq!(handle_gzip_body(&headers, &mut buffer), Ok(()));
        assert_eq!(buffer, data);
    }
}

#[test]
fn stages_without_their_header_change_nothing() {
    let headers = table(&[("content-length", "5")]);
    let mut buffer = b"5\r\nHello\r\n0\r\n\r\n".to_vec();
    assert_eq!(handle_chunk_body(&headers, &mut buffer), Ok(()));
    assert_eq!(buffer, b"5\r\nHello\r\n0\r\n\r\n");
    assert_eq!(handle_gzip_body(&headers, &mut buffer), Ok(()));
    assert_eq!(buffer, b"5\r\nHello\r\n0\r\n\r\n");
    assert_eq!(decode_body(&headers, b"zz".to_vec()).unwrap(), b"zz");
}

#[test]
fn only_the_exact_values_ask_for_decoding() {
    assert!(wants_chunk_decoding(&table(&[("transfer-encoding", "chunked")])));
    assert!(!wants_chunk_decoding(&table(&[("transfer-encoding", "Chunked")])));
    assert!(!wants_chunk_decoding(&table(&[("transfer-encoding", "gzip, chunked")])));
    assert!(!wants_chunk_decoding(&table(&[("Transfer-Encoding", "chunked")])));
    assert!(!wants_chunk_decoding(&table(&[("content-encoding", "chunked")])));
    assert!(!wants_chunk_decoding(&table(&[])));
    assert!(wants_gzip_decoding(&table(&[("content-encoding", "gzip")])));
    assert!(!wants_gzip_decoding(&table(&[("content-encoding", "GZIP")])));
    assert!(!wants_gzip_decoding(&table(&[("content-encoding", "br")])));
    assert!(!wants_gzip_decoding(&table(&[("transfer-encoding", "gzip")])));

    let raw = response(
        "HTTP/1.1 200 OK\r\nTransfer-Encoding: Chunked\r\n\r\n",
        b"5\r\nHello\r\n0\r\n\r\n",
    );
    let (_, response) = read_response(raw).unwrap();
    assert_eq!(response.body, "5\r\nHello\r\n0\r\n\r\n");
}

#[test]
fn malformed_chunks_fail() {
    let headers = table(&[("transfer-encoding", "chunked")]);
    let mut buffer = b"zz\r\nHello\r\n0\r\n\r\n".to_vec();
    assert_eq!(handle_chunk_body(&headers, &mut buffer), Err(ResponseError::ChunkDecodeError));
    assert_eq!(buffer, b"zz\r\nHello\r\n0\r\n\r\n");

    let mut buffer = b"2\r\nHello\r\n0\r\n\r\n".to_vec();
    assert_eq!(handle_chunk_body(&headers, &mut buffer), Err(ResponseError::ChunkDecodeError));

    let mut buffer = Vec::new();
    assert_eq!(handle_chunk_body(&headers, &mut buffer), Err(ResponseError::ChunkDecodeError));

    let raw = response("HTTP/1.1 200 OK\r\ntransfer-encoding: chunked\r\n\r\n", b"5\rHello");
    assert_eq!(failure(raw), ResponseError::ChunkDecodeError);
}

#[test]
fn chunk_data_that_ends_early_fails() {
    let headers = table(&[("transfer-encoding", "chunked")]);
    let mut buffer = b"5\r\nHel".to_vec();
    assert_eq!(handle_chunk_body(&headers, &mut buffer), Err(ResponseError::ChunkDecodeError));
    assert_eq!(buffer, b"5\r\nHel");

    for cut in [
        &b"5\r\n"[..],
        b"5\r\nHell",
        b"5\r\nHello",
        b"5\r\nHello\r",
        b"5\r\nHello\r\n",
        b"5\r\nHello\r\n0",
        b"5\r\nHello\r\n0\r\n",
        b"5\r\nHello\r\n0\r\n\r",
        b"5\r\nHello\r\n3\r\nab",
        b"ffffffff\r\nHello",
    ] {
        let mut buffer = cut.to_vec();
        assert_eq!(
            handle_chunk_body(&headers, &mut buffer),
            Err(ResponseError::ChunkDecodeError),
            "{:?}",
            cut
        );
        assert_eq!(buffer, cut);
    }

    let long: Vec<u8> = (0..20000u32).map(|i| (i % 251) as u8).collect();
    let whole = chunk(&long, 8192);
    for end in [10usize, 100, 8191, 8200, 12000, whole.len() - 8, whole.len() - 1] {
        let mut buffer = whole[..end].to_vec();
        assert_eq!(
            handle_chunk_body(&headers, &mut buffer),
            Err(ResponseError::ChunkDecodeError),
            "cut at {}",
            end
        );
    }

    assert_eq!(
        decode_body(&headers, b"5\r\nHel".to_vec()),
        Err(ResponseError::ChunkDecodeError)
    );
    let raw = response("HTTP/1.1 200 OK\r\ntransfer-encoding: chunked\r\n\r\n", b"5\r\nHel");
    assert_eq!(failure(raw), ResponseError::ChunkDecodeError);
}

#[test]
fn only_a_payload_read_to_the_end_of_its_chunk_is_complete() {
    assert_eq!(complete_payload(Some((b"Hello".to_vec(), None))), Some(b"Hello".to_vec()));
    assert_eq!(complete_payload(Some((Vec::new(), None))), Some(Vec::new()));
    assert_eq!(complete_payload(Some((b"Hel".to_vec(), Some(2)))), None);
    assert_eq!(complete_payload(Some((b"Hello".to_vec(), Some(0)))), None);
    assert_eq!(complete_payload(None), None);
}

#[test]
fn ascii_header_names_are_stored_in_small_letters() {
    let all: String = (0u8..128).filter(|b| *b != b':').map(|b| b as char).collect();
    let line = format!("{}: v\r\n", all);
    let (name, value) = parse_header_line(&line).unwrap();
    assert_eq!(name, all.to_ascii_lowercase());
    assert_eq!(value, "v");

    let raw = response(
        "HTTP/1.1 200 OK\r\nTRANSFER-ENCODING: chunked\r\n\r\n",
        b"5\r\nHello\r\n0\r\n\r\n",
    );
    let (_, response) = read_response(raw).unwrap();
    assert!(response.headers.has("transfer-encoding", "chunked"));
    assert_eq!(response.body, "Hello");
}

#[test]
fn malformed_gzip_fails() {
    let headers = table(&[("content-encoding", "gzip")]);
    let mut buffer = b"Hello".to_vec();
    assert_eq!(handle_gzip_body(&headers, &mut buffer), Err(ResponseError::GzipDecodeError));
    assert_eq!(buffer, b"Hello");

    let packed = gzip(b"Hello, a body that is cut short");
    let mut buffer = packed[..packed.len() - 6].to_vec();
    assert_eq!(handle_gzip_body(&headers, &mut buffer), Err(ResponseError::GzipDecodeError));

    let raw = response("HTTP/1.1 200 OK\r\ncontent-encoding: gzip\r\n\r\n", b"not gzip");
    assert_eq!(failure(raw), ResponseError::GzipDecodeError);
}

#[test]
fn replace_buffer_installs_or_fails() {
    let mut buffer = vec![1u8, 2];
    assert_eq!(
        replace_buffer(&mut buffer, Some(vec![3u8]), ResponseError::ChunkDecodeError),
        Ok(())
    );
    assert_eq!(buffer, vec![3u8]);
    assert_eq!(
        replace_buffer(&mut buffer, None, ResponseError::GzipDecodeError),
        Err(ResponseError::GzipDecodeError)
    );
    assert_eq!(buffer, vec![3u8]);
}

#[test]
fn body_bytes_are_read_as_utf8_whatever_the_charset() {
    assert_eq!(body_text(b"Hello"), "Hello");
    assert_eq!(body_text("gr\u{fc}n".as_bytes()), "gr\u{fc}n");
    assert_eq!(body_text(b"gr\xfcn"), "gr\u{fffd}n");
    assert_eq!(body_text(b""), "");

    let raw = response(
        "HTTP/1.1 200 OK\r\ncontent-type: text/html; charset=ISO-8859-1\r\n\r\n",
        b"gr\xfcn",
    );
    let (_, response) = read_response(raw).unwrap();
    assert_eq!(response.body, "gr\u{fffd}n");
}

#[test]
fn status_line_keeps_spaces_in_the_reason() {
    let status = parse_status_line("HTTP/1.1 404 Not Found At  All\r\n").unwrap();
    assert_eq!(status.version, "HTTP/1.1");
    assert_eq!(status.status, "404");
    assert_eq!(status.reason, "Not Found At  All");
    assert_eq!(
        status.report(),
        "version: HTTP/1.1, status: 404, explanation: Not Found At  All"
    );

    let status = parse_status_line("HTTP/1.1 404 Not Found\r\n").unwrap();
    assert_eq!(status.version, "HTTP/1.1");
    assert_eq!(status.status, "404");
    assert_eq!(status.reason, "Not Found");

    let status = parse_status_line("a  b").unwrap();
    assert_eq!(status.version, "a");
    assert_eq!(status.status, "");
    assert_eq!(status.reason, "b");

    let status = parse_status_line("a b ").unwrap();
    assert_eq!(status.reason, "");
}

#[test]
fn status_reason_ends_before_the_line_end() {
    for (line, reason) in [
        ("HTTP/1.1 200 OK\r\n", "OK"),
        ("HTTP/1.1 200 OK", "OK"),
        ("HTTP/1.1 200 \r\n", ""),
        ("HTTP/1.1 200 OK \r\n", "OK "),
        ("HTTP/1.1 200 OK\r", "OK\r"),
        ("HTTP/1.1 200 OK\n", "OK\n"),
        ("HTTP/1.1 200 OK\n\r", "OK\n\r"),
        ("HTTP/1.1 200 OK\r\n\r\n", "OK\r\n"),
        ("HTTP/1.1 200 O\r\nK", "O\r\nK"),
    ] {
        let status = parse_status_line(line).unwrap();
        assert_eq!(status.version, "HTTP/1.1", "{:?}", line);
        assert_eq!(status.status, "200", "{:?}", line);
        assert_eq!(status.reason, reason, "{:?}", line);
    }

    let mut reader = ByteStream::new(b"HTTP/1.1 301 Moved Permanently\r\nrest".to_vec());
    let status = parse_response_status(&mut reader).unwrap();
    assert_eq!(status.reason, "Moved Permanently");
    assert_eq!(reader.read_to_end(), b"rest");

    let mut reader = ByteStream::new(b"HTTP/1.1 200 OK\rstill the line".to_vec());
    let status = parse_response_status(&mut reader).unwrap();
    assert_eq!(status.reason, "OK\rstill the line");
}

#[test]
fn status_line_with_fewer_than_three_fields_fails() {
    for line in ["", "\r\n", "HTTP/1.1\r\n", "HTTP/1.1 200\r\n", "HTTP/1.1 200"] {
        assert_eq!(parse_status_line(line).unwrap_err(), ResponseError::MalformedStatusLine);
    }
    assert_eq!(failure(b"HTTP/1.1 200\r\n\r\n".to_vec()), ResponseError::MalformedStatusLine);
    assert_eq!(failure(Vec::new()), ResponseError::MalformedStatusLine);
}

#[test]
fn lines_that_are_not_text_fail() {
    assert_eq!(failure(b"HTTP/1.1 200 \xff\r\n\r\n".to_vec()), ResponseError::StreamReadError);
    assert_eq!(
        failure(b"HTTP/1.1 200 OK\r\nname: \xc3\r\n\r\n".to_vec()),
        ResponseError::StreamReadError
    );
    let mut reader = ByteStream::new(b"\xff\xfe 1 2\r\nrest".to_vec());
    assert_eq!(
        parse_response_status(&mut reader).unwrap_err(),
        ResponseError::StreamReadError
    );
    assert_eq!(reader.read_to_end(), b"rest");
}

#[test]
fn header_names_are_lower_cased_and_values_trimmed() {
    let (name, value) = parse_header_line("Content-Type:  text/html; charset=UTF-8 \r\n").unwrap();
    assert_eq!(name, "content-type");
    assert_eq!(value, "text/html; charset=UTF-8");

    let (name, value) = parse_header_line("Location:http://example.org:80/\r\n").unwrap();
    assert_eq!(name, "location");
    assert_eq!(value, "http://example.org:80/");

    let (name, value) = parse_header_line(" X-Odd \u{c4}:\r\n").unwrap();
    assert_eq!(name, " x-odd \u{e4}");
    assert_eq!(value, "");

    let (name, value) = parse_header_line(":\u{a0}\u{3000}v\u{2003}\t").unwrap();
    assert_eq!(name, "");
    assert_eq!(value, "v");
}

#[test]
fn header_block_declares_its_keys_and_the_last_value_wins() {
    let block = b"Set-Cookie: a=1\r\nServer: one\r\nSET-COOKIE: b=2\r\nserver:two\r\n\r\nbody";
    let mut reader = ByteStream::new(block.to_vec());
    let headers = parse_response_headers(&mut reader).unwrap();
    assert_eq!(headers.len(), 2);
    assert_eq!(headers.get("set-cookie").map(|v| v.as_str()), Some("b=2"));
    assert_eq!(headers.get("server").map(|v| v.as_str()), Some("two"));
    assert!(headers.contains_key("server"));
    assert!(!headers.contains_key("Server"));
    assert!(!headers.contains_key("content-length"));
    assert_eq!(headers.get("content-length"), None);
    assert!(headers.has("server", "two"));
    assert!(!headers.has("server", "one"));
    assert!(!headers.has("date", ""));
    assert_eq!(reader.read_to_end(), b"body");
}

#[test]
fn header_block_must_end_with_an_empty_line() {
    let mut reader = ByteStream::new(b"a: 1\r\nb: 2\r\n".to_vec());
    assert_eq!(
        parse_response_headers(&mut reader).unwrap_err(),
        ResponseError::MalformedHeaderLine
    );
    let mut reader = ByteStream::new(Vec::new());
    assert_eq!(
        parse_response_headers(&mut reader).unwrap_err(),
        ResponseError::MalformedHeaderLine
    );
    let mut reader = ByteStream::new(b"a: 1\r\n\n".to_vec());
    assert_eq!(
        parse_response_headers(&mut reader).unwrap_err(),
        ResponseError::MalformedHeaderLine
    );
}

#[test]
fn a_line_ends_with_carriage_return_and_line_feed_only() {
    let mut reader = ByteStream::new(b"a: 1\nb: 2\r\n\r\nrest".to_vec());
    let headers = parse_response_headers(&mut reader).unwrap();
    assert_eq!(headers.len(), 1);
    assert_eq!(headers.get("a").map(|v| v.as_str()), Some("1\nb: 2"));
    assert_eq!(reader.read_to_end(), b"rest");
}

#[test]
fn stream_reads_lines_and_the_rest() {
    let mut reader = ByteStream::new(b"one\r\n\r\ntwo\rthree\nfour".to_vec());
    assert_eq!(reader.read_line().unwrap(), "one\r\n");
    assert_eq!(reader.read_line().unwrap(), "\r\n");
    assert_eq!(reader.read_line().unwrap(), "two\rthree\nfour");
    assert_eq!(reader.read_line().unwrap(), "");
    assert_eq!(reader.read_to_end(), b"");

    let mut reader = ByteStream::new(b"a\r\nb\r".to_vec());
    assert_eq!(reader.read_line().unwrap(), "a\r\n");
    assert_eq!(reader.read_to_end(), b"b\r");
    assert_eq!(reader.read_to_end(), b"");
    assert_eq!(reader.read_line().unwrap(), "");
}

#[test]
fn header_table_overwrites_by_name() {
    let mut headers = HeaderTable::new();
    assert_eq!(headers.len(), 0);
    headers.insert("a".to_string(), "1".to_string());
    headers.insert("b".to_string(), "2".to_string());
    headers.insert("a".to_string(), "3".to_string());
    headers.insert("".to_string(), "".to_string());
    assert_eq!(headers.len(), 3);
    assert_eq!(headers.get("a").map(|v| v.as_str()), Some("3"));
    assert_eq!(headers.get("b").map(|v| v.as_str()), Some("2"));
    assert_eq!(headers.get("").map(|v| v.as_str()), Some(""));
    assert_eq!(headers.get("c"), None);
}

#[test]
fn response_is_assembled_after_the_status_line() {
    let mut reader = ByteStream::new(b"HTTP/1.0 200 OK\r\nA: b\r\n\r\nbody\r\nmore".to_vec());
    let status = parse_response_status(&mut reader).unwrap();
    assert_eq!(status.version, "HTTP/1.0");
    let response = assemble_response(&mut reader).unwrap();
    assert_eq!(response.headers.get("a").map(|v| v.as_str()), Some("b"));
    assert_eq!(response.body, "body\r\nmore");
}

#[test]
fn error_messages() {
    assert_eq!(ResponseError::UnsupportedScheme.message(), "no http supported");
    assert_eq!(ResponseError::ConnectionError.message(), "connection failed");
    assert_eq!(ResponseError::StreamReadError.message(), "error reading line");
    assert_eq!(ResponseError::MalformedStatusLine.message(), "malformed status line");
    assert_eq!(ResponseError::MalformedHeaderLine.message(), "malformed header line");
    assert_eq!(ResponseError::ChunkDecodeError.message(), "malformed chunked body");
    assert_eq!(ResponseError::GzipDecodeError.message(), "malformed gzip body");
}
