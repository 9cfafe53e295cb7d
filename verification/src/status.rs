//! The first line of a response: protocol version, status code and reason.

use crate::error::ResponseError;
use crate::stream::{after_line, crlf, lemma_line_in_front, line_text, ByteStream};
use crate::text::{
    append_chars, chars_of, copy_range, find, find_from, has_prefix, lemma_find_is, string_of,
    strip_suffix, without_suffix,
};
use vstd::prelude::*;
use vstd::utf8::{decode_utf8, valid_utf8};

verus! {

/// The three fields of a status line. The reason holds all that follows the
/// second space, further spaces included, without the line end that closes
/// the line.
#[derive(Debug)]
pub struct StatusLine {
    pub version: String,
    pub status: String,
    pub reason: String,
}

/// The fields of a status line: what stands before the first space, what
/// stands between the first and the second, and all that follows the second
/// up to the line end that closes the line, where it ends with one. `None`
/// where the line holds fewer than two spaces.
pub open spec fn status_fields(line: Seq<char>) -> Option<(Seq<char>, Seq<char>, Seq<char>)> {
    let first = find(line, " "@);
    let rest = line.skip(first + 1);
    let second = find(rest, " "@);
    if first < line.len() && second < rest.len() {
        Some(
            (
                line.take(first),
                rest.take(second),
                without_suffix(rest.skip(second + 1), "\r\n"@),
            ),
        )
    } else {
        None
    }
}

/// The line that reports a status: its three fields, each after its label.
pub open spec fn status_report(version: Seq<char>, status: Seq<char>, reason: Seq<char>) -> Seq<
    char,
> {
    "version: "@ + version + ", status: "@ + status + ", explanation: "@ + reason
}

/// `text` holds no space.
pub open spec fn no_space(text: Seq<char>) -> bool {
    forall|i: int| 0 <= i < text.len() ==> text[i] != ' '
}

/// A version and a status without spaces, joined with any reason by single
/// spaces and closed by a line end, split into exactly these three fields
/// again: the reason keeps its own spaces and loses the line end.
pub proof fn lemma_status_fields_of_joined(
    version: Seq<char>,
    status: Seq<char>,
    reason: Seq<char>,
)
    requires
        no_space(version),
        no_space(status),
    ensures
        status_fields(version + " "@ + status + " "@ + reason + "\r\n"@) == Some(
            (version, status, reason),
        ),
{
    reveal_strlit(" ");
    let space = " "@;
    let end = "\r\n"@;
    let line = version + space + status + space + reason + end;
    let first = version.len() as int;
    assert forall|j: int| 0 <= j < first implies !has_prefix(#[trigger] line.skip(j), space) by {
        if has_prefix(line.skip(j), space) {
            assert(line.skip(j).subrange(0, 1)[0] == line[j]);
        }
    }
    assert(line.skip(first).subrange(0, 1) =~= space);
    lemma_find_is(line, space, first);
    let rest = line.skip(first + 1);
    assert(rest =~= status + space + reason + end);
    let second = status.len() as int;
    assert forall|j: int| 0 <= j < second implies !has_prefix(#[trigger] rest.skip(j), space) by {
        if has_prefix(rest.skip(j), space) {
            assert(rest.skip(j).subrange(0, 1)[0] == rest[j]);
        }
    }
    assert(rest.skip(second).subrange(0, 1) =~= space);
    lemma_find_is(rest, space, second);
    let last = rest.skip(second + 1);
    assert(last =~= reason + end);
    assert(last.skip(last.len() - end.len()) =~= end);
    assert(last.take(last.len() - end.len()) =~= reason);
    assert(line.take(first) =~= version);
    assert(rest.take(second) =~= status);
}

/// A status line on the wire: the bytes of one line that ends with the only
/// line end in it and reads as version, space, status, space, reason and
/// line end. Whatever follows it, reading the first line gives that text,
/// the fields are exactly version, status and reason, and what follows is
/// left unread.
pub proof fn lemma_status_line_read(
    line: Seq<u8>,
    rest: Seq<u8>,
    version: Seq<char>,
    status: Seq<char>,
    reason: Seq<char>,
)
    requires
        find(line, crlf()) + 2 == line.len(),
        valid_utf8(line),
        decode_utf8(line) == version + " "@ + status + " "@ + reason + "\r\n"@,
        no_space(version),
        no_space(status),
    ensures
        line_text(line + rest) == Some(decode_utf8(line)),
        status_fields(decode_utf8(line)) == Some((version, status, reason)),
        after_line(line + rest) == rest,
{
    lemma_line_in_front(line, rest);
    lemma_status_fields_of_joined(version, status, reason);
}

impl StatusLine {
    /// The line that reports this status.
    pub fn report(&self) -> (text: String)
        ensures
            text@ == status_report(self.version@, self.status@, self.reason@),
    {
        let mut out = chars_of("version: ");
        append_chars(&mut out, chars_of(self.version.as_str()).as_slice());
        append_chars(&mut out, chars_of(", status: ").as_slice());
        append_chars(&mut out, chars_of(self.status.as_str()).as_slice());
        append_chars(&mut out, chars_of(", explanation: ").as_slice());
        append_chars(&mut out, chars_of(self.reason.as_str()).as_slice());
        string_of(out.as_slice())
    }
}

/// `parsed` is what parsing the status line `line` gives.
pub open spec fn is_status_of(parsed: Result<StatusLine, ResponseError>, line: Seq<char>) -> bool {
    match status_fields(line) {
        Some((version, status, reason)) => {
            &&& parsed matches Ok(fields)
            &&& fields.version@ == version
            &&& fields.status@ == status
            &&& fields.reason@ == reason
        },
        None => parsed matches Err(e) && e == ResponseError::MalformedStatusLine,
    }
}

/// Splits a status line at its first two spaces.
pub fn parse_status_line(line: &str) -> (parsed: Result<StatusLine, ResponseError>)
    ensures
        is_status_of(parsed, line@),
{
    let chars = chars_of(line);
    let space = chars_of(" ");
    assert(chars@.skip(0) =~= chars@);
    let first = find_from(chars.as_slice(), 0, space.as_slice());
    if first >= chars.len() {
        return Err(ResponseError::MalformedStatusLine);
    }
    let rest = copy_range(chars.as_slice(), first + 1, chars.len());
    assert(rest@.skip(0) =~= rest@);
    let second = find_from(rest.as_slice(), 0, space.as_slice());
    if second >= rest.len() {
        return Err(ResponseError::MalformedStatusLine);
    }
    let version = copy_range(chars.as_slice(), 0, first);
    let status = copy_range(rest.as_slice(), 0, second);
    let tail = copy_range(rest.as_slice(), second + 1, rest.len());
    assert(tail@ =~= rest@.skip(second + 1));
    let reason = strip_suffix(tail.as_slice(), chars_of("\r\n").as_slice());
    Ok(
        StatusLine {
            version: string_of(version.as_slice()),
            status: string_of(status.as_slice()),
            reason: string_of(reason.as_slice()),
        },
    )
}

/// What reading the status line from the bytes `unread` gives.
pub open spec fn is_status_read(parsed: Result<StatusLine, ResponseError>, unread: Seq<u8>) -> bool {
    match line_text(unread) {
        Some(line) => is_status_of(parsed, line),
        None => parsed matches Err(e) && e == ResponseError::StreamReadError,
    }
}

/// Reads the first line of the stream and splits it into its fields.
pub fn parse_response_status(reader: &mut ByteStream) -> (parsed: Result<
    StatusLine,
    ResponseError,
>)
    ensures
        final(reader)@ == after_line(old(reader)@),
        is_status_read(parsed, old(reader)@),
{
    match reader.read_line() {
        Ok(line) => parse_status_line(line.as_str()),
        Err(e) => Err(e),
    }
}

} // verus!
