//! The bytes of a response as a stream that is read line by line and then to
//! its end.

use crate::error::ResponseError;
use crate::text::{find, has_prefix, lemma_find, lemma_find_is};
use vstd::prelude::*;
use vstd::slice::slice_subrange;
use vstd::utf8::{decode_utf8, valid_utf8};

verus! {

/// Declares `core::str::Utf8Error`, the error of `core::str::from_utf8`, so
/// that it can be carried; nothing is known of its contents.
#[verifier::external_type_specification]
#[verifier::external_body]
pub struct ExUtf8Error(core::str::Utf8Error);

/// `core::str::from_utf8` succeeds exactly on well-formed UTF-8 and then
/// gives the text that the bytes encode.
pub assume_specification[ core::str::from_utf8 ](v: &[u8]) -> (r: Result<
    &str,
    core::str::Utf8Error,
>)
    ensures
        r is Ok <==> valid_utf8(v@),
        r matches Ok(s) ==> s@ == decode_utf8(v@),
;

/// The two bytes that end a line: carriage return, line feed.
pub open spec fn crlf() -> Seq<u8> {
    seq![13u8, 10u8]
}

/// The length of the first line of `bytes`: up to and with the first line
/// end, or all of `bytes` where there is none.
pub open spec fn line_len(bytes: Seq<u8>) -> int {
    let at = find(bytes, crlf());
    if at < bytes.len() {
        at + 2
    } else {
        bytes.len() as int
    }
}

/// The first line of `bytes`, with its line end.
pub open spec fn first_line(bytes: Seq<u8>) -> Seq<u8> {
    bytes.take(line_len(bytes))
}

/// What follows the first line of `bytes`.
pub open spec fn after_line(bytes: Seq<u8>) -> Seq<u8> {
    bytes.skip(line_len(bytes))
}

/// The first line of `bytes` as text; `None` where it is not well-formed
/// UTF-8.
pub open spec fn line_text(bytes: Seq<u8>) -> Option<Seq<char>> {
    if valid_utf8(first_line(bytes)) {
        Some(decode_utf8(first_line(bytes)))
    } else {
        None
    }
}

/// A line end stands at the start of `s` exactly when its first two bytes
/// are carriage return and line feed.
pub proof fn lemma_crlf_prefix(s: Seq<u8>)
    ensures
        has_prefix(s, crlf()) <==> (s.len() >= 2 && s[0] == 13 && s[1] == 10),
{
    if s.len() >= 2 {
        let head = s.subrange(0, 2);
        if s[0] == 13 && s[1] == 10 {
            assert(head =~= crlf());
        }
    }
}

/// The first line is never longer than the bytes, and not empty unless the
/// bytes are.
pub proof fn lemma_line_len(bytes: Seq<u8>)
    ensures
        0 <= line_len(bytes) <= bytes.len(),
        bytes.len() > 0 ==> line_len(bytes) > 0,
{
    lemma_find(bytes, crlf());
    let at = find(bytes, crlf());
    if at < bytes.len() {
        lemma_crlf_prefix(bytes.skip(at));
    }
}

/// A line that ends with the only line end in it, in front of other bytes, is
/// their first line.
pub proof fn lemma_line_in_front(line: Seq<u8>, tail: Seq<u8>)
    requires
        find(line, crlf()) + 2 == line.len(),
    ensures
        first_line(line + tail) == line,
        after_line(line + tail) == tail,
{
    let all = line + tail;
    let at = line.len() - 2;
    lemma_find(line, crlf());
    assert forall|j: int| 0 <= j < at implies !has_prefix(#[trigger] all.skip(j), crlf()) by {
        lemma_crlf_prefix(all.skip(j));
        lemma_crlf_prefix(line.skip(j));
    }
    lemma_crlf_prefix(line.skip(at));
    lemma_crlf_prefix(all.skip(at));
    lemma_find_is(all, crlf(), at);
}

/// The unread bytes of a response.
pub struct ByteStream {
    data: Vec<u8>,
    pos: usize,
}

impl View for ByteStream {
    type V = Seq<u8>;

    /// The bytes not yet read.
    closed spec fn view(&self) -> Seq<u8> {
        self.data@.skip(self.pos as int)
    }
}

impl ByteStream {
    #[verifier::type_invariant]
    spec fn well_formed(self) -> bool {
        self.pos <= self.data.len()
    }

    /// A stream over `data`, with nothing read yet.
    pub fn new(data: Vec<u8>) -> (stream: ByteStream)
        ensures
            stream@ == data@,
    {
        ByteStream { data, pos: 0 }
    }

    /// Reads one line: the bytes up to and with the first line end, or all
    /// that is left where no line end follows. The line is taken from the
    /// stream whether or not it is text.
    pub fn read_line(&mut self) -> (line: Result<String, ResponseError>)
        ensures
            final(self)@ == after_line(old(self)@),
            match line_text(old(self)@) {
                Some(text) => line matches Ok(s) && s@ == text,
                None => line == Err::<String, ResponseError>(ResponseError::StreamReadError),
            },
    {
        proof {
            use_type_invariant(&*self);
        }
        let start = self.pos;
        let len = self.data.len();
        let ghost unread = self.data@.skip(start as int);
        let mut i: usize = start;
        let mut end: usize = len;
        while i < len
            invariant_except_break
                end == len,
            invariant
                start <= i <= len,
                len == self.data.len(),
                unread == self.data@.skip(start as int),
                forall|j: int| 0 <= j < i - start ==> !has_prefix(#[trigger] unread.skip(j), crlf()),
            ensures
                start <= i <= len,
                i < len ==> has_prefix(unread.skip(i - start), crlf()) && end == i + 2,
                i == len ==> end == len,
                end <= len,
                forall|j: int| 0 <= j < i - start ==> !has_prefix(#[trigger] unread.skip(j), crlf()),
            decreases len - i,
        {
            proof {
                lemma_crlf_prefix(unread.skip(i - start));
            }
            if self.data[i] == 13 && i + 1 < len && self.data[i + 1] == 10 {
                end = i + 2;
                break ;
            }
            i = i + 1;
        }
        proof {
            lemma_find_is(unread, crlf(), i - start);
        }
        let bytes = slice_subrange(self.data.as_slice(), start, end);
        assert(bytes@ =~= first_line(unread));
        let line = match core::str::from_utf8(bytes) {
            Ok(text) => Ok(text.to_owned()),
            Err(_) => Err(ResponseError::StreamReadError),
        };
        self.pos = end;
        line
    }

    /// Reads all that is left.
    pub fn read_to_end(&mut self) -> (rest: Vec<u8>)
        ensures
            rest@ == old(self)@,
            final(self)@ == Seq::<u8>::empty(),
    {
        proof {
            use_type_invariant(&*self);
        }
        let len = self.data.len();
        let mut rest: Vec<u8> = Vec::new();
        rest.extend_from_slice(slice_subrange(self.data.as_slice(), self.pos, len));
        self.pos = len;
        rest
    }
}

} // verus!
