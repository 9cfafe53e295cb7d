//! The header table of a response and the parsing of header lines.

use crate::error::ResponseError;
use crate::stream::{
    after_line, crlf, lemma_line_in_front, lemma_line_len, line_text, ByteStream,
};
use crate::text::{
    chars_of, copy_range, find, find_from, lemma_find, lower_cased, str_eq, string_of, trim,
    trimmed,
};
use vstd::prelude::*;
use vstd::utf8::{decode_utf8, valid_utf8};

verus! {

/// The headers of a response: each name, in lower case, with its value. A
/// name stands in the table once; a later value replaces an earlier one.
#[derive(Debug)]
pub struct HeaderTable {
    entries: Vec<(String, String)>,
}

/// The entry at index `i` has the name `name`.
spec fn named_at(entries: Seq<(String, String)>, i: int, name: Seq<char>) -> bool {
    0 <= i < entries.len() && entries[i].0@ == name
}

/// Some entry has the name `name`.
spec fn holds(entries: Seq<(String, String)>, name: Seq<char>) -> bool {
    exists|i: int| named_at(entries, i, name)
}

/// An index at which `name` stands.
spec fn slot(entries: Seq<(String, String)>, name: Seq<char>) -> int {
    choose|i: int| named_at(entries, i, name)
}

/// No name stands in two entries.
spec fn distinct(entries: Seq<(String, String)>) -> bool {
    forall|i: int, j: int| 0 <= i < j < entries.len() ==> entries[i].0@ != entries[j].0@
}

/// The entries as a map from names to values.
spec fn map_of(entries: Seq<(String, String)>) -> Map<Seq<char>, Seq<char>> {
    Map::new(
        |name: Seq<char>| holds(entries, name),
        |name: Seq<char>| entries[slot(entries, name)].1@,
    )
}

/// The names held by the first `k` entries.
spec fn names_upto(entries: Seq<(String, String)>, k: int) -> Set<Seq<char>> {
    Set::new(|name: Seq<char>| exists|i: int| 0 <= i < k && named_at(entries, i, name))
}

proof fn lemma_names_upto(entries: Seq<(String, String)>, k: int)
    requires
        distinct(entries),
        0 <= k <= entries.len(),
    ensures
        names_upto(entries, k).finite(),
        names_upto(entries, k).len() == k,
    decreases k,
{
    if k == 0 {
        assert(names_upto(entries, 0) =~= Set::<Seq<char>>::empty());
    } else {
        lemma_names_upto(entries, k - 1);
        let last = entries[k - 1].0@;
        assert(named_at(entries, k - 1, last));
        assert(names_upto(entries, k) =~= names_upto(entries, k - 1).insert(last));
    }
}

/// Where `name` stands among the entries.
fn position(entries: &Vec<(String, String)>, name: &str) -> (at: Option<usize>)
    ensures
        match at {
            Some(i) => named_at(entries@, i as int, name@),
            None => !holds(entries@, name@),
        },
{
    let mut i: usize = 0;
    while i < entries.len()
        invariant
            i <= entries.len(),
            forall|j: int| 0 <= j < i ==> !named_at(entries@, j, name@),
        decreases entries.len() - i,
    {
        if str_eq(entries[i].0.as_str(), name) {
            return Some(i);
        }
        i = i + 1;
    }
    None
}

/// Sets the value of `name` among entries without a repeated name.
fn put(entries: &mut Vec<(String, String)>, name: String, value: String)
    requires
        distinct(old(entries)@),
    ensures
        distinct(final(entries)@),
        map_of(final(entries)@) == map_of(old(entries)@).insert(name@, value@),
{
    let ghost before = entries@;
    let ghost key_name = name@;
    match position(entries, name.as_str()) {
        Some(i) => {
            entries.set(i, (name, value));
            proof {
                let after = entries@;
                assert forall|key: Seq<char>| holds(after, key) == holds(before, key) by {
                    if holds(after, key) {
                        let j = choose|j: int| named_at(after, j, key);
                        assert(named_at(before, j, key));
                    }
                    if holds(before, key) {
                        let j = choose|j: int| named_at(before, j, key);
                        assert(named_at(after, j, key));
                    }
                }
            }
        },
        None => {
            entries.push((name, value));
            proof {
                let after = entries@;
                let n = before.len() as int;
                assert(named_at(after, n, key_name));
                assert forall|key: Seq<char>|
                    holds(after, key) == (holds(before, key) || key == key_name) by {
                    if holds(after, key) {
                        let j = choose|j: int| named_at(after, j, key);
                        if j < n {
                            assert(named_at(before, j, key));
                        }
                    }
                    if holds(before, key) {
                        let j = choose|j: int| named_at(before, j, key);
                        assert(named_at(after, j, key));
                    }
                }
                assert forall|i: int, j: int| 0 <= i < j < after.len() implies after[i].0@
                    != after[j].0@ by {
                    if j == n {
                        assert(!named_at(before, i, key_name));
                    }
                }
            }
        },
    }
}

impl View for HeaderTable {
    type V = Map<Seq<char>, Seq<char>>;

    /// The table as a map from names to values.
    closed spec fn view(&self) -> Map<Seq<char>, Seq<char>> {
        map_of(self.entries@)
    }
}

impl HeaderTable {
    #[verifier::type_invariant]
    spec fn well_formed(self) -> bool {
        distinct(self.entries@)
    }

    /// An empty table.
    pub fn new() -> (table: HeaderTable)
        ensures
            table@ == Map::<Seq<char>, Seq<char>>::empty(),
    {
        HeaderTable { entries: Vec::new() }
    }

    /// Sets the value of `name`, in place of any earlier one.
    pub fn insert(&mut self, name: String, value: String)
        ensures
            final(self)@ == old(self)@.insert(name@, value@),
    {
        proof {
            use_type_invariant(&*self);
        }
        let mut entries: Vec<(String, String)> = Vec::new();
        core::mem::swap(&mut self.entries, &mut entries);
        put(&mut entries, name, value);
        self.entries = entries;
    }

    /// The value of `name`, where the table holds it.
    pub fn get(&self, name: &str) -> (value: Option<&String>)
        ensures
            match value {
                Some(v) => self@.contains_key(name@) && self@[name@] == v@,
                None => !self@.contains_key(name@),
            },
    {
        proof {
            use_type_invariant(self);
        }
        match position(&self.entries, name) {
            Some(i) => Some(&self.entries[i].1),
            None => None,
        }
    }

    /// Whether the table holds `name`.
    pub fn contains_key(&self, name: &str) -> (held: bool)
        ensures
            held == self@.contains_key(name@),
    {
        position(&self.entries, name).is_some()
    }

    /// Whether the table holds `name` with exactly the value `value`.
    pub fn has(&self, name: &str, value: &str) -> (held: bool)
        ensures
            held == (self@.contains_key(name@) && self@[name@] == value@),
    {
        match self.get(name) {
            Some(v) => str_eq(v.as_str(), value),
            None => false,
        }
    }

    /// The number of names in the table.
    pub fn len(&self) -> (n: usize)
        ensures
            self@.dom().finite(),
            n == self@.dom().len(),
    {
        proof {
            use_type_invariant(self);
            lemma_names_upto(self.entries@, self.entries.len() as int);
            assert(self@.dom() =~= names_upto(self.entries@, self.entries.len() as int));
        }
        self.entries.len()
    }
}

/// The entry that a header line declares: the name is what stands before the
/// first colon, in lower case; the value is what follows that colon, without
/// the whitespace at its two ends. `None` where the line holds no colon.
pub open spec fn header_entry(line: Seq<char>) -> Option<(Seq<char>, Seq<char>)> {
    let colon = find(line, ":"@);
    if colon < line.len() {
        Some((lower_cased(line.take(colon)), trimmed(line.skip(colon + 1))))
    } else {
        None
    }
}

/// `parsed` is what parsing the header line `line` gives.
pub open spec fn is_entry_of(parsed: Result<(String, String), ResponseError>, line: Seq<char>) -> bool {
    match header_entry(line) {
        Some((name, value)) => parsed matches Ok(entry) && entry.0@ == name && entry.1@ == value,
        None => parsed matches Err(e) && e == ResponseError::MalformedHeaderLine,
    }
}

/// Splits a header line at its first colon into name and value.
pub fn parse_header_line(line: &str) -> (parsed: Result<(String, String), ResponseError>)
    ensures
        is_entry_of(parsed, line@),
{
    let chars = chars_of(line);
    assert(chars@.skip(0) =~= chars@);
    let colon = find_from(chars.as_slice(), 0, chars_of(":").as_slice());
    if colon >= chars.len() {
        return Err(ResponseError::MalformedHeaderLine);
    }
    let raw_name = copy_range(chars.as_slice(), 0, colon);
    let raw_value = copy_range(chars.as_slice(), colon + 1, chars.len());
    let name = string_of(raw_name.as_slice()).as_str().to_lowercase();
    let value = trim(raw_value.as_slice());
    Ok((name, string_of(value.as_slice())))
}

/// The table that a block of header lines declares, starting from `table`,
/// and the bytes that follow the block. Lines are read one by one up to the
/// first that is a line end and nothing else; that line is taken and ends
/// the block. Each other line must be text and hold a colon; its entry goes
/// into the table, over any earlier value of the same name.
pub open spec fn header_block(bytes: Seq<u8>, table: Map<Seq<char>, Seq<char>>) -> Result<
    (Map<Seq<char>, Seq<char>>, Seq<u8>),
    ResponseError,
>
    decreases bytes.len(),
{
    match line_text(bytes) {
        None => Err(ResponseError::StreamReadError),
        Some(line) => if line == "\r\n"@ {
            Ok((table, after_line(bytes)))
        } else {
            match header_entry(line) {
                None => Err(ResponseError::MalformedHeaderLine),
                Some((name, value)) => {
                    proof {
                        lemma_line_len(bytes);
                    }
                    header_block(after_line(bytes), table.insert(name, value))
                },
            }
        },
    }
}

/// `parsed` and the bytes `left` are what reading a header block from
/// `unread` gives.
pub open spec fn is_block_read(
    parsed: Result<HeaderTable, ResponseError>,
    left: Seq<u8>,
    unread: Seq<u8>,
) -> bool {
    match header_block(unread, Map::empty()) {
        Ok((table, rest)) => parsed matches Ok(t) && t@ == table && left == rest,
        Err(e) => parsed matches Err(f) && f == e,
    }
}

/// Reads header lines from the stream into a table, up to and with the empty
/// line that ends them.
pub fn parse_response_headers(reader: &mut ByteStream) -> (parsed: Result<
    HeaderTable,
    ResponseError,
>)
    ensures
        is_block_read(parsed, final(reader)@, old(reader)@),
{
    let mut headers = HeaderTable::new();
    loop
        invariant
            header_block(reader@, headers@) == header_block(old(reader)@, Map::empty()),
        decreases reader@.len(),
    {
        let ghost unread = reader@;
        proof {
            lemma_line_len(unread);
        }
        let line = match reader.read_line() {
            Ok(line) => line,
            Err(e) => {
                return Err(e);
            },
        };
        if str_eq(line.as_str(), "\r\n") {
            return Ok(headers);
        }
        let (name, value) = match parse_header_line(line.as_str()) {
            Ok(entry) => entry,
            Err(e) => {
                return Err(e);
            },
        };
        headers.insert(name, value);
        assert(unread.len() > 0);
    }
}

/// One header line as bytes: it ends with a line end and holds no other,
/// it is text, and it holds a colon.
pub open spec fn is_header_line(line: Seq<u8>) -> bool {
    &&& find(line, crlf()) + 2 == line.len()
    &&& valid_utf8(line)
    &&& header_entry(decode_utf8(line)) is Some
}

/// The name that a header line declares.
pub open spec fn declared_name(line: Seq<u8>) -> Seq<char> {
    match header_entry(decode_utf8(line)) {
        Some((name, _)) => name,
        None => Seq::empty(),
    }
}

/// The value that a header line declares.
pub open spec fn declared_value(line: Seq<u8>) -> Seq<char> {
    match header_entry(decode_utf8(line)) {
        Some((_, value)) => value,
        None => Seq::empty(),
    }
}

/// The lines one after the other.
pub open spec fn joined(lines: Seq<Seq<u8>>) -> Seq<u8>
    decreases lines.len(),
{
    if lines.len() == 0 {
        Seq::empty()
    } else {
        joined(lines.drop_last()) + lines.last()
    }
}

/// The table after the entries of `lines` went into `table`, first line
/// first.
pub open spec fn declared(lines: Seq<Seq<u8>>, table: Map<Seq<char>, Seq<char>>) -> Map<
    Seq<char>,
    Seq<char>,
>
    decreases lines.len(),
{
    if lines.len() == 0 {
        table
    } else {
        declared(lines.drop_last(), table).insert(
            declared_name(lines.last()),
            declared_value(lines.last()),
        )
    }
}

/// The line end, read as text, is the two characters carriage return and
/// line feed.
pub proof fn lemma_crlf_text()
    ensures
        valid_utf8(crlf()),
        decode_utf8(crlf()) == "\r\n"@,
{
    reveal_strlit("\r\n");
    let chars = "\r\n"@;
    vstd::utf8::is_ascii_chars_encode_utf8(chars);
    assert(vstd::utf8::encode_utf8(chars) =~= crlf());
    vstd::utf8::encode_utf8_valid_utf8(chars);
    vstd::utf8::encode_utf8_decode_utf8(chars);
}

/// A line that declares an entry is more than a line end.
proof fn lemma_entry_is_not_blank(line: Seq<char>)
    requires
        header_entry(line) is Some,
    ensures
        line != "\r\n"@,
{
    reveal_strlit("\r\n");
    reveal_strlit(":");
    if line == "\r\n"@ {
        lemma_find(line, ":"@);
        let colon = find(line, ":"@);
        assert(line.skip(colon).subrange(0, 1)[0] == line[colon]);
    }
}

/// Joining lines and putting their entries into a table can both start with
/// the first line.
proof fn lemma_first_then_rest(lines: Seq<Seq<u8>>, table: Map<Seq<char>, Seq<char>>)
    requires
        lines.len() > 0,
    ensures
        joined(lines) == lines[0] + joined(lines.skip(1)),
        declared(lines, table) == declared(
            lines.skip(1),
            table.insert(declared_name(lines[0]), declared_value(lines[0])),
        ),
    decreases lines.len(),
{
    let tail = lines.skip(1);
    if lines.len() == 1 {
        assert(lines.drop_last() =~= Seq::<Seq<u8>>::empty());
        assert(tail =~= Seq::<Seq<u8>>::empty());
        assert(declared(lines.drop_last(), table) == table);
    } else {
        let front = lines.drop_last();
        lemma_first_then_rest(front, table);
        assert(front.skip(1) =~= tail.drop_last());
        let next = table.insert(declared_name(lines[0]), declared_value(lines[0]));
        assert(declared(tail, next) == declared(tail.drop_last(), next).insert(
            declared_name(tail.last()),
            declared_value(tail.last()),
        ));
    }
}

/// A block of well-formed header lines that a lone line end closes gives
/// the table of exactly their entries, and leaves what follows the closing
/// line end.
pub proof fn lemma_header_block_declares(
    lines: Seq<Seq<u8>>,
    rest: Seq<u8>,
    table: Map<Seq<char>, Seq<char>>,
)
    requires
        forall|i: int| 0 <= i < lines.len() ==> is_header_line(#[trigger] lines[i]),
    ensures
        header_block(joined(lines) + crlf() + rest, table) == Ok::<
            (Map<Seq<char>, Seq<char>>, Seq<u8>),
            ResponseError,
        >((declared(lines, table), rest)),
    decreases lines.len(),
{
    let block = joined(lines) + crlf() + rest;
    if lines.len() == 0 {
        lemma_crlf_text();
        assert(crlf().skip(0) =~= crlf());
        lemma_find(crlf(), crlf());
        lemma_line_in_front(crlf(), rest);
    } else {
        let line = lines[0];
        let tail = lines.skip(1);
        let next = table.insert(declared_name(line), declared_value(line));
        lemma_first_then_rest(lines, table);
        lemma_header_block_declares(tail, rest, next);
        let after = joined(tail) + crlf() + rest;
        assert(block =~= line + after);
        lemma_line_in_front(line, after);
        lemma_entry_is_not_blank(decode_utf8(line));
    }
}

/// The table that header lines declare holds exactly the names that they
/// declare.
pub proof fn lemma_declared_names(lines: Seq<Seq<u8>>, name: Seq<char>)
    ensures
        declared(lines, Map::empty()).contains_key(name) <==> exists|i: int|
            0 <= i < lines.len() && declared_name(#[trigger] lines[i]) == name,
    decreases lines.len(),
{
    if lines.len() > 0 {
        let front = lines.drop_last();
        lemma_declared_names(front, name);
        if exists|i: int| 0 <= i < lines.len() && declared_name(#[trigger] lines[i]) == name {
            let i = choose|i: int|
                0 <= i < lines.len() && declared_name(#[trigger] lines[i]) == name;
            if i < front.len() {
                assert(front[i] == lines[i]);
            }
        }
    }
}

/// Of several lines that declare one name the last one wins: the table holds
/// the value of the line after which no line declares the name again.
pub proof fn lemma_declared_last_wins(lines: Seq<Seq<u8>>, i: int)
    requires
        0 <= i < lines.len(),
        forall|j: int| i < j < lines.len() ==> declared_name(#[trigger] lines[j]) != declared_name(lines[i]),
    ensures
        declared(lines, Map::empty()).contains_key(declared_name(lines[i])),
        declared(lines, Map::empty())[declared_name(lines[i])] == declared_value(lines[i]),
    decreases lines.len(),
{
    if i < lines.len() - 1 {
        let front = lines.drop_last();
        lemma_declared_last_wins(front, i);
    }
}

} // verus!
