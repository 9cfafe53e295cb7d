//! Turning a page body into the text that is shown: markup between angle
//! brackets is dropped, only what stands inside the body element is kept, and
//! the two escaped brackets are restored.

use crate::text::{
    append_chars, chars_eq, chars_of, has_prefix, replace_all, replaced, string_of,
};
use vstd::prelude::*;

verus! {

/// What the scan of a page remembers between two characters.
pub struct Scan {
    /// An opening bracket was read and no closing one since.
    pub in_angle: bool,
    /// The last tag that named the body opened it.
    pub in_body: bool,
    /// The characters read inside the brackets since the last opening bracket.
    pub tag: Seq<char>,
    /// The text kept so far.
    pub out: Seq<char>,
}

/// The scan before any character.
pub open spec fn scan_start() -> Scan {
    Scan { in_angle: false, in_body: false, tag: Seq::empty(), out: Seq::empty() }
}

/// The scan after one more character. An opening bracket starts a new tag, a
/// closing bracket ends it; any other character extends the tag when inside
/// brackets, switches the body on when the tag reads `body` and off when it
/// reads `/body`, and is kept when it stands outside brackets within the body.
pub open spec fn scan_step(st: Scan, c: char) -> Scan {
    if c == '<' {
        Scan { in_angle: true, tag: Seq::empty(), ..st }
    } else if c == '>' {
        Scan { in_angle: false, ..st }
    } else {
        let tag = if st.in_angle {
            st.tag.push(c)
        } else {
            st.tag
        };
        let in_body = if tag == "/body"@ {
            false
        } else if tag == "body"@ {
            true
        } else {
            st.in_body
        };
        let out = if !st.in_angle && in_body {
            st.out.push(c)
        } else {
            st.out
        };
        Scan { in_angle: st.in_angle, in_body, tag, out }
    }
}

/// The scan after all of `s`.
pub open spec fn scanned(s: Seq<char>) -> Scan
    decreases s.len(),
{
    if s.len() == 0 {
        scan_start()
    } else {
        scan_step(scanned(s.drop_last()), s.last())
    }
}

/// The text shown for a page: what the scan keeps, with `&lt;` and then
/// `&gt;` turned back into brackets.
pub open spec fn shown(body: Seq<char>) -> Seq<char> {
    replaced(replaced(scanned(body).out, "&lt;"@, "<"@), "&gt;"@, ">"@)
}

/// A page that shows `body` as text: its two brackets escaped, `<` first and
/// then `>`, and the whole wrapped in a body element.
pub open spec fn transformed(body: Seq<char>) -> Seq<char> {
    "<body>"@ + replaced(replaced(body, "<"@, "&lt;"@), ">"@, "&gt;"@) + "</body>"@
}

/// The text that the page `body` shows.
pub fn show(body: &str) -> (text: String)
    ensures
        text@ == shown(body@),
{
    let page = chars_of(body);
    let open_tag = chars_of("body");
    let close_tag = chars_of("/body");
    let mut in_angle = false;
    let mut in_body = false;
    let mut tag: Vec<char> = Vec::new();
    let mut out: Vec<char> = Vec::new();
    let mut i: usize = 0;
    while i < page.len()
        invariant
            i <= page.len(),
            open_tag@ == "body"@,
            close_tag@ == "/body"@,
            scanned(page@.take(i as int)) == (Scan { in_angle, in_body, tag: tag@, out: out@ }),
        decreases page.len() - i,
    {
        let c = page[i];
        proof {
            let next = page@.take(i + 1);
            assert(next.drop_last() =~= page@.take(i as int));
        }
        if c == '<' {
            in_angle = true;
            tag = Vec::new();
        } else if c == '>' {
            in_angle = false;
        } else {
            if in_angle {
                tag.push(c);
            }
            if chars_eq(tag.as_slice(), open_tag.as_slice()) {
                in_body = true;
            }
            if chars_eq(tag.as_slice(), close_tag.as_slice()) {
                in_body = false;
            }
            if !in_angle && in_body {
                out.push(c);
            }
        }
        i = i + 1;
    }
    assert(page@.take(i as int) =~= page@);
    let first = replace_all(out.as_slice(), chars_of("&lt;").as_slice(), chars_of("<").as_slice());
    let second = replace_all(
        first.as_slice(),
        chars_of("&gt;").as_slice(),
        chars_of(">").as_slice(),
    );
    string_of(second.as_slice())
}

/// Wraps `body` as a page that shows it as text.
pub fn transform(body: &String) -> (result: String)
    ensures
        result@ == transformed(body@),
{
    let page = chars_of(body.as_str());
    let first = replace_all(page.as_slice(), chars_of("<").as_slice(), chars_of("&lt;").as_slice());
    let second = replace_all(
        first.as_slice(),
        chars_of(">").as_slice(),
        chars_of("&gt;").as_slice(),
    );
    let mut result = chars_of("<body>");
    append_chars(&mut result, second.as_slice());
    append_chars(&mut result, chars_of("</body>").as_slice());
    string_of(result.as_slice())
}

/// `pat` occurs nowhere in `s`.
pub open spec fn free_of(s: Seq<char>, pat: Seq<char>) -> bool {
    forall|i: int| 0 <= i <= s.len() ==> !has_prefix(#[trigger] s.skip(i), pat)
}

/// `s` with each `<` written as `&lt;`.
spec fn lt_escaped(s: Seq<char>) -> Seq<char>
    decreases s.len(),
{
    if s.len() == 0 {
        s
    } else if s[0] == '<' {
        "&lt;"@ + lt_escaped(s.skip(1))
    } else {
        seq![s[0]] + lt_escaped(s.skip(1))
    }
}

/// `s` with each `>` written as `&gt;`.
spec fn gt_escaped(s: Seq<char>) -> Seq<char>
    decreases s.len(),
{
    if s.len() == 0 {
        s
    } else if s[0] == '>' {
        "&gt;"@ + gt_escaped(s.skip(1))
    } else {
        seq![s[0]] + gt_escaped(s.skip(1))
    }
}

/// `s` with both brackets escaped.
spec fn escaped(s: Seq<char>) -> Seq<char> {
    gt_escaped(lt_escaped(s))
}

/// What one character becomes when both brackets are escaped.
spec fn escaped_char(c: char) -> Seq<char> {
    if c == '<' {
        "&lt;"@
    } else if c == '>' {
        "&gt;"@
    } else {
        seq![c]
    }
}

/// `s` holds neither bracket.
spec fn no_bracket(s: Seq<char>) -> bool {
    forall|i: int| 0 <= i < s.len() ==> s[i] != '<' && s[i] != '>'
}

proof fn lemma_literals()
    ensures
        "<"@ =~= seq!['<'],
        ">"@ =~= seq!['>'],
        "&lt;"@ =~= seq!['&', 'l', 't', ';'],
        "&gt;"@ =~= seq!['&', 'g', 't', ';'],
        "body"@ =~= seq!['b', 'o', 'd', 'y'],
        "/body"@ =~= seq!['/', 'b', 'o', 'd', 'y'],
        "<body>"@ =~= seq!['<', 'b', 'o', 'd', 'y', '>'],
        "</body>"@ =~= seq!['<', '/', 'b', 'o', 'd', 'y', '>'],
        "<"@.len() == 1,
        ">"@.len() == 1,
        "&lt;"@.len() == 4,
        "&gt;"@.len() == 4,
        "body"@.len() == 4,
        "/body"@.len() == 5,
        "<body>"@.len() == 6,
        "</body>"@.len() == 7,
{
    reveal_strlit("<");
    reveal_strlit(">");
    reveal_strlit("&lt;");
    reveal_strlit("&gt;");
    reveal_strlit("body");
    reveal_strlit("/body");
    reveal_strlit("<body>");
    reveal_strlit("</body>");
}

/// Replacing a pattern of one character works character by character.
proof fn lemma_replaced_lt(s: Seq<char>)
    ensures
        replaced(s, "<"@, "&lt;"@) == lt_escaped(s),
    decreases s.len(),
{
    lemma_literals();
    if s.len() > 0 {
        lemma_replaced_lt(s.skip(1));
        if s[0] == '<' {
            assert(s.subrange(0, 1) =~= "<"@);
        }
        if has_prefix(s, "<"@) {
            assert("<"@[0] == '<');
        }
    }
}

proof fn lemma_replaced_gt(s: Seq<char>)
    ensures
        replaced(s, ">"@, "&gt;"@) == gt_escaped(s),
    decreases s.len(),
{
    lemma_literals();
    if s.len() > 0 {
        lemma_replaced_gt(s.skip(1));
        if s[0] == '>' {
            assert(s.subrange(0, 1) =~= ">"@);
        }
        if has_prefix(s, ">"@) {
            assert(">"@[0] == '>');
        }
    }
}

proof fn lemma_gt_escaped_concat(x: Seq<char>, y: Seq<char>)
    ensures
        gt_escaped(x + y) == gt_escaped(x) + gt_escaped(y),
    decreases x.len(),
{
    if x.len() > 0 {
        lemma_gt_escaped_concat(x.skip(1), y);
        assert((x + y).skip(1) =~= x.skip(1) + y);
    }
}

/// Escaping both brackets works character by character.
proof fn lemma_escaped_unfold(s: Seq<char>)
    requires
        s.len() > 0,
    ensures
        escaped(s) == escaped_char(s[0]) + escaped(s.skip(1)),
{
    lemma_literals();
    let head = if s[0] == '<' {
        "&lt;"@
    } else {
        seq![s[0]]
    };
    lemma_gt_escaped_concat(head, lt_escaped(s.skip(1)));
    reveal_with_fuel(gt_escaped, 6);
}

proof fn lemma_escaped_no_bracket(s: Seq<char>)
    ensures
        no_bracket(escaped(s)),
    decreases s.len(),
{
    lemma_literals();
    if s.len() > 0 {
        lemma_escaped_unfold(s);
        lemma_escaped_no_bracket(s.skip(1));
    }
}

/// A text that starts, once escaped, with a character other than `&` starts
/// with that character.
proof fn lemma_escaped_first(s: Seq<char>, x: char)
    requires
        escaped(s).len() > 0,
        escaped(s)[0] == x,
        x != '&',
    ensures
        s.len() > 0,
        s[0] == x,
        escaped(s) == seq![x] + escaped(s.skip(1)),
{
    lemma_literals();
    if s.len() > 0 {
        lemma_escaped_unfold(s);
    }
}

proof fn lemma_gt_escaped_first(s: Seq<char>, x: char)
    requires
        gt_escaped(s).len() > 0,
        gt_escaped(s)[0] == x,
        x != '&',
    ensures
        s.len() > 0,
        s[0] == x,
        gt_escaped(s) == seq![x] + gt_escaped(s.skip(1)),
{
    lemma_literals();
}

proof fn lemma_free_of_tail(s: Seq<char>, pat: Seq<char>)
    requires
        s.len() > 0,
        free_of(s, pat),
    ensures
        free_of(s.skip(1), pat),
{
    assert forall|i: int| 0 <= i <= s.skip(1).len() implies !has_prefix(
        #[trigger] s.skip(1).skip(i),
        pat,
    ) by {
        assert(s.skip(1).skip(i) =~= s.skip(i + 1));
    }
}

/// A character that is not `&` starts no escape: replacing goes past it.
proof fn lemma_replaced_past(c: char, rest: Seq<char>, from: Seq<char>, to: Seq<char>)
    requires
        from.len() > 0,
        from[0] != c,
    ensures
        replaced(seq![c] + rest, from, to) == seq![c] + replaced(rest, from, to),
{
    let s = seq![c] + rest;
    assert(s.skip(1) =~= rest);
}

/// Taking the escapes of `<` back out of an escaped text leaves the text
/// with only `>` escaped.
proof fn lemma_unescape_lt(s: Seq<char>)
    requires
        free_of(s, "&lt;"@),
    ensures
        replaced(escaped(s), "&lt;"@, "<"@) == gt_escaped(s),
    decreases s.len(),
{
    lemma_literals();
    let lt = "&lt;"@;
    let to = "<"@;
    if s.len() > 0 {
        let tail = s.skip(1);
        lemma_free_of_tail(s, lt);
        lemma_unescape_lt(tail);
        lemma_escaped_unfold(s);
        let m = escaped(s);
        let rest = escaped(tail);
        if s[0] == '<' {
            assert(m.subrange(0, 4) =~= lt);
            assert(m.skip(4) =~= rest);
        } else if s[0] == '>' {
            let r3 = seq![';'] + rest;
            let r2 = seq!['t'] + r3;
            let r1 = seq!['g'] + r2;
            assert(m.skip(1) =~= r1);
            lemma_replaced_past('g', r2, lt, to);
            lemma_replaced_past('t', r3, lt, to);
            lemma_replaced_past(';', rest, lt, to);
        } else {
            assert(m.skip(1) =~= rest);
            if has_prefix(m, lt) {
                lemma_escaped_first(tail, 'l');
                let t1 = tail.skip(1);
                lemma_escaped_first(t1, 't');
                let t2 = t1.skip(1);
                lemma_escaped_first(t2, ';');
                assert(s.skip(0) =~= s);
                assert(s.subrange(0, 4) =~= lt);
            }
        }
    }
}

/// Taking the escapes of `>` back out gives the text itself.
proof fn lemma_unescape_gt(s: Seq<char>)
    requires
        free_of(s, "&gt;"@),
    ensures
        replaced(gt_escaped(s), "&gt;"@, ">"@) == s,
    decreases s.len(),
{
    lemma_literals();
    let gt = "&gt;"@;
    if s.len() > 0 {
        let tail = s.skip(1);
        lemma_free_of_tail(s, gt);
        lemma_unescape_gt(tail);
        let m = gt_escaped(s);
        let rest = gt_escaped(tail);
        if s[0] == '>' {
            assert(m.subrange(0, 4) =~= gt);
            assert(m.skip(4) =~= rest);
        } else {
            assert(m.skip(1) =~= rest);
            if has_prefix(m, gt) {
                lemma_gt_escaped_first(tail, 'g');
                let t1 = tail.skip(1);
                lemma_gt_escaped_first(t1, 't');
                let t2 = t1.skip(1);
                lemma_gt_escaped_first(t2, ';');
                assert(s.skip(0) =~= s);
                assert(s.subrange(0, 4) =~= gt);
            }
        }
    }
}

/// The scan of an opening body tag stands inside the body with nothing kept.
proof fn lemma_scan_open()
    ensures
        scanned("<body>"@) == (Scan {
            in_angle: false,
            in_body: true,
            tag: "body"@,
            out: Seq::empty(),
        }),
{
    lemma_literals();
    let p = "<body>"@;
    let none = Seq::<char>::empty();
    assert(p.take(1).drop_last() =~= p.take(0));
    assert(p.take(2).drop_last() =~= p.take(1));
    assert(p.take(3).drop_last() =~= p.take(2));
    assert(p.take(4).drop_last() =~= p.take(3));
    assert(p.take(5).drop_last() =~= p.take(4));
    assert(scanned(p.take(0)) == scan_start());
    assert(scanned(p.take(2)) == scan_step(scanned(p.take(1)), 'b'));
    assert(scanned(p.take(2)) == (Scan {
        in_angle: true,
        in_body: false,
        tag: seq!['b'],
        out: none,
    }));
    assert(scanned(p.take(3)) == (Scan {
        in_angle: true,
        in_body: false,
        tag: seq!['b', 'o'],
        out: none,
    })) by {
        assert(seq!['b'].push('o') =~= seq!['b', 'o']);
    }
    assert(scanned(p.take(4)) == (Scan {
        in_angle: true,
        in_body: false,
        tag: seq!['b', 'o', 'd'],
        out: none,
    })) by {
        assert(seq!['b', 'o'].push('d') =~= seq!['b', 'o', 'd']);
    }
    assert(scanned(p.take(5)) == (Scan {
        in_angle: true,
        in_body: true,
        tag: "body"@,
        out: none,
    })) by {
        assert(seq!['b', 'o', 'd'].push('y') =~= "body"@);
    }
}

/// Text without brackets that is scanned inside the body is kept as it is.
proof fn lemma_scan_text(p: Seq<char>, s: Seq<char>)
    requires
        no_bracket(s),
        !scanned(p).in_angle,
        scanned(p).in_body,
        scanned(p).tag == "body"@,
    ensures
        scanned(p + s) == (Scan { out: scanned(p).out + s, ..scanned(p) }),
    decreases s.len(),
{
    lemma_literals();
    if s.len() > 0 {
        let front = s.drop_last();
        lemma_scan_text(p, front);
        assert((p + s).drop_last() =~= p + front);
        assert((scanned(p).out + front).push(s.last()) =~= scanned(p).out + s);
    }
}

/// The scan of a closing body tag keeps nothing more.
proof fn lemma_scan_close(p: Seq<char>)
    requires
        !scanned(p).in_angle,
        scanned(p).in_body,
        scanned(p).tag == "body"@,
    ensures
        scanned(p + "</body>"@).out == scanned(p).out,
{
    lemma_literals();
    let c = "</body>"@;
    let out = scanned(p).out;
    let q0 = p + c.take(0);
    let q1 = p + c.take(1);
    let q2 = p + c.take(2);
    let q3 = p + c.take(3);
    let q4 = p + c.take(4);
    let q5 = p + c.take(5);
    let q6 = p + c.take(6);
    let q7 = p + c.take(7);
    assert(q1.drop_last() =~= q0 && q1.last() == '<');
    assert(q2.drop_last() =~= q1 && q2.last() == '/');
    assert(q3.drop_last() =~= q2 && q3.last() == 'b');
    assert(q4.drop_last() =~= q3 && q4.last() == 'o');
    assert(q5.drop_last() =~= q4 && q5.last() == 'd');
    assert(q6.drop_last() =~= q5 && q6.last() == 'y');
    assert(q7.drop_last() =~= q6 && q7.last() == '>');
    assert(q7 =~= p + c);
    assert(scanned(q2) == scan_step(scanned(q1), '/'));
    assert(scanned(q3) == (Scan { in_angle: true, in_body: true, tag: seq!['/', 'b'], out })) by {
        assert(seq!['/'].push('b') =~= seq!['/', 'b']);
    }
    assert(scanned(q4) == (Scan {
        in_angle: true,
        in_body: true,
        tag: seq!['/', 'b', 'o'],
        out,
    })) by {
        assert(seq!['/', 'b'].push('o') =~= seq!['/', 'b', 'o']);
    }
    assert(scanned(q5) == (Scan {
        in_angle: true,
        in_body: true,
        tag: seq!['/', 'b', 'o', 'd'],
        out,
    })) by {
        assert(seq!['/', 'b', 'o'].push('d') =~= seq!['/', 'b', 'o', 'd']);
    }
    assert(scanned(q6) == (Scan { in_angle: true, in_body: false, tag: "/body"@, out })) by {
        assert(seq!['/', 'b', 'o', 'd'].push('y') =~= "/body"@);
    }
}

/// Showing the source view of a page gives the page back: a body that
/// holds neither `&lt;` nor `&gt;` is shown, once transformed, exactly as it
/// was written.
pub proof fn lemma_show_undoes_transform(body: Seq<char>)
    requires
        free_of(body, "&lt;"@),
        free_of(body, "&gt;"@),
    ensures
        shown(transformed(body)) == body,
{
    let inner = escaped(body);
    lemma_replaced_lt(body);
    lemma_replaced_gt(lt_escaped(body));
    lemma_escaped_no_bracket(body);
    lemma_scan_open();
    lemma_scan_text("<body>"@, inner);
    lemma_scan_close("<body>"@ + inner);
    lemma_unescape_lt(body);
    lemma_unescape_gt(body);
}

} // verus!
