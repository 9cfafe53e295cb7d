//! Splitting a URL into scheme, host, port and path.

use crate::text::{
    append_chars, chars_eq, chars_of, copy_range, find, find_from, lemma_find, string_of,
};
use vstd::prelude::*;

verus! {

/// The parts of a URL.
#[derive(Debug)]
pub struct URL {
    pub scheme: String,
    pub host: String,
    pub port: u32,
    pub path: String,
}

/// What stands before the first `://`.
pub open spec fn url_scheme(url: Seq<char>) -> Seq<char> {
    url.take(find(url, "://"@))
}

/// What stands after the first `://`.
pub open spec fn url_rest(url: Seq<char>) -> Seq<char> {
    url.skip(find(url, "://"@) + "://"@.len())
}

/// The host: what follows the scheme separator, up to the first slash.
pub open spec fn url_host(url: Seq<char>) -> Seq<char> {
    url_rest(url).take(find(url_rest(url), "/"@))
}

/// The path: a slash, then what follows the first slash after the host; a
/// lone slash where the URL ends with the host.
pub open spec fn url_path(url: Seq<char>) -> Seq<char> {
    let rest = url_rest(url);
    let slash = find(rest, "/"@);
    if slash < rest.len() {
        "/"@ + rest.skip(slash + 1)
    } else {
        "/"@
    }
}

/// The port: 80 for the scheme `http`, 443 for every other.
pub open spec fn url_port(url: Seq<char>) -> u32 {
    if url_scheme(url) == "http"@ {
        80
    } else {
        443
    }
}

/// A URL that can be split: it holds `://`, and its host holds no colon.
pub open spec fn splittable(url: Seq<char>) -> bool {
    &&& find(url, "://"@) < url.len()
    &&& find(url_host(url), ":"@) == url_host(url).len()
}

/// `parts` are the parts of `url`.
pub open spec fn is_split_of(parts: URL, url: Seq<char>) -> bool {
    &&& parts.scheme@ == url_scheme(url)
    &&& parts.host@ == url_host(url)
    &&& parts.port == url_port(url)
    &&& parts.path@ == url_path(url)
}

/// Splits `url` into its parts; `None` where it holds no `://` or its host
/// holds a colon.
pub fn try_parse_url(url: &str) -> (parts: Option<URL>)
    ensures
        parts is Some <==> splittable(url@),
        parts matches Some(p) ==> is_split_of(p, url@),
{
    let chars = chars_of(url);
    let separator = chars_of("://");
    assert(chars@.skip(0) =~= chars@);
    let at = find_from(chars.as_slice(), 0, separator.as_slice());
    if at >= chars.len() {
        return None;
    }
    proof {
        lemma_find(chars@, separator@);
    }
    let scheme = copy_range(chars.as_slice(), 0, at);
    let rest = copy_range(chars.as_slice(), at + separator.len(), chars.len());
    assert(rest@.skip(0) =~= rest@);
    let slash = find_from(rest.as_slice(), 0, chars_of("/").as_slice());
    let host = copy_range(rest.as_slice(), 0, slash);
    assert(host@.skip(0) =~= host@);
    let colon = find_from(host.as_slice(), 0, chars_of(":").as_slice());
    if colon < host.len() {
        return None;
    }
    let port: u32 = if chars_eq(scheme.as_slice(), chars_of("http").as_slice()) {
        80
    } else {
        443
    };
    let mut path = chars_of("/");
    if slash < rest.len() {
        let tail = copy_range(rest.as_slice(), slash + 1, rest.len());
        append_chars(&mut path, tail.as_slice());
    }
    Some(
        URL {
            scheme: string_of(scheme.as_slice()),
            host: string_of(host.as_slice()),
            port,
            path: string_of(path.as_slice()),
        },
    )
}

/// Splits `url` into its parts.
pub fn parse_url(url: &str) -> (parts: URL)
    requires
        splittable(url@),
    ensures
        is_split_of(parts, url@),
{
    try_parse_url(url).unwrap()
}

} // verus!
