//! Deciding what loading a URL means: reading a file, showing inline data,
//! or fetching a page, to show it or its source.

use crate::render::{
    free_of, lemma_show_undoes_transform, show, shown, transform, transformed,
};
use crate::text::{
    append_chars, chars_of, copy_range, find, find_from, has_prefix, starts_with_at, string_of,
};
use vstd::prelude::*;

verus! {

/// What is to be done for a URL.
#[derive(Debug)]
pub enum LoadAction {
    /// Read the file at this path and print what it holds.
    ReadFile(String),
    /// Print this text.
    Print(String),
    /// Fetch the URL and show the source of the page.
    ViewSource,
    /// Fetch the URL and show the page.
    Browse,
}

/// The report on a data URL: what stands before its first comma as the
/// type, what follows that comma as the content.
pub open spec fn data_report(url: Seq<char>) -> Seq<char> {
    "type: "@ + url.take(find(url, ","@)) + "\ncontent: "@ + url.skip(find(url, ","@) + 1)
}

/// A data URL: one that starts with `data:` and not with `file://`.
pub open spec fn is_data_url(url: Seq<char>) -> bool {
    !has_prefix(url, "file://"@) && has_prefix(url, "data:"@)
}

/// A URL for which there is something to do: every URL but a data URL
/// without a comma.
pub open spec fn loadable(url: Seq<char>) -> bool {
    is_data_url(url) ==> find(url, ","@) < url.len()
}

/// `action` is what is to be done for `url`: a URL that starts with
/// `file://` names a file by what follows that prefix; a data URL is
/// reported; one that starts with `view-source:` has its source shown; every
/// other is browsed.
pub open spec fn is_action_for(action: LoadAction, url: Seq<char>) -> bool {
    if has_prefix(url, "file://"@) {
        action matches LoadAction::ReadFile(path) && path@ == url.skip("file://"@.len() as int)
    } else if has_prefix(url, "data:"@) {
        action matches LoadAction::Print(text) && text@ == data_report(url)
    } else if has_prefix(url, "view-source:"@) {
        action is ViewSource
    } else {
        action is Browse
    }
}

/// What is to be done for `url`; `None` for a data URL without a comma.
pub fn try_load_action(url: &str) -> (action: Option<LoadAction>)
    ensures
        action is Some <==> loadable(url@),
        action matches Some(a) ==> is_action_for(a, url@),
{
    let chars = chars_of(url);
    let file_prefix = chars_of("file://");
    assert(chars@.skip(0) =~= chars@);
    if starts_with_at(chars.as_slice(), 0, file_prefix.as_slice()) {
        let path = copy_range(chars.as_slice(), file_prefix.len(), chars.len());
        return Some(LoadAction::ReadFile(string_of(path.as_slice())));
    }
    if starts_with_at(chars.as_slice(), 0, chars_of("data:").as_slice()) {
        let comma = find_from(chars.as_slice(), 0, chars_of(",").as_slice());
        if comma >= chars.len() {
            return None;
        }
        let kind = copy_range(chars.as_slice(), 0, comma);
        let content = copy_range(chars.as_slice(), comma + 1, chars.len());
        let mut text = chars_of("type: ");
        append_chars(&mut text, kind.as_slice());
        append_chars(&mut text, chars_of("\ncontent: ").as_slice());
        append_chars(&mut text, content.as_slice());
        return Some(LoadAction::Print(string_of(text.as_slice())));
    }
    if starts_with_at(chars.as_slice(), 0, chars_of("view-source:").as_slice()) {
        return Some(LoadAction::ViewSource);
    }
    Some(LoadAction::Browse)
}

/// What is to be done for `url`.
pub fn load_action(url: &str) -> (action: LoadAction)
    requires
        loadable(url@),
    ensures
        is_action_for(action, url@),
{
    try_load_action(url).unwrap()
}

/// The text shown for the source of a page: the page wrapped so that its
/// markup is text, then shown like any page. That is the page as it was
/// written, unless it holds an escaped bracket itself, which is then shown
/// as the bracket.
pub fn show_source(body: &String) -> (text: String)
    ensures
        text@ == shown(transformed(body@)),
        free_of(body@, "&lt;"@) && free_of(body@, "&gt;"@) ==> text@ == body@,
{
    proof {
        if free_of(body@, "&lt;"@) && free_of(body@, "&gt;"@) {
            lemma_show_undoes_transform(body@);
        }
    }
    let page = transform(body);
    show(page.as_str())
}

} // verus!
