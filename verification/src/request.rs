//! What is sent to a server: the address to connect to and the text of the
//! request.

use crate::error::ResponseError;
use crate::text::{append_chars, chars_of, decimal, push_decimal, str_eq, string_of};
use crate::url::URL;
use vstd::prelude::*;

verus! {

/// One header of a request.
#[derive(Debug)]
pub struct Header {
    pub key: String,
    pub value: String,
}

/// What is needed to send a request: the address of the server as host and
/// port, the name by which the server is known, and the text to send.
#[derive(Debug)]
pub struct RequestPlan {
    pub target: String,
    pub server_name: String,
    pub message: String,
}

/// The names and values of the headers sent to `host`, in the order sent:
/// the host, a connection that closes after the response (the end of the
/// stream then ends the body), the name of this client, and gzip as the one
/// compression understood.
pub open spec fn request_header_list(host: Seq<char>) -> Seq<(Seq<char>, Seq<char>)> {
    seq![
        ("Host"@, host),
        ("Connection"@, "close"@),
        ("User-Agent"@, "BDBDBDLEE-BROWSER"@),
        ("Accept-Encoding"@, "gzip"@),
    ]
}

/// Names and values of a list of headers.
pub open spec fn header_views(headers: Seq<Header>) -> Seq<(Seq<char>, Seq<char>)> {
    Seq::new(headers.len(), |i: int| (headers[i].key@, headers[i].value@))
}

/// The header part of a request: for each header a line of name, colon,
/// space, value and line end.
pub open spec fn header_lines(headers: Seq<(Seq<char>, Seq<char>)>) -> Seq<char>
    decreases headers.len(),
{
    if headers.len() == 0 {
        Seq::empty()
    } else {
        header_lines(headers.drop_last()) + headers.last().0 + ": "@ + headers.last().1 + "\r\n"@
    }
}

/// The text of a request for `path`: the request line, the header lines and
/// an empty line.
pub open spec fn request_message(path: Seq<char>, headers: Seq<(Seq<char>, Seq<char>)>) -> Seq<
    char,
> {
    "GET "@ + path + " HTTP/1.1\r\n"@ + header_lines(headers) + "\r\n"@
}

/// The address of a server: host, colon and the port as a decimal numeral.
pub open spec fn target_address(host: Seq<char>, port: u32) -> Seq<char> {
    host + ":"@ + decimal(port as nat)
}

/// The headers sent to `host`.
pub fn request_headers(host: &str) -> (headers: Vec<Header>)
    ensures
        header_views(headers@) == request_header_list(host@),
{
    let mut headers: Vec<Header> = Vec::new();
    headers.push(Header { key: "Host".to_owned(), value: host.to_owned() });
    headers.push(Header { key: "Connection".to_owned(), value: "close".to_owned() });
    headers.push(Header { key: "User-Agent".to_owned(), value: "BDBDBDLEE-BROWSER".to_owned() });
    headers.push(Header { key: "Accept-Encoding".to_owned(), value: "gzip".to_owned() });
    headers
}

/// The text of a request for `path` with the given headers.
pub fn request_text(path: &str, headers: &Vec<Header>) -> (text: String)
    ensures
        text@ == request_message(path@, header_views(headers@)),
{
    let mut out = chars_of("GET ");
    append_chars(&mut out, chars_of(path).as_slice());
    append_chars(&mut out, chars_of(" HTTP/1.1\r\n").as_slice());
    let ghost head = out@;
    let ghost views = header_views(headers@);
    let mut i: usize = 0;
    while i < headers.len()
        invariant
            i <= headers.len(),
            views == header_views(headers@),
            out@ == head + header_lines(views.take(i as int)),
        decreases headers.len() - i,
    {
        append_chars(&mut out, chars_of(headers[i].key.as_str()).as_slice());
        append_chars(&mut out, chars_of(": ").as_slice());
        append_chars(&mut out, chars_of(headers[i].value.as_str()).as_slice());
        append_chars(&mut out, chars_of("\r\n").as_slice());
        proof {
            let next = views.take(i + 1);
            assert(next.drop_last() =~= views.take(i as int));
        }
        i = i + 1;
    }
    assert(views.take(i as int) =~= views);
    append_chars(&mut out, chars_of("\r\n").as_slice());
    string_of(out.as_slice())
}

/// The address to connect to for `host` and `port`.
pub fn target_of(host: &str, port: u32) -> (target: String)
    ensures
        target@ == target_address(host@, port),
{
    let mut out = chars_of(host);
    append_chars(&mut out, chars_of(":").as_slice());
    push_decimal(&mut out, port);
    string_of(out.as_slice())
}

/// `plan` is what is sent for `url`.
pub open spec fn is_plan_of(plan: RequestPlan, url: URL) -> bool {
    &&& plan.target@ == target_address(url.host@, url.port)
    &&& plan.server_name@ == url.host@
    &&& plan.message@ == request_message(url.path@, request_header_list(url.host@))
}

/// Plans the request for `url`. A URL with the scheme `http` is refused:
/// only secured connections are made.
pub fn prepare_request(url: &URL) -> (plan: Result<RequestPlan, ResponseError>)
    ensures
        url.scheme@ == "http"@ ==> (plan matches Err(e) && e == ResponseError::UnsupportedScheme),
        url.scheme@ != "http"@ ==> (plan matches Ok(p) && is_plan_of(p, *url)),
{
    if str_eq(url.scheme.as_str(), "http") {
        return Err(ResponseError::UnsupportedScheme);
    }
    let headers = request_headers(url.host.as_str());
    Ok(
        RequestPlan {
            target: target_of(url.host.as_str(), url.port),
            server_name: url.host.clone(),
            message: request_text(url.path.as_str(), &headers),
        },
    )
}

} // verus!
