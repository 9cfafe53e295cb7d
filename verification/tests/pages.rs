use browser_core::error::ResponseError;
use browser_core::load::{load_action, show_source, try_load_action, LoadAction};
use browser_core::render::{show, transform};
use browser_core::request::{prepare_request, request_headers, request_text, target_of};
use browser_core::text::{
    chars_of, find_from, replace_all, starts_with_at, str_eq, string_of, strip_suffix, trim,
};
use browser_core::url::{parse_url, try_parse_url, URL};

fn chars(s: &str) -> Vec<char> {
    s.chars().collect()
}

#[test]
fn url_without_path_or_port() {
    let url = parse_url("https://example.org");
    assert_eq!(url.scheme, "https");
    assert_eq!(url.host, "example.org");
    assert_eq!(url.port, 443);
    assert_eq!(url.path, "/");
}

#[test]
fn url_with_path() {
    let url = parse_url("http://example.org/a/b.html?x=1://y");
    assert_eq!(url.scheme, "http");
    assert_eq!(url.host, "example.org");
    assert_eq!(url.port, 80);
    assert_eq!(url.path, "/a/b.html?x=1://y");

    let url = parse_url("https://example.org/");
    assert_eq!(url.path, "/");
    let url = parse_url("https://example.org//");
    assert_eq!(url.path, "//");
}

#[test]
fn url_scheme_is_all_before_the_separator() {
    let url = parse_url("view-source:https://example.org/x");
    assert_eq!(url.scheme, "view-source:https");
    assert_eq!(url.host, "example.org");
    assert_eq!(url.port, 443);
    assert_eq!(url.path, "/x");

    let url = parse_url(":///p:1");
    assert_eq!(url.scheme, "");
    assert_eq!(url.host, "");
    assert_eq!(url.port, 443);
    assert_eq!(url.path, "/p:1");
}

#[test]
fn url_that_cannot_be_split() {
    assert!(try_parse_url("example.org").is_none());
    assert!(try_parse_url("").is_none());
    assert!(try_parse_url("https:/example.org").is_none());
    assert!(try_parse_url("https://example.org:8080/index.html").is_none());
    assert!(try_parse_url("https://example.org:8080").is_none());
    let url = try_parse_url("https://example.org/a:b").unwrap();
    assert_eq!(url.path, "/a:b");
}

#[test]
fn show_keeps_the_text_of_the_body() {
    assert_eq!(show("<html><head><title>T</title></head><body>Hi <b>there</b>!</body></html>"), "Hi there!");
    assert_eq!(show("before<body class=\"x\">in</body>after"), "in");
    assert_eq!(show("no body at all"), "");
    assert_eq!(show("<body>a<br/>b</body>c<body>d"), "abd");
    assert_eq!(show(""), "");
    assert_eq!(show("<body>x<bodyguard>y</bodyguard>z</body>"), "xy");
    assert_eq!(show("<bodyguard>y"), "y");
    assert_eq!(show("<body>a</bod>b</ body>c</body>d"), "abc");
}

#[test]
fn show_restores_escaped_brackets() {
    assert_eq!(show("<body>1 &lt; 2 &gt; 0</body>"), "1 < 2 > 0");
    assert_eq!(show("<body>&amp;lt; &l<i>t;</body>"), "&amp;lt; <");
    assert_eq!(show("<body>&&lt;gt;</body>"), "&<gt;");
}

#[test]
fn transform_escapes_and_wraps() {
    assert_eq!(transform(&"<p>a > b</p>".to_string()), "<body>&lt;p&gt;a &gt; b&lt;/p&gt;</body>");
    assert_eq!(transform(&String::new()), "<body></body>");
    assert_eq!(transform(&"&lt;".to_string()), "<body>&lt;</body>");
}

#[test]
fn source_view_shows_the_markup() {
    let page = "<html><body>Hi <b>there</b></body></html>".to_string();
    assert_eq!(show_source(&page), page);
    assert_eq!(show(&transform(&page)), page);
    for page in ["", "<", ">", "&", "&lt", "&<t;", "&g>", "a&&gt<;>b", "<body></body>", "</body>x"] {
        assert_eq!(show_source(&page.to_string()), page);
    }
}

#[test]
fn source_view_shows_an_escaped_bracket_as_the_bracket() {
    assert_eq!(show_source(&"a &lt; b".to_string()), "a < b");
    assert_eq!(show_source(&"<p>&gt;</p>".to_string()), "<p>></p>");
}

#[test]
fn request_text_is_exact() {
    let headers = request_headers("example.org");
    assert_eq!(headers.len(), 4);
    assert_eq!(headers[0].key, "Host");
    assert_eq!(headers[0].value, "example.org");
    assert_eq!(headers[3].key, "Accept-Encoding");
    assert_eq!(
        request_text("/index.html", &headers),
        "GET /index.html HTTP/1.1\r\nHost: example.org\r\nConnection: close\r\nUser-Agent: BDBDBDLEE-BROWSER\r\nAccept-Encoding: gzip\r\n\r\n"
    );
    assert_eq!(request_text("/", &Vec::new()), "GET / HTTP/1.1\r\n\r\n");
}

#[test]
fn target_is_host_and_decimal_port() {
    assert_eq!(target_of("example.org", 443), "example.org:443");
    assert_eq!(target_of("h", 0), "h:0");
    assert_eq!(target_of("h", 9), "h:9");
    assert_eq!(target_of("h", 10), "h:10");
    assert_eq!(target_of("", 4294967295), ":4294967295");
    assert_eq!(target_of("h", 1002003004), "h:1002003004");
}

#[test]
fn request_plan_for_a_secure_url() {
    let plan = prepare_request(&parse_url("https://example.org/a")).unwrap();
    assert_eq!(plan.target, "example.org:443");
    assert_eq!(plan.server_name, "example.org");
    assert_eq!(
        plan.message,
        "GET /a HTTP/1.1\r\nHost: example.org\r\nConnection: close\r\nUser-Agent: BDBDBDLEE-BROWSER\r\nAccept-Encoding: gzip\r\n\r\n"
    );
    let odd = URL {
        scheme: "ftp".to_string(),
        host: "h".to_string(),
        port: 21,
        path: "/".to_string(),
    };
    assert_eq!(prepare_request(&odd).unwrap().target, "h:21");
}

#[test]
fn plain_http_is_refused() {
    let url = parse_url("http://example.org/");
    assert_eq!(prepare_request(&url).unwrap_err(), ResponseError::UnsupportedScheme);
}

#[test]
fn load_action_by_prefix() {
    match load_action("file:///tmp/a,b.txt") {
        LoadAction::ReadFile(path) => assert_eq!(path, "/tmp/a,b.txt"),
        other => panic!("unexpected {:?}", other),
    }
    match load_action("data:text/html,Hello, world!") {
        LoadAction::Print(text) => assert_eq!(text, "type: data:text/html\ncontent: Hello, world!"),
        other => panic!("unexpected {:?}", other),
    }
    assert!(matches!(load_action("view-source:https://example.org"), LoadAction::ViewSource));
    assert!(matches!(load_action("https://example.org"), LoadAction::Browse));
    assert!(matches!(load_action(""), LoadAction::Browse));
    assert!(matches!(load_action("file:/x"), LoadAction::Browse));
    assert!(matches!(load_action("DATA:x"), LoadAction::Browse));
}

#[test]
fn data_url_without_comma_has_no_action() {
    assert!(try_load_action("data:text/html").is_none());
    assert!(try_load_action("data:").is_none());
    assert!(try_load_action("data:,").is_some());
}

#[test]
fn trim_strips_unicode_whitespace() {
    assert_eq!(trim(&chars(" \t\r\n a b \u{a0}\u{2028}\u{3000}")), chars("a b"));
    assert_eq!(trim(&chars("\u{85}\u{1680}\u{2000}\u{200a}\u{2029}\u{202f}\u{205f}x\u{b}\u{c}")), chars("x"));
    assert_eq!(trim(&chars("   ")), chars(""));
    assert_eq!(trim(&chars("")), chars(""));
    assert_eq!(trim(&chars("\u{200b}a\u{feff}")), chars("\u{200b}a\u{feff}"));
    assert_eq!(trim(&chars("\u{1c}a\u{1f}")), chars("\u{1c}a\u{1f}"));
    for code in 0u32..0x3100 {
        if let Some(c) = char::from_u32(code) {
            let text: String = [c, 'x', c].iter().collect();
            assert_eq!(string_of(&trim(&chars(&text))), text.trim(), "U+{:04X}", code);
        }
    }
}

#[test]
fn replace_scans_from_the_left() {
    assert_eq!(replace_all(&chars("aaa"), &chars("aa"), &chars("b")), chars("ba"));
    assert_eq!(replace_all(&chars("abcabc"), &chars("bc"), &chars("")), chars("aa"));
    assert_eq!(replace_all(&chars("abc"), &chars("x"), &chars("y")), chars("abc"));
    assert_eq!(replace_all(&chars("abc"), &chars(""), &chars("y")), chars("abc"));
    assert_eq!(replace_all(&chars("ab"), &chars("ab"), &chars("abab")), chars("abab"));
    assert_eq!(replace_all(&chars(""), &chars("a"), &chars("b")), chars(""));
}

#[test]
fn strip_suffix_cuts_one_suffix_at_the_end() {
    assert_eq!(strip_suffix(&chars("ab\r\n"), &chars("\r\n")), chars("ab"));
    assert_eq!(strip_suffix(&chars("ab\r\n\r\n"), &chars("\r\n")), chars("ab\r\n"));
    assert_eq!(strip_suffix(&chars("\r\nab"), &chars("\r\n")), chars("\r\nab"));
    assert_eq!(strip_suffix(&chars("\n"), &chars("\r\n")), chars("\n"));
    assert_eq!(strip_suffix(&chars("\r\n"), &chars("\r\n")), chars(""));
    assert_eq!(strip_suffix(&chars(""), &chars("\r\n")), chars(""));
    assert_eq!(strip_suffix(&chars("ab"), &chars("")), chars("ab"));
}

#[test]
fn find_gives_the_first_occurrence() {
    let text = chars("a://b://c");
    assert_eq!(find_from(&text, 0, &chars("://")), 1);
    assert_eq!(find_from(&text, 2, &chars("://")), 5);
    assert_eq!(find_from(&text, 6, &chars("://")), 9);
    assert_eq!(find_from(&text, 9, &chars("://")), 9);
    assert_eq!(find_from(&text, 0, &chars("")), 0);
    assert!(starts_with_at(&text, 1, &chars("://")));
    assert!(!starts_with_at(&text, 0, &chars("://")));
    assert!(!starts_with_at(&text, 8, &chars("c:")));
    assert!(starts_with_at(&text, 9, &chars("")));
}

#[test]
fn strings_and_characters_convert_both_ways() {
    let text = "gr\u{fc}n \u{1f600} \r\n";
    assert_eq!(chars_of(text), chars(text));
    assert_eq!(string_of(&chars(text)), text);
    assert!(str_eq(text, text));
    assert!(!str_eq("a", "b"));
    assert!(!str_eq("a", "ab"));
    assert!(str_eq("", ""));
}
