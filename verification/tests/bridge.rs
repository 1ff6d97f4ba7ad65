use omnidl::bridge::{answers_ping, is_extension_origin, parse, route, AddBody, Links, Parse, Request, CLIENT_HEADER, MAX_REQUEST, PORT};
use omnidl::config::Mode;

const P: u16 = PORT;

fn request(method: &str, path: &str, headers: &[(&str, &str)], body: &str) -> Request {
    let mut raw = format!("{method} {path} HTTP/1.1\r\n");
    for (n, v) in headers {
        raw.push_str(&format!("{n}: {v}\r\n"));
    }
    raw.push_str(&format!("Content-Length: {}\r\n\r\n{body}", body.len()));
    match parse(raw.as_bytes()) {
        Parse::Done(r) => r,
        _ => panic!("nicht geparst"),
    }
}

fn from_extension(body: &str) -> Request {
    request(
        "POST",
        "/v1/add",
        &[("Host", "127.0.0.1:47813"), ("Origin", "chrome-extension://abc"), ("X-Omnidl-Client", "extension")],
        body,
    )
}

fn add_body(urls: &[&str], url: Option<&str>, mode: Option<&str>, focus: bool) -> Option<AddBody> {
    Some(AddBody {
        urls: urls.iter().map(|u| u.to_string()).collect(),
        url: url.map(|u| u.to_string()),
        mode: mode.map(|m| m.to_string()),
        focus,
    })
}

#[test]
fn parses_in_pieces() {
    let raw = b"POST /v1/add HTTP/1.1\r\nHost: x\r\nContent-Length: 5\r\n\r\nhello";
    assert!(matches!(parse(&raw[..20]), Parse::Incomplete));
    assert!(matches!(parse(&raw[..raw.len() - 2]), Parse::Incomplete), "Body fehlt noch");
    let Parse::Done(r) = parse(raw) else { panic!() };
    assert_eq!((r.method.as_str(), r.path.as_str(), r.body.as_slice()), ("POST", "/v1/add", &b"hello"[..]));
    assert_eq!(r.header("host").as_deref(), Some("x"), "Namen ohne Groß/klein");
}

#[test]
fn rejects_malformed_requests() {
    assert!(matches!(parse(b"GARBAGE\r\n\r\n"), Parse::Invalid));
    assert!(matches!(parse(b"GET / SPDY/3\r\n\r\n"), Parse::Invalid));
    assert!(matches!(parse(b"GET / HTTP/1.1\r\nno colon\r\n\r\n"), Parse::Invalid));
    assert!(matches!(parse(b"POST / HTTP/1.1\r\nContent-Length: 999999999\r\n\r\n"), Parse::Invalid));
    assert!(matches!(parse(b"POST / HTTP/1.1\r\nTransfer-Encoding: chunked\r\n\r\n"), Parse::Invalid));
    assert!(matches!(parse(&vec![b'a'; MAX_REQUEST]), Parse::Invalid));
}

#[test]
fn extension_can_add_links() {
    // {"urls":["https://youtu.be/a"," https://x.com/u/status/1 "],"mode":"audio"}
    let req = from_extension(r#"{"urls":["https://youtu.be/a"," https://x.com/u/status/1 "],"mode":"audio"}"#);
    let (resp, links) = route(&req, P, add_body(&["https://youtu.be/a", " https://x.com/u/status/1 "], None, Some("audio"), false));
    assert_eq!(resp.status, 202);
    assert_eq!(resp.header("Access-Control-Allow-Origin").as_deref(), Some("chrome-extension://abc"));
    let links = links.unwrap();
    assert_eq!(links.urls, vec!["https://youtu.be/a", "https://x.com/u/status/1"]);
    assert_eq!(links.mode, Some(Mode::Audio));
    assert!(!links.focus);
}

#[test]
fn single_url_field_and_junk_filtered() {
    let body = r#"{"url":"https://vimeo.com/1","urls":["file:///C:/x","javascript:1"]}"#;
    let (resp, links) =
        route(&from_extension(body), P, add_body(&["file:///C:/x", "javascript:1"], Some("https://vimeo.com/1"), None, false));
    assert_eq!(resp.status, 202);
    assert_eq!(links.unwrap().urls, vec!["https://vimeo.com/1"]);

    let (resp, links) = route(&from_extension(r#"{"urls":["ftp://x"]}"#), P, add_body(&["ftp://x"], None, None, false));
    assert_eq!((resp.status, links), (400, None));
    let (resp, _) = route(&from_extension("kein json"), P, None);
    assert_eq!(resp.status, 400);
}

#[test]
fn web_pages_are_turned_away() {
    let page = [("Host", "127.0.0.1:47813"), ("Origin", "https://evil.example"), ("X-Omnidl-Client", "x")];
    let body = r#"{"urls":["https://a.com"]}"#;
    let (resp, links) = route(&request("POST", "/v1/add", &page, body), P, add_body(&["https://a.com"], None, None, false));
    assert_eq!((resp.status, links), (403, None));

    // Preflight from a page: refused, so the browser never sends the real request.
    let (resp, _) = route(&request("OPTIONS", "/v1/add", &page[..2], ""), P, None);
    assert_eq!(resp.status, 403);
    assert_eq!(resp.header("Access-Control-Allow-Origin"), None);

    // Simple request without the custom header (form post).
    let form = [("Host", "127.0.0.1:47813")];
    let (resp, _) = route(&request("POST", "/v1/add", &form, body), P, add_body(&["https://a.com"], None, None, false));
    assert_eq!(resp.status, 403);

    // DNS rebinding: the page's own host name arrives in Host.
    let rebound = [("Host", "evil.example:47813"), ("X-Omnidl-Client", "x")];
    let (resp, _) = route(&request("GET", "/v1/ping", &rebound, ""), P, None);
    assert_eq!(resp.status, 403);
}

#[test]
fn preflight_from_extension_is_allowed() {
    let h = [("Host", "localhost:47813"), ("Origin", "moz-extension://1234")];
    let (resp, _) = route(&request("OPTIONS", "/v1/add", &h, ""), P, None);
    assert_eq!(resp.status, 204);
    assert!(resp.header("Access-Control-Allow-Headers").unwrap().contains(CLIENT_HEADER));
    assert_eq!(resp.header("Access-Control-Allow-Private-Network").as_deref(), Some("true"));
}

#[test]
fn ping_and_unknown_paths() {
    let h = [("Host", "127.0.0.1:47813"), ("X-Omnidl-Client", "launcher")];
    let (resp, _) = route(&request("GET", "/v1/ping", &h, ""), P, None);
    assert_eq!(resp.status, 200);
    assert!(String::from_utf8(resp.to_bytes()).unwrap().contains("\"app\":\"omnidl\""));
    assert_eq!(route(&request("GET", "/v1/add", &h, ""), P, None).0.status, 405);
    assert_eq!(route(&request("GET", "/", &h, ""), P, None).0.status, 404);
    // Focus without links: a second start of the app.
    let (resp, links) = route(&request("POST", "/v1/add", &h, r#"{"focus":true}"#), P, add_body(&[], None, None, true));
    assert_eq!(resp.status, 202);
    assert_eq!(links, Some(Links { urls: vec![], mode: None, focus: true }));
}

#[test]
fn pings_are_recognised_and_origins_checked() {
    assert!(answers_ping(200, "{\"app\":\"omnidl\",\"version\":\"0.2.0\"}"));
    assert!(!answers_ping(404, "{\"app\":\"omnidl\"}"));
    assert!(is_extension_origin("chrome-extension://abc"));
    assert!(!is_extension_origin("https://evil.example"));
}

#[test]
fn answers_are_read_by_status_and_body() {
    assert_eq!(
        omnidl::bridge::read_reply("HTTP/1.1 200 OK\r\nContent-Type: application/json\r\n\r\n{\"app\":\"omnidl\"}"),
        Some((200, "{\"app\":\"omnidl\"}".to_string()))
    );
    assert_eq!(omnidl::bridge::read_reply("HTTP/1.1 202 Accepted\r\n"), Some((202, String::new())));
    assert_eq!(omnidl::bridge::read_reply("SSH-2.0-OpenSSH"), None);
    assert_eq!(omnidl::bridge::read_reply("HTTP/1.1 99999 Huge\r\n\r\n"), None);
}
