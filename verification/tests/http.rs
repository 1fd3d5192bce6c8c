use duckle::http::{
    guard_local, header_host, hex_val, is_loopback_host, parse_head, respond, respond_403, respond_err,
    respond_json, split_query, url_decode, Intake, Request, Step, MAX_BODY, MAX_HEAD, READ_TIMEOUT_SECS,
};
use duckle::json::Json;

fn read(parts: &[&[u8]]) -> Step {
    let mut intake = Intake::new();
    for p in parts {
        match intake.feed(p) {
            Step::More => {}
            done => return done,
        }
    }
    Step::More
}

fn whole(parts: &[&[u8]]) -> Request {
    match read(parts) {
        Step::Whole(r) => r,
        other => panic!("{other:?}"),
    }
}

#[test]
fn an_unidentified_caller_cannot_name_its_own_body_size() {
    let head = format!(
        "POST /api/run HTTP/1.1\r\nHost: x\r\nContent-Length: {}\r\n\r\n",
        MAX_BODY + 1
    );
    // Refused without a byte of the body.
    match read(&[head.as_bytes()]) {
        Step::Refused(e) => assert!(e.contains("too large"), "wrong refusal: {e}"),
        other => panic!("an unbounded body was accepted: {other:?}"),
    }
    let req = whole(&[b"GET /api/summary HTTP/1.1\r\nHost: x\r\n\r\n"]);
    assert_eq!(req.path, "/api/summary");
    assert_eq!(READ_TIMEOUT_SECS, 30);
}

#[test]
fn a_head_that_never_ends_is_given_up() {
    let flood = vec![b'a'; MAX_HEAD + 1];
    assert!(matches!(read(&[&flood]), Step::Refused(_)));
}

#[test]
fn a_request_is_the_same_however_it_arrives() {
    let all: &[u8] = b"POST /api/run?x=1 HTTP/1.1\r\nHost: h:1\r\nContent-Length: 5\r\nCookie: a=b\r\n\r\nhello";
    for cut in 1..all.len() {
        let req = whole(&[&all[..cut], &all[cut..]]);
        assert_eq!(req.method, "POST");
        assert_eq!(req.path, "/api/run");
        assert_eq!(req.query.get("x").map(String::as_str), Some("1"));
        assert_eq!(req.host.as_deref(), Some("h:1"));
        assert_eq!(req.cookie.as_deref(), Some("a=b"));
        assert_eq!(req.body, b"hello");
    }
    // What comes behind the body is not part of it.
    assert_eq!(whole(&[b"POST / HTTP/1.1\r\ncontent-length: 2\r\n\r\nhello"]).body, b"he");
    assert!(matches!(read(&[b"POST / HTTP/1.1\r\nContent-Length: 9\r\n\r\nhel"]), Step::More));
}

#[test]
fn a_connection_that_closes_early_is_read_as_far_as_it_came() {
    let mut intake = Intake::new();
    assert!(matches!(intake.feed(b"GET / HTTP/1.1\r\n"), Step::More));
    match intake.feed(b"") {
        Step::More => panic!("nothing more can come"),
        Step::Whole(_) | Step::Refused(_) => {}
    }
}

#[test]
fn headers_are_found_whatever_their_case() {
    let (req, length) = parse_head(
        "GET /a%20b?q=x+y&z HTTP/1.1\r\nORIGIN: http://o\r\nhost: h\r\nAuthorization: Bearer t\r\nContent-Length: 12",
    );
    assert_eq!(req.method, "GET");
    assert_eq!(req.origin.as_deref(), Some("http://o"));
    assert_eq!(req.host.as_deref(), Some("h"));
    assert_eq!(req.authorization.as_deref(), Some("Bearer t"));
    assert_eq!(req.query.get("q").map(String::as_str), Some("x y"));
    assert_eq!(length, 12);
}

#[test]
fn targets_are_split_and_decoded() {
    let (path, query) = split_query("/api/log?id=a%2Fb&tail=5&id=c");
    assert_eq!(path, "/api/log");
    assert_eq!(query.get("id").map(String::as_str), Some("c"), "the last one wins");
    assert_eq!(query.get("tail").map(String::as_str), Some("5"));
    assert_eq!(url_decode("a%20b+c%zz%4"), "a b c%zz%4");
    assert_eq!(url_decode("%E2%82%AC"), "€");
    assert_eq!(url_decode("%FF"), "\u{fffd}");
    assert_eq!(hex_val(b'f'), Some(15));
    assert_eq!(hex_val(b'A'), Some(10));
    assert_eq!(hex_val(b'g'), None);
}

fn from(origin: Option<&str>, host: Option<&str>) -> Request {
    let mut r = whole(&[b"POST /api/run HTTP/1.1\r\n\r\n"]);
    r.origin = origin.map(|s| s.to_string());
    r.host = host.map(|s| s.to_string());
    r
}

#[test]
fn requests_from_elsewhere_are_told_apart() {
    // A script with no browser behind it.
    assert!(guard_local(&from(None, None), "127.0.0.1"));
    assert!(guard_local(&from(None, Some("localhost:8080")), "127.0.0.1"));
    assert!(guard_local(&from(Some("http://localhost:8080"), Some("localhost:8080")), "127.0.0.1"));
    // A page from somewhere else.
    assert!(!guard_local(&from(Some("https://evil.test"), Some("localhost:8080")), "127.0.0.1"));
    // A name that was rebound to this machine.
    assert!(!guard_local(&from(None, Some("evil.test")), "127.0.0.1"));
    // A server with a name of its own.
    assert!(guard_local(&from(Some("https://duckle.test"), Some("duckle.test")), "0.0.0.0"));
    assert!(!guard_local(&from(Some("https://evil.test"), Some("duckle.test")), "0.0.0.0"));
    assert_eq!(header_host("http://localhost:8080/x"), "localhost");
    assert_eq!(header_host("[::1]:8080"), "::1");
    assert!(is_loopback_host("::1"));
    assert!(!is_loopback_host("example.com"));
}

#[test]
fn replies_are_written_with_their_lengths() {
    let r = respond("200 OK", "text/plain", b"hi".to_vec());
    assert_eq!(
        r.head(),
        "HTTP/1.1 200 OK\r\nContent-Type: text/plain\r\nContent-Length: 2\r\nConnection: close\r\n\r\n"
    );
    let mut with_cookie = respond("200 OK", "text/plain", vec![]);
    with_cookie.cookie = Some("a=b; Path=/".to_string());
    assert!(with_cookie.head().contains("\r\nSet-Cookie: a=b; Path=/\r\n"));

    let r = respond_json(&Json::List(vec![Json::Bool(true), Json::Text("é\n".to_string())]));
    assert_eq!(r.status, "200 OK");
    assert_eq!(r.content_type, "application/json");
    assert_eq!(r.body, "[true,\"é\\n\"]".as_bytes());

    let r = respond_err("404 Not Found", "no \"x\"");
    assert_eq!(r.body, br#"{"error":"no \"x\""}"#);
    let r = respond_403("no");
    assert_eq!((r.status.as_str(), r.content_type.as_str()), ("403 Forbidden", "text/plain"));
    assert_eq!(r.body, b"no");
}

#[test]
fn a_server_on_this_machine_is_one_however_its_address_is_written() {
    for bound in ["127.0.0.1", "::1", "[::1]", "localhost"] {
        assert!(!guard_local(&from(None, Some("evil.example")), bound), "{bound} was open");
        assert!(guard_local(&from(None, Some("[::1]:8080")), bound));
    }
}
