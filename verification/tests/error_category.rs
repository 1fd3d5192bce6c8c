use duckle::error_category::categorize_error;

#[test]
fn buckets_common_messages() {
    let cases = [
        ("Connection refused (os error 111)", "network"),
        ("TLS handshake failed: bad certificate", "network"),
        // A missing local file is worded as an IO error, and a policy that
        // retries network errors would sit there re-reading a path that was
        // never going to appear.
        ("src: query: IO Error: No files found that match the pattern \"orders.csv\"", "other"),
        ("IO Error: No such file or directory", "other"),
        // A genuine network IO error still belongs in `network`.
        ("IO Error: Connection reset by peer", "network"),
        ("connection timed out after 30000 ms", "timeout"),
        ("Out of Memory Error: failed to allocate block", "oom"),
        ("IO Error: No space left on device", "disk"),
        ("snowflake: JWT token is invalid (390144)", "auth"),
        ("ORA-01017: invalid username/password; logon denied. authentication failed", "auth"),
        ("Binder Error: column \"order_id\" not found", "schema"),
        ("Catalog Error: Table 'orders' does not exist", "schema"),
        ("Conversion Error: Could not convert string 'abc' to INT64", "schema"),
        ("Parser Error: syntax error at or near \"SELEC\"", "syntax"),
        ("run was cancelled", "cancelled"),
        ("something inexplicable happened", "other"),
    ];
    for (msg, want) in cases {
        assert_eq!(categorize_error(msg), want, "msg: {msg}");
    }
}

#[test]
fn timeout_beats_network() {
    // "connection timed out" mentions both; timeout is the actionable bucket.
    assert_eq!(categorize_error("connection timed out"), "timeout");
}

#[test]
fn case_does_not_matter() {
    assert_eq!(categorize_error("RUN WAS CANCELLED"), categorize_error("run was cancelled"));
    assert_eq!(categorize_error("OUT OF MEMORY"), "oom");
    assert_eq!(categorize_error(""), "other");
}

#[test]
fn of_two_causes_in_one_message_the_earlier_category_decides() {
    let both = |a: &str, b: &str| categorize_error(&format!("{a}\n{b}"));
    for (a, b) in [
        ("run was cancelled", "Connection refused"),
        ("connection timed out", "Parser Error: syntax error"),
        ("Out of Memory Error", "something inexplicable happened"),
    ] {
        assert_eq!(both(a, b), both(b, a));
    }
    assert_eq!(both("something inexplicable happened", "run was cancelled"), "cancelled");
}
