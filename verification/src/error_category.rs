//! Coarse error categorization for run results, alerts, and logs.
//!
//! Failures reach the run report as strings, which makes programmatic routing -
//! "retry network errors, fail fast on schema errors", alert payloads, log
//! filtering - impossible without parsing prose. This module buckets an error
//! message into a small, stable set of categories by the wording it holds. The
//! mapping is heuristic by design: it only has to be useful, not perfect, and
//! `other` is always a safe answer.
//!
//! Categories (stable, lowercase - external tooling may key on them):
//! `auth`, `network`, `timeout`, `oom`, `disk`, `schema`, `syntax`,
//! `cancelled`, `other`.
use crate::text::{contains, lower, lowered, mentions, stands_at, to_lower};
use vstd::prelude::*;
use vstd::string::*;

verus! {

/// Whether `m` holds any of the wordings.
pub open spec fn mentions_any(m: Seq<char>, wordings: Seq<Seq<char>>) -> bool {
    exists|i: int| 0 <= i < wordings.len() && mentions(m, #[trigger] wordings[i])
}

pub open spec fn cancelled_wordings() -> Seq<Seq<char>> {
    seq!["cancelled"@, "canceled by user"@]
}

pub open spec fn timeout_wordings() -> Seq<Seq<char>> {
    seq!["timed out"@, "timeout"@, "deadline exceeded"@]
}

pub open spec fn oom_wordings() -> Seq<Seq<char>> {
    seq!["out of memory"@, "memory limit"@, "failed to allocate"@, "cannot allocate"@, "oom"@]
}

pub open spec fn disk_wordings() -> Seq<Seq<char>> {
    seq!["no space left"@, "disk full"@, "too many open files"@, "quota exceeded"@]
}

pub open spec fn auth_wordings() -> Seq<Seq<char>> {
    seq![
        "authentication"@,
        "unauthorized"@,
        "forbidden"@,
        "access denied"@,
        "permission denied"@,
        "login failed"@,
        "invalid credentials"@,
        "password authentication failed"@,
        "jwt token is invalid"@,
        "token expired"@,
        "http 401"@,
        "http 403"@,
        "status 401"@,
        "status 403"@,
        "(401)"@,
        "(403)"@,
    ]
}

/// A local file that is not there is not a network problem: a retry policy
/// would sit re-reading a path that will never appear. Deliberately narrow, so
/// that a table which does not exist stays a schema error.
pub open spec fn missing_file_wordings() -> Seq<Seq<char>> {
    seq!["no files found"@, "no such file"@, "file not found"@, "cannot open file"@]
}

pub open spec fn network_wordings() -> Seq<Seq<char>> {
    seq![
        "connection refused"@,
        "connection reset"@,
        "connection closed"@,
        "could not connect"@,
        "failed to connect"@,
        "unable to connect"@,
        "broken pipe"@,
        "no such host"@,
        "name resolution"@,
        "dns error"@,
        "network unreachable"@,
        "host unreachable"@,
        "tls handshake"@,
        "certificate"@,
        "http 502"@,
        "http 503"@,
        "http 504"@,
        "status 502"@,
        "status 503"@,
        "status 504"@,
        "transport error"@,
        "io error"@,
    ]
}

pub open spec fn syntax_wordings() -> Seq<Seq<char>> {
    seq!["syntax error"@, "parser error"@, "parse error"@]
}

pub open spec fn schema_wordings() -> Seq<Seq<char>> {
    seq![
        "binder error"@,
        "catalog error"@,
        "conversion error"@,
        "could not convert"@,
        "cannot cast"@,
        "type mismatch"@,
        "schema mismatch"@,
        "does not exist"@,
        "not found in"@,
        "no such column"@,
        "no such table"@,
        "unknown column"@,
        "invalid input error"@,
    ]
}

/// The category of a message. The first set of wordings that it holds, in any
/// mix of case, decides.
pub open spec fn category(msg: Seq<char>) -> Seq<char> {
    let m = lowered(msg);
    if mentions_any(m, cancelled_wordings()) {
        "cancelled"@
    } else if mentions_any(m, timeout_wordings()) {
        "timeout"@
    } else if mentions_any(m, oom_wordings()) {
        "oom"@
    } else if mentions_any(m, disk_wordings()) {
        "disk"@
    } else if mentions_any(m, auth_wordings()) {
        "auth"@
    } else if mentions_any(m, missing_file_wordings()) {
        "other"@
    } else if mentions_any(m, network_wordings()) {
        "network"@
    } else if mentions_any(m, syntax_wordings()) {
        "syntax"@
    } else if mentions_any(m, schema_wordings()) {
        "schema"@
    } else {
        "other"@
    }
}

/// Texts borrowed in a list, as the characters they hold.
pub open spec fn views(v: Seq<&str>) -> Seq<Seq<char>> {
    Seq::new(v.len(), |i: int| v[i]@)
}

/// Whether `m` holds any of the wordings.
fn has(m: &str, wordings: Vec<&str>) -> (r: bool)
    ensures
        r == mentions_any(m@, views(wordings@)),
{
    let mut i: usize = 0;
    while i < wordings.len()
        invariant
            i <= wordings@.len(),
            forall|j: int| 0 <= j < i ==> !mentions(m@, #[trigger] views(wordings@)[j]),
        decreases wordings@.len() - i,
    {
        if contains(m, wordings[i]) {
            assert(mentions(m@, views(wordings@)[i as int]));
            return true;
        }
        i = i + 1;
    }
    false
}

/// Bucket an error message into a coarse category. Order matters: the
/// most specific signals are tested first so e.g. a "connection timed
/// out" lands in `timeout`, not `network`.
pub fn categorize_error(msg: &str) -> (r: &'static str)
    ensures
        r@ == category(msg@),
{
    let lowercase = to_lower(msg);
    let m = lowercase.as_str();
    let wordings: Vec<&str> = vec!["cancelled", "canceled by user"];
    assert(views(wordings@) == cancelled_wordings());
    if has(m, wordings) {
        return "cancelled";
    }
    let wordings: Vec<&str> = vec!["timed out", "timeout", "deadline exceeded"];
    assert(views(wordings@) == timeout_wordings());
    if has(m, wordings) {
        return "timeout";
    }
    let wordings: Vec<&str> = vec![
        "out of memory",
        "memory limit",
        "failed to allocate",
        "cannot allocate",
        "oom",
    ];
    assert(views(wordings@) == oom_wordings());
    if has(m, wordings) {
        return "oom";
    }
    let wordings: Vec<&str> = vec![
        "no space left",
        "disk full",
        "too many open files",
        "quota exceeded",
    ];
    assert(views(wordings@) == disk_wordings());
    if has(m, wordings) {
        return "disk";
    }
    let wordings: Vec<&str> = vec![
        "authentication",
        "unauthorized",
        "forbidden",
        "access denied",
        "permission denied",
        "login failed",
        "invalid credentials",
        "password authentication failed",
        "jwt token is invalid",
        "token expired",
        "http 401",
        "http 403",
        "status 401",
        "status 403",
        "(401)",
        "(403)",
    ];
    assert(views(wordings@) == auth_wordings());
    if has(m, wordings) {
        return "auth";
    }
    let wordings: Vec<&str> = vec![
        "no files found",
        "no such file",
        "file not found",
        "cannot open file",
    ];
    assert(views(wordings@) == missing_file_wordings());
    if has(m, wordings) {
        return "other";
    }
    let wordings: Vec<&str> = vec![
        "connection refused",
        "connection reset",
        "connection closed",
        "could not connect",
        "failed to connect",
        "unable to connect",
        "broken pipe",
        "no such host",
        "name resolution",
        "dns error",
        "network unreachable",
        "host unreachable",
        "tls handshake",
        "certificate",
        "http 502",
        "http 503",
        "http 504",
        "status 502",
        "status 503",
        "status 504",
        "transport error",
        "io error",
    ];
    assert(views(wordings@) == network_wordings());
    if has(m, wordings) {
        return "network";
    }
    // The engine words reference and type problems as binder, catalog or
    // conversion errors, and connectors add their own "column ... not found".
    // All are schema-shaped: the data or references no longer match what the
    // pipeline expects.
    let wordings: Vec<&str> = vec!["syntax error", "parser error", "parse error"];
    assert(views(wordings@) == syntax_wordings());
    if has(m, wordings) {
        return "syntax";
    }
    let wordings: Vec<&str> = vec![
        "binder error",
        "catalog error",
        "conversion error",
        "could not convert",
        "cannot cast",
        "type mismatch",
        "schema mismatch",
        "does not exist",
        "not found in",
        "no such column",
        "no such table",
        "unknown column",
        "invalid input error",
    ];
    assert(views(wordings@) == schema_wordings());
    if has(m, wordings) {
        return "schema";
    }
    "other"
}

/// The category is always one of the stable set.
pub proof fn law_the_set_is_stable(msg: Seq<char>)
    ensures
        seq![
            "auth"@,
            "network"@,
            "timeout"@,
            "oom"@,
            "disk"@,
            "schema"@,
            "syntax"@,
            "cancelled"@,
            "other"@,
        ].contains(category(msg)),
{
    let all = seq![
        "auth"@,
        "network"@,
        "timeout"@,
        "oom"@,
        "disk"@,
        "schema"@,
        "syntax"@,
        "cancelled"@,
        "other"@,
    ];
    assert(all[0] == "auth"@ && all[1] == "network"@ && all[2] == "timeout"@);
    assert(all[3] == "oom"@ && all[4] == "disk"@ && all[5] == "schema"@);
    assert(all[6] == "syntax"@ && all[7] == "cancelled"@ && all[8] == "other"@);
}

/// Case does not matter: a message and its lower-case form are alike.
pub proof fn law_case_does_not_matter(msg: Seq<char>)
    ensures
        category(lowered(msg)) == category(msg),
{
    assert forall|c: char| lower(#[trigger] lower(c)) == lower(c) by {}
    assert(lowered(lowered(msg)) == lowered(msg));
}

/// A timeout is a timeout whatever else the message says, unless the run was
/// cancelled: a "connection timed out" is no network error.
pub proof fn law_timeout_beats_the_rest(msg: Seq<char>)
    requires
        mentions_any(lowered(msg), timeout_wordings()),
        !mentions_any(lowered(msg), cancelled_wordings()),
    ensures
        category(msg) == "timeout"@,
{
}

/// A missing local file is never a network error, however the engine words it.
pub proof fn law_a_missing_file_is_no_network_error(msg: Seq<char>)
    requires
        mentions_any(lowered(msg), missing_file_wordings()),
    ensures
        category(msg) != "network"@,
{
    reveal_strlit("network");
    reveal_strlit("cancelled");
    reveal_strlit("timeout");
    reveal_strlit("oom");
    reveal_strlit("disk");
    reveal_strlit("auth");
    reveal_strlit("other");
    assert("network"@.len() == 7 && "timeout"@.len() == 7 && "network"@[0] == 'n' && "timeout"@[0] == 't');
}

/// Whether wordings stay on one line and are not empty.
spec fn on_one_line(wordings: Seq<Seq<char>>) -> bool {
    forall|i: int|
        0 <= i < wordings.len() ==> (#[trigger] wordings[i]).len() > 0 && !wordings[i].contains('\n')
}

proof fn lemma_cancelled_wordings()
    ensures
        on_one_line(cancelled_wordings()),
{
    reveal_strlit("cancelled");
    reveal_strlit("canceled by user");
    let all = cancelled_wordings();
    assert("cancelled"@.len() > 0 && !"cancelled"@.contains('\n'));
    assert("canceled by user"@.len() > 0 && !"canceled by user"@.contains('\n'));
    assert forall|i: int| 0 <= i < all.len() implies (#[trigger] all[i]).len() > 0
        && !all[i].contains('\n') by {}
}

proof fn lemma_timeout_wordings()
    ensures
        on_one_line(timeout_wordings()),
{
    reveal_strlit("timed out");
    reveal_strlit("timeout");
    reveal_strlit("deadline exceeded");
    let all = timeout_wordings();
    assert("timed out"@.len() > 0 && !"timed out"@.contains('\n'));
    assert("timeout"@.len() > 0 && !"timeout"@.contains('\n'));
    assert("deadline exceeded"@.len() > 0 && !"deadline exceeded"@.contains('\n'));
    assert forall|i: int| 0 <= i < all.len() implies (#[trigger] all[i]).len() > 0
        && !all[i].contains('\n') by {}
}

proof fn lemma_oom_wordings()
    ensures
        on_one_line(oom_wordings()),
{
    reveal_strlit("out of memory");
    reveal_strlit("memory limit");
    reveal_strlit("failed to allocate");
    reveal_strlit("cannot allocate");
    reveal_strlit("oom");
    let all = oom_wordings();
    assert("out of memory"@.len() > 0 && !"out of memory"@.contains('\n'));
    assert("memory limit"@.len() > 0 && !"memory limit"@.contains('\n'));
    assert("failed to allocate"@.len() > 0 && !"failed to allocate"@.contains('\n'));
    assert("cannot allocate"@.len() > 0 && !"cannot allocate"@.contains('\n'));
    assert("oom"@.len() > 0 && !"oom"@.contains('\n'));
    assert forall|i: int| 0 <= i < all.len() implies (#[trigger] all[i]).len() > 0
        && !all[i].contains('\n') by {}
}

proof fn lemma_disk_wordings()
    ensures
        on_one_line(disk_wordings()),
{
    reveal_strlit("no space left");
    reveal_strlit("disk full");
    reveal_strlit("too many open files");
    reveal_strlit("quota exceeded");
    let all = disk_wordings();
    assert("no space left"@.len() > 0 && !"no space left"@.contains('\n'));
    assert("disk full"@.len() > 0 && !"disk full"@.contains('\n'));
    assert("too many open files"@.len() > 0 && !"too many open files"@.contains('\n'));
    assert("quota exceeded"@.len() > 0 && !"quota exceeded"@.contains('\n'));
    assert forall|i: int| 0 <= i < all.len() implies (#[trigger] all[i]).len() > 0
        && !all[i].contains('\n') by {}
}

proof fn lemma_auth_wordings()
    ensures
        on_one_line(auth_wordings()),
{
    reveal_strlit("authentication");
    reveal_strlit("unauthorized");
    reveal_strlit("forbidden");
    reveal_strlit("access denied");
    reveal_strlit("permission denied");
    reveal_strlit("login failed");
    reveal_strlit("invalid credentials");
    reveal_strlit("password authentication failed");
    reveal_strlit("jwt token is invalid");
    reveal_strlit("token expired");
    reveal_strlit("http 401");
    reveal_strlit("http 403");
    reveal_strlit("status 401");
    reveal_strlit("status 403");
    reveal_strlit("(401)");
    reveal_strlit("(403)");
    let all = auth_wordings();
    assert("authentication"@.len() > 0 && !"authentication"@.contains('\n'));
    assert("unauthorized"@.len() > 0 && !"unauthorized"@.contains('\n'));
    assert("forbidden"@.len() > 0 && !"forbidden"@.contains('\n'));
    assert("access denied"@.len() > 0 && !"access denied"@.contains('\n'));
    assert("permission denied"@.len() > 0 && !"permission denied"@.contains('\n'));
    assert("login failed"@.len() > 0 && !"login failed"@.contains('\n'));
    assert("invalid credentials"@.len() > 0 && !"invalid credentials"@.contains('\n'));
    assert("password authentication failed"@.len() > 0 && !"password authentication failed"@.contains('\n'));
    assert("jwt token is invalid"@.len() > 0 && !"jwt token is invalid"@.contains('\n'));
    assert("token expired"@.len() > 0 && !"token expired"@.contains('\n'));
    assert("http 401"@.len() > 0 && !"http 401"@.contains('\n'));
    assert("http 403"@.len() > 0 && !"http 403"@.contains('\n'));
    assert("status 401"@.len() > 0 && !"status 401"@.contains('\n'));
    assert("status 403"@.len() > 0 && !"status 403"@.contains('\n'));
    assert("(401)"@.len() > 0 && !"(401)"@.contains('\n'));
    assert("(403)"@.len() > 0 && !"(403)"@.contains('\n'));
    assert forall|i: int| 0 <= i < all.len() implies (#[trigger] all[i]).len() > 0
        && !all[i].contains('\n') by {}
}

proof fn lemma_missing_file_wordings()
    ensures
        on_one_line(missing_file_wordings()),
{
    reveal_strlit("no files found");
    reveal_strlit("no such file");
    reveal_strlit("file not found");
    reveal_strlit("cannot open file");
    let all = missing_file_wordings();
    assert("no files found"@.len() > 0 && !"no files found"@.contains('\n'));
    assert("no such file"@.len() > 0 && !"no such file"@.contains('\n'));
    assert("file not found"@.len() > 0 && !"file not found"@.contains('\n'));
    assert("cannot open file"@.len() > 0 && !"cannot open file"@.contains('\n'));
    assert forall|i: int| 0 <= i < all.len() implies (#[trigger] all[i]).len() > 0
        && !all[i].contains('\n') by {}
}

proof fn lemma_network_wordings()
    ensures
        on_one_line(network_wordings()),
{
    reveal_strlit("connection refused");
    reveal_strlit("connection reset");
    reveal_strlit("connection closed");
    reveal_strlit("could not connect");
    reveal_strlit("failed to connect");
    reveal_strlit("unable to connect");
    reveal_strlit("broken pipe");
    reveal_strlit("no such host");
    reveal_strlit("name resolution");
    reveal_strlit("dns error");
    reveal_strlit("network unreachable");
    reveal_strlit("host unreachable");
    reveal_strlit("tls handshake");
    reveal_strlit("certificate");
    reveal_strlit("http 502");
    reveal_strlit("http 503");
    reveal_strlit("http 504");
    reveal_strlit("status 502");
    reveal_strlit("status 503");
    reveal_strlit("status 504");
    reveal_strlit("transport error");
    reveal_strlit("io error");
    let all = network_wordings();
    assert("connection refused"@.len() > 0 && !"connection refused"@.contains('\n'));
    assert("connection reset"@.len() > 0 && !"connection reset"@.contains('\n'));
    assert("connection closed"@.len() > 0 && !"connection closed"@.contains('\n'));
    assert("could not connect"@.len() > 0 && !"could not connect"@.contains('\n'));
    assert("failed to connect"@.len() > 0 && !"failed to connect"@.contains('\n'));
    assert("unable to connect"@.len() > 0 && !"unable to connect"@.contains('\n'));
    assert("broken pipe"@.len() > 0 && !"broken pipe"@.contains('\n'));
    assert("no such host"@.len() > 0 && !"no such host"@.contains('\n'));
    assert("name resolution"@.len() > 0 && !"name resolution"@.contains('\n'));
    assert("dns error"@.len() > 0 && !"dns error"@.contains('\n'));
    assert("network unreachable"@.len() > 0 && !"network unreachable"@.contains('\n'));
    assert("host unreachable"@.len() > 0 && !"host unreachable"@.contains('\n'));
    assert("tls handshake"@.len() > 0 && !"tls handshake"@.contains('\n'));
    assert("certificate"@.len() > 0 && !"certificate"@.contains('\n'));
    assert("http 502"@.len() > 0 && !"http 502"@.contains('\n'));
    assert("http 503"@.len() > 0 && !"http 503"@.contains('\n'));
    assert("http 504"@.len() > 0 && !"http 504"@.contains('\n'));
    assert("status 502"@.len() > 0 && !"status 502"@.contains('\n'));
    assert("status 503"@.len() > 0 && !"status 503"@.contains('\n'));
    assert("status 504"@.len() > 0 && !"status 504"@.contains('\n'));
    assert("transport error"@.len() > 0 && !"transport error"@.contains('\n'));
    assert("io error"@.len() > 0 && !"io error"@.contains('\n'));
    assert forall|i: int| 0 <= i < all.len() implies (#[trigger] all[i]).len() > 0
        && !all[i].contains('\n') by {}
}

proof fn lemma_syntax_wordings()
    ensures
        on_one_line(syntax_wordings()),
{
    reveal_strlit("syntax error");
    reveal_strlit("parser error");
    reveal_strlit("parse error");
    let all = syntax_wordings();
    assert("syntax error"@.len() > 0 && !"syntax error"@.contains('\n'));
    assert("parser error"@.len() > 0 && !"parser error"@.contains('\n'));
    assert("parse error"@.len() > 0 && !"parse error"@.contains('\n'));
    assert forall|i: int| 0 <= i < all.len() implies (#[trigger] all[i]).len() > 0
        && !all[i].contains('\n') by {}
}

proof fn lemma_schema_wordings()
    ensures
        on_one_line(schema_wordings()),
{
    reveal_strlit("binder error");
    reveal_strlit("catalog error");
    reveal_strlit("conversion error");
    reveal_strlit("could not convert");
    reveal_strlit("cannot cast");
    reveal_strlit("type mismatch");
    reveal_strlit("schema mismatch");
    reveal_strlit("does not exist");
    reveal_strlit("not found in");
    reveal_strlit("no such column");
    reveal_strlit("no such table");
    reveal_strlit("unknown column");
    reveal_strlit("invalid input error");
    let all = schema_wordings();
    assert("binder error"@.len() > 0 && !"binder error"@.contains('\n'));
    assert("catalog error"@.len() > 0 && !"catalog error"@.contains('\n'));
    assert("conversion error"@.len() > 0 && !"conversion error"@.contains('\n'));
    assert("could not convert"@.len() > 0 && !"could not convert"@.contains('\n'));
    assert("cannot cast"@.len() > 0 && !"cannot cast"@.contains('\n'));
    assert("type mismatch"@.len() > 0 && !"type mismatch"@.contains('\n'));
    assert("schema mismatch"@.len() > 0 && !"schema mismatch"@.contains('\n'));
    assert("does not exist"@.len() > 0 && !"does not exist"@.contains('\n'));
    assert("not found in"@.len() > 0 && !"not found in"@.contains('\n'));
    assert("no such column"@.len() > 0 && !"no such column"@.contains('\n'));
    assert("no such table"@.len() > 0 && !"no such table"@.contains('\n'));
    assert("unknown column"@.len() > 0 && !"unknown column"@.contains('\n'));
    assert("invalid input error"@.len() > 0 && !"invalid input error"@.contains('\n'));
    assert forall|i: int| 0 <= i < all.len() implies (#[trigger] all[i]).len() > 0
        && !all[i].contains('\n') by {}
}

/// What stands in two lines stands in one of them, if it has no line feed itself.
proof fn lemma_mentions_in_lines(a: Seq<char>, b: Seq<char>, w: Seq<char>)
    requires
        w.len() > 0,
        !w.contains('\n'),
    ensures
        mentions(a + "\n"@ + b, w) == (mentions(a, w) || mentions(b, w)),
{
    reveal_strlit("\n");
    let s = a + "\n"@ + b;
    let n = a.len() as int;
    assert(s[n] == '\n');
    if mentions(s, w) {
        let i = choose|i: int| stands_at(s, w, i);
        if i + w.len() <= n {
            assert(a.subrange(i, i + w.len()) == s.subrange(i, i + w.len()));
            assert(stands_at(a, w, i));
        } else if i > n {
            assert(b.subrange(i - n - 1, i - n - 1 + w.len()) == s.subrange(i, i + w.len()));
            assert(stands_at(b, w, i - n - 1));
        } else {
            assert(s.subrange(i, i + w.len())[n - i] == '\n');
            assert(w[n - i] == '\n');
        }
    }
    if mentions(a, w) {
        let i = choose|i: int| stands_at(a, w, i);
        assert(s.subrange(i, i + w.len()) == a.subrange(i, i + w.len()));
        assert(stands_at(s, w, i));
    }
    if mentions(b, w) {
        let i = choose|i: int| stands_at(b, w, i);
        assert(s.subrange(i + n + 1, i + n + 1 + w.len()) == b.subrange(i, i + w.len()));
        assert(stands_at(s, w, i + n + 1));
    }
}

proof fn lemma_any_in_lines(a: Seq<char>, b: Seq<char>, wordings: Seq<Seq<char>>)
    requires
        on_one_line(wordings),
    ensures
        mentions_any(a + "\n"@ + b, wordings) == (mentions_any(a, wordings) || mentions_any(b, wordings)),
{
    let s = a + "\n"@ + b;
    assert forall|i: int| 0 <= i < wordings.len() implies mentions(s, #[trigger] wordings[i]) == (
    mentions(a, wordings[i]) || mentions(b, wordings[i])) by {
        lemma_mentions_in_lines(a, b, wordings[i]);
    }
    if mentions_any(a, wordings) {
        let i = choose|i: int| 0 <= i < wordings.len() && mentions(a, #[trigger] wordings[i]);
        assert(mentions(s, wordings[i]));
    }
    if mentions_any(b, wordings) {
        let i = choose|i: int| 0 <= i < wordings.len() && mentions(b, #[trigger] wordings[i]);
        assert(mentions(s, wordings[i]));
    }
}

/// The categories that say something, in the order in which they are looked for.
pub open spec fn telling() -> Seq<Seq<char>> {
    seq![
        "cancelled"@,
        "timeout"@,
        "oom"@,
        "disk"@,
        "auth"@,
        "network"@,
        "syntax"@,
        "schema"@,
    ]
}

/// Of two messages in one, each with a category that says something, the one
/// whose category is looked for first decides.
pub proof fn law_the_earlier_category_decides(a: Seq<char>, b: Seq<char>, i: int, j: int)
    requires
        0 <= i < telling().len(),
        0 <= j < telling().len(),
        category(a) == telling()[i],
        category(b) == telling()[j],
    ensures
        category(a + "\n"@ + b) == telling()[if i <= j {
            i
        } else {
            j
        }],
{
    reveal_strlit("\n");
    reveal_strlit("cancelled");
    reveal_strlit("timeout");
    reveal_strlit("oom");
    reveal_strlit("disk");
    reveal_strlit("auth");
    reveal_strlit("network");
    reveal_strlit("syntax");
    reveal_strlit("schema");
    reveal_strlit("other");
    assert("cancelled"@.len() == 9 && "oom"@.len() == 3 && "other"@.len() == 5);
    assert("timeout"@.len() == 7 && "network"@.len() == 7 && "timeout"@[0] == 't' && "network"@[0] == 'n');
    assert("disk"@.len() == 4 && "auth"@.len() == 4 && "disk"@[0] == 'd' && "auth"@[0] == 'a');
    assert("syntax"@.len() == 6 && "schema"@.len() == 6 && "syntax"@[1] == 'y' && "schema"@[1] == 'c');
    let x = lowered(a);
    let y = lowered(b);
    assert(lowered(a + "\n"@ + b) =~= x + "\n"@ + y);
    lemma_cancelled_wordings();
    lemma_any_in_lines(x, y, cancelled_wordings());
    lemma_timeout_wordings();
    lemma_any_in_lines(x, y, timeout_wordings());
    lemma_oom_wordings();
    lemma_any_in_lines(x, y, oom_wordings());
    lemma_disk_wordings();
    lemma_any_in_lines(x, y, disk_wordings());
    lemma_auth_wordings();
    lemma_any_in_lines(x, y, auth_wordings());
    lemma_missing_file_wordings();
    lemma_any_in_lines(x, y, missing_file_wordings());
    lemma_network_wordings();
    lemma_any_in_lines(x, y, network_wordings());
    lemma_syntax_wordings();
    lemma_any_in_lines(x, y, syntax_wordings());
    lemma_schema_wordings();
    lemma_any_in_lines(x, y, schema_wordings());
}

/// Whether a message holds a wording, in any mix of case: it reads like the
/// wording from some place on, letter for letter.
pub open spec fn says(msg: Seq<char>, wording: Seq<char>) -> bool {
    exists|i: int| #[trigger] reads_at(msg, wording, i)
}

/// Whether a message reads like a wording from the place `i` on, where a capital
/// counts as its small letter.
pub open spec fn reads_at(msg: Seq<char>, wording: Seq<char>, i: int) -> bool {
    0 <= i && i + wording.len() <= msg.len() && forall|k: int|
        0 <= k < wording.len() ==> wording[k] == (if 'A' <= #[trigger] msg[i + k] <= 'Z' {
            ((msg[i + k] as u32) + 32) as char
        } else {
            msg[i + k]
        })
}

/// To hold a wording in any mix of case is to mention it once everything is in
/// small letters.
proof fn lemma_says(msg: Seq<char>, wording: Seq<char>)
    ensures
        says(msg, wording) == mentions(lowered(msg), wording),
{
    let m = lowered(msg);
    if says(msg, wording) {
        let i = choose|i: int| #[trigger] reads_at(msg, wording, i);
        assert forall|k: int| 0 <= k < wording.len() implies m.subrange(i, i + wording.len())[k]
            == wording[k] by {
            assert(m[i + k] == lower(msg[i + k]));
        }
        assert(m.subrange(i, i + wording.len()) == wording);
        assert(stands_at(m, wording, i));
    }
    if mentions(m, wording) {
        let i = choose|i: int| stands_at(m, wording, i);
        assert forall|k: int| 0 <= k < wording.len() implies wording[k] == (if 'A'
            <= #[trigger] msg[i + k] <= 'Z' {
            ((msg[i + k] as u32) + 32) as char
        } else {
            msg[i + k]
        }) by {
            assert(m.subrange(i, i + wording.len())[k] == m[i + k]);
            assert(m[i + k] == lower(msg[i + k]));
        }
        assert(reads_at(msg, wording, i));
    }
}

proof fn lemma_says_cancelled(msg: Seq<char>)
    ensures
        mentions_any(lowered(msg), cancelled_wordings()) <==> {
            ||| says(msg, "cancelled"@)
            ||| says(msg, "canceled by user"@)
        },
{
    let all = cancelled_wordings();
    let m = lowered(msg);
    lemma_says(msg, "cancelled"@);
    assert(all[0] == "cancelled"@);
    lemma_says(msg, "canceled by user"@);
    assert(all[1] == "canceled by user"@);
    if mentions_any(m, all) {
        let i = choose|i: int| 0 <= i < all.len() && mentions(m, #[trigger] all[i]);
        assert(0 <= i < 2);
    }
}

proof fn lemma_says_timeout(msg: Seq<char>)
    ensures
        mentions_any(lowered(msg), timeout_wordings()) <==> {
            ||| says(msg, "timed out"@)
            ||| says(msg, "timeout"@)
            ||| says(msg, "deadline exceeded"@)
        },
{
    let all = timeout_wordings();
    let m = lowered(msg);
    lemma_says(msg, "timed out"@);
    assert(all[0] == "timed out"@);
    lemma_says(msg, "timeout"@);
    assert(all[1] == "timeout"@);
    lemma_says(msg, "deadline exceeded"@);
    assert(all[2] == "deadline exceeded"@);
    if mentions_any(m, all) {
        let i = choose|i: int| 0 <= i < all.len() && mentions(m, #[trigger] all[i]);
        assert(0 <= i < 3);
    }
}

proof fn lemma_says_oom(msg: Seq<char>)
    ensures
        mentions_any(lowered(msg), oom_wordings()) <==> {
            ||| says(msg, "out of memory"@)
            ||| says(msg, "memory limit"@)
            ||| says(msg, "failed to allocate"@)
            ||| says(msg, "cannot allocate"@)
            ||| says(msg, "oom"@)
        },
{
    let all = oom_wordings();
    let m = lowered(msg);
    lemma_says(msg, "out of memory"@);
    assert(all[0] == "out of memory"@);
    lemma_says(msg, "memory limit"@);
    assert(all[1] == "memory limit"@);
    lemma_says(msg, "failed to allocate"@);
    assert(all[2] == "failed to allocate"@);
    lemma_says(msg, "cannot allocate"@);
    assert(all[3] == "cannot allocate"@);
    lemma_says(msg, "oom"@);
    assert(all[4] == "oom"@);
    if mentions_any(m, all) {
        let i = choose|i: int| 0 <= i < all.len() && mentions(m, #[trigger] all[i]);
        assert(0 <= i < 5);
    }
}

proof fn lemma_says_disk(msg: Seq<char>)
    ensures
        mentions_any(lowered(msg), disk_wordings()) <==> {
            ||| says(msg, "no space left"@)
            ||| says(msg, "disk full"@)
            ||| says(msg, "too many open files"@)
            ||| says(msg, "quota exceeded"@)
        },
{
    let all = disk_wordings();
    let m = lowered(msg);
    lemma_says(msg, "no space left"@);
    assert(all[0] == "no space left"@);
    lemma_says(msg, "disk full"@);
    assert(all[1] == "disk full"@);
    lemma_says(msg, "too many open files"@);
    assert(all[2] == "too many open files"@);
    lemma_says(msg, "quota exceeded"@);
    assert(all[3] == "quota exceeded"@);
    if mentions_any(m, all) {
        let i = choose|i: int| 0 <= i < all.len() && mentions(m, #[trigger] all[i]);
        assert(0 <= i < 4);
    }
}

proof fn lemma_says_auth(msg: Seq<char>)
    ensures
        mentions_any(lowered(msg), auth_wordings()) <==> {
            ||| says(msg, "authentication"@)
            ||| says(msg, "unauthorized"@)
            ||| says(msg, "forbidden"@)
            ||| says(msg, "access denied"@)
            ||| says(msg, "permission denied"@)
            ||| says(msg, "login failed"@)
            ||| says(msg, "invalid credentials"@)
            ||| says(msg, "password authentication failed"@)
            ||| says(msg, "jwt token is invalid"@)
            ||| says(msg, "token expired"@)
            ||| says(msg, "http 401"@)
            ||| says(msg, "http 403"@)
            ||| says(msg, "status 401"@)
            ||| says(msg, "status 403"@)
            ||| says(msg, "(401)"@)
            ||| says(msg, "(403)"@)
        },
{
    let all = auth_wordings();
    let m = lowered(msg);
    lemma_says(msg, "authentication"@);
    assert(all[0] == "authentication"@);
    lemma_says(msg, "unauthorized"@);
    assert(all[1] == "unauthorized"@);
    lemma_says(msg, "forbidden"@);
    assert(all[2] == "forbidden"@);
    lemma_says(msg, "access denied"@);
    assert(all[3] == "access denied"@);
    lemma_says(msg, "permission denied"@);
    assert(all[4] == "permission denied"@);
    lemma_says(msg, "login failed"@);
    assert(all[5] == "login failed"@);
    lemma_says(msg, "invalid credentials"@);
    assert(all[6] == "invalid credentials"@);
    lemma_says(msg, "password authentication failed"@);
    assert(all[7] == "password authentication failed"@);
    lemma_says(msg, "jwt token is invalid"@);
    assert(all[8] == "jwt token is invalid"@);
    lemma_says(msg, "token expired"@);
    assert(all[9] == "token expired"@);
    lemma_says(msg, "http 401"@);
    assert(all[10] == "http 401"@);
    lemma_says(msg, "http 403"@);
    assert(all[11] == "http 403"@);
    lemma_says(msg, "status 401"@);
    assert(all[12] == "status 401"@);
    lemma_says(msg, "status 403"@);
    assert(all[13] == "status 403"@);
    lemma_says(msg, "(401)"@);
    assert(all[14] == "(401)"@);
    lemma_says(msg, "(403)"@);
    assert(all[15] == "(403)"@);
    if mentions_any(m, all) {
        let i = choose|i: int| 0 <= i < all.len() && mentions(m, #[trigger] all[i]);
        assert(0 <= i < 16);
    }
}

proof fn lemma_says_missing_file(msg: Seq<char>)
    ensures
        mentions_any(lowered(msg), missing_file_wordings()) <==> {
            ||| says(msg, "no files found"@)
            ||| says(msg, "no such file"@)
            ||| says(msg, "file not found"@)
            ||| says(msg, "cannot open file"@)
        },
{
    let all = missing_file_wordings();
    let m = lowered(msg);
    lemma_says(msg, "no files found"@);
    assert(all[0] == "no files found"@);
    lemma_says(msg, "no such file"@);
    assert(all[1] == "no such file"@);
    lemma_says(msg, "file not found"@);
    assert(all[2] == "file not found"@);
    lemma_says(msg, "cannot open file"@);
    assert(all[3] == "cannot open file"@);
    if mentions_any(m, all) {
        let i = choose|i: int| 0 <= i < all.len() && mentions(m, #[trigger] all[i]);
        assert(0 <= i < 4);
    }
}

proof fn lemma_says_network(msg: Seq<char>)
    ensures
        mentions_any(lowered(msg), network_wordings()) <==> {
            ||| says(msg, "connection refused"@)
            ||| says(msg, "connection reset"@)
            ||| says(msg, "connection closed"@)
            ||| says(msg, "could not connect"@)
            ||| says(msg, "failed to connect"@)
            ||| says(msg, "unable to connect"@)
            ||| says(msg, "broken pipe"@)
            ||| says(msg, "no such host"@)
            ||| says(msg, "name resolution"@)
            ||| says(msg, "dns error"@)
            ||| says(msg, "network unreachable"@)
            ||| says(msg, "host unreachable"@)
            ||| says(msg, "tls handshake"@)
            ||| says(msg, "certificate"@)
            ||| says(msg, "http 502"@)
            ||| says(msg, "http 503"@)
            ||| says(msg, "http 504"@)
            ||| says(msg, "status 502"@)
            ||| says(msg, "status 503"@)
            ||| says(msg, "status 504"@)
            ||| says(msg, "transport error"@)
            ||| says(msg, "io error"@)
        },
{
    let all = network_wordings();
    let m = lowered(msg);
    lemma_says(msg, "connection refused"@);
    assert(all[0] == "connection refused"@);
    lemma_says(msg, "connection reset"@);
    assert(all[1] == "connection reset"@);
    lemma_says(msg, "connection closed"@);
    assert(all[2] == "connection closed"@);
    lemma_says(msg, "could not connect"@);
    assert(all[3] == "could not connect"@);
    lemma_says(msg, "failed to connect"@);
    assert(all[4] == "failed to connect"@);
    lemma_says(msg, "unable to connect"@);
    assert(all[5] == "unable to connect"@);
    lemma_says(msg, "broken pipe"@);
    assert(all[6] == "broken pipe"@);
    lemma_says(msg, "no such host"@);
    assert(all[7] == "no such host"@);
    lemma_says(msg, "name resolution"@);
    assert(all[8] == "name resolution"@);
    lemma_says(msg, "dns error"@);
    assert(all[9] == "dns error"@);
    lemma_says(msg, "network unreachable"@);
    assert(all[10] == "network unreachable"@);
    lemma_says(msg, "host unreachable"@);
    assert(all[11] == "host unreachable"@);
    lemma_says(msg, "tls handshake"@);
    assert(all[12] == "tls handshake"@);
    lemma_says(msg, "certificate"@);
    assert(all[13] == "certificate"@);
    lemma_says(msg, "http 502"@);
    assert(all[14] == "http 502"@);
    lemma_says(msg, "http 503"@);
    assert(all[15] == "http 503"@);
    lemma_says(msg, "http 504"@);
    assert(all[16] == "http 504"@);
    lemma_says(msg, "status 502"@);
    assert(all[17] == "status 502"@);
    lemma_says(msg, "status 503"@);
    assert(all[18] == "status 503"@);
    lemma_says(msg, "status 504"@);
    assert(all[19] == "status 504"@);
    lemma_says(msg, "transport error"@);
    assert(all[20] == "transport error"@);
    lemma_says(msg, "io error"@);
    assert(all[21] == "io error"@);
    if mentions_any(m, all) {
        let i = choose|i: int| 0 <= i < all.len() && mentions(m, #[trigger] all[i]);
        assert(0 <= i < 22);
    }
}

proof fn lemma_says_syntax(msg: Seq<char>)
    ensures
        mentions_any(lowered(msg), syntax_wordings()) <==> {
            ||| says(msg, "syntax error"@)
            ||| says(msg, "parser error"@)
            ||| says(msg, "parse error"@)
        },
{
    let all = syntax_wordings();
    let m = lowered(msg);
    lemma_says(msg, "syntax error"@);
    assert(all[0] == "syntax error"@);
    lemma_says(msg, "parser error"@);
    assert(all[1] == "parser error"@);
    lemma_says(msg, "parse error"@);
    assert(all[2] == "parse error"@);
    if mentions_any(m, all) {
        let i = choose|i: int| 0 <= i < all.len() && mentions(m, #[trigger] all[i]);
        assert(0 <= i < 3);
    }
}

proof fn lemma_says_schema(msg: Seq<char>)
    ensures
        mentions_any(lowered(msg), schema_wordings()) <==> {
            ||| says(msg, "binder error"@)
            ||| says(msg, "catalog error"@)
            ||| says(msg, "conversion error"@)
            ||| says(msg, "could not convert"@)
            ||| says(msg, "cannot cast"@)
            ||| says(msg, "type mismatch"@)
            ||| says(msg, "schema mismatch"@)
            ||| says(msg, "does not exist"@)
            ||| says(msg, "not found in"@)
            ||| says(msg, "no such column"@)
            ||| says(msg, "no such table"@)
            ||| says(msg, "unknown column"@)
            ||| says(msg, "invalid input error"@)
        },
{
    let all = schema_wordings();
    let m = lowered(msg);
    lemma_says(msg, "binder error"@);
    assert(all[0] == "binder error"@);
    lemma_says(msg, "catalog error"@);
    assert(all[1] == "catalog error"@);
    lemma_says(msg, "conversion error"@);
    assert(all[2] == "conversion error"@);
    lemma_says(msg, "could not convert"@);
    assert(all[3] == "could not convert"@);
    lemma_says(msg, "cannot cast"@);
    assert(all[4] == "cannot cast"@);
    lemma_says(msg, "type mismatch"@);
    assert(all[5] == "type mismatch"@);
    lemma_says(msg, "schema mismatch"@);
    assert(all[6] == "schema mismatch"@);
    lemma_says(msg, "does not exist"@);
    assert(all[7] == "does not exist"@);
    lemma_says(msg, "not found in"@);
    assert(all[8] == "not found in"@);
    lemma_says(msg, "no such column"@);
    assert(all[9] == "no such column"@);
    lemma_says(msg, "no such table"@);
    assert(all[10] == "no such table"@);
    lemma_says(msg, "unknown column"@);
    assert(all[11] == "unknown column"@);
    lemma_says(msg, "invalid input error"@);
    assert(all[12] == "invalid input error"@);
    if mentions_any(m, all) {
        let i = choose|i: int| 0 <= i < all.len() && mentions(m, #[trigger] all[i]);
        assert(0 <= i < 13);
    }
}

/// No two categories have one name.
proof fn lemma_categories_differ()
    ensures
        forall|i: int, j: int|
            0 <= i < j < telling().len() ==> #[trigger] telling()[i] != #[trigger] telling()[j],
        forall|i: int| 0 <= i < telling().len() ==> #[trigger] telling()[i] != "other"@,
{
    reveal_strlit("cancelled");
    reveal_strlit("timeout");
    reveal_strlit("oom");
    reveal_strlit("disk");
    reveal_strlit("auth");
    reveal_strlit("network");
    reveal_strlit("syntax");
    reveal_strlit("schema");
    reveal_strlit("other");
    assert("cancelled"@.len() == 9 && "oom"@.len() == 3 && "other"@.len() == 5);
    assert("timeout"@.len() == 7 && "network"@.len() == 7 && "timeout"@[0] == 't' && "network"@[0] == 'n');
    assert("disk"@.len() == 4 && "auth"@.len() == 4 && "disk"@[0] == 'd' && "auth"@[0] == 'a');
    assert("syntax"@.len() == 6 && "schema"@.len() == 6 && "syntax"@[1] == 'y' && "schema"@[1] == 'c');
}

/// A run counts as cancelled exactly where the message says so.
pub proof fn law_what_is_a_cancelled_run(msg: Seq<char>)
    ensures
        category(msg) == "cancelled"@ <==> {
            &&& {
                ||| says(msg, "cancelled"@)
                ||| says(msg, "canceled by user"@)
            }
        },
{
    lemma_categories_differ();
    let all = telling();
    assert(all[0] == "cancelled"@);
    assert(all[1] == "timeout"@);
    assert(all[2] == "oom"@);
    assert(all[3] == "disk"@);
    assert(all[4] == "auth"@);
    assert(all[5] == "network"@);
    assert(all[6] == "syntax"@);
    assert(all[7] == "schema"@);
    lemma_says_cancelled(msg);
}

/// What is a timeout: a message that says so, and not that the run was cancelled.
pub proof fn law_what_is_a_timeout(msg: Seq<char>)
    ensures
        category(msg) == "timeout"@ <==> {
            &&& category(msg) != "cancelled"@
            &&& {
                ||| says(msg, "timed out"@)
                ||| says(msg, "timeout"@)
                ||| says(msg, "deadline exceeded"@)
            }
        },
{
    lemma_categories_differ();
    let all = telling();
    assert(all[0] == "cancelled"@);
    assert(all[1] == "timeout"@);
    assert(all[2] == "oom"@);
    assert(all[3] == "disk"@);
    assert(all[4] == "auth"@);
    assert(all[5] == "network"@);
    assert(all[6] == "syntax"@);
    assert(all[7] == "schema"@);
    lemma_says_cancelled(msg);
    lemma_says_timeout(msg);
}

/// What is a lack of memory: a message that says so, and of nothing looked for
/// before.
pub proof fn law_what_is_a_lack_of_memory(msg: Seq<char>)
    ensures
        category(msg) == "oom"@ <==> {
            &&& category(msg) != "cancelled"@
            &&& category(msg) != "timeout"@
            &&& {
                ||| says(msg, "out of memory"@)
                ||| says(msg, "memory limit"@)
                ||| says(msg, "failed to allocate"@)
                ||| says(msg, "cannot allocate"@)
                ||| says(msg, "oom"@)
            }
        },
{
    lemma_categories_differ();
    let all = telling();
    assert(all[0] == "cancelled"@);
    assert(all[1] == "timeout"@);
    assert(all[2] == "oom"@);
    assert(all[3] == "disk"@);
    assert(all[4] == "auth"@);
    assert(all[5] == "network"@);
    assert(all[6] == "syntax"@);
    assert(all[7] == "schema"@);
    lemma_says_cancelled(msg);
    lemma_says_timeout(msg);
    lemma_says_oom(msg);
}

/// What is a lack of disk: a message that says so, and of nothing looked for
/// before.
pub proof fn law_what_is_a_lack_of_disk(msg: Seq<char>)
    ensures
        category(msg) == "disk"@ <==> {
            &&& category(msg) != "cancelled"@
            &&& category(msg) != "timeout"@
            &&& category(msg) != "oom"@
            &&& {
                ||| says(msg, "no space left"@)
                ||| says(msg, "disk full"@)
                ||| says(msg, "too many open files"@)
                ||| says(msg, "quota exceeded"@)
            }
        },
{
    lemma_categories_differ();
    let all = telling();
    assert(all[0] == "cancelled"@);
    assert(all[1] == "timeout"@);
    assert(all[2] == "oom"@);
    assert(all[3] == "disk"@);
    assert(all[4] == "auth"@);
    assert(all[5] == "network"@);
    assert(all[6] == "syntax"@);
    assert(all[7] == "schema"@);
    lemma_says_cancelled(msg);
    lemma_says_timeout(msg);
    lemma_says_oom(msg);
    lemma_says_disk(msg);
}

/// What is a matter of rights: a message that says so, and of nothing looked for
/// before.
pub proof fn law_what_is_a_refusal(msg: Seq<char>)
    ensures
        category(msg) == "auth"@ <==> {
            &&& category(msg) != "cancelled"@
            &&& category(msg) != "timeout"@
            &&& category(msg) != "oom"@
            &&& category(msg) != "disk"@
            &&& {
                ||| says(msg, "authentication"@)
                ||| says(msg, "unauthorized"@)
                ||| says(msg, "forbidden"@)
                ||| says(msg, "access denied"@)
                ||| says(msg, "permission denied"@)
                ||| says(msg, "login failed"@)
                ||| says(msg, "invalid credentials"@)
                ||| says(msg, "password authentication failed"@)
                ||| says(msg, "jwt token is invalid"@)
                ||| says(msg, "token expired"@)
                ||| says(msg, "http 401"@)
                ||| says(msg, "http 403"@)
                ||| says(msg, "status 401"@)
                ||| says(msg, "status 403"@)
                ||| says(msg, "(401)"@)
                ||| says(msg, "(403)"@)
            }
        },
{
    lemma_categories_differ();
    let all = telling();
    assert(all[0] == "cancelled"@);
    assert(all[1] == "timeout"@);
    assert(all[2] == "oom"@);
    assert(all[3] == "disk"@);
    assert(all[4] == "auth"@);
    assert(all[5] == "network"@);
    assert(all[6] == "syntax"@);
    assert(all[7] == "schema"@);
    lemma_says_cancelled(msg);
    lemma_says_timeout(msg);
    lemma_says_oom(msg);
    lemma_says_disk(msg);
    lemma_says_auth(msg);
}

/// What is a network error: a message that says so, and of nothing looked for
/// before, nor of a file that is not there.
pub proof fn law_what_is_a_network_error(msg: Seq<char>)
    ensures
        category(msg) == "network"@ <==> {
            &&& category(msg) != "cancelled"@
            &&& category(msg) != "timeout"@
            &&& category(msg) != "oom"@
            &&& category(msg) != "disk"@
            &&& category(msg) != "auth"@
            &&& !says(msg, "no files found"@)
            &&& !says(msg, "no such file"@)
            &&& !says(msg, "file not found"@)
            &&& !says(msg, "cannot open file"@)
            &&& {
                ||| says(msg, "connection refused"@)
                ||| says(msg, "connection reset"@)
                ||| says(msg, "connection closed"@)
                ||| says(msg, "could not connect"@)
                ||| says(msg, "failed to connect"@)
                ||| says(msg, "unable to connect"@)
                ||| says(msg, "broken pipe"@)
                ||| says(msg, "no such host"@)
                ||| says(msg, "name resolution"@)
                ||| says(msg, "dns error"@)
                ||| says(msg, "network unreachable"@)
                ||| says(msg, "host unreachable"@)
                ||| says(msg, "tls handshake"@)
                ||| says(msg, "certificate"@)
                ||| says(msg, "http 502"@)
                ||| says(msg, "http 503"@)
                ||| says(msg, "http 504"@)
                ||| says(msg, "status 502"@)
                ||| says(msg, "status 503"@)
                ||| says(msg, "status 504"@)
                ||| says(msg, "transport error"@)
                ||| says(msg, "io error"@)
            }
        },
{
    lemma_categories_differ();
    let all = telling();
    assert(all[0] == "cancelled"@);
    assert(all[1] == "timeout"@);
    assert(all[2] == "oom"@);
    assert(all[3] == "disk"@);
    assert(all[4] == "auth"@);
    assert(all[5] == "network"@);
    assert(all[6] == "syntax"@);
    assert(all[7] == "schema"@);
    lemma_says_cancelled(msg);
    lemma_says_timeout(msg);
    lemma_says_oom(msg);
    lemma_says_disk(msg);
    lemma_says_auth(msg);
    lemma_says_network(msg);
    lemma_says_missing_file(msg);
}

/// What is a syntax error: a message that says so, and of nothing looked for
/// before, nor of a file that is not there.
pub proof fn law_what_is_a_syntax_error(msg: Seq<char>)
    ensures
        category(msg) == "syntax"@ <==> {
            &&& category(msg) != "cancelled"@
            &&& category(msg) != "timeout"@
            &&& category(msg) != "oom"@
            &&& category(msg) != "disk"@
            &&& category(msg) != "auth"@
            &&& category(msg) != "network"@
            &&& !says(msg, "no files found"@)
            &&& !says(msg, "no such file"@)
            &&& !says(msg, "file not found"@)
            &&& !says(msg, "cannot open file"@)
            &&& {
                ||| says(msg, "syntax error"@)
                ||| says(msg, "parser error"@)
                ||| says(msg, "parse error"@)
            }
        },
{
    lemma_categories_differ();
    let all = telling();
    assert(all[0] == "cancelled"@);
    assert(all[1] == "timeout"@);
    assert(all[2] == "oom"@);
    assert(all[3] == "disk"@);
    assert(all[4] == "auth"@);
    assert(all[5] == "network"@);
    assert(all[6] == "syntax"@);
    assert(all[7] == "schema"@);
    lemma_says_cancelled(msg);
    lemma_says_timeout(msg);
    lemma_says_oom(msg);
    lemma_says_disk(msg);
    lemma_says_auth(msg);
    lemma_says_network(msg);
    lemma_says_syntax(msg);
    lemma_says_missing_file(msg);
}

/// What is a schema error: a message that says so, and of nothing looked for
/// before, nor of a file that is not there.
pub proof fn law_what_is_a_schema_error(msg: Seq<char>)
    ensures
        category(msg) == "schema"@ <==> {
            &&& category(msg) != "cancelled"@
            &&& category(msg) != "timeout"@
            &&& category(msg) != "oom"@
            &&& category(msg) != "disk"@
            &&& category(msg) != "auth"@
            &&& category(msg) != "network"@
            &&& category(msg) != "syntax"@
            &&& !says(msg, "no files found"@)
            &&& !says(msg, "no such file"@)
            &&& !says(msg, "file not found"@)
            &&& !says(msg, "cannot open file"@)
            &&& {
                ||| says(msg, "binder error"@)
                ||| says(msg, "catalog error"@)
                ||| says(msg, "conversion error"@)
                ||| says(msg, "could not convert"@)
                ||| says(msg, "cannot cast"@)
                ||| says(msg, "type mismatch"@)
                ||| says(msg, "schema mismatch"@)
                ||| says(msg, "does not exist"@)
                ||| says(msg, "not found in"@)
                ||| says(msg, "no such column"@)
                ||| says(msg, "no such table"@)
                ||| says(msg, "unknown column"@)
                ||| says(msg, "invalid input error"@)
            }
        },
{
    lemma_categories_differ();
    let all = telling();
    assert(all[0] == "cancelled"@);
    assert(all[1] == "timeout"@);
    assert(all[2] == "oom"@);
    assert(all[3] == "disk"@);
    assert(all[4] == "auth"@);
    assert(all[5] == "network"@);
    assert(all[6] == "syntax"@);
    assert(all[7] == "schema"@);
    lemma_says_cancelled(msg);
    lemma_says_timeout(msg);
    lemma_says_oom(msg);
    lemma_says_disk(msg);
    lemma_says_auth(msg);
    lemma_says_network(msg);
    lemma_says_syntax(msg);
    lemma_says_schema(msg);
    lemma_says_missing_file(msg);
}

} // verus!
