use duckle::audit::Outcome;
use duckle::console_auth::{cookie_value, Console, Identity, Role, SESSION_COOKIE};
use duckle::editor::{
    command_reply, dispatch_cmd, dispatch_fs, event_frame, file_reply, inspection_reply, proceed_web,
    read_inspection, read_streamed_run, receive_web, result_frame, static_candidate, static_file,
    static_reply, web_content_type, Command, DirEntry, Failure, FileResult, FileWork, WebNext, STREAM_HEAD,
};
use duckle::http::{split_query, Reply, Request};
use duckle::json::{field, flag, text, Json};
use duckle::paths::{confine_to_workspace, file_name, rel, resolve_in_workspace};
use duckle::routes::{
    audit_target, proceed, receive, sign_in_reply, work_reply, Entry, Next, Work,
};

fn request(method: &str, target: &str, body: &str) -> Request {
    let (path, query) = split_query(target);
    Request {
        method: method.to_string(),
        path,
        query,
        origin: None,
        host: Some("127.0.0.1:8080".to_string()),
        authorization: None,
        cookie: None,
        body: body.as_bytes().to_vec(),
    }
}

fn identity(role: Role) -> Identity {
    Identity { label: "ann".to_string(), role }
}

fn said(r: &Reply) -> serde_json::Value {
    serde_json::from_slice(&r.body).unwrap()
}

/// A request all the way to what is done for it.
fn handle(req: &Request, who: Option<&Identity>) -> (Option<Outcome>, Next) {
    match receive(req, "127.0.0.1") {
        Entry::Identify(demand) => proceed(req, &demand, who, false, "<signin>", "<panel>"),
        other => panic!("{other:?}"),
    }
}

fn handle_web(req: &Request, who: Option<&Identity>) -> (Option<Outcome>, WebNext) {
    match receive_web(req, "127.0.0.1") {
        Entry::Identify(demand) => proceed_web(req, &demand, who, "<signin>"),
        other => panic!("{other:?}"),
    }
}

#[test]
fn a_page_from_elsewhere_is_turned_away_before_anything_else() {
    let mut req = request("POST", "/api/run", "{}");
    req.origin = Some("https://evil.test".to_string());
    for entry in [receive(&req, "127.0.0.1"), receive_web(&req, "127.0.0.1")] {
        match entry {
            Entry::Reply(r) => {
                assert_eq!(r.status, "403 Forbidden");
                assert_eq!(r.body, b"blocked: cross-origin or non-local request");
            }
            other => panic!("{other:?}"),
        }
    }
    // Even a sign-in.
    let mut req = request("POST", "/api/session", "{}");
    req.origin = Some("https://evil.test".to_string());
    assert!(matches!(receive(&req, "127.0.0.1"), Entry::Reply(_)));
}

#[test]
fn signing_in_hands_out_a_cookie_that_names_the_session() {
    let req = request("POST", "/api/session", r#"{"token":"s3cret"}"#);
    for entry in [receive(&req, "127.0.0.1"), receive_web(&req, "127.0.0.1")] {
        match entry {
            Entry::SignIn(t) => assert_eq!(t, "s3cret"),
            other => panic!("{other:?}"),
        }
    }
    let mut console = match Console::configure("/w", vec![], false, "0.0.0.0", Some("s3cret"), false) {
        Ok(c) => c,
        Err(e) => panic!("{e}"),
    };
    let signed_in = console.sign_in("s3cret");
    let (reply, outcome) = sign_in_reply(&signed_in);
    assert_eq!(outcome, Outcome::Allowed);
    assert_eq!(said(&reply)["role"], "admin");
    assert_eq!(said(&reply)["label"], "token");
    let cookie = reply.cookie.unwrap();
    assert!(cookie.ends_with("; HttpOnly; SameSite=Strict; Path=/"), "{cookie}");
    let sent_back = cookie.split(';').next().unwrap();
    assert_eq!(cookie_value(sent_back, SESSION_COOKIE), Some(signed_in.unwrap().0));

    let (reply, outcome) = sign_in_reply(&None);
    assert_eq!(outcome, Outcome::Unauthenticated);
    assert_eq!(reply.status, "401 Unauthorized");
    assert_eq!(said(&reply)["error"], "that token was not accepted");
    assert!(reply.cookie.is_none());
    // A body that is none holds no token.
    match receive(&request("POST", "/api/session", "oops"), "127.0.0.1") {
        Entry::SignIn(t) => assert_eq!(t, ""),
        other => panic!("{other:?}"),
    }
}

#[test]
fn a_stranger_gets_the_form_or_a_refusal() {
    match handle(&request("GET", "/", ""), None) {
        (Some(Outcome::Unauthenticated), Next::Reply(r)) => {
            assert_eq!(r.status, "401 Unauthorized");
            assert_eq!(r.body, b"<signin>");
        }
        other => panic!("{other:?}"),
    }
    match handle(&request("GET", "/api/runs", ""), None) {
        (Some(Outcome::Unauthenticated), Next::Reply(r)) => {
            assert_eq!(said(&r)["error"], "sign in to use the console");
        }
        other => panic!("{other:?}"),
    }
    match handle_web(&request("GET", "/app.js", ""), None) {
        (Some(Outcome::Unauthenticated), WebNext::Reply(r)) => assert_eq!(r.body, b"<signin>"),
        other => panic!("{other:?}"),
    }
    match handle_web(&request("POST", "/api/fs/read", "{}"), None) {
        (Some(Outcome::Unauthenticated), WebNext::Reply(r)) => {
            assert_eq!(said(&r)["error"], "sign in to use the editor");
        }
        other => panic!("{other:?}"),
    }
}

#[test]
fn a_role_that_is_not_enough_is_told_so() {
    match handle(&request("POST", "/api/run", r#"{"file":"p.json"}"#), Some(&identity(Role::Viewer))) {
        (Some(Outcome::Denied), Next::Reply(r)) => {
            assert_eq!(r.status, "403 Forbidden");
            assert_eq!(said(&r)["error"], "this needs the operator role; you have viewer");
        }
        other => panic!("{other:?}"),
    }
    match handle_web(&request("GET", "/", ""), Some(&identity(Role::Viewer))) {
        (Some(Outcome::Denied), WebNext::Reply(r)) => {
            assert_eq!(r.body, b"this needs the operator role; you have viewer");
        }
        other => panic!("{other:?}"),
    }
}

#[test]
fn credentials_need_an_admin_however_the_path_is_written() {
    let op = identity(Role::Operator);
    let direct = request("POST", "/api/cmd/connection_decrypt_payload", "{}");
    assert!(matches!(handle_web(&direct, Some(&op)).0, Some(Outcome::Denied)));
    // Doubling the prefix leads to another command, not to that one.
    let doubled = request("POST", "/api/cmd//api/cmd/connection_decrypt_payload", "{}");
    match handle_web(&doubled, Some(&op)) {
        (Some(Outcome::Allowed), WebNext::Command(c)) => {
            assert_eq!(c, "/api/cmd/connection_decrypt_payload");
            match dispatch_cmd(&c, &vec![], "/w", "duckdb") {
                Command::Reply(r) => assert_eq!(r.status, "404 Not Found"),
                other => panic!("{other:?}"),
            }
        }
        other => panic!("{other:?}"),
    }
    assert!(matches!(
        handle_web(&direct, Some(&identity(Role::Admin))),
        (Some(Outcome::Allowed), WebNext::Command(_))
    ));
}

#[test]
fn what_changes_something_is_recorded_and_what_reads_is_not() {
    let admin = identity(Role::Admin);
    assert!(handle(&request("GET", "/api/runs?id=p", ""), Some(&admin)).0.is_none());
    assert_eq!(
        handle(&request("POST", "/api/catalog", ""), Some(&admin)).0,
        Some(Outcome::Allowed)
    );
    assert!(handle_web(&request("GET", "/", ""), Some(&admin)).0.is_none());
    assert_eq!(
        handle_web(&request("POST", "/api/inspect", ""), Some(&admin)).0,
        Some(Outcome::Allowed)
    );
}

#[test]
fn console_routes_lead_where_they_should() {
    let admin = identity(Role::Admin);
    let next = |method: &str, target: &str, body: &str| {
        handle(&request(method, target, body), Some(&admin)).1
    };
    assert!(matches!(next("DELETE", "/api/session", ""), Next::Work(Work::SignOut)));
    assert!(matches!(next("GET", "/api/summary", ""), Next::Work(Work::Summary)));
    assert!(matches!(next("GET", "/api/pipelines", ""), Next::Work(Work::Pipelines)));
    assert!(matches!(next("GET", "/api/log?id=p", ""), Next::Work(Work::Log)));
    assert!(matches!(next("GET", "/api/catalog", ""), Next::Work(Work::Catalog)));
    assert!(matches!(next("POST", "/api/catalog", ""), Next::Work(Work::BuildCatalog)));
    assert!(matches!(next("GET", "/api/schedules", ""), Next::Work(Work::Schedules)));
    assert!(matches!(next("GET", "/api/runs", ""), Next::Work(Work::Runs(None))));
    match next("GET", "/api/runs?id=p", "") {
        Next::Work(Work::Runs(Some(id))) => assert_eq!(id, "p"),
        other => panic!("{other:?}"),
    }
    match next("GET", "/api/pipeline?file=a.json", "") {
        Next::Work(Work::Pipeline(f)) => assert_eq!(f, "a.json"),
        other => panic!("{other:?}"),
    }
    match next("GET", "/api/params?file=a.json", "") {
        Next::Work(Work::Params(f)) => assert_eq!(f, "a.json"),
        other => panic!("{other:?}"),
    }
    match next("POST", "/api/run", r#"{"file":"a.json","params":{"K":"v"}}"#) {
        Next::Work(Work::Run(f, p)) => {
            assert_eq!(f, "a.json");
            assert_eq!(p.get("K").map(String::as_str), Some("v"));
        }
        other => panic!("{other:?}"),
    }
    match next("POST", "/api/schedules", r#"{"id":"p"}"#) {
        Next::Work(Work::SaveSchedule(b)) => assert_eq!(text(field(Some(&b), "id")), Some("p")),
        other => panic!("{other:?}"),
    }
    for missing in [
        next("GET", "/api/pipeline", ""),
        next("GET", "/api/params", ""),
        next("POST", "/api/run", "{}"),
        next("POST", "/api/run", "not json"),
    ] {
        match missing {
            Next::Reply(r) => {
                assert_eq!(r.status, "400 Bad Request");
                assert_eq!(said(&r)["error"], "missing file");
            }
            other => panic!("{other:?}"),
        }
    }
    match next("PUT", "/api/run", "") {
        Next::Reply(r) => assert_eq!(r.status, "404 Not Found"),
        other => panic!("{other:?}"),
    }
    match next("GET", "/index.html", "") {
        Next::Reply(r) => assert_eq!(r.body, b"<panel>"),
        other => panic!("{other:?}"),
    }
    match next("GET", "/api/whoami", "") {
        Next::Reply(r) => {
            assert_eq!(said(&r)["label"], "ann");
            assert_eq!(said(&r)["role"], "admin");
            assert_eq!(said(&r)["open"], false);
        }
        other => panic!("{other:?}"),
    }
}

#[test]
fn the_audit_log_is_read_a_page_at_a_time() {
    let admin = identity(Role::Admin);
    let limit = |q: &str| match handle(&request("GET", &format!("/api/audit{q}"), ""), Some(&admin)).1 {
        Next::Work(Work::Audit(f)) => f.limit,
        other => panic!("{other:?}"),
    };
    assert_eq!(limit(""), 200);
    assert_eq!(limit("?limit=5"), 5);
    assert_eq!(limit("?limit=0"), 1);
    assert_eq!(limit("?limit=99999"), 1000);
    assert_eq!(limit("?limit=many"), 200);
    match handle(&request("GET", "/api/audit?actor=ann&outcome=denied&action=x", ""), Some(&admin)).1 {
        Next::Work(Work::Audit(f)) => {
            assert_eq!(f.actor.as_deref(), Some("ann"));
            assert_eq!(f.outcome.as_deref(), Some("denied"));
            assert_eq!(f.action.as_deref(), Some("x"));
        }
        other => panic!("{other:?}"),
    }
}

#[test]
fn the_audit_log_says_what_a_request_was_aimed_at() {
    assert_eq!(audit_target(&request("GET", "/api/pipeline?file=a", "")), "a");
    assert_eq!(audit_target(&request("GET", "/api/runs?id=b", "")), "b");
    assert_eq!(audit_target(&request("POST", "/api/run", r#"{"file":"c","params":{"p":"secret"}}"#)), "c");
    assert_eq!(audit_target(&request("POST", "/api/schedules", r#"{"id":"d"}"#)), "d");
    assert_eq!(audit_target(&request("POST", "/api/schedules", r#"{"file":7,"id":"d"}"#)), "/api/schedules");
    assert_eq!(audit_target(&request("GET", "/api/summary", r#"{"id":"d"}"#)), "/api/summary");
    assert_eq!(audit_target(&request("POST", "/api/run", "junk")), "/api/run");
}

#[test]
fn failures_are_reported_with_the_status_of_their_route() {
    let err: Result<Json, String> = Err("boom".to_string());
    let status = |w: &Work| work_reply(w, &err).status;
    assert_eq!(status(&Work::Pipeline("f".to_string())), "404 Not Found");
    assert_eq!(status(&Work::Params("f".to_string())), "404 Not Found");
    assert_eq!(status(&Work::SaveSchedule(Json::Null)), "400 Bad Request");
    assert_eq!(status(&Work::Schedules), "500 Internal Server Error");
    assert_eq!(said(&work_reply(&Work::BuildCatalog, &err))["error"], "boom");
    assert_eq!(work_reply(&Work::Summary, &Ok(Json::Bool(true))).body, b"true");
}

#[test]
fn editor_commands_are_read() {
    let cmd = |name: &str, body: &str| dispatch_cmd(name, &body.as_bytes().to_vec(), "/w", "/bin/duckdb");
    match cmd("ping", "") {
        Command::Reply(r) => assert_eq!(r.body, b"\"pong\""),
        other => panic!("{other:?}"),
    }
    match cmd("connection_encrypt_payload", r#"{"payloadJson":"{}"}"#) {
        Command::Encrypt(p) => assert_eq!(p, "{}"),
        other => panic!("{other:?}"),
    }
    match cmd("connection_decrypt_payload", "{}") {
        Command::Decrypt(p) => assert_eq!(p, "null"),
        other => panic!("{other:?}"),
    }
    match cmd("run_pipeline", r#"{"pipeline":{"nodes":[]},"pipelineName":"n"}"#) {
        Command::Run(p, name) => {
            assert!(field(Some(&p), "nodes").is_some());
            assert_eq!(name, "n");
        }
        other => panic!("{other:?}"),
    }
    match cmd("run_pipeline", "{}") {
        Command::Run(Json::Null, name) => assert_eq!(name, "web"),
        other => panic!("{other:?}"),
    }
    assert!(matches!(cmd("compile_pipeline", "{}"), Command::Compile(_)));
    assert!(matches!(cmd("pipeline_column_lineage", "{}"), Command::Lineage(_)));
    assert!(matches!(cmd("pipeline_trust_report", "{}"), Command::Trust(_, false)));
    assert!(matches!(
        cmd("pipeline_trust_report", r#"{"checkDrift":true}"#),
        Command::Trust(_, true)
    ));
    match cmd("web_bootstrap", "") {
        Command::Reply(r) => assert_eq!(said(&r)["workspace"], "/w"),
        other => panic!("{other:?}"),
    }
    match cmd("engine_status", "") {
        Command::Reply(r) => {
            assert_eq!(said(&r)[0]["id"], "duckdb");
            assert_eq!(said(&r)[0]["path"], "/bin/duckdb");
            assert_eq!(said(&r)[0]["outdated"], false);
        }
        other => panic!("{other:?}"),
    }
    match cmd("dance", "") {
        Command::Reply(r) => assert_eq!(said(&r)["error"], "unknown command: dance"),
        other => panic!("{other:?}"),
    }
}

#[test]
fn commands_that_fail_say_why() {
    let status_and_error = |f: Failure| {
        let r = command_reply(&Err(f));
        (r.status.clone(), said(&r)["error"].as_str().unwrap().to_string())
    };
    let e = || "why".to_string();
    assert_eq!(
        status_and_error(Failure::BadPipeline(e())),
        ("400 Bad Request".to_string(), "bad pipeline: why".to_string())
    );
    assert_eq!(status_and_error(Failure::Refused(e())).1, "why");
    assert_eq!(
        status_and_error(Failure::Secrets(e())),
        ("500 Internal Server Error".to_string(), "connection secrets: why".to_string())
    );
    assert_eq!(status_and_error(Failure::Internal(e())).0, "500 Internal Server Error");
    assert_eq!(
        status_and_error(Failure::Panicked("ping".to_string())).1,
        "command 'ping' failed unexpectedly"
    );
    assert_eq!(command_reply(&Ok(Json::Null)).body, b"null");
}

#[test]
fn a_streamed_run_is_framed_for_the_browser() {
    let r = read_streamed_run(&br#"{"pipeline":{},"targetNodeId":"n1"}"#.to_vec());
    assert_eq!((r.name.as_str(), r.target.as_deref()), ("web", Some("n1")));
    assert!(read_streamed_run(&br#"{"targetNodeId":""}"#.to_vec()).target.is_none());
    assert_eq!(event_frame("{}"), "data: {}\n\n");
    assert_eq!(result_frame("{}"), "event: result\ndata: {}\n\n");
    assert!(STREAM_HEAD.starts_with("HTTP/1.1 200 OK\r\nContent-Type: text/event-stream\r\n"));
    assert!(STREAM_HEAD.ends_with("\r\n\r\n"));
}

#[test]
fn an_inspection_needs_a_format() {
    match read_inspection(&b"{}".to_vec()) {
        Err(r) => assert_eq!(said(&r)["error"], "inspect: missing format"),
        Ok(_) => panic!("no format was accepted"),
    }
    match read_inspection(&br#"{"format":"csv","options":{"a":1}}"#.to_vec()) {
        Ok((format, options)) => {
            assert_eq!(format, "csv");
            assert!(field(Some(&options), "a").is_some());
        }
        Err(_) => panic!("refused"),
    }
    let r = inspection_reply(Ok((Json::List(vec![]), Json::Null)));
    assert_eq!(r.body, br#"{"columns":[],"sampleRows":null}"#);
    assert_eq!(inspection_reply(Err("x".to_string())).status, "422 Unprocessable Entity");
}

#[test]
fn the_editor_reads_and_writes_in_its_workspace_alone() {
    let op = |name: &str, body: &str| dispatch_fs(name, &body.as_bytes().to_vec(), "/w", false);
    match op("write", r#"{"path":"a/../b.json","content":"x"}"#) {
        FileWork::Write(p, c) => assert_eq!((p.as_str(), c.as_str()), ("/w/b.json", "x")),
        other => panic!("{other:?}"),
    }
    match op("read", r#"{"path":"/w/b.json"}"#) {
        FileWork::Read(p) => assert_eq!(p, "/w/b.json"),
        other => panic!("{other:?}"),
    }
    assert!(matches!(op("exists", r#"{"path":"x"}"#), FileWork::Exists(_)));
    assert!(matches!(op("mkdir", r#"{"path":"x"}"#), FileWork::MakeDir(_)));
    assert!(matches!(op("remove", r#"{"path":"x"}"#), FileWork::Remove(_)));
    assert!(matches!(op("readdir", r#"{"path":"x"}"#), FileWork::ReadDir(_)));
    let refused = |w: FileWork| match w {
        FileWork::Reply(r) => (r.status.clone(), said(&r)["error"].as_str().unwrap().to_string()),
        other => panic!("{other:?}"),
    };
    let bad = "400 Bad Request".to_string();
    assert_eq!(refused(op("read", "{}")), (bad.clone(), "path required".to_string()));
    assert_eq!(
        refused(op("read", r#"{"path":"../etc/passwd"}"#)),
        (bad.clone(), "path escapes the workspace".to_string())
    );
    assert_eq!(
        refused(op("chmod", r#"{"path":"x"}"#)),
        ("404 Not Found".to_string(), "unknown fs op: chmod".to_string())
    );
}

#[test]
fn paths_are_confined_to_the_workspace() {
    let confined = |path: &str| confine_to_workspace("/srv/work", path, false);
    assert_eq!(confined("p/a.json").as_deref(), Ok("/srv/work/p/a.json"));
    assert_eq!(confined("p\\a.json").as_deref(), Ok("/srv/work/p/a.json"));
    assert_eq!(confined("./p/./a.json").as_deref(), Ok("/srv/work/p/a.json"));
    assert_eq!(confined("/srv/work").as_deref(), Ok("/srv/work"));
    assert_eq!(confined("/srv/work/../work/x").as_deref(), Ok("/srv/work/x"));
    for outside in ["..", "../x", "/etc/passwd", "a/../../../x", "/srv/work-other/x", "/SRV/WORK/x", "/"] {
        assert_eq!(
            confined(outside).unwrap_err(),
            "path escapes the workspace",
            "{outside} was let through"
        );
    }
}

#[test]
fn windows_paths_are_confined_to_the_workspace() {
    let confined = |path: &str| confine_to_workspace("C:\\ws", path, true);
    assert_eq!(confined("p/a.json").as_deref(), Ok("C:\\ws\\p\\a.json"));
    assert_eq!(confined("p\\.\\x\\..\\a.json").as_deref(), Ok("C:\\ws\\p\\a.json"));
    // What the browser was told comes back whole.
    assert_eq!(confined("C:\\ws\\a.json").as_deref(), Ok("C:\\ws\\a.json"));
    assert_eq!(confined("C:/ws/a.json").as_deref(), Ok("C:\\ws\\a.json"));
    assert_eq!(confined("\\ws\\a.json").as_deref(), Ok("C:\\ws\\a.json"));
    // The file system does not tell case apart, and neither does this.
    assert_eq!(confined("c:/WS/a.json").as_deref(), Ok("c:\\WS\\a.json"));
    assert_eq!(
        confine_to_workspace("\\\\?\\C:\\ws", "C:/ws/a.json", true).as_deref(),
        Ok("C:\\ws\\a.json")
    );
    for outside in ["..", "D:/ws/a.json", "C:/ws2/a", "/etc", "C:\\ws\\..\\..\\..\\x", "\\\\srv\\share\\x"] {
        assert_eq!(
            confined(outside).unwrap_err(),
            "path escapes the workspace",
            "{outside} was let through"
        );
    }
    assert!(confine_to_workspace("/srv/É", "/srv/é/x", true).is_ok());
    assert!(confine_to_workspace("/srv/É", "/srv/é/x", false).is_err());
    // Elsewhere a drive is a name like any other.
    assert_eq!(
        confine_to_workspace("/srv", "C:/ws/a.json", false).as_deref(),
        Ok("/srv/C:/ws/a.json")
    );
}

#[test]
fn files_on_windows_have_to_be_where_they_say() {
    let found = |p: &str| resolve_in_workspace("\\\\?\\C:\\ws", "f", Some(p.to_string()), true);
    assert_eq!(found("\\\\?\\C:\\ws\\p\\a.json").as_deref(), Ok("\\\\?\\C:\\ws\\p\\a.json"));
    assert_eq!(found("\\\\?\\C:\\ws2\\a.json").unwrap_err(), "path escapes workspace");
    assert_eq!(rel("C:\\ws", "C:\\ws\\p\\a.json", true), "p/a.json");
    assert_eq!(rel("C:\\ws", "C:\\ws", true), "");
    assert_eq!(file_name("C:\\ws\\p\\a.json", true), "a.json");
    assert_eq!(file_name("C:/ws/a.json", true), "a.json");
    assert_eq!(
        static_candidate("\\\\?\\C:\\dist", "/assets/../app.js", true),
        "\\\\?\\C:\\dist\\app.js"
    );
    assert_eq!(static_candidate("\\\\?\\C:\\dist", "/../../../x", true), "\\\\?\\C:\\x");
    assert_eq!(
        static_file("\\\\?\\C:\\dist", Some("\\\\?\\C:\\x".to_string()), true, true),
        "\\\\?\\C:\\dist\\index.html"
    );
}

#[test]
fn named_files_have_to_be_where_they_say() {
    let found = |p: &str| resolve_in_workspace("/w", "f", Some(p.to_string()), false);
    assert_eq!(found("/w/a").as_deref(), Ok("/w/a"));
    assert_eq!(found("/w2/a").unwrap_err(), "path escapes workspace");
    assert_eq!(resolve_in_workspace("/w", "f", None, false).unwrap_err(), "not found: f");
    assert_eq!(rel("/w", "/w/p/a.json", false), "p/a.json");
    assert_eq!(rel("/w", "/elsewhere/a", false), "/elsewhere/a");
    assert_eq!(file_name("/w/p/a.json", false), "a.json");
}

#[test]
fn file_operations_are_answered() {
    assert_eq!(file_reply(&FileResult::Exists(true)).body, br#"{"exists":true}"#);
    assert_eq!(file_reply(&FileResult::Content("x".to_string())).body, br#"{"content":"x"}"#);
    assert_eq!(file_reply(&FileResult::Done).body, br#"{"ok":true}"#);
    assert_eq!(file_reply(&FileResult::Unreadable("e".to_string())).status, "404 Not Found");
    assert_eq!(file_reply(&FileResult::Failed("e".to_string())).status, "500 Internal Server Error");
    let listing = file_reply(&FileResult::Listing(vec![DirEntry {
        name: "a".to_string(),
        is_file: true,
        is_directory: false,
    }]));
    assert_eq!(said(&listing)[0]["name"], "a");
    assert_eq!(said(&listing)[0]["isFile"], true);
    assert_eq!(said(&listing)[0]["isDirectory"], false);
    assert!(flag(Some(&Json::Bool(true))).unwrap());
}

#[test]
fn the_frontend_is_served_from_its_folder_alone() {
    assert_eq!(static_candidate("/dist", "/", false), "/dist/index.html");
    assert_eq!(static_candidate("/dist", "//assets/app.js", false), "/dist/assets/app.js");
    assert_eq!(static_file("/dist", Some("/dist/app.js".to_string()), true, false), "/dist/app.js");
    assert_eq!(static_file("/dist", Some("/etc/passwd".to_string()), true, false), "/dist/index.html");
    assert_eq!(static_file("/dist", Some("/dist/assets".to_string()), false, false), "/dist/index.html");
    assert_eq!(static_file("/dist", None, false, false), "/dist/index.html");
    let types = [
        ("index.html", "text/html; charset=utf-8"),
        ("a.js", "text/javascript; charset=utf-8"),
        ("a.mjs", "text/javascript; charset=utf-8"),
        ("a.css", "text/css; charset=utf-8"),
        ("a.json", "application/json"),
        ("a.js.map", "application/json"),
        ("a.svg", "image/svg+xml"),
        ("a.png", "image/png"),
        ("a.jpg", "image/jpeg"),
        ("a.jpeg", "image/jpeg"),
        ("a.webp", "image/webp"),
        ("a.ico", "image/x-icon"),
        ("a.woff2", "font/woff2"),
        ("a.woff", "font/woff"),
        ("a.ttf", "font/ttf"),
        ("a.wasm", "application/wasm"),
        ("LICENSE", "application/octet-stream"),
    ];
    for (name, expected) in types {
        assert_eq!(web_content_type(name), expected, "{name}");
    }
    let r = static_reply("a.css", "/dist/a.css", Ok(b"x".to_vec()));
    assert_eq!((r.status.as_str(), r.content_type.as_str()), ("200 OK", "text/css; charset=utf-8"));
    let r = static_reply("a.css", "/dist/a.css", Err("gone".to_string()));
    assert_eq!(said(&r)["error"], "/dist/a.css: gone");
}
