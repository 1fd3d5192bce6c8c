//! What the web editor's server does with a request: who may make it, its
//! commands, and the files it reads and writes for the browser.
use crate::audit::{person_ref, Outcome};
use crate::bytes::bytes_of;
use crate::console_auth::{rank, Identity, Role};
use crate::http::{
    brings, forbids, guard_local, is_reply, local_enough, reports, respond, respond_403,
    respond_err, respond_json, Reply, Request,
};
use crate::json::{
    add_item, add_member, docs, field, field_in, flag, flag_in, json_in_bytes,
    law_a_member_is_found_by_its_name, member, members, parse_bytes,
    text, text_in, text_json, value_opt, Doc, Json,
};
use crate::panel::or_false;
use crate::paths::{
    comparable, confine_to_workspace, destination, file_extension, extension, flatten_path,
    is_inside, join, lies_in, names_drive, opened, plain_form, under, uniform,
};
use crate::routes::{refuse_role, role_refusal, sign_in_token, token_in, Demand, Entry};
use crate::text::{
    after_prefix, begins, drop_front, glue2, glue3, same, starts_with, strip_front, strip_prefix,
    text_opt,
};
use vstd::prelude::*;
use vstd::string::*;
use vstd::utf8::encode_utf8;

verus! {

// ---------------------------------------------------------------------------
// Who may make a request
// ---------------------------------------------------------------------------

/// The command that a path names.
pub open spec fn command_in(path: Seq<char>) -> Option<Seq<char>> {
    after_prefix(path, "/api/cmd/"@)
}

/// The file operation that a path names.
pub open spec fn file_op_in(path: Seq<char>) -> Option<Seq<char>> {
    after_prefix(path, "/api/fs/"@)
}

/// The role that the editor asks for. It has no read-only mode: opening it means
/// loading a workspace to change it, so the whole surface needs operator.
/// Anything touching connections, which is to say credentials, needs admin.
pub open spec fn editor_role(path: Seq<char>) -> Role {
    match command_in(path) {
        Some(c) => if begins(c, "connection"@) {
            Role::Admin
        } else {
            Role::Operator
        },
        None => Role::Operator,
    }
}

/// The action recorded for a request to the editor.
pub open spec fn editor_action(path: Seq<char>) -> Seq<char> {
    if begins(path, "/api/"@) {
        "editor.api"@
    } else {
        "editor.open"@
    }
}

/// Whether a request would change something here and comes from elsewhere.
pub open spec fn is_foreign_post(req: Request, bind_host: Seq<char>) -> bool {
    &&& req.method@ == "POST"@
    &&& begins(req.path@, "/api/"@)
    &&& !local_enough(text_opt(req.origin), text_opt(req.host), bind_host)
}

/// What comes of a request to the editor before anybody is identified.
pub open spec fn is_received_by_web(req: &Request, bind_host: &str, r: Entry) -> bool {
    if is_foreign_post(*req, bind_host@) {
        r matches Entry::Reply(a) && forbids(a, "blocked: cross-origin or non-local request"@)
    } else if req.method@ == "POST"@ && req.path@ == "/api/session"@ {
        r matches Entry::SignIn(t) && t@ == token_in(req.body@)
    } else {
        r matches Entry::Identify(d) && d.needed == editor_role(req.path@) && d.action@
            == editor_action(req.path@) && d.target@ == req.path@
    }
}

/// The first step for a request to the editor: what comes from elsewhere is
/// turned away, a sign-in is let through, and of anything else the caller has
/// to be known.
pub fn receive_web(req: &Request, bind_host: &str) -> (r: Entry)
    ensures
        is_received_by_web(req, bind_host, r),
{
    let is_post = same(req.method.as_str(), "POST");
    let is_api = starts_with(req.path.as_str(), "/api/");
    if is_post && is_api && !guard_local(req, bind_host) {
        return Entry::Reply(respond_403("blocked: cross-origin or non-local request"));
    }
    if is_post && same(req.path.as_str(), "/api/session") {
        return Entry::SignIn(sign_in_token(&req.body));
    }
    let needed = match strip_prefix(req.path.as_str(), "/api/cmd/") {
        Some(c) => if starts_with(c.as_str(), "connection") {
            Role::Admin
        } else {
            Role::Operator
        },
        None => Role::Operator,
    };
    let action = if is_api {
        "editor.api"
    } else {
        "editor.open"
    };
    Entry::Identify(Demand { needed, action, target: req.path.clone() })
}

/// What comes of a request to the editor once the caller is known.
#[derive(Debug)]
pub enum WebNext {
    Reply(Reply),
    /// This command.
    Command(String),
    /// This file operation.
    Files(String),
    RunStream,
    Inspect,
    /// A file of the frontend.
    Static,
}

/// Whether this is what comes of a request that its caller may make.
pub open spec fn web_leads_to(next: WebNext, method: Seq<char>, path: Seq<char>) -> bool {
    if method == "POST"@ && command_in(path) is Some {
        next matches WebNext::Command(c) && Some(c@) == command_in(path)
    } else if method == "POST"@ && file_op_in(path) is Some {
        next matches WebNext::Files(op) && Some(op@) == file_op_in(path)
    } else if method == "POST"@ && path == "/api/run_stream"@ {
        next matches WebNext::RunStream
    } else if method == "POST"@ && path == "/api/inspect"@ {
        next matches WebNext::Inspect
    } else {
        next matches WebNext::Static
    }
}

/// What comes of a request to the editor once it is known who makes it.
pub open spec fn is_answered_by_web(
    req: &Request,
    demand: &Demand,
    who: Option<&Identity>,
    signin_page: &str,
    r: (Option<Outcome>, WebNext),
) -> bool {
    match person_ref(who) {
        None => {
            &&& r.0 == Some(Outcome::Unauthenticated)
            &&& r.1 matches WebNext::Reply(a)
            &&& if req.method@ == "GET"@ && !begins(req.path@, "/api/"@) {
                is_reply(a, "401 Unauthorized"@, "text/html; charset=utf-8"@, encode_utf8(signin_page@))
            } else {
                reports(a, "401 Unauthorized"@, "sign in to use the editor"@)
            }
        },
        Some(p) => if rank(p.role) < rank(demand.needed) {
            &&& r.0 == Some(Outcome::Denied)
            &&& r.1 matches WebNext::Reply(a) && forbids(a, role_refusal(demand.needed, p.role))
        } else {
            &&& r.0 == (if req.method@ == "POST"@ {
                Some(Outcome::Allowed)
            } else {
                None
            })
            &&& web_leads_to(r.1, req.method@, req.path@)
        },
    }
}

/// The second step for a request to the editor, once the caller has been looked
/// for: what is put into the audit log, and what comes next.
pub fn proceed_web(
    req: &Request,
    demand: &Demand,
    who: Option<&Identity>,
    signin_page: &str,
) -> (r: (Option<Outcome>, WebNext))
    ensures
        is_answered_by_web(req, demand, who, signin_page, r),
{
    let who = match who {
        Some(i) => i,
        None => {
            let reply = if same(req.method.as_str(), "GET") && !starts_with(req.path.as_str(), "/api/") {
                respond("401 Unauthorized", "text/html; charset=utf-8", bytes_of(signin_page))
            } else {
                respond_err("401 Unauthorized", "sign in to use the editor")
            };
            return (Some(Outcome::Unauthenticated), WebNext::Reply(reply));
        },
    };
    if !who.role.allows(demand.needed) {
        let why = refuse_role(demand.needed, who.role);
        return (Some(Outcome::Denied), WebNext::Reply(respond_403(why.as_str())));
    }
    if !same(req.method.as_str(), "POST") {
        return (None, WebNext::Static);
    }
    let path = req.path.as_str();
    let next = match strip_prefix(path, "/api/cmd/") {
        Some(c) => WebNext::Command(c),
        None => match strip_prefix(path, "/api/fs/") {
            Some(op) => WebNext::Files(op),
            None => if same(path, "/api/run_stream") {
                WebNext::RunStream
            } else if same(path, "/api/inspect") {
                WebNext::Inspect
            } else {
                WebNext::Static
            },
        },
    };
    (Some(Outcome::Allowed), next)
}

/// Nobody reaches a command on connections, which is to say on credentials, with
/// less than the admin role, however the path to it is written; and nothing else
/// in the editor with less than the operator role.
pub proof fn law_connections_need_an_admin(next: WebNext, method: Seq<char>, path: Seq<char>)
    requires
        web_leads_to(next, method, path),
    ensures
        (next matches WebNext::Command(c) && begins(c@, "connection"@)) ==> editor_role(path)
            == Role::Admin,
        rank(editor_role(path)) >= rank(Role::Operator),
{
}

// ---------------------------------------------------------------------------
// Commands
// ---------------------------------------------------------------------------

/// What a command asks the server to do.
#[derive(Debug)]
pub enum Command {
    /// Nothing more: this is the answer.
    Reply(Reply),
    /// Encrypt this connection payload.
    Encrypt(String),
    /// Decrypt this connection payload.
    Decrypt(String),
    /// Run this pipeline under this name.
    Run(Json, String),
    /// Compile this pipeline to SQL per stage.
    Compile(Json),
    /// Where the columns of this pipeline come from.
    Lineage(Json),
    /// How far this pipeline can be trusted; reading each source's live schema
    /// as well when that is asked for.
    Trust(Json, bool),
}

/// The member called `k`, or null.
pub open spec fn field_or_null(d: Option<Doc>, k: Seq<char>) -> Doc {
    match field_in(d, k) {
        Some(v) => v,
        None => Doc::Null,
    }
}

/// The text called `k`, or another in its place.
pub open spec fn text_field_or(d: Option<Doc>, k: Seq<char>, default: Seq<char>) -> Seq<char> {
    match text_in(field_in(d, k)) {
        Some(t) => t,
        None => default,
    }
}

/// The state of the one engine there is.
pub open spec fn engine_members(duckdb: Seq<char>) -> Seq<(Seq<char>, Doc)> {
    seq![
        ("id"@, Doc::Text("duckdb"@)),
        ("name"@, Doc::Text("DuckDB"@)),
        ("description"@, Doc::Text("DuckDB engine"@)),
        ("required"@, Doc::Bool(true)),
        ("installed"@, Doc::Bool(true)),
        ("outdated"@, Doc::Bool(false)),
        ("version"@, Doc::Text("1.5.4"@)),
        ("target_version"@, Doc::Text("1.5.4"@)),
        ("path"@, Doc::Text(duckdb)),
        ("available"@, Doc::Bool(true)),
    ]
}

/// Whether this is what a command asks for.
pub open spec fn asks_for(
    c: Command,
    cmd: Seq<char>,
    body: Seq<u8>,
    workspace: Seq<char>,
    duckdb: Seq<char>,
) -> bool {
    let args = json_in_bytes(body);
    if cmd == "ping"@ {
        c matches Command::Reply(a) && brings(a, Doc::Text("pong"@))
    } else if cmd == "connection_encrypt_payload"@ {
        c matches Command::Encrypt(p) && p@ == text_field_or(args, "payloadJson"@, "null"@)
    } else if cmd == "connection_decrypt_payload"@ {
        c matches Command::Decrypt(p) && p@ == text_field_or(args, "payloadJson"@, "null"@)
    } else if cmd == "run_pipeline"@ {
        c matches Command::Run(p, name) && p@ == field_or_null(args, "pipeline"@) && name@
            == text_field_or(args, "pipelineName"@, "web"@)
    } else if cmd == "compile_pipeline"@ {
        c matches Command::Compile(p) && p@ == field_or_null(args, "pipeline"@)
    } else if cmd == "pipeline_column_lineage"@ {
        c matches Command::Lineage(p) && p@ == field_or_null(args, "pipeline"@)
    } else if cmd == "pipeline_trust_report"@ {
        c matches Command::Trust(p, live) && p@ == field_or_null(args, "pipeline"@) && live == or_false(
            flag_in(field_in(args, "checkDrift"@)),
        )
    } else if cmd == "web_bootstrap"@ {
        c matches Command::Reply(a) && brings(
            a,
            Doc::Object(seq![("workspace"@, Doc::Text(workspace))]),
        )
    } else if cmd == "engine_status"@ {
        c matches Command::Reply(a) && brings(
            a,
            Doc::List(seq![Doc::Object(engine_members(duckdb))]),
        )
    } else {
        c matches Command::Reply(a) && reports(a, "404 Not Found"@, "unknown command: "@ + cmd)
    }
}

/// The member called `k`, or null.
fn field_value(args: Option<&Json>, k: &str) -> (r: Json)
    ensures
        r@ == field_or_null(value_opt(args), k@),
{
    match field(args, k) {
        Some(v) => v.copy(),
        None => Json::Null,
    }
}

/// The text called `k`, or another in its place.
fn text_field(args: Option<&Json>, k: &str, default: &str) -> (r: String)
    ensures
        r@ == text_field_or(value_opt(args), k@, default@),
{
    match text(field(args, k)) {
        Some(t) => t.to_owned(),
        None => default.to_owned(),
    }
}

/// The answer about the engine.
fn engine_status(duckdb: &str) -> (r: Reply)
    ensures
        brings(r, Doc::List(seq![Doc::Object(engine_members(duckdb@))])),
{
    let mut m: Vec<(String, Json)> = Vec::new();
    add_member(&mut m, "id", text_json("duckdb"));
    add_member(&mut m, "name", text_json("DuckDB"));
    add_member(&mut m, "description", text_json("DuckDB engine"));
    add_member(&mut m, "required", Json::Bool(true));
    add_member(&mut m, "installed", Json::Bool(true));
    add_member(&mut m, "outdated", Json::Bool(false));
    add_member(&mut m, "version", text_json("1.5.4"));
    add_member(&mut m, "target_version", text_json("1.5.4"));
    add_member(&mut m, "path", text_json(duckdb));
    add_member(&mut m, "available", Json::Bool(true));
    assert(members(m@) == engine_members(duckdb@));
    let mut list: Vec<Json> = Vec::new();
    add_item(&mut list, Json::Object(m));
    assert(docs(list@) == seq![Doc::Object(engine_members(duckdb@))]);
    respond_json(&Json::List(list))
}

/// What a command with this body asks for. An unknown one gets a real 404: the
/// browser's shim turns that into nothing for the commands that only the desktop
/// has.
pub fn dispatch_cmd(cmd: &str, body: &Vec<u8>, workspace: &str, duckdb: &str) -> (r: Command)
    ensures
        asks_for(r, cmd@, body@, workspace@, duckdb@),
{
    let parsed = parse_bytes(body.as_slice());
    let args = parsed.as_ref();
    assert(value_opt(args) == json_in_bytes(body@));
    // Drives the editor's runtime indicator from offline to ready.
    if same(cmd, "ping") {
        return Command::Reply(respond_json(&text_json("pong")));
    }
    if same(cmd, "connection_encrypt_payload") {
        return Command::Encrypt(text_field(args, "payloadJson", "null"));
    }
    if same(cmd, "connection_decrypt_payload") {
        return Command::Decrypt(text_field(args, "payloadJson", "null"));
    }
    if same(cmd, "run_pipeline") {
        return Command::Run(field_value(args, "pipeline"), text_field(args, "pipelineName", "web"));
    }
    if same(cmd, "compile_pipeline") {
        return Command::Compile(field_value(args, "pipeline"));
    }
    if same(cmd, "pipeline_column_lineage") {
        return Command::Lineage(field_value(args, "pipeline"));
    }
    if same(cmd, "pipeline_trust_report") {
        let live = match flag(field(args, "checkDrift")) {
            Some(b) => b,
            None => false,
        };
        return Command::Trust(field_value(args, "pipeline"), live);
    }
    // Tells the browser which workspace it is editing: there is no native folder
    // picker on the web.
    if same(cmd, "web_bootstrap") {
        let mut m: Vec<(String, Json)> = Vec::new();
        add_member(&mut m, "workspace", text_json(workspace));
        assert(members(m@) == seq![("workspace"@, Doc::Text(workspace@))]);
        return Command::Reply(respond_json(&Json::Object(m)));
    }
    if same(cmd, "engine_status") {
        return Command::Reply(engine_status(duckdb));
    }
    let why = glue2("unknown command: ", cmd);
    Command::Reply(respond_err("404 Not Found", why.as_str()))
}

/// Why a command could not be carried out.
#[derive(Debug)]
pub enum Failure {
    /// The pipeline that came with it is none.
    BadPipeline(String),
    /// The pipeline cannot be resolved, compiled or run as it is.
    Refused(String),
    /// The connection secrets could not be dealt with.
    Secrets(String),
    /// The result could not be written down.
    Internal(String),
    /// The command of this name did not come back.
    Panicked(String),
}

/// Whether a reply says why a command could not be carried out.
pub open spec fn explains(r: Reply, f: Failure) -> bool {
    match f {
        Failure::BadPipeline(e) => reports(r, "400 Bad Request"@, "bad pipeline: "@ + e@),
        Failure::Refused(e) => reports(r, "400 Bad Request"@, e@),
        Failure::Secrets(e) => reports(r, "500 Internal Server Error"@, "connection secrets: "@ + e@),
        Failure::Internal(e) => reports(r, "500 Internal Server Error"@, e@),
        Failure::Panicked(cmd) => reports(
            r,
            "500 Internal Server Error"@,
            "command '"@ + cmd@ + "' failed unexpectedly"@,
        ),
    }
}

/// The answer to a command that has been carried out, or could not be.
pub fn command_reply(result: &Result<Json, Failure>) -> (r: Reply)
    ensures
        match result {
            Ok(v) => brings(r, v@),
            Err(f) => explains(r, *f),
        },
{
    match result {
        Ok(v) => respond_json(v),
        Err(Failure::BadPipeline(e)) => {
            let why = glue2("bad pipeline: ", e.as_str());
            respond_err("400 Bad Request", why.as_str())
        },
        Err(Failure::Refused(e)) => respond_err("400 Bad Request", e.as_str()),
        Err(Failure::Secrets(e)) => {
            let why = glue2("connection secrets: ", e.as_str());
            respond_err("500 Internal Server Error", why.as_str())
        },
        Err(Failure::Internal(e)) => respond_err("500 Internal Server Error", e.as_str()),
        Err(Failure::Panicked(cmd)) => {
            let why = glue3("command '", cmd.as_str(), "' failed unexpectedly");
            respond_err("500 Internal Server Error", why.as_str())
        },
    }
}

// ---------------------------------------------------------------------------
// Streaming a run
// ---------------------------------------------------------------------------

/// The head of a reply that streams a run. It has no length: the stream ends
/// with the run.
pub const STREAM_HEAD: &'static str = "HTTP/1.1 200 OK\r\nContent-Type: text/event-stream\r\nCache-Control: no-cache\r\nConnection: close\r\n\r\n";

/// A run that the browser asks to see as it happens.
#[derive(Debug)]
pub struct StreamedRun {
    pub pipeline: Json,
    pub name: String,
    /// The node to stop after, when only the part up to it is wanted.
    pub target: Option<String>,
}

/// What a streamed run asks for.
pub open spec fn is_streamed_run(body: &Vec<u8>, r: StreamedRun) -> bool {
    &&& r.pipeline@ == field_or_null(json_in_bytes(body@), "pipeline"@)
    &&& r.name@ == text_field_or(json_in_bytes(body@), "pipelineName"@, "web"@)
    &&& text_opt(r.target) == match text_in(field_in(json_in_bytes(body@), "targetNodeId"@)) {
        Some(t) => if t.len() > 0 {
            Some(t)
        } else {
            None
        },
        None => None,
    }
}

/// What the body of a streamed run asks for.
pub fn read_streamed_run(body: &Vec<u8>) -> (r: StreamedRun)
    ensures
        is_streamed_run(body, r),
{
    let parsed = parse_bytes(body.as_slice());
    let args = parsed.as_ref();
    assert(value_opt(args) == json_in_bytes(body@));
    let target = match text(field(args, "targetNodeId")) {
        Some(t) => if t.is_empty() {
            None
        } else {
            Some(t.to_owned())
        },
        None => None,
    };
    StreamedRun {
        pipeline: field_value(args, "pipeline"),
        name: text_field(args, "pipelineName", "web"),
        target,
    }
}

/// One event of a run, on the wire.
pub fn event_frame(event: &str) -> (r: String)
    ensures
        r@ == "data: "@ + event@ + "\n\n"@,
{
    glue3("data: ", event, "\n\n")
}

/// The result of a run, on the wire, behind its events.
pub fn result_frame(result: &str) -> (r: String)
    ensures
        r@ == "event: result\ndata: "@ + result@ + "\n\n"@,
{
    glue3("event: result\ndata: ", result, "\n\n")
}

// ---------------------------------------------------------------------------
// Looking at a source
// ---------------------------------------------------------------------------

/// What an inspection asks for.
pub open spec fn is_inspection(body: &Vec<u8>, r: Result<(String, Json), Reply>) -> bool {
    ({
        let args = json_in_bytes(body@);
        let format = text_field_or(args, "format"@, Seq::empty());
        if format.len() == 0 {
            r matches Err(a) && reports(a, "400 Bad Request"@, "inspect: missing format"@)
        } else {
            r matches Ok(x) && x.0@ == format && x.1@ == match field_in(args, "options"@) {
                Some(v) => v,
                None => Doc::Object(Seq::empty()),
            }
        }
    })
}

/// The format to inspect and the options to do it with, or the answer to a
/// request that names none.
pub fn read_inspection(body: &Vec<u8>) -> (r: Result<(String, Json), Reply>)
    ensures
        is_inspection(body, r),
{
    let parsed = parse_bytes(body.as_slice());
    let args = parsed.as_ref();
    assert(value_opt(args) == json_in_bytes(body@));
    let format = match text(field(args, "format")) {
        Some(t) => t.to_owned(),
        None => String::new(),
    };
    if format.as_str().is_empty() {
        return Err(respond_err("400 Bad Request", "inspect: missing format"));
    }
    let options = match field(args, "options") {
        Some(v) => v.copy(),
        None => Json::Object(Vec::new()),
    };
    Ok((format, options))
}

/// The answer to an inspection: the columns and some rows, or why the source
/// could not be read.
pub fn inspection_reply(result: Result<(Json, Json), String>) -> (r: Reply)
    ensures
        match result {
            Ok(x) => brings(r, Doc::Object(seq![("columns"@, x.0@), ("sampleRows"@, x.1@)])),
            Err(e) => reports(r, "422 Unprocessable Entity"@, e@),
        },
{
    match result {
        Ok((columns, rows)) => {
            let mut m: Vec<(String, Json)> = Vec::new();
            let ghost c = columns@;
            let ghost s = rows@;
            add_member(&mut m, "columns", columns);
            add_member(&mut m, "sampleRows", rows);
            assert(members(m@) == seq![("columns"@, c), ("sampleRows"@, s)]);
            respond_json(&Json::Object(m))
        },
        Err(e) => respond_err("422 Unprocessable Entity", e.as_str()),
    }
}

// ---------------------------------------------------------------------------
// Files of the workspace
// ---------------------------------------------------------------------------

/// What a file operation asks for.
#[derive(Debug)]
pub enum FileWork {
    /// Nothing more: this is the answer.
    Reply(Reply),
    Exists(String),
    Read(String),
    /// Put this content into this file.
    Write(String, String),
    MakeDir(String),
    Remove(String),
    ReadDir(String),
}

/// The path that a file operation names.
pub open spec fn path_arg(body: Seq<u8>) -> Seq<char> {
    text_field_or(json_in_bytes(body), "path"@, Seq::empty())
}

/// Whether a path that a browser names stays in the workspace.
pub open spec fn stays_in(workspace: Seq<char>, path: Seq<char>, windows: bool) -> bool {
    lies_in(
        comparable(workspace, windows),
        comparable(destination(workspace, path, windows), windows),
        false,
    )
}

/// What a file operation with this body asks for.
pub open spec fn is_file_work(
    op: &str,
    body: &Vec<u8>,
    workspace: &str,
    windows: bool,
    r: FileWork,
) -> bool {
    ({
        let path = path_arg(body@);
        let target = destination(workspace@, path, windows);
        if path.len() == 0 {
            r matches FileWork::Reply(a) && reports(a, "400 Bad Request"@, "path required"@)
        } else if !stays_in(workspace@, path, windows) {
            r matches FileWork::Reply(a) && reports(
                a,
                "400 Bad Request"@,
                "path escapes the workspace"@,
            )
        } else if op@ == "exists"@ {
            r matches FileWork::Exists(p) && p@ == target
        } else if op@ == "read"@ {
            r matches FileWork::Read(p) && p@ == target
        } else if op@ == "write"@ {
            r matches FileWork::Write(p, content) && p@ == target && content@ == text_field_or(
                json_in_bytes(body@),
                "content"@,
                Seq::empty(),
            )
        } else if op@ == "mkdir"@ {
            r matches FileWork::MakeDir(p) && p@ == target
        } else if op@ == "remove"@ {
            r matches FileWork::Remove(p) && p@ == target
        } else if op@ == "readdir"@ {
            r matches FileWork::ReadDir(p) && p@ == target
        } else {
            r matches FileWork::Reply(a) && reports(a, "404 Not Found"@, "unknown fs op: "@ + op@)
        }
    })
}

/// What a file operation with this body asks for. The browser cannot touch the
/// server's disk, so its file operations come here, and every path is confined
/// to the workspace before the operation is looked at.
pub fn dispatch_fs(op: &str, body: &Vec<u8>, workspace: &str, windows: bool) -> (r: FileWork)
    ensures
        is_file_work(op, body, workspace, windows, r),
{
    let parsed = parse_bytes(body.as_slice());
    let args = parsed.as_ref();
    assert(value_opt(args) == json_in_bytes(body@));
    let path = match text(field(args, "path")) {
        Some(t) => t.to_owned(),
        None => String::new(),
    };
    let target = match confine_to_workspace(workspace, path.as_str(), windows) {
        Ok(p) => p,
        Err(e) => {
            return FileWork::Reply(respond_err("400 Bad Request", e.as_str()));
        },
    };
    if same(op, "exists") {
        FileWork::Exists(target)
    } else if same(op, "read") {
        FileWork::Read(target)
    } else if same(op, "write") {
        let content = match text(field(args, "content")) {
            Some(t) => t.to_owned(),
            None => String::new(),
        };
        FileWork::Write(target, content)
    } else if same(op, "mkdir") {
        FileWork::MakeDir(target)
    } else if same(op, "remove") {
        FileWork::Remove(target)
    } else if same(op, "readdir") {
        FileWork::ReadDir(target)
    } else {
        let why = glue2("unknown fs op: ", op);
        FileWork::Reply(respond_err("404 Not Found", why.as_str()))
    }
}

/// One entry of a folder.
#[derive(Debug)]
pub struct DirEntry {
    pub name: String,
    pub is_file: bool,
    pub is_directory: bool,
}

/// One entry of a folder, as the browser sees it.
pub open spec fn entry_doc(e: DirEntry) -> Doc {
    Doc::Object(
        seq![
            ("name"@, Doc::Text(e.name@)),
            ("isFile"@, Doc::Bool(e.is_file)),
            ("isDirectory"@, Doc::Bool(e.is_directory)),
        ],
    )
}

/// What a file operation came to.
#[derive(Debug)]
pub enum FileResult {
    Exists(bool),
    Content(String),
    Done,
    Listing(Vec<DirEntry>),
    /// The file could not be read.
    Unreadable(String),
    /// The change could not be made.
    Failed(String),
}

/// Whether a reply says what a file operation came to.
pub open spec fn tells(r: Reply, result: FileResult) -> bool {
    match result {
        FileResult::Exists(b) => brings(r, Doc::Object(seq![("exists"@, Doc::Bool(b))])),
        FileResult::Content(c) => brings(r, Doc::Object(seq![("content"@, Doc::Text(c@))])),
        FileResult::Done => brings(r, Doc::Object(seq![("ok"@, Doc::Bool(true))])),
        FileResult::Listing(v) => brings(r, Doc::List(v@.map_values(|e: DirEntry| entry_doc(e)))),
        FileResult::Unreadable(e) => reports(r, "404 Not Found"@, e@),
        FileResult::Failed(e) => reports(r, "500 Internal Server Error"@, e@),
    }
}

/// A value with one member.
fn single(k: &str, v: Json) -> (r: Json)
    ensures
        r@ == Doc::Object(seq![(k@, v@)]),
{
    let mut m: Vec<(String, Json)> = Vec::new();
    let ghost d = v@;
    add_member(&mut m, k, v);
    assert(members(m@) == seq![(k@, d)]);
    Json::Object(m)
}

/// The answer to a file operation.
pub fn file_reply(result: &FileResult) -> (r: Reply)
    ensures
        tells(r, *result),
{
    match result {
        FileResult::Exists(b) => respond_json(&single("exists", Json::Bool(*b))),
        FileResult::Content(c) => respond_json(&single("content", text_json(c.as_str()))),
        FileResult::Done => respond_json(&single("ok", Json::Bool(true))),
        FileResult::Listing(v) => {
            let mut items: Vec<Json> = Vec::new();
            let ghost all = v@.map_values(|e: DirEntry| entry_doc(e));
            let mut i: usize = 0;
            while i < v.len()
                invariant
                    i <= v@.len(),
                    all == v@.map_values(|e: DirEntry| entry_doc(e)),
                    docs(items@) == all.take(i as int),
                decreases v@.len() - i,
            {
                let e = &v[i];
                let mut m: Vec<(String, Json)> = Vec::new();
                add_member(&mut m, "name", text_json(e.name.as_str()));
                add_member(&mut m, "isFile", Json::Bool(e.is_file));
                add_member(&mut m, "isDirectory", Json::Bool(e.is_directory));
                assert(Doc::Object(members(m@)) == entry_doc(*e)) by {
                    assert(members(m@) == entry_doc(*e)->Object_0);
                }
                add_item(&mut items, Json::Object(m));
                assert(all.take(i + 1) == all.take(i as int).push(entry_doc(v@[i as int])));
                i = i + 1;
            }
            assert(all.take(i as int) == all);
            respond_json(&Json::List(items))
        },
        FileResult::Unreadable(e) => respond_err("404 Not Found", e.as_str()),
        FileResult::Failed(e) => respond_err("500 Internal Server Error", e.as_str()),
    }
}

// ---------------------------------------------------------------------------
// Files of the frontend
// ---------------------------------------------------------------------------

/// The file that a URL path may name in the frontend. Windows works out `.` and
/// `..` on the text of a path, and takes a path with an extended-length prefix
/// as it stands, so they are worked out here.
pub open spec fn candidate(dist: Seq<char>, url_path: Seq<char>, windows: bool) -> Seq<char> {
    let named = drop_front(url_path, '/');
    let p = under(
        dist,
        if named.len() == 0 {
            "index.html"@
        } else {
            named
        },
        windows,
    );
    if windows {
        plain_form(p, true)
    } else {
        p
    }
}

/// The file that a URL path may name in the frontend.
pub fn static_candidate(dist: &str, url_path: &str, windows: bool) -> (r: String)
    ensures
        r@ == candidate(dist@, url_path@, windows),
{
    let named = strip_front(url_path, '/');
    let p = if named.as_str().is_empty() {
        join(dist, "index.html", windows)
    } else {
        join(dist, named.as_str(), windows)
    };
    if windows {
        flatten_path(p.as_str(), true)
    } else {
        p
    }
}

/// Which file is served, once the file system has spoken.
pub open spec fn is_served(
    dist: &str,
    canonical: Option<String>,
    is_file: bool,
    windows: bool,
    r: String,
) -> bool {
    &&& r@ == match canonical {
        Some(p) => if lies_in(dist@, p@, windows) && is_file {
            p@
        } else {
            under(dist@, "index.html"@, windows)
        },
        None => under(dist@, "index.html"@, windows),
    }
    &&& (dist@.len() > 0 && !(windows && dist@.len() == 2 && names_drive(dist@)) ==> lies_in(
        dist@,
        r@,
        windows,
    ))
}

/// The file to serve, once the file system has said where the candidate really
/// is and whether it is a file: that one if it lies in the frontend's folder,
/// and otherwise the page that does its own routing.
pub fn static_file(dist: &str, canonical: Option<String>, is_file: bool, windows: bool) -> (r: String)
    ensures
        is_served(dist, canonical, is_file, windows, r),
{
    proof {
        reveal_strlit("index.html");
        let page = under(dist@, "index.html"@, windows);
        let name = uniform("index.html"@, windows);
        assert(name == "index.html"@);
        if dist@.len() > 0 {
            let d = uniform(dist@, windows);
            let q = uniform(page, windows);
            assert(d.last() == if windows && dist@.last() == '/' {
                '\\'
            } else {
                dist@.last()
            });
            if !(windows && dist@.len() == 2 && names_drive(dist@)) {
                let whole = opened(d, windows);
                assert(whole.len() <= q.len());
                assert(q.take(whole.len() as int) == whole);
            }
        }
    }
    match canonical {
        Some(p) => if is_inside(dist, p.as_str(), windows) && is_file {
            p
        } else {
            join(dist, "index.html", windows)
        },
        None => join(dist, "index.html", windows),
    }
}

/// The content type of a file, by the extension of its name.
pub open spec fn content_type_of(name: Seq<char>) -> Seq<char> {
    let e = match extension(name) {
        Some(x) => x,
        None => Seq::empty(),
    };
    if e == "html"@ {
        "text/html; charset=utf-8"@
    } else if e == "js"@ || e == "mjs"@ {
        "text/javascript; charset=utf-8"@
    } else if e == "css"@ {
        "text/css; charset=utf-8"@
    } else if e == "json"@ || e == "map"@ {
        "application/json"@
    } else if e == "svg"@ {
        "image/svg+xml"@
    } else if e == "png"@ {
        "image/png"@
    } else if e == "jpg"@ || e == "jpeg"@ {
        "image/jpeg"@
    } else if e == "webp"@ {
        "image/webp"@
    } else if e == "ico"@ {
        "image/x-icon"@
    } else if e == "woff2"@ {
        "font/woff2"@
    } else if e == "woff"@ {
        "font/woff"@
    } else if e == "ttf"@ {
        "font/ttf"@
    } else if e == "wasm"@ {
        "application/wasm"@
    } else {
        "application/octet-stream"@
    }
}

/// The content type of a file, by the extension of its name.
pub fn web_content_type(name: &str) -> (r: &'static str)
    ensures
        r@ == content_type_of(name@),
{
    let e = match file_extension(name) {
        Some(x) => x,
        None => String::new(),
    };
    let e = e.as_str();
    if same(e, "html") {
        "text/html; charset=utf-8"
    } else if same(e, "js") || same(e, "mjs") {
        "text/javascript; charset=utf-8"
    } else if same(e, "css") {
        "text/css; charset=utf-8"
    } else if same(e, "json") || same(e, "map") {
        "application/json"
    } else if same(e, "svg") {
        "image/svg+xml"
    } else if same(e, "png") {
        "image/png"
    } else if same(e, "jpg") || same(e, "jpeg") {
        "image/jpeg"
    } else if same(e, "webp") {
        "image/webp"
    } else if same(e, "ico") {
        "image/x-icon"
    } else if same(e, "woff2") {
        "font/woff2"
    } else if same(e, "woff") {
        "font/woff"
    } else if same(e, "ttf") {
        "font/ttf"
    } else if same(e, "wasm") {
        "application/wasm"
    } else {
        "application/octet-stream"
    }
}

/// The answer to a request for a file of the frontend, whose name and path these
/// are, with what reading it brought.
pub fn static_reply(name: &str, path: &str, content: Result<Vec<u8>, String>) -> (r: Reply)
    ensures
        match content {
            Ok(bytes) => is_reply(r, "200 OK"@, content_type_of(name@), bytes@),
            Err(e) => reports(r, "404 Not Found"@, path@ + ": "@ + e@),
        },
{
    match content {
        Ok(bytes) => respond("200 OK", web_content_type(name), bytes),
        Err(e) => {
            let why = glue3(path, ": ", e.as_str());
            respond_err("404 Not Found", why.as_str())
        },
    }
}

/// A command on connections takes an admin, and everything else in the editor an
/// operator.
pub proof fn law_what_the_editor_takes(c: Seq<char>, path: Seq<char>)
    ensures
        c.len() >= 10 && c.take(10) == "connection"@ ==> editor_role("/api/cmd/"@ + c) == Role::Admin,
        c.len() < 10 || c.take(10) != "connection"@ ==> editor_role("/api/cmd/"@ + c)
            == Role::Operator,
        path.len() < 9 || path.take(9) != "/api/cmd/"@ ==> editor_role(path) == Role::Operator,
{
    reveal_strlit("/api/cmd/");
    reveal_strlit("connection");
    assert("connection"@.len() == 10);
    let s = "/api/cmd/"@ + c;
    assert(s.take(9) == "/api/cmd/"@);
    assert(s.skip(9) == c);
}

/// A post to the editor's own paths leads to the command, the file operation, the
/// run or the inspection that it names; everything else is a file of the frontend.
pub proof fn law_where_the_editor_leads(next: WebNext, method: Seq<char>, path: Seq<char>, c: Seq<char>)
    requires
        web_leads_to(next, method, path),
    ensures
        method != "POST"@ ==> next is Static,
        method == "POST"@ && path == "/api/cmd/"@ + c ==> (next matches WebNext::Command(x) && x@ == c),
        method == "POST"@ && path == "/api/fs/"@ + c ==> (next matches WebNext::Files(x) && x@ == c),
        method == "POST"@ && path == "/api/run_stream"@ ==> next is RunStream,
        method == "POST"@ && path == "/api/inspect"@ ==> next is Inspect,
        next matches WebNext::Command(x) ==> path == "/api/cmd/"@ + x@,
        next matches WebNext::Files(x) ==> path == "/api/fs/"@ + x@,
        next is RunStream ==> path == "/api/run_stream"@,
        next is Inspect ==> path == "/api/inspect"@,
        !(next is Reply),
{
    reveal_strlit("/api/cmd/");
    reveal_strlit("/api/fs/");
    reveal_strlit("/api/run_stream");
    reveal_strlit("/api/inspect");
    assert("/api/cmd/"@.len() == 9 && "/api/fs/"@.len() == 8);
    assert("/api/cmd/"@[5] == 'c' && "/api/fs/"@[5] == 'f');
    assert("/api/run_stream"@[5] == 'r' && "/api/inspect"@[5] == 'i');
    assert("/api/run_stream"@.len() == 15 && "/api/inspect"@.len() == 12);
    let a = "/api/cmd/"@ + c;
    assert(a.take(9) == "/api/cmd/"@ && a.skip(9) == c);
    let b = "/api/fs/"@ + c;
    assert(b.take(8) == "/api/fs/"@ && b.skip(8) == c);
    if begins(path, "/api/cmd/"@) {
        assert(path.take(9)[5] == path[5]);
        assert(path == "/api/cmd/"@ + path.skip(9));
    }
    if begins(path, "/api/fs/"@) {
        assert(path.take(8)[5] == path[5]);
        assert(path == "/api/fs/"@ + path.skip(8));
    }
}

/// A post to the editor's own paths from somewhere that is not near enough is
/// blocked.
pub proof fn law_foreign_posts_are_blocked(req: Request, bind_host: Seq<char>)
    ensures
        is_foreign_post(req, bind_host) <==> req.method@ == "POST"@ && req.path@.len() >= 5
            && req.path@.take(5) == "/api/"@ && !local_enough(
            text_opt(req.origin),
            text_opt(req.host),
            bind_host,
        ),
        editor_action(req.path@) == (if req.path@.len() >= 5 && req.path@.take(5) == "/api/"@ {
            "editor.api"@
        } else {
            "editor.open"@
        }),
{
    reveal_strlit("/api/");
    assert("/api/"@.len() == 5);
}

/// What each command asks for, with what the body brings for it.
pub proof fn law_what_commands_ask_for(
    c: Command,
    cmd: Seq<char>,
    body: Seq<u8>,
    workspace: Seq<char>,
    duckdb: Seq<char>,
    m: Seq<(Seq<char>, Doc)>,
)
    requires
        asks_for(c, cmd, body, workspace, duckdb),
        json_in_bytes(body) == Some(Doc::Object(m)),
    ensures
        cmd == "ping"@ ==> (c matches Command::Reply(a) && brings(a, Doc::Text("pong"@))),
        cmd == "connection_encrypt_payload"@ ==> (c matches Command::Encrypt(p) && (member(
            m,
            "payloadJson"@,
        ) matches Some(Doc::Text(t)) ==> p@ == t)),
        cmd == "connection_decrypt_payload"@ ==> (c matches Command::Decrypt(p) && (member(
            m,
            "payloadJson"@,
        ) matches Some(Doc::Text(t)) ==> p@ == t)),
        cmd == "run_pipeline"@ ==> (c matches Command::Run(p, name) && (member(m, "pipeline"@) matches Some(
            d,
        ) ==> p@ == d)),
        cmd == "run_pipeline"@ ==> (c matches Command::Run(p, name) && name@ == (match member(
            m,
            "pipelineName"@,
        ) {
            Some(Doc::Text(t)) => t,
            _ => "web"@,
        })),
        cmd == "compile_pipeline"@ ==> (c matches Command::Compile(p) && (member(m, "pipeline"@) matches Some(
            d,
        ) ==> p@ == d)),
        cmd == "pipeline_column_lineage"@ ==> (c matches Command::Lineage(p) && (member(
            m,
            "pipeline"@,
        ) matches Some(d) ==> p@ == d)),
        cmd == "pipeline_trust_report"@ ==> (c matches Command::Trust(p, live) && (member(
            m,
            "pipeline"@,
        ) matches Some(d) ==> p@ == d)),
        cmd == "pipeline_trust_report"@ ==> (c matches Command::Trust(p, live) && live == (member(
            m,
            "checkDrift"@,
        ) == Some(Doc::Bool(true)))),
        cmd == "web_bootstrap"@ ==> (c matches Command::Reply(a) && brings(
            a,
            Doc::Object(seq![("workspace"@, Doc::Text(workspace))]),
        )),
        cmd == "engine_status"@ ==> (c matches Command::Reply(a) && brings(
            a,
            Doc::List(seq![Doc::Object(engine_members(duckdb))]),
        )),
        !seq![
            "ping"@,
            "connection_encrypt_payload"@,
            "connection_decrypt_payload"@,
            "run_pipeline"@,
            "compile_pipeline"@,
            "pipeline_column_lineage"@,
            "pipeline_trust_report"@,
            "web_bootstrap"@,
            "engine_status"@,
        ].contains(cmd) ==> (c matches Command::Reply(a) && reports(
            a,
            "404 Not Found"@,
            "unknown command: "@ + cmd,
        )),
{
    reveal_strlit("ping");
    reveal_strlit("connection_encrypt_payload");
    reveal_strlit("connection_decrypt_payload");
    reveal_strlit("run_pipeline");
    reveal_strlit("compile_pipeline");
    reveal_strlit("pipeline_column_lineage");
    reveal_strlit("pipeline_trust_report");
    reveal_strlit("web_bootstrap");
    reveal_strlit("engine_status");
    assert("ping"@.len() == 4);
    assert("connection_encrypt_payload"@.len() == 26);
    assert("connection_decrypt_payload"@.len() == 26);
    assert("run_pipeline"@.len() == 12);
    assert("compile_pipeline"@.len() == 16);
    assert("pipeline_column_lineage"@.len() == 23);
    assert("pipeline_trust_report"@.len() == 21);
    assert("web_bootstrap"@.len() == 13);
    assert("engine_status"@.len() == 13);
    assert("connection_encrypt_payload"@[11] == 'e' && "connection_decrypt_payload"@[11] == 'd');
    assert("web_bootstrap"@[0] == 'w' && "engine_status"@[0] == 'e');
    let all = seq![
        "ping"@,
        "connection_encrypt_payload"@,
        "connection_decrypt_payload"@,
        "run_pipeline"@,
        "compile_pipeline"@,
        "pipeline_column_lineage"@,
        "pipeline_trust_report"@,
        "web_bootstrap"@,
        "engine_status"@,
    ];
    assert(all[0] == "ping"@);
    assert(all[1] == "connection_encrypt_payload"@);
    assert(all[2] == "connection_decrypt_payload"@);
    assert(all[3] == "run_pipeline"@);
    assert(all[4] == "compile_pipeline"@);
    assert(all[5] == "pipeline_column_lineage"@);
    assert(all[6] == "pipeline_trust_report"@);
    assert(all[7] == "web_bootstrap"@);
    assert(all[8] == "engine_status"@);
}

/// A path that a browser names stays in the workspace where it is the workspace,
/// or goes on from it with a slash, once both are written alike.
pub proof fn law_what_stays_in_the_workspace(workspace: Seq<char>, path: Seq<char>, windows: bool)
    ensures
        ({
            let outer = comparable(workspace, windows);
            let inner = comparable(destination(workspace, path, windows), windows);
            stays_in(workspace, path, windows) <==> inner == outer || (inner.len() > outer.len()
                && inner.take(outer.len() as int) == outer && (inner[outer.len() as int] == '/'
                || (outer.len() > 0 && outer.last() == '/')))
        }),
{
    let outer = comparable(workspace, windows);
    let inner = comparable(destination(workspace, path, windows), windows);
    let whole = opened(outer, false);
    if begins(inner, whole) {
        assert(inner.take(whole.len() as int).take(outer.len() as int) == inner.take(
            outer.len() as int,
        ));
        assert(whole.take(outer.len() as int) == outer);
        if whole == outer {
            if inner.len() == outer.len() {
                assert(inner == inner.take(outer.len() as int));
            }
        } else {
            assert(inner.take(whole.len() as int)[outer.len() as int] == inner[outer.len() as int]);
        }
    }
    if inner.len() > outer.len() && inner.take(outer.len() as int) == outer {
        if outer.len() > 0 && outer.last() == '/' {
            assert(begins(inner, whole));
        } else if inner[outer.len() as int] == '/' {
            assert(inner.take(whole.len() as int) == whole);
        }
    }
}

/// What a file operation came to is told by what it found.
pub proof fn law_what_file_operations_tell(r: Reply, b: bool, c: String, e: String)
    ensures
        tells(r, FileResult::Exists(b)) <==> brings(
            r,
            Doc::Object(seq![("exists"@, Doc::Bool(b))]),
        ),
        tells(r, FileResult::Content(c)) <==> brings(
            r,
            Doc::Object(seq![("content"@, Doc::Text(c@))]),
        ),
        tells(r, FileResult::Done) <==> brings(r, Doc::Object(seq![("ok"@, Doc::Bool(true))])),
        tells(r, FileResult::Unreadable(e)) <==> reports(r, "404 Not Found"@, e@),
        tells(r, FileResult::Failed(e)) <==> reports(r, "500 Internal Server Error"@, e@),
{
}

/// A listing says of each entry what it is called and what it is, in order.
pub proof fn law_what_a_listing_says(r: Reply, v: Vec<DirEntry>, i: int)
    requires
        tells(r, FileResult::Listing(v)),
        0 <= i < v@.len(),
    ensures
        ({
            let items = v@.map_values(|e: DirEntry| entry_doc(e));
            &&& brings(r, Doc::List(items))
            &&& items.len() == v@.len()
            &&& items[i] == Doc::Object(
                seq![
                    ("name"@, Doc::Text(v@[i].name@)),
                    ("isFile"@, Doc::Bool(v@[i].is_file)),
                    ("isDirectory"@, Doc::Bool(v@[i].is_directory)),
                ],
            )
        }),
{
}

/// How a command that failed is answered.
pub proof fn law_how_failed_commands_are_answered(r: Reply, e: String)
    ensures
        explains(r, Failure::BadPipeline(e)) <==> reports(r, "400 Bad Request"@, "bad pipeline: "@ + e@),
        explains(r, Failure::Refused(e)) <==> reports(r, "400 Bad Request"@, e@),
        explains(r, Failure::Secrets(e)) <==> reports(
            r,
            "500 Internal Server Error"@,
            "connection secrets: "@ + e@,
        ),
        explains(r, Failure::Internal(e)) <==> reports(r, "500 Internal Server Error"@, e@),
        explains(r, Failure::Panicked(e)) <==> reports(
            r,
            "500 Internal Server Error"@,
            "command '"@ + e@ + "' failed unexpectedly"@,
        ),
{
}

/// A file is sent as what its extension says, and as plain bytes where that says
/// nothing.
pub proof fn law_files_are_sent_by_their_extension(name: Seq<char>, e: Seq<char>)
    requires
        extension(name) == Some(e),
    ensures
        e == "html"@ ==> content_type_of(name) == "text/html; charset=utf-8"@,
        e == "js"@ ==> content_type_of(name) == "text/javascript; charset=utf-8"@,
        e == "mjs"@ ==> content_type_of(name) == "text/javascript; charset=utf-8"@,
        e == "css"@ ==> content_type_of(name) == "text/css; charset=utf-8"@,
        e == "json"@ ==> content_type_of(name) == "application/json"@,
        e == "map"@ ==> content_type_of(name) == "application/json"@,
        e == "svg"@ ==> content_type_of(name) == "image/svg+xml"@,
        e == "png"@ ==> content_type_of(name) == "image/png"@,
        e == "jpg"@ ==> content_type_of(name) == "image/jpeg"@,
        e == "jpeg"@ ==> content_type_of(name) == "image/jpeg"@,
        e == "webp"@ ==> content_type_of(name) == "image/webp"@,
        e == "ico"@ ==> content_type_of(name) == "image/x-icon"@,
        e == "woff2"@ ==> content_type_of(name) == "font/woff2"@,
        e == "woff"@ ==> content_type_of(name) == "font/woff"@,
        e == "ttf"@ ==> content_type_of(name) == "font/ttf"@,
        e == "wasm"@ ==> content_type_of(name) == "application/wasm"@,
        !seq!["html"@, "js"@, "mjs"@, "css"@, "json"@, "map"@, "svg"@, "png"@, "jpg"@, "jpeg"@, "webp"@, "ico"@, "woff2"@, "woff"@, "ttf"@, "wasm"@].contains(e) ==> content_type_of(name)
            == "application/octet-stream"@,
{
    reveal_strlit("html");
    reveal_strlit("js");
    reveal_strlit("mjs");
    reveal_strlit("css");
    reveal_strlit("json");
    reveal_strlit("map");
    reveal_strlit("svg");
    reveal_strlit("png");
    reveal_strlit("jpg");
    reveal_strlit("jpeg");
    reveal_strlit("webp");
    reveal_strlit("ico");
    reveal_strlit("woff2");
    reveal_strlit("woff");
    reveal_strlit("ttf");
    reveal_strlit("wasm");
    assert("html"@.len() == 4);
    assert("js"@.len() == 2);
    assert("mjs"@.len() == 3);
    assert("css"@.len() == 3);
    assert("json"@.len() == 4);
    assert("map"@.len() == 3);
    assert("svg"@.len() == 3);
    assert("png"@.len() == 3);
    assert("jpg"@.len() == 3);
    assert("jpeg"@.len() == 4);
    assert("webp"@.len() == 4);
    assert("ico"@.len() == 3);
    assert("woff2"@.len() == 5);
    assert("woff"@.len() == 4);
    assert("ttf"@.len() == 3);
    assert("wasm"@.len() == 4);
    assert("html"@[0] == 'h' && "json"@[0] == 'j');
    assert("html"@[0] == 'h' && "jpeg"@[0] == 'j');
    assert("html"@[0] == 'h' && "webp"@[0] == 'w');
    assert("html"@[0] == 'h' && "woff"@[0] == 'w');
    assert("html"@[0] == 'h' && "wasm"@[0] == 'w');
    assert("mjs"@[0] == 'm' && "css"@[0] == 'c');
    assert("mjs"@[1] == 'j' && "map"@[1] == 'a');
    assert("mjs"@[0] == 'm' && "svg"@[0] == 's');
    assert("mjs"@[0] == 'm' && "png"@[0] == 'p');
    assert("mjs"@[0] == 'm' && "jpg"@[0] == 'j');
    assert("mjs"@[0] == 'm' && "ico"@[0] == 'i');
    assert("mjs"@[0] == 'm' && "ttf"@[0] == 't');
    assert("css"@[0] == 'c' && "map"@[0] == 'm');
    assert("css"@[0] == 'c' && "svg"@[0] == 's');
    assert("css"@[0] == 'c' && "png"@[0] == 'p');
    assert("css"@[0] == 'c' && "jpg"@[0] == 'j');
    assert("css"@[0] == 'c' && "ico"@[0] == 'i');
    assert("css"@[0] == 'c' && "ttf"@[0] == 't');
    assert("json"@[1] == 's' && "jpeg"@[1] == 'p');
    assert("json"@[0] == 'j' && "webp"@[0] == 'w');
    assert("json"@[0] == 'j' && "woff"@[0] == 'w');
    assert("json"@[0] == 'j' && "wasm"@[0] == 'w');
    assert("map"@[0] == 'm' && "svg"@[0] == 's');
    assert("map"@[0] == 'm' && "png"@[0] == 'p');
    assert("map"@[0] == 'm' && "jpg"@[0] == 'j');
    assert("map"@[0] == 'm' && "ico"@[0] == 'i');
    assert("map"@[0] == 'm' && "ttf"@[0] == 't');
    assert("svg"@[0] == 's' && "png"@[0] == 'p');
    assert("svg"@[0] == 's' && "jpg"@[0] == 'j');
    assert("svg"@[0] == 's' && "ico"@[0] == 'i');
    assert("svg"@[0] == 's' && "ttf"@[0] == 't');
    assert("png"@[0] == 'p' && "jpg"@[0] == 'j');
    assert("png"@[0] == 'p' && "ico"@[0] == 'i');
    assert("png"@[0] == 'p' && "ttf"@[0] == 't');
    assert("jpg"@[0] == 'j' && "ico"@[0] == 'i');
    assert("jpg"@[0] == 'j' && "ttf"@[0] == 't');
    assert("jpeg"@[0] == 'j' && "webp"@[0] == 'w');
    assert("jpeg"@[0] == 'j' && "woff"@[0] == 'w');
    assert("jpeg"@[0] == 'j' && "wasm"@[0] == 'w');
    assert("webp"@[1] == 'e' && "woff"@[1] == 'o');
    assert("webp"@[1] == 'e' && "wasm"@[1] == 'a');
    assert("ico"@[0] == 'i' && "ttf"@[0] == 't');
    assert("woff"@[1] == 'o' && "wasm"@[1] == 'a');
    let all = seq!["html"@, "js"@, "mjs"@, "css"@, "json"@, "map"@, "svg"@, "png"@, "jpg"@, "jpeg"@, "webp"@, "ico"@, "woff2"@, "woff"@, "ttf"@, "wasm"@];
    assert(all[0] == "html"@);
    assert(all[1] == "js"@);
    assert(all[2] == "mjs"@);
    assert(all[3] == "css"@);
    assert(all[4] == "json"@);
    assert(all[5] == "map"@);
    assert(all[6] == "svg"@);
    assert(all[7] == "png"@);
    assert(all[8] == "jpg"@);
    assert(all[9] == "jpeg"@);
    assert(all[10] == "webp"@);
    assert(all[11] == "ico"@);
    assert(all[12] == "woff2"@);
    assert(all[13] == "woff"@);
    assert(all[14] == "ttf"@);
    assert(all[15] == "wasm"@);
}

/// The frontend's own page stands for the root, and any other path for the file
/// it names, below the frontend's folder.
pub proof fn law_which_file_a_path_names(dist: Seq<char>, path: Seq<char>)
    requires
        dist.len() > 0 && dist.last() != '/',
        path.len() > 0 && path[0] != '/',
    ensures
        candidate(dist, "/"@, false) == dist + "/index.html"@,
        candidate(dist, Seq::empty(), false) == dist + "/index.html"@,
        candidate(dist, path, false) == dist + "/"@ + path,
        candidate(dist, "/"@ + path, false) == dist + "/"@ + path,
{
    reveal_strlit("/");
    reveal_strlit("index.html");
    reveal_strlit("/index.html");
    let none = Seq::<char>::empty();
    assert("/"@.drop_first() == none);
    assert(drop_front("/"@, '/') == drop_front(none, '/'));
    assert(drop_front(none, '/') == none);
    assert(dist.push('/') + "index.html"@ == dist + "/index.html"@);
    assert(drop_front(path, '/') == path);
    let more = "/"@ + path;
    assert(more.drop_first() == path);
    assert(drop_front(more, '/') == drop_front(path, '/'));
    assert(dist.push('/') + path == dist + "/"@ + path);
}

/// Nobody gets anything of the editor but the way to sign in.
pub proof fn law_strangers_sign_in_first(
    req: &Request,
    demand: &Demand,
    signin_page: &str,
    r: (Option<Outcome>, WebNext),
)
    requires
        is_answered_by_web(req, demand, None, signin_page, r),
    ensures
        r.0 == Some(Outcome::Unauthenticated),
        r.1 matches WebNext::Reply(a) && a.status@ == "401 Unauthorized"@,
        req.method@ != "GET"@ ==> (r.1 matches WebNext::Reply(a) && reports(
            a,
            "401 Unauthorized"@,
            "sign in to use the editor"@,
        )),
{
}

/// Who has too low a role gets nothing of the editor, and who has it gets what
/// they asked for.
pub proof fn law_the_editor_goes_by_role(
    req: &Request,
    demand: &Demand,
    who: Identity,
    signin_page: &str,
    r: (Option<Outcome>, WebNext),
)
    requires
        is_answered_by_web(req, demand, Some(&who), signin_page, r),
    ensures
        (demand.needed == Role::Admin && who.role != Role::Admin) || (demand.needed == Role::Operator
            && who.role == Role::Viewer) ==> r.0 == Some(Outcome::Denied) && (
        r.1 matches WebNext::Reply(a) && a.status@ == "403 Forbidden"@),
        who.role == Role::Admin || (demand.needed == Role::Operator && who.role == Role::Operator)
            ==> web_leads_to(r.1, req.method@, req.path@) && r.0 == (if req.method@ == "POST"@ {
            Some(Outcome::Allowed)
        } else {
            None
        }),
{
}

/// What comes of a request to the editor first.
pub proof fn law_what_comes_of_an_editor_request_first(req: &Request, bind_host: &str, r: Entry)
    requires
        is_received_by_web(req, bind_host, r),
    ensures
        is_foreign_post(*req, bind_host@) ==> (r matches Entry::Reply(a) && a.status@
            == "403 Forbidden"@),
        !is_foreign_post(*req, bind_host@) && req.method@ == "POST"@ && req.path@ == "/api/session"@
            ==> (r matches Entry::SignIn(t) && t@ == token_in(req.body@)),
        !is_foreign_post(*req, bind_host@) && (req.method@ != "POST"@ || req.path@
            != "/api/session"@) ==> (r matches Entry::Identify(d) && d.needed == editor_role(req.path@)
            && d.action@ == editor_action(req.path@) && d.target@ == req.path@),
{
}

/// No file operation leaves the workspace: whatever is done is done at the place
/// that the path leads to, and that lies in the workspace.
pub proof fn law_file_work_stays_in_the_workspace(
    op: &str,
    body: &Vec<u8>,
    workspace: &str,
    windows: bool,
    m: Seq<(Seq<char>, Doc)>,
    path: Seq<char>,
    r: FileWork,
)
    requires
        is_file_work(op, body, workspace, windows, r),
        json_in_bytes(body@) == Some(Doc::Object(m)),
        member(m, "path"@) == Some(Doc::Text(path)),
    ensures
        path.len() == 0 || !stays_in(workspace@, path, windows) ==> (r matches FileWork::Reply(a)
            && a.status@ == "400 Bad Request"@),
        path.len() > 0 && stays_in(workspace@, path, windows) ==> {
            let target = destination(workspace@, path, windows);
            &&& op@ == "exists"@ ==> (r matches FileWork::Exists(p) && p@ == target)
            &&& op@ == "read"@ ==> (r matches FileWork::Read(p) && p@ == target)
            &&& op@ == "mkdir"@ ==> (r matches FileWork::MakeDir(p) && p@ == target)
            &&& op@ == "remove"@ ==> (r matches FileWork::Remove(p) && p@ == target)
            &&& op@ == "readdir"@ ==> (r matches FileWork::ReadDir(p) && p@ == target)
            &&& op@ == "write"@ ==> (r matches FileWork::Write(p, c) && p@ == target && c@ == (match member(
                m,
                "content"@,
            ) {
                Some(Doc::Text(t)) => t,
                _ => Seq::empty(),
            }))
            &&& !seq!["exists"@, "read"@, "mkdir"@, "remove"@, "readdir"@, "write"@].contains(op@)
                ==> (r matches FileWork::Reply(a) && reports(
                a,
                "404 Not Found"@,
                "unknown fs op: "@ + op@,
            ))
        },
{
    reveal_strlit("exists");
    reveal_strlit("read");
    reveal_strlit("mkdir");
    reveal_strlit("remove");
    reveal_strlit("readdir");
    reveal_strlit("write");
    assert("exists"@.len() == 6 && "read"@.len() == 4 && "mkdir"@.len() == 5 && "remove"@.len() == 6
        && "readdir"@.len() == 7 && "write"@.len() == 5);
    assert("exists"@[0] == 'e' && "remove"@[0] == 'r' && "mkdir"@[0] == 'm' && "write"@[0] == 'w');
    let all = seq!["exists"@, "read"@, "mkdir"@, "remove"@, "readdir"@, "write"@];
    assert(all[0] == "exists"@ && all[1] == "read"@ && all[2] == "mkdir"@);
    assert(all[3] == "remove"@ && all[4] == "readdir"@ && all[5] == "write"@);
}

/// A file of the frontend is served where it is one and lies in the frontend's
/// folder, and the frontend's own page everywhere else.
pub proof fn law_what_is_served(dist: &str, p: String, is_file: bool, windows: bool, r: String)
    ensures
        is_served(dist, Some(p), is_file, windows, r) && is_file && lies_in(dist@, p@, windows) ==> r@
            == p@,
        is_served(dist, Some(p), is_file, windows, r) && !(is_file && lies_in(dist@, p@, windows))
            ==> r@ == under(dist@, "index.html"@, windows),
        is_served(dist, None, is_file, windows, r) ==> r@ == under(dist@, "index.html"@, windows),
{
}

/// A streamed run is of the pipeline in the body, under its name, up to the node
/// that is named.
pub proof fn law_what_is_run_as_a_stream(
    body: &Vec<u8>,
    m: Seq<(Seq<char>, Doc)>,
    pipeline: Doc,
    r: StreamedRun,
)
    requires
        is_streamed_run(body, r),
        json_in_bytes(body@) == Some(Doc::Object(m)),
        member(m, "pipeline"@) == Some(pipeline),
    ensures
        r.pipeline@ == pipeline,
        r.name@ == (match member(m, "pipelineName"@) {
            Some(Doc::Text(t)) => t,
            _ => "web"@,
        }),
        member(m, "targetNodeId"@) is None ==> r.target is None,
        member(m, "targetNodeId"@) matches Some(Doc::Text(t)) ==> t.len() > 0 ==> r.target is Some && (
        r.target->0)@ == t,
{
}

/// An inspection is of the format in the body, with its options.
pub proof fn law_what_is_inspected(
    body: &Vec<u8>,
    m: Seq<(Seq<char>, Doc)>,
    format: Seq<char>,
    r: Result<(String, Json), Reply>,
)
    requires
        is_inspection(body, r),
        json_in_bytes(body@) == Some(Doc::Object(m)),
    ensures
        member(m, "format"@) == Some(Doc::Text(format)) && format.len() > 0 ==> (r matches Ok(x) && x.0@
            == format && x.1@ == (match member(m, "options"@) {
            Some(v) => v,
            None => Doc::Object(Seq::empty()),
        })),
        member(m, "format"@) is None ==> (r matches Err(a) && reports(
            a,
            "400 Bad Request"@,
            "inspect: missing format"@,
        )),
{
}

/// The engine is DuckDB, at the place that was given, in the version that is
/// wanted.
pub proof fn law_what_the_engine_is(duckdb: Seq<char>)
    ensures
        ({
            let m = engine_members(duckdb);
            &&& member(m, "id"@) == Some(Doc::Text("duckdb"@))
            &&& member(m, "name"@) == Some(Doc::Text("DuckDB"@))
            &&& member(m, "description"@) == Some(Doc::Text("DuckDB engine"@))
            &&& member(m, "required"@) == Some(Doc::Bool(true))
            &&& member(m, "installed"@) == Some(Doc::Bool(true))
            &&& member(m, "outdated"@) == Some(Doc::Bool(false))
            &&& member(m, "version"@) == Some(Doc::Text("1.5.4"@))
            &&& member(m, "version"@) == member(m, "target_version"@)
            &&& member(m, "path"@) == Some(Doc::Text(duckdb))
            &&& member(m, "available"@) == Some(Doc::Bool(true))
        }),
{
    reveal_strlit("id");
    reveal_strlit("name");
    reveal_strlit("description");
    reveal_strlit("required");
    reveal_strlit("installed");
    reveal_strlit("outdated");
    reveal_strlit("version");
    reveal_strlit("target_version");
    reveal_strlit("path");
    reveal_strlit("available");
    let m = engine_members(duckdb);
    assert("id"@.len() == 2 && "name"@.len() == 4 && "description"@.len() == 11 && "required"@.len() == 8
        && "installed"@.len() == 9 && "outdated"@.len() == 8 && "version"@.len() == 7
        && "target_version"@.len() == 14 && "path"@.len() == 4 && "available"@.len() == 9);
    assert("name"@[0] == 'n' && "path"@[0] == 'p' && "required"@[0] == 'r' && "outdated"@[0] == 'o'
        && "installed"@[0] == 'i' && "available"@[0] == 'a');
    law_a_member_is_found_by_its_name(m, 0);
    law_a_member_is_found_by_its_name(m, 1);
    law_a_member_is_found_by_its_name(m, 2);
    law_a_member_is_found_by_its_name(m, 3);
    law_a_member_is_found_by_its_name(m, 4);
    law_a_member_is_found_by_its_name(m, 5);
    law_a_member_is_found_by_its_name(m, 6);
    law_a_member_is_found_by_its_name(m, 7);
    law_a_member_is_found_by_its_name(m, 8);
    law_a_member_is_found_by_its_name(m, 9);
}

/// What a command does not say: a payload is then null, and so is a pipeline, a
/// run is the web's own, and a trust report leaves the sources alone.
pub proof fn law_what_a_command_leaves_out(
    c: Command,
    cmd: Seq<char>,
    body: Seq<u8>,
    workspace: Seq<char>,
    duckdb: Seq<char>,
)
    requires
        asks_for(c, cmd, body, workspace, duckdb),
        json_in_bytes(body) is None,
    ensures
        cmd == "connection_encrypt_payload"@ ==> (c matches Command::Encrypt(p) && p@ == "null"@),
        cmd == "connection_decrypt_payload"@ ==> (c matches Command::Decrypt(p) && p@ == "null"@),
        cmd == "run_pipeline"@ ==> (c matches Command::Run(p, name) && p@ == Doc::Null && name@ == "web"@),
        cmd == "compile_pipeline"@ ==> (c matches Command::Compile(p) && p@ == Doc::Null),
        cmd == "pipeline_column_lineage"@ ==> (c matches Command::Lineage(p) && p@ == Doc::Null),
        cmd == "pipeline_trust_report"@ ==> (c matches Command::Trust(p, live) && p@ == Doc::Null && !live),
{
    reveal_strlit("ping");
    reveal_strlit("connection_encrypt_payload");
    reveal_strlit("connection_decrypt_payload");
    reveal_strlit("run_pipeline");
    reveal_strlit("compile_pipeline");
    reveal_strlit("pipeline_column_lineage");
    reveal_strlit("pipeline_trust_report");
    assert("ping"@.len() == 4);
    assert("connection_encrypt_payload"@.len() == 26);
    assert("connection_decrypt_payload"@.len() == 26);
    assert("run_pipeline"@.len() == 12);
    assert("compile_pipeline"@.len() == 16);
    assert("pipeline_column_lineage"@.len() == 23);
    assert("pipeline_trust_report"@.len() == 21);
    assert("connection_encrypt_payload"@[11] == 'e' && "connection_decrypt_payload"@[11] == 'd');
}

} // verus!
