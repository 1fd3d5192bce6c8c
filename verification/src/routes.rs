//! What the management console does with a request, decided in two steps: what
//! is asked of the caller, and then, once the caller is known, what is done for
//! them.
use crate::audit::{needed, person_ref, requirement, Outcome};
use crate::bytes::bytes_of;
use crate::console_auth::{
    base64_url, caller, carries_random, lemma_base64_is_plain, rank, role_name, session_in, Identity,
    Person, Role, SESSION_COOKIE,
};
use crate::http::{
    brings, forbids, guard_local, is_reply, local_enough, map_texts, reports, respond, respond_403,
    respond_err, respond_json, Reply, Request,
};
use crate::json::{
    add_member, field, field_in, json_in_bytes, json_text, member, members, parse_bytes, render, text,
    text_in, text_json, Doc, Json,
};
use crate::number::{decimal, law_decimal_reads_back, number_up_to, read_number};
use crate::order::TextMap;
use crate::panel::{or_blank, params_in, parse_run_params};
use crate::text::{
    before_first, begins, find, glue2, lemma_find, same, split, starts_with, text_opt, trimmed,
};
use vstd::prelude::*;
use vstd::string::*;
use vstd::utf8::encode_utf8;

verus! {

// ---------------------------------------------------------------------------
// Arrival
// ---------------------------------------------------------------------------

/// What a caller has to be for a request, and how it goes into the audit log.
#[derive(Debug)]
pub struct Demand {
    pub needed: Role,
    pub action: &'static str,
    pub target: String,
}

/// What a request asks for first.
#[derive(Debug)]
pub enum Entry {
    /// Nothing more: this is the answer.
    Reply(Reply),
    /// To exchange this token for a session.
    SignIn(String),
    /// To know who is calling.
    Identify(Demand),
}

/// The token in the body of a sign-in.
pub open spec fn token_in(body: Seq<u8>) -> Seq<char> {
    or_blank(text_in(field_in(json_in_bytes(body), "token"@)))
}

/// The token in the body of a sign-in. It arrives in the body, never in the
/// URL: a query string reaches the server log, the browser history and any
/// proxy in between.
pub fn sign_in_token(body: &Vec<u8>) -> (r: String)
    ensures
        r@ == token_in(body@),
{
    match parse_bytes(body.as_slice()) {
        Some(v) => match text(field(Some(&v), "token")) {
            Some(t) => t.to_owned(),
            None => String::new(),
        },
        None => String::new(),
    }
}

/// The first of two members that an object has.
pub open spec fn either_field(d: Option<Doc>, a: Seq<char>, b: Seq<char>) -> Option<Doc> {
    match field_in(d, a) {
        Some(v) => Some(v),
        None => field_in(d, b),
    }
}

/// What a request is aimed at, for the audit log: the `file` or the `id` that
/// it names, in its query or, unless it is a read, in its body; and otherwise
/// its path.
pub open spec fn target_of(
    method: Seq<char>,
    path: Seq<char>,
    query: Map<Seq<char>, Seq<char>>,
    body: Seq<u8>,
) -> Seq<char> {
    if query.dom().contains("file"@) {
        query["file"@]
    } else if query.dom().contains("id"@) {
        query["id"@]
    } else if method != "GET"@ {
        match text_in(either_field(json_in_bytes(body), "file"@, "id"@)) {
            Some(t) => t,
            None => path,
        }
    } else {
        path
    }
}

/// What a request is aimed at, for the audit log. Never the body, which can
/// hold run parameters, and never the query string wholesale.
pub fn audit_target(req: &Request) -> (r: String)
    ensures
        r@ == target_of(req.method@, req.path@, map_texts(req.query@), req.body@),
{
    match req.query.get("file") {
        Some(f) => {
            return f.clone();
        },
        None => {},
    }
    match req.query.get("id") {
        Some(f) => {
            return f.clone();
        },
        None => {},
    }
    if !same(req.method.as_str(), "GET") {
        if let Some(body) = parse_bytes(req.body.as_slice()) {
            let first = field(Some(&body), "file");
            let named = match first {
                Some(v) => Some(v),
                None => field(Some(&body), "id"),
            };
            if let Some(t) = text(named) {
                return t.to_owned();
            }
        }
    }
    req.path.clone()
}

/// Whether a request may change something here and comes from elsewhere.
pub open spec fn is_blocked(req: Request, bind_host: Seq<char>) -> bool {
    &&& req.method@ != "GET"@
    &&& begins(req.path@, "/api/"@)
    &&& !local_enough(text_opt(req.origin), text_opt(req.host), bind_host)
}

/// What comes of a request before anybody is identified.
pub open spec fn is_received(req: &Request, bind_host: &str, r: Entry) -> bool {
    if is_blocked(*req, bind_host@) {
        r matches Entry::Reply(a) && forbids(a, "blocked: cross-origin or non-local request"@)
    } else if req.method@ == "POST"@ && req.path@ == "/api/session"@ {
        r matches Entry::SignIn(t) && t@ == token_in(req.body@)
    } else {
        r matches Entry::Identify(d) && (d.needed, d.action@) == needed(req.method@, req.path@) && d.target@
            == target_of(req.method@, req.path@, map_texts(req.query@), req.body@)
    }
}

/// The first step for a request to the console.
///
/// A loopback console with no token treats every caller as a local admin, on
/// the reasoning that reaching the socket means already being on the machine. A
/// browser breaks that reasoning: any page the operator visits can post to this
/// machine. So what would change something is turned away when it comes from
/// elsewhere, before anything else is looked at. Signing in is the one thing an
/// unidentified caller may do.
pub fn receive(req: &Request, bind_host: &str) -> (r: Entry)
    ensures
        is_received(req, bind_host, r),
{
    if !same(req.method.as_str(), "GET") && starts_with(req.path.as_str(), "/api/") && !guard_local(
        req,
        bind_host,
    ) {
        return Entry::Reply(respond_403("blocked: cross-origin or non-local request"));
    }
    if same(req.method.as_str(), "POST") && same(req.path.as_str(), "/api/session") {
        return Entry::SignIn(sign_in_token(&req.body));
    }
    let (needed_role, action) = requirement(req.method.as_str(), req.path.as_str());
    Entry::Identify(Demand { needed: needed_role, action, target: audit_target(req) })
}

// ---------------------------------------------------------------------------
// Signing in
// ---------------------------------------------------------------------------

/// A caller, as they are told who they are.
pub open spec fn caller_members(who: Person) -> Seq<(Seq<char>, Doc)> {
    seq![("label"@, Doc::Text(who.label)), ("role"@, Doc::Text(role_name(who.role)))]
}

/// The cookie that hands a session id to a browser.
pub open spec fn session_cookie(sid: Seq<char>) -> Seq<char> {
    SESSION_COOKIE@ + "="@ + sid + "; HttpOnly; SameSite=Strict; Path=/"@
}

/// How a sign-in is answered.
pub open spec fn answers_sign_in(
    signed_in: &Option<(String, Identity)>,
    r: (Reply, Outcome),
) -> bool {
    match signed_in {
        Some(s) => {
            &&& r.0.status@ == "200 OK"@
            &&& r.0.content_type@ == "application/json"@
            &&& text_opt(r.0.cookie) == Some(session_cookie(s.0@))
            &&& r.0.body@ == encode_utf8(json_text(Doc::Object(caller_members(s.1@))))
            &&& r.1 == Outcome::Allowed
        },
        None => reports(r.0, "401 Unauthorized"@, "that token was not accepted"@) && r.1
            == Outcome::Unauthenticated,
    }
}

/// The answer to a sign-in, and how it goes into the audit log.
///
/// The cookie is `HttpOnly` so page scripts cannot read it and
/// `SameSite=Strict` so another site cannot ride it. It is not `Secure`: the
/// console is served over plain HTTP behind a proxy or on localhost, and
/// marking it so would stop the cookie being set at all.
pub fn sign_in_reply(signed_in: &Option<(String, Identity)>) -> (r: (Reply, Outcome))
    ensures
        answers_sign_in(signed_in, r),
{
    match signed_in {
        Some(s) => {
            let mut cookie = glue2(SESSION_COOKIE, "=");
            cookie.append(s.0.as_str());
            cookie.append("; HttpOnly; SameSite=Strict; Path=/");
            let mut m: Vec<(String, Json)> = Vec::new();
            add_member(&mut m, "label", text_json(s.1.label.as_str()));
            add_member(&mut m, "role", text_json(s.1.role.as_str()));
            assert(members(m@) == caller_members(s.1@));
            let payload = render(&Json::Object(m));
            let mut reply = respond("200 OK", "application/json", bytes_of(payload.as_str()));
            reply.cookie = Some(cookie);
            (reply, Outcome::Allowed)
        },
        None => (
            respond_err("401 Unauthorized", "that token was not accepted"),
            Outcome::Unauthenticated,
        ),
    }
}

// ---------------------------------------------------------------------------
// Once the caller is known
// ---------------------------------------------------------------------------

/// Which part of the audit log is asked for.
#[derive(Debug)]
pub struct Filter {
    pub actor: Option<String>,
    pub outcome: Option<String>,
    pub action: Option<String>,
    /// A page, not the file. The console polls, and an unbounded read would
    /// grow with the log until the poll was the most expensive thing the server
    /// did.
    pub limit: usize,
}

/// What is to be done for a caller who may have it done.
#[derive(Debug)]
pub enum Work {
    SignOut,
    Summary,
    Pipelines,
    /// The pipeline in this file.
    Pipeline(String),
    /// The runs of every pipeline, or of this one.
    Runs(Option<String>),
    Log,
    Catalog,
    Audit(Filter),
    BuildCatalog,
    Schedules,
    SaveSchedule(Json),
    /// The parameters of the pipeline in this file.
    Params(String),
    /// Run the pipeline in this file with these parameters.
    Run(String, TextMap<String>),
}

/// What comes of a request once the caller is known.
#[derive(Debug)]
pub enum Next {
    Reply(Reply),
    Work(Work),
}

/// What a map has for a key.
pub open spec fn lookup(m: Map<Seq<char>, Seq<char>>, k: Seq<char>) -> Option<Seq<char>> {
    if m.dom().contains(k) {
        Some(m[k])
    } else {
        None
    }
}

/// How many events of the audit log are shown.
pub open spec fn page_size(limit: Option<Seq<char>>) -> nat {
    let asked = match limit {
        Some(s) => match number_up_to(s, usize::MAX as nat) {
            Some(n) => n,
            None => 200,
        },
        None => 200,
    };
    if asked < 1 {
        1
    } else if asked > 1000 {
        1000
    } else {
        asked
    }
}

/// The body of a request that is read as an object.
pub open spec fn body_doc(body: Seq<u8>) -> Doc {
    match json_in_bytes(body) {
        Some(d) => d,
        None => Doc::Object(Seq::empty()),
    }
}

/// Whether this is what comes of a request that its caller may make.
pub open spec fn leads_to(
    next: Next,
    method: Seq<char>,
    path: Seq<char>,
    query: Map<Seq<char>, Seq<char>>,
    body: Seq<u8>,
    who: Person,
    open: bool,
    panel_page: Seq<char>,
) -> bool {
    if method == "DELETE"@ && path == "/api/session"@ {
        next matches Next::Work(Work::SignOut)
    } else if method == "GET"@ && path == "/api/whoami"@ {
        next matches Next::Reply(a) && brings(
            a,
            Doc::Object(caller_members(who).push(("open"@, Doc::Bool(open)))),
        )
    } else if method == "GET"@ && (path == "/"@ || path == "/index.html"@) {
        next matches Next::Reply(a) && is_reply(
            a,
            "200 OK"@,
            "text/html; charset=utf-8"@,
            encode_utf8(panel_page),
        )
    } else if method == "GET"@ && path == "/api/summary"@ {
        next matches Next::Work(Work::Summary)
    } else if method == "GET"@ && path == "/api/pipelines"@ {
        next matches Next::Work(Work::Pipelines)
    } else if method == "GET"@ && path == "/api/pipeline"@ {
        match lookup(query, "file"@) {
            Some(f) => next matches Next::Work(Work::Pipeline(g)) && g@ == f,
            None => next matches Next::Reply(a) && reports(a, "400 Bad Request"@, "missing file"@),
        }
    } else if method == "GET"@ && path == "/api/runs"@ {
        next matches Next::Work(Work::Runs(id)) && text_opt(id) == lookup(query, "id"@)
    } else if method == "GET"@ && path == "/api/log"@ {
        next matches Next::Work(Work::Log)
    } else if method == "GET"@ && path == "/api/catalog"@ {
        next matches Next::Work(Work::Catalog)
    } else if method == "GET"@ && path == "/api/audit"@ {
        next matches Next::Work(Work::Audit(f)) && {
            &&& text_opt(f.actor) == lookup(query, "actor"@)
            &&& text_opt(f.outcome) == lookup(query, "outcome"@)
            &&& text_opt(f.action) == lookup(query, "action"@)
            &&& f.limit == page_size(lookup(query, "limit"@))
        }
    } else if method == "POST"@ && path == "/api/catalog"@ {
        next matches Next::Work(Work::BuildCatalog)
    } else if method == "GET"@ && path == "/api/schedules"@ {
        next matches Next::Work(Work::Schedules)
    } else if method == "POST"@ && path == "/api/schedules"@ {
        next matches Next::Work(Work::SaveSchedule(b)) && b@ == body_doc(body)
    } else if method == "GET"@ && path == "/api/params"@ {
        match lookup(query, "file"@) {
            Some(f) => next matches Next::Work(Work::Params(g)) && g@ == f,
            None => next matches Next::Reply(a) && reports(a, "400 Bad Request"@, "missing file"@),
        }
    } else if method == "POST"@ && path == "/api/run"@ {
        match text_in(field_in(json_in_bytes(body), "file"@)) {
            Some(f) => next matches Next::Work(Work::Run(g, params)) && g@ == f && map_texts(params@)
                == match field_in(json_in_bytes(body), "params"@) {
                Some(Doc::Object(m)) => params_in(m),
                _ => Map::empty(),
            },
            None => next matches Next::Reply(a) && reports(a, "400 Bad Request"@, "missing file"@),
        }
    } else {
        next matches Next::Reply(a) && reports(a, "404 Not Found"@, "not found"@)
    }
}

/// The refusal of a caller whose role is not enough.
pub open spec fn role_refusal(needed: Role, has: Role) -> Seq<char> {
    "this needs the "@ + role_name(needed) + " role; you have "@ + role_name(has)
}

/// The refusal of a caller whose role is not enough.
pub fn refuse_role(needed_role: Role, has: Role) -> (r: String)
    ensures
        r@ == role_refusal(needed_role, has),
{
    let mut why = glue2("this needs the ", needed_role.as_str());
    why.append(" role; you have ");
    why.append(has.as_str());
    why
}

/// A text out of a query.
fn asked(query: &TextMap<String>, k: &str) -> (r: Option<String>)
    ensures
        text_opt(r) == lookup(map_texts(query@), k@),
{
    match query.get(k) {
        Some(v) => Some(v.clone()),
        None => None,
    }
}

/// Which part of the audit log a query asks for.
fn read_filter(query: &TextMap<String>) -> (r: Filter)
    ensures
        text_opt(r.actor) == lookup(map_texts(query@), "actor"@),
        text_opt(r.outcome) == lookup(map_texts(query@), "outcome"@),
        text_opt(r.action) == lookup(map_texts(query@), "action"@),
        r.limit == page_size(lookup(map_texts(query@), "limit"@)),
{
    let wanted: u64 = match asked(query, "limit") {
        Some(s) => match read_number(s.as_str(), usize::MAX as u64) {
            Some(n) => n,
            None => 200,
        },
        None => 200,
    };
    let limit: usize = if wanted < 1 {
        1
    } else if wanted > 1000 {
        1000
    } else {
        wanted as usize
    };
    Filter {
        actor: asked(query, "actor"),
        outcome: asked(query, "outcome"),
        action: asked(query, "action"),
        limit,
    }
}

/// The methods are told apart by their lengths.
proof fn lemma_methods()
    ensures
        "GET"@ != "POST"@,
        "GET"@ != "DELETE"@,
        "POST"@ != "DELETE"@,
{
    reveal_strlit("GET");
    reveal_strlit("POST");
    reveal_strlit("DELETE");
    assert("GET"@.len() == 3);
    assert("POST"@.len() == 4);
    assert("DELETE"@.len() == 6);
}

/// What a read leads to.
fn route_get(req: &Request, who: &Identity, open: bool, panel_page: &str) -> (r: Next)
    requires
        req.method@ == "GET"@,
    ensures
        leads_to(
            r,
            req.method@,
            req.path@,
            map_texts(req.query@),
            req.body@,
            who@,
            open,
            panel_page@,
        ),
{
    proof {
        lemma_methods();
    }
    let path = req.path.as_str();
    if same(path, "/api/whoami") {
        let mut m: Vec<(String, Json)> = Vec::new();
        add_member(&mut m, "label", text_json(who.label.as_str()));
        add_member(&mut m, "role", text_json(who.role.as_str()));
        add_member(&mut m, "open", Json::Bool(open));
        assert(members(m@) == caller_members(who@).push(("open"@, Doc::Bool(open))));
        return Next::Reply(respond_json(&Json::Object(m)));
    }
    if same(path, "/") || same(path, "/index.html") {
        return Next::Reply(respond("200 OK", "text/html; charset=utf-8", bytes_of(panel_page)));
    }
    if same(path, "/api/summary") {
        return Next::Work(Work::Summary);
    }
    if same(path, "/api/pipelines") {
        return Next::Work(Work::Pipelines);
    }
    if same(path, "/api/pipeline") {
        return match asked(&req.query, "file") {
            Some(f) => Next::Work(Work::Pipeline(f)),
            None => Next::Reply(respond_err("400 Bad Request", "missing file")),
        };
    }
    if same(path, "/api/runs") {
        return Next::Work(Work::Runs(asked(&req.query, "id")));
    }
    if same(path, "/api/log") {
        return Next::Work(Work::Log);
    }
    if same(path, "/api/catalog") {
        return Next::Work(Work::Catalog);
    }
    if same(path, "/api/audit") {
        return Next::Work(Work::Audit(read_filter(&req.query)));
    }
    if same(path, "/api/schedules") {
        return Next::Work(Work::Schedules);
    }
    if same(path, "/api/params") {
        return match asked(&req.query, "file") {
            Some(f) => Next::Work(Work::Params(f)),
            None => Next::Reply(respond_err("400 Bad Request", "missing file")),
        };
    }
    Next::Reply(respond_err("404 Not Found", "not found"))
}

/// What a request other than a read leads to.
fn route_change(req: &Request, who: &Identity, open: bool, panel_page: &str) -> (r: Next)
    requires
        req.method@ != "GET"@,
    ensures
        leads_to(
            r,
            req.method@,
            req.path@,
            map_texts(req.query@),
            req.body@,
            who@,
            open,
            panel_page@,
        ),
{
    proof {
        lemma_methods();
    }
    let path = req.path.as_str();
    if same(req.method.as_str(), "DELETE") && same(path, "/api/session") {
        return Next::Work(Work::SignOut);
    }
    if same(req.method.as_str(), "POST") {
        if same(path, "/api/catalog") {
            return Next::Work(Work::BuildCatalog);
        }
        if same(path, "/api/schedules") {
            let body = match parse_bytes(req.body.as_slice()) {
                Some(v) => v,
                None => Json::Object(Vec::new()),
            };
            return Next::Work(Work::SaveSchedule(body));
        }
        if same(path, "/api/run") {
            return match parse_bytes(req.body.as_slice()) {
                Some(v) => {
                    let body = Some(&v);
                    match text(field(body, "file")) {
                        Some(f) => Next::Work(
                            Work::Run(f.to_owned(), parse_run_params(field(body, "params"))),
                        ),
                        None => Next::Reply(respond_err("400 Bad Request", "missing file")),
                    }
                },
                None => Next::Reply(respond_err("400 Bad Request", "missing file")),
            };
        }
    }
    Next::Reply(respond_err("404 Not Found", "not found"))
}

/// What comes of a request once it is known who makes it.
pub open spec fn is_answered(
    req: &Request,
    demand: &Demand,
    who: Option<&Identity>,
    open: bool,
    signin_page: &str,
    panel_page: &str,
    r: (Option<Outcome>, Next),
) -> bool {
    match person_ref(who) {
        None => {
            &&& r.0 == Some(Outcome::Unauthenticated)
            &&& r.1 matches Next::Reply(a)
            &&& if req.method@ == "GET"@ && (req.path@ == "/"@ || req.path@ == "/index.html"@) {
                is_reply(a, "401 Unauthorized"@, "text/html; charset=utf-8"@, encode_utf8(signin_page@))
            } else {
                reports(a, "401 Unauthorized"@, "sign in to use the console"@)
            }
        },
        Some(p) => if rank(p.role) < rank(demand.needed) {
            &&& r.0 == Some(Outcome::Denied)
            &&& r.1 matches Next::Reply(a) && reports(
                a,
                "403 Forbidden"@,
                role_refusal(demand.needed, p.role),
            )
        } else {
            &&& r.0 == (if req.method@ != "GET"@ {
                Some(Outcome::Allowed)
            } else {
                None
            })
            &&& leads_to(
                r.1,
                req.method@,
                req.path@,
                map_texts(req.query@),
                req.body@,
                p,
                open,
                panel_page@,
            )
        },
    }
}

/// The second step for a request to the console, once the caller has been
/// looked for: what is put into the audit log, and what comes next.
///
/// Everything is authorised before it is dispatched, so a route cannot be
/// reached by forgetting to check it at the call site. A browser asking for the
/// page gets the sign-in form; an API client gets a 401 it can act on. Reads
/// are not recorded: they would bury the events worth seeing under a dashboard
/// that polls every few seconds. Anything that changes something, and every
/// refusal, is.
pub fn proceed(
    req: &Request,
    demand: &Demand,
    who: Option<&Identity>,
    open: bool,
    signin_page: &str,
    panel_page: &str,
) -> (r: (Option<Outcome>, Next))
    ensures
        is_answered(req, demand, who, open, signin_page, panel_page, r),
{
    let is_get = same(req.method.as_str(), "GET");
    let who = match who {
        Some(i) => i,
        None => {
            let reply = if is_get && (same(req.path.as_str(), "/") || same(
                req.path.as_str(),
                "/index.html",
            )) {
                respond("401 Unauthorized", "text/html; charset=utf-8", bytes_of(signin_page))
            } else {
                respond_err("401 Unauthorized", "sign in to use the console")
            };
            return (Some(Outcome::Unauthenticated), Next::Reply(reply));
        },
    };
    if !who.role.allows(demand.needed) {
        let why = refuse_role(demand.needed, who.role);
        return (Some(Outcome::Denied), Next::Reply(respond_err("403 Forbidden", why.as_str())));
    }
    if is_get {
        (None, route_get(req, who, open, panel_page))
    } else {
        (Some(Outcome::Allowed), route_change(req, who, open, panel_page))
    }
}

/// The status of a reply when the work could not be done.
pub open spec fn failure_status(work: Work) -> Seq<char> {
    match work {
        Work::Pipeline(_) => "404 Not Found"@,
        Work::Params(_) => "404 Not Found"@,
        Work::SaveSchedule(_) => "400 Bad Request"@,
        Work::Run(_, _) => "400 Bad Request"@,
        _ => "500 Internal Server Error"@,
    }
}

/// How a piece of work is answered.
pub open spec fn answers_work(work: &Work, result: &Result<Json, String>, r: Reply) -> bool {
    match result {
        Ok(v) => brings(r, v@),
        Err(e) => reports(r, failure_status(*work), e@),
    }
}

/// The answer to a caller whose work has been done, or could not be.
pub fn work_reply(work: &Work, result: &Result<Json, String>) -> (r: Reply)
    ensures
        answers_work(work, result, r),
{
    match result {
        Ok(v) => respond_json(v),
        Err(e) => {
            let status = match work {
                Work::Pipeline(_) => "404 Not Found",
                Work::Params(_) => "404 Not Found",
                Work::SaveSchedule(_) => "400 Bad Request",
                Work::Run(_, _) => "400 Bad Request",
                _ => "500 Internal Server Error",
            };
            respond_err(status, e.as_str())
        },
    }
}

// ---------------------------------------------------------------------------
// Laws
// ---------------------------------------------------------------------------

/// Nobody runs a pipeline or changes a schedule through the console with less
/// than the operator role, and nobody rebuilds the catalog or reads the audit
/// log with less than the admin role.
pub proof fn law_work_needs_its_role(
    next: Next,
    method: Seq<char>,
    path: Seq<char>,
    query: Map<Seq<char>, Seq<char>>,
    body: Seq<u8>,
    who: Person,
    open: bool,
    panel_page: Seq<char>,
)
    requires
        leads_to(next, method, path, query, body, who, open, panel_page),
    ensures
        (next matches Next::Work(Work::Run(_, _))) ==> rank(needed(method, path).0) >= rank(Role::Operator),
        (next matches Next::Work(Work::SaveSchedule(_))) ==> rank(needed(method, path).0) >= rank(
            Role::Operator,
        ),
        (next matches Next::Work(Work::BuildCatalog)) ==> needed(method, path).0 == Role::Admin,
        (next matches Next::Work(Work::Audit(_))) ==> needed(method, path).0 == Role::Admin,
{
    lemma_methods();
    reveal_strlit("/");
    reveal_strlit("/index.html");
    reveal_strlit("/api/summary");
    reveal_strlit("/api/pipelines");
    reveal_strlit("/api/pipeline");
    reveal_strlit("/api/runs");
    reveal_strlit("/api/log");
    reveal_strlit("/api/schedules");
    reveal_strlit("/api/params");
    reveal_strlit("/api/whoami");
    reveal_strlit("/api/audit");
    reveal_strlit("/api/catalog");
    reveal_strlit("/api/run");
    assert("/api/audit"@[5] == 'a');
    assert("/api/catalog"@[5] == 'c');
    assert("/api/run"@[5] == 'r');
    assert("/api/schedules"@[5] == 's');
}

/// The cookie that signing in hands out is the one that identifies the caller
/// the next time: a browser that sends back the part before the first `;` names
/// the session it was given.
pub proof fn law_the_cookie_names_its_session(sid: Seq<char>)
    requires
        carries_random(sid),
    ensures
        session_in(Some(returned_cookie(sid))) == Some(sid),
{
    reveal_strlit("; HttpOnly; SameSite=Strict; Path=/");
    reveal_strlit("=");
    reveal_strlit("duckle_console");
    let raw = choose|raw: Seq<u8>| raw.len() == 32 && sid == #[trigger] base64_url(raw);
    lemma_base64_is_plain(raw);
    let all = session_cookie(sid);
    let name = SESSION_COOKIE@;
    let sent = name + "="@ + sid;
    assert forall|i: int| 0 <= i < sent.len() implies sent[i] != ';' by {
        if i >= name.len() + 1 {
            assert(sent[i] == sid[i - name.len() - 1]);
        }
    }
    lemma_find(all, ';');
    assert(all[sent.len() as int] == ';');
    assert forall|i: int| 0 <= i < sent.len() implies all[i] == sent[i] by {}
    assert(all.contains(';'));
    assert(find(all, ';') == sent.len()) by {
        if find(all, ';') < sent.len() {
            assert(all[find(all, ';')] == sent[find(all, ';')]);
        }
    }
    assert(before_first(all, ';') == sent);
    lemma_find(sent, ';');
    assert(split(sent, ';') == seq![sent]);
    lemma_find(sent, '=');
    assert(sent[name.len() as int] == '=');
    assert(sent.contains('='));
    assert(find(sent, '=') == name.len()) by {
        if find(sent, '=') < name.len() {
            assert(sent[find(sent, '=')] == name[find(sent, '=')]);
        }
    }
    assert(sent.take(name.len() as int) == name);
    assert(sent.skip(name.len() as int + 1) == sid);
    assert(trimmed(name) == name);
    assert(trimmed(sid) == sid);
    assert(seq![sent][0] == sent);
}

/// The cookie of a session, as a browser sends it back.
pub open spec fn returned_cookie(sid: Seq<char>) -> Seq<char> {
    before_first(session_cookie(sid), ';')
}

/// A session identifies the one it was opened for, as long as the store keeps
/// it: whoever signed in is recognised by the cookie they were given, whatever
/// else the request carries, on this console and on any other of the store that
/// is not open.
pub proof fn law_a_session_identifies_its_holder(
    sid: Seq<char>,
    who: Person,
    token: Option<Seq<char>>,
    sessions: Map<Seq<char>, Person>,
    keys: Map<Seq<char>, Person>,
    taken_as: Option<Person>,
)
    requires
        carries_random(sid),
    ensures
        caller(
            false,
            session_in(Some(returned_cookie(sid))),
            token,
            sessions.insert(sid, who),
            keys,
            taken_as,
        ) == Some(who),
{
    law_the_cookie_names_its_session(sid);
}

/// Signing out ends a session and no other: its cookie identifies nobody any
/// more, and every other one identifies whom it did.
pub proof fn law_signing_out_ends_only_its_own_session(
    sid: Seq<char>,
    other: Seq<char>,
    token: Option<Seq<char>>,
    sessions: Map<Seq<char>, Person>,
    keys: Map<Seq<char>, Person>,
    taken_as: Option<Person>,
)
    requires
        carries_random(sid),
        carries_random(other),
        other != sid,
    ensures
        caller(
            false,
            session_in(Some(returned_cookie(sid))),
            None,
            sessions.remove(sid),
            keys,
            taken_as,
        ) is None,
        caller(
            false,
            session_in(Some(returned_cookie(other))),
            token,
            sessions.remove(sid),
            keys,
            taken_as,
        ) == caller(
            false,
            session_in(Some(returned_cookie(other))),
            token,
            sessions,
            keys,
            taken_as,
        ),
{
    law_the_cookie_names_its_session(sid);
    law_the_cookie_names_its_session(other);
}

/// No two paths of the console are written alike.
proof fn lemma_paths_differ()
    ensures
        seq![
            "/"@,
            "/index.html"@,
            "/api/summary"@,
            "/api/pipelines"@,
            "/api/pipeline"@,
            "/api/runs"@,
            "/api/log"@,
            "/api/schedules"@,
            "/api/params"@,
            "/api/whoami"@,
            "/api/session"@,
            "/api/run"@,
            "/api/audit"@,
            "/api/catalog"@,
        ].no_duplicates(),
{
    reveal_strlit("/");
    reveal_strlit("/index.html");
    reveal_strlit("/api/summary");
    reveal_strlit("/api/pipelines");
    reveal_strlit("/api/pipeline");
    reveal_strlit("/api/runs");
    reveal_strlit("/api/log");
    reveal_strlit("/api/schedules");
    reveal_strlit("/api/params");
    reveal_strlit("/api/whoami");
    reveal_strlit("/api/session");
    reveal_strlit("/api/run");
    reveal_strlit("/api/audit");
    reveal_strlit("/api/catalog");
    assert("/"@.len() == 1);
    assert("/index.html"@.len() == 11);
    assert("/api/summary"@.len() == 12);
    assert("/api/pipelines"@.len() == 14);
    assert("/api/pipeline"@.len() == 13);
    assert("/api/runs"@.len() == 9);
    assert("/api/log"@.len() == 8);
    assert("/api/schedules"@.len() == 14);
    assert("/api/params"@.len() == 11);
    assert("/api/whoami"@.len() == 11);
    assert("/api/session"@.len() == 12);
    assert("/api/run"@.len() == 8);
    assert("/api/audit"@.len() == 10);
    assert("/api/catalog"@.len() == 12);
    assert("/index.html"@[1] == 'i' && "/api/params"@[1] == 'a');
    assert("/index.html"@[1] == 'i' && "/api/whoami"@[1] == 'a');
    assert("/api/summary"@[6] == 'u' && "/api/session"@[6] == 'e');
    assert("/api/summary"@[5] == 's' && "/api/catalog"@[5] == 'c');
    assert("/api/pipelines"@[5] == 'p' && "/api/schedules"@[5] == 's');
    assert("/api/log"@[5] == 'l' && "/api/run"@[5] == 'r');
    assert("/api/params"@[5] == 'p' && "/api/whoami"@[5] == 'w');
    assert("/api/session"@[5] == 's' && "/api/catalog"@[5] == 'c');
}

/// Where the routes lead that are told by their path alone.
pub proof fn law_where_plain_routes_lead(
    next: Next,
    query: Map<Seq<char>, Seq<char>>,
    body: Seq<u8>,
    who: Person,
    open: bool,
    panel_page: Seq<char>,
)
    ensures
        leads_to(next, "DELETE"@, "/api/session"@, query, body, who, open, panel_page) <==> (next matches Next::Work(Work::SignOut)),
        leads_to(next, "GET"@, "/api/summary"@, query, body, who, open, panel_page) <==> (next matches Next::Work(Work::Summary)),
        leads_to(next, "GET"@, "/api/pipelines"@, query, body, who, open, panel_page) <==> (next matches Next::Work(Work::Pipelines)),
        leads_to(next, "GET"@, "/api/log"@, query, body, who, open, panel_page) <==> (next matches Next::Work(Work::Log)),
        leads_to(next, "GET"@, "/api/catalog"@, query, body, who, open, panel_page) <==> (next matches Next::Work(Work::Catalog)),
        leads_to(next, "POST"@, "/api/catalog"@, query, body, who, open, panel_page) <==> (next matches Next::Work(Work::BuildCatalog)),
        leads_to(next, "GET"@, "/api/schedules"@, query, body, who, open, panel_page) <==> (next matches Next::Work(Work::Schedules)),
        leads_to(next, "GET"@, "/"@, query, body, who, open, panel_page) <==> (next matches Next::Reply(a) && a.status@ == "200 OK"@ && a.content_type@
            == "text/html; charset=utf-8"@ && a.cookie is None && a.body@ == encode_utf8(panel_page)),
        leads_to(next, "GET"@, "/index.html"@, query, body, who, open, panel_page) <==> leads_to(next, "GET"@, "/"@, query, body, who, open, panel_page),
{
    lemma_methods();
    lemma_paths_differ();
    let all = seq![
        "/"@,
        "/index.html"@,
        "/api/summary"@,
        "/api/pipelines"@,
        "/api/pipeline"@,
        "/api/runs"@,
        "/api/log"@,
        "/api/schedules"@,
        "/api/params"@,
        "/api/whoami"@,
        "/api/session"@,
        "/api/run"@,
        "/api/audit"@,
        "/api/catalog"@,
    ];
    assert(all[0] == "/"@);
    assert(all[1] == "/index.html"@);
    assert(all[2] == "/api/summary"@);
    assert(all[3] == "/api/pipelines"@);
    assert(all[4] == "/api/pipeline"@);
    assert(all[5] == "/api/runs"@);
    assert(all[6] == "/api/log"@);
    assert(all[7] == "/api/schedules"@);
    assert(all[8] == "/api/params"@);
    assert(all[9] == "/api/whoami"@);
    assert(all[10] == "/api/session"@);
    assert(all[11] == "/api/run"@);
    assert(all[12] == "/api/audit"@);
    assert(all[13] == "/api/catalog"@);
}

/// Where the routes lead that say what they are about: the file, the pipeline or
/// the schedule that the request names.
pub proof fn law_where_named_routes_lead(
    next: Next,
    query: Map<Seq<char>, Seq<char>>,
    body: Seq<u8>,
    who: Person,
    open: bool,
    panel_page: Seq<char>,
)
    ensures
        leads_to(next, "GET"@, "/api/pipeline"@, query, body, who, open, panel_page) && query.dom().contains("file"@) ==> (next matches Next::Work(
            Work::Pipeline(g),
        ) && g@ == query["file"@]),
        leads_to(next, "GET"@, "/api/params"@, query, body, who, open, panel_page) && query.dom().contains("file"@) ==> (next matches Next::Work(
            Work::Params(g),
        ) && g@ == query["file"@]),
        (leads_to(next, "GET"@, "/api/pipeline"@, query, body, who, open, panel_page) || leads_to(next, "GET"@, "/api/params"@, query, body, who, open, panel_page)) && !query.dom().contains("file"@)
            ==> (next matches Next::Reply(a) && reports(a, "400 Bad Request"@, "missing file"@)),
        leads_to(next, "GET"@, "/api/runs"@, query, body, who, open, panel_page) ==> (next matches Next::Work(Work::Runs(id)) && text_opt(id) == (if query.dom().contains(
            "id"@,
        ) {
            Some(query["id"@])
        } else {
            None
        })),
        leads_to(next, "POST"@, "/api/schedules"@, query, body, who, open, panel_page) ==> (next matches Next::Work(Work::SaveSchedule(b)) && b@
            == match json_in_bytes(body) {
            Some(d) => d,
            None => Doc::Object(Seq::empty()),
        }),
        leads_to(next, "POST"@, "/api/run"@, query, body, who, open, panel_page) ==> match text_in(field_in(json_in_bytes(body), "file"@)) {
            Some(f) => next matches Next::Work(Work::Run(g, params)) && g@ == f,
            None => next matches Next::Reply(a) && reports(a, "400 Bad Request"@, "missing file"@),
        },
        leads_to(next, "POST"@, "/api/run"@, query, body, who, open, panel_page) ==> (next matches Next::Work(Work::Run(g, params)) ==> map_texts(
            params@,
        ) == match field_in(json_in_bytes(body), "params"@) {
            Some(Doc::Object(m)) => params_in(m),
            _ => Map::empty(),
        }),
        leads_to(next, "GET"@, "/api/audit"@, query, body, who, open, panel_page) ==> (next matches Next::Work(Work::Audit(f)) && {
            &&& text_opt(f.actor) == (if query.dom().contains("actor"@) {
                Some(query["actor"@])
            } else {
                None
            })
            &&& text_opt(f.outcome) == (if query.dom().contains("outcome"@) {
                Some(query["outcome"@])
            } else {
                None
            })
            &&& text_opt(f.action) == (if query.dom().contains("action"@) {
                Some(query["action"@])
            } else {
                None
            })
            &&& f.limit == page_size(
                if query.dom().contains("limit"@) {
                    Some(query["limit"@])
                } else {
                    None
                },
            )
        }),
{
    lemma_methods();
    lemma_paths_differ();
    let all = seq![
        "/"@,
        "/index.html"@,
        "/api/summary"@,
        "/api/pipelines"@,
        "/api/pipeline"@,
        "/api/runs"@,
        "/api/log"@,
        "/api/schedules"@,
        "/api/params"@,
        "/api/whoami"@,
        "/api/session"@,
        "/api/run"@,
        "/api/audit"@,
        "/api/catalog"@,
    ];
    assert(all[0] == "/"@);
    assert(all[1] == "/index.html"@);
    assert(all[2] == "/api/summary"@);
    assert(all[3] == "/api/pipelines"@);
    assert(all[4] == "/api/pipeline"@);
    assert(all[5] == "/api/runs"@);
    assert(all[6] == "/api/log"@);
    assert(all[7] == "/api/schedules"@);
    assert(all[8] == "/api/params"@);
    assert(all[9] == "/api/whoami"@);
    assert(all[10] == "/api/session"@);
    assert(all[11] == "/api/run"@);
    assert(all[12] == "/api/audit"@);
    assert(all[13] == "/api/catalog"@);
}

/// Whoever asks who they are is told their label and role, and whether the
/// console is open.
pub proof fn law_callers_are_told_who_they_are(
    next: Next,
    query: Map<Seq<char>, Seq<char>>,
    body: Seq<u8>,
    who: Person,
    open: bool,
    panel_page: Seq<char>,
)
    requires
        leads_to(next, "GET"@, "/api/whoami"@, query, body, who, open, panel_page),
    ensures
        next matches Next::Reply(a) && brings(
            a,
            Doc::Object(
                seq![
                    ("label"@, Doc::Text(who.label)),
                    ("role"@, Doc::Text(role_name(who.role))),
                    ("open"@, Doc::Bool(open)),
                ],
            ),
        ),
{
    lemma_methods();
    lemma_paths_differ();
    let all = seq![
        "/"@,
        "/index.html"@,
        "/api/summary"@,
        "/api/pipelines"@,
        "/api/pipeline"@,
        "/api/runs"@,
        "/api/log"@,
        "/api/schedules"@,
        "/api/params"@,
        "/api/whoami"@,
        "/api/session"@,
        "/api/run"@,
        "/api/audit"@,
        "/api/catalog"@,
    ];
    assert(all[0] == "/"@);
    assert(all[1] == "/index.html"@);
    assert(all[2] == "/api/summary"@);
    assert(all[3] == "/api/pipelines"@);
    assert(all[4] == "/api/pipeline"@);
    assert(all[5] == "/api/runs"@);
    assert(all[6] == "/api/log"@);
    assert(all[7] == "/api/schedules"@);
    assert(all[8] == "/api/params"@);
    assert(all[9] == "/api/whoami"@);
    assert(all[10] == "/api/session"@);
    assert(all[11] == "/api/run"@);
    assert(all[12] == "/api/audit"@);
    assert(all[13] == "/api/catalog"@);
    assert(caller_members(who).push(("open"@, Doc::Bool(open))) == seq![
        ("label"@, Doc::Text(who.label)),
        ("role"@, Doc::Text(role_name(who.role))),
        ("open"@, Doc::Bool(open)),
    ]);
}

/// Anything else is not found.
pub proof fn law_other_routes_are_not_found(
    next: Next,
    method: Seq<char>,
    path: Seq<char>,
    query: Map<Seq<char>, Seq<char>>,
    body: Seq<u8>,
    who: Person,
    open: bool,
    panel_page: Seq<char>,
)
    requires
        leads_to(next, method, path, query, body, who, open, panel_page),
        ({
            ||| method != "GET"@ && method != "POST"@ && method != "DELETE"@
            ||| !seq![
                "/"@,
                "/index.html"@,
                "/api/summary"@,
                "/api/pipelines"@,
                "/api/pipeline"@,
                "/api/runs"@,
                "/api/log"@,
                "/api/schedules"@,
                "/api/params"@,
                "/api/whoami"@,
                "/api/session"@,
                "/api/run"@,
                "/api/audit"@,
                "/api/catalog"@,
            ].contains(path)
        }),
    ensures
        next matches Next::Reply(a) && reports(a, "404 Not Found"@, "not found"@),
{
    let all = seq![
        "/"@,
        "/index.html"@,
        "/api/summary"@,
        "/api/pipelines"@,
        "/api/pipeline"@,
        "/api/runs"@,
        "/api/log"@,
        "/api/schedules"@,
        "/api/params"@,
        "/api/whoami"@,
        "/api/session"@,
        "/api/run"@,
        "/api/audit"@,
        "/api/catalog"@,
    ];
    assert(all[0] == "/"@);
    assert(all[1] == "/index.html"@);
    assert(all[2] == "/api/summary"@);
    assert(all[3] == "/api/pipelines"@);
    assert(all[4] == "/api/pipeline"@);
    assert(all[5] == "/api/runs"@);
    assert(all[6] == "/api/log"@);
    assert(all[7] == "/api/schedules"@);
    assert(all[8] == "/api/params"@);
    assert(all[9] == "/api/whoami"@);
    assert(all[10] == "/api/session"@);
    assert(all[11] == "/api/run"@);
    assert(all[12] == "/api/audit"@);
    assert(all[13] == "/api/catalog"@);
}

/// What a request is about: the file it names, or else the id, in the query; in
/// the body where it changes something; or else its path.
pub proof fn law_what_a_request_is_about(
    method: Seq<char>,
    path: Seq<char>,
    query: Map<Seq<char>, Seq<char>>,
    body: Seq<u8>,
    m: Seq<(Seq<char>, Doc)>,
    t: Seq<char>,
)
    ensures
        query.dom().contains("file"@) ==> target_of(method, path, query, body) == query["file"@],
        !query.dom().contains("file"@) && query.dom().contains("id"@) ==> target_of(
            method,
            path,
            query,
            body,
        ) == query["id"@],
        !query.dom().contains("file"@) && !query.dom().contains("id"@) && method == "GET"@
            ==> target_of(method, path, query, body) == path,
        !query.dom().contains("file"@) && !query.dom().contains("id"@) && method != "GET"@
            && json_in_bytes(body) is None ==> target_of(method, path, query, body) == path,
        !query.dom().contains("file"@) && !query.dom().contains("id"@) && method != "GET"@
            && json_in_bytes(body) == Some(Doc::Object(m)) && (member(m, "file"@) == Some(Doc::Text(t))
            || (member(m, "file"@) is None && member(m, "id"@) == Some(Doc::Text(t)))) ==> target_of(
            method,
            path,
            query,
            body,
        ) == t,
{
}

/// A change from somewhere that is not near enough is blocked, and nothing else
/// is.
pub proof fn law_what_is_blocked(req: Request, bind_host: Seq<char>)
    ensures
        is_blocked(req, bind_host) <==> req.method@ != "GET"@ && req.path@.len() >= 5 && req.path@.take(
            5,
        ) == "/api/"@ && !local_enough(text_opt(req.origin), text_opt(req.host), bind_host),
{
    reveal_strlit("/api/");
    assert("/api/"@.len() == 5);
}

/// A page of the audit log holds as many entries as were asked for, at least one
/// and at most a thousand, and two hundred where nothing usable was asked.
pub proof fn law_how_long_a_page_is(n: nat, t: Seq<char>)
    requires
        n <= usize::MAX,
    ensures
        page_size(None) == 200,
        number_up_to(t, usize::MAX as nat) is None ==> page_size(Some(t)) == 200,
        page_size(Some(decimal(n))) == (if n == 0 {
            1
        } else if n <= 1000 {
            n
        } else {
            1000
        }),
{
    law_decimal_reads_back(n);
}

/// The token of a sign-in is the text called so in the body, and none otherwise.
pub proof fn law_which_token_signs_in(body: Seq<u8>, m: Seq<(Seq<char>, Doc)>, t: Seq<char>)
    ensures
        json_in_bytes(body) == Some(Doc::Object(m)) && member(m, "token"@) == Some(Doc::Text(t))
            ==> token_in(body) == t,
        json_in_bytes(body) is None ==> token_in(body).len() == 0,
        json_in_bytes(body) == Some(Doc::Object(m)) && member(m, "token"@) is None ==> token_in(
            body,
        ).len() == 0,
{
}

/// Who is refused is told which role it takes and which they have.
pub proof fn law_what_the_refused_are_told(needed_role: Role, has: Role)
    ensures
        role_refusal(needed_role, has) == "this needs the "@ + role_name(needed_role)
            + " role; you have "@ + role_name(has),
{
}

/// The session's cookie is kept from scripts and from other sites.
pub proof fn law_what_the_cookie_says(sid: Seq<char>)
    ensures
        session_cookie(sid) == "duckle_console"@ + "="@ + sid
            + "; HttpOnly; SameSite=Strict; Path=/"@,
{
}

/// How a piece of work that failed is answered.
pub proof fn law_how_failures_are_answered(work: Work)
    ensures
        (work matches Work::Pipeline(_)) || (work matches Work::Params(_)) ==> failure_status(work)
            == "404 Not Found"@,
        (work matches Work::SaveSchedule(_)) || (work matches Work::Run(_, _)) ==> failure_status(work)
            == "400 Bad Request"@,
        work is SignOut || work is Summary || work is Pipelines || work is Runs || work is Log
            || work is Catalog || work is Audit || work is BuildCatalog || work is Schedules
            ==> failure_status(work) == "500 Internal Server Error"@,
{
}

/// Nobody gets anything but the way to sign in: the page where a browser asks for
/// one, and a refusal everywhere else.
pub proof fn law_strangers_are_sent_to_sign_in(
    req: &Request,
    demand: &Demand,
    open: bool,
    signin_page: &str,
    panel_page: &str,
    r: (Option<Outcome>, Next),
)
    requires
        is_answered(req, demand, None, open, signin_page, panel_page, r),
    ensures
        r.0 == Some(Outcome::Unauthenticated),
        r.1 matches Next::Reply(a) && a.status@ == "401 Unauthorized"@ && a.cookie is None,
        req.method@ == "GET"@ && (req.path@ == "/"@ || req.path@ == "/index.html"@) ==> (
        r.1 matches Next::Reply(a) && a.body@ == encode_utf8(signin_page@)),
        req.method@ != "GET"@ ==> (r.1 matches Next::Reply(a) && reports(
            a,
            "401 Unauthorized"@,
            "sign in to use the console"@,
        )),
{
}

/// Who has too low a role is denied, and told so; nothing is done for them.
pub proof fn law_a_low_role_is_denied(
    req: &Request,
    demand: &Demand,
    who: Identity,
    open: bool,
    signin_page: &str,
    panel_page: &str,
    r: (Option<Outcome>, Next),
)
    requires
        is_answered(req, demand, Some(&who), open, signin_page, panel_page, r),
        (demand.needed == Role::Admin && who.role != Role::Admin) || (demand.needed == Role::Operator
            && who.role == Role::Viewer),
    ensures
        r.0 == Some(Outcome::Denied),
        r.1 matches Next::Reply(a) && reports(
            a,
            "403 Forbidden"@,
            "this needs the "@ + role_name(demand.needed) + " role; you have "@ + role_name(who.role),
        ),
{
}

/// Who has the role gets what they asked for, and a change is recorded as allowed.
pub proof fn law_a_role_that_is_enough_is_served(
    req: &Request,
    demand: &Demand,
    who: Identity,
    open: bool,
    signin_page: &str,
    panel_page: &str,
    r: (Option<Outcome>, Next),
)
    requires
        is_answered(req, demand, Some(&who), open, signin_page, panel_page, r),
        who.role == Role::Admin || demand.needed == Role::Viewer || (demand.needed == Role::Operator
            && who.role == Role::Operator),
    ensures
        leads_to(
            r.1,
            req.method@,
            req.path@,
            map_texts(req.query@),
            req.body@,
            who@,
            open,
            panel_page@,
        ),
        req.method@ == "GET"@ ==> r.0 is None,
        req.method@ != "GET"@ ==> r.0 == Some(Outcome::Allowed),
{
}

/// What comes of a request first: a change from elsewhere is blocked, a sign-in
/// brings its token, and everything else asks who it is, for the role and under
/// the name that its route has.
pub proof fn law_what_comes_of_a_request_first(req: &Request, bind_host: &str, r: Entry)
    requires
        is_received(req, bind_host, r),
    ensures
        is_blocked(*req, bind_host@) ==> (r matches Entry::Reply(a) && a.status@ == "403 Forbidden"@
            && a.body@ == encode_utf8("blocked: cross-origin or non-local request"@)),
        !is_blocked(*req, bind_host@) && req.method@ == "POST"@ && req.path@ == "/api/session"@ ==> (
        r matches Entry::SignIn(t) && t@ == token_in(req.body@)),
        !is_blocked(*req, bind_host@) && (req.method@ != "POST"@ || req.path@ != "/api/session"@) ==> (
        r matches Entry::Identify(d) && d.needed == needed(req.method@, req.path@).0 && d.action@
            == needed(req.method@, req.path@).1 && d.target@ == target_of(
            req.method@,
            req.path@,
            map_texts(req.query@),
            req.body@,
        )),
{
}

/// A sign-in that worked hands out the session's cookie and says who signed in;
/// one that did not is refused.
pub proof fn law_how_sign_ins_are_answered(s: (String, Identity), r: (Reply, Outcome))
    ensures
        answers_sign_in(&Some(s), r) <==> {
            &&& r.0.status@ == "200 OK"@
            &&& r.0.content_type@ == "application/json"@
            &&& r.0.cookie is Some && (r.0.cookie->0)@ == session_cookie(s.0@)
            &&& r.0.body@ == encode_utf8(
                json_text(
                    Doc::Object(
                        seq![
                            ("label"@, Doc::Text(s.1.label@)),
                            ("role"@, Doc::Text(role_name(s.1.role))),
                        ],
                    ),
                ),
            )
            &&& r.1 == Outcome::Allowed
        },
        answers_sign_in(&None, r) <==> reports(
            r.0,
            "401 Unauthorized"@,
            "that token was not accepted"@,
        ) && r.1 == Outcome::Unauthenticated,
{
}

/// Work that was done brings its value, and work that failed its error.
pub proof fn law_how_work_is_answered(work: &Work, v: Json, e: String, r: Reply)
    ensures
        answers_work(work, &Ok(v), r) <==> brings(r, v@),
        answers_work(work, &Err(e), r) <==> reports(r, failure_status(*work), e@),
{
}

} // verus!
