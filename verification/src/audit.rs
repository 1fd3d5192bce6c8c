//! An append-only record of who did what through the management console.
//!
//! Run history already says a pipeline ran. It does not say who caused it, or
//! whether someone tried and was refused. This is kept as one JSON line per
//! event beside the run logs.
//!
//! Refusals are recorded as well as successes. A log that only holds what
//! worked cannot show someone probing an endpoint they have no role for, which
//! is the pattern worth seeing.
use crate::console_auth::{rank, role_name, Identity, Person, Role};
use crate::json::{
    add_member, json_text, law_a_member_is_found_by_its_name, member, members, render, text_json, Doc,
    Json,
};
use crate::paths::{join, under};
use crate::text::same;
use vstd::prelude::*;
use vstd::string::*;

verus! {

/// The audit log in a workspace.
pub fn audit_path(workspace: &str, windows: bool) -> (r: String)
    ensures
        r@ == under(under(workspace@, "logs"@, windows), "audit.ndjson"@, windows),
{
    let dir = join(workspace, "logs", windows);
    join(dir.as_str(), "audit.ndjson", windows)
}

/// How an attempt ended.
#[derive(Debug, Clone, Copy, PartialEq, Eq, Structural)]
pub enum Outcome {
    Allowed,
    /// Authenticated, but the role was not enough.
    Denied,
    /// No usable credential at all.
    Unauthenticated,
}

/// The name of an outcome.
pub open spec fn outcome_name(o: Outcome) -> Seq<char> {
    match o {
        Outcome::Allowed => "allowed"@,
        Outcome::Denied => "denied"@,
        Outcome::Unauthenticated => "unauthenticated"@,
    }
}

impl Outcome {
    pub fn as_str(self) -> (r: &'static str)
        ensures
            r@ == outcome_name(self),
    {
        match self {
            Outcome::Allowed => "allowed",
            Outcome::Denied => "denied",
            Outcome::Unauthenticated => "unauthenticated",
        }
    }
}

/// Who an event is put down to. An unauthenticated caller has no name, and
/// inventing one would make the log read as though somebody known did this.
pub open spec fn actor(who: Option<Person>) -> (Seq<char>, Seq<char>) {
    match who {
        Some(p) => (p.label, role_name(p.role)),
        None => ("-"@, "-"@),
    }
}

/// One event, as it is logged.
pub open spec fn entry_members(
    at: Seq<char>,
    who: Option<Person>,
    action: Seq<char>,
    target: Seq<char>,
    outcome: Outcome,
) -> Seq<(Seq<char>, Doc)> {
    seq![
        ("at"@, Doc::Text(at)),
        ("actor"@, Doc::Text(actor(who).0)),
        ("role"@, Doc::Text(actor(who).1)),
        ("action"@, Doc::Text(action)),
        ("target"@, Doc::Text(target)),
        ("outcome"@, Doc::Text(outcome_name(outcome))),
    ]
}

/// Who an optional borrowed caller is.
pub open spec fn person_ref(who: Option<&Identity>) -> Option<Person> {
    match who {
        Some(i) => Some(i@),
        None => None,
    }
}

/// The line to append for one event. It is one line, whatever the target is
/// called, so concurrent writers interleave whole events rather than fragments
/// of them.
pub fn entry_line(at: &str, who: Option<&Identity>, action: &str, target: &str, outcome: Outcome) -> (r:
    String)
    ensures
        r@ == json_text(
            Doc::Object(entry_members(at@, person_ref(who), action@, target@, outcome)),
        ).push('\n'),
        forall|i: int| 0 <= i < r@.len() - 1 ==> r@[i] != '\n',
{
    let (label, role) = match who {
        Some(i) => (i.label.as_str(), i.role.as_str()),
        None => ("-", "-"),
    };
    let mut m: Vec<(String, Json)> = Vec::new();
    add_member(&mut m, "at", text_json(at));
    add_member(&mut m, "actor", text_json(label));
    add_member(&mut m, "role", text_json(role));
    add_member(&mut m, "action", text_json(action));
    add_member(&mut m, "target", text_json(target));
    add_member(&mut m, "outcome", text_json(outcome.as_str()));
    assert(members(m@) == entry_members(at@, person_ref(who), action@, target@, outcome));
    let entry = Json::Object(m);
    let mut line = render(&entry);
    line.push('\n');
    line
}

/// The role a route needs, and the action name recorded for it. Anything
/// unrecognised needs the highest role, so a route added later without a line
/// here is locked down rather than left open.
pub open spec fn needed(method: Seq<char>, path: Seq<char>) -> (Role, Seq<char>) {
    if method == "GET"@ && (path == "/"@ || path == "/index.html"@) {
        (Role::Viewer, "console.open"@)
    } else if method == "GET"@ && path == "/api/summary"@ {
        (Role::Viewer, "summary.read"@)
    } else if method == "GET"@ && path == "/api/pipelines"@ {
        (Role::Viewer, "pipelines.list"@)
    } else if method == "GET"@ && path == "/api/pipeline"@ {
        (Role::Viewer, "pipeline.read"@)
    } else if method == "GET"@ && path == "/api/runs"@ {
        (Role::Viewer, "runs.read"@)
    } else if method == "GET"@ && path == "/api/log"@ {
        (Role::Viewer, "log.read"@)
    } else if method == "GET"@ && path == "/api/schedules"@ {
        (Role::Viewer, "schedules.read"@)
    } else if method == "GET"@ && path == "/api/params"@ {
        (Role::Viewer, "params.read"@)
    } else if method == "GET"@ && path == "/api/whoami"@ {
        (Role::Viewer, "session.whoami"@)
    } else if method == "DELETE"@ && path == "/api/session"@ {
        (Role::Viewer, "session.sign_out"@)
    } else if method == "POST"@ && path == "/api/run"@ {
        (Role::Operator, "pipeline.run"@)
    } else if method == "POST"@ && path == "/api/schedules"@ {
        (Role::Operator, "schedule.write"@)
    } else {
        (Role::Admin, "unknown"@)
    }
}

/// The role a route needs, and the action name recorded for it.
///
/// Kept as one table so a new route cannot quietly arrive without a decision
/// about who may call it: the dispatcher asks this for every request, and the
/// fallback is admin rather than public.
pub fn requirement(method: &str, path: &str) -> (r: (Role, &'static str))
    ensures
        (r.0, r.1@) == needed(method@, path@),
{
    if same(method, "GET") {
        // Reading the dashboard and its data.
        if same(path, "/") || same(path, "/index.html") {
            return (Role::Viewer, "console.open");
        }
        if same(path, "/api/summary") {
            return (Role::Viewer, "summary.read");
        }
        if same(path, "/api/pipelines") {
            return (Role::Viewer, "pipelines.list");
        }
        if same(path, "/api/pipeline") {
            return (Role::Viewer, "pipeline.read");
        }
        if same(path, "/api/runs") {
            return (Role::Viewer, "runs.read");
        }
        if same(path, "/api/log") {
            return (Role::Viewer, "log.read");
        }
        if same(path, "/api/schedules") {
            return (Role::Viewer, "schedules.read");
        }
        if same(path, "/api/params") {
            return (Role::Viewer, "params.read");
        }
        if same(path, "/api/whoami") {
            return (Role::Viewer, "session.whoami");
        }
    }
    // Ending your own session is not a privilege.
    if same(method, "DELETE") && same(path, "/api/session") {
        return (Role::Viewer, "session.sign_out");
    }
    // Causing work to happen, or changing when it happens.
    if same(method, "POST") && same(path, "/api/run") {
        return (Role::Operator, "pipeline.run");
    }
    if same(method, "POST") && same(path, "/api/schedules") {
        return (Role::Operator, "schedule.write");
    }
    proof {
        reveal_strlit("GET");
        reveal_strlit("DELETE");
        reveal_strlit("POST");
    }
    (Role::Admin, "unknown")
}

/// A viewer can cause nothing to happen and change nothing: every route that is
/// open to one is a read, or the end of their own session.
pub proof fn law_a_viewer_changes_nothing(method: Seq<char>, path: Seq<char>)
    requires
        rank(Role::Viewer) >= rank(needed(method, path).0),
    ensures
        method == "GET"@ || (method == "DELETE"@ && path == "/api/session"@),
{
}

/// A route that nobody thought about is for admins alone.
pub proof fn law_an_unknown_route_needs_an_admin(method: Seq<char>, path: Seq<char>, role: Role)
    requires
        needed(method, path).1 == "unknown"@,
        rank(role) >= rank(needed(method, path).0),
    ensures
        role == Role::Admin,
{
    reveal_strlit("unknown");
    reveal_strlit("console.open");
    reveal_strlit("summary.read");
    reveal_strlit("pipelines.list");
    reveal_strlit("pipeline.read");
    reveal_strlit("runs.read");
    reveal_strlit("log.read");
    reveal_strlit("schedules.read");
    reveal_strlit("params.read");
    reveal_strlit("session.whoami");
    reveal_strlit("session.sign_out");
    reveal_strlit("pipeline.run");
    reveal_strlit("schedule.write");
    assert("unknown"@.len() == 7);
}

/// No two methods, and no two paths, are written alike.
proof fn lemma_routes_differ()
    ensures
        seq!["GET"@, "POST"@, "DELETE"@].no_duplicates(),
        seq![
            "/"@,
            "/index.html"@,
            "/api/summary"@,
            "/api/pipelines"@,
            "/api/pipeline"@,
            "/api/runs"@,
            "/api/log"@,
            "/api/schedules"@,
            "/api/params"@,
            "/api/whoami"@,
            "/api/session"@,
            "/api/run"@,
        ].no_duplicates(),
{
    reveal_strlit("GET");
    reveal_strlit("POST");
    reveal_strlit("DELETE");
    assert("GET"@.len() == 3);
    assert("POST"@.len() == 4);
    assert("DELETE"@.len() == 6);
    reveal_strlit("/");
    reveal_strlit("/index.html");
    reveal_strlit("/api/summary");
    reveal_strlit("/api/pipelines");
    reveal_strlit("/api/pipeline");
    reveal_strlit("/api/runs");
    reveal_strlit("/api/log");
    reveal_strlit("/api/schedules");
    reveal_strlit("/api/params");
    reveal_strlit("/api/whoami");
    reveal_strlit("/api/session");
    reveal_strlit("/api/run");
    assert("/"@.len() == 1);
    assert("/index.html"@.len() == 11);
    assert("/api/summary"@.len() == 12);
    assert("/api/pipelines"@.len() == 14);
    assert("/api/pipeline"@.len() == 13);
    assert("/api/runs"@.len() == 9);
    assert("/api/log"@.len() == 8);
    assert("/api/schedules"@.len() == 14);
    assert("/api/params"@.len() == 11);
    assert("/api/whoami"@.len() == 11);
    assert("/api/session"@.len() == 12);
    assert("/api/run"@.len() == 8);
    assert("/index.html"@[1] == 'i' && "/api/params"@[1] == 'a');
    assert("/index.html"@[1] == 'i' && "/api/whoami"@[1] == 'a');
    assert("/api/summary"@[6] == 'u' && "/api/session"@[6] == 'e');
    assert("/api/pipelines"@[5] == 'p' && "/api/schedules"@[5] == 's');
    assert("/api/log"@[5] == 'l' && "/api/run"@[5] == 'r');
    assert("/api/params"@[5] == 'p' && "/api/whoami"@[5] == 'w');
}

/// Who may take which route: a viewer looks at what runs and how, and ends their
/// own session; an operator also starts runs and changes schedules; everything
/// else is for admins.
pub proof fn law_who_may_take_a_route(method: Seq<char>, path: Seq<char>)
    ensures
        needed(method, path).0 == Role::Viewer <==> {
            ||| method == "GET"@ && path == "/"@
            ||| method == "GET"@ && path == "/index.html"@
            ||| method == "GET"@ && path == "/api/summary"@
            ||| method == "GET"@ && path == "/api/pipelines"@
            ||| method == "GET"@ && path == "/api/pipeline"@
            ||| method == "GET"@ && path == "/api/runs"@
            ||| method == "GET"@ && path == "/api/log"@
            ||| method == "GET"@ && path == "/api/schedules"@
            ||| method == "GET"@ && path == "/api/params"@
            ||| method == "GET"@ && path == "/api/whoami"@
            ||| method == "DELETE"@ && path == "/api/session"@
        },
        needed(method, path).0 == Role::Operator <==> {
            ||| method == "POST"@ && path == "/api/run"@
            ||| method == "POST"@ && path == "/api/schedules"@
        },
{
    lemma_routes_differ();
    let all = seq!["/"@, "/index.html"@, "/api/summary"@, "/api/pipelines"@, "/api/pipeline"@, "/api/runs"@, "/api/log"@, "/api/schedules"@, "/api/params"@, "/api/whoami"@, "/api/session"@, "/api/run"@];
    let ways = seq!["GET"@, "POST"@, "DELETE"@];
    assert(all[0] == "/"@);
    assert(all[1] == "/index.html"@);
    assert(all[2] == "/api/summary"@);
    assert(all[3] == "/api/pipelines"@);
    assert(all[4] == "/api/pipeline"@);
    assert(all[5] == "/api/runs"@);
    assert(all[6] == "/api/log"@);
    assert(all[7] == "/api/schedules"@);
    assert(all[8] == "/api/params"@);
    assert(all[9] == "/api/whoami"@);
    assert(all[10] == "/api/session"@);
    assert(all[11] == "/api/run"@);
    assert(ways[0] == "GET"@);
    assert(ways[1] == "POST"@);
    assert(ways[2] == "DELETE"@);
}

/// What the audit log calls each route.
pub proof fn law_what_a_route_is_called(method: Seq<char>, path: Seq<char>)
    ensures
        method == "GET"@ && path == "/"@ ==> needed(method, path).1 == "console.open"@,
        method == "GET"@ && path == "/index.html"@ ==> needed(method, path).1 == "console.open"@,
        method == "GET"@ && path == "/api/summary"@ ==> needed(method, path).1 == "summary.read"@,
        method == "GET"@ && path == "/api/pipelines"@ ==> needed(method, path).1 == "pipelines.list"@,
        method == "GET"@ && path == "/api/pipeline"@ ==> needed(method, path).1 == "pipeline.read"@,
        method == "GET"@ && path == "/api/runs"@ ==> needed(method, path).1 == "runs.read"@,
        method == "GET"@ && path == "/api/log"@ ==> needed(method, path).1 == "log.read"@,
        method == "GET"@ && path == "/api/schedules"@ ==> needed(method, path).1 == "schedules.read"@,
        method == "GET"@ && path == "/api/params"@ ==> needed(method, path).1 == "params.read"@,
        method == "GET"@ && path == "/api/whoami"@ ==> needed(method, path).1 == "session.whoami"@,
        method == "DELETE"@ && path == "/api/session"@ ==> needed(method, path).1 == "session.sign_out"@,
        method == "POST"@ && path == "/api/run"@ ==> needed(method, path).1 == "pipeline.run"@,
        method == "POST"@ && path == "/api/schedules"@ ==> needed(method, path).1 == "schedule.write"@,
        needed(method, path).0 == Role::Admin ==> needed(method, path).1 == "unknown"@,
{
    lemma_routes_differ();
    let all = seq!["/"@, "/index.html"@, "/api/summary"@, "/api/pipelines"@, "/api/pipeline"@, "/api/runs"@, "/api/log"@, "/api/schedules"@, "/api/params"@, "/api/whoami"@, "/api/session"@, "/api/run"@];
    let ways = seq!["GET"@, "POST"@, "DELETE"@];
    assert(all[0] == "/"@);
    assert(all[1] == "/index.html"@);
    assert(all[2] == "/api/summary"@);
    assert(all[3] == "/api/pipelines"@);
    assert(all[4] == "/api/pipeline"@);
    assert(all[5] == "/api/runs"@);
    assert(all[6] == "/api/log"@);
    assert(all[7] == "/api/schedules"@);
    assert(all[8] == "/api/params"@);
    assert(all[9] == "/api/whoami"@);
    assert(all[10] == "/api/session"@);
    assert(all[11] == "/api/run"@);
    assert(ways[0] == "GET"@);
    assert(ways[1] == "POST"@);
    assert(ways[2] == "DELETE"@);
}

/// An entry of the audit log says when, who in which role, what, on what, and how
/// it ended; nobody is written as a dash.
pub proof fn law_what_an_entry_says(
    at: Seq<char>,
    who: Person,
    action: Seq<char>,
    target: Seq<char>,
    outcome: Outcome,
)
    ensures
        ({
            let m = entry_members(at, Some(who), action, target, outcome);
            &&& m.len() == 6
            &&& member(m, "at"@) == Some(Doc::Text(at))
            &&& member(m, "actor"@) == Some(Doc::Text(who.label))
            &&& member(m, "role"@) == Some(Doc::Text(role_name(who.role)))
            &&& member(m, "action"@) == Some(Doc::Text(action))
            &&& member(m, "target"@) == Some(Doc::Text(target))
            &&& member(m, "outcome"@) == Some(
                Doc::Text(
                    match outcome {
                        Outcome::Allowed => "allowed"@,
                        Outcome::Denied => "denied"@,
                        Outcome::Unauthenticated => "unauthenticated"@,
                    },
                ),
            )
            &&& actor(None) == ("-"@, "-"@)
        }),
{
    reveal_strlit("at");
    reveal_strlit("actor");
    reveal_strlit("role");
    reveal_strlit("action");
    reveal_strlit("target");
    reveal_strlit("outcome");
    assert("at"@.len() == 2);
    assert("actor"@.len() == 5);
    assert("role"@.len() == 4);
    assert("action"@.len() == 6);
    assert("target"@.len() == 6);
    assert("outcome"@.len() == 7);
    assert("action"@[0] == 'a' && "target"@[0] == 't');
    let m = entry_members(at, Some(who), action, target, outcome);
    law_a_member_is_found_by_its_name(m, 0);
    law_a_member_is_found_by_its_name(m, 1);
    law_a_member_is_found_by_its_name(m, 2);
    law_a_member_is_found_by_its_name(m, 3);
    law_a_member_is_found_by_its_name(m, 4);
    law_a_member_is_found_by_its_name(m, 5);
}

} // verus!
