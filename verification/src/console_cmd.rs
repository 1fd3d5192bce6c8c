//! `duckle-runner console`: managing who may sign in.
//!
//! A role model nobody can create accounts for is a role model that ships
//! switched off.
use crate::args::{asks_help, wants_help};
use crate::console_auth::{
    law_what_roles_are_called, role_called, role_from, role_name, Account, Role,
};
use crate::number::{
    decimal, decimal_of, law_decimal_reads_back, lemma_decimal, read_signed, signed_decimal,
    signed_decimal_of, signed_in,
};
use crate::text::{begins, glue2, glue3, pad_right, padded, same, starts_with, text_opt, texts};
use vstd::prelude::*;
use vstd::string::*;

verus! {

// ---------------------------------------------------------------------------
// The command line
// ---------------------------------------------------------------------------

/// What is asked of the console's accounts.
#[derive(Debug)]
pub enum ConsoleCommand {
    /// How the command is used.
    Help,
    /// A new account with this label and role.
    AddUser(String, Role),
    List,
    /// A new API key with this label and role, good for so many days.
    KeyAdd(String, Role, Option<i64>),
    KeyList,
    /// Take back the API keys with this label.
    KeyRevoke(String),
}

/// The options of the command, as far as they have been read.
pub struct ConsoleOptions {
    pub label: Option<Seq<char>>,
    pub role: Option<Role>,
    pub days: Option<int>,
    pub workspace: Seq<char>,
}

/// The refusal of a role.
pub open spec fn bad_role(got: Seq<char>) -> Seq<char> {
    "--role must be viewer, operator or admin (got "@ + got + ")"@
}

/// The options with one more value, or why it cannot be one.
pub open spec fn with_option(o: ConsoleOptions, a: Seq<char>, v: Seq<char>) -> Result<
    ConsoleOptions,
    Seq<char>,
> {
    if a == "--role"@ {
        match role_called(v) {
            Some(r) => Ok(ConsoleOptions { role: Some(r), ..o }),
            None => Err(bad_role(v)),
        }
    } else if a == "--workspace"@ {
        Ok(ConsoleOptions { workspace: v, ..o })
    } else {
        match signed_in(v) {
            Some(n) => if n <= 0 {
                Err("--expires-days must be greater than zero"@)
            } else {
                Ok(ConsoleOptions { days: Some(n), ..o })
            },
            None => Err("--expires-days wants a number, got "@ + v),
        }
    }
}

/// What the arguments behind the subcommand come to, with these options read so
/// far. The first thing wrong decides.
pub open spec fn options_in(args: Seq<Seq<char>>, o: ConsoleOptions) -> Result<ConsoleOptions, Seq<char>>
    decreases args.len(),
{
    if args.len() == 0 {
        Ok(o)
    } else {
        let a = args[0];
        if a == "--role"@ || a == "--workspace"@ || a == "--expires-days"@ {
            if args.len() == 1 {
                Err(
                    if a == "--role"@ {
                        bad_role("nothing"@)
                    } else {
                        a + " needs a value"@
                    },
                )
            } else {
                match with_option(o, a, args[1]) {
                    Ok(next) => options_in(args.skip(2), next),
                    Err(why) => Err(why),
                }
            }
        } else if !begins(a, "--"@) && o.label is None {
            options_in(args.skip(1), ConsoleOptions { label: Some(a), ..o })
        } else {
            Err("unknown argument: "@ + a)
        }
    }
}

/// Nothing said yet.
pub open spec fn no_options() -> ConsoleOptions {
    ConsoleOptions { label: None, role: None, days: None, workspace: "."@ }
}

/// The days that were read.
pub open spec fn days_view(d: Option<i64>) -> Option<int> {
    match d {
        Some(n) => Some(n as int),
        None => None,
    }
}

/// Whether this is what a subcommand with these options asks for.
pub open spec fn wants(r: Result<ConsoleCommand, String>, sub: Seq<char>, o: ConsoleOptions) -> bool {
    if sub == "add-user"@ {
        if o.label is None {
            r matches Err(e) && e@ == "add-user needs a label, e.g. `console add-user ops`"@
        } else if o.role is None {
            r matches Err(e) && e@ == "add-user needs --role viewer|operator|admin"@
        } else {
            r matches Ok(ConsoleCommand::AddUser(l, role)) && Some(l@) == o.label && Some(role) == o.role
        }
    } else if sub == "list"@ {
        r matches Ok(ConsoleCommand::List)
    } else if sub == "key-add"@ {
        if o.label is None {
            r matches Err(e) && e@ == "key-add needs a label, e.g. `key-add nightly-loader`"@
        } else if o.role is None {
            r matches Err(e) && e@ == "key-add needs --role viewer|operator|admin"@
        } else {
            r matches Ok(ConsoleCommand::KeyAdd(l, role, days)) && Some(l@) == o.label && Some(role)
                == o.role && days_view(days) == o.days
        }
    } else if sub == "key-list"@ {
        r matches Ok(ConsoleCommand::KeyList)
    } else if sub == "key-revoke"@ {
        if o.label is None {
            r matches Err(e) && e@ == "key-revoke needs a label"@
        } else {
            r matches Ok(ConsoleCommand::KeyRevoke(l)) && Some(l@) == o.label
        }
    } else {
        r matches Err(e) && e@ == "unknown console command: "@ + sub
    }
}

/// The options of the command, as far as they have been read.
struct Given {
    label: Option<String>,
    role: Option<Role>,
    days: Option<i64>,
    workspace: String,
}

impl View for Given {
    type V = ConsoleOptions;

    closed spec fn view(&self) -> ConsoleOptions {
        ConsoleOptions {
            label: text_opt(self.label),
            role: self.role,
            days: days_view(self.days),
            workspace: self.workspace@,
        }
    }
}

impl Given {
    /// Take in one more value.
    fn set(&mut self, a: &str, v: &str) -> (r: Result<(), String>)
        ensures
            match r {
                Ok(_) => with_option(old(self)@, a@, v@) == Ok::<ConsoleOptions, Seq<char>>(
                    final(self)@,
                ),
                Err(e) => with_option(old(self)@, a@, v@) == Err::<ConsoleOptions, Seq<char>>(e@),
            },
    {
        if same(a, "--role") {
            match role_from(v) {
                Some(r) => {
                    self.role = Some(r);
                },
                None => {
                    return Err(glue3("--role must be viewer, operator or admin (got ", v, ")"));
                },
            }
        } else if same(a, "--workspace") {
            self.workspace = v.to_owned();
        } else {
            match read_signed(v) {
                Some(n) => {
                    if n <= 0 {
                        return Err("--expires-days must be greater than zero".to_owned());
                    }
                    self.days = Some(n);
                },
                None => {
                    return Err(glue2("--expires-days wants a number, got ", v));
                },
            }
        }
        Ok(())
    }
}

/// Read the arguments behind the subcommand.
fn read_options(args: &Vec<String>) -> (r: Result<Given, String>)
    requires
        args@.len() > 0,
    ensures
        match options_in(texts(args@).skip(1), no_options()) {
            Ok(o) => r matches Ok(g) && g@ == o,
            Err(why) => r matches Err(e) && e@ == why,
        },
{
    let ghost all = texts(args@);
    let ghost start = options_in(all.skip(1), no_options());
    let mut g = Given { label: None, role: None, days: None, workspace: ".".to_owned() };
    let mut i: usize = 1;
    assert(g@ == no_options());
    while i < args.len()
        invariant
            1 <= i <= args@.len(),
            all == texts(args@),
            start == options_in(all.skip(1), no_options()),
            start == options_in(all.skip(i as int), g@),
        decreases args@.len() - i,
    {
        let ghost rest = all.skip(i as int);
        let a = args[i].as_str();
        assert(rest[0] == a@);
        if same(a, "--role") || same(a, "--workspace") || same(a, "--expires-days") {
            if args.len() - i == 1 {
                if same(a, "--role") {
                    return Err(
                        glue3("--role must be viewer, operator or admin (got ", "nothing", ")"),
                    );
                }
                return Err(glue2(a, " needs a value"));
            }
            assert(rest[1] == args@[i + 1]@);
            assert(rest.skip(2) == all.skip(i + 2));
            match g.set(a, args[i + 1].as_str()) {
                Ok(_) => {
                    i = i + 2;
                },
                Err(e) => {
                    return Err(e);
                },
            }
        } else if !starts_with(a, "--") && g.label.is_none() {
            assert(rest.skip(1) == all.skip(i + 1));
            g.label = Some(a.to_owned());
            i = i + 1;
        } else {
            return Err(glue2("unknown argument: ", a));
        }
    }
    assert(all.skip(i as int).len() == 0);
    Ok(g)
}

/// What a subcommand with these options asks for.
fn choose_command(sub: &str, g: Given) -> (r: Result<ConsoleCommand, String>)
    ensures
        wants(r, sub@, g@),
{
    if same(sub, "add-user") {
        match g.label {
            None => Err("add-user needs a label, e.g. `console add-user ops`".to_owned()),
            Some(label) => match g.role {
                None => Err("add-user needs --role viewer|operator|admin".to_owned()),
                Some(role) => Ok(ConsoleCommand::AddUser(label, role)),
            },
        }
    } else if same(sub, "list") {
        Ok(ConsoleCommand::List)
    } else if same(sub, "key-add") {
        match g.label {
            None => Err("key-add needs a label, e.g. `key-add nightly-loader`".to_owned()),
            Some(label) => match g.role {
                None => Err("key-add needs --role viewer|operator|admin".to_owned()),
                Some(role) => Ok(ConsoleCommand::KeyAdd(label, role, g.days)),
            },
        }
    } else if same(sub, "key-list") {
        Ok(ConsoleCommand::KeyList)
    } else if same(sub, "key-revoke") {
        match g.label {
            None => Err("key-revoke needs a label".to_owned()),
            Some(label) => Ok(ConsoleCommand::KeyRevoke(label)),
        }
    } else {
        Err(glue2("unknown console command: ", sub))
    }
}

/// Read the command line: what is asked, and of which workspace.
pub fn parse_console_args(args: &Vec<String>) -> (r: Result<(ConsoleCommand, String), String>)
    ensures
        if asks_help(texts(args@)) {
            r matches Ok(x) && x.0 is Help && x.1@ == "."@
        } else {
            match options_in(texts(args@).skip(1), no_options()) {
                Err(why) => r matches Err(e) && e@ == why,
                Ok(o) => match r {
                    Ok(x) => x.1@ == o.workspace && wants(Ok(x.0), texts(args@)[0], o),
                    Err(e) => wants(Err(e), texts(args@)[0], o),
                },
            }
        },
{
    if wants_help(args) {
        return Ok((ConsoleCommand::Help, ".".to_owned()));
    }
    match read_options(args) {
        Err(e) => Err(e),
        Ok(g) => {
            let workspace = g.workspace.clone();
            assert(texts(args@)[0] == args@[0]@);
            match choose_command(args[0].as_str(), g) {
                Ok(c) => Ok((c, workspace)),
                Err(e) => Err(e),
            }
        },
    }
}

// ---------------------------------------------------------------------------
// What is said back
// ---------------------------------------------------------------------------

/// What is said when an account has been made. The token is shown once.
pub fn added_user(label: &str, role: Role, token: &str, store: &str) -> (r: Vec<String>)
    ensures
        texts(r@) == seq![
            "Added '"@ + label@ + "' as "@ + role_name(role) + "."@,
            "\nToken (shown once, not stored):\n  "@ + token@ + "\n"@,
            "Use it as a header:  Authorization: Bearer "@ + token@,
            "Accounts: "@ + store@,
        ],
{
    let mut first = glue3("Added '", label, "' as ");
    first.append(role.as_str());
    first.append(".");
    let mut out: Vec<String> = Vec::new();
    out.push(first);
    out.push(glue3("\nToken (shown once, not stored):\n  ", token, "\n"));
    out.push(glue2("Use it as a header:  Authorization: Bearer ", token));
    out.push(glue2("Accounts: ", store));
    assert(texts(out@) =~= seq![
        "Added '"@ + label@ + "' as "@ + role_name(role) + "."@,
        "\nToken (shown once, not stored):\n  "@ + token@ + "\n"@,
        "Use it as a header:  Authorization: Bearer "@ + token@,
        "Accounts: "@ + store@,
    ]);
    out
}

/// One account, as it is listed.
pub open spec fn account_line(a: Account) -> Seq<char> {
    padded(a.label@, 24) + " "@ + role_name(a.role)
}

/// The accounts, as they are listed.
pub fn account_lines(accounts: &Vec<Account>, store: &str) -> (r: Vec<String>)
    ensures
        texts(r@) == if accounts@.len() == 0 {
            seq!["No console accounts in "@ + store@ + "."@]
        } else {
            accounts@.map_values(|a: Account| account_line(a))
        },
{
    let mut out: Vec<String> = Vec::new();
    if accounts.len() == 0 {
        out.push(glue3("No console accounts in ", store, "."));
        assert(texts(out@) =~= seq!["No console accounts in "@ + store@ + "."@]);
        return out;
    }
    let mut i: usize = 0;
    while i < accounts.len()
        invariant
            i <= accounts@.len(),
            out@.len() == i,
            forall|j: int| 0 <= j < i ==> (#[trigger] out@[j])@ == account_line(accounts@[j]),
        decreases accounts@.len() - i,
    {
        let a = &accounts[i];
        let label = pad_right(a.label.as_str(), 24);
        out.push(glue3(label.as_str(), " ", a.role.as_str()));
        i = i + 1;
    }
    assert(texts(out@) =~= accounts@.map_values(|a: Account| account_line(a)));
    out
}

/// Whether a key that is good for so many days runs out at that second.
pub open spec fn is_key_expiry(now: i64, days: Option<i64>, r: Option<i64>) -> bool {
    match days {
        Some(d) => r == Some((now + d * 86_400) as i64),
        None => r is None,
    }
}

/// When a key that is good for so many days runs out, in seconds.
pub fn key_expiry(now: i64, days: Option<i64>) -> (r: Option<i64>)
    requires
        days is Some ==> i64::MIN <= days->0 * 86_400 <= i64::MAX && i64::MIN <= now + days->0 * 86_400
            <= i64::MAX,
    ensures
        is_key_expiry(now, days, r),
{
    match days {
        Some(d) => Some(now + d * 86_400),
        None => None,
    }
}

/// Whether the time when a key runs out can be put in seconds.
pub fn expiry_fits(now: i64, days: Option<i64>) -> (r: bool)
    ensures
        r == (days is Some ==> i64::MIN <= days->0 * 86_400 <= i64::MAX && i64::MIN <= now + days->0
            * 86_400 <= i64::MAX),
{
    match days {
        Some(d) => match d.checked_mul(86_400) {
            Some(span) => now.checked_add(span).is_some(),
            None => false,
        },
        None => true,
    }
}

/// What is said when an API key has been made. It is shown once.
pub fn added_key(label: &str, role: Role, days: Option<i64>, key: &str) -> (r: Vec<String>)
    requires
        days is Some ==> days->0 > 0,
    ensures
        texts(r@) == seq![
            "Added API key '"@ + label@ + "' as "@ + role_name(role) + "."@,
            match days {
                Some(d) => "Expires in "@ + decimal(d as nat) + " day(s)."@,
                None => "No expiry. Revoke it when the machine is retired."@,
            },
            Seq::empty(),
            "Key (shown once, not stored):"@,
            "  "@ + key@,
            Seq::empty(),
            "Use it as a header:  Authorization: Bearer "@ + key@,
        ],
{
    let mut first = glue3("Added API key '", label, "' as ");
    first.append(role.as_str());
    first.append(".");
    let second = match days {
        Some(d) => {
            let n = decimal_of(d as u64);
            glue3("Expires in ", n.as_str(), " day(s).")
        },
        None => "No expiry. Revoke it when the machine is retired.".to_owned(),
    };
    let ghost said = second@;
    let mut out: Vec<String> = Vec::new();
    out.push(first);
    out.push(second);
    out.push(String::new());
    out.push("Key (shown once, not stored):".to_owned());
    out.push(glue2("  ", key));
    out.push(String::new());
    out.push(glue2("Use it as a header:  Authorization: Bearer ", key));
    assert(texts(out@) =~= seq![
        "Added API key '"@ + label@ + "' as "@ + role_name(role) + "."@,
        said,
        Seq::empty(),
        "Key (shown once, not stored):"@,
        "  "@ + key@,
        Seq::empty(),
        "Use it as a header:  Authorization: Bearer "@ + key@,
    ]);
    out
}

/// An API key, as far as anyone is told. The times are in seconds.
#[derive(Debug)]
pub struct ApiKey {
    pub label: String,
    pub role: Role,
    pub expires_at: Option<i64>,
    pub last_used_at: Option<i64>,
    pub revoked: bool,
}

/// Whether a key still works, in a word.
pub open spec fn key_state(k: ApiKey, now: i64) -> Seq<char> {
    if k.revoked {
        "revoked"@
    } else if k.expires_at is Some && k.expires_at->0 <= now {
        "expired"@
    } else {
        "live"@
    }
}

/// The whole days in a span of seconds, leaving off what is over.
pub open spec fn whole_days(seconds: int) -> int {
    if seconds >= 0 {
        seconds / 86_400
    } else {
        -((-seconds) / 86_400)
    }
}

/// When a key was last used, in words. The question before revoking anything is
/// whether it is still in service.
pub open spec fn key_use(k: ApiKey, now: i64) -> Seq<char> {
    match k.last_used_at {
        Some(t) => "last used "@ + signed_decimal(whole_days(now - t)) + "d ago"@,
        None => "never used"@,
    }
}

/// One key, as it is listed.
pub open spec fn key_line(k: ApiKey, now: i64) -> Seq<char> {
    padded(k.label@, 24) + " "@ + padded(role_name(k.role), 9) + " "@ + padded(key_state(k, now), 8)
        + " "@ + key_use(k, now)
}

/// The whole days from one time to another, as they are written.
fn days_between(from: i64, to: i64) -> (r: String)
    ensures
        r@ == signed_decimal(whole_days(to - from)),
{
    let days: i64 = if to >= from {
        let span: u64 = (to as i128 - from as i128) as u64;
        (span / 86_400) as i64
    } else {
        let span: u64 = (from as i128 - to as i128) as u64;
        -((span / 86_400) as i64)
    };
    signed_decimal_of(days)
}

/// One key, as it is listed.
fn write_key(k: &ApiKey, now: i64) -> (r: String)
    ensures
        r@ == key_line(*k, now),
{
    let expired = match k.expires_at {
        Some(e) => e <= now,
        None => false,
    };
    let state = if k.revoked {
        "revoked"
    } else if expired {
        "expired"
    } else {
        "live"
    };
    let used = match k.last_used_at {
        Some(t) => {
            let days = days_between(t, now);
            glue3("last used ", days.as_str(), "d ago")
        },
        None => "never used".to_owned(),
    };
    let mut line = pad_right(k.label.as_str(), 24);
    line.append(" ");
    let role = pad_right(k.role.as_str(), 9);
    line.append(role.as_str());
    line.append(" ");
    let shown = pad_right(state, 8);
    line.append(shown.as_str());
    line.append(" ");
    line.append(used.as_str());
    line
}

/// The API keys, as they are listed.
pub fn key_lines(keys: &Vec<ApiKey>, now: i64, store: &str) -> (r: Vec<String>)
    ensures
        texts(r@) == if keys@.len() == 0 {
            seq!["No API keys in "@ + store@ + "."@]
        } else {
            keys@.map_values(|k: ApiKey| key_line(k, now))
        },
{
    let mut out: Vec<String> = Vec::new();
    if keys.len() == 0 {
        out.push(glue3("No API keys in ", store, "."));
        assert(texts(out@) =~= seq!["No API keys in "@ + store@ + "."@]);
        return out;
    }
    let mut i: usize = 0;
    while i < keys.len()
        invariant
            i <= keys@.len(),
            out@.len() == i,
            forall|j: int| 0 <= j < i ==> (#[trigger] out@[j])@ == key_line(keys@[j], now),
        decreases keys@.len() - i,
    {
        out.push(write_key(&keys[i], now));
        i = i + 1;
    }
    assert(texts(out@) =~= keys@.map_values(|k: ApiKey| key_line(k, now)));
    out
}

/// How many keys were revoked.
pub open spec fn tells_revoked(label: &str, count: u64, r: (String, i32)) -> bool {
    if count == 0 {
        r.0@ == "No live API key called '"@ + label@ + "'."@ && r.1 == 1
    } else {
        r.0@ == "Revoked "@ + decimal(count as nat) + " key(s) called '"@ + label@
            + "'. It stops working immediately."@ && r.1 == 0
    }
}

/// What is said when keys have been taken back, and how the command ends: that
/// there was none is a failure.
pub fn revoked_keys(label: &str, count: u64) -> (r: (String, i32))
    ensures
        tells_revoked(label, count, r),
{
    if count == 0 {
        return (glue3("No live API key called '", label, "'."), 1);
    }
    let n = decimal_of(count);
    let mut line = glue3("Revoked ", n.as_str(), " key(s) called '");
    line.append(label);
    line.append("'. It stops working immediately.");
    (line, 0)
}

/// Each option sets what it is called after: a role by its name, a number of days
/// above zero, a workspace.
pub proof fn law_what_a_console_option_sets(o: ConsoleOptions, v: Seq<char>, n: nat)
    ensures
        with_option(o, "--workspace"@, v) == Ok::<ConsoleOptions, Seq<char>>(
            ConsoleOptions { workspace: v, ..o },
        ),
        with_option(o, "--role"@, "viewer"@) == Ok::<ConsoleOptions, Seq<char>>(
            ConsoleOptions { role: Some(Role::Viewer), ..o },
        ),
        with_option(o, "--role"@, "operator"@) == Ok::<ConsoleOptions, Seq<char>>(
            ConsoleOptions { role: Some(Role::Operator), ..o },
        ),
        with_option(o, "--role"@, "admin"@) == Ok::<ConsoleOptions, Seq<char>>(
            ConsoleOptions { role: Some(Role::Admin), ..o },
        ),
        role_called(v) is None ==> with_option(o, "--role"@, v) == Err::<ConsoleOptions, Seq<char>>(
            "--role must be viewer, operator or admin (got "@ + v + ")"@,
        ),
        0 < n <= i64::MAX ==> with_option(o, "--expires-days"@, decimal(n)) == Ok::<
            ConsoleOptions,
            Seq<char>,
        >(ConsoleOptions { days: Some(n as int), ..o }),
        with_option(o, "--expires-days"@, decimal(0)) == Err::<ConsoleOptions, Seq<char>>(
            "--expires-days must be greater than zero"@,
        ),
        n > i64::MAX ==> with_option(o, "--expires-days"@, decimal(n)) == Err::<
            ConsoleOptions,
            Seq<char>,
        >("--expires-days wants a number, got "@ + decimal(n)),
{
    reveal_strlit("--role");
    reveal_strlit("--workspace");
    reveal_strlit("--expires-days");
    assert("--role"@.len() == 6);
    assert("--workspace"@.len() == 11);
    assert("--expires-days"@.len() == 14);
    law_what_roles_are_called("viewer"@);
    law_what_roles_are_called("operator"@);
    law_what_roles_are_called("admin"@);
    law_decimal_reads_back(n);
    law_decimal_reads_back(0);
    lemma_decimal(n);
    lemma_decimal(0);
}

/// Options are read one after the other; one bare word is the label, and anything
/// else is wrong.
pub proof fn law_how_console_options_are_read(
    a: Seq<char>,
    v: Seq<char>,
    rest: Seq<Seq<char>>,
    o: ConsoleOptions,
)
    ensures
        options_in(Seq::empty(), o) == Ok::<ConsoleOptions, Seq<char>>(o),
        a == "--role"@ || a == "--workspace"@ || a == "--expires-days"@ ==> (with_option(o, a, v) matches Ok(
            next,
        ) ==> options_in(seq![a, v] + rest, o) == options_in(rest, next)),
        a == "--role"@ || a == "--workspace"@ || a == "--expires-days"@ ==> (with_option(o, a, v) matches Err(
            why,
        ) ==> options_in(seq![a, v] + rest, o) == Err::<ConsoleOptions, Seq<char>>(why)),
        a == "--workspace"@ || a == "--expires-days"@ ==> options_in(seq![a], o) == Err::<
            ConsoleOptions,
            Seq<char>,
        >(a + " needs a value"@),
        options_in(seq!["--role"@], o) == Err::<ConsoleOptions, Seq<char>>(
            "--role must be viewer, operator or admin (got nothing)"@,
        ),
        begins(a, "--"@) && a != "--role"@ && a != "--workspace"@ && a != "--expires-days"@ ==> options_in(
            seq![a] + rest,
            o,
        ) == Err::<ConsoleOptions, Seq<char>>("unknown argument: "@ + a),
        !begins(a, "--"@) && o.label is None ==> options_in(seq![a] + rest, o) == options_in(
            rest,
            ConsoleOptions { label: Some(a), ..o },
        ),
        !begins(a, "--"@) && o.label is Some ==> options_in(seq![a] + rest, o) == Err::<
            ConsoleOptions,
            Seq<char>,
        >("unknown argument: "@ + a),
{
    reveal_strlit("--role");
    reveal_strlit("--workspace");
    reveal_strlit("--expires-days");
    reveal_strlit("--");
    assert("--role"@.len() == 6);
    assert("--workspace"@.len() == 11);
    assert("--expires-days"@.len() == 14);
    assert("--"@.len() == 2);
    let two = seq![a, v] + rest;
    assert(two[0] == a && two[1] == v);
    assert(two.skip(2) == rest);
    let one = seq![a] + rest;
    assert(one[0] == a);
    assert(one.skip(1) == rest);
    assert(seq![a][0] == a);
    assert(options_in(seq!["--role"@], o) == Err::<ConsoleOptions, Seq<char>>(
        "--role must be viewer, operator or admin (got nothing)"@,
    )) by {
        reveal_strlit("--role must be viewer, operator or admin (got ");
        reveal_strlit("nothing");
        reveal_strlit(")");
        reveal_strlit("--role must be viewer, operator or admin (got nothing)");
        assert(seq!["--role"@][0] == "--role"@);
        assert("--role must be viewer, operator or admin (got "@ + "nothing"@ + ")"@
            =~= "--role must be viewer, operator or admin (got nothing)"@);
    }
    assert("--role"@.take(2) == "--"@);
    assert("--workspace"@.take(2) == "--"@);
    assert("--expires-days"@.take(2) == "--"@);
}

/// What each subcommand asks for, once it has what it needs.
pub proof fn law_what_subcommands_ask_for(
    r: Result<ConsoleCommand, String>,
    o: ConsoleOptions,
    other: Seq<char>,
)
    ensures
        wants(r, "list"@, o) <==> (r matches Ok(ConsoleCommand::List)),
        wants(r, "key-list"@, o) <==> (r matches Ok(ConsoleCommand::KeyList)),
        o.label is Some && o.role is Some ==> (wants(r, "add-user"@, o) <==> (r matches Ok(
            ConsoleCommand::AddUser(l, role),
        ) && l@ == o.label->0 && role == o.role->0)),
        o.label is Some && o.role is Some ==> (wants(r, "key-add"@, o) <==> (r matches Ok(
            ConsoleCommand::KeyAdd(l, role, days),
        ) && l@ == o.label->0 && role == o.role->0 && days_view(days) == o.days)),
        o.label is Some ==> (wants(r, "key-revoke"@, o) <==> (r matches Ok(ConsoleCommand::KeyRevoke(l))
            && l@ == o.label->0)),
        o.label is None || o.role is None ==> (wants(r, "add-user"@, o) ==> r is Err) && (wants(
            r,
            "key-add"@,
            o,
        ) ==> r is Err),
        o.label is None ==> (wants(r, "key-revoke"@, o) ==> r is Err),
        !seq!["add-user"@, "list"@, "key-add"@, "key-list"@, "key-revoke"@].contains(other) ==> (wants(
            r,
            other,
            o,
        ) <==> (r matches Err(e) && e@ == "unknown console command: "@ + other)),
{
    reveal_strlit("add-user");
    reveal_strlit("list");
    reveal_strlit("key-add");
    reveal_strlit("key-list");
    reveal_strlit("key-revoke");
    assert("add-user"@.len() == 8);
    assert("list"@.len() == 4);
    assert("key-add"@.len() == 7);
    assert("key-list"@.len() == 8);
    assert("key-revoke"@.len() == 10);
    assert("add-user"@[0] == 'a' && "key-list"@[0] == 'k');
    let all = seq!["add-user"@, "list"@, "key-add"@, "key-list"@, "key-revoke"@];
    assert(all[0] == "add-user"@);
    assert(all[1] == "list"@);
    assert(all[2] == "key-add"@);
    assert(all[3] == "key-list"@);
    assert(all[4] == "key-revoke"@);
}

/// A key is live until it is revoked or its time has come; without a time it does
/// not expire.
pub proof fn law_when_a_key_is_live(k: ApiKey, now: i64)
    ensures
        k.revoked ==> key_state(k, now) == "revoked"@,
        !k.revoked && k.expires_at is None ==> key_state(k, now) == "live"@,
        !k.revoked ==> (k.expires_at matches Some(t) ==> key_state(k, now) == (if now < t {
            "live"@
        } else {
            "expired"@
        })),
{
}

/// How long ago a key was last used is told in whole days.
pub proof fn law_how_long_ago_a_key_was_used(k: ApiKey, now: i64)
    ensures
        k.last_used_at is None ==> key_use(k, now) == "never used"@,
        k.last_used_at matches Some(t) ==> {
            let d = whole_days(now - t);
            &&& key_use(k, now) == "last used "@ + signed_decimal(d) + "d ago"@
            &&& t <= now ==> 0 <= d && d * 86_400 <= now - t < (d + 1) * 86_400
            &&& t > now ==> d <= 0 && (d - 1) * 86_400 < now - t <= d * 86_400
        },
{
}

/// A key's line gives its label, role, state and last use, in columns.
pub proof fn law_what_a_line_says(k: ApiKey, now: i64, a: Account)
    ensures
        key_line(k, now) == padded(k.label@, 24) + " "@ + padded(role_name(k.role), 9) + " "@ + padded(
            key_state(k, now),
            8,
        ) + " "@ + key_use(k, now),
        account_line(a) == padded(a.label@, 24) + " "@ + role_name(a.role),
{
}

/// A workspace that is not named is the current folder, and nothing else is
/// given unless it is said.
pub proof fn law_which_workspace_is_meant(args: Seq<Seq<char>>, o: ConsoleOptions)
    requires
        forall|i: int| 0 <= i < args.len() ==> #[trigger] args[i] != "--workspace"@,
    ensures
        options_in(args, o) matches Ok(r) ==> r.workspace == o.workspace,
        no_options().workspace == "."@,
        no_options().label is None && no_options().role is None && no_options().days is None,
    decreases args.len(),
{
    if args.len() > 0 {
        let a = args[0];
        assert(a != "--workspace"@);
        assert(forall|i: int| 0 <= i < args.len() - 1 ==> #[trigger] args.skip(1)[i] == args[i + 1]);
        law_which_workspace_is_meant(args.skip(1), ConsoleOptions { label: Some(a), ..o });
        if args.len() > 1 {
            assert(forall|i: int| 0 <= i < args.len() - 2 ==> #[trigger] args.skip(2)[i] == args[i + 2]);
            if let Ok(next) = with_option(o, a, args[1]) {
                law_which_workspace_is_meant(args.skip(2), next);
            }
        }
    }
}

/// A key lasts its days, each of twenty-four hours; one that was given none does
/// not run out.
pub proof fn law_how_long_a_key_lasts(now: i64, days: i64, hours: int, r: Option<i64>)
    requires
        i64::MIN <= now + days * 86_400 <= i64::MAX,
        hours == days * 24,
    ensures
        is_key_expiry(now, Some(days), r) ==> r is Some && r->0 - now == hours * 60 * 60,
        is_key_expiry(now, None, r) ==> r is None,
{
}

} // verus!
