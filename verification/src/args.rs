//! Command lines: those of the console and the editor, their settings, and what
//! the commands with subcommands share.
use crate::number::{decimal, law_decimal_reads_back, number_up_to, read_number};
use crate::text::{
    after_prefix, glue2, is_blank, same, str_opt, strip_prefix, text_opt, texts, trimmed,
};
use vstd::prelude::*;
use vstd::string::*;

verus! {

/// What starts the management console.
#[derive(Debug)]
pub struct ServeArgs {
    pub host: String,
    pub port: u16,
    pub workspace: String,
    pub duckdb: Option<String>,
    /// The scheduler's poll cadence, in seconds.
    pub tick_interval: u64,
    /// Console credential. Prefer the environment: an argument is visible to
    /// anyone who can list processes on the host.
    pub token: Option<String>,
}

/// What starts the web editor.
#[derive(Debug)]
pub struct WebArgs {
    pub host: String,
    pub port: u16,
    pub workspace: String,
    pub duckdb: Option<String>,
    pub dist: String,
    /// Editor credential. Prefer the environment over an argument, which anyone
    /// who can list processes on the host can read.
    pub token: Option<String>,
}

/// What a command line asks for.
#[derive(Debug)]
pub enum Command<T> {
    /// To be told how it is used.
    Help,
    /// This.
    Run(T),
}

/// The options of either command, as far as they have been read.
pub struct Options {
    pub host: Seq<char>,
    pub port: u16,
    pub workspace: Option<Seq<char>>,
    pub duckdb: Option<Seq<char>>,
    pub dist: Option<Seq<char>>,
    pub tick: Option<u64>,
    pub token: Option<Seq<char>>,
}

/// What reading a command line came to.
pub enum Parsed {
    Help,
    Refused(Seq<char>),
    Options(Options),
}

/// Which of the two commands is read.
#[derive(Debug, Clone, Copy, PartialEq, Eq, Structural)]
pub enum Mode {
    Serve,
    Web,
}

/// Whether an argument is an option that takes a value.
pub open spec fn takes_value(mode: Mode, a: Seq<char>) -> bool {
    ||| a == "--host"@
    ||| a == "--port"@
    ||| a == "--workspace"@
    ||| a == "--duckdb"@
    ||| a == "--token"@
    ||| (mode == Mode::Serve && a == "--tick-interval"@)
    ||| (mode == Mode::Web && a == "--dist"@)
}

/// The options with one more value, or why it cannot be one.
pub open spec fn with_value(o: Options, a: Seq<char>, v: Seq<char>) -> Result<Options, Seq<char>> {
    if a == "--host"@ {
        Ok(Options { host: v, ..o })
    } else if a == "--port"@ {
        match number_up_to(v, 65_535) {
            Some(n) => Ok(Options { port: n as u16, ..o }),
            None => Err("--port must be a number"@),
        }
    } else if a == "--workspace"@ {
        Ok(Options { workspace: Some(v), ..o })
    } else if a == "--duckdb"@ {
        Ok(Options { duckdb: Some(v), ..o })
    } else if a == "--token"@ {
        Ok(Options { token: Some(v), ..o })
    } else if a == "--tick-interval"@ {
        match number_up_to(v, u64::MAX as nat) {
            Some(n) => Ok(Options { tick: Some(n as u64), ..o }),
            None => Err("--tick-interval must be a number (seconds)"@),
        }
    } else {
        Ok(Options { dist: Some(v), ..o })
    }
}

/// What the rest of a command line comes to, with these options read so far. The
/// first thing wrong, or the first request for help, decides.
pub open spec fn parsed(mode: Mode, args: Seq<Seq<char>>, o: Options) -> Parsed
    decreases args.len(),
{
    if args.len() == 0 {
        Parsed::Options(o)
    } else if takes_value(mode, args[0]) {
        if args.len() == 1 {
            Parsed::Refused(args[0] + " needs a value"@)
        } else {
            match with_value(o, args[0], args[1]) {
                Ok(next) => parsed(mode, args.skip(2), next),
                Err(why) => Parsed::Refused(why),
            }
        }
    } else if args[0] == "-h"@ || args[0] == "--help"@ {
        Parsed::Help
    } else {
        Parsed::Refused(
            (if mode == Mode::Serve {
                "unknown serve argument: "@
            } else {
                "unknown web argument: "@
            }) + args[0],
        )
    }
}

/// What is run when nothing is said.
pub open spec fn defaults(port: u16) -> Options {
    Options {
        host: "127.0.0.1"@,
        port,
        workspace: None,
        duckdb: None,
        dist: None,
        tick: None,
        token: None,
    }
}

/// The options of either command, as far as they have been read.
struct Read {
    host: String,
    port: u16,
    workspace: Option<String>,
    duckdb: Option<String>,
    dist: Option<String>,
    tick: Option<u64>,
    token: Option<String>,
}

impl View for Read {
    type V = Options;

    closed spec fn view(&self) -> Options {
        Options {
            host: self.host@,
            port: self.port,
            workspace: text_opt(self.workspace),
            duckdb: text_opt(self.duckdb),
            dist: text_opt(self.dist),
            tick: self.tick,
            token: text_opt(self.token),
        }
    }
}

impl Read {
    /// Take in one more value.
    fn set(&mut self, a: &str, v: &str) -> (r: Result<(), String>)
        ensures
            match r {
                Ok(_) => with_value(old(self)@, a@, v@) == Ok::<Options, Seq<char>>(final(self)@),
                Err(e) => with_value(old(self)@, a@, v@) == Err::<Options, Seq<char>>(e@),
            },
    {
        if same(a, "--host") {
            self.host = v.to_owned();
        } else if same(a, "--port") {
            match read_number(v, 65_535) {
                Some(n) => {
                    self.port = n as u16;
                },
                None => {
                    return Err("--port must be a number".to_owned());
                },
            }
        } else if same(a, "--workspace") {
            self.workspace = Some(v.to_owned());
        } else if same(a, "--duckdb") {
            self.duckdb = Some(v.to_owned());
        } else if same(a, "--token") {
            self.token = Some(v.to_owned());
        } else if same(a, "--tick-interval") {
            match read_number(v, u64::MAX) {
                Some(n) => {
                    self.tick = Some(n);
                },
                None => {
                    return Err("--tick-interval must be a number (seconds)".to_owned());
                },
            }
        } else {
            self.dist = Some(v.to_owned());
        }
        Ok(())
    }
}

/// Whether an argument is an option that takes a value.
fn wants_value(mode: Mode, a: &str) -> (r: bool)
    ensures
        r == takes_value(mode, a@),
{
    same(a, "--host") || same(a, "--port") || same(a, "--workspace") || same(a, "--duckdb") || same(
        a,
        "--token",
    ) || (mode == Mode::Serve && same(a, "--tick-interval")) || (mode == Mode::Web && same(a, "--dist"))
}

/// Read a command line.
fn read_options(mode: Mode, args: &Vec<String>, port: u16) -> (r: Result<Command<Read>, String>)
    ensures
        match parsed(mode, texts(args@), defaults(port)) {
            Parsed::Help => r matches Ok(Command::Help),
            Parsed::Refused(why) => r matches Err(e) && e@ == why,
            Parsed::Options(o) => r matches Ok(Command::Run(x)) && x@ == o,
        },
{
    let ghost all = texts(args@);
    let ghost start = defaults(port);
    let mut o = Read {
        host: "127.0.0.1".to_owned(),
        port,
        workspace: None,
        duckdb: None,
        dist: None,
        tick: None,
        token: None,
    };
    let mut i: usize = 0;
    assert(all.skip(0) == all);
    assert(o@ == start);
    while i < args.len()
        invariant
            i <= args@.len(),
            all == texts(args@),
            start == defaults(port),
            parsed(mode, all, start) == parsed(mode, all.skip(i as int), o@),
        decreases args@.len() - i,
    {
        let ghost rest = all.skip(i as int);
        let a = args[i].as_str();
        assert(rest[0] == a@);
        if wants_value(mode, a) {
            if args.len() - i == 1 {
                return Err(glue2(a, " needs a value"));
            }
            assert(rest[1] == args@[i + 1]@);
            assert(rest.skip(2) == all.skip(i + 2));
            match o.set(a, args[i + 1].as_str()) {
                Ok(_) => {
                    i = i + 2;
                },
                Err(e) => {
                    return Err(e);
                },
            }
        } else if same(a, "-h") || same(a, "--help") {
            return Ok(Command::Help);
        } else if mode == Mode::Serve {
            return Err(glue2("unknown serve argument: ", a));
        } else {
            return Err(glue2("unknown web argument: ", a));
        }
    }
    assert(all.skip(i as int).len() == 0);
    Ok(Command::Run(o))
}

/// A text, or another in its place.
pub open spec fn text_or(t: Option<Seq<char>>, default: Seq<char>) -> Seq<char> {
    match t {
        Some(s) => s,
        None => default,
    }
}

/// The poll cadence in seconds: the flag, or else the setting, if it is above
/// zero; otherwise 15.
pub open spec fn cadence(flag: Option<u64>, setting: Option<Seq<char>>) -> u64 {
    let n = match flag {
        Some(n) => n,
        None => match setting {
            Some(s) => match number_up_to(s, u64::MAX as nat) {
                Some(n) => n as u64,
                None => 0,
            },
            None => 0,
        },
    };
    if n > 0 {
        n
    } else {
        15
    }
}

/// What the arguments of the console come to.
pub open spec fn are_serve_args(
    args: &Vec<String>,
    tick_setting: Option<&str>,
    r: Result< Command<ServeArgs>, String, >,
) -> bool {
    match parsed(Mode::Serve, texts(args@), defaults(8080)) {
        Parsed::Help => r matches Ok(Command::Help),
        Parsed::Refused(why) => r matches Err(e) && e@ == why,
        Parsed::Options(o) => r matches Ok(Command::Run(x)) && {
            &&& x.host@ == o.host
            &&& x.port == o.port
            &&& x.workspace@ == text_or(o.workspace, "."@)
            &&& text_opt(x.duckdb) == o.duckdb
            &&& x.tick_interval == cadence(o.tick, str_opt(tick_setting))
            &&& text_opt(x.token) == o.token
        },
    }
}

/// Read the command line of the management console. `tick_setting` is
/// DUCKLE_TICK_INTERVAL.
pub fn parse_serve_args(args: &Vec<String>, tick_setting: Option<&str>) -> (r: Result<
    Command<ServeArgs>,
    String,
>)
    ensures
        are_serve_args(args, tick_setting, r),
{
    match read_options(Mode::Serve, args, 8080) {
        Ok(Command::Help) => Ok(Command::Help),
        Ok(Command::Run(o)) => {
            let asked: u64 = match o.tick {
                Some(n) => n,
                None => match tick_setting {
                    Some(s) => match read_number(s, u64::MAX) {
                        Some(n) => n,
                        None => 0,
                    },
                    None => 0,
                },
            };
            Ok(
                Command::Run(
                    ServeArgs {
                        host: o.host,
                        port: o.port,
                        workspace: match o.workspace {
                            Some(w) => w,
                            None => ".".to_owned(),
                        },
                        duckdb: o.duckdb,
                        tick_interval: if asked > 0 {
                            asked
                        } else {
                            15
                        },
                        token: o.token,
                    },
                ),
            )
        },
        Err(e) => Err(e),
    }
}

/// What the arguments of the editor come to.
pub open spec fn are_web_args(args: &Vec<String>, r: Result<Command<WebArgs>, String>) -> bool {
    match parsed(Mode::Web, texts(args@), defaults(8090)) {
        Parsed::Help => r matches Ok(Command::Help),
        Parsed::Refused(why) => r matches Err(e) && e@ == why,
        Parsed::Options(o) => if o.dist is None {
            r matches Err(e) && e@ == "web mode needs --dist <frontend dist dir>"@
        } else {
            r matches Ok(Command::Run(x)) && {
                &&& x.host@ == o.host
                &&& x.port == o.port
                &&& x.workspace@ == text_or(o.workspace, "."@)
                &&& text_opt(x.duckdb) == o.duckdb
                &&& Some(x.dist@) == o.dist
                &&& text_opt(x.token) == o.token
            }
        },
    }
}

/// Read the command line of the web editor.
pub fn parse_web_args(args: &Vec<String>) -> (r: Result<Command<WebArgs>, String>)
    ensures
        are_web_args(args, r),
{
    match read_options(Mode::Web, args, 8090) {
        Ok(Command::Help) => Ok(Command::Help),
        Ok(Command::Run(o)) => match o.dist {
            Some(dist) => Ok(
                Command::Run(
                    WebArgs {
                        host: o.host,
                        port: o.port,
                        workspace: match o.workspace {
                            Some(w) => w,
                            None => ".".to_owned(),
                        },
                        duckdb: o.duckdb,
                        dist,
                        token: o.token,
                    },
                ),
            ),
            None => Err("web mode needs --dist <frontend dist dir>".to_owned()),
        },
        Err(e) => Err(e),
    }
}

/// Which token counts.
pub open spec fn is_chosen_token(
    flag: Option<String>,
    setting: Option<String>,
    r: Option<String>,
) -> bool {
    ({
        let chosen = if flag is Some {
            flag
        } else {
            setting
        };
        r == if chosen is Some && trimmed(chosen->0@).len() > 0 {
            chosen
        } else {
            None
        }
    })
}

/// The console credential: the flag, or else DUCKLE_CONSOLE_TOKEN, unless there
/// is nothing in it.
pub fn choose_token(flag: Option<String>, setting: Option<String>) -> (r: Option<String>)
    ensures
        is_chosen_token(flag, setting, r),
{
    let chosen = match flag {
        Some(t) => Some(t),
        None => setting,
    };
    match chosen {
        Some(t) => if is_blank(t.as_str()) {
            None
        } else {
            Some(t)
        },
        None => None,
    }
}

/// A path without the prefix that marks an extended-length one, so that the path
/// the browser sees and echoes back stays a plain one.
pub fn plain_path(path: &str) -> (r: String)
    ensures
        r@ == text_or(after_prefix(path@, "\\\\?\\"@), path@),
{
    match strip_prefix(path, "\\\\?\\") {
        Some(rest) => rest,
        None => path.to_owned(),
    }
}

/// Whether the command line asks how the command is used.
pub open spec fn asks_help(args: Seq<Seq<char>>) -> bool {
    args.len() == 0 || args[0].len() == 0 || args[0] == "-h"@ || args[0] == "--help"@
}

/// Whether the command line asks how the command is used.
pub fn wants_help(args: &Vec<String>) -> (r: bool)
    ensures
        r == asks_help(texts(args@)),
{
    if args.len() == 0 {
        return true;
    }
    assert(texts(args@)[0] == args@[0]@);
    let sub = args[0].as_str();
    sub.is_empty() || same(sub, "-h") || same(sub, "--help")
}

/// Which options take a value: the shared ones on both, the tick on the console,
/// the frontend on the editor.
pub proof fn law_which_options_take_a_value(mode: Mode, a: Seq<char>)
    ensures
        takes_value(mode, a) <==> {
            ||| a == "--host"@
            ||| a == "--port"@
            ||| a == "--workspace"@
            ||| a == "--duckdb"@
            ||| a == "--token"@
            ||| (mode == Mode::Serve && a == "--tick-interval"@)
            ||| (mode == Mode::Web && a == "--dist"@)
        },
{
}

/// Each option sets what it is called after and nothing else.
pub proof fn law_what_an_option_sets(o: Options, v: Seq<char>, n: nat)
    ensures
        with_value(o, "--host"@, v) == Ok::<Options, Seq<char>>(Options { host: v, ..o }),
        with_value(o, "--workspace"@, v) == Ok::<Options, Seq<char>>(
            Options { workspace: Some(v), ..o },
        ),
        with_value(o, "--duckdb"@, v) == Ok::<Options, Seq<char>>(Options { duckdb: Some(v), ..o }),
        with_value(o, "--token"@, v) == Ok::<Options, Seq<char>>(Options { token: Some(v), ..o }),
        with_value(o, "--dist"@, v) == Ok::<Options, Seq<char>>(Options { dist: Some(v), ..o }),
        n <= 65_535 ==> with_value(o, "--port"@, decimal(n)) == Ok::<Options, Seq<char>>(
            Options { port: n as u16, ..o },
        ),
        n > 65_535 ==> with_value(o, "--port"@, decimal(n)) == Err::<Options, Seq<char>>(
            "--port must be a number"@,
        ),
        n <= u64::MAX ==> with_value(o, "--tick-interval"@, decimal(n)) == Ok::<Options, Seq<char>>(
            Options { tick: Some(n as u64), ..o },
        ),
        n > u64::MAX ==> with_value(o, "--tick-interval"@, decimal(n)) == Err::<Options, Seq<char>>(
            "--tick-interval must be a number (seconds)"@,
        ),
{
    law_decimal_reads_back(n);
    reveal_strlit("--host");
    reveal_strlit("--port");
    reveal_strlit("--workspace");
    reveal_strlit("--duckdb");
    reveal_strlit("--token");
    reveal_strlit("--tick-interval");
    reveal_strlit("--dist");
    reveal_strlit("-h");
    reveal_strlit("--help");
    assert("--host"@.len() == 6);
    assert("--port"@.len() == 6);
    assert("--workspace"@.len() == 11);
    assert("--duckdb"@.len() == 8);
    assert("--token"@.len() == 7);
    assert("--tick-interval"@.len() == 15);
    assert("--dist"@.len() == 6);
    assert("-h"@.len() == 2);
    assert("--help"@.len() == 6);
    assert("--host"@[2] == 'h' && "--port"@[2] == 'p');
    assert("--host"@[2] == 'h' && "--dist"@[2] == 'd');
    assert("--host"@[3] == 'o' && "--help"@[3] == 'e');
    assert("--port"@[2] == 'p' && "--dist"@[2] == 'd');
    assert("--port"@[2] == 'p' && "--help"@[2] == 'h');
    assert("--dist"@[2] == 'd' && "--help"@[2] == 'h');
}

/// Options are read one after the other: each with its value, until there are no
/// more, help is asked for, or one is wrong.
pub proof fn law_how_options_are_read(
    mode: Mode,
    a: Seq<char>,
    v: Seq<char>,
    rest: Seq<Seq<char>>,
    o: Options,
)
    ensures
        parsed(mode, Seq::empty(), o) == Parsed::Options(o),
        takes_value(mode, a) ==> parsed(mode, seq![a], o) == Parsed::Refused(a + " needs a value"@),
        takes_value(mode, a) ==> (with_value(o, a, v) matches Ok(next) ==> parsed(
            mode,
            seq![a, v] + rest,
            o,
        ) == parsed(mode, rest, next)),
        takes_value(mode, a) ==> (with_value(o, a, v) matches Err(why) ==> parsed(
            mode,
            seq![a, v] + rest,
            o,
        ) == Parsed::Refused(why)),
        parsed(mode, seq!["-h"@] + rest, o) is Help,
        parsed(mode, seq!["--help"@] + rest, o) is Help,
        !takes_value(mode, a) && a != "-h"@ && a != "--help"@ ==> parsed(mode, seq![a] + rest, o)
            == Parsed::Refused(
            (match mode {
                Mode::Serve => "unknown serve argument: "@,
                Mode::Web => "unknown web argument: "@,
            }) + a,
        ),
{
    reveal_strlit("--host");
    reveal_strlit("--port");
    reveal_strlit("--workspace");
    reveal_strlit("--duckdb");
    reveal_strlit("--token");
    reveal_strlit("--tick-interval");
    reveal_strlit("--dist");
    reveal_strlit("-h");
    reveal_strlit("--help");
    assert("--host"@.len() == 6);
    assert("--port"@.len() == 6);
    assert("--workspace"@.len() == 11);
    assert("--duckdb"@.len() == 8);
    assert("--token"@.len() == 7);
    assert("--tick-interval"@.len() == 15);
    assert("--dist"@.len() == 6);
    assert("-h"@.len() == 2);
    assert("--help"@.len() == 6);
    assert("--host"@[2] == 'h' && "--port"@[2] == 'p');
    assert("--host"@[2] == 'h' && "--dist"@[2] == 'd');
    assert("--host"@[3] == 'o' && "--help"@[3] == 'e');
    assert("--port"@[2] == 'p' && "--dist"@[2] == 'd');
    assert("--port"@[2] == 'p' && "--help"@[2] == 'h');
    assert("--dist"@[2] == 'd' && "--help"@[2] == 'h');
    let two = seq![a, v] + rest;
    assert(two[0] == a && two[1] == v);
    assert(two.skip(2) == rest);
    assert((seq!["-h"@] + rest)[0] == "-h"@);
    assert((seq!["--help"@] + rest)[0] == "--help"@);
    assert((seq![a] + rest)[0] == a);
}

/// Unless told otherwise a server is on this machine alone, and nothing else is
/// set.
pub proof fn law_what_is_set_by_default(port: u16)
    ensures
        defaults(port).host == "127.0.0.1"@,
        defaults(port).port == port,
        defaults(port).workspace is None,
        defaults(port).duckdb is None,
        defaults(port).dist is None,
        defaults(port).tick is None,
        defaults(port).token is None,
        text_or(None, "."@) == "."@,
{
}

/// The console looks at its schedules as often as the option says, else as the
/// setting does, and every 15 seconds where neither says anything above zero.
pub proof fn law_how_often_schedules_are_looked_at(n: u64, setting: Option<Seq<char>>)
    ensures
        n > 0 ==> cadence(Some(n), setting) == n,
        cadence(Some(0), setting) == 15,
        n > 0 ==> cadence(None, Some(decimal(n as nat))) == n,
        cadence(None, Some(decimal(0))) == 15,
        cadence(None, None) == 15,
{
    law_decimal_reads_back(n as nat);
    law_decimal_reads_back(0);
}

/// Help is asked for by name, or by asking for nothing.
pub proof fn law_when_help_is_asked_for(args: Seq<Seq<char>>)
    ensures
        asks_help(Seq::empty()),
        args.len() > 0 ==> (asks_help(args) <==> args[0] == Seq::<char>::empty() || args[0] == "-h"@
            || args[0] == "--help"@),
{
    if args.len() > 0 && args[0].len() == 0 {
        assert(args[0] == Seq::<char>::empty());
    }
}

/// Without arguments the console is on port 8080 and the editor on port 8090, in
/// the folder they are started in; the editor has to be told its frontend.
pub proof fn law_where_servers_start(
    args: &Vec<String>,
    setting: Option<&str>,
    o: Options,
    s: Result<Command<ServeArgs>, String>,
    w: Result<Command<WebArgs>, String>,
)
    ensures
        are_serve_args(args, setting, s) && parsed(Mode::Serve, texts(args@), defaults(8080))
            == Parsed::Options(o) ==> (s matches Ok(Command::Run(x)) && x.host@ == o.host && x.port
            == o.port && x.workspace@ == (match o.workspace {
            Some(p) => p,
            None => "."@,
        }) && text_opt(x.duckdb) == o.duckdb && text_opt(x.token) == o.token && x.tick_interval
            == cadence(o.tick, str_opt(setting))),
        are_serve_args(args, setting, s) && parsed(Mode::Serve, texts(args@), defaults(8080)) is Help
            ==> (s matches Ok(Command::Help)),
        are_web_args(args, w) && parsed(Mode::Web, texts(args@), defaults(8090)) == Parsed::Options(o)
            && o.dist is None ==> (w matches Err(e) && e@
            == "web mode needs --dist <frontend dist dir>"@),
        are_web_args(args, w) && parsed(Mode::Web, texts(args@), defaults(8090)) == Parsed::Options(o)
            && o.dist is Some ==> (w matches Ok(Command::Run(x)) && x.host@ == o.host && x.port
            == o.port && x.workspace@ == (match o.workspace {
            Some(p) => p,
            None => "."@,
        }) && text_opt(x.duckdb) == o.duckdb && text_opt(x.token) == o.token && x.dist@ == o.dist->0),
{
}

/// The token on the command line counts before the one in the environment, and a
/// blank one is none.
pub proof fn law_which_token_counts(flag: String, setting: String, r: Option<String>)
    ensures
        is_chosen_token(Some(flag), Some(setting), r) && trimmed(flag@).len() > 0 ==> r == Some(flag),
        is_chosen_token(Some(flag), Some(setting), r) && trimmed(flag@).len() == 0 ==> r is None,
        is_chosen_token(None, Some(setting), r) && trimmed(setting@).len() > 0 ==> r == Some(setting),
        is_chosen_token(None, Some(setting), r) && trimmed(setting@).len() == 0 ==> r is None,
        is_chosen_token(None, None, r) ==> r is None,
{
}

} // verus!
