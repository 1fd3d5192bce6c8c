use argon2::password_hash::{PasswordHash, PasswordVerifier};
use base64::Engine;
use duckle::console_auth::{
    accounts_path, carries_accounts_over, check_accounts, cookie_value, hash_token, hash_token_with,
    is_loopback, new_token, new_token_with, open_session, role_from, session_expiry, Account, Ask,
    Console, Identity, Lookup, Role, SESSION_COOKIE, SESSION_TTL_SECS,
};
use duckle::console_cmd::{
    account_lines, added_key, added_user, expiry_fits, key_expiry, key_lines, parse_console_args,
    revoked_keys, ApiKey, ConsoleCommand,
};

/// Sessions and API keys, as a store would have them.
struct Store {
    sessions: Vec<(String, Identity, i64)>,
    keys: Vec<(String, Identity, bool)>,
}

impl Store {
    fn new() -> Store {
        Store { sessions: Vec::new(), keys: Vec::new() }
    }

    fn session(&self, sid: &str, now: i64) -> Lookup {
        match self.sessions.iter().find(|s| s.0 == sid && s.2 > now) {
            Some(s) => Lookup::Found(s.1.copy()),
            None => Lookup::Missing,
        }
    }

    fn key(&self, key: &str) -> Lookup {
        match self.keys.iter().find(|k| k.0 == key && !k.2) {
            Some(k) => Lookup::Found(k.1.copy()),
            None => Lookup::Missing,
        }
    }
}

/// Ask who is calling, looking up in the store whatever has to be known.
fn identify(
    console: &mut Console,
    store: &Store,
    authorization: Option<&str>,
    cookie: Option<&str>,
) -> Option<Identity> {
    let mut session = Lookup::NotAsked;
    let mut key = Lookup::NotAsked;
    loop {
        match console.identify(authorization, cookie, &session, &key) {
            Ask::Session(sid) => session = store.session(&sid, 1_000),
            Ask::Key(k) => key = store.key(&k),
            Ask::Answer(who) => return who,
        }
    }
}

fn identity(label: &str, role: Role) -> Identity {
    Identity { label: label.to_string(), role }
}

fn with_token(token: &str) -> Console {
    match Console::configure("/w", vec![], false, "0.0.0.0", Some(token), false) {
        Ok(c) => c,
        Err(e) => panic!("{e}"),
    }
}

#[test]
fn binding_off_this_machine_without_a_credential_is_refused() {
    // The case that mattered: exposed to the network with no way to tell
    // callers apart.
    let err = match Console::configure("/w", vec![], false, "0.0.0.0", None, false) {
        Err(e) => e,
        Ok(_) => panic!("must refuse to start"),
    };
    assert!(err.contains("Set a token first"), "unhelpful refusal: {err}");

    // With a token it starts, and is not open.
    assert!(!with_token("s3cret-token").is_open());

    // Loopback with nothing configured needs no token.
    let local = match Console::configure("/w", vec![], false, "127.0.0.1", None, false) {
        Ok(c) => c,
        Err(e) => panic!("loopback starts: {e}"),
    };
    assert!(local.is_open(), "requiring a token on localhost breaks the local workflow");
    // An API key alone is a credential too.
    assert!(Console::configure("/w", vec![], true, "0.0.0.0", None, false).is_ok());
    assert_eq!(
        Console::configure("/w", vec![], false, "127.0.0.1", Some("  "), false).err().as_deref(),
        Some("--token was given but is empty")
    );
}

#[test]
fn a_signed_in_session_survives_a_restart() {
    let mut store = Store::new();
    let mut first = with_token("s3cret-token");
    let (sid, who) = first.sign_in("s3cret-token").expect("token signs in");
    assert_eq!(who.role, Role::Admin);
    store.sessions.push((sid.clone(), who.copy(), session_expiry(1_000)));
    let cookie = format!("{SESSION_COOKIE}={sid}");
    drop(first);

    // Same workspace, new process.
    let mut restarted = with_token("s3cret-token");
    let after = identify(&mut restarted, &store, None, Some(&cookie))
        .expect("the session should outlive the process that minted it");
    assert_eq!(after.role, Role::Admin);
    assert_eq!(after.label, who.label);
}

#[test]
fn an_expired_session_is_refused_and_dropped() {
    let mut store = Store::new();
    store.sessions.push(("stale-sid".to_string(), identity("alice", Role::Admin), 999));
    let mut console = with_token("s3cret-token");
    assert!(
        identify(&mut console, &store, None, Some(&format!("{SESSION_COOKIE}=stale-sid"))).is_none(),
        "an expired session was admitted"
    );
    assert_eq!(SESSION_TTL_SECS, 12 * 60 * 60);
}

#[test]
fn signing_out_survives_a_restart_too() {
    let mut store = Store::new();
    let mut console = with_token("s3cret-token");
    let (sid, who) = console.sign_in("s3cret-token").expect("signs in");
    store.sessions.push((sid.clone(), who, session_expiry(1_000)));
    let cookie = format!("{SESSION_COOKIE}={sid}");
    let gone = console.sign_out(Some(&cookie)).expect("names the session to forget");
    assert_eq!(gone, sid);
    store.sessions.retain(|s| s.0 != gone);
    drop(console);

    let mut restarted = with_token("s3cret-token");
    assert!(
        identify(&mut restarted, &store, None, Some(&cookie)).is_none(),
        "a signed-out session came back after a restart"
    );
}

#[test]
fn an_api_key_identifies_the_machine_it_was_made_for() {
    let mut store = Store::new();
    store.keys.push(("k1".to_string(), identity("nightly-loader", Role::Operator), false));
    let mut console = with_token("admin-token");
    let who = identify(&mut console, &store, Some("Bearer k1"), None)
        .expect("an API key should identify its machine");
    assert_eq!(who.label, "nightly-loader");
    assert_eq!(who.role, Role::Operator, "a key carries its own role, not the caller's");
}

#[test]
fn a_revoked_api_key_stops_identifying_without_a_restart() {
    let mut store = Store::new();
    store.keys.push(("k1".to_string(), identity("ci", Role::Viewer), false));
    let mut console = with_token("admin-token");
    assert!(identify(&mut console, &store, Some("Bearer k1"), None).is_some());
    store.keys[0].2 = true;
    assert!(
        identify(&mut console, &store, Some("Bearer k1"), None).is_none(),
        "a revoked key was still admitted by a running console"
    );
}

#[test]
fn only_the_right_token_identifies_a_caller() {
    let store = Store::new();
    let mut console = with_token("s3cret-token");
    assert!(identify(&mut console, &store, None, None).is_none(), "no credential was admitted");
    assert!(identify(&mut console, &store, Some("Bearer wrong"), None).is_none(), "wrong token admitted");
    assert!(identify(&mut console, &store, Some("s3cret-token"), None).is_none(), "raw header admitted");

    let who = identify(&mut console, &store, Some("Bearer s3cret-token"), None).expect("correct token");
    assert_eq!(who.role, Role::Admin, "--token is the operator's own credential");
    // Once more, now from memory.
    let again = identify(&mut console, &store, Some("Bearer s3cret-token"), None).expect("still correct");
    assert_eq!(again.label, who.label);
}

#[test]
fn a_session_cookie_stands_in_for_the_token() {
    let mut store = Store::new();
    let mut console = with_token("s3cret-token");
    assert!(console.sign_in("wrong").is_none(), "signed in with the wrong token");
    assert!(console.sign_in("").is_none());
    let (sid, who) = console.sign_in("s3cret-token").expect("sign in");
    assert_eq!(who.role, Role::Admin);
    // The session id is not the token, so a stolen cookie is not a token.
    assert_ne!(sid, "s3cret-token");
    assert_eq!(sid.len(), 43);

    store.sessions.push((sid.clone(), who, session_expiry(1_000)));
    let cookie = format!("{SESSION_COOKIE}={sid}");
    assert!(identify(&mut console, &store, None, Some(&cookie)).is_some(), "session not honoured");
    let gone = console.sign_out(Some(&cookie)).unwrap();
    store.sessions.retain(|s| s.0 != gone);
    assert!(
        identify(&mut console, &store, None, Some(&cookie)).is_none(),
        "sign-out left the session live"
    );
    assert!(console.sign_out(None).is_none());
}

#[test]
fn accounts_carry_their_own_role_and_only_a_hash_is_stored() {
    let (token, hash) = new_token().expect("add account");
    assert_ne!(token, hash);
    assert!(!hash.contains(&token), "the token itself was written down");
    assert!(hash.contains("argon2"), "expected an Argon2 hash");
    let stored =
        vec![Account { label: "reporting".to_string(), role: Role::Viewer, token_hash: hash }];
    let mut console = match Console::configure("/w", stored, false, "0.0.0.0", None, false) {
        Ok(c) => c,
        Err(e) => panic!("accounts are a credential: {e}"),
    };
    let who = identify(&mut console, &Store::new(), Some(&format!("Bearer {token}")), None)
        .expect("the generated token works");
    assert_eq!(who.role, Role::Viewer);
    assert_eq!(who.label, "reporting");
    assert!(!who.role.allows(Role::Operator), "a viewer must not be able to run pipelines");
}

#[test]
fn roles_include_the_ones_below_them() {
    assert!(Role::Admin.allows(Role::Operator) && Role::Admin.allows(Role::Viewer));
    assert!(Role::Operator.allows(Role::Viewer));
    assert!(!Role::Operator.allows(Role::Admin));
    assert!(!Role::Viewer.allows(Role::Operator));
}

#[test]
fn a_hash_is_salted_and_accepts_its_token_alone() {
    let a = hash_token("t").unwrap();
    let b = hash_token("t").unwrap();
    assert_ne!(a, b, "two hashes of one token share a salt");
    let parsed = PasswordHash::new(&a).unwrap();
    assert!(argon2::Argon2::default().verify_password(b"t", &parsed).is_ok());
    assert!(argon2::Argon2::default().verify_password(b"u", &parsed).is_err());
}

#[test]
fn tokens_are_base64_of_random_bytes() {
    let (a, _) = new_token().unwrap();
    let (b, _) = new_token().unwrap();
    assert_ne!(a, b);
    let raw = base64::engine::general_purpose::URL_SAFE_NO_PAD.decode(&a).unwrap();
    assert_eq!(raw.len(), 32);
}

#[test]
fn an_unreadable_hash_stops_the_server() {
    let good = hash_token("t").unwrap();
    let accounts = vec![
        Account { label: "a".to_string(), role: Role::Viewer, token_hash: good },
        Account { label: "b".to_string(), role: Role::Viewer, token_hash: "plain".to_string() },
    ];
    let e = check_accounts(&accounts, "/w/.duckle/console-users.json").unwrap_err();
    assert!(e.contains("account 'b'"), "{e}");
    assert!(check_accounts(&accounts[..1].to_vec(), "x").is_ok());
    assert!(carries_accounts_over(true, 0));
    assert!(!carries_accounts_over(true, 1));
    assert!(!carries_accounts_over(false, 0));
    assert_eq!(accounts_path("/w", false), "/w/.duckle/console-users.json");
}

#[test]
fn an_open_console_takes_a_caller_for_a_local_admin() {
    let mut local = match Console::configure("/w", vec![], false, "localhost", None, false) {
        Ok(c) => c,
        Err(e) => panic!("{e}"),
    };
    let who = identify(&mut local, &Store::new(), None, None).unwrap();
    assert_eq!((who.label.as_str(), who.role), ("local", Role::Admin));
    assert!(is_loopback("127.0.0.1"));
    assert!(!is_loopback("10.0.0.1"));
}

#[test]
fn cookies_are_found_among_others() {
    assert_eq!(cookie_value("a=1; duckle_console=xyz ; b=2", SESSION_COOKIE).as_deref(), Some("xyz"));
    assert_eq!(cookie_value("a=1", SESSION_COOKIE), None);
    assert_eq!(cookie_value("novalue; duckle_console=1", SESSION_COOKIE).as_deref(), Some("1"));
    assert_eq!(role_from("admin"), Some(Role::Admin));
    assert_eq!(role_from("root"), None);
}

// ---------------------------------------------------------------------------
// The command
// ---------------------------------------------------------------------------

fn args(line: &str) -> Vec<String> {
    line.split(' ').filter(|s| !s.is_empty()).map(|s| s.to_string()).collect()
}

#[test]
fn accounts_are_managed_from_the_command_line() {
    match parse_console_args(&args("add-user ops --role operator --workspace /w")) {
        Ok((ConsoleCommand::AddUser(label, role), ws)) => {
            assert_eq!((label.as_str(), role, ws.as_str()), ("ops", Role::Operator, "/w"));
        }
        other => panic!("{other:?}"),
    }
    match parse_console_args(&args("key-add loader --role viewer --expires-days 30")) {
        Ok((ConsoleCommand::KeyAdd(label, role, days), ws)) => {
            assert_eq!((label.as_str(), role, days), ("loader", Role::Viewer, Some(30)));
            assert_eq!(ws, ".");
        }
        other => panic!("{other:?}"),
    }
    assert!(matches!(parse_console_args(&args("")), Ok((ConsoleCommand::Help, _))));
    assert!(matches!(parse_console_args(&args("-h")), Ok((ConsoleCommand::Help, _))));
    assert!(matches!(parse_console_args(&args("list")), Ok((ConsoleCommand::List, _))));
    assert!(matches!(parse_console_args(&args("key-list")), Ok((ConsoleCommand::KeyList, _))));
    assert!(matches!(parse_console_args(&args("key-revoke x")), Ok((ConsoleCommand::KeyRevoke(_), _))));
}

#[test]
fn what_is_wrong_with_a_command_line_is_said() {
    let said = |line: &str| parse_console_args(&args(line)).unwrap_err();
    assert_eq!(said("add-user"), "add-user needs a label, e.g. `console add-user ops`");
    assert_eq!(said("add-user ops"), "add-user needs --role viewer|operator|admin");
    assert_eq!(said("key-add"), "key-add needs a label, e.g. `key-add nightly-loader`");
    assert_eq!(said("key-add x"), "key-add needs --role viewer|operator|admin");
    assert_eq!(said("key-revoke"), "key-revoke needs a label");
    assert_eq!(said("list --role boss"), "--role must be viewer, operator or admin (got boss)");
    assert_eq!(said("list --role"), "--role must be viewer, operator or admin (got nothing)");
    assert_eq!(said("list --workspace"), "--workspace needs a value");
    assert_eq!(said("list --expires-days"), "--expires-days needs a value");
    assert_eq!(said("list --expires-days soon"), "--expires-days wants a number, got soon");
    assert_eq!(said("list --expires-days 0"), "--expires-days must be greater than zero");
    assert_eq!(said("list --expires-days -3"), "--expires-days must be greater than zero");
    assert_eq!(said("list --fast"), "unknown argument: --fast");
    assert_eq!(said("list one two"), "unknown argument: two");
    assert_eq!(said("dance"), "unknown console command: dance");
}

#[test]
fn accounts_and_keys_are_listed() {
    let accounts = vec![Account {
        label: "ops".to_string(),
        role: Role::Operator,
        token_hash: "x".to_string(),
    }];
    assert_eq!(account_lines(&accounts, "/w/db"), vec![format!("{:<24} {}", "ops", "operator")]);
    assert_eq!(account_lines(&vec![], "/w/db"), vec!["No console accounts in /w/db."]);

    let now = 1_000_000_000;
    let key = |expires_at, last_used_at, revoked| ApiKey {
        label: "loader".to_string(),
        role: Role::Viewer,
        expires_at,
        last_used_at,
        revoked,
    };
    let lines = key_lines(
        &vec![
            key(None, Some(now - 3 * 86_400 - 5), false),
            key(Some(now), None, false),
            key(Some(now + 1), Some(now + 2 * 86_400), true),
        ],
        now,
        "/w/db",
    );
    let row = |state: &str, used: &str| format!("{:<24} {:<9} {:<8} {}", "loader", "viewer", state, used);
    assert_eq!(
        lines,
        vec![
            row("live", "last used 3d ago"),
            row("expired", "never used"),
            row("revoked", "last used -2d ago"),
        ]
    );
    assert_eq!(key_lines(&vec![], now, "/w/db"), vec!["No API keys in /w/db."]);
    assert_eq!(key_expiry(100, Some(2)), Some(100 + 172_800));
    assert_eq!(key_expiry(100, None), None);
    assert!(expiry_fits(100, Some(2)));
    assert!(!expiry_fits(100, Some(i64::MAX)));
}

#[test]
fn what_is_said_when_something_was_added_or_revoked() {
    assert_eq!(
        added_user("ops", Role::Admin, "tok", "/w/db").join("\n"),
        "Added 'ops' as admin.\n\nToken (shown once, not stored):\n  tok\n\nUse it as a header:  Authorization: Bearer tok\nAccounts: /w/db"
    );
    assert_eq!(
        added_key("ci", Role::Viewer, Some(7), "key").join("\n"),
        "Added API key 'ci' as viewer.\nExpires in 7 day(s).\n\nKey (shown once, not stored):\n  key\n\nUse it as a header:  Authorization: Bearer key"
    );
    assert_eq!(
        added_key("ci", Role::Viewer, None, "key")[1],
        "No expiry. Revoke it when the machine is retired."
    );
    assert_eq!(revoked_keys("ci", 0), ("No live API key called 'ci'.".to_string(), 1));
    assert_eq!(
        revoked_keys("ci", 2),
        ("Revoked 2 key(s) called 'ci'. It stops working immediately.".to_string(), 0)
    );
}

#[test]
fn a_hash_is_made_from_the_token_and_the_salt_that_was_drawn() {
    let a = hash_token_with("t", Ok(vec![0u8; 16])).unwrap();
    assert!(a.starts_with("$argon2id$v=19$m=19456,t=2,p=1$AAAAAAAAAAAAAAAAAAAAAA$"), "{a}");
    assert_eq!(hash_token_with("t", Ok(vec![0u8; 16])).unwrap(), a);
    assert_ne!(hash_token_with("u", Ok(vec![0u8; 16])).unwrap(), a);
    assert_ne!(hash_token_with("t", Ok(vec![1u8; 16])).unwrap(), a);
    assert_eq!(hash_token_with("t", Err("no entropy".to_string())).unwrap_err(), "salt rng: no entropy");
}

#[test]
fn a_token_is_made_from_the_bytes_that_were_drawn() {
    let (token, hash) = new_token_with(&vec![0u8; 32], Ok(vec![7u8; 16])).unwrap();
    assert_eq!(token, "A".repeat(43));
    assert_eq!(hash, hash_token_with(&token, Ok(vec![7u8; 16])).unwrap());
    let failed = new_token_with(&vec![0u8; 32], Err("no entropy".to_string()));
    assert_eq!(failed.unwrap_err(), "salt rng: no entropy");
}

#[test]
fn a_session_is_opened_only_with_bytes_for_its_id() {
    let who = || Identity { label: "ops".to_string(), role: Role::Operator };
    let (sid, opened) = open_session(who(), Ok(vec![255u8; 32])).unwrap();
    assert_eq!(sid, format!("{}8", "_".repeat(42)));
    assert_eq!(opened.label, "ops");
    assert!(open_session(who(), Err("no entropy".to_string())).is_none());
}

#[test]
fn signing_out_ends_only_the_session_that_was_named() {
    let mut store = Store::new();
    let mut console = with_token("s3cret-token");
    let mut cookies = Vec::new();
    for _ in 0..2 {
        let (sid, who) = console.sign_in("s3cret-token").expect("signs in");
        cookies.push(format!("{SESSION_COOKIE}={sid}"));
        store.sessions.push((sid, who, session_expiry(1_000)));
    }
    let gone = console.sign_out(Some(&cookies[0])).expect("names the session to forget");
    store.sessions.retain(|s| s.0 != gone);
    assert!(identify(&mut console, &store, None, Some(&cookies[0])).is_none());
    let other = identify(&mut console, &store, None, Some(&cookies[1])).expect("still signed in");
    assert_eq!(other.label, "token");
    assert!(console.sign_out(None).is_none());
}

#[test]
fn the_accounts_are_named_where_they_are_kept_on_windows_too() {
    assert_eq!(accounts_path("C:\\ws", true), "C:\\ws\\.duckle\\console-users.json");
    match Console::configure("C:\\ws", vec![], false, "0.0.0.0", None, true) {
        Err(e) => assert!(e.contains("C:\\ws\\.duckle\\console-users.json"), "{e}"),
        Ok(_) => panic!("must refuse to start"),
    }
}
