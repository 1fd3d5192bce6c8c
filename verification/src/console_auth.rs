//! Who may use the management console, and what they are allowed to do.
//!
//! The console can run any pipeline in the workspace, and a pipeline can run
//! shell and SQL, so reaching it is equivalent to running code on the host.
//!
//! Loopback is left alone. A console on `127.0.0.1` is reachable only by
//! someone who is already on the machine, and requiring a token there would
//! break the ordinary local workflow to protect against an attacker who has
//! already won. Binding anywhere else refuses to start without a credential, so
//! the exposure that mattered cannot happen silently.
//!
//! Roles are viewer, operator and admin. The split follows what an action can
//! destroy rather than which screen it lives on: reading is viewer, causing a
//! pipeline to run or changing when it runs is operator, and touching
//! credentials or the workspace itself is admin.
use crate::paths::{join, under};
use crate::text::{
    after_prefix, begins, ends, find, glue2, glue3, lemma_find, same, split, split_first, split_on, split_once, str_opt,
    strip_prefix, text_opt, texts, trim, trimmed,
};
use argon2::password_hash::{PasswordHash, PasswordHasher, PasswordVerifier, SaltString};
use argon2::Argon2;
use base64::Engine as _;
use sha2::{Digest, Sha256};
use vstd::prelude::*;
use vstd::string::*;
use vstd::utf8::{encode_utf8, is_ascii_chars, is_ascii_chars_encode_utf8};

verus! {

/// What a caller is allowed to do. Ordered: each role includes the ones before.
#[derive(Debug, Clone, Copy, PartialEq, Eq, Structural)]
pub enum Role {
    /// Read the dashboard, runs and logs. Changes nothing.
    Viewer,
    /// Everything a viewer can do, plus run a pipeline and set its schedule.
    Operator,
    /// Everything an operator can do, plus credentials, connections and the
    /// workspace itself.
    Admin,
}

/// How far up a role stands.
pub open spec fn rank(r: Role) -> int {
    match r {
        Role::Viewer => 0,
        Role::Operator => 1,
        Role::Admin => 2,
    }
}

/// The name of a role.
pub open spec fn role_name(r: Role) -> Seq<char> {
    match r {
        Role::Viewer => "viewer"@,
        Role::Operator => "operator"@,
        Role::Admin => "admin"@,
    }
}

/// The role with that name.
pub open spec fn role_called(s: Seq<char>) -> Option<Role> {
    if s == "viewer"@ {
        Some(Role::Viewer)
    } else if s == "operator"@ {
        Some(Role::Operator)
    } else if s == "admin"@ {
        Some(Role::Admin)
    } else {
        None
    }
}

impl Role {
    fn rank(self) -> (r: u8)
        ensures
            r == rank(self),
    {
        match self {
            Role::Viewer => 0,
            Role::Operator => 1,
            Role::Admin => 2,
        }
    }

    /// Whether this role satisfies a requirement of `needed`.
    pub fn allows(self, needed: Role) -> (r: bool)
        ensures
            r == (rank(self) >= rank(needed)),
    {
        self.rank() >= needed.rank()
    }

    pub fn as_str(self) -> (r: &'static str)
        ensures
            r@ == role_name(self),
    {
        match self {
            Role::Viewer => "viewer",
            Role::Operator => "operator",
            Role::Admin => "admin",
        }
    }
}

/// The role with that name.
pub fn role_from(s: &str) -> (r: Option<Role>)
    ensures
        r == role_called(s@),
{
    if same(s, "viewer") {
        Some(Role::Viewer)
    } else if same(s, "operator") {
        Some(Role::Operator)
    } else if same(s, "admin") {
        Some(Role::Admin)
    } else {
        None
    }
}

/// Whatever one role may do, every role above it may do.
pub proof fn law_roles_include_those_below(low: Role, high: Role, needed: Role)
    requires
        rank(low) >= rank(needed),
        rank(high) >= rank(low),
    ensures
        rank(high) >= rank(needed),
        rank(Role::Admin) >= rank(needed),
{
}

/// A role is found again by its name.
pub proof fn law_a_role_keeps_its_name(r: Role)
    ensures
        role_called(role_name(r)) == Some(r),
{
    reveal_strlit("viewer");
    reveal_strlit("operator");
    reveal_strlit("admin");
    assert("viewer"@.len() == 6 && "operator"@.len() == 8 && "admin"@.len() == 5);
}

/// The caller behind one request, as far as the console can tell.
#[derive(Debug, Clone)]
pub struct Identity {
    /// Shown in the audit log. Never a token or any part of one.
    pub label: String,
    pub role: Role,
}

/// Who a caller is.
pub struct Person {
    pub label: Seq<char>,
    pub role: Role,
}

impl View for Identity {
    type V = Person;

    open spec fn view(&self) -> Person {
        Person { label: self.label@, role: self.role }
    }
}

/// Who an optional caller is.
pub open spec fn person_opt(i: Option<Identity>) -> Option<Person> {
    match i {
        Some(x) => Some(x@),
        None => None,
    }
}

impl Identity {
    /// Another of the same.
    pub fn copy(&self) -> (r: Identity)
        ensures
            r@ == self@,
    {
        Identity { label: self.label.clone(), role: self.role }
    }
}

/// One console account, as stored. The token itself is never written down.
#[derive(Clone)]
pub struct Account {
    pub label: String,
    pub role: Role,
    /// PHC-format Argon2id hash. A token may be chosen by a person, so it is
    /// treated as a password rather than as high-entropy key material.
    pub token_hash: String,
}

/// The accounts file of an earlier version, in a workspace.
pub fn accounts_path(workspace: &str, windows: bool) -> (r: String)
    ensures
        r@ == accounts_file(workspace@, windows),
{
    let dir = join(workspace, ".duckle", windows);
    join(dir.as_str(), "console-users.json", windows)
}

/// The accounts file of an earlier version, in a workspace.
pub open spec fn accounts_file(workspace: Seq<char>, windows: bool) -> Seq<char> {
    under(under(workspace, ".duckle"@, windows), "console-users.json"@, windows)
}

// ---------------------------------------------------------------------------
// Outside work on credentials
// ---------------------------------------------------------------------------

/// The SHA-256 digest of bytes.
pub uninterp spec fn sha256(bytes: Seq<u8>) -> Seq<u8>;

/// Whether a text is a password hash in the PHC format.
pub uninterp spec fn is_phc(text: Seq<char>) -> bool;

/// Whether a password is the one that a stored hash was made from.
pub uninterp spec fn hash_accepts(hash: Seq<char>, password: Seq<u8>) -> bool;

/// The hash of a password under a salt, in the PHC format, or why there is none.
pub uninterp spec fn salted_hash(password: Seq<u8>, salt: Seq<u8>) -> Result<Seq<char>, Seq<char>>;

/// `Sha256::digest`. The result is named; it has 32 bytes.
#[verifier::external_body]
fn digest(bytes: &[u8]) -> (r: Vec<u8>)
    ensures
        r@ == sha256(bytes@),
        r@.len() == 32,
{
    Sha256::digest(bytes).to_vec()
}

/// `PasswordHash::new`, as far as whether it reads the text. The result is
/// named.
#[verifier::external_body]
fn reads_as_hash(text: &str) -> (r: bool)
    ensures
        r == is_phc(text@),
{
    PasswordHash::new(text).is_ok()
}

/// `Argon2::verify_password`, on a hash read by `PasswordHash::new`; a text that
/// is no hash accepts nothing. The result is named.
#[verifier::external_body]
fn accepts(hash: &str, password: &[u8]) -> (r: bool)
    ensures
        r == hash_accepts(hash@, password@),
{
    match PasswordHash::new(hash) {
        Ok(parsed) => Argon2::default().verify_password(password, &parsed).is_ok(),
        Err(_) => false,
    }
}

/// The longest password that can be hashed, in bytes.
pub const LONGEST_PASSWORD: u64 = 4_294_967_295;

/// `Argon2::hash_password` under a salt that `SaltString::encode_b64` writes
/// out. The result is named. A hash is in the PHC format, and the password it
/// was made from is accepted against it; with a salt of the length asked for
/// here, only a password that is too long has none.
#[verifier::external_body]
fn hash_under(password: &[u8], salt: &[u8]) -> (r: Result<String, String>)
    requires
        8 <= salt@.len() <= 48,
    ensures
        text_result(r) == salted_hash(password@, salt@),
        r matches Ok(h) ==> is_phc(h@) && hash_accepts(h@, password@),
        r is Ok == (password@.len() <= LONGEST_PASSWORD),
{
    let salt = SaltString::encode_b64(salt).map_err(|e| e.to_string())?;
    Argon2::default()
        .hash_password(password, &salt)
        .map(|h| h.to_string())
        .map_err(|e| e.to_string())
}

/// `getrandom::fill` on a buffer of `n` bytes. Nothing is claimed of the bytes
/// but how many there are.
#[verifier::external_body]
fn random_bytes(n: usize) -> (r: Result<Vec<u8>, String>)
    ensures
        match r {
            Ok(v) => v@.len() == n,
            Err(_) => true,
        },
{
    let mut raw = vec![0u8; n];
    getrandom::fill(&mut raw).map_err(|e| e.to_string())?;
    Ok(raw)
}

/// The base64 digit for `n`, in the alphabet that is safe in a URL.
pub open spec fn base64_digit(n: int) -> char {
    if n < 26 {
        (65 + n) as char
    } else if n < 52 {
        (97 + n - 26) as char
    } else if n < 62 {
        (48 + n - 52) as char
    } else if n == 62 {
        '-'
    } else {
        '_'
    }
}

/// Bytes in base64 with the alphabet that is safe in a URL, and no padding.
pub open spec fn base64_url(b: Seq<u8>) -> Seq<char>
    decreases b.len(),
{
    if b.len() == 0 {
        Seq::empty()
    } else if b.len() == 1 {
        seq![base64_digit(b[0] as int / 4), base64_digit(b[0] % 4 * 16)]
    } else if b.len() == 2 {
        seq![
            base64_digit(b[0] as int / 4),
            base64_digit(b[0] % 4 * 16 + b[1] / 16),
            base64_digit(b[1] % 16 * 4),
        ]
    } else {
        seq![
            base64_digit(b[0] as int / 4),
            base64_digit(b[0] % 4 * 16 + b[1] / 16),
            base64_digit(b[1] % 16 * 4 + b[2] / 64),
            base64_digit((b[2] % 64) as int),
        ] + base64_url(b.skip(3))
    }
}

/// Every digit is a letter, a figure, `-` or `_`.
pub proof fn lemma_base64_is_plain(b: Seq<u8>)
    ensures
        forall|i: int|
            0 <= i < base64_url(b).len() ==> {
                let c = #[trigger] base64_url(b)[i];
                'a' <= c <= 'z' || 'A' <= c <= 'Z' || '0' <= c <= '9' || c == '-' || c == '_'
            },
    decreases b.len(),
{
    if b.len() > 2 {
        lemma_base64_is_plain(b.skip(3));
        let rest = base64_url(b.skip(3));
        assert forall|i: int| 0 <= i < base64_url(b).len() implies {
            let c = #[trigger] base64_url(b)[i];
            'a' <= c <= 'z' || 'A' <= c <= 'Z' || '0' <= c <= '9' || c == '-' || c == '_'
        } by {
            if i >= 4 {
                assert(base64_url(b)[i] == rest[i - 4]);
            }
        }
    }
}

/// `Engine::encode` of base64's `URL_SAFE_NO_PAD`: three bytes to four digits,
/// and two or three digits for what is left over.
#[verifier::external_body]
fn in_base64(bytes: &[u8]) -> (r: String)
    ensures
        r@ == base64_url(bytes@),
{
    base64::engine::general_purpose::URL_SAFE_NO_PAD.encode(bytes)
}

// ---------------------------------------------------------------------------
// Tokens and sessions
// ---------------------------------------------------------------------------

/// The cookie that carries a session id.
pub const SESSION_COOKIE: &'static str = "duckle_console";

/// How long a session lasts before it has to be earned again, in seconds. A
/// working day, so nobody is interrupted mid-shift and nobody holds a credential
/// for a fortnight.
pub const SESSION_TTL_SECS: i64 = 43_200;

/// Whether a session that starts now runs out at that second.
pub open spec fn is_session_expiry(now_secs: i64, r: i64) -> bool {
    r == now_secs + SESSION_TTL_SECS
}

/// When a session that starts now runs out.
pub fn session_expiry(now_secs: i64) -> (r: i64)
    requires
        now_secs <= i64::MAX - SESSION_TTL_SECS,
    ensures
        is_session_expiry(now_secs, r),
{
    now_secs + SESSION_TTL_SECS
}

/// The value of the first cookie with that name.
pub open spec fn cookie_in(pairs: Seq<Seq<char>>, name: Seq<char>) -> Option<Seq<char>>
    decreases pairs.len(),
{
    if pairs.len() == 0 {
        None
    } else {
        match split_first(pairs[0], '=') {
            Some(p) => if trimmed(p.0) == name {
                Some(trimmed(p.1))
            } else {
                cookie_in(pairs.drop_first(), name)
            },
            None => cookie_in(pairs.drop_first(), name),
        }
    }
}

/// Pull one cookie's value out of a `Cookie:` header.
pub fn cookie_value(header: &str, name: &str) -> (r: Option<String>)
    ensures
        text_opt(r) == cookie_in(split(header@, ';'), name@),
{
    let pairs = split_on(header, ';');
    let ghost all = texts(pairs@);
    let mut i: usize = 0;
    assert(all.skip(0) == all);
    while i < pairs.len()
        invariant
            i <= pairs@.len(),
            all == texts(pairs@),
            all == split(header@, ';'),
            cookie_in(all, name@) == cookie_in(all.skip(i as int), name@),
        decreases pairs@.len() - i,
    {
        assert(all.skip(i as int)[0] == pairs@[i as int]@);
        assert(all.skip(i as int).drop_first() == all.skip(i + 1));
        if let Some((k, v)) = split_once(pairs[i].as_str(), '=') {
            let key = trim(k.as_str());
            if same(key.as_str(), name) {
                return Some(trim(v.as_str()));
            }
        }
        i = i + 1;
    }
    None
}

/// The session id in a `Cookie:` header.
pub open spec fn session_in(cookie: Option<Seq<char>>) -> Option<Seq<char>> {
    match cookie {
        Some(c) => cookie_in(split(c, ';'), SESSION_COOKIE@),
        None => None,
    }
}

/// The session id in a `Cookie:` header.
fn session_of(cookie: Option<&str>) -> (r: Option<String>)
    ensures
        text_opt(r) == session_in(str_opt(cookie)),
{
    match cookie {
        Some(c) => cookie_value(c, SESSION_COOKIE),
        None => None,
    }
}

/// The token in an `Authorization:` header.
pub open spec fn bearer_in(authorization: Option<Seq<char>>) -> Option<Seq<char>> {
    match authorization {
        Some(a) => match after_prefix(a, "Bearer "@) {
            Some(t) => Some(trimmed(t)),
            None => None,
        },
        None => None,
    }
}

/// The token in an `Authorization:` header.
fn bearer_of(authorization: Option<&str>) -> (r: Option<String>)
    ensures
        text_opt(r) == bearer_in(str_opt(authorization)),
{
    match authorization {
        Some(a) => match strip_prefix(a, "Bearer ") {
            Some(t) => Some(trim(t.as_str())),
            None => None,
        },
        None => None,
    }
}

/// The ways to write a bind to this machine alone.
pub open spec fn local_bind(host: Seq<char>) -> bool {
    host == "127.0.0.1"@ || host == "localhost"@ || host == "::1"@ || host == "[::1]"@
}

/// Whether a host is this machine alone.
pub fn is_loopback(host: &str) -> (r: bool)
    ensures
        r == local_bind(host@),
{
    same(host, "127.0.0.1") || same(host, "localhost") || same(host, "::1") || same(host, "[::1]")
}

/// A text or an error, as the characters they hold.
pub open spec fn text_result(r: Result<String, String>) -> Result<Seq<char>, Seq<char>> {
    match r {
        Ok(s) => Ok(s@),
        Err(e) => Err(e@),
    }
}

/// What the random source gave, as the bytes or the characters it holds.
pub open spec fn draw_of(r: Result<Vec<u8>, String>) -> Result<Seq<u8>, Seq<char>> {
    match r {
        Ok(b) => Ok(b@),
        Err(e) => Err(e@),
    }
}

/// Whether the random source can give this when it is asked for `n` bytes: that
/// many, or a reason why not.
pub open spec fn is_draw(d: Result<Seq<u8>, Seq<char>>, n: nat) -> bool {
    d matches Ok(b) ==> b.len() == n
}

/// The hash to store for a token, given what was drawn for the salt.
pub open spec fn hash_from(token: Seq<char>, salt: Result<Seq<u8>, Seq<char>>) -> Result<
    Seq<char>,
    Seq<char>,
> {
    match salt {
        Ok(b) => match salted_hash(encode_utf8(token), b) {
            Ok(h) => Ok(h),
            Err(e) => Err("hash token: "@ + e),
        },
        Err(e) => Err("salt rng: "@ + e),
    }
}

/// Whether a token is short enough to be hashed.
pub open spec fn can_hash(token: Seq<char>) -> bool {
    encode_utf8(token).len() <= LONGEST_PASSWORD
}

/// The hash to store for a token, given what was drawn for the salt.
pub fn hash_token_with(token: &str, salt: Result<Vec<u8>, String>) -> (r: Result<String, String>)
    requires
        is_draw(draw_of(salt), 16),
    ensures
        text_result(r) == hash_from(token@, draw_of(salt)),
        r is Ok == (salt is Ok && can_hash(token@)),
        r matches Ok(h) ==> is_phc(h@) && hash_accepts(h@, encode_utf8(token@)),
{
    match salt {
        Ok(b) => match hash_under(token.as_bytes(), b.as_slice()) {
            Ok(h) => Ok(h),
            Err(e) => Err(glue2("hash token: ", e.as_str())),
        },
        Err(e) => Err(glue2("salt rng: ", e.as_str())),
    }
}

/// The hash to store for a token, under a fresh salt. There is one unless the
/// random source failed or the token is too long.
pub fn hash_token(token: &str) -> (r: Result<String, String>)
    ensures
        exists|salt: Result<Seq<u8>, Seq<char>>|
            {
                &&& is_draw(salt, 16)
                &&& text_result(r) == #[trigger] hash_from(token@, salt)
                &&& r is Ok == (salt is Ok && can_hash(token@))
            },
        r matches Ok(h) ==> is_phc(h@) && hash_accepts(h@, encode_utf8(token@)),
{
    let salt = random_bytes(16);
    let ghost drawn = draw_of(salt);
    let r = hash_token_with(token, salt);
    assert(is_draw(drawn, 16) && text_result(r) == hash_from(token@, drawn));
    r
}

/// The text that carries fresh random bytes: a token or a session id.
pub open spec fn carries_random(s: Seq<char>) -> bool {
    exists|raw: Seq<u8>| raw.len() == 32 && s == #[trigger] base64_url(raw)
}

/// A token and its hash, or an error, as the characters they hold.
pub open spec fn pair_result(r: Result<(String, String), String>) -> Result<
    (Seq<char>, Seq<char>),
    Seq<char>,
> {
    match r {
        Ok(t) => Ok((t.0@, t.1@)),
        Err(e) => Err(e@),
    }
}

/// A new token and its hash, given what was drawn for the token and for the
/// salt.
pub open spec fn token_from(
    raw: Result<Seq<u8>, Seq<char>>,
    salt: Result<Seq<u8>, Seq<char>>,
) -> Result<(Seq<char>, Seq<char>), Seq<char>> {
    match raw {
        Ok(b) => match hash_from(base64_url(b), salt) {
            Ok(h) => Ok((base64_url(b), h)),
            Err(e) => Err(e),
        },
        Err(e) => Err("token rng: "@ + e),
    }
}

proof fn lemma_base64_is_short(b: Seq<u8>)
    ensures
        base64_url(b).len() <= 2 * b.len(),
    decreases b.len(),
{
    if b.len() > 2 {
        lemma_base64_is_short(b.skip(3));
    }
}

/// A new token is short enough to be hashed.
proof fn lemma_tokens_are_short(raw: Seq<u8>)
    requires
        raw.len() == 32,
    ensures
        can_hash(base64_url(raw)),
{
    lemma_base64_is_short(raw);
    lemma_base64_is_plain(raw);
    assert(is_ascii_chars(base64_url(raw)));
    is_ascii_chars_encode_utf8(base64_url(raw));
}

/// A new token and its hash, given the bytes drawn for the token and what was
/// drawn for the salt.
pub fn new_token_with(raw: &Vec<u8>, salt: Result<Vec<u8>, String>) -> (r: Result<
    (String, String),
    String,
>)
    requires
        raw@.len() == 32,
        is_draw(draw_of(salt), 16),
    ensures
        pair_result(r) == token_from(Ok(raw@), draw_of(salt)),
        r is Ok == salt is Ok,
        r matches Ok(t) ==> is_phc(t.1@) && hash_accepts(t.1@, encode_utf8(t.0@)),
{
    let token = in_base64(raw.as_slice());
    proof {
        lemma_tokens_are_short(raw@);
    }
    match hash_token_with(token.as_str(), salt) {
        Ok(hash) => Ok((token, hash)),
        Err(e) => Err(e),
    }
}

/// A freshly generated token and the hash to store for it. The token is not
/// stored anywhere. There is one unless the random source failed.
pub fn new_token() -> (r: Result<(String, String), String>)
    ensures
        exists|raw: Result<Seq<u8>, Seq<char>>, salt: Result<Seq<u8>, Seq<char>>|
            {
                &&& is_draw(raw, 32)
                &&& is_draw(salt, 16)
                &&& pair_result(r) == #[trigger] token_from(raw, salt)
                &&& r is Ok == (raw is Ok && salt is Ok)
            },
        r matches Ok(t) ==> carries_random(t.0@) && is_phc(t.1@) && hash_accepts(
            t.1@,
            encode_utf8(t.0@),
        ),
{
    match random_bytes(32) {
        Ok(raw) => {
            let salt = random_bytes(16);
            let ghost drawn = draw_of(salt);
            let r = new_token_with(&raw, salt);
            proof {
                let first: Result<Seq<u8>, Seq<char>> = Ok(raw@);
                assert(is_draw(first, 32) && is_draw(drawn, 16) && pair_result(r) == token_from(
                    first,
                    drawn,
                ));
                assert(r matches Ok(t) ==> t.0@ == base64_url(raw@));
            }
            r
        },
        Err(e) => {
            let r = Err(glue2("token rng: ", e.as_str()));
            proof {
                let first: Result<Seq<u8>, Seq<char>> = Err(e@);
                assert(is_draw(first, 32) && is_draw(first, 16) && pair_result(r) == token_from(
                    first,
                    first,
                ));
            }
            r
        },
    }
}

/// The first account that is not in order.
pub open spec fn bad_account(v: Seq<Account>) -> Option<int>
    decreases v.len(),
{
    if v.len() == 0 {
        None
    } else {
        match bad_account(v.drop_last()) {
            Some(i) => Some(i),
            None => if is_phc(v.last().token_hash@) {
                None
            } else {
                Some(v.len() - 1)
            },
        }
    }
}

/// Check the accounts read from the accounts file. One whose hash cannot be read
/// stops the server: to treat it as no account would silently reopen the
/// console.
pub fn check_accounts(accounts: &Vec<Account>, path: &str) -> (r: Result<(), String>)
    ensures
        match bad_account(accounts@) {
            Some(i) => 0 <= i < accounts@.len() && (r matches Err(e) && e@ == "account '"@
                + accounts@[i].label@ + "' in "@ + path@
                + " has an unreadable tokenHash; expected an Argon2 PHC string"@),
            None => r is Ok,
        },
{
    let mut i: usize = 0;
    while i < accounts.len()
        invariant
            i <= accounts@.len(),
            bad_account(accounts@.take(i as int)) is None,
        decreases accounts@.len() - i,
    {
        let a = &accounts[i];
        assert(accounts@.take(i + 1).drop_last() == accounts@.take(i as int));
        if !reads_as_hash(a.token_hash.as_str()) {
            proof {
                lemma_bad_account(accounts@, i as int);
            }
            let mut why = glue3("account '", a.label.as_str(), "' in ");
            why.append(path);
            why.append(" has an unreadable tokenHash; expected an Argon2 PHC string");
            return Err(why);
        }
        i = i + 1;
    }
    assert(accounts@.take(i as int) == accounts@);
    Ok(())
}

proof fn lemma_bad_account(v: Seq<Account>, i: int)
    requires
        0 <= i < v.len(),
        bad_account(v.take(i)) is None,
        !is_phc(v[i].token_hash@),
    ensures
        bad_account(v) == Some(i),
    decreases v.len(),
{
    if i == v.len() - 1 {
        assert(v.drop_last() == v.take(i));
    } else {
        assert(v.drop_last().take(i) == v.take(i));
        lemma_bad_account(v.drop_last(), i);
    }
}

/// Whether a store with so many accounts takes those of the accounts file.
pub open spec fn takes_accounts(file_exists: bool, stored_accounts: nat) -> bool {
    file_exists && stored_accounts == 0
}

/// Whether the accounts file is carried into the store: only when the store has
/// no accounts, so that one which was deliberately removed later does not come
/// back.
pub fn carries_accounts_over(file_exists: bool, stored_accounts: usize) -> (r: bool)
    ensures
        r == takes_accounts(file_exists, stored_accounts as nat),
{
    file_exists && stored_accounts == 0
}

// ---------------------------------------------------------------------------
// The console
// ---------------------------------------------------------------------------

/// The console's authentication policy for one running server.
pub struct Console {
    accounts: Vec<Account>,
    /// True when nothing is configured and the bind is loopback, which is the
    /// local case: the caller is trusted because they are already on the
    /// machine.
    open: bool,
    /// Digests of tokens already verified once, and whose they are, so an API
    /// client polling every few seconds does not pay for a password hash on
    /// every request. Only ever populated with tokens that verified.
    verified: Vec<(Vec<u8>, Identity)>,
}

/// The person whose account accepts a token: the first such account's.
pub open spec fn holder(accounts: Seq<Account>, token: Seq<char>) -> Option<Person>
    decreases accounts.len(),
{
    if accounts.len() == 0 {
        None
    } else {
        match holder(accounts.drop_last(), token) {
            Some(p) => Some(p),
            None => if hash_accepts(accounts.last().token_hash@, encode_utf8(token)) {
                Some(Person { label: accounts.last().label@, role: accounts.last().role })
            } else {
                None
            },
        }
    }
}

/// The person that a digest was remembered for.
spec fn remembered(cache: Seq<(Vec<u8>, Identity)>, digest: Seq<u8>) -> Option<Person>
    decreases cache.len(),
{
    if cache.len() == 0 {
        None
    } else {
        match remembered(cache.drop_last(), digest) {
            Some(p) => Some(p),
            None => if cache.last().0@ == digest {
                Some(cache.last().1@)
            } else {
                None
            },
        }
    }
}

/// Whether a digest is that of a token which an account accepts as this
/// person's.
pub open spec fn vouched(accounts: Seq<Account>, digest: Seq<u8>, who: Person) -> bool {
    exists|t: Seq<char>|
        #![trigger encode_utf8(t)]
        sha256(encode_utf8(t)) == digest && holder(accounts, t) == Some(who)
}

/// The refusal to serve beyond this machine without a credential.
pub open spec fn exposed(workspace: Seq<char>, host: Seq<char>, windows: bool) -> Seq<char> {
    "--host "@ + host
        + " would expose this beyond the local machine, and it can run any pipeline in the workspace. Set a token first:\n    DUCKLE_CONSOLE_TOKEN=<secret>\nor create accounts with roles:\n    duckle-runner console add-user <label> --role viewer|operator|admin\nAccounts are read from "@
        + accounts_file(workspace, windows)
}

/// What was found of a credential in the store.
pub enum Lookup {
    /// The store has not been asked.
    NotAsked,
    /// The store knows no such credential, or it has run out.
    Missing,
    Found(Identity),
}

/// What has to be known next to say who is calling.
pub enum Ask {
    /// Look this session id up.
    Session(String),
    /// Look this API key up.
    Key(String),
    /// Nothing more: this is who it is, or nobody.
    Answer(Option<Identity>),
}

/// What an open console takes a caller for.
pub open spec fn local_admin() -> Person {
    Person { label: "local"@, role: Role::Admin }
}

/// What has to be known next, with texts as sequences.
pub enum AskView {
    Session(Seq<char>),
    Key(Seq<char>),
    Answer(Option<Person>),
}

/// What has to be known next.
pub open spec fn ask_view(a: Ask) -> AskView {
    match a {
        Ask::Session(s) => AskView::Session(s@),
        Ask::Key(k) => AskView::Key(k@),
        Ask::Answer(who) => AskView::Answer(person_opt(who)),
    }
}

/// Whether it comes to trying the token of a request against the accounts.
pub open spec fn tries_token(
    open: bool,
    sid: Option<Seq<char>>,
    token: Option<Seq<char>>,
    session: Lookup,
    key: Lookup,
) -> bool {
    !open && token is Some && key is Missing && (sid is None || session is Missing)
}

/// What has to be known next to say who is calling, given the session id and the
/// token of the request, what was found of the two, and whom the token is taken
/// as.
pub open spec fn asked(
    open: bool,
    sid: Option<Seq<char>>,
    token: Option<Seq<char>>,
    session: Lookup,
    key: Lookup,
    taken_as: Option<Person>,
) -> AskView {
    if open {
        AskView::Answer(Some(local_admin()))
    } else if sid is Some && session is NotAsked {
        AskView::Session(sid->0)
    } else if sid is Some && session is Found {
        AskView::Answer(Some(session->Found_0@))
    } else if token is None {
        AskView::Answer(None)
    } else if key is NotAsked {
        AskView::Key(token->0)
    } else if key is Found {
        AskView::Answer(Some(key->Found_0@))
    } else {
        AskView::Answer(taken_as)
    }
}

/// Whether a token was tried, and what came of it is remembered by its digest.
pub open spec fn remembers(before: Console, after: Console, token: Seq<char>) -> bool {
    let d = sha256(encode_utf8(token));
    &&& after.known(d) == (if before.bearer(token) is Some {
        before.bearer(token)
    } else {
        before.known(d)
    })
    &&& forall|other: Seq<u8>| other != d ==> after.known(other) == before.known(other)
}

/// Whether a lookup says what a store holds for a credential.
pub open spec fn truthful(
    found: Lookup,
    credential: Option<Seq<char>>,
    store: Map<Seq<char>, Person>,
) -> bool {
    match found {
        Lookup::NotAsked => true,
        Lookup::Missing => credential is Some ==> !store.dom().contains(credential->0),
        Lookup::Found(who) => credential is Some && store.dom().contains(credential->0)
            && store[credential->0] == who@,
    }
}

/// Who is calling, by the live sessions and API keys in the store.
pub open spec fn caller(
    open: bool,
    sid: Option<Seq<char>>,
    token: Option<Seq<char>>,
    sessions: Map<Seq<char>, Person>,
    keys: Map<Seq<char>, Person>,
    taken_as: Option<Person>,
) -> Option<Person> {
    if open {
        Some(local_admin())
    } else if sid is Some && sessions.dom().contains(sid->0) {
        Some(sessions[sid->0])
    } else if token is None {
        None
    } else if keys.dom().contains(token->0) {
        Some(keys[token->0])
    } else {
        taken_as
    }
}

/// Asking leads to the one whom the store and the accounts know the caller as.
pub proof fn law_asking_leads_to_the_caller(
    open: bool,
    sid: Option<Seq<char>>,
    token: Option<Seq<char>>,
    session: Lookup,
    key: Lookup,
    sessions: Map<Seq<char>, Person>,
    keys: Map<Seq<char>, Person>,
    taken_as: Option<Person>,
)
    requires
        truthful(session, sid, sessions),
        truthful(key, token, keys),
    ensures
        asked(open, sid, token, session, key, taken_as) matches AskView::Answer(who) ==> who == caller(
            open,
            sid,
            token,
            sessions,
            keys,
            taken_as,
        ),
{
}

/// Who was signed in and under which session id.
pub open spec fn signed(r: Option<(String, Identity)>) -> Option<(Seq<char>, Person)> {
    match r {
        Some(s) => Some((s.0@, s.1@)),
        None => None,
    }
}

/// The session of a person, given what was drawn for its id. Nobody has none.
pub open spec fn session_from(who: Option<Person>, raw: Result<Seq<u8>, Seq<char>>) -> Option<
    (Seq<char>, Person),
> {
    match (who, raw) {
        (Some(p), Ok(b)) => Some((base64_url(b), p)),
        _ => None,
    }
}

/// The session of someone whose token was accepted, given what was drawn for its
/// id.
pub fn open_session(who: Identity, raw: Result<Vec<u8>, String>) -> (r: Option<(String, Identity)>)
    ensures
        signed(r) == session_from(Some(who@), draw_of(raw)),
{
    match raw {
        Ok(b) => Some((in_base64(b.as_slice()), who)),
        Err(_) => None,
    }
}

/// What a console comes to, once the hash of its token is there.
pub open spec fn is_settled(
    workspace: &str,
    stored: Vec<Account>,
    has_machine_credential: bool,
    host: &str,
    token_hash: Option<String>,
    windows: bool,
    r: Result<Console, String>,
) -> bool {
    match r {
        Ok(c) => {
            &&& token_hash is Some || stored@.len() > 0 || has_machine_credential || local_bind(host@)
            &&& c.admits_anyone() == (token_hash is None && stored@.len() == 0
                && !has_machine_credential)
            &&& forall|d: Seq<u8>| c.known(d) is None
            &&& match token_hash {
                Some(h) => c.accounts() == stored@.push(
                    (Account { label: c.accounts().last().label, role: Role::Admin, token_hash: h }),
                ) && c.accounts().last().label@ == "token"@,
                None => c.accounts() == stored@,
            }
        },
        Err(e) => {
            &&& token_hash is None && stored@.len() == 0 && !has_machine_credential
                && !local_bind(host@)
            &&& e@ == exposed(workspace@, host@, windows)
        },
    }
}

/// What a console comes to.
pub open spec fn is_configured(
    workspace: &str,
    stored: Vec<Account>,
    has_machine_credential: bool,
    host: &str,
    token: Option<&str>,
    windows: bool,
    r: Result<Console, String>,
) -> bool {
    &&& (r matches Ok(c) ==> c.admits_anyone() ==> local_bind(host@))
    &&& match token {
        None => match r {
            Ok(c) => {
                &&& stored@.len() > 0 || has_machine_credential || local_bind(host@)
                &&& c.admits_anyone() == (stored@.len() == 0 && !has_machine_credential)
                &&& c.accounts() == stored@
                &&& forall|d: Seq<u8>| c.known(d) is None
            },
            Err(e) => {
                &&& stored@.len() == 0 && !has_machine_credential && !local_bind(host@)
                &&& e@ == exposed(workspace@, host@, windows)
            },
        },
        Some(t) => if trimmed(t@).len() == 0 {
            r matches Err(e) && e@ == "--token was given but is empty"@
        } else {
            match r {
                Ok(c) => {
                    &&& !c.admits_anyone()
                    &&& c.accounts().len() == stored@.len() + 1
                    &&& c.accounts().drop_last() == stored@
                    &&& c.accounts().last().label@ == "token"@
                    &&& c.accounts().last().role == Role::Admin
                    &&& hash_accepts(c.accounts().last().token_hash@, encode_utf8(t@))
                    &&& exists|salt: Result<Seq<u8>, Seq<char>>|
                        is_draw(salt, 16) && #[trigger] hash_from(t@, salt) == Ok::<
                            Seq<char>,
                            Seq<char>,
                        >(c.accounts().last().token_hash@)
                    &&& forall|d: Seq<u8>| c.known(d) is None
                },
                Err(e) => exists|salt: Result<Seq<u8>, Seq<char>>|
                    {
                        &&& is_draw(salt, 16)
                        &&& #[trigger] hash_from(t@, salt) == Err::<Seq<char>, Seq<char>>(e@)
                        &&& !(salt is Ok && can_hash(t@))
                    },
            }
        },
    }
}

impl Console {
    /// The accounts that may sign in.
    pub closed spec fn accounts(self) -> Seq<Account> {
        self.accounts@
    }

    /// Whether this console admits anyone.
    pub closed spec fn admits_anyone(self) -> bool {
        self.open
    }

    /// The person that a token's digest was remembered for.
    pub closed spec fn known(self, digest: Seq<u8>) -> Option<Person> {
        remembered(self.verified@, digest)
    }

    /// The person that a token is taken as: the one its digest was remembered
    /// for, or else its holder.
    pub open spec fn bearer(self, token: Seq<char>) -> Option<Person> {
        let d = sha256(encode_utf8(token));
        if token.len() == 0 {
            None
        } else if self.known(d) is Some {
            self.known(d)
        } else {
            holder(self.accounts(), token)
        }
    }

    /// The person that an optional token is taken as.
    pub open spec fn bearer_opt(self, token: Option<Seq<char>>) -> Option<Person> {
        match token {
            Some(t) => self.bearer(t),
            None => None,
        }
    }

    #[verifier::type_invariant]
    spec fn inv(self) -> bool {
        forall|i: int|
            0 <= i < self.verified@.len() ==> vouched(
                self.accounts@,
                (#[trigger] self.verified@[i]).0@,
                self.verified@[i].1@,
            )
    }

    /// The policy for a server about to bind `host`, once the token given on the
    /// command line, if any, has been hashed.
    pub fn settle(
        workspace: &str,
        stored: Vec<Account>,
        has_machine_credential: bool,
        host: &str,
        token_hash: Option<String>,
        windows: bool,
    ) -> (r: Result<Console, String>)
        ensures
            is_settled(
                workspace,
                stored,
                has_machine_credential,
                host,
                token_hash,
                windows,
                r,
            ),
    {
        let ghost before = stored@;
        let mut accounts = stored;
        if let Some(h) = token_hash {
            accounts.push(Account { label: "token".to_owned(), role: Role::Admin, token_hash: h });
        }
        let loopback = is_loopback(host);
        let unconfigured = accounts.len() == 0 && !has_machine_credential;
        if unconfigured && !loopback {
            let mut why = glue3(
                "--host ",
                host,
                " would expose this beyond the local machine, and it can run any pipeline in the workspace. Set a token first:\n    DUCKLE_CONSOLE_TOKEN=<secret>\nor create accounts with roles:\n    duckle-runner console add-user <label> --role viewer|operator|admin\nAccounts are read from ",
            );
            let path = accounts_path(workspace, windows);
            why.append(path.as_str());
            return Err(why);
        }
        Ok(Console { accounts, open: unconfigured && loopback, verified: Vec::new() })
    }

    /// Decide the policy for a server about to bind `host`, with the accounts
    /// and the presence of a live API key as the store has them.
    ///
    /// Returns an error, rather than a warning, when the console would be
    /// reachable off this machine with no way to tell callers apart.
    pub fn configure(
        workspace: &str,
        stored: Vec<Account>,
        has_machine_credential: bool,
        host: &str,
        token: Option<&str>,
        windows: bool,
    ) -> (r: Result<Console, String>)
        ensures
            is_configured(
                workspace,
                stored,
                has_machine_credential,
                host,
                token,
                windows,
                r,
            ),
    {
        let hash = match token {
            Some(t) => {
                let bare = trim(t);
                if bare.as_str().is_empty() {
                    return Err("--token was given but is empty".to_owned());
                }
                match hash_token(t) {
                    Ok(h) => Some(h),
                    Err(e) => {
                        return Err(e);
                    },
                }
            },
            None => None,
        };
        let r = Console::settle(workspace, stored, has_machine_credential, host, hash, windows);
        assert(r matches Ok(c) ==> token is Some ==> c.accounts().drop_last() == stored@);
        r
    }

    /// Whether this console admits anyone, which is only ever true on loopback
    /// with nothing configured.
    pub fn is_open(&self) -> (r: bool)
        ensures
            r == self.admits_anyone(),
    {
        self.open
    }

    /// The person that a digest was remembered for.
    fn recall(&self, digest: &Vec<u8>) -> (r: Option<Identity>)
        ensures
            person_opt(r) == self.known(digest@),
            r is Some ==> vouched(self.accounts(), digest@, r->0@),
    {
        proof {
            use_type_invariant(self);
        }
        let mut i: usize = 0;
        let ghost cache = self.verified@;
        while i < self.verified.len()
            invariant
                i <= cache.len(),
                cache == self.verified@,
                remembered(cache.take(i as int), digest@) is None,
                forall|j: int|
                    0 <= j < cache.len() ==> vouched(
                        self.accounts@,
                        (#[trigger] cache[j]).0@,
                        cache[j].1@,
                    ),
            decreases cache.len() - i,
        {
            assert(cache.take(i + 1).drop_last() == cache.take(i as int));
            let entry = &self.verified[i];
            if same_bytes(&entry.0, digest) {
                proof {
                    lemma_remembered(cache, digest@, i as int);
                    assert(vouched(self.accounts@, cache[i as int].0@, cache[i as int].1@));
                }
                return Some(entry.1.copy());
            }
            i = i + 1;
        }
        assert(cache.take(i as int) == cache);
        None
    }

    /// Whose token this is. Every account is checked even after a match, so the
    /// time taken does not reveal which account a token belongs to or how many
    /// exist.
    fn search(&self, token: &str) -> (r: Option<Identity>)
        ensures
            person_opt(r) == holder(self.accounts(), token@),
    {
        let mut found: Option<Identity> = None;
        let mut i: usize = 0;
        while i < self.accounts.len()
            invariant
                i <= self.accounts@.len(),
                person_opt(found) == holder(self.accounts@.take(i as int), token@),
            decreases self.accounts@.len() - i,
        {
            let account = &self.accounts[i];
            assert(self.accounts@.take(i + 1).drop_last() == self.accounts@.take(i as int));
            let matched = accepts(account.token_hash.as_str(), token.as_bytes());
            if matched && found.is_none() {
                found = Some(Identity { label: account.label.clone(), role: account.role });
            }
            i = i + 1;
        }
        assert(self.accounts@.take(i as int) == self.accounts@);
        found
    }

    /// Whose token this is. What is found is remembered by the token's digest.
    pub fn verify_token(&mut self, token: &str) -> (r: Option<Identity>)
        ensures
            final(self).accounts() == old(self).accounts(),
            final(self).admits_anyone() == old(self).admits_anyone(),
            ({
                let d = sha256(encode_utf8(token@));
                &&& person_opt(r) == (if token@.len() == 0 {
                    None
                } else if old(self).known(d) is Some {
                    old(self).known(d)
                } else {
                    holder(old(self).accounts(), token@)
                })
                &&& r is Some ==> final(self).known(d) == person_opt(r) && vouched(
                    old(self).accounts(),
                    d,
                    r->0@,
                )
                &&& r is None ==> final(self).known(d) == old(self).known(d)
                &&& forall|other: Seq<u8>|
                    other != d ==> final(self).known(other) == old(self).known(other)
            }),
    {
        if token.is_empty() {
            return None;
        }
        let d = digest(token.as_bytes());
        if let Some(known) = self.recall(&d) {
            return Some(known);
        }
        match self.search(token) {
            Some(identity) => {
                proof {
                    use_type_invariant(&*self);
                }
                let ghost cache = self.verified@;
                let ghost accounts = self.accounts@;
                let ghost dv = d@;
                let mut verified: Vec<(Vec<u8>, Identity)> = Vec::new();
                std::mem::swap(&mut verified, &mut self.verified);
                let kept = identity.copy();
                verified.push((d, kept));
                proof {
                    assert(verified@.drop_last() == cache);
                    assert(vouched(accounts, dv, kept@)) by {
                        assert(sha256(encode_utf8(token@)) == dv);
                    }
                    assert forall|i: int| 0 <= i < verified@.len() implies vouched(
                        accounts,
                        (#[trigger] verified@[i]).0@,
                        verified@[i].1@,
                    ) by {
                        if i < cache.len() {
                            assert(verified@[i] == cache[i]);
                        }
                    }
                }
                self.verified = verified;
                Some(identity)
            },
            None => None,
        }
    }

    /// Who is calling, from the request's `Authorization` and `Cookie` headers
    /// and what the store has been found to know of the credentials in them.
    ///
    /// A session cookie goes first: it is the browser's normal path and costs a
    /// lookup rather than a password hash. Then an API key, which is read on
    /// every request so that revoking one takes effect on a console that is
    /// already running. Then the accounts' tokens. An open console reports a
    /// local admin so callers need no special case.
    pub fn identify(
        &mut self,
        authorization: Option<&str>,
        cookie: Option<&str>,
        session: &Lookup,
        key: &Lookup,
    ) -> (r: Ask)
        ensures
            final(self).accounts() == old(self).accounts(),
            final(self).admits_anyone() == old(self).admits_anyone(),
            ({
                let sid = session_in(str_opt(cookie));
                let token = bearer_in(str_opt(authorization));
                let open = old(self).admits_anyone();
                &&& ask_view(r) == asked(open, sid, token, *session, *key, old(self).bearer_opt(token))
                &&& if tries_token(open, sid, token, *session, *key) {
                    &&& remembers(*old(self), *final(self), token->0)
                    &&& r matches Ask::Answer(Some(who)) ==> vouched(
                        old(self).accounts(),
                        sha256(encode_utf8(token->0)),
                        who@,
                    )
                } else {
                    forall|d: Seq<u8>| final(self).known(d) == old(self).known(d)
                }
            }),
    {
        if self.open {
            return Ask::Answer(Some(Identity { label: "local".to_owned(), role: Role::Admin }));
        }
        if let Some(sid) = session_of(cookie) {
            match session {
                Lookup::NotAsked => {
                    return Ask::Session(sid);
                },
                Lookup::Found(who) => {
                    return Ask::Answer(Some(who.copy()));
                },
                Lookup::Missing => {},
            }
        }
        match bearer_of(authorization) {
            Some(bearer) => match key {
                Lookup::NotAsked => Ask::Key(bearer),
                Lookup::Found(who) => Ask::Answer(Some(who.copy())),
                Lookup::Missing => Ask::Answer(self.verify_token(bearer.as_str())),
            },
            None => Ask::Answer(None),
        }
    }

    /// Exchange a token for a session id to put in a cookie.
    ///
    /// The browser holds the session id, not the token, so a stored cookie
    /// is not a token. None when nobody holds the token, or when there were no
    /// random bytes to be had. Whose token it is is remembered either way.
    pub fn sign_in(&mut self, token: &str) -> (r: Option<(String, Identity)>)
        ensures
            final(self).accounts() == old(self).accounts(),
            final(self).admits_anyone() == old(self).admits_anyone(),
            ({
                let d = sha256(encode_utf8(token@));
                let who = old(self).bearer(token@);
                &&& exists|raw: Result<Seq<u8>, Seq<char>>|
                    is_draw(raw, 32) && signed(r) == #[trigger] session_from(who, raw)
                &&& r is Some ==> carries_random((r->0).0@) && vouched(
                    old(self).accounts(),
                    d,
                    (r->0).1@,
                )
                &&& remembers(*old(self), *final(self), token@)
            }),
    {
        match self.verify_token(token) {
            Some(identity) => {
                let raw = random_bytes(32);
                let ghost drawn = draw_of(raw);
                let ghost who = Some(identity@);
                let r = open_session(identity, raw);
                proof {
                    assert(is_draw(drawn, 32) && signed(r) == session_from(who, drawn));
                    assert(r is Some ==> (r->0).0@ == base64_url(drawn->Ok_0));
                }
                r
            },
            None => {
                let r: Option<(String, Identity)> = None;
                proof {
                    let drawn: Result<Seq<u8>, Seq<char>> = Err(Seq::empty());
                    assert(is_draw(drawn, 32) && signed(r) == session_from(None, drawn));
                }
                r
            },
        }
    }

    /// The session to forget.
    pub fn sign_out(&self, cookie: Option<&str>) -> (r: Option<String>)
        ensures
            text_opt(r) == session_in(str_opt(cookie)),
    {
        session_of(cookie)
    }
}

/// A token that some account accepts signs its bearer in.
pub proof fn law_an_accepted_token_signs_in(accounts: Seq<Account>, token: Seq<char>, i: int)
    requires
        0 <= i < accounts.len(),
        hash_accepts(accounts[i].token_hash@, encode_utf8(token)),
    ensures
        holder(accounts, token) is Some,
    decreases accounts.len(),
{
    if i < accounts.len() - 1 {
        law_an_accepted_token_signs_in(accounts.drop_last(), token, i);
    }
}

/// Nobody signs in as more than an account that accepts their token: whoever a
/// token's holder is, there is an account of that name and role behind it.
pub proof fn law_a_holder_has_an_account(accounts: Seq<Account>, token: Seq<char>)
    requires
        holder(accounts, token) is Some,
    ensures
        exists|i: int|
            0 <= i < accounts.len() && hash_accepts(
                (#[trigger] accounts[i]).token_hash@,
                encode_utf8(token),
            ) && accounts[i].label@ == holder(accounts, token)->0.label && accounts[i].role == holder(
                accounts,
                token,
            )->0.role,
    decreases accounts.len(),
{
    let before = accounts.drop_last();
    if holder(before, token) is Some {
        law_a_holder_has_an_account(before, token);
        let i = choose|i: int|
            0 <= i < before.len() && hash_accepts(
                (#[trigger] before[i]).token_hash@,
                encode_utf8(token),
            ) && before[i].label@ == holder(before, token)->0.label && before[i].role == holder(
                before,
                token,
            )->0.role;
        assert(accounts[i] == before[i]);
    } else {
        assert(accounts[accounts.len() - 1] == accounts.last());
    }
}

proof fn lemma_remembered(cache: Seq<(Vec<u8>, Identity)>, digest: Seq<u8>, i: int)
    requires
        0 <= i < cache.len(),
        remembered(cache.take(i), digest) is None,
        cache[i].0@ == digest,
    ensures
        remembered(cache, digest) == Some(cache[i].1@),
    decreases cache.len(),
{
    if i == cache.len() - 1 {
        assert(cache.drop_last() == cache.take(i));
    } else {
        assert(cache.drop_last().take(i) == cache.take(i));
        lemma_remembered(cache.drop_last(), digest, i);
    }
}

/// Whether two runs of bytes are the same.
fn same_bytes(a: &Vec<u8>, b: &Vec<u8>) -> (r: bool)
    ensures
        r == (a@ == b@),
{
    if a.len() != b.len() {
        return false;
    }
    let mut i: usize = 0;
    while i < a.len()
        invariant
            i <= a@.len(),
            a@.len() == b@.len(),
            forall|j: int| 0 <= j < i ==> a@[j] == b@[j],
        decreases a@.len() - i,
    {
        if a[i] != b[i] {
            return false;
        }
        i = i + 1;
    }
    assert(a@ == b@);
    true
}

/// An admin ranks above an operator, and an operator above a viewer.
pub proof fn law_roles_are_ranked(r: Role)
    ensures
        rank(Role::Viewer) < rank(Role::Operator) < rank(Role::Admin),
        rank(r) >= rank(Role::Viewer),
        rank(r) >= rank(Role::Admin) <==> r == Role::Admin,
        rank(r) >= rank(Role::Operator) <==> r != Role::Viewer,
{
}

/// A role is called by its name and by nothing else.
pub proof fn law_what_roles_are_called(s: Seq<char>)
    ensures
        role_called(s) == Some(Role::Viewer) <==> s == "viewer"@,
        role_called(s) == Some(Role::Operator) <==> s == "operator"@,
        role_called(s) == Some(Role::Admin) <==> s == "admin"@,
        role_name(Role::Viewer) == "viewer"@,
        role_name(Role::Operator) == "operator"@,
        role_name(Role::Admin) == "admin"@,
{
    law_a_role_keeps_its_name(Role::Viewer);
    law_a_role_keeps_its_name(Role::Operator);
    law_a_role_keeps_its_name(Role::Admin);
}

/// Only these names of the machine itself are local.
pub proof fn law_what_is_local(host: Seq<char>)
    ensures
        local_bind(host) <==> host == "127.0.0.1"@ || host == "localhost"@ || host == "::1"@ || host
            == "[::1]"@,
{
}

/// The first account that accepts a token is whose it is.
pub proof fn law_the_first_account_that_accepts_is_meant(
    accounts: Seq<Account>,
    token: Seq<char>,
    i: int,
)
    requires
        0 <= i < accounts.len(),
        hash_accepts(accounts[i].token_hash@, encode_utf8(token)),
        forall|j: int|
            0 <= j < i ==> !hash_accepts((#[trigger] accounts[j]).token_hash@, encode_utf8(token)),
    ensures
        holder(accounts, token) == Some(
            Person { label: accounts[i].label@, role: accounts[i].role },
        ),
    decreases accounts.len(),
{
    let before = accounts.drop_last();
    if i < accounts.len() - 1 {
        assert(before[i] == accounts[i]);
        assert forall|j: int| 0 <= j < i implies !hash_accepts(
            (#[trigger] before[j]).token_hash@,
            encode_utf8(token),
        ) by {
            assert(before[j] == accounts[j]);
        }
        law_the_first_account_that_accepts_is_meant(before, token, i);
    } else {
        assert forall|j: int| 0 <= j < before.len() implies !hash_accepts(
            (#[trigger] before[j]).token_hash@,
            encode_utf8(token),
        ) by {
            assert(before[j] == accounts[j]);
        }
        law_a_token_nobody_accepts_is_nobodys(before, token);
    }
}

/// A token that no account accepts is nobody's.
pub proof fn law_a_token_nobody_accepts_is_nobodys(accounts: Seq<Account>, token: Seq<char>)
    requires
        forall|j: int|
            0 <= j < accounts.len() ==> !hash_accepts(
                (#[trigger] accounts[j]).token_hash@,
                encode_utf8(token),
            ),
    ensures
        holder(accounts, token) is None,
    decreases accounts.len(),
{
    if holder(accounts, token) is Some {
        law_a_holder_has_an_account(accounts, token);
    }
}

/// The accounts are in order when every hash on them is one; otherwise the first
/// that is not is pointed at.
pub proof fn law_which_account_is_bad(v: Seq<Account>, i: int)
    ensures
        bad_account(v) is None <==> forall|j: int|
            0 <= j < v.len() ==> is_phc((#[trigger] v[j]).token_hash@),
        0 <= i < v.len() && !is_phc(v[i].token_hash@) && (forall|j: int|
            0 <= j < i ==> is_phc((#[trigger] v[j]).token_hash@)) ==> bad_account(v) == Some(i),
    decreases v.len(),
{
    if v.len() > 0 {
        let before = v.drop_last();
        law_which_account_is_bad(before, i);
        assert forall|j: int| 0 <= j < before.len() implies before[j] == #[trigger] v[j] by {}
        assert(v[v.len() - 1] == v.last());
        if bad_account(before) is Some {
            let k = choose|k: int| 0 <= k < before.len() && !is_phc((#[trigger] before[k]).token_hash@);
            assert(v[k] == before[k]);
        } else {
            assert forall|j: int| 0 <= j < before.len() implies is_phc(
                (#[trigger] v[j]).token_hash@,
            ) by {
                assert(before[j] == v[j]);
            }
        }
        if 0 <= i < before.len() {
            assert forall|j: int|
                0 <= j < i && (forall|k: int|
                    0 <= k < i ==> is_phc((#[trigger] v[k]).token_hash@)) implies is_phc(
                (#[trigger] before[j]).token_hash@,
            ) by {
                assert(before[j] == v[j]);
            }
        }
    }
}

/// A cookie is found by its name among the pairs of the header: the first pair of
/// that name counts, without the blanks round its value.
pub proof fn law_a_cookie_is_found_by_its_name(
    pairs: Seq<Seq<char>>,
    i: int,
    name: Seq<char>,
    value: Seq<char>,
)
    requires
        0 <= i < pairs.len(),
        !name.contains('='),
        pairs[i] == name + "="@ + value,
        trimmed(name) == name,
        forall|j: int|
            0 <= j < i ==> (split_first(#[trigger] pairs[j], '=') matches Some(p) ==> trimmed(p.0) != name),
    ensures
        cookie_in(pairs, name) == Some(trimmed(value)),
    decreases i,
{
    reveal_strlit("=");
    if i > 0 {
        let rest = pairs.drop_first();
        assert(rest[i - 1] == pairs[i]);
        assert forall|j: int| 0 <= j < i - 1 implies (split_first(#[trigger] rest[j], '=') matches Some(p)
            ==> trimmed(p.0) != name) by {
            assert(rest[j] == pairs[j + 1]);
        }
        law_a_cookie_is_found_by_its_name(rest, i - 1, name, value);
        assert(split_first(pairs[0], '=') matches Some(p) ==> trimmed(p.0) != name);
    } else {
        let s = pairs[0];
        lemma_find(s, '=');
        assert(s[name.len() as int] == '=');
        assert(s.contains('='));
        assert(find(s, '=') == name.len()) by {
            let k = find(s, '=');
            if k < name.len() {
                assert(s[k] == name[k]);
                assert(name.contains(name[k]));
            }
        }
        assert(s.take(name.len() as int) == name);
        assert(s.skip(name.len() as int + 1) == value);
    }
}

/// A header without the session's cookie names no session, and no header none
/// either.
pub proof fn law_no_cookie_no_session(pairs: Seq<Seq<char>>, name: Seq<char>)
    requires
        forall|j: int|
            0 <= j < pairs.len() ==> (split_first(#[trigger] pairs[j], '=') matches Some(p) ==> trimmed(
                p.0,
            ) != name),
    ensures
        cookie_in(pairs, name) is None,
        session_in(None) is None,
    decreases pairs.len(),
{
    if pairs.len() > 0 {
        let rest = pairs.drop_first();
        assert forall|j: int| 0 <= j < rest.len() implies (split_first(#[trigger] rest[j], '=') matches Some(
            p,
        ) ==> trimmed(p.0) != name) by {
            assert(rest[j] == pairs[j + 1]);
        }
        law_no_cookie_no_session(rest, name);
        assert(split_first(pairs[0], '=') matches Some(p) ==> trimmed(p.0) != name);
    }
}

/// A bearer token is what stands behind the word; anything else bears none.
pub proof fn law_what_a_bearer_brings(token: Seq<char>, header: Seq<char>)
    ensures
        bearer_in(Some("Bearer "@ + token)) == Some(trimmed(token)),
        header.len() < 7 || header.take(7) != "Bearer "@ ==> bearer_in(Some(header)) is None,
        bearer_in(None) is None,
{
    reveal_strlit("Bearer ");
    let s = "Bearer "@ + token;
    assert(s.take(7) == "Bearer "@);
    assert(s.skip(7) == token);
}

/// Who the caller is taken as: on an open console the local admin; else whoever
/// the session is of; else, with a token, whoever its key is of, or whoever the
/// accounts know it as; and nobody without either.
pub proof fn law_whom_a_caller_is_taken_as(
    sid: Option<Seq<char>>,
    token: Option<Seq<char>>,
    found: Identity,
    session: Lookup,
    key: Lookup,
    taken_as: Option<Person>,
)
    ensures
        asked(true, sid, token, session, key, taken_as) == AskView::Answer(
            Some(Person { label: "local"@, role: Role::Admin }),
        ),
        sid is Some ==> asked(false, sid, token, Lookup::NotAsked, key, taken_as) == AskView::Session(
            sid->0,
        ),
        sid is Some ==> asked(false, sid, token, Lookup::Found(found), key, taken_as)
            == AskView::Answer(Some(found@)),
        token is Some ==> asked(false, None, token, session, Lookup::NotAsked, taken_as)
            == AskView::Key(token->0),
        token is Some ==> asked(false, None, token, session, Lookup::Found(found), taken_as)
            == AskView::Answer(Some(found@)),
        token is Some ==> asked(false, None, token, session, Lookup::Missing, taken_as)
            == AskView::Answer(taken_as),
        asked(false, sid, token, Lookup::Missing, key, taken_as) == asked(
            false,
            None,
            token,
            session,
            key,
            taken_as,
        ),
        asked(false, None, None, session, key, taken_as) == AskView::Answer(None),
{
}

/// A console that was told nothing of a token asks its accounts, and a blank one
/// is never accepted.
pub proof fn law_a_token_is_held_against_the_accounts(c: Console, token: Seq<char>)
    ensures
        token.len() == 0 ==> c.bearer(token) is None,
        token.len() > 0 && c.known(sha256(encode_utf8(token))) is None ==> c.bearer(token) == holder(
            c.accounts(),
            token,
        ),
        token.len() > 0 && c.known(sha256(encode_utf8(token))) is Some ==> c.bearer(token) == c.known(
            sha256(encode_utf8(token)),
        ),
        c.bearer_opt(None) is None,
        c.bearer_opt(Some(token)) == c.bearer(token),
{
}

/// What is kept of a token is its hash under the salt that was drawn, and what a
/// failed draw or a failed hash says is passed on.
pub proof fn law_what_is_kept_of_a_token(token: Seq<char>, b: Seq<u8>, raw: Seq<u8>, e: Seq<char>)
    ensures
        salted_hash(encode_utf8(token), b) matches Ok(h) ==> hash_from(token, Ok(b)) == Ok::<
            Seq<char>,
            Seq<char>,
        >(h),
        salted_hash(encode_utf8(token), b) matches Err(x) ==> hash_from(token, Ok(b)) == Err::<
            Seq<char>,
            Seq<char>,
        >("hash token: "@ + x),
        hash_from(token, Err(e)) == Err::<Seq<char>, Seq<char>>("salt rng: "@ + e),
        token_from(Err(e), Ok(b)) == Err::<(Seq<char>, Seq<char>), Seq<char>>("token rng: "@ + e),
        salted_hash(encode_utf8(base64_url(raw)), b) matches Ok(h) ==> token_from(Ok(raw), Ok(b)) == Ok::<
            (Seq<char>, Seq<char>),
            Seq<char>,
        >((base64_url(raw), h)),
{
}

/// Whoever is accepted gets a session of their own, under what was drawn for it;
/// nobody gets none.
pub proof fn law_who_gets_a_session(who: Person, raw: Seq<u8>, e: Seq<char>)
    ensures
        session_from(Some(who), Ok(raw)) == Some((base64_url(raw), who)),
        session_from(None, Ok(raw)) is None,
        session_from(Some(who), Err(e)) is None,
{
}

/// A console without any credential is open, and starts on this machine alone; with
/// one it is closed, wherever it starts.
pub proof fn law_who_may_leave_the_door_open(
    workspace: &str,
    stored: Vec<Account>,
    has_machine_credential: bool,
    host: &str,
    windows: bool,
    r: Result<Console, String>,
)
    requires
        is_configured(workspace, stored, has_machine_credential, host, None, windows, r),
    ensures
        stored@.len() > 0 || has_machine_credential ==> (r matches Ok(c) && !c.admits_anyone()
            && c.accounts() == stored@),
        stored@.len() == 0 && !has_machine_credential && (host@ == "127.0.0.1"@ || host@
            == "localhost"@ || host@ == "::1"@ || host@ == "[::1]"@) ==> (r matches Ok(c)
            && c.admits_anyone() && c.accounts().len() == 0),
        stored@.len() == 0 && !has_machine_credential && !(host@ == "127.0.0.1"@ || host@
            == "localhost"@ || host@ == "::1"@ || host@ == "[::1]"@) ==> (r matches Err(e)
            && e@ == exposed(workspace@, host@, windows)),
{
}

/// A console that was given a token is closed, and that token makes an admin of who
/// brings it; a blank one is refused.
pub proof fn law_a_token_closes_the_door(
    workspace: &str,
    stored: Vec<Account>,
    has_machine_credential: bool,
    host: &str,
    token: &str,
    windows: bool,
    c: Console,
    r: Result<Console, String>,
)
    requires
        is_configured(workspace, stored, has_machine_credential, host, Some(token), windows, r),
    ensures
        trimmed(token@).len() == 0 ==> (r matches Err(e) && e@ == "--token was given but is empty"@),
        r == Ok::<Console, String>(c) ==> {
            &&& trimmed(token@).len() > 0
            &&& !c.admits_anyone()
            &&& holder(c.accounts(), token@) is Some
            &&& holder(stored@, token@) is None ==> holder(c.accounts(), token@) == Some(
                Person { label: "token"@, role: Role::Admin },
            )
            &&& forall|d: Seq<u8>| c.known(d) is None
        },
{
}

/// How a console is settled: as it is configured, with the token's hash in hand.
pub proof fn law_how_a_console_is_settled(
    workspace: &str,
    stored: Vec<Account>,
    has_machine_credential: bool,
    host: &str,
    hash: String,
    windows: bool,
    r: Result<Console, String>,
)
    ensures
        is_settled(workspace, stored, has_machine_credential, host, Some(hash), windows, r) ==> (
        r matches Ok(c) && !c.admits_anyone() && c.accounts().len() == stored@.len() + 1
            && c.accounts().last().token_hash == hash && c.accounts().last().role == Role::Admin
            && c.accounts().last().label@ == "token"@),
        is_settled(workspace, stored, has_machine_credential, host, None, windows, r) ==> (r is Err
            <==> stored@.len() == 0 && !has_machine_credential && host@ != "127.0.0.1"@ && host@
            != "localhost"@ && host@ != "::1"@ && host@ != "[::1]"@),
        is_settled(workspace, stored, has_machine_credential, host, None, windows, r) ==> (
        r matches Ok(c) ==> (c.admits_anyone() <==> stored@.len() == 0 && !has_machine_credential)),
{
}

/// A token that was accepted is remembered for whose it is, and nothing else is.
pub proof fn law_what_is_remembered(before: Console, after: Console, token: Seq<char>, other: Seq<u8>)
    requires
        remembers(before, after, token),
    ensures
        before.bearer(token) matches Some(p) ==> after.known(sha256(encode_utf8(token))) == Some(p),
        before.bearer(token) is None ==> after.known(sha256(encode_utf8(token))) == before.known(
            sha256(encode_utf8(token)),
        ),
        other != sha256(encode_utf8(token)) ==> after.known(other) == before.known(other),
{
}

/// Who is refused an open door is told how to close it.
pub proof fn law_what_the_exposed_are_told(workspace: Seq<char>, host: Seq<char>, windows: bool)
    ensures
        begins(exposed(workspace, host, windows), "--host "@ + host),
        ends(
            exposed(workspace, host, windows),
            under(under(workspace, ".duckle"@, windows), "console-users.json"@, windows),
        ),
{
    let all = exposed(workspace, host, windows);
    let head = "--host "@ + host;
    let file = accounts_file(workspace, windows);
    assert(all.take(head.len() as int) == head);
    assert(all.skip(all.len() - file.len()) == file);
}

proof fn lemma_base64_length(b: Seq<u8>)
    ensures
        base64_url(b).len() == (4 * b.len() + 2) / 3,
    decreases b.len(),
{
    if b.len() >= 3 {
        lemma_base64_length(b.skip(3));
    }
}

/// A token is forty-three digits, each a letter, a figure, a hyphen or an
/// underscore.
pub proof fn law_what_a_token_looks_like(s: Seq<char>, i: int)
    requires
        carries_random(s),
        0 <= i < s.len(),
    ensures
        s.len() == 43,
        'A' <= s[i] <= 'Z' || 'a' <= s[i] <= 'z' || '0' <= s[i] <= '9' || s[i] == '-' || s[i] == '_',
{
    let raw = choose|raw: Seq<u8>| raw.len() == 32 && s == #[trigger] base64_url(raw);
    lemma_base64_length(raw);
    lemma_base64_is_plain(raw);
}

/// Thirty-two bytes make a token, whatever they are.
pub proof fn law_every_draw_makes_a_token(raw: Seq<u8>)
    requires
        raw.len() == 32,
    ensures
        carries_random(base64_url(raw)),
{
}

/// Whoever a digest vouches for has an account, and that account accepts the
/// token of which it is the digest.
pub proof fn law_who_is_vouched_for(accounts: Seq<Account>, digest: Seq<u8>, who: Person)
    requires
        vouched(accounts, digest, who),
    ensures
        exists|i: int, t: Seq<char>|
            #![trigger accounts[i], encode_utf8(t)]
            0 <= i < accounts.len() && sha256(encode_utf8(t)) == digest && hash_accepts(
                accounts[i].token_hash@,
                encode_utf8(t),
            ) && accounts[i].label@ == who.label && accounts[i].role == who.role,
{
    let t = choose|t: Seq<char>|
        #![trigger encode_utf8(t)]
        sha256(encode_utf8(t)) == digest && holder(accounts, t) == Some(who);
    law_a_holder_has_an_account(accounts, t);
}

/// A session lasts twelve hours.
pub proof fn law_how_long_a_session_lasts(now_secs: i64, r: i64)
    requires
        is_session_expiry(now_secs, r),
    ensures
        r - now_secs == 12 * 60 * 60,
{
}

/// A store that has an account takes none from the file, so an account that was
/// removed does not come back; an empty one takes them wherever there is a file.
pub proof fn law_when_the_accounts_file_is_taken(stored: Seq<Account>)
    ensures
        takes_accounts(true, stored.len()) <==> stored =~= Seq::<Account>::empty(),
        !takes_accounts(false, stored.len()),
{
}

} // verus!
