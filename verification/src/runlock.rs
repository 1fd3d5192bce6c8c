//! Naming the lock for one scheduled pipeline run.
//!
//! Two schedulers pointed at the same workspace would otherwise fire the same
//! schedule twice at the same instant: two runs writing the same sink, and two
//! runs advancing the same watermark, which is how a load silently skips rows.
//! The lock itself is the operating system's; what has to be right here is that
//! every process derives the same file for the same pipeline, and a different
//! one for any other.
use crate::paths::{join, names_drive, separator, under, uniform};
use crate::text::{ascii_digit, ascii_letter, chars_of, glue2, glue3, is_ascii_letter, is_digit};
use vstd::prelude::*;
use vstd::string::*;
use vstd::utf8::encode_utf8;

verus! {

/// Two to the power of 64.
pub open spec fn word_size() -> int {
    0x1_0000_0000_0000_0000
}

/// The digest of one more byte.
pub open spec fn digest_step(h: u64, b: u8) -> u64 {
    (((h ^ (b as u64)) * 0x0000_0100_0000_01b3) % word_size()) as u64
}

/// The FNV-1a digest of bytes, in 64 bits.
pub open spec fn fnv1a(bytes: Seq<u8>) -> u64
    decreases bytes.len(),
{
    if bytes.len() == 0 {
        0xcbf2_9ce4_8422_2325
    } else {
        digest_step(fnv1a(bytes.drop_last()), bytes.last())
    }
}

/// A stable 64-bit digest of a key.
///
/// FNV-1a, written out rather than taken from the standard library, whose
/// hasher is explicitly not guaranteed across releases: two builds sharing one
/// workspace must derive the same lock filename or neither of them is locking
/// anything.
pub fn digest(key: &str) -> (r: u64)
    ensures
        r == fnv1a(encode_utf8(key@)),
{
    let bytes = key.as_bytes();
    let mut h: u64 = 0xcbf2_9ce4_8422_2325;
    let mut i: usize = 0;
    while i < bytes.len()
        invariant
            i <= bytes@.len(),
            h == fnv1a(bytes@.take(i as int)),
        decreases bytes@.len() - i,
    {
        assert(bytes@.take(i + 1).drop_last() == bytes@.take(i as int));
        h = (h ^ (bytes[i] as u64)).wrapping_mul(0x0000_0100_0000_01b3);
        i = i + 1;
    }
    assert(bytes@.take(i as int) == bytes@);
    h
}

/// Whether a character may stand in a file name as it is.
pub open spec fn is_plain(c: char) -> bool {
    is_ascii_letter(c) || is_digit(c) || c == '-' || c == '_'
}

/// A text with everything that is not plainly part of a name made an underscore.
pub open spec fn flattened(s: Seq<char>) -> Seq<char> {
    Seq::new(
        s.len(),
        |i: int|
            if is_plain(s[i]) {
                s[i]
            } else {
                '_'
            },
    )
}

/// At most the first `n` characters of a text.
pub open spec fn at_most(s: Seq<char>, n: int) -> Seq<char> {
    if s.len() <= n {
        s
    } else {
        s.take(n)
    }
}

/// At most the first `limit` characters of a text, with everything that is not
/// plainly part of a name made an underscore.
pub fn flatten(s: &str, limit: usize) -> (r: String)
    ensures
        r@ == flattened(at_most(s@, limit as int)),
        limit == usize::MAX ==> r@ == flattened(s@),
{
    let v = chars_of(s);
    let ghost kept = at_most(s@, limit as int);
    let n: usize = if v.len() <= limit {
        v.len()
    } else {
        limit
    };
    let mut out = String::new();
    let mut i: usize = 0;
    while i < n
        invariant
            i <= n <= v@.len(),
            v@ == s@,
            kept == at_most(s@, limit as int),
            n == kept.len(),
            out@ == flattened(kept).take(i as int),
        decreases n - i,
    {
        let c = v[i];
        let d = if ascii_letter(c) || ascii_digit(c) || c == '-' || c == '_' {
            c
        } else {
            '_'
        };
        out.push(d);
        assert(kept[i as int] == c);
        assert(flattened(kept).take(i + 1) == flattened(kept).take(i as int).push(d));
        i = i + 1;
    }
    assert(flattened(kept).take(i as int) == flattened(kept));
    out
}

/// The hexadecimal digit for `n`.
pub open spec fn hex_digit(n: int) -> char {
    if n < 10 {
        (48 + n) as char
    } else {
        (97 + n - 10) as char
    }
}

/// The last `width` hexadecimal digits of `n`.
pub open spec fn hex_text(n: nat, width: nat) -> Seq<char>
    decreases width,
{
    if width == 0 {
        Seq::empty()
    } else {
        hex_text(n / 16, (width - 1) as nat).push(hex_digit((n % 16) as int))
    }
}

/// The last `width` hexadecimal digits of `n`.
fn in_hex(n: u64, width: usize) -> (r: String)
    ensures
        r@ == hex_text(n as nat, width as nat),
    decreases width,
{
    if width == 0 {
        String::new()
    } else {
        let mut out = in_hex(n / 16, width - 1);
        let d = (n % 16) as u8;
        let c = if d < 10 {
            (48 + d) as char
        } else {
            (97 + d - 10) as char
        };
        out.push(c);
        out
    }
}

/// The file name that stands for a key: enough of it to recognise, and a digest
/// that carries its identity.
pub open spec fn lock_name(key: Seq<char>) -> Seq<char> {
    flattened(at_most(key, 48)) + "-"@ + hex_text(fnv1a(encode_utf8(key)) as nat, 16)
}

/// Reduce a caller-supplied name to something safe to use as a filename.
///
/// Keys are pipeline ids that come from a file on disk, so they are sanitised
/// rather than trusted: anything that is not plainly a name becomes an
/// underscore, which also flattens any path separator. The digest is what makes
/// the result unique, because sanitising alone is many-to-one.
pub fn safe_name(key: &str) -> (r: String)
    ensures
        r@ == lock_name(key@),
{
    let stem = flatten(key, 48);
    let id = in_hex(digest(key), 16);
    glue3(stem.as_str(), "-", id.as_str())
}

/// The folder that locks live in.
pub open spec fn locks_dir(workspace: Seq<char>, windows: bool) -> Seq<char> {
    under(under(workspace, ".duckle"@, windows), "locks"@, windows)
}

/// Where a lock for `key` lives: beside the workspace key material, under
/// `.duckle`, so everything the runtime owns is in one place.
pub fn lock_path(workspace: &str, key: &str, windows: bool) -> (r: String)
    ensures
        r@ == under(locks_dir(workspace@, windows), lock_name(key@) + ".lock"@, windows),
{
    let top = join(workspace, ".duckle", windows);
    let dir = join(top.as_str(), "locks", windows);
    let name = safe_name(key);
    let file = glue2(name.as_str(), ".lock");
    join(dir.as_str(), file.as_str(), windows)
}

/// Where a lock that lives one level down, under `group`, lives. For locks that
/// guard something other than a pipeline run and must never be blocked by one.
pub fn nested_lock_path(workspace: &str, group: &str, key: &str, windows: bool) -> (r: String)
    ensures
        r@ == under(
            under(locks_dir(workspace@, windows), lock_name(group@), windows),
            lock_name(key@) + ".lock"@,
            windows,
        ),
{
    let top = join(workspace, ".duckle", windows);
    let dir = join(top.as_str(), "locks", windows);
    let sub = safe_name(group);
    let inner = join(dir.as_str(), sub.as_str(), windows);
    let name = safe_name(key);
    let file = glue2(name.as_str(), ".lock");
    join(inner.as_str(), file.as_str(), windows)
}

/// How long a writer waits for the store before it gives up, in milliseconds.
pub const STORE_WAIT_MS: u64 = 5_000;

/// How long a writer sleeps between two attempts, in milliseconds.
pub const STORE_RETRY_MS: u64 = 25;

/// Whether a store was waited for too long.
pub open spec fn is_held_too_long(name: &str, waited_ms: u64, r: Option<String>) -> bool {
    match r {
        Some(e) => waited_ms >= STORE_WAIT_MS && e@ == "Timed out waiting to write "@ + name@,
        None => waited_ms < STORE_WAIT_MS,
    }
}

/// What to do when the store's lock is held by someone else: nothing yet, and
/// try again, or give up for this reason. A clash means that someone else is
/// mid-write, so the caller waits; the ceiling turns a wedged holder into a
/// reported error.
pub fn store_is_held(name: &str, waited_ms: u64) -> (r: Option<String>)
    ensures
        is_held_too_long(name, waited_ms, r),
{
    if waited_ms >= STORE_WAIT_MS {
        Some(glue2("Timed out waiting to write ", name))
    } else {
        None
    }
}

proof fn lemma_hex(n: nat, width: nat)
    ensures
        hex_text(n, width).len() == width,
        forall|i: int| 0 <= i < width ==> is_plain(#[trigger] hex_text(n, width)[i]),
    decreases width,
{
    if width > 0 {
        lemma_hex(n / 16, (width - 1) as nat);
        let d = n % 16;
        assert(is_plain(hex_digit(d as int)));
    }
}

proof fn lemma_hex_injective(m: nat, n: nat, width: nat, size: nat)
    requires
        hex_text(m, width) == hex_text(n, width),
        m < size,
        n < size,
        size == vstd::arithmetic::power::pow(16, width),
    ensures
        m == n,
    decreases width,
{
    if width == 0 {
        vstd::arithmetic::power::lemma_pow0(16);
    } else {
        let w = (width - 1) as nat;
        let a = hex_text(m, width);
        let b = hex_text(n, width);
        assert(a.drop_last() == hex_text(m / 16, w));
        assert(b.drop_last() == hex_text(n / 16, w));
        assert(a.last() == b.last());
        assert(m % 16 == n % 16);
        vstd::arithmetic::power::lemma_pow_positive(16, w);
        let part = vstd::arithmetic::power::pow(16, w) as nat;
        assert(vstd::arithmetic::power::pow(16, width) == 16 * part) by {
            reveal(vstd::arithmetic::power::pow);
        }
        assert(m / 16 < part) by (nonlinear_arith)
            requires
                m < 16 * part,
        ;
        assert(n / 16 < part) by (nonlinear_arith)
            requires
                n < 16 * part,
        ;
        lemma_hex_injective(m / 16, n / 16, w, part);
    }
}

/// A lock name holds nothing but letters, digits, dashes and underscores, so no
/// key can name another folder.
pub proof fn law_a_lock_name_stays_in_its_folder(key: Seq<char>)
    ensures
        forall|i: int| 0 <= i < lock_name(key).len() ==> is_plain(#[trigger] lock_name(key)[i]),
        lock_name(key).len() <= 65,
{
    reveal_strlit("-");
    let id = hex_text(fnv1a(encode_utf8(key)) as nat, 16);
    lemma_hex(fnv1a(encode_utf8(key)) as nat, 16);
    let stem = flattened(at_most(key, 48));
    assert forall|i: int| 0 <= i < lock_name(key).len() implies is_plain(#[trigger] lock_name(key)[i]) by {
        if i < stem.len() {
            assert(lock_name(key)[i] == stem[i]);
        } else if i == stem.len() {
            assert(lock_name(key)[i] == '-');
        } else {
            assert(lock_name(key)[i] == id[i - stem.len() - 1]);
        }
    }
}

/// Two keys share a lock only when their digests are the same: the sanitised
/// part never decides.
pub proof fn law_names_that_sanitise_alike_do_not_share_a_lock(a: Seq<char>, b: Seq<char>)
    requires
        lock_name(a) == lock_name(b),
    ensures
        fnv1a(encode_utf8(a)) == fnv1a(encode_utf8(b)),
{
    reveal_strlit("-");
    let x = fnv1a(encode_utf8(a));
    let y = fnv1a(encode_utf8(b));
    lemma_hex(x as nat, 16);
    lemma_hex(y as nat, 16);
    let n = lock_name(a).len();
    assert(lock_name(a).skip(n - 16) == hex_text(x as nat, 16));
    assert(lock_name(b).skip(n - 16) == hex_text(y as nat, 16));
    assert(vstd::arithmetic::power::pow(16, 16) == 0x1_0000_0000_0000_0000) by {
        reveal_with_fuel(vstd::arithmetic::power::pow, 17);
    }
    lemma_hex_injective(x as nat, y as nat, 16, 0x1_0000_0000_0000_0000);
}

/// No pipeline can name the lock of a store: that one lives a folder further
/// down, and a lock name has no separator in it.
pub proof fn law_no_run_blocks_a_store(
    dir: Seq<char>,
    run: Seq<char>,
    group: Seq<char>,
    key: Seq<char>,
    windows: bool,
)
    requires
        dir.len() > 0,
        dir.last() != '/',
        windows ==> dir.last() != '\\' && !(dir.len() == 2 && names_drive(dir)),
    ensures
        under(dir, lock_name(run) + ".lock"@, windows) != under(
            under(dir, lock_name(group), windows),
            lock_name(key) + ".lock"@,
            windows,
        ),
{
    reveal_strlit("-");
    law_a_lock_name_stays_in_its_folder(group);
    lemma_hex(fnv1a(encode_utf8(group)) as nat, 16);
    let sep = separator(windows);
    let file = lock_name(run) + ".lock"@;
    let inner_file = lock_name(key) + ".lock"@;
    let g = lock_name(group);
    lemma_plain_file(run, windows);
    lemma_plain_file(key, windows);
    assert(is_plain(g[0]));
    assert(is_plain(g[1]));
    assert(is_plain(g.last())) by {
        assert(g.last() == g[g.len() - 1]);
    }
    assert(uniform(g, windows) == g) by {
        assert forall|i: int| 0 <= i < g.len() implies g[i] != '/' by {
            assert(is_plain(g[i]));
        }
    }
    let one = under(dir, file, windows);
    let inner = under(dir, g, windows);
    assert(inner == dir.push(sep) + g);
    assert(inner.last() == g.last());
    assert(inner.len() > 2);
    let two = under(inner, inner_file, windows);
    assert(one == dir.push(sep) + file);
    assert(two == inner.push(sep) + inner_file);
    if one == two {
        // Behind the folder, one has a separator where the other has none.
        let at = dir.len() + 1 + g.len();
        assert(two[at as int] == sep);
        assert(one[at as int] == sep);
        let k = g.len() as int;
        assert(one[at as int] == file[k]);
    }
}

/// The file of a lock is named by one segment that stands neither for the root
/// nor for a drive.
proof fn lemma_plain_file(key: Seq<char>, windows: bool)
    ensures
        ({
            let file = lock_name(key) + ".lock"@;
            &&& file.len() > 2
            &&& uniform(file, windows) == file
            &&& forall|i: int|
                0 <= i < file.len() ==> (#[trigger] file[i]) != '/' && file[i] != '\\' && file[i]
                    != ':'
        }),
{
    reveal_strlit(".lock");
    reveal_strlit("-");
    law_a_lock_name_stays_in_its_folder(key);
    lemma_hex(fnv1a(encode_utf8(key)) as nat, 16);
    let name = lock_name(key);
    let file = name + ".lock"@;
    assert forall|i: int| 0 <= i < file.len() implies (#[trigger] file[i]) != '/' && file[i] != '\\'
        && file[i] != ':' by {
        if i < name.len() {
            assert(file[i] == name[i]);
            assert(is_plain(name[i]));
        } else {
            assert(file[i] == ".lock"@[i - name.len()]);
        }
    }
}

/// The digest is FNV-1a over the bytes of the key.
pub proof fn law_the_digest_takes_byte_after_byte(bytes: Seq<u8>, b: u8)
    ensures
        fnv1a(Seq::empty()) == 0xcbf2_9ce4_8422_2325,
        fnv1a(bytes.push(b)) == ((((fnv1a(bytes) ^ (b as u64)) as int) * 0x0000_0100_0000_01b3)
            % 0x1_0000_0000_0000_0000) as u64,
{
    assert(bytes.push(b).drop_last() == bytes);
}

/// A lock is named by what can stand in a file name of the first 48 characters of
/// its key, a dash, and 16 digits of the key's digest.
pub proof fn law_what_a_lock_is_called(key: Seq<char>, i: int)
    ensures
        ({
            let n = if key.len() < 48 {
                key.len()
            } else {
                48
            };
            let name = lock_name(key);
            &&& name.len() == n + 17
            &&& name[n as int] == '-'
            &&& 0 <= i < n ==> name[i] == (if 'a' <= key[i] <= 'z' || 'A' <= key[i] <= 'Z' || '0'
                <= key[i] <= '9' || key[i] == '-' || key[i] == '_' {
                key[i]
            } else {
                '_'
            })
            &&& name.skip(n as int + 1) == hex_text(fnv1a(encode_utf8(key)) as nat, 16)
        }),
{
    reveal_strlit("-");
    lemma_hex(fnv1a(encode_utf8(key)) as nat, 16);
    let n = if key.len() < 48 {
        key.len()
    } else {
        48
    };
    let name = lock_name(key);
    assert(name.skip(n as int + 1) == hex_text(fnv1a(encode_utf8(key)) as nat, 16));
}

/// Digits of sixteen are written as usual, the last one last.
pub proof fn law_how_sixteen_digits_are_written(n: nat, width: nat)
    requires
        width > 0,
    ensures
        hex_text(n, width).len() == width,
        n % 16 < 10 ==> hex_text(n, width).last() as int == 48 + n % 16,
        n % 16 >= 10 ==> hex_text(n, width).last() as int == 87 + n % 16,
        hex_text(n, width).drop_last() == hex_text(n / 16, (width - 1) as nat),
{
    lemma_hex(n, width);
    assert(hex_text(n, width).drop_last() == hex_text(n / 16, (width - 1) as nat));
}

/// A store is waited for five seconds, and given up then.
pub proof fn law_how_long_a_store_is_waited_for(name: &str, waited_ms: u64, r: Option<String>)
    requires
        is_held_too_long(name, waited_ms, r),
    ensures
        r is Some <==> waited_ms >= 5_000,
        r matches Some(e) ==> e@ == "Timed out waiting to write "@ + name@,
{
}

} // verus!
