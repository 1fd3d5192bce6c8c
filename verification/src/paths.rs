//! File paths, as texts. Which characters separate the segments of a path, and
//! which paths stand on their own, depends on the platform: everything here is
//! told by `windows` whether it is meant for Windows or for any other system.
use crate::text::{
    begins, chars_of, drop_back, drop_prefix, find, glue2, join as join_texts, joined,
    law_how_pieces_are_joined, lemma_find,
    lowercase, lowercase_of, same, split, split_on, starts_with, strip_all, strip_back, swap_char,
    swapped, text_of, text_opt, texts,
};
use vstd::prelude::*;
use vstd::string::*;

verus! {

/// The character that is put between segments.
pub open spec fn separator(windows: bool) -> char {
    if windows {
        '\\'
    } else {
        '/'
    }
}

/// The character that is put between segments.
fn separator_of(windows: bool) -> (r: char)
    ensures
        r == separator(windows),
{
    if windows {
        '\\'
    } else {
        '/'
    }
}

/// A path with one and the same separator between all its segments: Windows
/// takes `/` for `\` too.
pub open spec fn uniform(p: Seq<char>, windows: bool) -> Seq<char> {
    if windows {
        swapped(p, '/', '\\')
    } else {
        p
    }
}

/// A path with one and the same separator between all its segments.
fn to_uniform(p: &str, windows: bool) -> (r: String)
    ensures
        r@ == uniform(p@, windows),
{
    if windows {
        swap_char(p, '/', '\\')
    } else {
        p.to_owned()
    }
}

/// Whether a text begins with the name of a drive, such as `C:`.
pub open spec fn names_drive(s: Seq<char>) -> bool {
    s.len() >= 2 && s[1] == ':' && ('a' <= s[0] <= 'z' || 'A' <= s[0] <= 'Z')
}

/// Whether a text begins with the name of a drive.
fn begins_with_drive(v: &Vec<char>) -> (r: bool)
    ensures
        r == names_drive(v@),
{
    v.len() >= 2 && v[1] == ':' && (('a' <= v[0] && v[0] <= 'z') || ('A' <= v[0] && v[0] <= 'Z'))
}

/// How many of the segments of a path on Windows say where it starts, and are
/// never taken back: a drive, a server and what it shares, an extended-length
/// prefix with what it stands before, or just the root.
pub open spec fn head_count(segments: Seq<Seq<char>>) -> nat {
    if segments.len() >= 4 && segments[0].len() == 0 && segments[1].len() == 0 {
        if segments.len() >= 6 && segments[2] == "?"@ && segments[3] == "UNC"@ {
            6
        } else {
            4
        }
    } else if segments.len() >= 1 && segments[0].len() == 2 && names_drive(segments[0]) {
        1
    } else if segments.len() >= 2 && segments[0].len() == 0 {
        1
    } else {
        0
    }
}

/// How many of the segments of a path on Windows say where it starts.
fn count_head(pieces: &Vec<String>) -> (r: usize)
    ensures
        r == head_count(texts(pieces@)),
        r <= pieces@.len(),
{
    let n: usize = pieces.len();
    if n >= 4 && pieces[0].as_str().is_empty() && pieces[1].as_str().is_empty() {
        if n >= 6 && same(pieces[2].as_str(), "?") && same(pieces[3].as_str(), "UNC") {
            6
        } else {
            4
        }
    } else if n == 0 {
        0
    } else {
        let first = chars_of(pieces[0].as_str());
        if first.len() == 2 && begins_with_drive(&first) {
            1
        } else if n >= 2 && first.len() == 0 {
            1
        } else {
            0
        }
    }
}

/// What says on Windows where a path starts, without the separator behind it.
pub open spec fn start_of(p: Seq<char>) -> Seq<char> {
    let segments = split(uniform(p, true), '\\');
    joined(segments.take(head_count(segments) as int), "\\"@)
}

/// What says on Windows where a path starts.
fn start_name(p: &str) -> (r: String)
    ensures
        r@ == start_of(p@),
{
    let whole = to_uniform(p, true);
    let pieces = split_on(whole.as_str(), '\\');
    let n = count_head(&pieces);
    let head = first_texts(&pieces, n);
    join_texts(&head, "\\")
}

/// The first `n` of some texts.
fn first_texts(pieces: &Vec<String>, n: usize) -> (r: Vec<String>)
    requires
        n <= pieces@.len(),
    ensures
        texts(r@) == texts(pieces@).take(n as int),
{
    let mut out: Vec<String> = Vec::new();
    let mut i: usize = 0;
    assert(texts(out@) == texts(pieces@).take(0));
    while i < n
        invariant
            i <= n <= pieces@.len(),
            texts(out@) == texts(pieces@).take(i as int),
        decreases n - i,
    {
        let ghost before = out@;
        out.push(pieces[i].as_str().to_owned());
        assert(texts(out@) == texts(before).push(pieces@[i as int]@));
        assert(texts(pieces@).take(i + 1) == texts(pieces@).take(i as int).push(
            pieces@[i as int]@,
        ));
        i = i + 1;
    }
    out
}

/// Whether a path needs no other before it: on Windows that is one on a drive
/// or a server, elsewhere one from the root.
pub open spec fn stands_alone(p: Seq<char>, windows: bool) -> bool {
    let q = uniform(p, windows);
    if windows {
        names_drive(q) || (q.len() >= 2 && q[0] == '\\' && q[1] == '\\')
    } else {
        q.len() > 0 && q[0] == '/'
    }
}

/// `part` seen from `base`: a part that stands alone is all there is, on Windows
/// one from the root stays where the base starts, and any other follows the base
/// after one separator.
pub open spec fn under(base: Seq<char>, part: Seq<char>, windows: bool) -> Seq<char> {
    let p = uniform(part, windows);
    if stands_alone(part, windows) {
        p
    } else if windows && p.len() > 0 && p[0] == '\\' {
        start_of(base) + p
    } else if base.len() == 0 || base.last() == '/' || (windows && (base.last() == '\\' || (base.len()
        == 2 && names_drive(base)))) {
        base + p
    } else {
        base.push(separator(windows)) + p
    }
}

/// `part` seen from `base`.
pub fn join(base: &str, part: &str, windows: bool) -> (r: String)
    ensures
        r@ == under(base@, part@, windows),
{
    let b = chars_of(base);
    let whole = to_uniform(part, windows);
    let p = chars_of(whole.as_str());
    if windows {
        if begins_with_drive(&p) || (p.len() >= 2 && p[0] == '\\' && p[1] == '\\') {
            return whole;
        }
        if p.len() > 0 && p[0] == '\\' {
            let start = start_name(base);
            return glue2(start.as_str(), whole.as_str());
        }
    } else if p.len() > 0 && p[0] == '/' {
        return whole;
    }
    let mut out = base.to_owned();
    let n: usize = b.len();
    if n > 0 && b[n - 1] != '/' && !(windows && (b[n - 1] == '\\' || (n == 2 && begins_with_drive(
        &b,
    )))) {
        out.push(separator_of(windows));
    }
    out.append(whole.as_str());
    out
}

/// The last segment of a path.
pub open spec fn last_segment(path: Seq<char>, windows: bool) -> Seq<char> {
    split(uniform(path, windows), separator(windows)).last()
}

/// The last segment of a path.
pub fn file_name(path: &str, windows: bool) -> (r: String)
    ensures
        r@ == last_segment(path@, windows),
{
    let whole = to_uniform(path, windows);
    let parts = split_on(whole.as_str(), separator_of(windows));
    let n: usize = parts.len();
    assert(texts(parts@).last() == parts@[n - 1]@);
    parts[n - 1].clone()
}

/// Where the last dot of a file name stands: after the first character, or -1.
pub open spec fn last_dot(name: Seq<char>) -> int
    decreases name.len(),
{
    if name.len() <= 1 {
        -1
    } else if name.last() == '.' {
        name.len() - 1
    } else {
        last_dot(name.drop_last())
    }
}

/// A file name without its extension. A dot at the very front starts no
/// extension.
pub open spec fn stem(name: Seq<char>) -> Seq<char> {
    if last_dot(name) < 0 || name == seq!['.', '.'] {
        name
    } else {
        name.take(last_dot(name))
    }
}

/// What follows the last dot of a file name, unless that dot is at the very
/// front.
pub open spec fn extension(name: Seq<char>) -> Option<Seq<char>> {
    if last_dot(name) < 0 || name == seq!['.', '.'] {
        None
    } else {
        Some(name.skip(last_dot(name) + 1))
    }
}

proof fn lemma_last_dot(name: Seq<char>)
    ensures
        -1 <= last_dot(name) < name.len() || name.len() == 0,
        last_dot(name) != 0,
        last_dot(name) >= 0 ==> last_dot(name) < name.len(),
    decreases name.len(),
{
    if name.len() > 1 && name.last() != '.' {
        lemma_last_dot(name.drop_last());
    }
}

/// Where the extension of `v` begins, when it has one.
fn dot_of(v: &Vec<char>) -> (r: Option<usize>)
    ensures
        match r {
            Some(i) => 0 < i < v@.len() && i == last_dot(v@) && v@ != seq!['.', '.'],
            None => last_dot(v@) < 0 || v@ == seq!['.', '.'],
        },
{
    proof {
        lemma_last_dot(v@);
    }
    if v.len() == 2 && v[0] == '.' && v[1] == '.' {
        assert(v@ == seq!['.', '.']);
        return None;
    }
    let mut n: usize = v.len();
    assert(v@.take(n as int) == v@);
    while n > 1
        invariant
            n <= v@.len(),
            v@ != seq!['.', '.'],
            last_dot(v@) == last_dot(v@.take(n as int)),
            -1 <= last_dot(v@) < v@.len() || v@.len() == 0,
        decreases n,
    {
        if v[n - 1] == '.' {
            assert(v@.take(n as int).last() == '.');
            return Some(n - 1);
        }
        assert(v@.take(n as int).drop_last() == v@.take(n - 1));
        n = n - 1;
    }
    None
}

/// A file name without its extension.
pub fn file_stem(name: &str) -> (r: String)
    ensures
        r@ == stem(name@),
{
    let v = chars_of(name);
    match dot_of(&v) {
        Some(i) => {
            let r = text_of(&v, 0, i);
            assert(v@.subrange(0, i as int) == v@.take(i as int));
            r
        },
        None => name.to_owned(),
    }
}

/// The extension of a file name.
pub fn file_extension(name: &str) -> (r: Option<String>)
    ensures
        text_opt(r) == extension(name@),
{
    let v = chars_of(name);
    match dot_of(&v) {
        Some(i) => {
            let n: usize = v.len();
            let r = text_of(&v, i + 1, n);
            assert(v@.subrange(i + 1, v@.len() as int) == v@.skip(i + 1));
            Some(r)
        },
        None => None,
    }
}

// ---------------------------------------------------------------------------
// Staying inside a folder
// ---------------------------------------------------------------------------

/// `base` with a separator at its end.
pub open spec fn opened(base: Seq<char>, windows: bool) -> Seq<char> {
    if base.len() > 0 && base.last() == separator(windows) {
        base
    } else {
        base.push(separator(windows))
    }
}

/// Whether `p` is `base` or lies below it.
pub open spec fn lies_in(base: Seq<char>, p: Seq<char>, windows: bool) -> bool {
    uniform(p, windows) == uniform(base, windows) || begins(
        uniform(p, windows),
        opened(uniform(base, windows), windows),
    )
}

/// Whether `p` is `base` or lies below it.
pub fn is_inside(base: &str, p: &str, windows: bool) -> (r: bool)
    ensures
        r == lies_in(base@, p@, windows),
{
    let outer = to_uniform(base, windows);
    let inner = to_uniform(p, windows);
    if same(inner.as_str(), outer.as_str()) {
        return true;
    }
    let mut slashed: String = outer.clone();
    if !ends_in_separator(outer.as_str(), windows) {
        slashed.push(separator_of(windows));
    }
    starts_with(inner.as_str(), slashed.as_str())
}

/// Whether `s` ends in the separator that is put between segments.
fn ends_in_separator(s: &str, windows: bool) -> (r: bool)
    ensures
        r == (s@.len() > 0 && s@.last() == separator(windows)),
{
    let v = chars_of(s);
    v.len() > 0 && v[v.len() - 1] == separator_of(windows)
}

/// What stays of the segments of a path when `.` is left out and `..` takes
/// back the segment before it.
pub open spec fn settled(segments: Seq<Seq<char>>) -> Seq<Seq<char>>
    decreases segments.len(),
{
    if segments.len() == 0 {
        Seq::empty()
    } else {
        let before = settled(segments.drop_last());
        let s = segments.last();
        if s.len() == 0 || s == "."@ {
            before
        } else if s == ".."@ {
            if before.len() == 0 {
                before
            } else {
                before.drop_last()
            }
        } else {
            before.push(s)
        }
    }
}

/// A path without `.` and `..`, worked out on the text alone. What says on
/// Windows where the path starts stays.
pub open spec fn plain_form(p: Seq<char>, windows: bool) -> Seq<char> {
    if windows {
        let segments = split(uniform(p, true), '\\');
        let n = head_count(segments) as int;
        let body = joined(settled(segments.skip(n)), "\\"@);
        if n == 0 {
            body
        } else {
            start_of(p).push('\\') + body
        }
    } else {
        let body = joined(settled(split(p, '/')), "/"@);
        if p.len() > 0 && p[0] == '/' {
            seq!['/'] + body
        } else {
            body
        }
    }
}

/// What stays of the segments behind the first `from`.
fn settle(pieces: &Vec<String>, from: usize) -> (r: Vec<String>)
    requires
        from <= pieces@.len(),
    ensures
        texts(r@) == settled(texts(pieces@).skip(from as int)),
{
    let ghost all = texts(pieces@).skip(from as int);
    let mut kept: Vec<String> = Vec::new();
    let mut i: usize = from;
    assert(texts(kept@) == settled(all.take(0)));
    while i < pieces.len()
        invariant
            from <= i <= pieces@.len(),
            all == texts(pieces@).skip(from as int),
            texts(kept@) == settled(all.take(i - from)),
        decreases pieces@.len() - i,
    {
        let ghost before = kept@;
        assert(all.take(i + 1 - from).drop_last() == all.take(i - from));
        assert(all.take(i + 1 - from).last() == pieces@[i as int]@);
        let piece = pieces[i].as_str();
        if piece.is_empty() || same(piece, ".") {
        } else if same(piece, "..") {
            if kept.len() > 0 {
                let _gone = kept.pop();
                assert(texts(kept@) == texts(before).drop_last());
            }
        } else {
            kept.push(piece.to_owned());
            assert(texts(kept@) == texts(before).push(piece@));
        }
        i = i + 1;
    }
    assert(all.take(i - from) == all);
    kept
}

/// A path without `.` and `..`, worked out on the text alone.
pub fn flatten_path(p: &str, windows: bool) -> (r: String)
    ensures
        r@ == plain_form(p@, windows),
{
    let whole = to_uniform(p, windows);
    let pieces = split_on(whole.as_str(), separator_of(windows));
    if windows {
        let n = count_head(&pieces);
        let kept = settle(&pieces, n);
        let body = join_texts(&kept, "\\");
        if n == 0 {
            return body;
        }
        let mut out = start_name(p);
        out.push('\\');
        out.append(body.as_str());
        return out;
    }
    let kept = settle(&pieces, 0);
    assert(texts(pieces@).skip(0) == texts(pieces@));
    let body = join_texts(&kept, "/");
    let v = chars_of(p);
    if v.len() > 0 && v[0] == '/' {
        let out = glue2("/", body.as_str());
        proof {
            reveal_strlit("/");
            assert("/"@ == seq!['/']);
        }
        out
    } else {
        body
    }
}

/// A path in the form in which paths are compared: with `/` between segments,
/// without the prefix that marks an extended-length path, without a separator
/// at its end, and on Windows, where the file system does not tell letters of
/// different case apart, in lower case.
pub open spec fn comparable(p: Seq<char>, windows: bool) -> Seq<char> {
    let bare = drop_back(drop_prefix(swapped(p, '\\', '/'), "//?/"@), '/');
    if windows {
        lowercase_of(bare)
    } else {
        bare
    }
}

/// A path in the form in which paths are compared.
fn to_comparable(p: &str, windows: bool) -> (r: String)
    ensures
        r@ == comparable(p@, windows),
{
    let slashed = swap_char(p, '\\', '/');
    proof {
        reveal_strlit("//?/");
        assert("//?/"@.len() == 4);
    }
    let plain = strip_all(slashed.as_str(), "//?/");
    let bare = strip_back(plain.as_str(), '/');
    if windows {
        lowercase(bare.as_str())
    } else {
        bare
    }
}

/// Where a path that a browser names leads, seen from the workspace.
pub open spec fn destination(workspace: Seq<char>, path: Seq<char>, windows: bool) -> Seq<char> {
    plain_form(under(workspace, swapped(path, '\\', '/'), windows), windows)
}

/// Where a path that a browser names is let lead.
pub open spec fn is_confined(
    workspace: &str,
    path: &str,
    windows: bool,
    r: Result<String, String>,
) -> bool {
    if path@.len() == 0 {
        r matches Err(e) && e@ == "path required"@
    } else if !lies_in(
        comparable(workspace@, windows),
        comparable(destination(workspace@, path@, windows), windows),
        false,
    ) {
        r matches Err(e) && e@ == "path escapes the workspace"@
    } else {
        r matches Ok(p) && p@ == destination(workspace@, path@, windows)
    }
}

/// Resolve `path` (absolute or relative) and ensure it stays inside the
/// workspace. Working on the text is enough since only plain files the editor
/// created are ever read or written.
pub fn confine_to_workspace(workspace: &str, path: &str, windows: bool) -> (r: Result<String, String>)
    ensures
        is_confined(workspace, path, windows, r),
{
    if path.is_empty() {
        return Err("path required".to_owned());
    }
    let raw = swap_char(path, '\\', '/');
    let joined_path = join(workspace, raw.as_str(), windows);
    let normal = flatten_path(joined_path.as_str(), windows);
    let inner = to_comparable(normal.as_str(), windows);
    let outer = to_comparable(workspace, windows);
    if !is_inside(outer.as_str(), inner.as_str(), false) {
        return Err("path escapes the workspace".to_owned());
    }
    Ok(normal)
}

/// Which file a request gets, once the file system has spoken.
pub open spec fn is_resolved(
    workspace: &str,
    file: &str,
    canonical: Option<String>,
    windows: bool,
    r: Result<String, String>,
) -> bool {
    match canonical {
        None => r matches Err(e) && e@ == "not found: "@ + file@,
        Some(p) => if lies_in(workspace@, p@, windows) {
            r == Ok::<String, String>(p)
        } else {
            r matches Err(e) && e@ == "path escapes workspace"@
        },
    }
}

/// The path of a file that a request names relative to the workspace, once the
/// file system has said where it really is. Anything that is not there, or that
/// leads out of the workspace, is refused.
pub fn resolve_in_workspace(workspace: &str, file: &str, canonical: Option<String>, windows: bool) -> (r:
    Result<String, String>)
    ensures
        is_resolved(workspace, file, canonical, windows, r),
{
    match canonical {
        None => Err(glue2("not found: ", file)),
        Some(p) => if is_inside(workspace, p.as_str(), windows) {
            Ok(p)
        } else {
            Err("path escapes workspace".to_owned())
        },
    }
}

/// A path as the workspace sees it: without the workspace in front, and with `/`
/// between segments.
pub open spec fn relative_to(workspace: Seq<char>, path: Seq<char>, windows: bool) -> Seq<char> {
    let inner = if uniform(path, windows) == uniform(workspace, windows) {
        Seq::empty()
    } else if lies_in(workspace, path, windows) {
        path.skip(opened(uniform(workspace, windows), windows).len() as int)
    } else {
        path
    };
    swapped(inner, '\\', '/')
}

/// A path as the workspace sees it: without the workspace in front.
pub fn rel(workspace: &str, path: &str, windows: bool) -> (r: String)
    ensures
        r@ == relative_to(workspace@, path@, windows),
{
    let outer = to_uniform(workspace, windows);
    let whole = to_uniform(path, windows);
    let inner = if same(whole.as_str(), outer.as_str()) {
        String::new()
    } else if is_inside(workspace, path, windows) {
        let v = chars_of(path);
        let w = chars_of(outer.as_str());
        let total: usize = v.len();
        assert(opened(outer@, windows).len() <= total);
        let from: usize = if ends_in_separator(outer.as_str(), windows) {
            w.len()
        } else {
            w.len() + 1
        };
        let t = text_of(&v, from, total);
        assert(t@ == path@.skip(from as int));
        t
    } else {
        path.to_owned()
    };
    swap_char(inner.as_str(), '\\', '/')
}

// ---------------------------------------------------------------------------
// Laws
// ---------------------------------------------------------------------------

/// Whether a segment names something: it is not empty, neither `.` nor `..`, and
/// holds no separator.
pub open spec fn is_name(s: Seq<char>, sep: char) -> bool {
    s.len() > 0 && s != "."@ && s != ".."@ && !s.contains(sep)
}

/// The pieces of a text hold no separator, and no character that the text does
/// not.
proof fn lemma_split_pieces(s: Seq<char>, c: char, i: int)
    requires
        0 <= i < split(s, c).len(),
    ensures
        !split(s, c)[i].contains(c),
        forall|x: char| split(s, c)[i].contains(x) ==> s.contains(x),
    decreases s.len(),
{
    lemma_find(s, c);
    let k = find(s, c);
    if k < s.len() {
        let rest = s.skip(k + 1);
        if i == 0 {
            assert(split(s, c)[0] == s.take(k));
            assert forall|x: char| split(s, c)[i].contains(x) implies s.contains(x) by {
                let j = choose|j: int| 0 <= j < k && s.take(k)[j] == x;
                assert(s[j] == x);
            }
        } else {
            lemma_split_pieces(rest, c, i - 1);
            assert(split(s, c)[i] == split(rest, c)[i - 1]);
            assert forall|x: char| split(s, c)[i].contains(x) implies s.contains(x) by {
                assert(split(rest, c)[i - 1].contains(x));
                assert(rest.contains(x));
                let j = choose|j: int| 0 <= j < rest.len() && rest[j] == x;
                assert(s[j + k + 1] == x);
            }
        }
    } else {
        assert(split(s, c)[0] == s);
    }
}

/// What stays of segments without separators are names, and stood among them.
proof fn lemma_settled(segments: Seq<Seq<char>>, sep: char)
    requires
        forall|i: int| 0 <= i < segments.len() ==> !(#[trigger] segments[i]).contains(sep),
    ensures
        forall|i: int|
            0 <= i < settled(segments).len() ==> is_name(#[trigger] settled(segments)[i], sep)
                && segments.contains(settled(segments)[i]),
    decreases segments.len(),
{
    if segments.len() > 0 {
        let before = segments.drop_last();
        lemma_settled(before, sep);
        let s = segments.last();
        assert(segments[segments.len() - 1] == s);
        assert forall|i: int| 0 <= i < settled(segments).len() implies is_name(
            #[trigger] settled(segments)[i],
            sep,
        ) && segments.contains(settled(segments)[i]) by {
            if i < settled(before).len() {
                assert(settled(segments)[i] == settled(before)[i]);
                let j = choose|j: int| 0 <= j < before.len() && before[j] == settled(before)[i];
                assert(segments[j] == settled(segments)[i]);
            }
        }
    }
}

/// Names with separators between them neither begin nor end in one, and hold no
/// other character than the names do.
proof fn lemma_joined_names(parts: Seq<Seq<char>>)
    requires
        parts.len() > 0,
        forall|i: int| 0 <= i < parts.len() ==> is_name(#[trigger] parts[i], '/'),
    ensures
        joined(parts, "/"@).len() > 0,
        joined(parts, "/"@)[0] != '/',
        joined(parts, "/"@).last() != '/',
        forall|x: char|
            joined(parts, "/"@).contains(x) ==> x == '/' || exists|i: int|
                0 <= i < parts.len() && (#[trigger] parts[i]).contains(x),
    decreases parts.len(),
{
    reveal_strlit("/");
    let last = parts.last();
    assert(parts[parts.len() - 1] == last);
    assert(last.contains(last.last()));
    if parts.len() > 1 {
        let before = parts.drop_last();
        lemma_joined_names(before);
        let head = joined(before, "/"@);
        let all = joined(parts, "/"@);
        assert(all == head + "/"@ + last);
        assert forall|x: char| all.contains(x) implies x == '/' || exists|i: int|
            0 <= i < parts.len() && (#[trigger] parts[i]).contains(x) by {
            let j = choose|j: int| 0 <= j < all.len() && all[j] == x;
            if j < head.len() {
                assert(head[j] == x);
                assert(head.contains(x));
                if x != '/' {
                    let i = choose|i: int|
                        0 <= i < before.len() && (#[trigger] before[i]).contains(x);
                    assert(parts[i].contains(x));
                }
            } else if j > head.len() {
                assert(last[j - head.len() - 1] == x);
                assert(parts[parts.len() - 1].contains(x));
            }
        }
    } else {
        assert(parts[0].contains(parts[0][0]));
        assert forall|x: char| joined(parts, "/"@).contains(x) implies x == '/' || exists|i: int|
            0 <= i < parts.len() && (#[trigger] parts[i]).contains(x) by {
            assert(parts[0].contains(x));
        }
    }
}

/// The segments of a path with separators between them can be read back from it.
proof fn lemma_segments_read_back(parts: Seq<Seq<char>>, sep: char)
    requires
        parts.len() > 0,
        forall|i: int| 0 <= i < parts.len() ==> !(#[trigger] parts[i]).contains(sep),
    ensures
        split(joined(parts, seq![sep]), sep) == parts,
    decreases parts.len(),
{
    let last = parts.last();
    assert(!parts[parts.len() - 1].contains(sep));
    lemma_find(last, sep);
    if parts.len() == 1 {
        assert(split(parts[0], sep) == seq![parts[0]]);
        assert(seq![parts[0]] == parts);
    } else {
        let before = parts.drop_last();
        lemma_segments_read_back(before, sep);
        let head = joined(before, seq![sep]);
        lemma_split_of_more(head, last, sep);
        assert(head + seq![sep] + last == head.push(sep) + last);
        assert(before.push(last) == parts);
    }
}

/// A segment put behind a separator is one more piece.
proof fn lemma_split_of_more(s: Seq<char>, name: Seq<char>, sep: char)
    requires
        !name.contains(sep),
    ensures
        split(s.push(sep) + name, sep) == split(s, sep).push(name),
    decreases s.len(),
{
    let all = s.push(sep) + name;
    let k = find(s, sep);
    lemma_find(s, sep);
    lemma_find(all, sep);
    lemma_find(name, sep);
    assert(all[s.len() as int] == sep);
    assert(all.contains(sep));
    assert(find(all, sep) == k) by {
        let m = find(all, sep);
        if m < k {
            assert(all[m] == s[m]);
        }
        if k < m {
            if k < s.len() {
                assert(all[k] == s[k]);
            }
        }
    }
    if k < s.len() {
        let rest = s.skip(k + 1);
        lemma_split_of_more(rest, name, sep);
        assert(all.skip(k + 1) == rest.push(sep) + name);
        assert(all.take(k) == s.take(k));
        assert(seq![s.take(k)] + split(rest, sep).push(name) == (seq![s.take(k)] + split(
            rest,
            sep,
        )).push(name));
    } else {
        assert(all.take(k) == s);
        assert(all.skip(k + 1) == name);
        assert(split(name, sep) == seq![name]);
        assert(seq![s] + seq![name] == seq![s].push(name));
    }
}

/// Segments put behind others, with a separator between the two, are joined as
/// one.
proof fn lemma_joined_apart(a: Seq<Seq<char>>, b: Seq<Seq<char>>, sep: Seq<char>)
    requires
        a.len() > 0,
        b.len() > 0,
    ensures
        joined(a + b, sep) == joined(a, sep) + sep + joined(b, sep),
    decreases b.len(),
{
    assert((a + b).drop_last() == a + b.drop_last());
    assert((a + b).last() == b.last());
    if b.len() > 1 {
        lemma_joined_apart(a, b.drop_last(), sep);
        assert(joined(a, sep) + sep + joined(b.drop_last(), sep) + sep + b.last() == joined(a, sep)
            + sep + (joined(b.drop_last(), sep) + sep + b.last()));
    } else {
        assert(a + b.drop_last() == a);
    }
}

/// The plain form of a path from the root is the root, or the root and names
/// with separators between them.
proof fn lemma_plain_form(p: Seq<char>)
    requires
        p.len() > 0,
        p[0] == '/',
    ensures
        ({
            let names = settled(split(p, '/'));
            let q = plain_form(p, false);
            &&& forall|i: int| 0 <= i < names.len() ==> is_name(#[trigger] names[i], '/')
            &&& q[0] == '/'
            &&& names.len() == 0 ==> q == seq!['/']
            &&& names.len() > 0 ==> q.len() > 1 && q[1] != '/' && q.last() != '/' && split(q, '/') == seq![
                Seq::<char>::empty(),
            ] + names
            &&& forall|x: char| q.contains(x) ==> x == '/' || p.contains(x)
        }),
{
    reveal_strlit("/");
    let segments = split(p, '/');
    assert forall|i: int| 0 <= i < segments.len() implies !(#[trigger] segments[i]).contains('/') by {
        lemma_split_pieces(p, '/', i);
    }
    lemma_settled(segments, '/');
    let names = settled(segments);
    let body = joined(names, "/"@);
    let q = plain_form(p, false);
    assert(q == seq!['/'] + body);
    if names.len() > 0 {
        lemma_joined_names(names);
        assert("/"@ == seq!['/']);
        lemma_segments_read_back(names, '/');
        assert(q[1] == body[0]);
        assert(q.last() == body.last());
        lemma_find(q, '/');
        assert(q.contains(q[0]));
        assert(find(q, '/') == 0);
        assert(q.take(0) == Seq::<char>::empty());
        assert(q.skip(1) == body);
    } else {
        assert(q == seq!['/']);
    }
    assert forall|x: char| q.contains(x) implies x == '/' || p.contains(x) by {
        let j = choose|j: int| 0 <= j < q.len() && q[j] == x;
        if j > 0 {
            assert(body[j - 1] == x);
            assert(body.contains(x));
            if x != '/' {
                let i = choose|i: int| 0 <= i < names.len() && (#[trigger] names[i]).contains(x);
                let k = choose|k: int| 0 <= k < segments.len() && segments[k] == names[i];
                lemma_split_pieces(p, '/', k);
            }
        }
    }
}

/// A path of names from the root is what it is compared as.
proof fn lemma_comparable(p: Seq<char>)
    requires
        p.len() > 1,
        p[0] == '/',
        p[1] != '/',
        p.last() != '/',
        !p.contains('\\'),
    ensures
        comparable(p, false) == p,
{
    reveal_strlit("//?/");
    assert(swapped(p, '\\', '/') == p) by {
        assert forall|i: int| 0 <= i < p.len() implies p[i] != '\\' by {
            assert(p.contains(p[i]));
        }
    }
    assert("//?/"@[1] == '/');
    if begins(p, "//?/"@) {
        assert(p.take(4)[1] == p[1]);
    }
}

/// What the editor's files are confined to: a path that is let through lies in
/// the workspace, and no `..` is left in it that could lead out again.
pub proof fn law_confined_paths_stay_inside(workspace: Seq<char>, path: Seq<char>)
    requires
        workspace.len() > 1,
        workspace[0] == '/',
        workspace[1] != '/',
        workspace.last() != '/',
        !workspace.contains('\\'),
        lies_in(
            comparable(workspace, false),
            comparable(destination(workspace, path, false), false),
            false,
        ),
    ensures
        lies_in(workspace, destination(workspace, path, false), false),
        !split(destination(workspace, path, false), '/').contains(".."@),
{
    let raw = swapped(path, '\\', '/');
    let p = under(workspace, raw, false);
    assert(p.len() > 0 && p[0] == '/');
    assert(!p.contains('\\')) by {
        if p.contains('\\') {
            let j = choose|j: int| 0 <= j < p.len() && p[j] == '\\';
            if p != raw {
                if j < workspace.len() {
                    assert(workspace[j] == '\\');
                    assert(workspace.contains('\\'));
                } else if j > workspace.len() {
                    assert(raw[j - workspace.len() - 1] == '\\');
                }
            }
        }
    }
    lemma_plain_form(p);
    let q = plain_form(p, false);
    let names = settled(split(p, '/'));
    lemma_comparable(workspace);
    if names.len() == 0 {
        reveal_strlit("//?/");
        assert(q == seq!['/']);
        assert(swapped(q, '\\', '/') == q);
        assert(drop_prefix(q, "//?/"@) == q);
        assert(q.drop_last() == Seq::<char>::empty());
        assert(drop_back(q, '/') == drop_back(q.drop_last(), '/'));
        assert(false);
    } else {
        lemma_comparable(q);
        reveal_strlit("..");
        let all = seq![Seq::<char>::empty()] + names;
        assert(!all.contains(".."@)) by {
            if all.contains(".."@) {
                let j = choose|j: int| 0 <= j < all.len() && all[j] == ".."@;
                assert("..".view().len() == 2);
                assert(all[j] == names[j - 1]);
                assert(is_name(names[j - 1], '/'));
            }
        }
    }
}

/// What the plain form of a path on Windows is made of: what says where the path
/// starts, and names.
proof fn lemma_windows_form(p: Seq<char>)
    ensures
        ({
            let segments = split(uniform(p, true), '\\');
            let n = head_count(segments) as int;
            let names = settled(segments.skip(n));
            let q = plain_form(p, true);
            &&& forall|k: int| 0 <= k < names.len() ==> is_name(#[trigger] names[k], '\\')
            &&& !q.contains('/')
            &&& names.len() > 0 ==> split(q, '\\') == segments.take(n) + names
            &&& names.len() == 0 ==> split(q, '\\') == segments.take(n).push(Seq::empty())
        }),
{
    reveal_strlit("\\");
    assert("\\"@ == seq!['\\']);
    let whole = uniform(p, true);
    let segments = split(whole, '\\');
    let n = head_count(segments) as int;
    let head = segments.take(n);
    let rest = segments.skip(n);
    let names = settled(rest);
    assert(!whole.contains('/'));
    assert forall|k: int| 0 <= k < segments.len() implies !(#[trigger] segments[k]).contains('\\')
        && !segments[k].contains('/') by {
        lemma_split_pieces(whole, '\\', k);
    }
    assert forall|k: int| 0 <= k < rest.len() implies !(#[trigger] rest[k]).contains('\\') by {
        assert(rest[k] == segments[k + n]);
    }
    lemma_settled(rest, '\\');
    assert forall|k: int| 0 <= k < names.len() implies !(#[trigger] names[k]).contains('/') by {
        let j = choose|j: int| 0 <= j < rest.len() && rest[j] == names[k];
        assert(rest[j] == segments[j + n]);
    }
    assert forall|k: int| 0 <= k < head.len() implies !(#[trigger] head[k]).contains('/') by {
        assert(head[k] == segments[k]);
    }
    lemma_joined_lacks(head, "\\"@, '/');
    lemma_joined_lacks(names, "\\"@, '/');
    let q = plain_form(p, true);
    let none = Seq::<char>::empty();
    if names.len() == 0 {
        if n == 0 {
            lemma_find(none, '\\');
            assert(q == none);
            assert(split(q, '\\') == seq![none]);
            assert(head.push(none) == seq![none]);
        } else {
            lemma_segments_read_back(head, '\\');
            lemma_split_of_more(start_of(p), none, '\\');
            assert(q == start_of(p).push('\\') + none);
        }
    } else {
        let all = head + names;
        if n > 0 {
            lemma_joined_apart(head, names, "\\"@);
            assert(q == joined(head, "\\"@) + "\\"@ + joined(names, "\\"@));
        } else {
            assert(all == names);
        }
        assert forall|k: int| 0 <= k < all.len() implies !(#[trigger] all[k]).contains('\\') by {
            if k < n {
                assert(all[k] == segments[k]);
            } else {
                assert(is_name(names[k - n], '\\'));
            }
        }
        lemma_segments_read_back(all, '\\');
    }
}

/// What is joined holds no character that is in none of the pieces.
proof fn lemma_joined_lacks(parts: Seq<Seq<char>>, sep: Seq<char>, c: char)
    requires
        !sep.contains(c),
        forall|k: int| 0 <= k < parts.len() ==> !(#[trigger] parts[k]).contains(c),
    ensures
        !joined(parts, sep).contains(c),
    decreases parts.len(),
{
    if parts.len() == 1 {
        assert(!parts[0].contains(c));
    } else if parts.len() > 1 {
        let before = parts.drop_last();
        assert forall|k: int| 0 <= k < before.len() implies !(#[trigger] before[k]).contains(c) by {
            assert(before[k] == parts[k]);
        }
        lemma_joined_lacks(before, sep, c);
        let head = joined(before, sep);
        let last = parts.last();
        assert(!parts[parts.len() - 1].contains(c));
        let all = head + sep + last;
        assert forall|j: int| 0 <= j < all.len() implies all[j] != c by {
            if j < head.len() {
                assert(head.contains(head[j]));
            } else if j < head.len() + sep.len() {
                assert(sep.contains(sep[j - head.len()]));
            } else {
                assert(last.contains(last[j - head.len() - sep.len()]));
            }
        }
    }
}

/// Names stay, with or without an empty segment before them.
proof fn lemma_names_stay(names: Seq<Seq<char>>, sep: char)
    requires
        forall|k: int| 0 <= k < names.len() ==> is_name(#[trigger] names[k], sep),
    ensures
        settled(names) == names,
        settled(seq![Seq::<char>::empty()] + names) == names,
    decreases names.len(),
{
    let none = Seq::<char>::empty();
    let all = seq![none] + names;
    if names.len() > 0 {
        let before = names.drop_last();
        lemma_names_stay(before, sep);
        assert(is_name(names[names.len() - 1], sep));
        assert(all.drop_last() == seq![none] + before);
        assert(all.last() == names.last());
        assert(before.push(names.last()) == names);
    } else {
        assert(all.drop_last() == Seq::<Seq<char>>::empty());
        assert(all.last() == none);
        assert(settled(all) == settled(all.drop_last()));
    }
}

/// On Windows too, no `..` is left in a path behind what says where it starts, so
/// that what was compared with the workspace is where the path leads.
pub proof fn law_no_way_back_is_left(p: Seq<char>, i: int)
    requires
        head_count(split(uniform(p, true), '\\')) <= i < split(plain_form(p, true), '\\').len(),
    ensures
        split(plain_form(p, true), '\\')[i] != ".."@,
{
    reveal_strlit("..");
    assert(".."@.len() == 2);
    lemma_windows_form(p);
    let segments = split(uniform(p, true), '\\');
    let n = head_count(segments) as int;
    let names = settled(segments.skip(n));
    if names.len() > 0 {
        assert(is_name(names[i - n], '\\'));
    }
}

/// Whether a path says in full where it starts: on Windows with a drive, elsewhere
/// with the root. Outside Windows a `\` could be part of a name, and is left out.
pub open spec fn is_rooted(p: Seq<char>, windows: bool) -> bool {
    if windows {
        let first = split(uniform(p, true), '\\')[0];
        first.len() == 2 && names_drive(first)
    } else {
        p.len() > 0 && p[0] == '/' && !p.contains('\\')
    }
}

/// A path that the editor handed out leads, when a browser sends it back, to the
/// same place, and reads the same.
pub proof fn law_an_echoed_path_is_kept(workspace: Seq<char>, p: Seq<char>, windows: bool)
    requires
        is_rooted(p, windows),
    ensures
        destination(workspace, plain_form(p, windows), windows) == plain_form(p, windows),
{
    let none = Seq::<char>::empty();
    let q = plain_form(p, windows);
    let back = swapped(q, '\\', '/');
    if windows {
        lemma_windows_form(p);
        let segments = split(uniform(p, true), '\\');
        let names = settled(segments.skip(1));
        assert(uniform(back, true) == q) by {
            assert forall|i: int| 0 <= i < q.len() implies q[i] != '/' by {
                assert(q.contains(q[i]));
            }
        }
        assert(uniform(q, true) == q) by {
            assert forall|i: int| 0 <= i < q.len() implies q[i] != '/' by {
                assert(q.contains(q[i]));
            }
        }
        assert(head_count(segments) == 1);
        let first = segments[0];
        assert(segments.take(1) == seq![first]);
        assert(start_of(p) == first);
        assert(q[0] == first[0] && q[1] == first[1]);
        assert(under(workspace, back, true) == q);
        let again = split(q, '\\');
        assert(again[0] == first);
        assert(head_count(again) == 1);
        assert(again.take(1) == seq![first]);
        lemma_names_stay(names, '\\');
        if names.len() > 0 {
            assert(again.skip(1) == names);
        } else {
            assert(again.skip(1) == seq![none] + names);
        }
        assert(settled(again.skip(1)) == names);
    } else {
        lemma_plain_form(p);
        assert(back == q) by {
            assert forall|i: int| 0 <= i < q.len() implies q[i] != '\\' by {
                assert(q.contains(q[i]));
            }
        }
        let names = settled(split(p, '/'));
        lemma_names_stay(names, '/');
        if names.len() == 0 {
            lemma_find(q, '/');
            lemma_find(none, '/');
            assert(q.contains(q[0]));
            assert(find(q, '/') == 0);
            assert(q.take(0) == none);
            assert(q.skip(1) == none);
            assert(split(none, '/') == seq![none]);
            let again = split(q, '/');
            assert(again == seq![none, none]);
            assert(again.drop_last() == seq![none] + names);
            assert(settled(again) == settled(again.drop_last()));
        }
    }
}

/// A neighbour whose name merely begins like the workspace's is not inside it.
pub proof fn law_a_neighbour_is_outside(workspace: Seq<char>, more: Seq<char>, windows: bool)
    requires
        workspace.len() > 0,
        workspace.last() != '/',
        windows ==> workspace.last() != '\\',
        more.len() > 0,
        more[0] != '/',
        windows ==> more[0] != '\\',
    ensures
        !lies_in(workspace, workspace + more, windows),
{
    let p = uniform(workspace + more, windows);
    let w = uniform(workspace, windows);
    assert(w.last() == workspace.last());
    if begins(p, opened(w, windows)) {
        assert(p.take(w.len() as int + 1)[w.len() as int] == separator(windows));
        assert((workspace + more)[w.len() as int] == more[0]);
    }
    assert(p.len() > w.len());
}

/// A part follows its base after one separator; a part from the root stands alone.
pub proof fn law_where_a_part_stands(base: Seq<char>, part: Seq<char>)
    requires
        base.len() > 0 && base.last() != '/',
        part.len() > 0,
    ensures
        part[0] != '/' ==> under(base, part, false) == base + "/"@ + part,
        part[0] != '/' ==> under(base + "/"@, part, false) == base + "/"@ + part,
        part[0] == '/' ==> under(base, part, false) == part,
        under(Seq::empty(), part, false) == part,
        base.last() != '\\' && base.len() > 2 && !part.contains('/') && !part.contains('\\') && (
        part.len() < 2 || part[1] != ':') ==> under(base, part, true) == base + "\\"@ + part,
{
    reveal_strlit("/");
    reveal_strlit("\\");
    assert(base.push('/') + part == base + "/"@ + part);
    assert(base.push('\\') + part == base + "\\"@ + part);
    assert(Seq::<char>::empty() + part == part);
    if !part.contains('/') {
        assert forall|i: int| 0 <= i < part.len() implies part[i] != '/' by {
            assert(part.contains(part[i]));
        }
        assert(swapped(part, '/', '\\') == part);
        if part[0] == '\\' {
            assert(part.contains('\\'));
        }
    }
}

/// On Windows a path on a drive stands alone.
pub proof fn law_a_drive_stands_alone(base: Seq<char>, drive: char, rest: Seq<char>)
    requires
        'a' <= drive <= 'z' || 'A' <= drive <= 'Z',
        !rest.contains('/'),
    ensures
        under(base, seq![drive, ':'] + rest, true) == seq![drive, ':'] + rest,
{
    let p = seq![drive, ':'] + rest;
    assert forall|i: int| 0 <= i < p.len() implies p[i] != '/' by {
        if i >= 2 {
            assert(rest.contains(rest[i - 2]));
        }
    }
    assert(swapped(p, '/', '\\') == p);
}

/// The last segment of a path is what stands behind its last separator.
pub proof fn law_what_the_last_segment_is(dir: Seq<char>, name: Seq<char>)
    requires
        !name.contains('/'),
    ensures
        last_segment(dir + "/"@ + name, false) == name,
        last_segment(name, false) == name,
{
    reveal_strlit("/");
    lemma_split_of_more(dir, name, '/');
    assert(dir.push('/') + name == dir + "/"@ + name);
    lemma_find(name, '/');
}

/// The extension of a file name is what stands behind its last dot, and the stem
/// what stands before it; a dot at the very front starts none.
pub proof fn law_what_stem_and_extension_are(base: Seq<char>, ext: Seq<char>)
    requires
        base.len() > 0,
        !ext.contains('.'),
        base + "."@ + ext != ".."@,
    ensures
        stem(base + "."@ + ext) == base,
        extension(base + "."@ + ext) == Some(ext),
        ext.len() > 0 ==> stem(ext) == ext && extension(ext) is None,
        stem("."@ + ext) == "."@ + ext,
        extension("."@ + ext) is None,
{
    reveal_strlit(".");
    reveal_strlit("..");
    assert(".."@ == seq!['.', '.']);
    let name = base + "."@ + ext;
    lemma_dot_of_name(base, ext);
    assert(name.take(base.len() as int) == base);
    assert(name.skip(base.len() as int + 1) == ext);
    lemma_no_dot(ext);
    lemma_no_dot_behind(ext);
    if ext == seq!['.', '.'] {
        assert(ext[0] == '.');
        assert(ext.contains('.'));
    }
}

proof fn lemma_dot_of_name(base: Seq<char>, ext: Seq<char>)
    requires
        base.len() > 0,
        !ext.contains('.'),
    ensures
        last_dot(base + "."@ + ext) == base.len(),
    decreases ext.len(),
{
    reveal_strlit(".");
    let name = base + "."@ + ext;
    if ext.len() > 0 {
        let shorter = ext.drop_last();
        assert(name.drop_last() == base + "."@ + shorter);
        assert(name.last() == ext.last());
        assert(ext.contains(ext.last()));
        assert(!shorter.contains('.')) by {
            if shorter.contains('.') {
                let i = choose|i: int| 0 <= i < shorter.len() && shorter[i] == '.';
                assert(ext[i] == '.');
            }
        }
        lemma_dot_of_name(base, shorter);
    } else {
        assert(name.last() == '.');
    }
}

proof fn lemma_no_dot(s: Seq<char>)
    requires
        !s.contains('.'),
    ensures
        last_dot(s) < 0,
    decreases s.len(),
{
    if s.len() > 1 {
        assert(s.contains(s.last()));
        let shorter = s.drop_last();
        assert(!shorter.contains('.')) by {
            if shorter.contains('.') {
                let i = choose|i: int| 0 <= i < shorter.len() && shorter[i] == '.';
                assert(s[i] == '.');
            }
        }
        lemma_no_dot(shorter);
    }
}

proof fn lemma_no_dot_behind(ext: Seq<char>)
    requires
        !ext.contains('.'),
    ensures
        last_dot("."@ + ext) < 0,
    decreases ext.len(),
{
    reveal_strlit(".");
    let s = "."@ + ext;
    if ext.len() > 0 {
        let shorter = ext.drop_last();
        assert(s.drop_last() == "."@ + shorter);
        assert(s.last() == ext.last());
        assert(ext.contains(ext.last()));
        assert(!shorter.contains('.')) by {
            if shorter.contains('.') {
                let i = choose|i: int| 0 <= i < shorter.len() && shorter[i] == '.';
                assert(ext[i] == '.');
            }
        }
        lemma_no_dot_behind(shorter);
    }
}

/// Of the segments of a path, empty ones and `.` count for nothing, `..` takes back
/// the one before it, and any other is kept.
pub proof fn law_which_segments_stay(segments: Seq<Seq<char>>, s: Seq<char>)
    ensures
        settled(Seq::empty()) == Seq::<Seq<char>>::empty(),
        settled(segments.push(Seq::empty())) == settled(segments),
        settled(segments.push("."@)) == settled(segments),
        settled(segments).len() > 0 ==> settled(segments.push(".."@)) == settled(segments).drop_last(),
        settled(segments).len() == 0 ==> settled(segments.push(".."@)).len() == 0,
        s.len() > 0 && s != "."@ && s != ".."@ ==> settled(segments.push(s)) == settled(segments).push(
            s,
        ),
{
    reveal_strlit(".");
    reveal_strlit("..");
    assert("."@.len() == 1 && ".."@.len() == 2);
    assert(segments.push(Seq::<char>::empty()).drop_last() == segments);
    assert(segments.push("."@).drop_last() == segments);
    assert(segments.push(".."@).drop_last() == segments);
    assert(segments.push(s).drop_last() == segments);
}

/// A path from the root is written out of the segments that stay.
pub proof fn law_what_the_plain_form_is(p: Seq<char>)
    requires
        p.len() > 0 && p[0] == '/',
    ensures
        plain_form(p, false) == "/"@ + joined(settled(split(p, '/')), "/"@),
{
    reveal_strlit("/");
    assert("/"@ == seq!['/']);
}

/// A file that a browser names lies directly in the workspace under its name.
pub proof fn law_where_a_named_file_lies(workspace: Seq<char>, name: Seq<char>)
    requires
        workspace.len() > 1 && workspace[0] == '/' && workspace.last() != '/',
        plain_form(workspace, false) == workspace,
        name.len() > 0 && name != "."@ && name != ".."@,
        !name.contains('/') && !name.contains('\\'),
    ensures
        destination(workspace, name, false) == workspace + "/"@ + name,
        destination(workspace, workspace + "/"@ + name, false) == workspace + "/"@ + name
            || workspace.contains('\\'),
{
    reveal_strlit("/");
    assert("/"@ == seq!['/']);
    assert forall|i: int| 0 <= i < name.len() implies name[i] != '\\' && name[i] != '/' by {
        assert(name.contains(name[i]));
    }
    assert(swapped(name, '\\', '/') == name);
    let all = workspace.push('/') + name;
    assert(all == workspace + "/"@ + name);
    lemma_split_of_more(workspace, name, '/');
    let segments = split(workspace, '/');
    law_which_segments_stay(segments, name);
    lemma_plain_form(workspace);
    let names = settled(segments);
    if names.len() == 0 {
        assert(false);
    }
    law_how_pieces_are_joined(names, name, "/"@);
    assert(seq!['/'] + (joined(names, "/"@) + "/"@ + name) == (seq!['/'] + joined(names, "/"@))
        + "/"@ + name);
    if !workspace.contains('\\') {
        assert forall|i: int| 0 <= i < all.len() implies all[i] != '\\' by {
            if i < workspace.len() {
                assert(workspace.contains(workspace[i]));
            } else if i > workspace.len() {
                assert(all[i] == name[i - workspace.len() - 1]);
            }
        }
        assert(swapped(all, '\\', '/') == all);
    }
}

/// A path as the workspace sees it is what stands behind the workspace, with
/// forward slashes; one outside it is left whole.
pub proof fn law_how_the_workspace_sees_a_path(workspace: Seq<char>, rest: Seq<char>, other: Seq<char>)
    requires
        workspace.len() > 0 && workspace.last() != '/',
        !rest.contains('\\'),
    ensures
        relative_to(workspace, workspace + "/"@ + rest, false) == rest,
        relative_to(workspace, workspace, false).len() == 0,
        !lies_in(workspace, other, false) && !other.contains('\\') ==> relative_to(
            workspace,
            other,
            false,
        ) == other,
{
    reveal_strlit("/");
    let p = workspace + "/"@ + rest;
    assert(p.take(workspace.len() as int + 1) == workspace.push('/'));
    assert(p.skip(workspace.len() as int + 1) == rest);
    assert forall|i: int| 0 <= i < rest.len() implies rest[i] != '\\' by {
        assert(rest.contains(rest[i]));
    }
    assert(swapped(rest, '\\', '/') == rest);
    assert(p.len() > workspace.len());
    if !other.contains('\\') {
        assert forall|i: int| 0 <= i < other.len() implies other[i] != '\\' by {
            assert(other.contains(other[i]));
        }
        assert(swapped(other, '\\', '/') == other);
    }
}

/// What lies in a folder is the folder and what goes on from it.
pub proof fn law_what_lies_in_a_folder(base: Seq<char>, rest: Seq<char>, p: Seq<char>)
    requires
        base.len() > 0 && base.last() != '/',
    ensures
        lies_in(base, base, false),
        lies_in(base, base + "/"@ + rest, false),
        lies_in(base, p, false) && p != base ==> p.len() > base.len() && p.take(base.len() as int)
            == base && p[base.len() as int] == '/',
{
    reveal_strlit("/");
    let q = base + "/"@ + rest;
    assert(q.take(base.len() as int + 1) == base.push('/'));
    if lies_in(base, p, false) && p != base {
        let whole = base.push('/');
        assert(p.take(whole.len() as int) == whole);
        assert(p.take(base.len() as int) == whole.take(base.len() as int));
        assert(whole.take(base.len() as int) == base);
        assert(p.take(whole.len() as int)[base.len() as int] == p[base.len() as int]);
    }
}

/// Paths are compared with forward slashes and without slashes at their end, and
/// on Windows without regard to case.
pub proof fn law_how_paths_are_compared(p: Seq<char>)
    ensures
        comparable(p, true) == lowercase_of(comparable(p, false)),
        comparable(swapped(p, '\\', '/'), false) == comparable(p, false),
        p.len() > 1 && p[0] == '/' && p[1] != '/' && p.last() != '/' && !p.contains('\\')
            ==> comparable(p, false) == p,
{
    assert(swapped(swapped(p, '\\', '/'), '\\', '/') == swapped(p, '\\', '/'));
    if p.len() > 1 && p[0] == '/' && p[1] != '/' && p.last() != '/' && !p.contains('\\') {
        lemma_comparable(p);
    }
}

/// A path is let through where it leads into the workspace, and refused everywhere
/// else.
pub proof fn law_what_is_let_through(workspace: &str, path: &str, windows: bool, r: Result<String, String>)
    requires
        is_confined(workspace, path, windows, r),
    ensures
        r matches Ok(p) ==> path@.len() > 0 && p@ == destination(workspace@, path@, windows)
            && lies_in(comparable(workspace@, windows), comparable(p@, windows), false),
        path@.len() > 0 && lies_in(
            comparable(workspace@, windows),
            comparable(destination(workspace@, path@, windows), windows),
            false,
        ) ==> r is Ok,
        path@.len() == 0 ==> (r matches Err(e) && e@ == "path required"@),
        path@.len() > 0 && r is Err ==> (r matches Err(e) && e@ == "path escapes the workspace"@),
{
}

/// A file is found where it is there and lies in the workspace.
pub proof fn law_what_is_found(
    workspace: &str,
    file: &str,
    p: String,
    windows: bool,
    r: Result<String, String>,
)
    ensures
        is_resolved(workspace, file, None, windows, r) ==> (r matches Err(e) && e@ == "not found: "@
            + file@),
        is_resolved(workspace, file, Some(p), windows, r) && lies_in(workspace@, p@, windows) ==> r
            == Ok::<String, String>(p),
        is_resolved(workspace, file, Some(p), windows, r) && !lies_in(workspace@, p@, windows) ==> (
        r matches Err(e) && e@ == "path escapes workspace"@),
{
}

} // verus!
