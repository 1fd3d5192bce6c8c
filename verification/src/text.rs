//! Operations on text, each stated over the sequence of characters it holds.
//!
//! Names, paths, headers and cron expressions all reach the rest of the crate
//! as text. The functions here are the handful of operations everything else is
//! built from: trimming, splitting, searching, comparing and reading numbers.
use vstd::prelude::*;
use vstd::string::*;

verus! {

/// `String::push` appends one character to the end of the text.
pub assume_specification[ String::push ](s: &mut String, c: char)
    ensures
        final(s)@ == old(s)@.push(c),
;

/// The characters of each text in a list.
pub open spec fn texts(v: Seq<String>) -> Seq<Seq<char>> {
    Seq::new(v.len(), |i: int| v[i]@)
}

/// The characters of `s`, as a vector that can be indexed.
pub fn chars_of(s: &str) -> (r: Vec<char>)
    ensures
        r@ == s@,
{
    let mut out: Vec<char> = Vec::new();
    for c in it: s.chars()
        invariant
            out@.len() == it.index(),
            it.seq() == s@,
            forall|i: int| 0 <= i < out@.len() ==> out@[i] == s@[i],
    {
        out.push(c);
    }
    out
}

/// The text made of `v[from..to]`.
pub fn text_of(v: &Vec<char>, from: usize, to: usize) -> (r: String)
    requires
        from <= to <= v@.len(),
    ensures
        r@ == v@.subrange(from as int, to as int),
{
    let mut out = String::new();
    let mut i: usize = from;
    while i < to
        invariant
            from <= i <= to <= v@.len(),
            out@ == v@.subrange(from as int, i as int),
        decreases to - i,
    {
        out.push(v[i]);
        i = i + 1;
    }
    out
}

/// Whether two texts hold the same characters.
pub fn same(a: &str, b: &str) -> (r: bool)
    ensures
        r == (a@ == b@),
{
    let x = chars_of(a);
    let y = chars_of(b);
    if x.len() != y.len() {
        return false;
    }
    let mut i: usize = 0;
    while i < x.len()
        invariant
            i <= x@.len(),
            x@ == a@,
            y@ == b@,
            x@.len() == y@.len(),
            forall|j: int| 0 <= j < i ==> x@[j] == y@[j],
        decreases x@.len() - i,
    {
        if x[i] != y[i] {
            return false;
        }
        i = i + 1;
    }
    assert(x@ == y@);
    true
}

/// Two texts, one after the other.
pub fn glue2(a: &str, b: &str) -> (r: String)
    ensures
        r@ == a@ + b@,
{
    let mut out = a.to_owned();
    out.append(b);
    out
}

/// Three texts, one after the other.
pub fn glue3(a: &str, b: &str, c: &str) -> (r: String)
    ensures
        r@ == a@ + b@ + c@,
{
    let mut out = a.to_owned();
    out.append(b);
    out.append(c);
    out
}

// ---------------------------------------------------------------------------
// Whitespace
// ---------------------------------------------------------------------------

/// The characters with the Unicode `White_Space` property.
pub open spec fn is_white_space(c: char) -> bool {
    ||| '\u{9}' <= c <= '\u{d}'
    ||| c == ' '
    ||| c == '\u{85}'
    ||| c == '\u{a0}'
    ||| c == '\u{1680}'
    ||| '\u{2000}' <= c <= '\u{200a}'
    ||| c == '\u{2028}'
    ||| c == '\u{2029}'
    ||| c == '\u{202f}'
    ||| c == '\u{205f}'
    ||| c == '\u{3000}'
}

/// Whether `c` is whitespace.
pub fn white_space(c: char) -> (r: bool)
    ensures
        r == is_white_space(c),
{
    ('\u{9}' <= c && c <= '\u{d}') || c == ' ' || c == '\u{85}' || c == '\u{a0}' || c == '\u{1680}'
        || ('\u{2000}' <= c && c <= '\u{200a}') || c == '\u{2028}' || c == '\u{2029}' || c
        == '\u{202f}' || c == '\u{205f}' || c == '\u{3000}'
}

/// `s` without its leading whitespace.
pub open spec fn trim_front(s: Seq<char>) -> Seq<char>
    decreases s.len(),
{
    if s.len() > 0 && is_white_space(s[0]) {
        trim_front(s.drop_first())
    } else {
        s
    }
}

/// `s` without its trailing whitespace.
pub open spec fn trim_back(s: Seq<char>) -> Seq<char>
    decreases s.len(),
{
    if s.len() > 0 && is_white_space(s.last()) {
        trim_back(s.drop_last())
    } else {
        s
    }
}

/// `s` without the whitespace at either end.
pub open spec fn trimmed(s: Seq<char>) -> Seq<char> {
    trim_back(trim_front(s))
}

/// `s` without the whitespace at either end.
pub fn trim(s: &str) -> (r: String)
    ensures
        r@ == trimmed(s@),
{
    let v = chars_of(s);
    let mut from: usize = 0;
    assert(s@.skip(0) == s@);
    while from < v.len() && white_space(v[from])
        invariant
            from <= v@.len(),
            v@ == s@,
            trim_front(s@) == trim_front(s@.skip(from as int)),
        decreases v@.len() - from,
    {
        assert(s@.skip(from as int).drop_first() == s@.skip(from + 1));
        from = from + 1;
    }
    let ghost front = s@.skip(from as int);
    assert(trim_front(s@) == front);
    let mut to: usize = v.len();
    assert(s@.subrange(from as int, to as int) == front);
    while to > from && white_space(v[to - 1])
        invariant
            from <= to <= v@.len(),
            v@ == s@,
            trim_back(front) == trim_back(s@.subrange(from as int, to as int)),
        decreases to,
    {
        assert(s@.subrange(from as int, to as int).drop_last() == s@.subrange(
            from as int,
            to - 1,
        ));
        to = to - 1;
    }
    text_of(&v, from, to)
}

/// Whether `s` holds nothing but whitespace.
pub fn is_blank(s: &str) -> (r: bool)
    ensures
        r == (trimmed(s@).len() == 0),
{
    let t = trim(s);
    t.as_str().is_empty()
}

/// The maximal runs of characters in `s` that are not whitespace.
pub open spec fn words(s: Seq<char>) -> Seq<Seq<char>>
    decreases s.len(),
{
    let t = trim_front(s);
    if t.len() == 0 {
        Seq::empty()
    } else {
        let n = word_end(t);
        if 0 < n <= t.len() && t.len() <= s.len() {
            seq![t.take(n)] + words(t.skip(n))
        } else {
            Seq::empty()
        }
    }
}

/// How many characters `s` has before its first whitespace.
pub open spec fn word_end(s: Seq<char>) -> int
    decreases s.len(),
{
    if s.len() == 0 || is_white_space(s[0]) {
        0
    } else {
        1 + word_end(s.drop_first())
    }
}

pub proof fn lemma_trim_front(s: Seq<char>)
    ensures
        trim_front(s).len() <= s.len(),
        trim_front(s) == s.skip(s.len() - trim_front(s).len()),
        trim_front(s).len() > 0 ==> !is_white_space(trim_front(s)[0]),
    decreases s.len(),
{
    if s.len() > 0 && is_white_space(s[0]) {
        lemma_trim_front(s.drop_first());
        let t = trim_front(s);
        assert(s.drop_first().skip(s.len() - 1 - t.len()) == s.skip(s.len() - t.len()));
    } else {
        assert(s.skip(0) == s);
    }
}

pub proof fn lemma_word_end(s: Seq<char>)
    ensures
        0 <= word_end(s) <= s.len(),
        s.len() > 0 && !is_white_space(s[0]) ==> word_end(s) > 0,
        forall|i: int| 0 <= i < word_end(s) ==> !is_white_space(s[i]),
        word_end(s) < s.len() ==> is_white_space(s[word_end(s)]),
    decreases s.len(),
{
    if s.len() > 0 && !is_white_space(s[0]) {
        let t = s.drop_first();
        lemma_word_end(t);
        assert forall|i: int| 0 <= i < word_end(s) implies !is_white_space(s[i]) by {
            if i > 0 {
                assert(t[i - 1] == s[i]);
            }
        }
    }
}

/// The words of `s`, in order.
pub fn split_words(s: &str) -> (r: Vec<String>)
    ensures
        texts(r@) == words(s@),
{
    let v = chars_of(s);
    let mut out: Vec<String> = Vec::new();
    let mut i: usize = 0;
    assert(s@.skip(0) == s@);
    assert(texts(out@) + words(s@) == words(s@));
    while i < v.len()
        invariant
            i <= v@.len(),
            v@ == s@,
            texts(out@) + words(s@.skip(i as int)) == words(s@),
        decreases v@.len() - i,
    {
        let ghost rest = s@.skip(i as int);
        if white_space(v[i]) {
            assert(rest.drop_first() == s@.skip(i + 1));
            proof {
                lemma_trim_front(rest);
                lemma_trim_front(rest.drop_first());
            }
            assert(words(rest) == words(rest.drop_first()));
            i = i + 1;
        } else {
            proof {
                lemma_word_end(rest);
            }
            let mut j: usize = i;
            assert(rest.skip(0) == rest);
            while j < v.len() && !white_space(v[j])
                invariant
                    i <= j <= v@.len(),
                    v@ == s@,
                    rest == s@.skip(i as int),
                    word_end(rest) == (j - i) + word_end(s@.skip(j as int)),
                decreases v@.len() - j,
            {
                assert(s@.skip(j as int).drop_first() == s@.skip(j + 1));
                j = j + 1;
            }
            let ghost before = out@;
            let word = text_of(&v, i, j);
            assert(word@ == rest.take(j - i));
            assert(rest.skip(j - i) == s@.skip(j as int));
            out.push(word);
            assert(texts(out@) == texts(before).push(word@));
            assert(words(rest) == seq![word@] + words(s@.skip(j as int)));
            assert(texts(out@) + words(s@.skip(j as int)) == texts(before) + words(rest));
            i = j;
        }
    }
    assert(s@.skip(i as int).len() == 0);
    assert(words(s@.skip(i as int)) == Seq::<Seq<char>>::empty());
    assert(texts(out@) + Seq::<Seq<char>>::empty() == texts(out@));
    out
}

// ---------------------------------------------------------------------------
// Searching
// ---------------------------------------------------------------------------

/// Where `c` first occurs in `s`, or the length of `s` when it does not.
pub open spec fn find(s: Seq<char>, c: char) -> int
    decreases s.len(),
{
    if s.len() == 0 || s[0] == c {
        0
    } else {
        1 + find(s.drop_first(), c)
    }
}

pub proof fn lemma_find(s: Seq<char>, c: char)
    ensures
        0 <= find(s, c) <= s.len(),
        forall|i: int| 0 <= i < find(s, c) ==> s[i] != c,
        find(s, c) < s.len() ==> s[find(s, c)] == c,
        find(s, c) < s.len() <==> s.contains(c),
    decreases s.len(),
{
    if s.len() > 0 && s[0] != c {
        let t = s.drop_first();
        lemma_find(t, c);
        assert forall|i: int| 0 <= i < find(s, c) implies s[i] != c by {
            if i > 0 {
                assert(t[i - 1] == s[i]);
            }
        }
        if s.contains(c) {
            let i = choose|i: int| 0 <= i < s.len() && s[i] == c;
            assert(t[i - 1] == c);
        }
    }
}

/// Where `c` first occurs in `v[from..]`, counted from the start of `v`, or
/// `v.len()` when it does not.
pub fn find_from(v: &Vec<char>, from: usize, c: char) -> (r: usize)
    requires
        from <= v@.len(),
    ensures
        from <= r <= v@.len(),
        r - from == find(v@.skip(from as int), c),
{
    let mut i: usize = from;
    while i < v.len() && v[i] != c
        invariant
            from <= i <= v@.len(),
            find(v@.skip(from as int), c) == (i - from) + find(v@.skip(i as int), c),
        decreases v@.len() - i,
    {
        assert(v@.skip(i as int).drop_first() == v@.skip(i + 1));
        i = i + 1;
    }
    i
}

/// Whether `s` holds the character `c`.
pub fn has_char(s: &str, c: char) -> (r: bool)
    ensures
        r == s@.contains(c),
{
    let v = chars_of(s);
    let i = find_from(&v, 0, c);
    proof {
        assert(s@.skip(0) == s@);
        lemma_find(s@, c);
    }
    i < v.len()
}

/// Whether `needle` stands in `hay` at position `i`.
pub open spec fn stands_at(hay: Seq<char>, needle: Seq<char>, i: int) -> bool {
    &&& 0 <= i
    &&& i + needle.len() <= hay.len()
    &&& hay.subrange(i, i + needle.len()) == needle
}

/// Whether `needle` stands anywhere in `hay`.
pub open spec fn mentions(hay: Seq<char>, needle: Seq<char>) -> bool {
    exists|i: int| stands_at(hay, needle, i)
}

/// Whether `hay[i..]` begins with `needle`.
pub fn stands(hay: &Vec<char>, needle: &Vec<char>, i: usize) -> (r: bool)
    requires
        i <= hay@.len(),
    ensures
        r == stands_at(hay@, needle@, i as int),
{
    let total = hay.len();
    if needle.len() > total - i {
        return false;
    }
    let mut k: usize = 0;
    while k < needle.len()
        invariant
            i <= total == hay@.len(),
            k <= needle@.len(),
            needle@.len() <= hay@.len() - i,
            forall|j: int| 0 <= j < k ==> hay@[i + j] == needle@[j],
        decreases needle@.len() - k,
    {
        if hay[i + k] != needle[k] {
            proof {
                if stands_at(hay@, needle@, i as int) {
                    assert(hay@.subrange(i as int, i + needle@.len())[k as int] == hay@[i + k]);
                }
            }
            return false;
        }
        k = k + 1;
    }
    assert(hay@.subrange(i as int, i + needle@.len()) == needle@);
    true
}

/// Whether `hay` holds `needle` somewhere.
pub fn contains(hay: &str, needle: &str) -> (r: bool)
    ensures
        r == mentions(hay@, needle@),
{
    let h = chars_of(hay);
    let n = chars_of(needle);
    let mut i: usize = 0;
    loop
        invariant
            i <= h@.len(),
            h@ == hay@,
            n@ == needle@,
            forall|j: int| 0 <= j < i ==> !stands_at(h@, n@, j),
        decreases h@.len() - i,
    {
        if stands(&h, &n, i) {
            return true;
        }
        if i == h.len() {
            return false;
        }
        i = i + 1;
    }
}

/// Whether `s` begins with `p`.
pub open spec fn begins(s: Seq<char>, p: Seq<char>) -> bool {
    p.len() <= s.len() && s.take(p.len() as int) == p
}

/// Whether `s` ends with `p`.
pub open spec fn ends(s: Seq<char>, p: Seq<char>) -> bool {
    p.len() <= s.len() && s.skip(s.len() - p.len()) == p
}

/// Whether `s` begins with `p`.
pub fn starts_with(s: &str, p: &str) -> (r: bool)
    ensures
        r == begins(s@, p@),
{
    let v = chars_of(s);
    let n = chars_of(p);
    let r = stands(&v, &n, 0);
    assert(p@.len() <= s@.len() ==> s@.subrange(0, p@.len() as int) == s@.take(p@.len() as int));
    r
}

/// Whether `s` ends with `p`.
pub fn ends_with(s: &str, p: &str) -> (r: bool)
    ensures
        r == ends(s@, p@),
{
    let v = chars_of(s);
    let n = chars_of(p);
    if n.len() > v.len() {
        return false;
    }
    let from = v.len() - n.len();
    let r = stands(&v, &n, from);
    assert(s@.subrange(from as int, from + p@.len()) == s@.skip(s@.len() - p@.len()));
    r
}

/// What follows `p` in `s`, when `s` begins with `p`.
pub open spec fn after_prefix(s: Seq<char>, p: Seq<char>) -> Option<Seq<char>> {
    if begins(s, p) {
        Some(s.skip(p.len() as int))
    } else {
        None
    }
}

/// An optional text, as the characters it holds.
pub open spec fn text_opt(o: Option<String>) -> Option<Seq<char>> {
    match o {
        Some(s) => Some(s@),
        None => None,
    }
}

/// An optional borrowed text, as the characters it holds.
pub open spec fn str_opt(o: Option<&str>) -> Option<Seq<char>> {
    match o {
        Some(s) => Some(s@),
        None => None,
    }
}

/// What follows `p` in `s`, when `s` begins with `p`.
pub fn strip_prefix(s: &str, p: &str) -> (r: Option<String>)
    ensures
        text_opt(r) == after_prefix(s@, p@),
{
    if !starts_with(s, p) {
        return None;
    }
    let v = chars_of(s);
    let n = chars_of(p);
    let rest = text_of(&v, n.len(), v.len());
    assert(rest@ == s@.skip(p@.len() as int));
    Some(rest)
}

/// `s` without the characters `c` it begins with.
pub open spec fn drop_front(s: Seq<char>, c: char) -> Seq<char>
    decreases s.len(),
{
    if s.len() > 0 && s[0] == c {
        drop_front(s.drop_first(), c)
    } else {
        s
    }
}

/// `s` without the characters `c` it ends with.
pub open spec fn drop_back(s: Seq<char>, c: char) -> Seq<char>
    decreases s.len(),
{
    if s.len() > 0 && s.last() == c {
        drop_back(s.drop_last(), c)
    } else {
        s
    }
}

/// `s` without the characters `c` it begins with.
pub fn strip_front(s: &str, c: char) -> (r: String)
    ensures
        r@ == drop_front(s@, c),
{
    let v = chars_of(s);
    let mut from: usize = 0;
    assert(s@.skip(0) == s@);
    while from < v.len() && v[from] == c
        invariant
            from <= v@.len(),
            v@ == s@,
            drop_front(s@, c) == drop_front(s@.skip(from as int), c),
        decreases v@.len() - from,
    {
        assert(s@.skip(from as int).drop_first() == s@.skip(from + 1));
        from = from + 1;
    }
    text_of(&v, from, v.len())
}

/// `s` without the characters `c` it ends with.
pub fn strip_back(s: &str, c: char) -> (r: String)
    ensures
        r@ == drop_back(s@, c),
{
    let v = chars_of(s);
    let mut to: usize = v.len();
    assert(s@.take(to as int) == s@);
    while to > 0 && v[to - 1] == c
        invariant
            to <= v@.len(),
            v@ == s@,
            drop_back(s@, c) == drop_back(s@.take(to as int), c),
        decreases to,
    {
        assert(s@.take(to as int).drop_last() == s@.take(to - 1));
        to = to - 1;
    }
    let r = text_of(&v, 0, to);
    assert(r@ == s@.take(to as int));
    r
}

// ---------------------------------------------------------------------------
// Splitting and joining
// ---------------------------------------------------------------------------

/// The pieces of `s` between the characters `c`. There is always at least one.
pub open spec fn split(s: Seq<char>, c: char) -> Seq<Seq<char>>
    decreases s.len(),
{
    let i = find(s, c);
    if 0 <= i < s.len() {
        seq![s.take(i)] + split(s.skip(i + 1), c)
    } else {
        seq![s]
    }
}

/// The pieces of `s` between the characters `c`.
pub fn split_on(s: &str, c: char) -> (r: Vec<String>)
    ensures
        texts(r@) == split(s@, c),
        r@.len() > 0,
{
    let v = chars_of(s);
    let mut out: Vec<String> = Vec::new();
    let mut from: usize = 0;
    assert(s@.skip(0) == s@);
    assert(texts(out@) + split(s@, c) == split(s@, c));
    loop
        invariant
            from <= v@.len(),
            v@ == s@,
            texts(out@) + split(s@.skip(from as int), c) == split(s@, c),
        decreases v@.len() - from,
    {
        let ghost rest = s@.skip(from as int);
        let ghost before = out@;
        let i = find_from(&v, from, c);
        let piece = text_of(&v, from, i);
        assert(piece@ == rest.take(i - from));
        out.push(piece);
        assert(texts(out@) == texts(before).push(piece@));
        if i == v.len() {
            assert(piece@ == rest);
            assert(texts(out@) == texts(before) + seq![rest]);
            return out;
        }
        assert(rest.skip(i - from + 1) == s@.skip(i + 1));
        assert(texts(out@) + split(s@.skip(i + 1), c) == texts(before) + split(rest, c));
        from = i + 1;
    }
}

/// The two sides of the first `c` in `s`, when there is one.
pub open spec fn split_first(s: Seq<char>, c: char) -> Option<(Seq<char>, Seq<char>)> {
    let i = find(s, c);
    if 0 <= i < s.len() {
        Some((s.take(i), s.skip(i + 1)))
    } else {
        None
    }
}

/// The two sides of the first `c` in `s`, when there is one.
pub fn split_once(s: &str, c: char) -> (r: Option<(String, String)>)
    ensures
        match r {
            Some(p) => split_first(s@, c) == Some((p.0@, p.1@)),
            None => split_first(s@, c) is None,
        },
{
    let v = chars_of(s);
    let i = find_from(&v, 0, c);
    assert(s@.skip(0) == s@);
    if i == v.len() {
        return None;
    }
    let a = text_of(&v, 0, i);
    let b = text_of(&v, i + 1, v.len());
    assert(a@ == s@.take(i as int));
    assert(b@ == s@.skip(i + 1));
    Some((a, b))
}

/// What stands before the first `c` in `s`, or all of `s` when there is none.
pub open spec fn before_first(s: Seq<char>, c: char) -> Seq<char> {
    s.take(find(s, c))
}

/// What stands before the first `c` in `s`, or all of `s` when there is none.
pub fn take_before(s: &str, c: char) -> (r: String)
    ensures
        r@ == before_first(s@, c),
{
    let v = chars_of(s);
    let i = find_from(&v, 0, c);
    assert(s@.skip(0) == s@);
    let r = text_of(&v, 0, i);
    assert(r@ == s@.take(i as int));
    r
}

/// `line` without a carriage return at its end.
pub open spec fn without_cr(line: Seq<char>) -> Seq<char> {
    if line.len() > 0 && line.last() == '\r' {
        line.drop_last()
    } else {
        line
    }
}

/// The lines of `s`. A line ends with a line feed, or a carriage return and a
/// line feed; the last one needs no ending.
pub open spec fn lines(s: Seq<char>) -> Seq<Seq<char>>
    decreases s.len(),
{
    let i = find(s, '\n');
    if s.len() == 0 {
        Seq::empty()
    } else if 0 <= i < s.len() {
        seq![without_cr(s.take(i))] + lines(s.skip(i + 1))
    } else {
        seq![s]
    }
}

/// The lines of `s`, in order.
pub fn split_lines(s: &str) -> (r: Vec<String>)
    ensures
        texts(r@) == lines(s@),
{
    let v = chars_of(s);
    let mut out: Vec<String> = Vec::new();
    let mut from: usize = 0;
    assert(s@.skip(0) == s@);
    assert(texts(out@) + lines(s@) == lines(s@));
    while from < v.len()
        invariant
            from <= v@.len(),
            v@ == s@,
            texts(out@) + lines(s@.skip(from as int)) == lines(s@),
        decreases v@.len() - from,
    {
        let ghost rest = s@.skip(from as int);
        let ghost before = out@;
        let i = find_from(&v, from, '\n');
        if i == v.len() {
            let piece = text_of(&v, from, i);
            assert(piece@ == rest);
            out.push(piece);
            assert(texts(out@) == texts(before) + seq![rest]);
            return out;
        }
        let ghost line = rest.take(i - from);
        assert(line == s@.subrange(from as int, i as int));
        let piece = if i > from && v[i - 1] == '\r' {
            text_of(&v, from, i - 1)
        } else {
            text_of(&v, from, i)
        };
        assert(piece@ == without_cr(line));
        out.push(piece);
        assert(texts(out@) == texts(before).push(piece@));
        assert(rest.skip(i - from + 1) == s@.skip(i + 1));
        assert(texts(out@) + lines(s@.skip(i + 1)) == texts(before) + lines(rest));
        from = i + 1;
    }
    assert(s@.skip(from as int).len() == 0);
    assert(texts(out@) + Seq::<Seq<char>>::empty() == texts(out@));
    out
}

/// The pieces of `parts` with `sep` between each and the next.
pub open spec fn joined(parts: Seq<Seq<char>>, sep: Seq<char>) -> Seq<char>
    decreases parts.len(),
{
    if parts.len() == 0 {
        Seq::empty()
    } else if parts.len() == 1 {
        parts[0]
    } else {
        joined(parts.drop_last(), sep) + sep + parts.last()
    }
}

/// The pieces of `parts` with `sep` between each and the next.
pub fn join(parts: &Vec<String>, sep: &str) -> (r: String)
    ensures
        r@ == joined(texts(parts@), sep@),
{
    let mut out = String::new();
    let mut i: usize = 0;
    let ghost all = texts(parts@);
    while i < parts.len()
        invariant
            i <= parts@.len(),
            all == texts(parts@),
            out@ == joined(all.take(i as int), sep@),
        decreases parts@.len() - i,
    {
        if i > 0 {
            out.append(sep);
        }
        out.append(parts[i].as_str());
        assert(all.take(i + 1).drop_last() == all.take(i as int));
        assert(all.take(i + 1).last() == parts@[i as int]@);
        i = i + 1;
    }
    assert(all.take(i as int) == all);
    out
}

// ---------------------------------------------------------------------------
// Looking for a text in a text
// ---------------------------------------------------------------------------

/// Where `p` first stands in `s`, or the length of `s` when it does not.
pub open spec fn find_text(s: Seq<char>, p: Seq<char>) -> int
    decreases s.len(),
{
    if s.len() < p.len() {
        s.len() as int
    } else if begins(s, p) {
        0
    } else if s.len() == 0 {
        0
    } else {
        1 + find_text(s.drop_first(), p)
    }
}

/// The pieces of `s` between the places where `p` stands.
pub open spec fn split_text(s: Seq<char>, p: Seq<char>) -> Seq<Seq<char>>
    decreases s.len(),
{
    let i = find_text(s, p);
    if 0 <= i && 0 < p.len() && i + p.len() <= s.len() {
        seq![s.take(i)] + split_text(s.skip(i + p.len()), p)
    } else {
        seq![s]
    }
}

/// Where `p` first stands in `v[from..]`, counted from the start of `v`, or
/// `v.len()` when it does not.
pub fn find_text_from(v: &Vec<char>, p: &Vec<char>, from: usize) -> (r: usize)
    requires
        from <= v@.len(),
        p@.len() > 0,
    ensures
        from <= r <= v@.len(),
        r - from == find_text(v@.skip(from as int), p@),
        r < v@.len() ==> r + p@.len() <= v@.len(),
{
    let mut i: usize = from;
    while i < v.len()
        invariant
            from <= i <= v@.len(),
            p@.len() > 0,
            (i - from) + find_text(v@.skip(i as int), p@) == find_text(v@.skip(from as int), p@),
        decreases v@.len() - i,
    {
        let ghost rest = v@.skip(i as int);
        assert(p@.len() <= rest.len() ==> v@.subrange(i as int, i + p@.len()) == rest.take(
            p@.len() as int,
        ));
        if stands(v, p, i) {
            return i;
        }
        if p.len() > v.len() - i {
            assert(find_text(rest, p@) == rest.len());
            return v.len();
        }
        assert(rest.drop_first() == v@.skip(i + 1));
        i = i + 1;
    }
    assert(v@.skip(i as int).len() == 0);
    i
}

/// The pieces of `s` between the places where `p` stands.
pub fn split_on_text(s: &str, p: &str) -> (r: Vec<String>)
    requires
        p@.len() > 0,
    ensures
        texts(r@) == split_text(s@, p@),
        r@.len() > 0,
{
    let v = chars_of(s);
    let n = chars_of(p);
    let mut out: Vec<String> = Vec::new();
    let mut from: usize = 0;
    assert(s@.skip(0) == s@);
    assert(texts(out@) + split_text(s@, p@) == split_text(s@, p@));
    loop
        invariant
            from <= v@.len(),
            v@ == s@,
            n@ == p@,
            p@.len() > 0,
            texts(out@) + split_text(v@.skip(from as int), p@) == split_text(s@, p@),
        decreases v@.len() - from,
    {
        let i = find_text_from(&v, &n, from);
        let ghost rest = v@.skip(from as int);
        let ghost before = out@;
        let piece = text_of(&v, from, i);
        assert(piece@ == rest.take(i - from));
        out.push(piece);
        assert(texts(out@) == texts(before).push(rest.take(i - from)));
        if i < v.len() {
            assert(rest.skip(i - from + p@.len()) == v@.skip(i + p@.len()));
            assert(texts(out@) + split_text(v@.skip(i + p@.len()), p@) == texts(before) + split_text(rest, p@));
            from = i + n.len();
        } else {
            assert(rest.take(i - from) == rest);
            assert(texts(out@) == texts(before) + seq![rest]);
            return out;
        }
    }
}

/// Where the last `c` stands in `s`, or -1.
pub open spec fn find_last(s: Seq<char>, c: char) -> int
    decreases s.len(),
{
    if s.len() == 0 {
        -1
    } else if s.last() == c {
        s.len() - 1
    } else {
        find_last(s.drop_last(), c)
    }
}

/// What stands before the last `c` in `s`, or all of `s` when there is none.
pub open spec fn before_last(s: Seq<char>, c: char) -> Seq<char> {
    if 0 <= find_last(s, c) < s.len() {
        s.take(find_last(s, c))
    } else {
        s
    }
}

/// What stands before the last `c` in `s`, or all of `s` when there is none.
pub fn take_before_last(s: &str, c: char) -> (r: String)
    ensures
        r@ == before_last(s@, c),
{
    let v = chars_of(s);
    let mut n: usize = v.len();
    assert(v@.take(n as int) == v@);
    while n > 0
        invariant
            n <= v@.len(),
            v@ == s@,
            find_last(s@, c) == find_last(v@.take(n as int), c),
        decreases n,
    {
        if v[n - 1] == c {
            assert(v@.take(n as int).last() == c);
            let r = text_of(&v, 0, n - 1);
            assert(r@ == s@.take(n - 1));
            return r;
        }
        assert(v@.take(n as int).drop_last() == v@.take(n - 1));
        n = n - 1;
    }
    s.to_owned()
}

// ---------------------------------------------------------------------------
// Character by character
// ---------------------------------------------------------------------------

/// `s` with every `from` replaced by `to`.
pub open spec fn swapped(s: Seq<char>, from: char, to: char) -> Seq<char> {
    Seq::new(s.len(), |i: int| if s[i] == from { to } else { s[i] })
}

/// `s` with every `from` replaced by `to`.
pub fn swap_char(s: &str, from: char, to: char) -> (r: String)
    ensures
        r@ == swapped(s@, from, to),
{
    let v = chars_of(s);
    let mut out = String::new();
    let mut i: usize = 0;
    while i < v.len()
        invariant
            i <= v@.len(),
            v@ == s@,
            out@ == swapped(s@, from, to).take(i as int),
        decreases v@.len() - i,
    {
        let c = if v[i] == from { to } else { v[i] };
        out.push(c);
        assert(swapped(s@, from, to).take(i + 1) == swapped(s@, from, to).take(i as int).push(c));
        i = i + 1;
    }
    assert(swapped(s@, from, to).take(i as int) == swapped(s@, from, to));
    out
}

/// Whether `c` is an ASCII letter.
pub open spec fn is_ascii_letter(c: char) -> bool {
    'a' <= c <= 'z' || 'A' <= c <= 'Z'
}

/// Whether `c` is an ASCII digit.
pub open spec fn is_digit(c: char) -> bool {
    '0' <= c <= '9'
}

/// Whether `c` is an ASCII letter.
pub fn ascii_letter(c: char) -> (r: bool)
    ensures
        r == is_ascii_letter(c),
{
    ('a' <= c && c <= 'z') || ('A' <= c && c <= 'Z')
}

/// Whether `c` is an ASCII digit.
pub fn ascii_digit(c: char) -> (r: bool)
    ensures
        r == is_digit(c),
{
    '0' <= c && c <= '9'
}

/// The lower-case form of an ASCII capital; any other character as it is.
pub open spec fn lower(c: char) -> char {
    if 'A' <= c <= 'Z' {
        ((c as u32) + 32) as char
    } else {
        c
    }
}

/// `s` with its ASCII capitals in lower case.
pub open spec fn lowered(s: Seq<char>) -> Seq<char> {
    Seq::new(s.len(), |i: int| lower(s[i]))
}

/// The lower-case form of an ASCII capital; any other character as it is.
pub fn lower_char(c: char) -> (r: char)
    ensures
        r == lower(c),
{
    if 'A' <= c && c <= 'Z' {
        ((c as u8) + 32) as char
    } else {
        c
    }
}

/// `s` with its ASCII capitals in lower case.
pub fn to_lower(s: &str) -> (r: String)
    ensures
        r@ == lowered(s@),
{
    let v = chars_of(s);
    let mut out = String::new();
    let mut i: usize = 0;
    while i < v.len()
        invariant
            i <= v@.len(),
            v@ == s@,
            out@ == lowered(s@).take(i as int),
        decreases v@.len() - i,
    {
        let c = lower_char(v[i]);
        out.push(c);
        assert(lowered(s@).take(i + 1) == lowered(s@).take(i as int).push(c));
        i = i + 1;
    }
    assert(lowered(s@).take(i as int) == lowered(s@));
    out
}

/// Whether two texts are the same once ASCII capitals are lowered.
pub fn same_ignoring_case(a: &str, b: &str) -> (r: bool)
    ensures
        r == (lowered(a@) == lowered(b@)),
{
    let x = to_lower(a);
    let y = to_lower(b);
    same(x.as_str(), y.as_str())
}

/// `n` spaces.
pub open spec fn spaces(n: int) -> Seq<char> {
    Seq::new(
        if n > 0 {
            n as nat
        } else {
            0
        },
        |i: int| ' ',
    )
}

/// `s` with spaces behind it, up to a width.
pub open spec fn padded(s: Seq<char>, width: int) -> Seq<char> {
    s + spaces(width - s.len())
}

/// `s` with spaces before it, up to a width.
pub open spec fn right_aligned(s: Seq<char>, width: int) -> Seq<char> {
    spaces(width - s.len()) + s
}

/// The spaces that bring `s` up to a width.
fn filling(s: &str, width: usize) -> (r: String)
    ensures
        r@ == spaces(width - s@.len()),
{
    let v = chars_of(s);
    let mut out = String::new();
    let mut i: usize = v.len();
    assert(out@ == spaces(0));
    while i < width
        invariant
            v@ == s@,
            v@.len() <= i,
            i <= width || i == v@.len(),
            out@ == spaces(i - v@.len()),
        decreases width - i,
    {
        out.push(' ');
        assert(out@ == spaces(i + 1 - v@.len()));
        i = i + 1;
    }
    assert(out@ == spaces(width - s@.len()));
    out
}

/// `s` with spaces behind it, up to a width.
pub fn pad_right(s: &str, width: usize) -> (r: String)
    ensures
        r@ == padded(s@, width as int),
{
    let fill = filling(s, width);
    glue2(s, fill.as_str())
}

/// `s` with spaces before it, up to a width.
pub fn pad_left(s: &str, width: usize) -> (r: String)
    ensures
        r@ == right_aligned(s@, width as int),
{
    let fill = filling(s, width);
    glue2(fill.as_str(), s)
}

/// `s` in lower case, by the rules of Unicode.
pub uninterp spec fn lowercase_of(s: Seq<char>) -> Seq<char>;

/// `str::to_lowercase`, which follows the Unicode property `Lowercase`. The
/// result is named; it depends on the text alone.
#[verifier::external_body]
pub(crate) fn lowercase(s: &str) -> (r: String)
    ensures
        r@ == lowercase_of(s@),
{
    s.to_lowercase()
}

/// `s` without the prefix `p`, however often it stands there.
pub open spec fn drop_prefix(s: Seq<char>, p: Seq<char>) -> Seq<char>
    decreases s.len(),
{
    if p.len() > 0 && begins(s, p) {
        drop_prefix(s.skip(p.len() as int), p)
    } else {
        s
    }
}

/// `s` without the prefix `p`, however often it stands there.
pub fn strip_all(s: &str, p: &str) -> (r: String)
    requires
        p@.len() > 0,
    ensures
        r@ == drop_prefix(s@, p@),
{
    let mut rest: String = s.to_owned();
    loop
        invariant
            p@.len() > 0,
            drop_prefix(rest@, p@) == drop_prefix(s@, p@),
        decreases rest@.len(),
    {
        match strip_prefix(rest.as_str(), p) {
            Some(shorter) => {
                rest = shorter;
            },
            None => {
                return rest;
            },
        }
    }
}

/// Nothing is left of a text when it is trimmed exactly where it is all white
/// space.
pub proof fn law_trimmed_to_nothing(s: Seq<char>)
    ensures
        trimmed(s).len() == 0 <==> forall|i: int|
            0 <= i < s.len() ==> is_white_space(#[trigger] s[i]),
{
    law_trimming(s);
    let t = trimmed(s);
    let (a, b) = choose|a: int, b: int|
        0 <= a <= b <= s.len() && #[trigger] s.subrange(a, b) == t && (forall|i: int|
            0 <= i < a ==> is_white_space(#[trigger] s[i])) && (forall|i: int|
            b <= i < s.len() ==> is_white_space(#[trigger] s[i]));
    if t.len() > 0 {
        assert(s[a] == t[0]);
    }
}

/// Trimming takes white space off both ends and nothing else.
pub proof fn law_trimming(s: Seq<char>)
    ensures
        exists|a: int, b: int|
            0 <= a <= b <= s.len() && #[trigger] s.subrange(a, b) == trimmed(s) && (forall|i: int|
                0 <= i < a ==> is_white_space(#[trigger] s[i])) && (forall|i: int|
                b <= i < s.len() ==> is_white_space(#[trigger] s[i])),
        trimmed(s).len() > 0 ==> !is_white_space(trimmed(s)[0]) && !is_white_space(trimmed(s).last()),
{
    let f = trim_front(s);
    lemma_trim_front(s);
    lemma_trim_front_white(s);
    lemma_trim_back(f);
    let t = trimmed(s);
    let a = s.len() - f.len();
    let b = a + t.len();
    assert(f == s.skip(a));
    assert(s.subrange(a, b) == t);
    assert forall|i: int| b <= i < s.len() implies is_white_space(#[trigger] s[i]) by {
        assert(s[i] == f[i - a]);
    }
    if t.len() > 0 {
        assert(t[0] == f[0]);
    }
}

proof fn lemma_trim_front_white(s: Seq<char>)
    ensures
        forall|i: int|
            0 <= i < s.len() - trim_front(s).len() ==> is_white_space(#[trigger] s[i]),
    decreases s.len(),
{
    lemma_trim_front(s);
    if s.len() > 0 && is_white_space(s[0]) {
        let r = s.drop_first();
        lemma_trim_front_white(r);
        assert forall|i: int| 0 <= i < s.len() - trim_front(s).len() implies is_white_space(
            #[trigger] s[i],
        ) by {
            if i > 0 {
                assert(s[i] == r[i - 1]);
            }
        }
    }
}

proof fn lemma_trim_back(s: Seq<char>)
    ensures
        trim_back(s).len() <= s.len(),
        trim_back(s) == s.take(trim_back(s).len() as int),
        forall|i: int| trim_back(s).len() <= i < s.len() ==> is_white_space(#[trigger] s[i]),
        trim_back(s).len() > 0 ==> !is_white_space(trim_back(s).last()),
    decreases s.len(),
{
    if s.len() > 0 && is_white_space(s.last()) {
        let r = s.drop_last();
        lemma_trim_back(r);
        assert(trim_back(s) == s.take(trim_back(s).len() as int));
        assert forall|i: int| trim_back(s).len() <= i < s.len() implies is_white_space(
            #[trigger] s[i],
        ) by {
            if i < s.len() - 1 {
                assert(s[i] == r[i]);
            }
        }
    }
}

/// The usual blanks are white space, and no printable character of ASCII is.
pub proof fn law_what_is_white(c: char)
    ensures
        c == ' ' || c == '\t' || c == '\n' || c == '\r' ==> is_white_space(c),
        '!' <= c <= '~' ==> !is_white_space(c),
{
}

/// A text is put in small letters character by character: a capital of ASCII
/// becomes its small letter, everything else stays.
pub proof fn law_small_letters(s: Seq<char>, i: int)
    requires
        0 <= i < s.len(),
    ensures
        lowered(s).len() == s.len(),
        'A' <= s[i] <= 'Z' ==> lowered(s)[i] as u32 == s[i] as u32 + 32,
        !('A' <= s[i] <= 'Z') ==> lowered(s)[i] == s[i],
{
}

/// A text mentions another where it is the other with something before and
/// behind, and only there.
pub proof fn law_what_is_mentioned(before: Seq<char>, needle: Seq<char>, behind: Seq<char>)
    ensures
        mentions(before + needle + behind, needle),
{
    let s = before + needle + behind;
    let i = before.len() as int;
    assert(s.subrange(i, i + needle.len()) == needle);
    assert(stands_at(s, needle, i));
}

/// What a text mentions can be cut out of it.
pub proof fn law_a_mention_can_be_found(hay: Seq<char>, needle: Seq<char>)
    requires
        mentions(hay, needle),
    ensures
        exists|i: int|
            0 <= i && i + needle.len() <= hay.len() && #[trigger] hay.subrange(
                i,
                i + needle.len(),
            ) == needle,
{
    let i = choose|i: int| stands_at(hay, needle, i);
    assert(hay.subrange(i, i + needle.len()) == needle);
}

/// Words are what stands between white space: white space before a word counts for
/// nothing, and a word ends where white space begins.
pub proof fn law_what_words_are(word: Seq<char>, blank: char, rest: Seq<char>)
    requires
        word.len() > 0,
        forall|i: int| 0 <= i < word.len() ==> !is_white_space(#[trigger] word[i]),
        is_white_space(blank),
    ensures
        words(Seq::empty()) == Seq::<Seq<char>>::empty(),
        words(word) == seq![word],
        words(word + seq![blank] + rest) == seq![word] + words(rest),
        words(seq![blank] + rest) == words(rest),
{
    let none = Seq::<char>::empty();
    assert(trim_front(none) == none);
    assert(trim_front(word) == word);
    lemma_word_ends(word, none);
    assert(word + none == word);
    assert(word.take(word.len() as int) == word);
    assert(word.skip(word.len() as int) == none);
    assert(seq![word] + Seq::<Seq<char>>::empty() == seq![word]);
    let s = word + seq![blank] + rest;
    assert(s[0] == word[0]);
    assert(trim_front(s) == s);
    lemma_word_ends(word, seq![blank] + rest);
    assert(word + (seq![blank] + rest) == s);
    assert(s.take(word.len() as int) == word);
    assert(s.skip(word.len() as int) == seq![blank] + rest);
    lemma_blank_first(blank, rest);
}

proof fn lemma_blank_first(blank: char, rest: Seq<char>)
    requires
        is_white_space(blank),
    ensures
        words(seq![blank] + rest) == words(rest),
{
    let s = seq![blank] + rest;
    assert(s.drop_first() == rest);
    assert(trim_front(s) == trim_front(rest));
    lemma_trim_front(rest);
    lemma_word_end(trim_front(rest));
}

proof fn lemma_word_ends(word: Seq<char>, rest: Seq<char>)
    requires
        forall|i: int| 0 <= i < word.len() ==> !is_white_space(#[trigger] word[i]),
        rest.len() > 0 ==> is_white_space(rest[0]),
    ensures
        word_end(word + rest) == word.len(),
    decreases word.len(),
{
    let s = word + rest;
    if word.len() > 0 {
        let shorter = word.drop_first();
        assert forall|i: int| 0 <= i < shorter.len() implies !is_white_space(#[trigger] shorter[i]) by {
            assert(shorter[i] == word[i + 1]);
        }
        lemma_word_ends(shorter, rest);
        assert(s.drop_first() == shorter + rest);
        assert(!is_white_space(word[0]));
    } else {
        assert(s == rest);
    }
}

/// The pieces of a text are what stands between the separators.
pub proof fn law_what_pieces_are(piece: Seq<char>, c: char, rest: Seq<char>)
    requires
        !piece.contains(c),
    ensures
        split(piece, c) == seq![piece],
        split(piece + seq![c] + rest, c) == seq![piece] + split(rest, c),
        split_first(piece, c) is None,
        split_first(piece + seq![c] + rest, c) == Some((piece, rest)),
        before_first(piece, c) == piece,
        before_first(piece + seq![c] + rest, c) == piece,
{
    let s = piece + seq![c] + rest;
    lemma_find(piece, c);
    lemma_find(s, c);
    assert(s[piece.len() as int] == c);
    assert(s.contains(c));
    assert(find(s, c) == piece.len()) by {
        let i = find(s, c);
        if i < piece.len() {
            assert(s[i] == piece[i]);
            assert(piece.contains(piece[i]));
        }
    }
    assert(s.take(piece.len() as int) == piece);
    assert(s.skip(piece.len() as int + 1) == rest);
    assert(piece.take(piece.len() as int) == piece);
}

/// The lines of a text are what stands before its line feeds, without a carriage
/// return at the end, and what stands behind the last.
pub proof fn law_what_lines_are(line: Seq<char>, rest: Seq<char>)
    requires
        !line.contains('\n'),
    ensures
        lines(Seq::empty()) == Seq::<Seq<char>>::empty(),
        line.len() > 0 ==> lines(line) == seq![line],
        line.len() == 0 || line.last() != '\r' ==> lines(line + seq!['\n'] + rest) == seq![line] + lines(
            rest,
        ),
        lines(line.push('\r') + seq!['\n'] + rest) == seq![line] + lines(rest),
{
    law_what_pieces_are(line, '\n', rest);
    let s = line + seq!['\n'] + rest;
    lemma_find(s, '\n');
    lemma_find(line, '\n');
    let cr = line.push('\r');
    assert(!cr.contains('\n')) by {
        if cr.contains('\n') {
            let i = choose|i: int| 0 <= i < cr.len() && cr[i] == '\n';
            assert(line[i] == '\n');
        }
    }
    law_what_pieces_are(cr, '\n', rest);
    let t = cr + seq!['\n'] + rest;
    lemma_find(t, '\n');
    assert(split_first(s, '\n') == Some((line, rest)));
    assert(split_first(t, '\n') == Some((cr, rest)));
    assert(cr.drop_last() == line);
    assert(s.len() > 0 && t.len() > 0);
}

/// Pieces are joined with the separator between each and the next.
pub proof fn law_how_pieces_are_joined(parts: Seq<Seq<char>>, last: Seq<char>, sep: Seq<char>)
    ensures
        joined(Seq::empty(), sep) == Seq::<char>::empty(),
        joined(seq![last], sep) == last,
        parts.len() > 0 ==> joined(parts.push(last), sep) == joined(parts, sep) + sep + last,
{
    assert(parts.push(last).drop_last() == parts);
}

/// Joining takes back what splitting did.
pub proof fn law_joining_takes_splitting_back(s: Seq<char>, c: char)
    ensures
        joined(split(s, c), seq![c]) == s,
    decreases s.len(),
{
    lemma_find(s, c);
    let i = find(s, c);
    if i < s.len() {
        let rest = s.skip(i + 1);
        law_joining_takes_splitting_back(rest, c);
        lemma_joined_front(s.take(i), split(rest, c), seq![c]);
        assert(s.take(i) + seq![c] + rest == s);
    }
}

proof fn lemma_joined_front(a: Seq<char>, parts: Seq<Seq<char>>, sep: Seq<char>)
    requires
        parts.len() > 0,
    ensures
        joined(seq![a] + parts, sep) == a + sep + joined(parts, sep),
    decreases parts.len(),
{
    let all = seq![a] + parts;
    assert(all.drop_last() == seq![a] + parts.drop_last());
    assert(all.last() == parts.last());
    if parts.len() > 1 {
        lemma_joined_front(a, parts.drop_last(), sep);
        assert(a + sep + joined(parts.drop_last(), sep) + sep + parts.last() == a + sep + (joined(
            parts.drop_last(),
            sep,
        ) + sep + parts.last()));
    } else {
        assert(seq![a] + parts.drop_last() == seq![a]);
        assert(joined(seq![a], sep) == a);
        assert(joined(parts, sep) == parts.last());
    }
}

/// All of a character is dropped from an end, and nothing else.
pub proof fn law_what_is_dropped_from_an_end(s: Seq<char>, c: char)
    ensures
        s.len() == 0 || s[0] != c ==> drop_front(s, c) == s,
        drop_front(seq![c] + s, c) == drop_front(s, c),
        s.len() == 0 || s.last() != c ==> drop_back(s, c) == s,
        drop_back(s.push(c), c) == drop_back(s, c),
{
    assert((seq![c] + s).drop_first() == s);
    assert(s.push(c).drop_last() == s);
}

/// A prefix is what a text begins with, and a suffix what it ends with.
pub proof fn law_what_a_text_begins_and_ends_with(a: Seq<char>, b: Seq<char>)
    ensures
        begins(a + b, a),
        ends(a + b, b),
        after_prefix(a + b, a) == Some(b),
        begins(a, b) ==> a == b + a.skip(b.len() as int),
        ends(a, b) ==> a == a.take(a.len() - b.len()) + b,
        after_prefix(a, b) is None <==> !begins(a, b),
{
    assert((a + b).take(a.len() as int) == a);
    assert((a + b).skip(a.len() as int) == b);
    assert((a + b).skip((a + b).len() - b.len()) == b);
    if begins(a, b) {
        assert(a == a.take(b.len() as int) + a.skip(b.len() as int));
    }
    if ends(a, b) {
        assert(a == a.take(a.len() - b.len()) + a.skip(a.len() - b.len()));
    }
}

/// A text is filled with blanks to its width, behind or before it; one that is
/// wide enough stays.
pub proof fn law_how_texts_are_filled(s: Seq<char>, width: int, i: int)
    ensures
        s.len() >= width ==> padded(s, width) == s && right_aligned(s, width) == s,
        s.len() < width ==> padded(s, width).len() == width && right_aligned(s, width).len() == width,
        s.len() < width && 0 <= i < s.len() ==> padded(s, width)[i] == s[i] && right_aligned(
            s,
            width,
        )[width - s.len() + i] == s[i],
        s.len() < width && s.len() <= i < width ==> padded(s, width)[i] == ' ',
        s.len() < width && 0 <= i < width - s.len() ==> right_aligned(s, width)[i] == ' ',
{
    if s.len() >= width {
        assert(spaces(width - s.len()) == Seq::<char>::empty());
    }
}

/// One character is put in place of another wherever it stands.
pub proof fn law_how_characters_are_swapped(s: Seq<char>, from: char, to: char, i: int)
    requires
        0 <= i < s.len(),
    ensures
        swapped(s, from, to).len() == s.len(),
        s[i] == from ==> swapped(s, from, to)[i] == to,
        s[i] != from ==> swapped(s, from, to)[i] == s[i],
{
}

/// A text is split where another stands in it, from the front.
pub proof fn law_how_texts_split_a_text(piece: Seq<char>, p: Seq<char>, rest: Seq<char>)
    requires
        p.len() > 0,
        forall|i: int|
            0 <= i < piece.len() ==> !begins(
                (#[trigger] (piece + p + rest).skip(i)),
                p,
            ),
    ensures
        split_text(piece + p + rest, p) == seq![piece] + split_text(rest, p),
{
    let s = piece + p + rest;
    assert(s.skip(piece.len() as int) == p + rest);
    assert((p + rest).take(p.len() as int) == p);
    lemma_find_text(s, p, piece.len() as int);
    assert(s.take(piece.len() as int) == piece);
    assert(s.skip((piece.len() + p.len()) as int) == rest);
}

proof fn lemma_find_text(s: Seq<char>, p: Seq<char>, n: int)
    requires
        0 <= n,
        n + p.len() <= s.len(),
        p.len() > 0,
        begins(s.skip(n), p),
        forall|i: int| 0 <= i < n ==> !begins(#[trigger] s.skip(i), p),
    ensures
        find_text(s, p) == n,
    decreases n,
{
    assert(s.skip(0) == s);
    if n > 0 {
        let r = s.drop_first();
        assert(r.skip(n - 1) == s.skip(n));
        assert forall|i: int| 0 <= i < n - 1 implies !begins(#[trigger] r.skip(i), p) by {
            assert(r.skip(i) == s.skip(i + 1));
        }
        lemma_find_text(r, p, n - 1);
        assert(!begins(s.skip(0), p));
    }
}

} // verus!
