//! Runs of bytes, and the text in them.
use vstd::prelude::*;
use vstd::string::*;
use vstd::utf8::{decode_utf8, encode_utf8, valid_utf8};

verus! {

/// The text that bytes hold when every sequence that is no UTF-8 is read as the
/// replacement character.
pub uninterp spec fn lossy(bytes: Seq<u8>) -> Seq<char>;

/// `String::from_utf8_lossy`, which reads bytes as UTF-8 and puts the
/// replacement character in place of what is not. The result is named; for bytes
/// that are UTF-8 it is claimed to be the text they encode.
#[verifier::external_body]
pub(crate) fn text_in_bytes(bytes: &[u8]) -> (r: String)
    ensures
        r@ == lossy(bytes@),
        valid_utf8(bytes@) ==> r@ == decode_utf8(bytes@),
{
    String::from_utf8_lossy(bytes).into_owned()
}

/// Put `more` behind what `buf` holds.
pub fn extend(buf: &mut Vec<u8>, more: &[u8])
    ensures
        final(buf)@ == old(buf)@ + more@,
{
    let mut i: usize = 0;
    let ghost start = buf@;
    assert(start + more@.take(0) == start);
    while i < more.len()
        invariant
            i <= more@.len(),
            buf@ == start + more@.take(i as int),
        decreases more@.len() - i,
    {
        buf.push(more[i]);
        assert(start + more@.take(i + 1) == (start + more@.take(i as int)).push(more@[i as int]));
        i = i + 1;
    }
    assert(more@.take(i as int) == more@);
}

/// `v[from..to]`.
pub fn part(v: &Vec<u8>, from: usize, to: usize) -> (r: Vec<u8>)
    requires
        from <= to <= v@.len(),
    ensures
        r@ == v@.subrange(from as int, to as int),
{
    let mut r: Vec<u8> = Vec::new();
    let mut i: usize = from;
    while i < to
        invariant
            from <= i <= to <= v@.len(),
            r@ == v@.subrange(from as int, i as int),
        decreases to - i,
    {
        r.push(v[i]);
        assert(v@.subrange(from as int, i + 1) == v@.subrange(from as int, i as int).push(
            v@[i as int],
        ));
        i = i + 1;
    }
    r
}

/// Whether `p` stands in `s` at `i`.
pub open spec fn occurs(s: Seq<u8>, p: Seq<u8>, i: int) -> bool {
    0 <= i && i + p.len() <= s.len() && s.subrange(i, i + p.len()) == p
}

/// The first place where `p` stands in `s`, unless there is none.
pub open spec fn first_place(s: Seq<u8>, p: Seq<u8>) -> Option<int> {
    if exists|i: int| occurs(s, p, i) {
        Some(choose|i: int| occurs(s, p, i) && forall|j: int| 0 <= j < i ==> !occurs(s, p, j))
    } else {
        None
    }
}

/// A place where `p` stands, with none before it, is the first.
pub proof fn lemma_first_place(s: Seq<u8>, p: Seq<u8>, i: int)
    requires
        occurs(s, p, i),
        forall|j: int| 0 <= j < i ==> !occurs(s, p, j),
    ensures
        first_place(s, p) == Some(i),
{
    let k = choose|k: int| occurs(s, p, k) && forall|j: int| 0 <= j < k ==> !occurs(s, p, j);
    assert(occurs(s, p, k) && forall|j: int| 0 <= j < k ==> !occurs(s, p, j)) by {
        assert(occurs(s, p, i) && forall|j: int| 0 <= j < i ==> !occurs(s, p, j));
    }
    assert(k == i) by {
        if k < i {
            assert(!occurs(s, p, k));
        } else if i < k {
            assert(!occurs(s, p, i));
        }
    }
}

/// The first place is one where `p` stands, and there is none before it.
pub proof fn lemma_first_place_holds(s: Seq<u8>, p: Seq<u8>)
    ensures
        match first_place(s, p) {
            Some(i) => occurs(s, p, i) && forall|j: int| 0 <= j < i ==> !occurs(s, p, j),
            None => forall|j: int| !occurs(s, p, j),
        },
{
    if exists|i: int| occurs(s, p, i) {
        let i = choose|i: int| occurs(s, p, i);
        lemma_least(s, p, i);
    }
}

proof fn lemma_least(s: Seq<u8>, p: Seq<u8>, i: int)
    requires
        occurs(s, p, i),
    ensures
        exists|k: int| occurs(s, p, k) && forall|j: int| 0 <= j < k ==> !occurs(s, p, j),
    decreases i,
{
    if exists|j: int| 0 <= j < i && occurs(s, p, j) {
        let j = choose|j: int| 0 <= j < i && occurs(s, p, j);
        lemma_least(s, p, j);
    } else {
        assert(occurs(s, p, i) && forall|j: int| 0 <= j < i ==> !occurs(s, p, j));
    }
}

/// Whether `p` stands in `s` at `i`.
fn stands_here(s: &Vec<u8>, p: &[u8], i: usize) -> (r: bool)
    requires
        i <= s@.len(),
    ensures
        r == occurs(s@, p@, i as int),
{
    let total: usize = s.len();
    if p.len() > total - i {
        return false;
    }
    let mut k: usize = 0;
    while k < p.len()
        invariant
            k <= p@.len(),
            total == s@.len(),
            i + p@.len() <= total,
            forall|m: int| 0 <= m < k ==> s@[i + m] == p@[m],
        decreases p@.len() - k,
    {
        if s[i + k] != p[k] {
            assert(s@.subrange(i as int, i + p@.len())[k as int] != p@[k as int]);
            return false;
        }
        k = k + 1;
    }
    assert(s@.subrange(i as int, i + p@.len()) == p@);
    true
}

/// The first place where `needle` stands in `hay`.
pub fn find_subslice(hay: &Vec<u8>, needle: &[u8]) -> (r: Option<usize>)
    requires
        needle@.len() > 0,
    ensures
        match r {
            Some(i) => first_place(hay@, needle@) == Some(i as int) && i + needle@.len() <= hay@.len(),
            None => first_place(hay@, needle@) is None,
        },
{
    let mut i: usize = 0;
    while i < hay.len()
        invariant
            i <= hay@.len(),
            forall|j: int| 0 <= j < i ==> !occurs(hay@, needle@, j),
        decreases hay@.len() - i,
    {
        if stands_here(hay, needle, i) {
            proof {
                lemma_first_place(hay@, needle@, i as int);
            }
            return Some(i);
        }
        i = i + 1;
    }
    proof {
        lemma_first_place_holds(hay@, needle@);
    }
    None
}

/// The bytes of a text.
pub fn bytes_of(s: &str) -> (r: Vec<u8>)
    ensures
        r@ == encode_utf8(s@),
{
    let mut out: Vec<u8> = Vec::new();
    extend(&mut out, s.as_bytes());
    assert(Seq::<u8>::empty() + encode_utf8(s@) == encode_utf8(s@));
    out
}

/// Where a run of bytes first stands in another: there it is, and nowhere before.
pub proof fn law_where_bytes_first_stand(s: Seq<u8>, p: Seq<u8>, i: int)
    ensures
        first_place(s, p) == Some(i) ==> 0 <= i && i + p.len() <= s.len() && s.subrange(i, i + p.len())
            == p && forall|j: int|
            0 <= j < i ==> #[trigger] s.subrange(j, j + p.len()) != p,
        first_place(s, p) is None ==> forall|j: int|
            0 <= j && j + p.len() <= s.len() ==> #[trigger] s.subrange(j, j + p.len()) != p,
{
    if first_place(s, p) is Some {
        lemma_first_place_holds(s, p);
        let k = first_place(s, p)->0;
        assert forall|j: int| 0 <= j < k implies #[trigger] s.subrange(j, j + p.len()) != p by {
            assert(!occurs(s, p, j));
        }
    } else {
        assert forall|j: int| 0 <= j && j + p.len() <= s.len() implies #[trigger] s.subrange(
            j,
            j + p.len(),
        ) != p by {
            assert(!occurs(s, p, j));
        }
    }
}

} // verus!
