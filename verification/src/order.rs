//! Texts in order, and maps that keep their keys that way.
use crate::text::{texts, chars_of, same};
use vstd::prelude::*;
use vstd::string::*;

verus! {

/// Whether `a` comes before `b`: they are compared character by character, and
/// a text comes before any longer one that begins with it.
pub open spec fn precedes(a: Seq<char>, b: Seq<char>) -> bool
    decreases a.len(),
{
    if b.len() == 0 {
        false
    } else if a.len() == 0 {
        true
    } else if a[0] != b[0] {
        a[0] < b[0]
    } else {
        precedes(a.drop_first(), b.drop_first())
    }
}

pub proof fn lemma_precedes_irreflexive(a: Seq<char>)
    ensures
        !precedes(a, a),
    decreases a.len(),
{
    if a.len() > 0 {
        lemma_precedes_irreflexive(a.drop_first());
    }
}

pub proof fn lemma_precedes_transitive(a: Seq<char>, b: Seq<char>, c: Seq<char>)
    requires
        precedes(a, b),
        precedes(b, c),
    ensures
        precedes(a, c),
    decreases a.len(),
{
    if a.len() > 0 && a[0] == b[0] && b[0] == c[0] {
        lemma_precedes_transitive(a.drop_first(), b.drop_first(), c.drop_first());
    }
}

pub proof fn lemma_precedes_total(a: Seq<char>, b: Seq<char>)
    ensures
        a == b || precedes(a, b) || precedes(b, a),
    decreases a.len(),
{
    if a.len() > 0 && b.len() > 0 && a[0] == b[0] {
        lemma_precedes_total(a.drop_first(), b.drop_first());
        if a.drop_first() == b.drop_first() {
            assert(a == seq![a[0]] + a.drop_first());
            assert(b == seq![b[0]] + b.drop_first());
        }
    } else if a.len() == 0 && b.len() == 0 {
        assert(a == b);
    }
}

/// Whether `a` comes before `b`.
pub fn before(a: &str, b: &str) -> (r: bool)
    ensures
        r == precedes(a@, b@),
{
    let x = chars_of(a);
    let y = chars_of(b);
    let mut i: usize = 0;
    assert(a@.skip(0) == a@);
    assert(b@.skip(0) == b@);
    while i < x.len() && i < y.len()
        invariant
            i <= x@.len(),
            i <= y@.len(),
            x@ == a@,
            y@ == b@,
            precedes(a@, b@) == precedes(a@.skip(i as int), b@.skip(i as int)),
        decreases x@.len() - i,
    {
        if x[i] != y[i] {
            return x[i] < y[i];
        }
        assert(a@.skip(i as int).drop_first() == a@.skip(i + 1));
        assert(b@.skip(i as int).drop_first() == b@.skip(i + 1));
        i = i + 1;
    }
    i < y.len()
}

/// Whether each text comes before all that follow it.
pub open spec fn ascending(keys: Seq<Seq<char>>) -> bool {
    forall|i: int, j: int| 0 <= i < j < keys.len() ==> precedes(#[trigger] keys[i], #[trigger] keys[j])
}

pub proof fn lemma_ascending_distinct(keys: Seq<Seq<char>>)
    requires
        ascending(keys),
    ensures
        keys.no_duplicates(),
{
    assert forall|i: int, j: int| 0 <= i < keys.len() && 0 <= j < keys.len() && i != j implies keys[i]
        != keys[j] by {
        if i < j {
            lemma_precedes_irreflexive(keys[i]);
        } else {
            lemma_precedes_irreflexive(keys[j]);
        }
    }
}

/// A map from texts that is walked in the order of its keys.
#[derive(Debug)]
pub struct TextMap<V> {
    entries: Vec<(String, V)>,
}

spec fn keys_of<V>(e: Seq<(String, V)>) -> Seq<Seq<char>> {
    Seq::new(e.len(), |i: int| e[i].0@)
}

spec fn holds<V>(e: Seq<(String, V)>, k: Seq<char>, i: int) -> bool {
    0 <= i < e.len() && e[i].0@ == k
}

spec fn map_of<V>(e: Seq<(String, V)>) -> Map<Seq<char>, V> {
    Map::new(
        |k: Seq<char>| exists|i: int| holds(e, k, i),
        |k: Seq<char>| e[choose|i: int| holds(e, k, i)].1,
    )
}

proof fn lemma_map_of<V>(e: Seq<(String, V)>, i: int)
    requires
        ascending(keys_of(e)),
        0 <= i < e.len(),
    ensures
        map_of(e).dom().contains(e[i].0@),
        map_of(e)[e[i].0@] == e[i].1,
{
    lemma_ascending_distinct(keys_of(e));
    let k = e[i].0@;
    assert(holds(e, k, i));
    let j = choose|j: int| holds(e, k, j);
    assert(keys_of(e)[i] == keys_of(e)[j]);
}

proof fn lemma_map_dom<V>(e: Seq<(String, V)>, k: Seq<char>)
    ensures
        map_of(e).dom().contains(k) <==> keys_of(e).contains(k),
{
    if keys_of(e).contains(k) {
        let i = choose|i: int| 0 <= i < keys_of(e).len() && keys_of(e)[i] == k;
        assert(holds(e, k, i));
    }
    if map_of(e).dom().contains(k) {
        let i = choose|i: int| holds(e, k, i);
        assert(keys_of(e)[i] == k);
    }
}

/// Inserting a new key where it belongs.
proof fn lemma_insert<V>(e: Seq<(String, V)>, i: int, k: String, v: V)
    requires
        ascending(keys_of(e)),
        0 <= i <= e.len(),
        forall|j: int| 0 <= j < i ==> precedes(#[trigger] e[j].0@, k@),
        forall|j: int| i <= j < e.len() ==> precedes(k@, #[trigger] e[j].0@),
    ensures
        ascending(keys_of(e.insert(i, (k, v)))),
        map_of(e.insert(i, (k, v))) == map_of(e).insert(k@, v),
        !map_of(e).dom().contains(k@),
{
    let f = e.insert(i, (k, v));
    let kf = keys_of(f);
    assert forall|a: int, b: int| 0 <= a < b < kf.len() implies precedes(
        #[trigger] kf[a],
        #[trigger] kf[b],
    ) by {
        let pa = if a < i { a } else { a - 1 };
        let pb = if b < i { b } else { b - 1 };
        if a != i && b != i {
            assert(kf[a] == keys_of(e)[pa]);
            assert(kf[b] == keys_of(e)[pb]);
        } else if a == i {
            assert(f[b] == e[b - 1]);
        } else {
            assert(f[a] == e[a]);
        }
    }
    if map_of(e).dom().contains(k@) {
        let j = choose|j: int| holds(e, k@, j);
        lemma_precedes_irreflexive(k@);
        assert(precedes(e[j].0@, k@) || precedes(k@, e[j].0@));
    }
    let m = map_of(e).insert(k@, v);
    assert forall|x: Seq<char>| map_of(f).dom().contains(x) <==> m.dom().contains(x) by {
        if map_of(f).dom().contains(x) {
            let j = choose|j: int| holds(f, x, j);
            if j != i {
                let p = if j < i { j } else { j - 1 };
                assert(holds(e, x, p));
            }
        }
        if map_of(e).dom().contains(x) {
            let p = choose|p: int| holds(e, x, p);
            let j = if p < i { p } else { p + 1 };
            assert(holds(f, x, j));
        }
        if x == k@ {
            assert(holds(f, x, i));
        }
    }
    assert forall|x: Seq<char>| map_of(f).dom().contains(x) implies map_of(f)[x] == m[x] by {
        let j = choose|j: int| holds(f, x, j);
        lemma_map_of(f, j);
        if j != i {
            let p = if j < i { j } else { j - 1 };
            assert(f[j] == e[p]);
            lemma_map_of(e, p);
            assert(map_of(e).dom().contains(x));
        }
    }
    assert(map_of(f) =~= m);
}

proof fn lemma_remove<V>(e: Seq<(String, V)>, i: int)
    requires
        ascending(keys_of(e)),
        0 <= i < e.len(),
    ensures
        ascending(keys_of(e.remove(i))),
        map_of(e.remove(i)) == map_of(e).remove(e[i].0@),
{
    let f = e.remove(i);
    let k = e[i].0@;
    assert forall|a: int, b: int| 0 <= a < b < f.len() implies precedes(
        #[trigger] keys_of(f)[a],
        #[trigger] keys_of(f)[b],
    ) by {
        let pa = if a < i { a } else { a + 1 };
        let pb = if b < i { b } else { b + 1 };
        assert(keys_of(f)[a] == keys_of(e)[pa]);
        assert(keys_of(f)[b] == keys_of(e)[pb]);
    }
    lemma_ascending_distinct(keys_of(e));
    let m = map_of(e).remove(k);
    assert forall|x: Seq<char>| map_of(f).dom().contains(x) <==> m.dom().contains(x) by {
        if map_of(f).dom().contains(x) {
            let j = choose|j: int| holds(f, x, j);
            let p = if j < i { j } else { j + 1 };
            assert(holds(e, x, p));
            assert(keys_of(e)[p] != keys_of(e)[i]);
        }
        if m.dom().contains(x) {
            let p = choose|p: int| holds(e, x, p);
            let j = if p < i { p } else { p - 1 };
            assert(holds(f, x, j));
        }
    }
    assert forall|x: Seq<char>| map_of(f).dom().contains(x) implies map_of(f)[x] == m[x] by {
        let j = choose|j: int| holds(f, x, j);
        lemma_map_of(f, j);
        let p = if j < i { j } else { j + 1 };
        assert(f[j] == e[p]);
        assert(keys_of(e)[p] != keys_of(e)[i]);
        lemma_map_of(e, p);
    }
    assert(map_of(f) =~= m);
}

impl<V> View for TextMap<V> {
    type V = Map<Seq<char>, V>;

    closed spec fn view(&self) -> Map<Seq<char>, V> {
        map_of(self.entries@)
    }
}

impl<V> TextMap<V> {
    /// The keys, in order.
    pub closed spec fn keys(self) -> Seq<Seq<char>> {
        keys_of(self.entries@)
    }

    #[verifier::type_invariant]
    spec fn inv(self) -> bool {
        ascending(keys_of(self.entries@))
    }

    /// A map with nothing in it.
    pub fn new() -> (r: Self)
        ensures
            r@ == Map::<Seq<char>, V>::empty(),
            r.keys() == Seq::<Seq<char>>::empty(),
    {
        let entries: Vec<(String, V)> = Vec::new();
        let r = TextMap { entries };
        proof {
            assert forall|k: Seq<char>| !r@.dom().contains(k) by {
                lemma_map_dom(r.entries@, k);
            }
            assert(r@ =~= Map::<Seq<char>, V>::empty());
            assert(r.keys() =~= Seq::<Seq<char>>::empty());
        }
        r
    }

    /// How many keys there are.
    pub fn len(&self) -> (r: usize)
        ensures
            r == self.keys().len(),
            ascending(self.keys()),
            forall|k: Seq<char>| #[trigger] self@.dom().contains(k) <==> self.keys().contains(k),
    {
        proof {
            use_type_invariant(self);
            assert forall|k: Seq<char>| #[trigger]
                self@.dom().contains(k) <==> self.keys().contains(k) by {
                lemma_map_dom(self.entries@, k);
            }
        }
        self.entries.len()
    }

    /// The key at position `i` in the order of keys.
    pub fn key_at(&self, i: usize) -> (r: &str)
        requires
            i < self.keys().len(),
        ensures
            r@ == self.keys()[i as int],
            self@.dom().contains(r@),
    {
        proof {
            use_type_invariant(self);
            lemma_map_of(self.entries@, i as int);
        }
        self.entries[i].0.as_str()
    }

    /// The value of the key at position `i` in the order of keys.
    pub fn value_at(&self, i: usize) -> (r: &V)
        requires
            i < self.keys().len(),
        ensures
            self@.dom().contains(self.keys()[i as int]),
            *r == self@[self.keys()[i as int]],
    {
        proof {
            use_type_invariant(self);
            lemma_map_of(self.entries@, i as int);
        }
        &self.entries[i].1
    }

    /// Where `k` is, or where it would go.
    fn seek(&self, k: &str) -> (r: (usize, bool))
        ensures
            r.0 <= self.entries@.len(),
            forall|j: int| 0 <= j < r.0 ==> precedes(#[trigger] self.entries@[j].0@, k@),
            r.1 ==> r.0 < self.entries@.len() && self.entries@[r.0 as int].0@ == k@,
            !r.1 ==> forall|j: int|
                r.0 <= j < self.entries@.len() ==> precedes(k@, #[trigger] self.entries@[j].0@),
            r.1 == self@.dom().contains(k@),
    {
        proof {
            use_type_invariant(self);
        }
        let mut i: usize = 0;
        while i < self.entries.len() && before(self.entries[i].0.as_str(), k)
            invariant
                i <= self.entries@.len(),
                forall|j: int| 0 <= j < i ==> precedes(#[trigger] self.entries@[j].0@, k@),
            decreases self.entries@.len() - i,
        {
            i = i + 1;
        }
        proof {
            use_type_invariant(self);
        }
        let found = i < self.entries.len() && same(self.entries[i].0.as_str(), k);
        proof {
            let e = self.entries@;
            lemma_map_dom(e, k@);
            if found {
                lemma_map_of(e, i as int);
            } else {
                if i < e.len() {
                    lemma_precedes_total(e[i as int].0@, k@);
                    assert forall|j: int| i <= j < e.len() implies precedes(k@, #[trigger] e[j].0@) by {
                        if j > i {
                            assert(precedes(keys_of(e)[i as int], keys_of(e)[j]));
                            lemma_precedes_transitive(k@, e[i as int].0@, e[j].0@);
                        }
                    }
                }
                if self@.dom().contains(k@) {
                    let j = choose|j: int| holds(e, k@, j);
                    lemma_precedes_irreflexive(k@);
                    if j < i {
                        assert(precedes(e[j].0@, k@));
                    } else {
                        assert(precedes(k@, e[j].0@));
                    }
                }
            }
        }
        (i, found)
    }

    /// The value of `k`, when it has one.
    pub fn get(&self, k: &str) -> (r: Option<&V>)
        ensures
            match r {
                Some(v) => self@.dom().contains(k@) && *v == self@[k@],
                None => !self@.dom().contains(k@),
            },
    {
        let (i, found) = self.seek(k);
        if found {
            proof {
                use_type_invariant(self);
                lemma_map_of(self.entries@, i as int);
            }
            Some(&self.entries[i].1)
        } else {
            None
        }
    }

    /// Whether `k` has a value.
    pub fn has(&self, k: &str) -> (r: bool)
        ensures
            r == self@.dom().contains(k@),
    {
        let (_i, found) = self.seek(k);
        found
    }

    /// The keys, in order.
    pub fn names(&self) -> (r: Vec<String>)
        ensures
            texts(r@) == self.keys(),
            ascending(texts(r@)),
            forall|k: Seq<char>| #[trigger] texts(r@).contains(k) <==> self@.dom().contains(k),
    {
        let n: usize = self.len();
        let mut r: Vec<String> = Vec::new();
        let mut i: usize = 0;
        while i < n
            invariant
                n == self.keys().len(),
                i <= n,
                r@.len() == i,
                forall|j: int| 0 <= j < i ==> (#[trigger] r@[j])@ == self.keys()[j],
            decreases n - i,
        {
            r.push(self.key_at(i).to_owned());
            i = i + 1;
        }
        assert(texts(r@) == self.keys());
        r
    }

    /// Give `k` the value `v`, in place of any it had.
    pub fn insert(&mut self, k: String, v: V)
        ensures
            final(self)@ == old(self)@.insert(k@, v),
    {
        let (i, found) = self.seek(k.as_str());
        proof {
            use_type_invariant(&*self);
        }
        let mut e: Vec<(String, V)> = Vec::new();
        std::mem::swap(&mut e, &mut self.entries);
        let ghost e0 = e@;
        if found {
            let _old = e.remove(i);
            proof {
                lemma_remove(e0, i as int);
                assert forall|j: int| i <= j < e@.len() implies precedes(k@, #[trigger] e@[j].0@) by {
                    assert(e@[j] == e0[j + 1]);
                    assert(precedes(keys_of(e0)[i as int], keys_of(e0)[j + 1]));
                }
            }
        }
        proof {
            lemma_insert(e@, i as int, k, v);
            assert(map_of(e0).remove(k@).insert(k@, v) =~= map_of(e0).insert(k@, v));
        }
        e.insert(i, (k, v));
        self.entries = e;
    }

    /// Take `k` and its value out.
    pub fn remove(&mut self, k: &str)
        ensures
            final(self)@ == old(self)@.remove(k@),
    {
        let (i, found) = self.seek(k);
        proof {
            use_type_invariant(&*self);
        }
        if found {
            let mut e: Vec<(String, V)> = Vec::new();
            std::mem::swap(&mut e, &mut self.entries);
            proof {
                lemma_remove(e@, i as int);
            }
            let _old = e.remove(i);
            self.entries = e;
        } else {
            assert(old(self)@.remove(k@) =~= old(self)@);
        }
    }
}

// ---------------------------------------------------------------------------
// Putting things in order
// ---------------------------------------------------------------------------

/// Whether the item at `a` is listed before the one at `b`: by their keys, the
/// greatest first when `reversed`, and items with the same key as they stand.
pub open spec fn listed_before(keys: Seq<Seq<char>>, reversed: bool, a: int, b: int) -> bool {
    ||| precedes(keys[a], keys[b]) && !reversed
    ||| precedes(keys[b], keys[a]) && reversed
    ||| keys[a] == keys[b] && a < b
}

/// Whether `order` lists every item once, in order of the keys.
pub open spec fn is_order(order: Seq<usize>, keys: Seq<Seq<char>>, reversed: bool) -> bool {
    &&& order.len() == keys.len()
    &&& forall|i: int| 0 <= i < order.len() ==> (#[trigger] order[i]) < keys.len()
    &&& forall|i: int, j: int|
        0 <= i < j < order.len() ==> listed_before(
            keys,
            reversed,
            #[trigger] order[i] as int,
            #[trigger] order[j] as int,
        )
}

/// The items at these places.
pub open spec fn arranged<T>(items: Seq<T>, order: Seq<usize>) -> Seq<T> {
    order.map_values(|i: usize| items[i as int])
}

proof fn lemma_listed_before_transitive(keys: Seq<Seq<char>>, reversed: bool, a: int, b: int, c: int)
    requires
        listed_before(keys, reversed, a, b),
        listed_before(keys, reversed, b, c),
    ensures
        listed_before(keys, reversed, a, c),
{
    if precedes(keys[a], keys[b]) && precedes(keys[b], keys[c]) {
        lemma_precedes_transitive(keys[a], keys[b], keys[c]);
    }
    if precedes(keys[b], keys[a]) && precedes(keys[c], keys[b]) {
        lemma_precedes_transitive(keys[c], keys[b], keys[a]);
    }
}

/// An order lists no item twice, so it lists every item once.
pub proof fn law_an_order_lists_each_once(order: Seq<usize>, keys: Seq<Seq<char>>, reversed: bool)
    requires
        is_order(order, keys, reversed),
    ensures
        order.no_duplicates(),
{
    assert forall|i: int, j: int| 0 <= i < order.len() && 0 <= j < order.len() && i != j implies order[i]
        != order[j] by {
        lemma_precedes_irreflexive(keys[order[i] as int]);
        if i < j {
            assert(listed_before(keys, reversed, order[i] as int, order[j] as int));
        } else {
            assert(listed_before(keys, reversed, order[j] as int, order[i] as int));
        }
    }
}

/// The places of the items in the order of their keys.
pub fn put_in_order(keys: &Vec<String>, reversed: bool) -> (r: Vec<usize>)
    ensures
        is_order(r@, texts(keys@), reversed),
{
    let ghost all = texts(keys@);
    let mut order: Vec<usize> = Vec::new();
    let mut n: usize = 0;
    while n < keys.len()
        invariant
            n <= keys@.len(),
            all == texts(keys@),
            order@.len() == n,
            forall|i: int| 0 <= i < order@.len() ==> (#[trigger] order@[i]) < n,
            forall|i: int, j: int|
                0 <= i < j < order@.len() ==> listed_before(
                    all,
                    reversed,
                    #[trigger] order@[i] as int,
                    #[trigger] order@[j] as int,
                ),
        decreases keys@.len() - n,
    {
        let ghost before_insert = order@;
        let mut at: usize = order.len();
        while at > 0 && goes_before(keys, reversed, n, order[at - 1])
            invariant
                at <= order@.len(),
                n < keys@.len(),
                all == texts(keys@),
                order@.len() == n,
                order@ == before_insert,
                forall|i: int| 0 <= i < order@.len() ==> (#[trigger] order@[i]) < n,
                forall|i: int, j: int|
                    0 <= i < j < order@.len() ==> listed_before(
                        all,
                        reversed,
                        #[trigger] order@[i] as int,
                        #[trigger] order@[j] as int,
                    ),
                forall|j: int|
                    at <= j < order@.len() ==> listed_before(
                        all,
                        reversed,
                        n as int,
                        #[trigger] order@[j] as int,
                    ),
            decreases at,
        {
            at = at - 1;
        }
        proof {
            if at > 0 {
                let last = order@[at - 1] as int;
                lemma_precedes_total(all[n as int], all[last]);
                assert(listed_before(all, reversed, last, n as int));
                assert forall|i: int| 0 <= i < at implies listed_before(
                    all,
                    reversed,
                    #[trigger] order@[i] as int,
                    n as int,
                ) by {
                    if i < at - 1 {
                        assert(listed_before(all, reversed, order@[i] as int, order@[at - 1] as int));
                        lemma_listed_before_transitive(
                            all,
                            reversed,
                            order@[i] as int,
                            last,
                            n as int,
                        );
                    }
                }
            }
        }
        order.insert(at, n);
        proof {
            assert(order@ == before_insert.insert(at as int, n));
            assert forall|i: int, j: int| 0 <= i < j < order@.len() implies listed_before(
                all,
                reversed,
                #[trigger] order@[i] as int,
                #[trigger] order@[j] as int,
            ) by {
                let a = if i < at { i } else { i - 1 };
                let b = if j < at { j } else { j - 1 };
                if i != at {
                    assert(order@[i] == before_insert[a]);
                }
                if j != at {
                    assert(order@[j] == before_insert[b]);
                }
                if i != at && j != at {
                    assert(listed_before(
                        all,
                        reversed,
                        before_insert[a] as int,
                        before_insert[b] as int,
                    ));
                }
            }
            assert forall|i: int| 0 <= i < order@.len() implies (#[trigger] order@[i]) < n + 1 by {
                if i < at {
                    assert(order@[i] == before_insert[i]);
                } else if i > at {
                    assert(order@[i] == before_insert[i - 1]);
                }
            }
        }
        n = n + 1;
    }
    order
}

/// Whether the item at `a` is listed before the one at `b`, which stands before
/// it.
fn goes_before(keys: &Vec<String>, reversed: bool, a: usize, b: usize) -> (r: bool)
    requires
        b < a < keys@.len(),
    ensures
        r == listed_before(texts(keys@), reversed, a as int, b as int),
{
    if reversed {
        before(keys[b].as_str(), keys[a].as_str())
    } else {
        before(keys[a].as_str(), keys[b].as_str())
    }
}

/// Texts are in order by their first character that differs; where none does, the
/// shorter comes first.
pub proof fn law_which_text_comes_first(common: Seq<char>, a: Seq<char>, b: Seq<char>)
    ensures
        precedes(common + a, common + b) == precedes(a, b),
        a.len() > 0 && b.len() > 0 && a[0] != b[0] ==> (precedes(a, b) <==> a[0] < b[0]),
        b.len() > 0 ==> precedes(Seq::empty(), b),
        !precedes(a, Seq::empty()),
    decreases common.len(),
{
    if common.len() > 0 {
        let rest = common.drop_first();
        law_which_text_comes_first(rest, a, b);
        assert((common + a).drop_first() == rest + a);
        assert((common + b).drop_first() == rest + b);
    } else {
        assert(common + a == a);
        assert(common + b == b);
    }
}

/// An ordered list puts the earlier key first, or the later one where it is
/// reversed; equal keys stay as they stood.
pub proof fn law_what_an_order_does(
    order: Seq<usize>,
    keys: Seq<Seq<char>>,
    reversed: bool,
    i: int,
    j: int,
)
    requires
        is_order(order, keys, reversed),
        0 <= i < j < order.len(),
    ensures
        ({
            let a = keys[order[i] as int];
            let b = keys[order[j] as int];
            &&& arranged(keys, order)[i] == a
            &&& !reversed ==> a == b || precedes(a, b)
            &&& reversed ==> a == b || precedes(b, a)
            &&& a == b ==> order[i] < order[j]
        }),
{
    let a = order[i] as int;
    let b = order[j] as int;
    assert(listed_before(keys, reversed, a, b));
    lemma_precedes_irreflexive(keys[a]);
}

} // verus!
