//! The walk downstream from one asset.
//!
//! An asset feeds another when some pipeline reads the first and writes the
//! second. Everything reached from an asset by such hops, and every pipeline
//! passed on the way, is what a change to that asset can break.
use crate::catalog::{Direction, Reached, Touch};
use crate::order::{ascending, TextMap};
use crate::text::same;
use vstd::prelude::*;
use vstd::string::*;

verus! {

/// Whether pipeline `p` reads asset `a`.
pub open spec fn reads(ts: Seq<Touch>, p: Seq<char>, a: Seq<char>) -> bool {
    exists|i: int| #![trigger ts[i]]
        0 <= i < ts.len() && ts[i].direction == Direction::Read && ts[i].pipeline_id@ == p
            && ts[i].asset@ == a
}

/// Whether pipeline `p` writes asset `a`.
pub open spec fn writes(ts: Seq<Touch>, p: Seq<char>, a: Seq<char>) -> bool {
    exists|i: int| #![trigger ts[i]]
        0 <= i < ts.len() && ts[i].direction == Direction::Write && ts[i].pipeline_id@ == p
            && ts[i].asset@ == a
}

/// Whether some pipeline reads `a` and writes `b`.
pub open spec fn feeds(ts: Seq<Touch>, a: Seq<char>, b: Seq<char>) -> bool {
    exists|p: Seq<char>| reads(ts, p, a) && writes(ts, p, b)
}

/// Whether `a` can be reached from `from` in exactly `n` hops.
pub open spec fn asset_at(ts: Seq<Touch>, from: Seq<char>, a: Seq<char>, n: nat) -> bool
    decreases n,
{
    if n == 0 {
        a == from
    } else {
        exists|b: Seq<char>|
            asset_at(ts, from, b, (n - 1) as nat) && #[trigger] feeds(ts, b, a)
    }
}

/// Whether pipeline `p` reads an asset that is `n - 1` hops from `from`.
pub open spec fn pipeline_at(ts: Seq<Touch>, from: Seq<char>, p: Seq<char>, n: nat) -> bool {
    n > 0 && exists|a: Seq<char>|
        asset_at(ts, from, a, (n - 1) as nat) && #[trigger] reads(ts, p, a)
}

/// Whether `d` is the fewest hops that reach asset `a`.
pub open spec fn asset_depth(ts: Seq<Touch>, from: Seq<char>, a: Seq<char>, d: nat) -> bool {
    asset_at(ts, from, a, d) && forall|k: nat| k < d ==> !asset_at(ts, from, a, k)
}

/// Whether `d` is the fewest hops that reach pipeline `p`.
pub open spec fn pipeline_depth(ts: Seq<Touch>, from: Seq<char>, p: Seq<char>, d: nat) -> bool {
    pipeline_at(ts, from, p, d) && forall|k: nat| k < d ==> !pipeline_at(ts, from, p, k)
}

/// The names in a list of what was reached.
pub open spec fn ids(v: Seq<Reached>) -> Seq<Seq<char>> {
    Seq::new(v.len(), |i: int| v[i].id@)
}

/// Whether `v` lists, in order of name and each once, exactly the pipelines
/// reached from `from`, each with the fewest hops to it.
pub open spec fn pipelines_reached(ts: Seq<Touch>, from: Seq<char>, v: Seq<Reached>) -> bool {
    &&& ascending(ids(v))
    &&& forall|i: int| 0 <= i < v.len() ==> pipeline_depth(ts, from, (#[trigger] v[i]).id@, v[i].depth as nat)
    &&& forall|p: Seq<char>, n: nat| #[trigger] pipeline_at(ts, from, p, n) ==> ids(v).contains(p)
}

/// Whether `v` lists, in order of name and each once, exactly the assets other
/// than `from` that are reached from it, each with the fewest hops to it.
pub open spec fn assets_reached(ts: Seq<Touch>, from: Seq<char>, v: Seq<Reached>) -> bool {
    &&& ascending(ids(v))
    &&& forall|i: int|
        0 <= i < v.len() ==> v[i].id@ != from && asset_depth(
            ts,
            from,
            (#[trigger] v[i]).id@,
            v[i].depth as nat,
        )
    &&& forall|a: Seq<char>, n: nat| #[trigger]
        asset_at(ts, from, a, n) && a != from ==> ids(v).contains(a)
}

/// Whether `b` is in the queue with at most `d` hops.
spec fn queued(q: Seq<(String, usize)>, b: Seq<char>, d: nat) -> bool {
    exists|j: int| #![trigger q[j]] 0 <= j < q.len() && q[j].0@ == b && q[j].1 <= d
}

/// What holds of the queue and the assets found, whatever has been walked.
spec fn sound(
    ts: Seq<Touch>,
    from: Seq<char>,
    q: Seq<(String, usize)>,
    assets: Map<Seq<char>, usize>,
    head: int,
) -> bool {
    &&& 0 <= head <= q.len()
    &&& q.len() > 0
    &&& q[0].0@ == from
    &&& q[0].1 == 0
    &&& forall|i: int|
        0 <= i < q.len() ==> asset_at(ts, from, (#[trigger] q[i]).0@, q[i].1 as nat) && q[i].1 <= i
    &&& forall|i: int, j: int| 0 <= i < j < q.len() ==> (#[trigger] q[i]).1 <= (#[trigger] q[j]).1
    &&& head < q.len() ==> forall|i: int| 0 <= i < q.len() ==> (#[trigger] q[i]).1 <= q[head].1 + 1
    &&& forall|i: int|
        0 < i < q.len() ==> (#[trigger] q[i]).0@ != from && assets.dom().contains(q[i].0@)
            && assets[q[i].0@] == q[i].1
    &&& forall|a: Seq<char>| #[trigger]
        assets.dom().contains(a) ==> exists|i: int| #![trigger q[i]] 0 < i < q.len() && q[i].0@ == a
    &&& forall|i: int, j: int| 0 <= i < j < q.len() ==> (#[trigger] q[i]).0@ != (#[trigger] q[j]).0@
    &&& forall|i: int| 0 < i < q.len() ==> names(ts).contains((#[trigger] q[i]).0@)
}

/// The assets that the touches name.
spec fn names(ts: Seq<Touch>) -> Seq<Seq<char>> {
    Seq::new(ts.len(), |i: int| ts[i].asset@)
}

/// The queue is never longer than there are names to put in it.
proof fn lemma_queue_bound(
    ts: Seq<Touch>,
    from: Seq<char>,
    q: Seq<(String, usize)>,
    assets: Map<Seq<char>, usize>,
    head: int,
)
    requires
        sound(ts, from, q, assets, head),
    ensures
        q.len() <= ts.len() + 1,
{
    let found = Seq::new((q.len() - 1) as nat, |i: int| q[i + 1].0@);
    assert forall|i: int, j: int| 0 <= i < found.len() && 0 <= j < found.len() && i != j implies found[i]
        != found[j] by {
        if i < j {
            assert(q[i + 1].0@ != q[j + 1].0@);
        } else {
            assert(q[j + 1].0@ != q[i + 1].0@);
        }
    }
    found.unique_seq_to_set();
    names(ts).lemma_cardinality_of_set();
    assert(found.to_set().subset_of(names(ts).to_set())) by {
        assert forall|a: Seq<char>| found.to_set().contains(a) implies names(ts).to_set().contains(
            a,
        ) by {
            let i = choose|i: int| 0 <= i < found.len() && found[i] == a;
            assert(names(ts).contains(q[i + 1].0@));
        }
    }
    vstd::set_lib::lemma_len_subset(found.to_set(), names(ts).to_set());
}

/// What holds of the pipelines found, whatever has been walked.
spec fn honest(ts: Seq<Touch>, from: Seq<char>, pipelines: Map<Seq<char>, usize>) -> bool {
    forall|p: Seq<char>| #[trigger]
        pipelines.dom().contains(p) ==> pipeline_at(ts, from, p, pipelines[p] as nat)
}

/// Whether the first `k` touches have been followed from `a`, `d` hops away.
spec fn followed(
    ts: Seq<Touch>,
    q: Seq<(String, usize)>,
    pipelines: Map<Seq<char>, usize>,
    a: Seq<char>,
    d: nat,
    k: int,
) -> bool {
    forall|i: int|
        0 <= i < k && (#[trigger] ts[i]).direction == Direction::Read && ts[i].asset@ == a ==> {
            &&& pipelines.dom().contains(ts[i].pipeline_id@)
            &&& pipelines[ts[i].pipeline_id@] <= d + 1
            &&& written(ts, q, ts[i].pipeline_id@, d, ts.len() as int)
        }
}

/// Whether what pipeline `p` writes in the first `k` touches is in the queue.
spec fn written(ts: Seq<Touch>, q: Seq<(String, usize)>, p: Seq<char>, d: nat, k: int) -> bool {
    forall|j: int|
        0 <= j < k && (#[trigger] ts[j]).direction == Direction::Write && ts[j].pipeline_id@ == p
            ==> queued(q, ts[j].asset@, d + 1)
}

/// Whether everything before `head` in the queue has been followed.
spec fn walked(
    ts: Seq<Touch>,
    q: Seq<(String, usize)>,
    pipelines: Map<Seq<char>, usize>,
    head: int,
) -> bool {
    forall|i: int|
        0 <= i < head ==> followed(ts, q, pipelines, (#[trigger] q[i]).0@, q[i].1 as nat, ts.len() as int)
}

proof fn lemma_queued_push(q: Seq<(String, usize)>, x: (String, usize), b: Seq<char>, d: nat)
    requires
        queued(q, b, d),
    ensures
        queued(q.push(x), b, d),
{
    let j = choose|j: int| #![trigger q[j]] 0 <= j < q.len() && q[j].0@ == b && q[j].1 <= d;
    assert(q.push(x)[j] == q[j]);
}

proof fn lemma_written_push(
    ts: Seq<Touch>,
    q: Seq<(String, usize)>,
    x: (String, usize),
    p: Seq<char>,
    d: nat,
    k: int,
)
    requires
        written(ts, q, p, d, k),
    ensures
        written(ts, q.push(x), p, d, k),
{
    assert forall|j: int|
        0 <= j < k && (#[trigger] ts[j]).direction == Direction::Write && ts[j].pipeline_id@
            == p implies queued(q.push(x), ts[j].asset@, d + 1) by {
        lemma_queued_push(q, x, ts[j].asset@, d + 1);
    }
}

proof fn lemma_followed_push(
    ts: Seq<Touch>,
    q: Seq<(String, usize)>,
    x: (String, usize),
    pipelines: Map<Seq<char>, usize>,
    a: Seq<char>,
    d: nat,
    k: int,
)
    requires
        followed(ts, q, pipelines, a, d, k),
    ensures
        followed(ts, q.push(x), pipelines, a, d, k),
{
    assert forall|i: int|
        0 <= i < k && (#[trigger] ts[i]).direction == Direction::Read && ts[i].asset@
            == a implies written(ts, q.push(x), ts[i].pipeline_id@, d, ts.len() as int) by {
        lemma_written_push(ts, q, x, ts[i].pipeline_id@, d, ts.len() as int);
    }
}

proof fn lemma_walked_push(
    ts: Seq<Touch>,
    q: Seq<(String, usize)>,
    x: (String, usize),
    pipelines: Map<Seq<char>, usize>,
    head: int,
)
    requires
        walked(ts, q, pipelines, head),
        head <= q.len(),
    ensures
        walked(ts, q.push(x), pipelines, head),
{
    let r = q.push(x);
    assert forall|i: int| 0 <= i < head implies followed(
        ts,
        r,
        pipelines,
        (#[trigger] r[i]).0@,
        r[i].1 as nat,
        ts.len() as int,
    ) by {
        assert(r[i] == q[i]);
        lemma_followed_push(ts, q, x, pipelines, q[i].0@, q[i].1 as nat, ts.len() as int);
    }
}

/// When the whole queue has been walked it holds all that can be reached.
proof fn lemma_complete(
    ts: Seq<Touch>,
    from: Seq<char>,
    q: Seq<(String, usize)>,
    pipelines: Map<Seq<char>, usize>,
    a: Seq<char>,
    n: nat,
)
    requires
        q.len() > 0,
        q[0].0@ == from,
        q[0].1 == 0,
        walked(ts, q, pipelines, q.len() as int),
        asset_at(ts, from, a, n),
    ensures
        queued(q, a, n),
    decreases n,
{
    if n == 0 {
        assert(q[0].0@ == a);
    } else {
        let m = (n - 1) as nat;
        let b = choose|b: Seq<char>| asset_at(ts, from, b, m) && #[trigger] feeds(ts, b, a);
        lemma_complete(ts, from, q, pipelines, b, m);
        let i = choose|i: int| #![trigger q[i]] 0 <= i < q.len() && q[i].0@ == b && q[i].1 <= m;
        let p = choose|p: Seq<char>| reads(ts, p, b) && writes(ts, p, a);
        let k = choose|k: int| #![trigger ts[k]]
            0 <= k < ts.len() && ts[k].direction == Direction::Read && ts[k].pipeline_id@ == p
                && ts[k].asset@ == b;
        let l = choose|l: int| #![trigger ts[l]]
            0 <= l < ts.len() && ts[l].direction == Direction::Write && ts[l].pipeline_id@ == p
                && ts[l].asset@ == a;
        assert(followed(ts, q, pipelines, q[i].0@, q[i].1 as nat, ts.len() as int));
        assert(written(ts, q, p, q[i].1 as nat, ts.len() as int));
        assert(queued(q, a, (q[i].1 + 1) as nat));
        let j = choose|j: int| #![trigger q[j]]
            0 <= j < q.len() && q[j].0@ == a && q[j].1 <= q[i].1 + 1;
        assert(q[j].1 <= n);
    }
}

/// Follow one write of pipeline `p`: queue the asset if it is new.
fn follow_write(
    ts: &Vec<Touch>,
    from: &str,
    q: &mut Vec<(String, usize)>,
    assets: &mut TextMap<usize>,
    head: usize,
    read: usize,
    write: usize,
    Ghost(pipelines): Ghost<Map<Seq<char>, usize>>,
)
    requires
        head < old(q)@.len(),
        read < ts@.len(),
        write < ts@.len(),
        sound(ts@, from@, old(q)@, old(assets)@, head as int),
        walked(ts@, old(q)@, pipelines, head as int),
        followed(ts@, old(q)@, pipelines, old(q)@[head as int].0@, old(q)@[head as int].1 as nat, read as int),
        written(ts@, old(q)@, ts@[read as int].pipeline_id@, old(q)@[head as int].1 as nat, write as int),
        ts@[read as int].direction == Direction::Read,
        ts@[read as int].asset@ == old(q)@[head as int].0@,
    ensures
        final(q)@.len() >= old(q)@.len(),
        final(q)@[head as int] == old(q)@[head as int],
        sound(ts@, from@, final(q)@, final(assets)@, head as int),
        walked(ts@, final(q)@, pipelines, head as int),
        followed(ts@, final(q)@, pipelines, old(q)@[head as int].0@, old(q)@[head as int].1 as nat, read as int),
        written(ts@, final(q)@, ts@[read as int].pipeline_id@, old(q)@[head as int].1 as nat, write + 1),
{
    let w = &ts[write];
    let ghost q0 = q@;
    let ghost a0 = assets@;
    let ghost p = ts@[read as int].pipeline_id@;
    let ghost d = q0[head as int].1 as nat;
    let ghost cur = q0[head as int].0@;
    if w.direction == Direction::Write && same(w.pipeline_id.as_str(), ts[read].pipeline_id.as_str()) {
        if !same(w.asset.as_str(), from) && !assets.has(w.asset.as_str()) {
            assert(q@[head as int].1 <= head < q.len());
            let next: usize = q[head].1 + 1;
            let item = (w.asset.clone(), next);
            assets.insert(w.asset.clone(), next);
            q.push(item);
            proof {
                let b = w.asset@;
                assert(reads(ts@, p, cur)) by {
                    assert(ts@[read as int].asset@ == cur);
                }
                assert(writes(ts@, p, b)) by {
                    assert(ts@[write as int].asset@ == b);
                }
                assert(feeds(ts@, cur, b));
                assert(asset_at(ts@, from@, cur, d));
                assert((d + 1 - 1) as nat == d);
                assert(asset_at(ts@, from@, b, d + 1));
                assert(q@ == q0.push(item));
                assert forall|i: int| 0 <= i < q@.len() implies asset_at(
                    ts@,
                    from@,
                    (#[trigger] q@[i]).0@,
                    q@[i].1 as nat,
                ) && q@[i].1 <= i by {
                    if i < q0.len() {
                        assert(q@[i] == q0[i]);
                    }
                }
                assert forall|i: int, j: int| 0 <= i < j < q@.len() implies (#[trigger] q@[i]).1 <= (
                #[trigger] q@[j]).1 by {
                    assert(q@[i] == q0[i]);
                    if j < q0.len() {
                        assert(q@[j] == q0[j]);
                    }
                }
                assert forall|i: int| 0 < i < q@.len() implies (#[trigger] q@[i]).0@ != from@
                    && assets@.dom().contains(q@[i].0@) && assets@[q@[i].0@] == q@[i].1 by {
                    if i < q0.len() {
                        assert(q@[i] == q0[i]);
                        assert(a0.dom().contains(q0[i].0@));
                    }
                }
                assert forall|a: Seq<char>| #[trigger] assets@.dom().contains(a) implies exists|i: int|
                    #![trigger q@[i]]
                    0 < i < q@.len() && q@[i].0@ == a by {
                    if a0.dom().contains(a) {
                        let i = choose|i: int| #![trigger q0[i]] 0 < i < q0.len() && q0[i].0@ == a;
                        assert(q@[i] == q0[i]);
                    } else {
                        assert(q@[q0.len() as int].0@ == a);
                    }
                }
                assert forall|i: int, j: int| 0 <= i < j < q@.len() implies (#[trigger] q@[i]).0@ != (
                #[trigger] q@[j]).0@ by {
                    assert(q@[i] == q0[i]);
                    if j < q0.len() {
                        assert(q@[j] == q0[j]);
                    } else if i > 0 {
                        assert(a0.dom().contains(q0[i].0@));
                    }
                }
                assert(names(ts@)[write as int] == b);
                assert forall|i: int| 0 < i < q@.len() implies names(ts@).contains((#[trigger] q@[i]).0@) by {
                    if i < q0.len() {
                        assert(q@[i] == q0[i]);
                    }
                }
                lemma_walked_push(ts@, q0, item, pipelines, head as int);
                lemma_followed_push(ts@, q0, item, pipelines, cur, d, read as int);
                lemma_written_push(ts@, q0, item, p, d, write as int);
                assert(queued(q@, b, d + 1)) by {
                    assert(q@[q0.len() as int] == item);
                }
            }
        } else {
            proof {
                let b = w.asset@;
                if b == from@ {
                    assert(q0[0].0@ == b);
                    assert(queued(q0, b, d + 1));
                } else {
                    assert(a0.dom().contains(b));
                    let i = choose|i: int| #![trigger q0[i]] 0 < i < q0.len() && q0[i].0@ == b;
                    assert(q0[i].1 <= d + 1);
                    assert(queued(q0, b, d + 1));
                }
            }
        }
    }
}

/// Record that pipeline `p` is reached in `d` hops, unless fewer are known.
fn reach(pipelines: &mut TextMap<usize>, p: &str, d: usize)
    ensures
        final(pipelines)@.dom() == old(pipelines)@.dom().insert(p@),
        final(pipelines)@[p@] <= d,
        final(pipelines)@[p@] == d || (old(pipelines)@.dom().contains(p@) && final(pipelines)@[p@]
            == old(pipelines)@[p@]),
        forall|x: Seq<char>|
            x != p@ && #[trigger] old(pipelines)@.dom().contains(x) ==> final(pipelines)@[x]
                == old(pipelines)@[x],
        old(pipelines)@.dom().contains(p@) ==> final(pipelines)@[p@] <= old(pipelines)@[p@],
{
    let known = match pipelines.get(p) {
        Some(k) => *k <= d,
        None => false,
    };
    if !known {
        pipelines.insert(p.to_owned(), d);
    } else {
        assert(old(pipelines)@.dom().insert(p@) =~= old(pipelines)@.dom());
    }
}

/// Reaching one more pipeline keeps what was followed before.
proof fn lemma_followed_reach(
    ts: Seq<Touch>,
    q: Seq<(String, usize)>,
    p0: Map<Seq<char>, usize>,
    p1: Map<Seq<char>, usize>,
    a: Seq<char>,
    d: nat,
    k: int,
)
    requires
        followed(ts, q, p0, a, d, k),
        forall|x: Seq<char>| #[trigger]
            p0.dom().contains(x) ==> p1.dom().contains(x) && p1[x] <= p0[x],
    ensures
        followed(ts, q, p1, a, d, k),
{
}

/// When the whole queue has been walked, what was found is all there is, with
/// the fewest hops to each.
proof fn lemma_exact(
    ts: Seq<Touch>,
    from: Seq<char>,
    q: Seq<(String, usize)>,
    assets: Map<Seq<char>, usize>,
    pipelines: Map<Seq<char>, usize>,
)
    requires
        sound(ts, from, q, assets, q.len() as int),
        walked(ts, q, pipelines, q.len() as int),
        honest(ts, from, pipelines),
    ensures
        forall|p: Seq<char>| #[trigger]
            pipelines.dom().contains(p) ==> pipeline_depth(ts, from, p, pipelines[p] as nat),
        forall|p: Seq<char>, n: nat| #[trigger]
            pipeline_at(ts, from, p, n) ==> pipelines.dom().contains(p),
        forall|a: Seq<char>| #[trigger]
            assets.dom().contains(a) ==> a != from && asset_depth(ts, from, a, assets[a] as nat),
        forall|a: Seq<char>, n: nat| #[trigger]
            asset_at(ts, from, a, n) && a != from ==> assets.dom().contains(a),
{
    assert forall|a: Seq<char>, n: nat| #[trigger] asset_at(ts, from, a, n) && a != from implies (
    assets.dom().contains(a) && assets[a] <= n) by {
        lemma_complete(ts, from, q, pipelines, a, n);
        let j = choose|j: int| #![trigger q[j]] 0 <= j < q.len() && q[j].0@ == a && q[j].1 <= n;
        assert(0 < j);
    }
    assert forall|a: Seq<char>| #[trigger] assets.dom().contains(a) implies a != from && asset_depth(
        ts,
        from,
        a,
        assets[a] as nat,
    ) by {
        let i = choose|i: int| #![trigger q[i]] 0 < i < q.len() && q[i].0@ == a;
        assert(asset_at(ts, from, q[i].0@, q[i].1 as nat));
        assert forall|k: nat| k < assets[a] implies !asset_at(ts, from, a, k) by {
            if asset_at(ts, from, a, k) {
                assert(assets[a] <= k);
            }
        }
    }
    assert forall|p: Seq<char>, n: nat| #[trigger] pipeline_at(ts, from, p, n) implies (
    pipelines.dom().contains(p) && pipelines[p] <= n) by {
        let m = (n - 1) as nat;
        let a = choose|a: Seq<char>| asset_at(ts, from, a, m) && #[trigger] reads(ts, p, a);
        lemma_complete(ts, from, q, pipelines, a, m);
        let i = choose|i: int| #![trigger q[i]] 0 <= i < q.len() && q[i].0@ == a && q[i].1 <= m;
        assert(followed(ts, q, pipelines, q[i].0@, q[i].1 as nat, ts.len() as int));
        let k = choose|k: int| #![trigger ts[k]]
            0 <= k < ts.len() && ts[k].direction == Direction::Read && ts[k].pipeline_id@ == p
                && ts[k].asset@ == a;
        assert(pipelines.dom().contains(ts[k].pipeline_id@));
    }
    assert forall|p: Seq<char>| #[trigger] pipelines.dom().contains(p) implies pipeline_depth(
        ts,
        from,
        p,
        pipelines[p] as nat,
    ) by {
        assert forall|k: nat| k < pipelines[p] implies !pipeline_at(ts, from, p, k) by {
            if pipeline_at(ts, from, p, k) {
                assert(pipelines[p] <= k);
            }
        }
    }
}

/// Whether `v` lists what `m` holds.
spec fn lists(v: Seq<Reached>, m: Map<Seq<char>, usize>) -> bool {
    &&& forall|i: int|
        0 <= i < v.len() ==> m.dom().contains((#[trigger] v[i]).id@) && m[v[i].id@] == v[i].depth
    &&& forall|k: Seq<char>| #[trigger] m.dom().contains(k) ==> ids(v).contains(k)
}

/// The entries of a map, in order of key.
fn listing(m: &TextMap<usize>) -> (r: Vec<Reached>)
    ensures
        ascending(ids(r@)),
        lists(r@, m@),
{
    let n: usize = m.len();
    let mut r: Vec<Reached> = Vec::new();
    let mut i: usize = 0;
    while i < n
        invariant
            n == m.keys().len(),
            i <= n,
            r@.len() == i,
            forall|j: int|
                0 <= j < i ==> (#[trigger] r@[j]).id@ == m.keys()[j] && m@.dom().contains(r@[j].id@)
                    && m@[r@[j].id@] == r@[j].depth,
        decreases n - i,
    {
        r.push(Reached { id: m.key_at(i).to_owned(), depth: *m.value_at(i) });
        i = i + 1;
    }
    assert(ids(r@) =~= m.keys());
    r
}

/// Everything that a change to `from` reaches: the pipelines, and the assets.
pub fn downstream(ts: &Vec<Touch>, from: &str) -> (r: (Vec<Reached>, Vec<Reached>))
    ensures
        pipelines_reached(ts@, from@, r.0@),
        assets_reached(ts@, from@, r.1@),
{
    let mut q: Vec<(String, usize)> = Vec::new();
    let mut pipelines: TextMap<usize> = TextMap::new();
    let mut assets: TextMap<usize> = TextMap::new();
    q.push((from.to_owned(), 0));
    let mut head: usize = 0;
    assert(sound(ts@, from@, q@, assets@, 0));
    while head < q.len()
        invariant
            sound(ts@, from@, q@, assets@, head as int),
            walked(ts@, q@, pipelines@, head as int),
            honest(ts@, from@, pipelines@),
        decreases ts@.len() + 1 - q@.len(), q@.len() - head,
    {
        let ghost cur = q@[head as int].0@;
        let ghost d = q@[head as int].1 as nat;
        let ghost len0 = q@.len();
        let mut i: usize = 0;
        while i < ts.len()
            invariant
                i <= ts@.len(),
                head < q@.len(),
                len0 <= q@.len(),
                q@[head as int].0@ == cur,
                q@[head as int].1 == d,
                sound(ts@, from@, q@, assets@, head as int),
                walked(ts@, q@, pipelines@, head as int),
                honest(ts@, from@, pipelines@),
                followed(ts@, q@, pipelines@, cur, d, i as int),
            decreases ts@.len() - i,
        {
            if ts[i].direction == Direction::Read && same(ts[i].asset.as_str(), q[head].0.as_str()) {
                let ghost p = ts@[i as int].pipeline_id@;
                let ghost p0 = pipelines@;
                assert(q@[head as int].1 <= head < q.len());
                let hops: usize = q[head].1 + 1;
                reach(&mut pipelines, ts[i].pipeline_id.as_str(), hops);
                proof {
                    assert(reads(ts@, p, cur)) by {
                        assert(ts@[i as int].asset@ == cur);
                    }
                    assert(asset_at(ts@, from@, cur, d));
                    assert((d + 1 - 1) as nat == d);
                    assert(pipeline_at(ts@, from@, p, d + 1));
                    assert forall|x: Seq<char>| #[trigger] pipelines@.dom().contains(x) implies pipeline_at(
                        ts@,
                        from@,
                        x,
                        pipelines@[x] as nat,
                    ) by {
                        if x != p {
                            assert(p0.dom().contains(x));
                        }
                    }
                    lemma_followed_reach(ts@, q@, p0, pipelines@, cur, d, i as int);
                    assert forall|k: int| 0 <= k < head implies followed(
                        ts@,
                        q@,
                        pipelines@,
                        (#[trigger] q@[k]).0@,
                        q@[k].1 as nat,
                        ts@.len() as int,
                    ) by {
                        lemma_followed_reach(
                            ts@,
                            q@,
                            p0,
                            pipelines@,
                            q@[k].0@,
                            q@[k].1 as nat,
                            ts@.len() as int,
                        );
                    }
                }
                let mut j: usize = 0;
                while j < ts.len()
                    invariant
                        j <= ts@.len(),
                        i < ts@.len(),
                        head < q@.len(),
                        len0 <= q@.len(),
                        q@[head as int].0@ == cur,
                        q@[head as int].1 == d,
                        ts@[i as int].direction == Direction::Read,
                        ts@[i as int].asset@ == cur,
                        ts@[i as int].pipeline_id@ == p,
                        sound(ts@, from@, q@, assets@, head as int),
                        walked(ts@, q@, pipelines@, head as int),
                        followed(ts@, q@, pipelines@, cur, d, i as int),
                        written(ts@, q@, p, d, j as int),
                    decreases ts@.len() - j,
                {
                    follow_write(ts, from, &mut q, &mut assets, head, i, j, Ghost(pipelines@));
                    j = j + 1;
                }
                assert(followed(ts@, q@, pipelines@, cur, d, i + 1));
            }
            i = i + 1;
        }
        proof {
            lemma_queue_bound(ts@, from@, q@, assets@, head as int);
        }
        head = head + 1;
    }
    let reached = (listing(&pipelines), listing(&assets));
    proof {
        lemma_exact(ts@, from@, q@, assets@, pipelines@);
    }
    reached
}

/// What an asset feeds is listed one hop away, and nothing else is.
pub proof fn law_what_an_asset_feeds_is_one_hop_away(
    ts: Seq<Touch>,
    from: Seq<char>,
    v: Seq<Reached>,
    a: Seq<char>,
)
    requires
        assets_reached(ts, from, v),
        a != from,
    ensures
        feeds(ts, from, a) <==> (exists|j: int|
            0 <= j < v.len() && (#[trigger] v[j]).id@ == a && v[j].depth == 1),
{
    assert(asset_at(ts, from, from, 0));
    if feeds(ts, from, a) {
        assert(asset_at(ts, from, a, 1));
        assert(ids(v).contains(a));
        let j = choose|j: int| 0 <= j < ids(v).len() && ids(v)[j] == a;
        assert(v[j].id@ == a);
        assert(!asset_at(ts, from, a, 0));
    }
    if exists|j: int| 0 <= j < v.len() && (#[trigger] v[j]).id@ == a && v[j].depth == 1 {
        let j = choose|j: int| 0 <= j < v.len() && (#[trigger] v[j]).id@ == a && v[j].depth == 1;
        assert(asset_at(ts, from, a, 1));
        let b = choose|b: Seq<char>| asset_at(ts, from, b, 0) && #[trigger] feeds(ts, b, a);
        assert(b == from);
    }
}

/// What a listed asset feeds is listed too, at most one hop further.
pub proof fn law_the_walk_goes_on(
    ts: Seq<Touch>,
    from: Seq<char>,
    v: Seq<Reached>,
    i: int,
    a: Seq<char>,
)
    requires
        assets_reached(ts, from, v),
        0 <= i < v.len(),
        feeds(ts, v[i].id@, a),
        a != from,
    ensures
        exists|j: int|
            0 <= j < v.len() && (#[trigger] v[j]).id@ == a && v[j].depth <= v[i].depth + 1,
{
    let d = v[i].depth as nat;
    assert(asset_at(ts, from, v[i].id@, d));
    assert(asset_at(ts, from, a, d + 1));
    let j = choose|j: int| 0 <= j < ids(v).len() && ids(v)[j] == a;
    assert(v[j].id@ == a);
}

/// What is listed further away is fed by something listed one hop nearer, and no
/// asset is listed twice, nor the one that the walk starts from.
pub proof fn law_nothing_is_listed_without_a_way_to_it(
    ts: Seq<Touch>,
    from: Seq<char>,
    v: Seq<Reached>,
    i: int,
)
    requires
        assets_reached(ts, from, v),
        0 <= i < v.len(),
    ensures
        v[i].id@ != from,
        v[i].depth >= 1,
        v[i].depth > 1 ==> exists|j: int|
            0 <= j < v.len() && feeds(ts, (#[trigger] v[j]).id@, v[i].id@) && v[j].depth + 1 == v[i].depth,
{
    let a = v[i].id@;
    let d = v[i].depth as nat;
    assert(asset_depth(ts, from, a, d));
    if d > 1 {
        let b = choose|b: Seq<char>| asset_at(ts, from, b, (d - 1) as nat) && #[trigger] feeds(ts, b, a);
        if b == from {
            assert(asset_at(ts, from, from, 0));
            assert(asset_at(ts, from, a, 1));
        }
        let j = choose|j: int| 0 <= j < ids(v).len() && ids(v)[j] == b;
        assert(v[j].id@ == b);
        let e = v[j].depth as nat;
        assert(asset_depth(ts, from, b, e));
        assert(e <= d - 1);
        assert(asset_at(ts, from, a, e + 1));
    }
}

/// Who reads the asset that the walk starts from is listed one hop away, and
/// nobody else is.
pub proof fn law_who_reads_an_asset_is_one_hop_away(
    ts: Seq<Touch>,
    from: Seq<char>,
    v: Seq<Reached>,
    p: Seq<char>,
)
    requires
        pipelines_reached(ts, from, v),
    ensures
        reads(ts, p, from) <==> (exists|j: int|
            0 <= j < v.len() && (#[trigger] v[j]).id@ == p && v[j].depth == 1),
{
    assert(asset_at(ts, from, from, 0));
    if reads(ts, p, from) {
        assert(pipeline_at(ts, from, p, 1));
        let j = choose|j: int| 0 <= j < ids(v).len() && ids(v)[j] == p;
        assert(v[j].id@ == p);
        assert(!pipeline_at(ts, from, p, 0));
    }
    if exists|j: int| 0 <= j < v.len() && (#[trigger] v[j]).id@ == p && v[j].depth == 1 {
        let j = choose|j: int| 0 <= j < v.len() && (#[trigger] v[j]).id@ == p && v[j].depth == 1;
        assert(pipeline_at(ts, from, p, 1));
        let a = choose|a: Seq<char>| asset_at(ts, from, a, 0) && #[trigger] reads(ts, p, a);
        assert(a == from);
    }
}

/// Who reads a listed asset is listed too, one hop further at most; and whoever
/// is listed reads an asset that was reached one hop before.
pub proof fn law_who_reads_what_was_reached(
    ts: Seq<Touch>,
    from: Seq<char>,
    assets: Seq<Reached>,
    v: Seq<Reached>,
    i: int,
    k: int,
    p: Seq<char>,
)
    requires
        assets_reached(ts, from, assets),
        pipelines_reached(ts, from, v),
        0 <= i < v.len(),
    ensures
        0 <= k < assets.len() && reads(ts, p, assets[k].id@) ==> exists|j: int|
            0 <= j < v.len() && (#[trigger] v[j]).id@ == p && v[j].depth <= assets[k].depth + 1,
        v[i].depth >= 1,
        v[i].depth > 1 ==> exists|j: int|
            0 <= j < assets.len() && reads(ts, v[i].id@, (#[trigger] assets[j]).id@) && assets[j].depth + 1
                == v[i].depth,
{
    if 0 <= k < assets.len() && reads(ts, p, assets[k].id@) {
        let d = assets[k].depth as nat;
        assert(asset_at(ts, from, assets[k].id@, d));
        assert(asset_at(ts, from, assets[k].id@, (d + 1 - 1) as nat));
        assert(pipeline_at(ts, from, p, d + 1));
        let j = choose|j: int| 0 <= j < ids(v).len() && ids(v)[j] == p;
        assert(v[j].id@ == p);
    }
    let q = v[i].id@;
    let d = v[i].depth as nat;
    assert(pipeline_depth(ts, from, q, d));
    if d > 1 {
        let b = choose|b: Seq<char>| asset_at(ts, from, b, (d - 1) as nat) && #[trigger] reads(ts, q, b);
        if b == from {
            assert(asset_at(ts, from, from, 0));
            assert(pipeline_at(ts, from, q, 1));
        }
        let j = choose|j: int| 0 <= j < ids(assets).len() && ids(assets)[j] == b;
        assert(assets[j].id@ == b);
        let e = assets[j].depth as nat;
        assert(asset_depth(ts, from, b, e));
        assert(asset_at(ts, from, b, (e + 1 - 1) as nat));
        assert(pipeline_at(ts, from, q, e + 1));
    }
}

} // verus!
