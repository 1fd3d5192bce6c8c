//! What the whole workspace reads and writes, across every pipeline.
//!
//! Each source and sink node names something outside the workspace - a file, a
//! table, a topic - and two pipelines that name the same thing are connected
//! whether or not anyone drew a line between them. Collect those names and the
//! connections fall out, along with the things nobody reads and the things
//! nobody writes.
//!
//! # Honesty about coverage
//!
//! Not every node yields a name. Those that do not are recorded in
//! [`Catalog::unresolved`] rather than dropped: a blast-radius answer that
//! quietly omits the nodes it could not read looks complete and is not.
use crate::asset::{asset_of, no_target, target, Asset};
use crate::json::{
    docs, field, field_in, json_in, lemma_docs, list, list_in, member, parse, text, text_in, value_opt,
    Doc, Json,
};
use crate::lineage::{
    asset_at, asset_depth, assets_reached, downstream, feeds, ids, pipeline_at, pipeline_depth,
    pipelines_reached, reads, writes,
};
use crate::order::{ascending, lemma_precedes_irreflexive, precedes, TextMap};
use crate::paths::{extension, file_extension, file_stem, join, stem, under};
use crate::text::{begins, same, starts_with, str_opt, texts};
use vstd::prelude::*;
use vstd::string::*;

verus! {

/// Which way data flows between a pipeline and an asset.
#[derive(Debug, Clone, Copy, PartialEq, Eq, Structural)]
pub enum Direction {
    Read,
    Write,
}

/// One pipeline touching one asset, at one node.
#[derive(Debug, Clone, PartialEq, Eq)]
pub struct Touch {
    pub pipeline_id: String,
    pub node_id: String,
    pub component_id: String,
    pub asset: String,
    pub direction: Direction,
}

/// A source or sink whose target could not be named, and why.
#[derive(Debug, Clone, PartialEq, Eq)]
pub struct Unresolved {
    pub pipeline_id: String,
    pub node_id: String,
    pub component_id: String,
    pub reason: String,
}

#[derive(Debug, Clone, PartialEq, Eq)]
pub struct PipelineEntry {
    pub id: String,
    pub name: String,
    pub node_count: usize,
}

/// The workspace graph as of the last build.
#[derive(Debug, Clone)]
pub struct Catalog {
    pub pipelines: Vec<PipelineEntry>,
    pub assets: Vec<Asset>,
    pub touches: Vec<Touch>,
    /// Nodes this module could not name a target for. Never empty-by-omission:
    /// see the module docs.
    pub unresolved: Vec<Unresolved>,
}

/// A node reached while walking downstream, and how many hops away it is.
#[derive(Debug, Clone, PartialEq, Eq)]
pub struct Reached {
    pub id: String,
    pub depth: usize,
}

#[derive(Debug, Clone)]
pub struct Impact {
    pub asset: String,
    pub pipelines: Vec<Reached>,
    pub assets: Vec<Reached>,
    /// How many source/sink nodes in the workspace could not be named at all.
    /// Carried on the answer so a caller cannot present it as exhaustive
    /// without also seeing what was missed.
    pub unresolved: usize,
}

// ---------------------------------------------------------------------------
// What a workspace's pipeline files say
// ---------------------------------------------------------------------------

/// A pipeline file: its name and its contents.
pub struct PipelineFile {
    pub name: String,
    pub text: String,
}

/// One pipeline: its id, its name and its nodes.
pub struct Outline {
    pub id: Seq<char>,
    pub name: Seq<char>,
    pub nodes: Seq<Doc>,
}

/// A source or sink node, and the name and kind of its target when it has one.
pub struct Place {
    pub pipeline: Seq<char>,
    pub node: Seq<char>,
    pub component: Seq<char>,
    pub direction: Direction,
    pub target: Option<(Seq<char>, Seq<char>)>,
}

/// A text, or nothing written.
pub open spec fn or_empty(t: Option<Seq<char>>) -> Seq<char> {
    match t {
        Some(s) => s,
        None => Seq::empty(),
    }
}

/// A value, or null.
pub open spec fn or_null(d: Option<Doc>) -> Doc {
    match d {
        Some(v) => v,
        None => Doc::Null,
    }
}

/// The pipeline in a file, unless the file is not JSON or lists no nodes.
pub open spec fn outline(name: Seq<char>, text: Seq<char>) -> Option<Outline> {
    let doc = json_in(text);
    match list_in(field_in(doc, "nodes"@)) {
        Some(nodes) => Some(
            Outline {
                id: stem(name),
                name: match text_in(field_in(doc, "name"@)) {
                    Some(n) => n,
                    None => stem(name),
                },
                nodes,
            },
        ),
        None => None,
    }
}

/// Which way a component moves data, unless it touches nothing outside.
pub open spec fn direction_of(component: Seq<char>) -> Option<Direction> {
    if begins(component, "src."@) {
        Some(Direction::Read)
    } else if begins(component, "snk."@) {
        Some(Direction::Write)
    } else {
        None
    }
}

/// The component of a node.
pub open spec fn component(node: Doc) -> Seq<char> {
    or_empty(text_in(field_in(field_in(Some(node), "data"@), "componentId"@)))
}

/// A node as a source or sink of a pipeline, unless it is neither.
pub open spec fn place(pipeline: Seq<char>, node: Doc) -> Option<Place> {
    match direction_of(component(node)) {
        Some(direction) => Some(
            Place {
                pipeline,
                node: or_empty(text_in(field_in(Some(node), "id"@))),
                component: component(node),
                direction,
                target: target(
                    component(node),
                    or_null(field_in(field_in(Some(node), "data"@), "properties"@)),
                ),
            },
        ),
        None => None,
    }
}

/// The sources and sinks among the nodes of a pipeline, in order.
pub open spec fn places_in(pipeline: Seq<char>, nodes: Seq<Doc>) -> Seq<Place>
    decreases nodes.len(),
{
    if nodes.len() == 0 {
        Seq::empty()
    } else {
        let before = places_in(pipeline, nodes.drop_last());
        match place(pipeline, nodes.last()) {
            Some(p) => before.push(p),
            None => before,
        }
    }
}

/// The pipelines in the files, in order.
pub open spec fn outlines(files: Seq<PipelineFile>) -> Seq<Outline>
    decreases files.len(),
{
    if files.len() == 0 {
        Seq::empty()
    } else {
        let before = outlines(files.drop_last());
        match outline(files.last().name@, files.last().text@) {
            Some(o) => before.push(o),
            None => before,
        }
    }
}

/// The sources and sinks of all the pipelines, in order.
pub open spec fn places(all: Seq<Outline>) -> Seq<Place>
    decreases all.len(),
{
    if all.len() == 0 {
        Seq::empty()
    } else {
        places(all.drop_last()) + places_in(all.last().id, all.last().nodes)
    }
}

/// Those that have a target.
pub open spec fn resolved(ps: Seq<Place>) -> Seq<Place> {
    ps.filter(|p: Place| p.target is Some)
}

/// Those that have none.
pub open spec fn unresolved(ps: Seq<Place>) -> Seq<Place> {
    ps.filter(|p: Place| p.target is None)
}

/// Whether a touch records a place that has a target.
pub open spec fn touch_records(t: Touch, p: Place) -> bool {
    &&& t.pipeline_id@ == p.pipeline
    &&& t.node_id@ == p.node
    &&& t.component_id@ == p.component
    &&& t.direction == p.direction
    &&& p.target is Some
    &&& t.asset@ == (p.target->0).0
}

/// Whether an entry records a place that has no target, with the reason.
pub open spec fn unresolved_records(u: Unresolved, p: Place) -> bool {
    &&& u.pipeline_id@ == p.pipeline
    &&& u.node_id@ == p.node
    &&& u.component_id@ == p.component
    &&& p.target is None
    &&& u.reason@ == no_target(p.component)
}

/// Whether an entry records a pipeline.
pub open spec fn entry_records(e: PipelineEntry, o: Outline) -> bool {
    e.id@ == o.id && e.name@ == o.name && e.node_count == o.nodes.len()
}

/// Whether the touches are the places that have a target, one for one.
pub open spec fn touches_are(ts: Seq<Touch>, ps: Seq<Place>) -> bool {
    &&& ts.len() == resolved(ps).len()
    &&& forall|i: int| 0 <= i < ts.len() ==> touch_records(#[trigger] ts[i], resolved(ps)[i])
}

/// Whether the entries are the places that have no target, one for one.
pub open spec fn unresolved_are(us: Seq<Unresolved>, ps: Seq<Place>) -> bool {
    &&& us.len() == unresolved(ps).len()
    &&& forall|i: int| 0 <= i < us.len() ==> unresolved_records(#[trigger] us[i], unresolved(ps)[i])
}

/// Whether the entries are the pipelines, one for one.
pub open spec fn entries_are(es: Seq<PipelineEntry>, all: Seq<Outline>) -> bool {
    &&& es.len() == all.len()
    &&& forall|i: int| 0 <= i < es.len() ==> entry_records(#[trigger] es[i], all[i])
}

/// The kind that the first place to name `id` gave it, unless none names it.
pub open spec fn kind_of(ps: Seq<Place>, id: Seq<char>) -> Option<Seq<char>>
    decreases ps.len(),
{
    if ps.len() == 0 {
        None
    } else if let Some(k) = kind_of(ps.drop_last(), id) {
        Some(k)
    } else if ps.last().target is Some && (ps.last().target->0).0 == id {
        Some((ps.last().target->0).1)
    } else {
        None
    }
}

/// The names of assets.
pub open spec fn asset_ids(v: Seq<Asset>) -> Seq<Seq<char>> {
    Seq::new(v.len(), |i: int| v[i].id@)
}

/// Whether the assets are what the places name: each once, in order of name,
/// with the kind it was first given.
pub open spec fn assets_are(v: Seq<Asset>, ps: Seq<Place>) -> bool {
    &&& ascending(asset_ids(v))
    &&& forall|i: int| 0 <= i < v.len() ==> kind_of(ps, (#[trigger] v[i]).id@) == Some(v[i].kind@)
    &&& forall|id: Seq<char>| (#[trigger] kind_of(ps, id)) is Some ==> asset_ids(v).contains(id)
}

/// The catalog's file in a workspace.
pub fn catalog_path(workspace: &str, windows: bool) -> (r: String)
    ensures
        r@ == under(under(workspace@, ".duckle"@, windows), "catalog.json"@, windows),
{
    let dir = join(workspace, ".duckle", windows);
    join(dir.as_str(), "catalog.json", windows)
}

/// Of the file names in the pipelines folder, those to read: the `.json` files,
/// in order of name.
pub fn pipeline_files(names: &Vec<String>) -> (r: Vec<String>)
    ensures
        ascending(texts(r@)),
        forall|n: Seq<char>| #[trigger]
            texts(r@).contains(n) <==> texts(names@).contains(n) && extension(n) == Some("json"@),
{
    let mut kept: TextMap<bool> = TextMap::new();
    let mut i: usize = 0;
    let ghost all = texts(names@);
    while i < names.len()
        invariant
            i <= names@.len(),
            all == texts(names@),
            forall|n: Seq<char>| #[trigger]
                kept@.dom().contains(n) <==> all.take(i as int).contains(n) && extension(n) == Some(
                    "json"@,
                ),
        decreases names@.len() - i,
    {
        let ghost seen = all.take(i as int);
        let ghost now = all.take(i + 1);
        let ghost before = kept@;
        let ghost name = names@[i as int]@;
        proof {
            assert(now == seen.push(name));
            assert forall|n: Seq<char>| #[trigger] now.contains(n) <==> seen.contains(n) || n == name by {
                if seen.contains(n) {
                    let k = choose|k: int| 0 <= k < seen.len() && seen[k] == n;
                    assert(now[k] == n);
                }
                assert(now[i as int] == name);
                if now.contains(n) && n != name {
                    let k = choose|k: int| 0 <= k < now.len() && now[k] == n;
                    assert(seen[k] == n);
                }
            }
        }
        let ext = file_extension(names[i].as_str());
        let wanted = match &ext {
            Some(e) => same(e.as_str(), "json"),
            None => false,
        };
        if wanted {
            kept.insert(names[i].clone(), true);
        }
        i = i + 1;
    }
    assert(all.take(i as int) == all);
    kept.names()
}

/// A text, or nothing written.
fn text_or_empty<'a>(t: Option<&'a str>) -> (r: &'a str)
    ensures
        r@ == or_empty(str_opt(t)),
{
    match t {
        Some(s) => s,
        None => {
            proof {
                reveal_strlit("");
                assert(""@ == Seq::<char>::empty());
            }
            ""
        },
    }
}

proof fn lemma_filter_push(ps: Seq<Place>, p: Place)
    ensures
        resolved(ps.push(p)) == if p.target is Some {
            resolved(ps).push(p)
        } else {
            resolved(ps)
        },
        unresolved(ps.push(p)) == if p.target is None {
            unresolved(ps).push(p)
        } else {
            unresolved(ps)
        },
{
    reveal(Seq::filter);
    assert(ps.push(p).drop_last() == ps);
}

proof fn lemma_kind_push(ps: Seq<Place>, p: Place, id: Seq<char>)
    ensures
        kind_of(ps.push(p), id) == match kind_of(ps, id) {
            Some(k) => Some(k),
            None => if p.target is Some && (p.target->0).0 == id {
                Some((p.target->0).1)
            } else {
                None
            },
        },
{
    assert(ps.push(p).drop_last() == ps);
}

/// The kinds found so far, by name.
spec fn kinds_are(kinds: Map<Seq<char>, String>, ps: Seq<Place>) -> bool {
    forall|id: Seq<char>|
        match #[trigger] kind_of(ps, id) {
            Some(k) => kinds.dom().contains(id) && kinds[id]@ == k,
            None => !kinds.dom().contains(id),
        }
}

/// Record one node of a pipeline in the catalog.
fn add_node(
    catalog: &mut Catalog,
    kinds: &mut TextMap<String>,
    pipeline_id: &str,
    node: &Json,
    Ghost(ps): Ghost<Seq<Place>>,
)
    requires
        touches_are(old(catalog).touches@, ps),
        unresolved_are(old(catalog).unresolved@, ps),
        kinds_are(old(kinds)@, ps),
    ensures
        final(catalog).pipelines == old(catalog).pipelines,
        final(catalog).assets == old(catalog).assets,
        ({
            let now = match place(pipeline_id@, node@) {
                Some(p) => ps.push(p),
                None => ps,
            };
            &&& touches_are(final(catalog).touches@, now)
            &&& unresolved_are(final(catalog).unresolved@, now)
            &&& kinds_are(final(kinds)@, now)
        }),
{
    let data = field(Some(node), "data");
    let component_id = text_or_empty(text(field(data, "componentId")));
    assert(component_id@ == component(node@));
    let direction = if starts_with(component_id, "src.") {
        Direction::Read
    } else if starts_with(component_id, "snk.") {
        Direction::Write
    } else {
        return ;
    };
    let node_id = text_or_empty(text(field(Some(node), "id")));
    let null = Json::Null;
    let props: &Json = match field(data, "properties") {
        Some(p) => p,
        None => &null,
    };
    let ghost p = place(pipeline_id@, node@)->0;
    assert(props@ == or_null(field_in(field_in(Some(node@), "data"@), "properties"@)));
    proof {
        lemma_filter_push(ps, p);
        assert forall|id: Seq<char>| kind_of(ps.push(p), id) == match kind_of(ps, id) {
            Some(k) => Some(k),
            None => if p.target is Some && (p.target->0).0 == id {
                Some((p.target->0).1)
            } else {
                None
            },
        } by {
            lemma_kind_push(ps, p, id);
        }
    }
    match asset_of(component_id, props) {
        Ok(asset) => {
            let touch = Touch {
                pipeline_id: pipeline_id.to_owned(),
                node_id: node_id.to_owned(),
                component_id: component_id.to_owned(),
                asset: asset.id.clone(),
                direction,
            };
            catalog.touches.push(touch);
            let ghost k0 = kinds@;
            if !kinds.has(asset.id.as_str()) {
                kinds.insert(asset.id, asset.kind);
            }
            proof {
                assert(kind_of(ps, (p.target->0).0) is Some <==> k0.dom().contains((p.target->0).0));
            }
        },
        Err(reason) => {
            catalog.unresolved.push(
                Unresolved {
                    pipeline_id: pipeline_id.to_owned(),
                    node_id: node_id.to_owned(),
                    component_id: component_id.to_owned(),
                    reason,
                },
            );
        },
    }
}

/// The assets by name, each with its kind.
fn listed(kinds: &TextMap<String>, Ghost(ps): Ghost<Seq<Place>>) -> (r: Vec<Asset>)
    requires
        kinds_are(kinds@, ps),
    ensures
        assets_are(r@, ps),
{
    let n: usize = kinds.len();
    let mut r: Vec<Asset> = Vec::new();
    let mut i: usize = 0;
    while i < n
        invariant
            n == kinds.keys().len(),
            i <= n,
            r@.len() == i,
            forall|j: int|
                0 <= j < i ==> (#[trigger] r@[j]).id@ == kinds.keys()[j] && kinds@.dom().contains(
                    r@[j].id@,
                ) && kinds@[r@[j].id@]@ == r@[j].kind@,
        decreases n - i,
    {
        r.push(Asset { id: kinds.key_at(i).to_owned(), kind: kinds.value_at(i).clone() });
        i = i + 1;
    }
    proof {
        assert(asset_ids(r@) == kinds.keys());
        assert forall|j: int| 0 <= j < r@.len() implies kind_of(ps, (#[trigger] r@[j]).id@) == Some(
            r@[j].kind@,
        ) by {
            assert(kind_of(ps, r@[j].id@) is Some);
        }
    }
    r
}

/// Read every pipeline and build the graph. A file that is not JSON, or that
/// lists no nodes, is passed over.
pub fn build(files: &Vec<PipelineFile>) -> (r: Catalog)
    ensures
        entries_are(r.pipelines@, outlines(files@)),
        touches_are(r.touches@, places(outlines(files@))),
        unresolved_are(r.unresolved@, places(outlines(files@))),
        assets_are(r.assets@, places(outlines(files@))),
{
    let mut catalog = Catalog {
        pipelines: Vec::new(),
        assets: Vec::new(),
        touches: Vec::new(),
        unresolved: Vec::new(),
    };
    let mut kinds: TextMap<String> = TextMap::new();
    let mut i: usize = 0;
    reveal(Seq::filter);
    while i < files.len()
        invariant
            i <= files@.len(),
            entries_are(catalog.pipelines@, outlines(files@.take(i as int))),
            touches_are(catalog.touches@, places(outlines(files@.take(i as int)))),
            unresolved_are(catalog.unresolved@, places(outlines(files@.take(i as int)))),
            kinds_are(kinds@, places(outlines(files@.take(i as int)))),
        decreases files@.len() - i,
    {
        let file = &files[i];
        let ghost seen = outlines(files@.take(i as int));
        assert(files@.take(i + 1).drop_last() == files@.take(i as int));
        let parsed = parse(file.text.as_str());
        let doc = match &parsed {
            Ok(d) => Some(d),
            Err(_) => None,
        };
        assert(value_opt(doc) == json_in(file.text@));
        if let Some(nodes) = list(field(doc, "nodes")) {
            let pipeline_id = file_stem(file.name.as_str());
            let name = match text(field(doc, "name")) {
                Some(n) => n.to_owned(),
                None => pipeline_id.clone(),
            };
            let ghost o = outline(file.name@, file.text@)->0;
            proof {
                lemma_docs(nodes@);
            }
            catalog.pipelines.push(
                PipelineEntry { id: pipeline_id.clone(), name, node_count: nodes.len() },
            );
            let mut j: usize = 0;
            let ghost base = places(seen);
            assert(base + places_in(o.id, o.nodes.take(0)) == base);
            while j < nodes.len()
                invariant
                    j <= nodes@.len(),
                    o.nodes == docs(nodes@),
                    o.id == pipeline_id@,
                    entries_are(catalog.pipelines@, seen.push(o)),
                    touches_are(catalog.touches@, base + places_in(o.id, o.nodes.take(j as int))),
                    unresolved_are(
                        catalog.unresolved@,
                        base + places_in(o.id, o.nodes.take(j as int)),
                    ),
                    kinds_are(kinds@, base + places_in(o.id, o.nodes.take(j as int))),
                decreases nodes@.len() - j,
            {
                let ghost ps = base + places_in(o.id, o.nodes.take(j as int));
                proof {
                    lemma_docs(nodes@);
                    assert(o.nodes.take(j + 1).drop_last() == o.nodes.take(j as int));
                    assert(o.nodes.take(j + 1).last() == nodes@[j as int]@);
                    assert(base + places_in(o.id, o.nodes.take(j + 1)) == match place(
                        o.id,
                        nodes@[j as int]@,
                    ) {
                        Some(p) => ps.push(p),
                        None => ps,
                    });
                }
                add_node(&mut catalog, &mut kinds, pipeline_id.as_str(), &nodes[j], Ghost(ps));
                j = j + 1;
            }
            assert(o.nodes.take(j as int) == o.nodes);
            assert(seen.push(o).drop_last() == seen);
        }
        i = i + 1;
    }
    assert(files@.take(i as int) == files@);
    catalog.assets = listed(&kinds, Ghost(places(outlines(files@))));
    catalog
}

/// Whether some pipeline reads `asset`.
pub open spec fn is_read(ts: Seq<Touch>, asset: Seq<char>) -> bool {
    exists|p: Seq<char>| #[trigger] reads(ts, p, asset)
}

/// Whether some pipeline writes `asset`.
pub open spec fn is_written(ts: Seq<Touch>, asset: Seq<char>) -> bool {
    exists|p: Seq<char>| #[trigger] writes(ts, p, asset)
}

/// Whether a touch moves data that way to or from `asset`.
pub open spec fn touches(asset: Seq<char>, direction: Direction) -> spec_fn(Touch) -> bool {
    |t: Touch| t.asset@ == asset && t.direction == direction
}

/// The touches that move data that way to or from `asset`.
fn touching<'a>(ts: &'a Vec<Touch>, asset: &str, direction: Direction) -> (r: Vec<&'a Touch>)
    ensures
        r@.unref() == ts@.filter(touches(asset@, direction)),
{
    let mut r: Vec<&'a Touch> = Vec::new();
    let mut i: usize = 0;
    reveal(Seq::filter);
    assert(r@.unref() == ts@.take(0).filter(touches(asset@, direction)));
    while i < ts.len()
        invariant
            i <= ts@.len(),
            r@.unref() == ts@.take(i as int).filter(touches(asset@, direction)),
        decreases ts@.len() - i,
    {
        let t = &ts[i];
        reveal(Seq::filter);
        assert(ts@.take(i + 1).drop_last() == ts@.take(i as int));
        assert(ts@.take(i + 1).last() == *t);
        let ghost before = r@;
        if same(t.asset.as_str(), asset) && t.direction == direction {
            r.push(t);
            assert(r@.unref() == before.unref().push(*t));
        }
        i = i + 1;
    }
    assert(ts@.take(i as int) == ts@);
    r
}

/// Whether some touch moves data that way to or from `asset`.
fn touched(ts: &Vec<Touch>, asset: &str, direction: Direction) -> (r: bool)
    ensures
        r == (if direction == Direction::Read {
            is_read(ts@, asset@)
        } else {
            is_written(ts@, asset@)
        }),
{
    let mut i: usize = 0;
    while i < ts.len()
        invariant
            i <= ts@.len(),
            forall|j: int|
                0 <= j < i ==> !((#[trigger] ts@[j]).asset@ == asset@ && ts@[j].direction
                    == direction),
        decreases ts@.len() - i,
    {
        if same(ts[i].asset.as_str(), asset) && ts[i].direction == direction {
            proof {
                let p = ts@[i as int].pipeline_id@;
                if direction == Direction::Read {
                    assert(reads(ts@, p, asset@));
                } else {
                    assert(writes(ts@, p, asset@));
                }
            }
            return true;
        }
        i = i + 1;
    }
    false
}

/// Written by some pipeline and read by none.
pub open spec fn only_written(ts: Seq<Touch>) -> spec_fn(Asset) -> bool {
    |a: Asset| is_written(ts, a.id@) && !is_read(ts, a.id@)
}

/// Read by some pipeline and written by none.
pub open spec fn only_read(ts: Seq<Touch>) -> spec_fn(Asset) -> bool {
    |a: Asset| is_read(ts, a.id@) && !is_written(ts, a.id@)
}

/// The assets that are touched one way and not the other.
fn one_sided(c: &Catalog, has: Direction) -> (r: Vec<&Asset>)
    ensures
        r@.unref() == c.assets@.filter(
            if has == Direction::Read {
                only_read(c.touches@)
            } else {
                only_written(c.touches@)
            },
        ),
{
    let ghost keep = if has == Direction::Read {
        only_read(c.touches@)
    } else {
        only_written(c.touches@)
    };
    let lacks = match has {
        Direction::Read => Direction::Write,
        Direction::Write => Direction::Read,
    };
    let mut r: Vec<&Asset> = Vec::new();
    let mut i: usize = 0;
    reveal(Seq::filter);
    assert(r@.unref() == c.assets@.take(0).filter(keep));
    while i < c.assets.len()
        invariant
            i <= c.assets@.len(),
            has != lacks,
            keep == (if has == Direction::Read {
                only_read(c.touches@)
            } else {
                only_written(c.touches@)
            }),
            r@.unref() == c.assets@.take(i as int).filter(keep),
        decreases c.assets@.len() - i,
    {
        let a = &c.assets[i];
        reveal(Seq::filter);
        assert(c.assets@.take(i + 1).drop_last() == c.assets@.take(i as int));
        assert(c.assets@.take(i + 1).last() == *a);
        let ghost before = r@;
        if touched(&c.touches, a.id.as_str(), has) && !touched(&c.touches, a.id.as_str(), lacks) {
            r.push(a);
            assert(r@.unref() == before.unref().push(*a));
        }
        i = i + 1;
    }
    assert(c.assets@.take(i as int) == c.assets@);
    r
}

impl Catalog {
    /// Pipelines that write `asset`.
    pub fn producers(&self, asset: &str) -> (r: Vec<&Touch>)
        ensures
            r@.unref() == self.touches@.filter(touches(asset@, Direction::Write)),
    {
        touching(&self.touches, asset, Direction::Write)
    }

    /// Pipelines that read `asset`.
    pub fn consumers(&self, asset: &str) -> (r: Vec<&Touch>)
        ensures
            r@.unref() == self.touches@.filter(touches(asset@, Direction::Read)),
    {
        touching(&self.touches, asset, Direction::Read)
    }

    /// Everything downstream of `asset`: the pipelines that read it, the assets
    /// those pipelines write, the pipelines that read *those*, and so on, each
    /// with the fewest hops to it.
    ///
    /// This is the blast radius of changing or dropping something. A pipeline
    /// that reads a table and writes it back is a normal incremental pattern,
    /// so a cycle ends the walk.
    pub fn impact(&self, asset: &str) -> (r: Impact)
        ensures
            r.asset@ == asset@,
            pipelines_reached(self.touches@, asset@, r.pipelines@),
            assets_reached(self.touches@, asset@, r.assets@),
            r.unresolved == self.unresolved@.len(),
    {
        let (pipelines, assets) = downstream(&self.touches, asset);
        Impact {
            asset: asset.to_owned(),
            pipelines,
            assets,
            unresolved: self.unresolved.len(),
        }
    }

    /// Assets written by some pipeline and read by none. Often a real output,
    /// sometimes a leftover nobody noticed stopped being used.
    pub fn orphans(&self) -> (r: Vec<&Asset>)
        ensures
            r@.unref() == self.assets@.filter(only_written(self.touches@)),
    {
        one_sided(self, Direction::Write)
    }

    /// Assets read by some pipeline and written by none, so the workspace
    /// depends on them without producing them. These are the external contracts
    /// nobody here controls.
    pub fn externals(&self) -> (r: Vec<&Asset>)
        ensures
            r@.unref() == self.assets@.filter(only_read(self.touches@)),
    {
        one_sided(self, Direction::Read)
    }
}

/// Every source and sink node is accounted for: it is a touch, or it is listed
/// as unresolved.
pub proof fn law_no_node_is_dropped(ps: Seq<Place>)
    ensures
        resolved(ps).len() + unresolved(ps).len() == ps.len(),
    decreases ps.len(),
{
    reveal(Seq::filter);
    if ps.len() > 0 {
        law_no_node_is_dropped(ps.drop_last());
    }
}

/// Every asset that a touch names is in the list of assets, and every asset in
/// the list is named by a touch.
pub proof fn law_assets_are_what_is_touched(c: Catalog, ps: Seq<Place>, id: Seq<char>)
    requires
        touches_are(c.touches@, ps),
        assets_are(c.assets@, ps),
    ensures
        asset_ids(c.assets@).contains(id) <==> is_read(c.touches@, id) || is_written(c.touches@, id),
{
    lemma_kind_is_resolved(ps, id);
    let ts = c.touches@;
    if asset_ids(c.assets@).contains(id) {
        let i = choose|i: int| 0 <= i < asset_ids(c.assets@).len() && asset_ids(c.assets@)[i] == id;
        assert(c.assets@[i].id@ == id);
        assert(kind_of(ps, id) is Some);
        let j = choose|j: int|
            0 <= j < resolved(ps).len() && ((#[trigger] resolved(ps)[j]).target->0).0 == id;
        assert(touch_records(ts[j], resolved(ps)[j]));
        if ts[j].direction == Direction::Read {
            assert(reads(ts, ts[j].pipeline_id@, id));
        } else {
            assert(writes(ts, ts[j].pipeline_id@, id));
        }
    }
    if is_read(ts, id) || is_written(ts, id) {
        let p = choose|p: Seq<char>| reads(ts, p, id) || writes(ts, p, id);
        assert(reads(ts, p, id) || writes(ts, p, id)) by {
            if is_read(ts, id) {
                let q = choose|q: Seq<char>| reads(ts, q, id);
                assert(reads(ts, q, id));
            } else {
                let q = choose|q: Seq<char>| writes(ts, q, id);
                assert(writes(ts, q, id));
            }
        }
        let j = choose|j: int| 0 <= j < ts.len() && (#[trigger] ts[j]).asset@ == id;
        assert(touch_records(ts[j], resolved(ps)[j]));
        assert(kind_of(ps, id) is Some);
    }
}

proof fn lemma_kind_is_resolved(ps: Seq<Place>, id: Seq<char>)
    ensures
        kind_of(ps, id) is Some <==> exists|j: int|
            0 <= j < resolved(ps).len() && ((#[trigger] resolved(ps)[j]).target->0).0 == id,
    decreases ps.len(),
{
    reveal(Seq::filter);
    if ps.len() > 0 {
        let before = ps.drop_last();
        let p = ps.last();
        lemma_kind_is_resolved(before, id);
        assert(ps == before.push(p));
        lemma_filter_push(before, p);
        let r0 = resolved(before);
        let r1 = resolved(ps);
        if kind_of(before, id) is Some {
            let j = choose|j: int| 0 <= j < r0.len() && ((#[trigger] r0[j]).target->0).0 == id;
            assert(r1[j] == r0[j]);
        } else if kind_of(ps, id) is Some {
            assert(r1[r0.len() as int] == p);
        } else {
            assert forall|j: int| 0 <= j < r1.len() implies ((#[trigger] r1[j]).target->0).0 != id by {
                if j < r0.len() {
                    assert(r1[j] == r0[j]);
                }
            }
        }
    }
}

/// Two pipelines that name one asset are connected: what one of them reads
/// reaches the other through it, two hops away.
pub proof fn law_a_shared_asset_connects(
    ts: Seq<Touch>,
    upstream: Seq<char>,
    writer: Seq<char>,
    shared: Seq<char>,
    reader: Seq<char>,
)
    requires
        reads(ts, writer, upstream),
        writes(ts, writer, shared),
        reads(ts, reader, shared),
    ensures
        pipeline_at(ts, upstream, writer, 1),
        asset_at(ts, upstream, shared, 1),
        pipeline_at(ts, upstream, reader, 2),
{
    assert(asset_at(ts, upstream, upstream, 0));
    assert(feeds(ts, upstream, shared));
    assert((1 - 1) as nat == 0);
    assert(asset_at(ts, upstream, shared, 1));
    assert((2 - 1) as nat == 1);
}

/// What is downstream of something downstream is downstream, and the hops add
/// up.
pub proof fn law_impact_is_transitive(
    ts: Seq<Touch>,
    a: Seq<char>,
    b: Seq<char>,
    c: Seq<char>,
    m: nat,
    n: nat,
)
    requires
        asset_at(ts, a, b, m),
        asset_at(ts, b, c, n),
    ensures
        asset_at(ts, a, c, m + n),
    decreases n,
{
    if n > 0 {
        let k = (n - 1) as nat;
        let x = choose|x: Seq<char>| asset_at(ts, b, x, k) && #[trigger] feeds(ts, x, c);
        law_impact_is_transitive(ts, a, b, x, m, k);
        assert((m + n - 1) as nat == m + k);
    }
}

/// An asset that no pipeline reads reaches nothing.
pub proof fn law_an_unread_asset_reaches_nothing(ts: Seq<Touch>, asset: Seq<char>, v: Seq<Reached>)
    requires
        !is_read(ts, asset),
        pipelines_reached(ts, asset, v),
    ensures
        v.len() == 0,
{
    if v.len() > 0 {
        let p = v[0].id@;
        let d = v[0].depth as nat;
        assert(pipeline_at(ts, asset, p, d));
        let a = choose|a: Seq<char>|
            asset_at(ts, asset, a, (d - 1) as nat) && #[trigger] reads(ts, p, a);
        lemma_unread(ts, asset, a, (d - 1) as nat);
    }
}

proof fn lemma_unread(ts: Seq<Touch>, from: Seq<char>, a: Seq<char>, n: nat)
    requires
        !is_read(ts, from),
        asset_at(ts, from, a, n),
    ensures
        n == 0,
        a == from,
    decreases n,
{
    if n > 0 {
        let k = (n - 1) as nat;
        let x = choose|x: Seq<char>| asset_at(ts, from, x, k) && #[trigger] feeds(ts, x, a);
        lemma_unread(ts, from, x, k);
        let p = choose|p: Seq<char>| reads(ts, p, x) && writes(ts, p, a);
        assert(reads(ts, p, from));
    }
}

/// A source reads and a sink writes; anything else touches nothing.
pub proof fn law_which_way_a_node_goes(rest: Seq<char>, other: Seq<char>)
    ensures
        direction_of("src."@ + rest) == Some(Direction::Read),
        direction_of("snk."@ + rest) == Some(Direction::Write),
        other.len() < 4 || (other.take(4) != "src."@ && other.take(4) != "snk."@) ==> direction_of(other)
            is None,
{
    reveal_strlit("src.");
    reveal_strlit("snk.");
    assert(("src."@ + rest).take(4) == "src."@);
    assert(("snk."@ + rest).take(4) == "snk."@);
    assert("src."@[1] == 'r' && "snk."@[1] == 'n');
}

/// What a node touches is worked out from its component and its properties, and
/// told by its id.
pub proof fn law_what_a_node_touches(
    pipeline: Seq<char>,
    m: Seq<(Seq<char>, Doc)>,
    data: Seq<(Seq<char>, Doc)>,
    id: Seq<char>,
    c: Seq<char>,
    props: Doc,
)
    requires
        member(m, "id"@) == Some(Doc::Text(id)),
        member(m, "data"@) == Some(Doc::Object(data)),
        member(data, "componentId"@) == Some(Doc::Text(c)),
        member(data, "properties"@) == Some(props),
    ensures
        direction_of(c) is None ==> place(pipeline, Doc::Object(m)) is None,
        direction_of(c) matches Some(d) ==> place(pipeline, Doc::Object(m)) == Some(
            Place { pipeline, node: id, component: c, direction: d, target: target(c, props) },
        ),
{
}

/// A pipeline is a file whose document has a list of nodes. It goes by the name
/// of the file without its extension, and is called what the document says, or
/// the same.
pub proof fn law_what_a_pipeline_is(name: Seq<char>, text: Seq<char>)
    ensures
        outline(name, text) is Some <==> (json_in(text) matches Some(Doc::Object(m)) && (member(
            m,
            "nodes"@,
        ) matches Some(Doc::List(_)))),
        outline(name, text) matches Some(o) ==> o.id == stem(name) && (json_in(text) matches Some(
            Doc::Object(m),
        ) && member(m, "nodes"@) == Some(Doc::List(o.nodes)) && o.name == (match member(m, "name"@) {
            Some(Doc::Text(n)) => n,
            _ => stem(name),
        })),
{
}

/// Every node of every pipeline that reads or writes something is in the list of
/// places.
pub proof fn law_every_node_is_looked_at(files: Seq<PipelineFile>, i: int, j: int, p: Place)
    requires
        0 <= i < files.len(),
        outline(files[i].name@, files[i].text@) is Some,
        0 <= j < (outline(files[i].name@, files[i].text@)->0).nodes.len(),
        place(
            (outline(files[i].name@, files[i].text@)->0).id,
            (outline(files[i].name@, files[i].text@)->0).nodes[j],
        ) == Some(p),
    ensures
        places(outlines(files)).contains(p),
    decreases files.len(),
{
    let o = outline(files[i].name@, files[i].text@)->0;
    let before = files.drop_last();
    if i == files.len() - 1 {
        lemma_node_has_its_place(o.id, o.nodes, j, p);
        let all = outlines(files);
        assert(all.last() == o);
        lemma_in_the_last(places(all.drop_last()), places_in(o.id, o.nodes), p);
    } else {
        assert(before[i] == files[i]);
        law_every_node_is_looked_at(before, i, j, p);
        match outline(files.last().name@, files.last().text@) {
            Some(o) => {
                let all = outlines(files);
                assert(all.drop_last() == outlines(before));
                let first = places(outlines(before));
                let k = choose|k: int| 0 <= k < first.len() && first[k] == p;
                assert((first + places_in(all.last().id, all.last().nodes))[k] == p);
            },
            None => {},
        }
    }
}

proof fn lemma_in_the_last(a: Seq<Place>, b: Seq<Place>, p: Place)
    requires
        b.contains(p),
    ensures
        (a + b).contains(p),
{
    let k = choose|k: int| 0 <= k < b.len() && b[k] == p;
    assert((a + b)[a.len() + k] == p);
}

proof fn lemma_node_has_its_place(id: Seq<char>, nodes: Seq<Doc>, j: int, p: Place)
    requires
        0 <= j < nodes.len(),
        place(id, nodes[j]) == Some(p),
    ensures
        places_in(id, nodes).contains(p),
    decreases nodes.len(),
{
    let before = nodes.drop_last();
    if j == nodes.len() - 1 {
        let all = places_in(id, nodes);
        assert(all[all.len() - 1] == p);
    } else {
        assert(before[j] == nodes[j]);
        lemma_node_has_its_place(id, before, j, p);
        let first = places_in(id, before);
        let k = choose|k: int| 0 <= k < first.len() && first[k] == p;
        assert(places_in(id, nodes)[k] == p);
    }
}

/// A node that names its target is in the catalog as reading or writing it, by
/// its pipeline; one that does not is listed with the reason.
pub proof fn law_a_node_is_in_the_catalog(c: Catalog, ps: Seq<Place>, p: Place)
    requires
        touches_are(c.touches@, ps),
        unresolved_are(c.unresolved@, ps),
        ps.contains(p),
    ensures
        p.target is Some && p.direction == Direction::Read ==> reads(
            c.touches@,
            p.pipeline,
            (p.target->0).0,
        ),
        p.target is Some && p.direction == Direction::Write ==> writes(
            c.touches@,
            p.pipeline,
            (p.target->0).0,
        ),
        p.target is None ==> exists|i: int|
            0 <= i < c.unresolved@.len() && (#[trigger] c.unresolved@[i]).pipeline_id@ == p.pipeline
                && c.unresolved@[i].node_id@ == p.node && c.unresolved@[i].component_id@ == p.component,
{
    let named = |p: Place| p.target is Some;
    let unnamed = |p: Place| p.target is None;
    ps.filter_lemma(named);
    ps.filter_lemma(unnamed);
    let i = choose|i: int| 0 <= i < ps.len() && ps[i] == p;
    if p.target is Some {
        assert(named(ps[i]));
        assert(resolved(ps).contains(p));
        let k = choose|k: int| 0 <= k < resolved(ps).len() && resolved(ps)[k] == p;
        assert(touch_records(c.touches@[k], resolved(ps)[k]));
    } else {
        assert(unnamed(ps[i]));
        assert(unresolved(ps).contains(p));
        let k = choose|k: int| 0 <= k < unresolved(ps).len() && unresolved(ps)[k] == p;
        assert(unresolved_records(c.unresolved@[k], unresolved(ps)[k]));
    }
}

/// Who touches an asset one way is exactly who is listed so.
pub proof fn law_who_touches_an_asset(ts: Seq<Touch>, asset: Seq<char>, way: Direction, i: int)
    requires
        0 <= i < ts.len(),
    ensures
        ts.filter(touches(asset, way)).contains(ts[i]) <==> ts[i].asset@ == asset && ts[i].direction
            == way,
{
    let p = touches(asset, way);
    ts.filter_lemma(p);
    let found = ts.filter(p);
    if found.contains(ts[i]) {
        let k = choose|k: int| 0 <= k < found.len() && found[k] == ts[i];
        assert(p(found[k]));
    }
    if ts[i].asset@ == asset && ts[i].direction == way {
        assert(p(ts[i]));
    }
}

/// An orphan is what something writes and nothing reads; an external is what
/// something reads and nothing writes.
pub proof fn law_what_is_one_sided(ts: Seq<Touch>, a: Asset)
    ensures
        only_written(ts)(a) <==> (exists|i: int|
            0 <= i < ts.len() && (#[trigger] ts[i]).asset@ == a.id@ && ts[i].direction
                == Direction::Write) && (forall|i: int|
            0 <= i < ts.len() && (#[trigger] ts[i]).asset@ == a.id@ ==> ts[i].direction
                == Direction::Write),
        only_read(ts)(a) <==> (exists|i: int|
            0 <= i < ts.len() && (#[trigger] ts[i]).asset@ == a.id@ && ts[i].direction
                == Direction::Read) && (forall|i: int|
            0 <= i < ts.len() && (#[trigger] ts[i]).asset@ == a.id@ ==> ts[i].direction
                == Direction::Read),
{
    assert forall|i: int| 0 <= i < ts.len() && (#[trigger] ts[i]).asset@ == a.id@ implies if ts[i].direction
        == Direction::Read {
        is_read(ts, a.id@)
    } else {
        is_written(ts, a.id@)
    } by {
        if ts[i].direction == Direction::Read {
            assert(reads(ts, ts[i].pipeline_id@, a.id@));
        } else {
            assert(writes(ts, ts[i].pipeline_id@, a.id@));
        }
    }
    if is_read(ts, a.id@) {
        let p = choose|p: Seq<char>| #[trigger] reads(ts, p, a.id@);
        let i = choose|i: int|
            #![trigger ts[i]]
            0 <= i < ts.len() && ts[i].direction == Direction::Read && ts[i].pipeline_id@ == p
                && ts[i].asset@ == a.id@;
        assert(ts[i].asset@ == a.id@);
    }
    if is_written(ts, a.id@) {
        let p = choose|p: Seq<char>| #[trigger] writes(ts, p, a.id@);
        let i = choose|i: int|
            #![trigger ts[i]]
            0 <= i < ts.len() && ts[i].direction == Direction::Write && ts[i].pipeline_id@ == p
                && ts[i].asset@ == a.id@;
        assert(ts[i].asset@ == a.id@);
    }
}

/// What an asset reaches begins with who reads it, one step away, and goes on
/// with who reads what those write.
pub proof fn law_impact_goes_from_reader_to_reader(
    ts: Seq<Touch>,
    asset: Seq<char>,
    v: Seq<Reached>,
    i: int,
    j: int,
)
    requires
        pipelines_reached(ts, asset, v),
        0 <= i < ts.len(),
        0 <= j < ts.len(),
        ts[i].direction == Direction::Read,
    ensures
        ts[i].asset@ == asset ==> exists|k: int|
            0 <= k < v.len() && (#[trigger] v[k]).id@ == ts[i].pipeline_id@ && v[k].depth == 1,
        forall|k: int|
            0 <= k < v.len() && (#[trigger] v[k]).id@ == ts[j].pipeline_id@ && ts[j].direction
                == Direction::Write && ts[j].asset@ == ts[i].asset@ ==> exists|l: int|
                0 <= l < v.len() && (#[trigger] v[l]).id@ == ts[i].pipeline_id@ && v[l].depth
                    <= v[k].depth + 1,
{
    let p = ts[i].pipeline_id@;
    if ts[i].asset@ == asset {
        assert(reads(ts, p, asset));
        assert(asset_at(ts, asset, asset, 0));
        assert((1 - 1) as nat == 0);
        assert(pipeline_at(ts, asset, p, 1));
        assert(ids(v).contains(p));
        let k = choose|k: int| 0 <= k < ids(v).len() && ids(v)[k] == p;
        assert(v[k].id@ == p);
        assert(pipeline_depth(ts, asset, p, v[k].depth as nat));
        assert(!pipeline_at(ts, asset, p, 0));
    }
    assert forall|k: int|
        0 <= k < v.len() && (#[trigger] v[k]).id@ == ts[j].pipeline_id@ && ts[j].direction
            == Direction::Write && ts[j].asset@ == ts[i].asset@ implies exists|l: int|
        0 <= l < v.len() && (#[trigger] v[l]).id@ == p && v[l].depth <= v[k].depth + 1 by {
        let d = v[k].depth as nat;
        let q = v[k].id@;
        assert(pipeline_depth(ts, asset, q, d));
        let a = choose|a: Seq<char>|
            asset_at(ts, asset, a, (d - 1) as nat) && #[trigger] reads(ts, q, a);
        let b = ts[j].asset@;
        assert(writes(ts, q, b));
        assert(feeds(ts, a, b));
        assert(asset_at(ts, asset, b, d));
        assert(reads(ts, p, b));
        assert((d + 1 - 1) as nat == d);
        assert(pipeline_at(ts, asset, p, d + 1));
        assert(ids(v).contains(p));
        let l = choose|l: int| 0 <= l < ids(v).len() && ids(v)[l] == p;
        assert(v[l].id@ == p);
        assert(pipeline_depth(ts, asset, p, v[l].depth as nat));
    }
}

/// Nothing else is reached: who is one step away reads the asset, and who is
/// further away reads what someone one step nearer writes.
pub proof fn law_impact_reaches_nothing_else(
    ts: Seq<Touch>,
    asset: Seq<char>,
    v: Seq<Reached>,
    k: int,
)
    requires
        pipelines_reached(ts, asset, v),
        0 <= k < v.len(),
    ensures
        v[k].depth >= 1,
        v[k].depth == 1 ==> exists|i: int|
            0 <= i < ts.len() && (#[trigger] ts[i]).pipeline_id@ == v[k].id@ && ts[i].asset@ == asset
                && ts[i].direction == Direction::Read,
        v[k].depth > 1 ==> exists|i: int, j: int|
            0 <= i < ts.len() && 0 <= j < ts.len() && (#[trigger] ts[i]).pipeline_id@ == v[k].id@
                && ts[i].direction == Direction::Read && (#[trigger] ts[j]).asset@ == ts[i].asset@
                && ts[j].direction == Direction::Write && pipeline_at(
                ts,
                asset,
                ts[j].pipeline_id@,
                (v[k].depth - 1) as nat,
            ),
{
    let d = v[k].depth as nat;
    let p = v[k].id@;
    assert(pipeline_depth(ts, asset, p, d));
    let a = choose|a: Seq<char>| asset_at(ts, asset, a, (d - 1) as nat) && #[trigger] reads(ts, p, a);
    let i = choose|i: int|
        #![trigger ts[i]]
        0 <= i < ts.len() && ts[i].direction == Direction::Read && ts[i].pipeline_id@ == p
            && ts[i].asset@ == a;
    assert(ts[i].asset@ == a);
    if d > 1 {
        let b = choose|b: Seq<char>|
            asset_at(ts, asset, b, (d - 1 - 1) as nat) && #[trigger] feeds(ts, b, a);
        let q = choose|q: Seq<char>| reads(ts, q, b) && writes(ts, q, a);
        let j = choose|j: int|
            #![trigger ts[j]]
            0 <= j < ts.len() && ts[j].direction == Direction::Write && ts[j].pipeline_id@ == q
                && ts[j].asset@ == a;
        assert(ts[j].asset@ == a);
        assert(reads(ts, q, b));
        assert(pipeline_at(ts, asset, q, (d - 1) as nat));
    }
}

/// The assets reached are what the pipelines reached write, other than the asset
/// itself, each as far away as the nearest who writes it.
pub proof fn law_what_is_written_downstream_is_reached(
    ts: Seq<Touch>,
    asset: Seq<char>,
    v: Seq<Reached>,
    w: Seq<Reached>,
    k: int,
    j: int,
)
    requires
        pipelines_reached(ts, asset, v),
        assets_reached(ts, asset, w),
        0 <= k < v.len(),
        0 <= j < ts.len(),
        ts[j].direction == Direction::Write,
        ts[j].pipeline_id@ == v[k].id@,
        ts[j].asset@ != asset,
    ensures
        exists|l: int|
            0 <= l < w.len() && (#[trigger] w[l]).id@ == ts[j].asset@ && 1 <= w[l].depth <= v[k].depth,
{
    let d = v[k].depth as nat;
    let q = v[k].id@;
    assert(pipeline_depth(ts, asset, q, d));
    let a = choose|a: Seq<char>| asset_at(ts, asset, a, (d - 1) as nat) && #[trigger] reads(ts, q, a);
    let b = ts[j].asset@;
    assert(writes(ts, q, b));
    assert(feeds(ts, a, b));
    assert(asset_at(ts, asset, b, d));
    assert(ids(w).contains(b));
    let l = choose|l: int| 0 <= l < ids(w).len() && ids(w)[l] == b;
    assert(w[l].id@ == b);
    assert(asset_depth(ts, asset, b, w[l].depth as nat));
    assert(!asset_at(ts, asset, b, 0));
}

/// An asset is of the kind that the first node to name it gives it.
pub proof fn law_the_first_to_name_an_asset_gives_its_kind(ps: Seq<Place>, id: Seq<char>, i: int)
    requires
        0 <= i < ps.len(),
        ps[i].target is Some && (ps[i].target->0).0 == id,
        forall|j: int|
            0 <= j < i && (#[trigger] ps[j]).target is Some ==> (ps[j].target->0).0 != id,
    ensures
        kind_of(ps, id) == Some((ps[i].target->0).1),
    decreases ps.len(),
{
    let before = ps.drop_last();
    if i < ps.len() - 1 {
        assert(before[i] == ps[i]);
        assert forall|j: int| 0 <= j < i && (#[trigger] before[j]).target is Some implies (
        before[j].target->0).0 != id by {
            assert(before[j] == ps[j]);
        }
        law_the_first_to_name_an_asset_gives_its_kind(before, id, i);
    } else {
        lemma_kind_is_none(before, id);
    }
}

proof fn lemma_kind_is_none(ps: Seq<Place>, id: Seq<char>)
    requires
        forall|j: int|
            0 <= j < ps.len() && (#[trigger] ps[j]).target is Some ==> (ps[j].target->0).0 != id,
    ensures
        kind_of(ps, id) is None,
    decreases ps.len(),
{
    if ps.len() > 0 {
        let before = ps.drop_last();
        assert forall|j: int| 0 <= j < before.len() && (#[trigger] before[j]).target is Some implies (
        before[j].target->0).0 != id by {
            assert(before[j] == ps[j]);
        }
        lemma_kind_is_none(before, id);
        assert(ps[ps.len() - 1] == ps.last());
    }
}

/// Every pipeline is listed once, under its id and name, with how many nodes it
/// has.
pub proof fn law_which_pipelines_are_listed(es: Seq<PipelineEntry>, all: Seq<Outline>, i: int)
    requires
        entries_are(es, all),
        0 <= i < es.len(),
    ensures
        es.len() == all.len(),
        es[i].id@ == all[i].id,
        es[i].name@ == all[i].name,
        es[i].node_count == all[i].nodes.len(),
{
    assert(entry_records(es[i], all[i]));
}

/// The outlines are those of the files that are pipelines, in order.
pub proof fn law_which_files_are_outlined(files: Seq<PipelineFile>, f: PipelineFile)
    ensures
        outlines(Seq::empty()).len() == 0,
        outline(f.name@, f.text@) is None ==> outlines(files.push(f)) == outlines(files),
        outline(f.name@, f.text@) matches Some(o) ==> outlines(files.push(f)) == outlines(files).push(o),
{
    assert(files.push(f).drop_last() == files);
}

/// An unresolved node is told with the reason why.
pub proof fn law_why_a_node_is_unresolved(us: Seq<Unresolved>, ps: Seq<Place>, i: int)
    requires
        unresolved_are(us, ps),
        0 <= i < us.len(),
    ensures
        us[i].reason@ == "no target property on "@ + us[i].component_id@
            + "; expected one of path, bucket+key, topic,          index, collection, tableName, object, url or database"@,
{
    assert(unresolved_records(us[i], unresolved(ps)[i]));
}

/// Assets are listed by id, each once.
pub proof fn law_assets_are_listed_by_id(v: Seq<Asset>, ps: Seq<Place>, i: int, j: int)
    requires
        assets_are(v, ps),
        0 <= i < j < v.len(),
    ensures
        precedes(v[i].id@, v[j].id@),
        v[i].id@ != v[j].id@,
{
    let ids = asset_ids(v);
    assert(precedes(ids[i], ids[j]));
    lemma_precedes_irreflexive(v[i].id@);
}

} // verus!
