//! `duckle-runner catalog`: asking the workspace graph a question from a
//! terminal or a CI job.
use crate::args::{asks_help, wants_help};
use crate::asset::Asset;
use crate::catalog::{
    only_written, touches, Catalog, Direction, Impact, PipelineEntry, Reached, Unresolved,
};
use crate::number::{decimal, decimal_of};
use crate::order::TextMap;
use crate::text::{
    begins, glue2, glue3, join as join_texts, joined, pad_left, pad_right, padded, right_aligned,
    same, starts_with, texts,
};
use vstd::prelude::*;
use vstd::string::*;

verus! {

// ---------------------------------------------------------------------------
// The command line
// ---------------------------------------------------------------------------

/// What is asked of the workspace graph.
#[derive(Debug)]
pub enum CatalogCommand {
    /// How the command is used.
    Help,
    Build,
    Assets,
    /// What is reached from this asset.
    Impact(String),
    Owners,
    Orphans,
}

/// A question to the workspace graph.
#[derive(Debug)]
pub struct Question {
    pub command: CatalogCommand,
    pub workspace: String,
    pub as_json: bool,
}

/// The arguments behind the subcommand, as far as they have been read.
pub struct CatalogOptions {
    pub workspace: Seq<char>,
    pub as_json: bool,
    pub positional: Seq<Seq<char>>,
}

/// What the arguments behind the subcommand come to, with these read so far.
pub open spec fn catalog_options(args: Seq<Seq<char>>, o: CatalogOptions) -> Result<
    CatalogOptions,
    Seq<char>,
>
    decreases args.len(),
{
    if args.len() == 0 {
        Ok(o)
    } else if args[0] == "--workspace"@ {
        if args.len() == 1 {
            Err("--workspace needs a value"@)
        } else {
            catalog_options(args.skip(2), CatalogOptions { workspace: args[1], ..o })
        }
    } else if args[0] == "--json"@ {
        catalog_options(args.skip(1), CatalogOptions { as_json: true, ..o })
    } else if begins(args[0], "--"@) {
        Err("unknown argument: "@ + args[0])
    } else {
        catalog_options(
            args.skip(1),
            CatalogOptions { positional: o.positional.push(args[0]), ..o },
        )
    }
}

/// Nothing said yet.
pub open spec fn no_catalog_options() -> CatalogOptions {
    CatalogOptions { workspace: "."@, as_json: false, positional: Seq::empty() }
}

/// Whether this is what a subcommand with these arguments asks.
pub open spec fn asks(r: Result<Question, String>, sub: Seq<char>, o: CatalogOptions) -> bool {
    if sub == "impact"@ && o.positional.len() == 0 {
        r matches Err(e) && e@ == "impact needs an asset, e.g. `catalog impact /lake/staged.parquet`"@
    } else if sub == "build"@ || sub == "assets"@ || sub == "impact"@ || sub == "owners"@ || sub
        == "orphans"@ {
        r matches Ok(q) && q.workspace@ == o.workspace && q.as_json == o.as_json && if sub == "build"@ {
            q.command is Build
        } else if sub == "assets"@ {
            q.command is Assets
        } else if sub == "impact"@ {
            q.command matches CatalogCommand::Impact(a) && a@ == o.positional[0]
        } else if sub == "owners"@ {
            q.command is Owners
        } else {
            q.command is Orphans
        }
    } else {
        r matches Err(e) && e@ == "unknown catalog command: "@ + sub
    }
}

/// Read the command line.
pub fn parse_catalog_args(args: &Vec<String>) -> (r: Result<Question, String>)
    ensures
        if asks_help(texts(args@)) {
            r matches Ok(q) && q.command is Help && q.workspace@ == "."@ && !q.as_json
        } else {
            match catalog_options(texts(args@).skip(1), no_catalog_options()) {
                Err(why) => r matches Err(e) && e@ == why,
                Ok(o) => asks(r, texts(args@)[0], o),
            }
        },
{
    if wants_help(args) {
        return Ok(
            Question { command: CatalogCommand::Help, workspace: ".".to_owned(), as_json: false },
        );
    }
    let ghost all = texts(args@);
    let ghost start = catalog_options(all.skip(1), no_catalog_options());
    let mut workspace: String = ".".to_owned();
    let mut as_json = false;
    let mut positional: Vec<String> = Vec::new();
    let mut i: usize = 1;
    assert(texts(positional@) == Seq::<Seq<char>>::empty());
    while i < args.len()
        invariant
            1 <= i <= args@.len(),
            all == texts(args@),
            !asks_help(all),
            start == catalog_options(all.skip(1), no_catalog_options()),
            start == catalog_options(
                all.skip(i as int),
                (CatalogOptions { workspace: workspace@, as_json, positional: texts(positional@) }),
            ),
        decreases args@.len() - i,
    {
        let ghost rest = all.skip(i as int);
        let a = args[i].as_str();
        assert(rest[0] == a@);
        if same(a, "--workspace") {
            if args.len() - i == 1 {
                return Err("--workspace needs a value".to_owned());
            }
            assert(rest[1] == args@[i + 1]@);
            assert(rest.skip(2) == all.skip(i + 2));
            workspace = args[i + 1].clone();
            i = i + 2;
        } else if same(a, "--json") {
            assert(rest.skip(1) == all.skip(i + 1));
            as_json = true;
            i = i + 1;
        } else if starts_with(a, "--") {
            return Err(glue2("unknown argument: ", a));
        } else {
            assert(rest.skip(1) == all.skip(i + 1));
            let ghost before = positional@;
            positional.push(a.to_owned());
            assert(texts(positional@) == texts(before).push(a@));
            i = i + 1;
        }
    }
    assert(all.skip(i as int).len() == 0);
    assert(all[0] == args@[0]@);
    let sub = args[0].as_str();
    let command = if same(sub, "build") {
        CatalogCommand::Build
    } else if same(sub, "assets") {
        CatalogCommand::Assets
    } else if same(sub, "impact") {
        if positional.len() == 0 {
            return Err("impact needs an asset, e.g. `catalog impact /lake/staged.parquet`".to_owned());
        }
        assert(texts(positional@)[0] == positional@[0]@);
        CatalogCommand::Impact(positional[0].clone())
    } else if same(sub, "owners") {
        CatalogCommand::Owners
    } else if same(sub, "orphans") {
        CatalogCommand::Orphans
    } else {
        return Err(glue2("unknown catalog command: ", sub));
    };
    proof {
        lemma_subcommands();
    }
    Ok(Question { command, workspace, as_json })
}

/// The subcommands are told apart.
proof fn lemma_subcommands()
    ensures
        "build"@ != "assets"@,
        "build"@ != "impact"@,
        "build"@ != "owners"@,
        "build"@ != "orphans"@,
        "assets"@ != "impact"@,
        "assets"@ != "owners"@,
        "assets"@ != "orphans"@,
        "impact"@ != "owners"@,
        "impact"@ != "orphans"@,
        "owners"@ != "orphans"@,
{
    reveal_strlit("build");
    reveal_strlit("assets");
    reveal_strlit("impact");
    reveal_strlit("owners");
    reveal_strlit("orphans");
    assert("build"@.len() == 5);
    assert("orphans"@.len() == 7);
    assert("assets"@.len() == 6);
    assert("owners"@.len() == 6);
    assert("impact"@.len() == 6);
    assert("assets"@[0] == 'a');
    assert("impact"@[0] == 'i');
    assert("owners"@[0] == 'o');
}

// ---------------------------------------------------------------------------
// Building and listing
// ---------------------------------------------------------------------------

/// What is said of a graph that has been built and written down.
pub fn build_lines(catalog: &Catalog, path: &str) -> (r: (String, String))
    ensures
        r.0@ == decimal(catalog.pipelines@.len()) + " pipelines, "@ + decimal(catalog.assets@.len())
            + " assets, "@ + decimal(catalog.touches@.len()) + " links."@,
        r.1@ == "Written to "@ + path@,
{
    let p = decimal_of(catalog.pipelines.len() as u64);
    let a = decimal_of(catalog.assets.len() as u64);
    let t = decimal_of(catalog.touches.len() as u64);
    let mut line = glue3(p.as_str(), " pipelines, ", a.as_str());
    line.append(" assets, ");
    line.append(t.as_str());
    line.append(" links.");
    (line, glue2("Written to ", path))
}

/// One asset and how many write and read it.
pub open spec fn asset_line(c: Catalog, a: Asset) -> Seq<char> {
    padded(a.kind@, 9) + " "@ + padded(
        decimal(c.touches@.filter(touches(a.id@, Direction::Write)).len()),
        3,
    ) + "w "@ + padded(decimal(c.touches@.filter(touches(a.id@, Direction::Read)).len()), 3) + "r  "@
        + a.id@
}

/// The assets, each with how many write and read it.
pub fn asset_lines(catalog: &Catalog, workspace: &str) -> (r: Vec<String>)
    ensures
        texts(r@) == if catalog.assets@.len() == 0 {
            seq!["No assets. Are there pipelines in "@ + workspace@ + "?"@]
        } else {
            catalog.assets@.map_values(|a: Asset| asset_line(*catalog, a))
        },
{
    let mut out: Vec<String> = Vec::new();
    if catalog.assets.len() == 0 {
        out.push(glue3("No assets. Are there pipelines in ", workspace, "?"));
        assert(texts(out@) =~= seq!["No assets. Are there pipelines in "@ + workspace@ + "?"@]);
        return out;
    }
    let mut i: usize = 0;
    while i < catalog.assets.len()
        invariant
            i <= catalog.assets@.len(),
            out@.len() == i,
            forall|j: int| 0 <= j < i ==> (#[trigger] out@[j])@ == asset_line(*catalog, catalog.assets@[j]),
        decreases catalog.assets@.len() - i,
    {
        let a = &catalog.assets[i];
        let writers = catalog.producers(a.id.as_str());
        let readers = catalog.consumers(a.id.as_str());
        assert(writers@.unref().len() == writers@.len());
        assert(readers@.unref().len() == readers@.len());
        let w = decimal_of(writers.len() as u64);
        let n = decimal_of(readers.len() as u64);
        let w = pad_right(w.as_str(), 3);
        let n = pad_right(n.as_str(), 3);
        let mut line = pad_right(a.kind.as_str(), 9);
        line.append(" ");
        line.append(w.as_str());
        line.append("w ");
        line.append(n.as_str());
        line.append("r  ");
        line.append(a.id.as_str());
        out.push(line);
        i = i + 1;
    }
    assert(texts(out@) =~= catalog.assets@.map_values(|a: Asset| asset_line(*catalog, a)));
    out
}

/// One asset that nothing here reads.
pub open spec fn orphan_line(a: Asset) -> Seq<char> {
    "  "@ + padded(a.kind@, 9) + " "@ + a.id@
}

/// The assets that nothing here reads.
pub fn orphan_lines(catalog: &Catalog) -> (r: Vec<String>)
    ensures
        ({
            let orphans = catalog.assets@.filter(only_written(catalog.touches@));
            texts(r@) == if orphans.len() == 0 {
                seq!["Everything written is read by something."@]
            } else {
                seq!["Written but never read here:"@] + orphans.map_values(|a: Asset| orphan_line(a))
                    + seq![
                    "\nThese may be real outputs the workspace hands to something else.\nNothing is inferred about whether they are safe to remove."@,
                ]
            }
        }),
{
    let orphans = catalog.orphans();
    let ghost os = catalog.assets@.filter(only_written(catalog.touches@));
    assert(orphans@.unref() == os);
    assert(orphans@.unref().len() == orphans@.len());
    let mut out: Vec<String> = Vec::new();
    if orphans.len() == 0 {
        out.push("Everything written is read by something.".to_owned());
        assert(texts(out@) =~= seq!["Everything written is read by something."@]);
        return out;
    }
    out.push("Written but never read here:".to_owned());
    let mut i: usize = 0;
    while i < orphans.len()
        invariant
            i <= orphans@.len(),
            out@.len() == i + 1,
            out@[0]@ == "Written but never read here:"@,
            forall|j: int| 0 <= j < i ==> (#[trigger] out@[j + 1])@ == orphan_line(*orphans@[j]),
        decreases orphans@.len() - i,
    {
        let a = orphans[i];
        let kind = pad_right(a.kind.as_str(), 9);
        let mut line = glue3("  ", kind.as_str(), " ");
        line.append(a.id.as_str());
        let ghost before = out@;
        out.push(line);
        assert forall|j: int| 0 <= j < i + 1 implies (#[trigger] out@[j + 1])@ == orphan_line(
            *orphans@[j],
        ) by {
            if j < i {
                assert(out@[j + 1] == before[j + 1]);
            }
        }
        i = i + 1;
    }
    let ghost listed = out@;
    out.push(
        "\nThese may be real outputs the workspace hands to something else.\nNothing is inferred about whether they are safe to remove.".to_owned(),
    );
    assert(texts(out@) =~= seq!["Written but never read here:"@] + os.map_values(
        |a: Asset| orphan_line(a),
    ) + seq![
        "\nThese may be real outputs the workspace hands to something else.\nNothing is inferred about whether they are safe to remove."@,
    ]) by {
        assert forall|k: int| 0 <= k < out@.len() implies (#[trigger] texts(out@)[k]) == (seq![
            "Written but never read here:"@,
        ] + os.map_values(|a: Asset| orphan_line(a)) + seq![
            "\nThese may be real outputs the workspace hands to something else.\nNothing is inferred about whether they are safe to remove."@,
        ])[k] by {
            if 0 < k < out@.len() - 1 {
                assert(listed[(k - 1) + 1]@ == orphan_line(*orphans@[k - 1]));
                assert(os[k - 1] == *orphans@[k - 1]);
            }
        }
    }
    out
}

/// One source or sink whose target could not be named.
pub open spec fn unresolved_line(u: Unresolved) -> Seq<char> {
    "  "@ + u.pipeline_id@ + " / "@ + u.node_id@ + " ("@ + u.component_id@ + ")"@
}

/// What is said of what the graph could not see: the first ten, and how many
/// more there are.
pub open spec fn gaps(u: Seq<Unresolved>) -> Seq<Seq<char>> {
    if u.len() == 0 {
        Seq::empty()
    } else {
        let shown = u.take(
            if u.len() < 10 {
                u.len() as int
            } else {
                10
            },
        ).map_values(|x: Unresolved| unresolved_line(x));
        seq![
            "\n"@ + decimal(u.len())
                + " source/sink node(s) could not be named, so the answers above may be incomplete:"@,
        ] + shown + if u.len() > 10 {
            seq!["  ... and "@ + decimal((u.len() - 10) as nat) + " more"@]
        } else {
            Seq::empty()
        }
    }
}

/// One source or sink whose target could not be named.
fn write_unresolved(u: &Unresolved) -> (r: String)
    ensures
        r@ == unresolved_line(*u),
{
    let mut line = glue3("  ", u.pipeline_id.as_str(), " / ");
    line.append(u.node_id.as_str());
    line.append(" (");
    line.append(u.component_id.as_str());
    line.append(")");
    line
}

/// Say what the graph could not see. Said after every answer, because a
/// blast-radius result that hides its own gaps is the one that gets trusted and
/// then turns out to have missed the node that mattered.
pub fn report_unresolved(catalog: &Catalog) -> (r: Vec<String>)
    ensures
        texts(r@) == gaps(catalog.unresolved@),
{
    let mut out: Vec<String> = Vec::new();
    let total: usize = catalog.unresolved.len();
    let ghost us = catalog.unresolved@;
    if total == 0 {
        assert(texts(out@) =~= gaps(us));
        return out;
    }
    let n = decimal_of(total as u64);
    out.push(
        glue3(
            "\n",
            n.as_str(),
            " source/sink node(s) could not be named, so the answers above may be incomplete:",
        ),
    );
    let shown: usize = if total < 10 {
        total
    } else {
        10
    };
    let ghost first = out@[0]@;
    let ghost lines = us.take(shown as int).map_values(|x: Unresolved| unresolved_line(x));
    let mut i: usize = 0;
    assert(texts(out@) =~= seq![first] + lines.take(0));
    while i < shown
        invariant
            i <= shown <= us.len(),
            us == catalog.unresolved@,
            lines == us.take(shown as int).map_values(|x: Unresolved| unresolved_line(x)),
            texts(out@) == seq![first] + lines.take(i as int),
        decreases shown - i,
    {
        let ghost before = out@;
        let line = write_unresolved(&catalog.unresolved[i]);
        out.push(line);
        assert(lines.take(i + 1) == lines.take(i as int).push(line@));
        assert(texts(out@) == texts(before).push(line@));
        assert(texts(out@) =~= seq![first] + lines.take(i + 1));
        i = i + 1;
    }
    assert(lines.take(i as int) == lines);
    if total > 10 {
        let more = decimal_of((total - 10) as u64);
        let ghost before = out@;
        let last = glue3("  ... and ", more.as_str(), " more");
        out.push(last);
        assert(texts(out@) == texts(before).push(last@));
        assert(texts(out@) =~= gaps(us));
    } else {
        assert(texts(out@) =~= gaps(us));
    }
    out
}

// ---------------------------------------------------------------------------
// Owners
// ---------------------------------------------------------------------------

/// Who owns something, and how they are reached.
#[derive(Debug)]
pub struct OwnerRule {
    pub owner: String,
    pub contact: Option<String>,
}

/// Who owns the things of a workspace, by their ids, each by the first rule
/// that covers it.
#[derive(Debug)]
pub struct Ownership {
    pub pipelines: TextMap<OwnerRule>,
    pub assets: TextMap<OwnerRule>,
}

/// What a map has for a key.
pub open spec fn rule_for(m: Map<Seq<char>, OwnerRule>, k: Seq<char>) -> Option<OwnerRule> {
    if m.dom().contains(k) {
        Some(m[k])
    } else {
        None
    }
}

/// An owner, as they are told to be told.
pub open spec fn contact_line(r: OwnerRule) -> Seq<char> {
    match r.contact {
        Some(c) => r.owner@ + " <"@ + c@ + ">"@,
        None => r.owner@,
    }
}

/// The contacts with one more, unless it is there.
pub open spec fn with_contact(so_far: Seq<Seq<char>>, rule: Option<OwnerRule>) -> Seq<Seq<char>> {
    match rule {
        Some(r) => if so_far.contains(contact_line(r)) {
            so_far
        } else {
            so_far.push(contact_line(r))
        },
        None => so_far,
    }
}

/// The contacts of what is reached, each once, in the order they come up.
pub open spec fn contacts_of(
    so_far: Seq<Seq<char>>,
    reached: Seq<Reached>,
    rules: Map<Seq<char>, OwnerRule>,
) -> Seq<Seq<char>>
    decreases reached.len(),
{
    if reached.len() == 0 {
        so_far
    } else {
        with_contact(
            contacts_of(so_far, reached.drop_last(), rules),
            rule_for(rules, reached.last().id@),
        )
    }
}

/// Whether a text is among some.
fn has_text(v: &Vec<String>, s: &str) -> (r: bool)
    ensures
        r == texts(v@).contains(s@),
{
    let mut i: usize = 0;
    while i < v.len()
        invariant
            i <= v@.len(),
            forall|j: int| 0 <= j < i ==> (#[trigger] texts(v@)[j]) != s@,
        decreases v@.len() - i,
    {
        assert(texts(v@)[i as int] == v@[i as int]@);
        if same(v[i].as_str(), s) {
            return true;
        }
        i = i + 1;
    }
    false
}

/// Put the contacts of what is reached behind those that are there.
fn add_contacts(out: &mut Vec<String>, reached: &Vec<Reached>, rules: &TextMap<OwnerRule>)
    ensures
        texts(final(out)@) == contacts_of(texts(old(out)@), reached@, rules@),
{
    let ghost start = texts(out@);
    let mut i: usize = 0;
    while i < reached.len()
        invariant
            i <= reached@.len(),
            texts(out@) == contacts_of(start, reached@.take(i as int), rules@),
        decreases reached@.len() - i,
    {
        assert(reached@.take(i + 1).drop_last() == reached@.take(i as int));
        if let Some(r) = rules.get(reached[i].id.as_str()) {
            let entry = match &r.contact {
                Some(c) => {
                    let mut e = glue3(r.owner.as_str(), " <", c.as_str());
                    e.append(">");
                    e
                },
                None => r.owner.clone(),
            };
            if !has_text(out, entry.as_str()) {
                let ghost before = out@;
                out.push(entry);
                assert(texts(out@) == texts(before).push(entry@));
            }
        }
        i = i + 1;
    }
    assert(reached@.take(i as int) == reached@);
}

/// Everyone reached, each once and in a stable order, so the line can be pasted
/// into a message rather than transcribed.
pub open spec fn contacts(owners: Ownership, hit: Impact) -> Seq<Seq<char>> {
    contacts_of(
        contacts_of(Seq::empty(), hit.pipelines@, owners.pipelines@),
        hit.assets@,
        owners.assets@,
    )
}

/// Everyone reached.
pub fn contacts_for(owners: &Ownership, hit: &Impact) -> (r: Vec<String>)
    ensures
        texts(r@) == contacts(*owners, *hit),
{
    let mut out: Vec<String> = Vec::new();
    assert(texts(out@) == Seq::<Seq<char>>::empty());
    add_contacts(&mut out, &hit.pipelines, &owners.pipelines);
    add_contacts(&mut out, &hit.assets, &owners.assets);
    out
}

/// Nobody is told twice.
pub proof fn law_nobody_is_told_twice(
    so_far: Seq<Seq<char>>,
    reached: Seq<Reached>,
    rules: Map<Seq<char>, OwnerRule>,
)
    requires
        so_far.no_duplicates(),
    ensures
        contacts_of(so_far, reached, rules).no_duplicates(),
    decreases reached.len(),
{
    if reached.len() > 0 {
        law_nobody_is_told_twice(so_far, reached.drop_last(), rules);
    }
}

/// The assets that have an owner.
pub open spec fn owned_assets(assets: Seq<Asset>, rules: Map<Seq<char>, OwnerRule>) -> nat
    decreases assets.len(),
{
    if assets.len() == 0 {
        0
    } else {
        owned_assets(assets.drop_last(), rules) + if rules.dom().contains(assets.last().id@) {
            1nat
        } else {
            0nat
        }
    }
}

/// One asset and who owns it.
pub open spec fn owner_line(a: Asset, rules: Map<Seq<char>, OwnerRule>) -> Seq<char> {
    "  "@ + padded(
        match rule_for(rules, a.id@) {
            Some(r) => r.owner@,
            None => "-"@,
        },
        20,
    ) + " "@ + a.id@
}

/// The pipelines without an owner.
pub open spec fn unowned_pipelines(
    pipelines: Seq<PipelineEntry>,
    rules: Map<Seq<char>, OwnerRule>,
) -> Seq<Seq<char>>
    decreases pipelines.len(),
{
    if pipelines.len() == 0 {
        Seq::empty()
    } else {
        let before = unowned_pipelines(pipelines.drop_last(), rules);
        if rules.dom().contains(pipelines.last().id@) {
            before
        } else {
            before.push(pipelines.last().id@)
        }
    }
}

/// Who owns what. `owners_file` is said to be missing when there are no rules.
pub open spec fn ownership_lines(
    c: Catalog,
    owners: Ownership,
    has_rules: bool,
    owners_file: Seq<char>,
) -> Seq<Seq<char>> {
    let unowned = unowned_pipelines(c.pipelines@, owners.pipelines@);
    (if has_rules {
        Seq::empty()
    } else {
        seq!["No "@ + owners_file + ", so nothing has an owner yet."@]
    }) + seq![
        decimal(owned_assets(c.assets@, owners.assets@)) + " of "@ + decimal(c.assets@.len())
            + " assets have an owner."@,
    ] + c.assets@.map_values(|a: Asset| owner_line(a, owners.assets@)) + if unowned.len() == 0 {
        Seq::empty()
    } else {
        seq!["\nPipelines with no owner: "@ + joined(unowned, ", "@)]
    }
}

/// How many assets have an owner.
fn count_owned(assets: &Vec<Asset>, rules: &TextMap<OwnerRule>) -> (r: usize)
    ensures
        r == owned_assets(assets@, rules@),
{
    let mut n: usize = 0;
    let mut i: usize = 0;
    while i < assets.len()
        invariant
            n <= i <= assets@.len(),
            n == owned_assets(assets@.take(i as int), rules@),
        decreases assets@.len() - i,
    {
        assert(assets@.take(i + 1).drop_last() == assets@.take(i as int));
        if rules.has(assets[i].id.as_str()) {
            n = n + 1;
        }
        i = i + 1;
    }
    assert(assets@.take(i as int) == assets@);
    n
}

/// The pipelines without an owner.
fn find_unowned(pipelines: &Vec<PipelineEntry>, rules: &TextMap<OwnerRule>) -> (r: Vec<String>)
    ensures
        texts(r@) == unowned_pipelines(pipelines@, rules@),
{
    let mut out: Vec<String> = Vec::new();
    let mut i: usize = 0;
    assert(texts(out@) == Seq::<Seq<char>>::empty());
    while i < pipelines.len()
        invariant
            i <= pipelines@.len(),
            texts(out@) == unowned_pipelines(pipelines@.take(i as int), rules@),
        decreases pipelines@.len() - i,
    {
        assert(pipelines@.take(i + 1).drop_last() == pipelines@.take(i as int));
        if !rules.has(pipelines[i].id.as_str()) {
            let ghost before = out@;
            out.push(pipelines[i].id.clone());
            assert(texts(out@) == texts(before).push(pipelines@[i as int].id@));
        }
        i = i + 1;
    }
    assert(pipelines@.take(i as int) == pipelines@);
    out
}

/// Who owns what.
pub fn owner_report(catalog: &Catalog, owners: &Ownership, has_rules: bool, owners_file: &str) -> (r: Vec<
    String,
>)
    ensures
        texts(r@) == ownership_lines(*catalog, *owners, has_rules, owners_file@),
{
    let mut out: Vec<String> = Vec::new();
    let ghost note: Seq<Seq<char>> = if has_rules {
        Seq::empty()
    } else {
        seq!["No "@ + owners_file@ + ", so nothing has an owner yet."@]
    };
    if !has_rules {
        out.push(glue3("No ", owners_file, ", so nothing has an owner yet."));
    }
    assert(texts(out@) =~= note);
    let owned = decimal_of(count_owned(&catalog.assets, &owners.assets) as u64);
    let all = decimal_of(catalog.assets.len() as u64);
    let mut line = glue3(owned.as_str(), " of ", all.as_str());
    line.append(" assets have an owner.");
    let ghost total = line@;
    out.push(line);
    assert(texts(out@) =~= note + seq![total]);
    let ghost head = note + seq![total];
    let ghost rows = catalog.assets@.map_values(|a: Asset| owner_line(a, owners.assets@));
    let mut i: usize = 0;
    assert(texts(out@) =~= head + rows.take(0));
    while i < catalog.assets.len()
        invariant
            i <= catalog.assets@.len(),
            rows == catalog.assets@.map_values(|a: Asset| owner_line(a, owners.assets@)),
            texts(out@) == head + rows.take(i as int),
        decreases catalog.assets@.len() - i,
    {
        let a = &catalog.assets[i];
        let who = match owners.assets.get(a.id.as_str()) {
            Some(r) => pad_right(r.owner.as_str(), 20),
            None => pad_right("-", 20),
        };
        let mut line = glue3("  ", who.as_str(), " ");
        line.append(a.id.as_str());
        let ghost before = out@;
        let ghost said = line@;
        out.push(line);
        assert(texts(out@) == texts(before).push(said));
        assert(rows.take(i + 1) == rows.take(i as int).push(said));
        assert(texts(out@) =~= head + rows.take(i + 1));
        i = i + 1;
    }
    assert(rows.take(i as int) == rows);
    let unowned = find_unowned(&catalog.pipelines, &owners.pipelines);
    assert(texts(unowned@).len() == unowned@.len());
    if unowned.len() > 0 {
        let names = join_texts(&unowned, ", ");
        let ghost before = out@;
        let last = glue2("\nPipelines with no owner: ", names.as_str());
        out.push(last);
        assert(texts(out@) == texts(before).push(last@));
        assert(texts(out@) =~= ownership_lines(*catalog, *owners, has_rules, owners_file@));
    } else {
        assert(texts(out@) =~= ownership_lines(*catalog, *owners, has_rules, owners_file@));
    }
    out
}

// ---------------------------------------------------------------------------
// Impact
// ---------------------------------------------------------------------------

/// Whether the graph knows an asset by this name.
pub open spec fn is_named(c: Catalog, asset: Seq<char>) -> bool {
    exists|i: int| 0 <= i < c.assets@.len() && (#[trigger] c.assets@[i]).id@ == asset
}

/// Whether the graph knows an asset by this name.
pub fn names_asset(catalog: &Catalog, asset: &str) -> (r: bool)
    ensures
        r == is_named(*catalog, asset@),
{
    let mut i: usize = 0;
    while i < catalog.assets.len()
        invariant
            i <= catalog.assets@.len(),
            forall|j: int| 0 <= j < i ==> (#[trigger] catalog.assets@[j]).id@ != asset@,
        decreases catalog.assets@.len() - i,
    {
        if same(catalog.assets[i].id.as_str(), asset) {
            return true;
        }
        i = i + 1;
    }
    false
}

/// What is said of a name that no pipeline uses. It is almost always a typo, and
/// saying that nothing is affected would read as reassurance rather than as a
/// miss.
pub open spec fn miss(asset: Seq<char>) -> Seq<char> {
    "No pipeline names '"@ + asset + "'. Run `catalog assets` to see the names in use."@
}

/// What goes beside an answer that a machine reads, and how the command ends: a
/// mistyped name must not pass a gate.
pub fn impact_note(catalog: &Catalog, asset: &str) -> (r: (Option<String>, i32))
    ensures
        if is_named(*catalog, asset@) {
            r.0 is None && r.1 == 0
        } else {
            r.0 is Some && r.0->0@ == miss(asset@) && r.1 == 1
        },
{
    if names_asset(catalog, asset) {
        (None, 0)
    } else {
        (
            Some(
                glue3(
                    "No pipeline names '",
                    asset,
                    "'. Run `catalog assets` to see the names in use.",
                ),
            ),
            1,
        )
    }
}

/// One thing that is reached, how far away it is and whose it is.
pub open spec fn reached_line(x: Reached, what: Seq<char>, rules: Map<Seq<char>, OwnerRule>) -> Seq<char> {
    "  "@ + right_aligned(decimal(x.depth as nat), 2) + what + x.id@ + match rule_for(rules, x.id@) {
        Some(r) => "  ["@ + r.owner@ + "]"@,
        None => Seq::empty(),
    }
}

/// The things of one sort that are reached.
pub open spec fn reached_lines(
    v: Seq<Reached>,
    what: Seq<char>,
    rules: Map<Seq<char>, OwnerRule>,
) -> Seq<Seq<char>> {
    v.map_values(|x: Reached| reached_line(x, what, rules))
}

/// What changing an asset reaches, in words. The owner is the other half of the
/// answer: knowing what breaks is only useful alongside someone to tell.
pub open spec fn impact_lines(hit: Impact, asset: Seq<char>, owners: Ownership) -> Seq<Seq<char>> {
    if hit.pipelines@.len() == 0 {
        seq!["Nothing reads "@ + asset + "."@]
    } else {
        let tell = contacts(owners, hit);
        seq!["Changing "@ + asset + " reaches:"@] + reached_lines(
            hit.pipelines@,
            " hop  pipeline  "@,
            owners.pipelines@,
        ) + reached_lines(hit.assets@, " hop  asset     "@, owners.assets@) + if tell.len() == 0 {
            Seq::empty()
        } else {
            seq!["\nTell: "@ + joined(tell, ", "@)]
        }
    }
}

/// Put the things of one sort that are reached behind what is there.
fn add_reached(out: &mut Vec<String>, v: &Vec<Reached>, what: &str, rules: &TextMap<OwnerRule>)
    ensures
        texts(final(out)@) == texts(old(out)@) + reached_lines(v@, what@, rules@),
{
    let ghost start = texts(out@);
    let ghost rows = reached_lines(v@, what@, rules@);
    let mut i: usize = 0;
    assert(texts(out@) =~= start + rows.take(0));
    while i < v.len()
        invariant
            i <= v@.len(),
            rows == reached_lines(v@, what@, rules@),
            texts(out@) == start + rows.take(i as int),
        decreases v@.len() - i,
    {
        let x = &v[i];
        let n = decimal_of(x.depth as u64);
        let depth = pad_left(n.as_str(), 2);
        let mut line = glue3("  ", depth.as_str(), what);
        line.append(x.id.as_str());
        match rules.get(x.id.as_str()) {
            Some(r) => {
                let owned = glue3("  [", r.owner.as_str(), "]");
                line.append(owned.as_str());
            },
            None => {
                assert(line@ + Seq::<char>::empty() == line@);
            },
        }
        let ghost before = out@;
        let ghost said = line@;
        out.push(line);
        assert(texts(out@) == texts(before).push(said));
        assert(rows.take(i + 1) == rows.take(i as int).push(said));
        assert(texts(out@) =~= start + rows.take(i + 1));
        i = i + 1;
    }
    assert(rows.take(i as int) == rows);
}

/// What changing an asset reaches, as it is told.
pub open spec fn is_impact_report(
    catalog: &Catalog,
    hit: &Impact,
    asset: &str,
    owners: &Ownership,
    r: ( Vec<String>, i32, ),
) -> bool {
    if is_named(*catalog, asset@) {
        texts(r.0@) == impact_lines(*hit, asset@, *owners) && r.1 == 0
    } else {
        texts(r.0@) == seq![miss(asset@)] && r.1 == 1
    }
}

/// What changing an asset reaches, in words, and how the command ends. An asset
/// nobody names is reported as a miss.
pub fn impact_report(catalog: &Catalog, hit: &Impact, asset: &str, owners: &Ownership) -> (r: (
    Vec<String>,
    i32,
))
    ensures
        is_impact_report(catalog, hit, asset, owners, r),
{
    let mut out: Vec<String> = Vec::new();
    if let (Some(said), code) = impact_note(catalog, asset) {
        out.push(said);
        assert(texts(out@) =~= seq![miss(asset@)]);
        return (out, code);
    }
    if hit.pipelines.len() == 0 {
        out.push(glue3("Nothing reads ", asset, "."));
        assert(texts(out@) =~= seq!["Nothing reads "@ + asset@ + "."@]);
        return (out, 0);
    }
    out.push(glue3("Changing ", asset, " reaches:"));
    assert(texts(out@) =~= seq!["Changing "@ + asset@ + " reaches:"@]);
    add_reached(&mut out, &hit.pipelines, " hop  pipeline  ", &owners.pipelines);
    add_reached(&mut out, &hit.assets, " hop  asset     ", &owners.assets);
    let tell = contacts_for(owners, hit);
    assert(texts(tell@).len() == tell@.len());
    if tell.len() > 0 {
        let names = join_texts(&tell, ", ");
        let ghost before = out@;
        let last = glue2("\nTell: ", names.as_str());
        out.push(last);
        assert(texts(out@) == texts(before).push(last@));
        assert(texts(out@) =~= impact_lines(*hit, asset@, *owners));
    } else {
        assert(texts(out@) =~= impact_lines(*hit, asset@, *owners));
    }
    (out, 0)
}

/// An asset that nobody names never passes for one that nothing reads: the
/// command says so and fails.
pub proof fn law_a_miss_is_no_all_clear(asset: Seq<char>)
    ensures
        miss(asset) != "Nothing reads "@ + asset + "."@,
{
    reveal_strlit("No pipeline names '");
    reveal_strlit("Nothing reads ");
    assert(miss(asset)[2] == ' ');
    assert(("Nothing reads "@ + asset + "."@)[2] == 't');
}

/// Options are read one after the other; bare words are kept in order, and any
/// other option is wrong.
pub proof fn law_how_catalog_options_are_read(
    a: Seq<char>,
    v: Seq<char>,
    rest: Seq<Seq<char>>,
    o: CatalogOptions,
)
    ensures
        catalog_options(Seq::empty(), o) == Ok::<CatalogOptions, Seq<char>>(o),
        catalog_options(seq!["--workspace"@, v] + rest, o) == catalog_options(
            rest,
            CatalogOptions { workspace: v, ..o },
        ),
        catalog_options(seq!["--workspace"@], o) == Err::<CatalogOptions, Seq<char>>(
            "--workspace needs a value"@,
        ),
        catalog_options(seq!["--json"@] + rest, o) == catalog_options(
            rest,
            CatalogOptions { as_json: true, ..o },
        ),
        !begins(a, "--"@) ==> catalog_options(seq![a] + rest, o) == catalog_options(
            rest,
            CatalogOptions { positional: o.positional.push(a), ..o },
        ),
        begins(a, "--"@) && a != "--workspace"@ && a != "--json"@ ==> catalog_options(seq![a] + rest, o)
            == Err::<CatalogOptions, Seq<char>>("unknown argument: "@ + a),
        no_catalog_options().workspace == "."@ && !no_catalog_options().as_json
            && no_catalog_options().positional.len() == 0,
{
    reveal_strlit("--workspace");
    reveal_strlit("--json");
    reveal_strlit("--");
    assert("--workspace"@.len() == 11);
    assert("--json"@.len() == 6);
    assert("--"@.len() == 2);
    let two = seq!["--workspace"@, v] + rest;
    assert(two[0] == "--workspace"@ && two[1] == v);
    assert(two.skip(2) == rest);
    let json = seq!["--json"@] + rest;
    assert(json[0] == "--json"@);
    assert(json.skip(1) == rest);
    let one = seq![a] + rest;
    assert(one[0] == a);
    assert(one.skip(1) == rest);
    assert("--workspace"@.take(2) == "--"@);
    assert("--json"@.take(2) == "--"@);
}

/// What each subcommand asks of the graph.
pub proof fn law_what_is_asked_of_the_graph(
    r: Result<Question, String>,
    sub: Seq<char>,
    o: CatalogOptions,
)
    requires
        asks(r, sub, o),
    ensures
        r matches Ok(q) ==> q.workspace@ == o.workspace && q.as_json == o.as_json,
        sub == "build"@ ==> (r matches Ok(q) && q.command is Build),
        sub == "assets"@ ==> (r matches Ok(q) && q.command is Assets),
        sub == "owners"@ ==> (r matches Ok(q) && q.command is Owners),
        sub == "orphans"@ ==> (r matches Ok(q) && q.command is Orphans),
        sub == "impact"@ && o.positional.len() > 0 ==> (r matches Ok(q) && (q.command matches CatalogCommand::Impact(
            a,
        ) && a@ == o.positional[0])),
        sub == "impact"@ && o.positional.len() == 0 ==> r is Err,
        !seq!["build"@, "assets"@, "impact"@, "owners"@, "orphans"@].contains(sub) ==> (r matches Err(e)
            && e@ == "unknown catalog command: "@ + sub),
{
    reveal_strlit("build");
    reveal_strlit("assets");
    reveal_strlit("impact");
    reveal_strlit("owners");
    reveal_strlit("orphans");
    assert("build"@.len() == 5);
    assert("assets"@.len() == 6);
    assert("impact"@.len() == 6);
    assert("owners"@.len() == 6);
    assert("orphans"@.len() == 7);
    assert("assets"@[0] == 'a' && "impact"@[0] == 'i');
    assert("assets"@[0] == 'a' && "owners"@[0] == 'o');
    assert("impact"@[0] == 'i' && "owners"@[0] == 'o');
    let all = seq!["build"@, "assets"@, "impact"@, "owners"@, "orphans"@];
    assert(all[0] == "build"@);
    assert(all[1] == "assets"@);
    assert(all[2] == "impact"@);
    assert(all[3] == "owners"@);
    assert(all[4] == "orphans"@);
}

/// Everyone who owns something that is reached is told, and nobody else.
pub proof fn law_everyone_concerned_is_told(
    so_far: Seq<Seq<char>>,
    reached: Seq<Reached>,
    rules: Map<Seq<char>, OwnerRule>,
    who: Seq<char>,
)
    ensures
        contacts_of(so_far, reached, rules).contains(who) <==> so_far.contains(who) || exists|i: int|
            0 <= i < reached.len() && rules.dom().contains((#[trigger] reached[i]).id@) && contact_line(
                rules[reached[i].id@],
            ) == who,
    decreases reached.len(),
{
    if reached.len() > 0 {
        let before = reached.drop_last();
        law_everyone_concerned_is_told(so_far, before, rules, who);
        let told = contacts_of(so_far, before, rules);
        let all = contacts_of(so_far, reached, rules);
        let last = reached.last();
        assert(reached[reached.len() - 1] == last);
        if told.contains(who) {
            let k = choose|k: int| 0 <= k < told.len() && told[k] == who;
            assert(all[k] == who);
        }
        if exists|i: int|
            0 <= i < before.len() && rules.dom().contains((#[trigger] before[i]).id@) && contact_line(
                rules[before[i].id@],
            ) == who {
            let i = choose|i: int|
                0 <= i < before.len() && rules.dom().contains((#[trigger] before[i]).id@)
                    && contact_line(rules[before[i].id@]) == who;
            assert(reached[i] == before[i]);
        }
        if exists|i: int|
            0 <= i < reached.len() && rules.dom().contains((#[trigger] reached[i]).id@) && contact_line(
                rules[reached[i].id@],
            ) == who {
            let i = choose|i: int|
                0 <= i < reached.len() && rules.dom().contains((#[trigger] reached[i]).id@)
                    && contact_line(rules[reached[i].id@]) == who;
            if i < before.len() {
                assert(before[i] == reached[i]);
            } else if !told.contains(who) {
                assert(all == told.push(who));
                assert(all[told.len() as int] == who);
            }
        }
        if all.contains(who) && !told.contains(who) {
            let k = choose|k: int| 0 <= k < all.len() && all[k] == who;
            assert(k == told.len()) by {
                if k < told.len() {
                    assert(told[k] == who);
                }
            }
        }
    }
}

/// Owners of pipelines are told before owners of assets, and both are.
pub proof fn law_whom_to_tell(owners: Ownership, hit: Impact, who: Seq<char>)
    ensures
        contacts(owners, hit).contains(who) <==> {
            ||| exists|i: int|
                0 <= i < hit.pipelines@.len() && owners.pipelines@.dom().contains(
                    (#[trigger] hit.pipelines@[i]).id@,
                ) && contact_line(owners.pipelines@[hit.pipelines@[i].id@]) == who
            ||| exists|i: int|
                0 <= i < hit.assets@.len() && owners.assets@.dom().contains(
                    (#[trigger] hit.assets@[i]).id@,
                ) && contact_line(owners.assets@[hit.assets@[i].id@]) == who
        },
{
    let none = Seq::<Seq<char>>::empty();
    law_everyone_concerned_is_told(none, hit.pipelines@, owners.pipelines@, who);
    law_everyone_concerned_is_told(
        contacts_of(none, hit.pipelines@, owners.pipelines@),
        hit.assets@,
        owners.assets@,
        who,
    );
}

/// An owner is named with their contact where there is one.
pub proof fn law_how_an_owner_is_named(r: OwnerRule)
    ensures
        r.contact is None ==> contact_line(r) == r.owner@,
        r.contact matches Some(c) ==> contact_line(r) == r.owner@ + " <"@ + c@ + ">"@,
{
}

/// What has an owner is counted, and what has none is named, one by one.
pub proof fn law_what_has_an_owner(
    assets: Seq<Asset>,
    a: Asset,
    pipelines: Seq<PipelineEntry>,
    p: PipelineEntry,
    rules: Map<Seq<char>, OwnerRule>,
)
    ensures
        owned_assets(Seq::empty(), rules) == 0,
        rules.dom().contains(a.id@) ==> owned_assets(assets.push(a), rules) == owned_assets(
            assets,
            rules,
        ) + 1,
        !rules.dom().contains(a.id@) ==> owned_assets(assets.push(a), rules) == owned_assets(
            assets,
            rules,
        ),
        unowned_pipelines(Seq::empty(), rules).len() == 0,
        rules.dom().contains(p.id@) ==> unowned_pipelines(pipelines.push(p), rules)
            == unowned_pipelines(pipelines, rules),
        !rules.dom().contains(p.id@) ==> unowned_pipelines(pipelines.push(p), rules)
            == unowned_pipelines(pipelines, rules).push(p.id@),
        rules.dom().contains(a.id@) ==> owner_line(a, rules) == "  "@ + padded(
            rules[a.id@].owner@,
            20,
        ) + " "@ + a.id@,
        !rules.dom().contains(a.id@) ==> owner_line(a, rules) == "  "@ + padded("-"@, 20) + " "@ + a.id@,
{
    assert(assets.push(a).drop_last() == assets);
    assert(pipelines.push(p).drop_last() == pipelines);
}

/// The report on owners starts with how many assets have one, gives a line to each
/// asset, and ends with the pipelines that have none.
pub proof fn law_what_the_owner_report_says(c: Catalog, owners: Ownership, file: Seq<char>, i: int)
    ensures
        ({
            let r = ownership_lines(c, owners, true, file);
            let n = c.assets@.len();
            let unowned = unowned_pipelines(c.pipelines@, owners.pipelines@);
            &&& r.len() == n + 1 + (if unowned.len() == 0 {
                0int
            } else {
                1
            })
            &&& r[0] == decimal(owned_assets(c.assets@, owners.assets@)) + " of "@ + decimal(n)
                + " assets have an owner."@
            &&& 0 <= i < n ==> r[i + 1] == owner_line(c.assets@[i], owners.assets@)
            &&& unowned.len() > 0 ==> r.last() == "\nPipelines with no owner: "@ + joined(
                unowned,
                ", "@,
            )
            &&& ownership_lines(c, owners, false, file) == seq![
                "No "@ + file + ", so nothing has an owner yet."@,
            ] + r
        }),
{
    let r = ownership_lines(c, owners, true, file);
    assert(ownership_lines(c, owners, false, file) =~= seq![
        "No "@ + file + ", so nothing has an owner yet."@,
    ] + r);
}

/// An asset is known where the catalog lists it.
pub proof fn law_which_assets_are_known(c: Catalog, i: int, asset: Seq<char>)
    ensures
        0 <= i < c.assets@.len() ==> is_named(c, c.assets@[i].id@),
        (forall|j: int| 0 <= j < c.assets@.len() ==> (#[trigger] c.assets@[j]).id@ != asset)
            ==> !is_named(c, asset),
{
    if 0 <= i < c.assets@.len() {
        assert(c.assets@[i].id@ == c.assets@[i].id@);
    }
}

/// The report on a change lists the pipelines it reaches, then the assets, each
/// with how far away it is and whose it is, and then whom to tell.
pub proof fn law_what_the_impact_report_says(hit: Impact, asset: Seq<char>, owners: Ownership, i: int)
    ensures
        hit.pipelines@.len() == 0 ==> impact_lines(hit, asset, owners) == seq![
            "Nothing reads "@ + asset + "."@,
        ],
        hit.pipelines@.len() > 0 ==> {
            let r = impact_lines(hit, asset, owners);
            let p = hit.pipelines@.len();
            let a = hit.assets@.len();
            let tell = contacts(owners, hit);
            &&& r.len() == 1 + p + a + (if tell.len() == 0 {
                0int
            } else {
                1
            })
            &&& r[0] == "Changing "@ + asset + " reaches:"@
            &&& 0 <= i < p ==> r[1 + i] == reached_line(
                hit.pipelines@[i],
                " hop  pipeline  "@,
                owners.pipelines@,
            )
            &&& 0 <= i < a ==> r[1 + p + i] == reached_line(
                hit.assets@[i],
                " hop  asset     "@,
                owners.assets@,
            )
            &&& tell.len() > 0 ==> r.last() == "\nTell: "@ + joined(tell, ", "@)
        },
{
}

/// A line of that report says how far away a thing is and whose it is.
pub proof fn law_what_a_reached_line_says(x: Reached, what: Seq<char>, rules: Map<Seq<char>, OwnerRule>)
    ensures
        rules.dom().contains(x.id@) ==> reached_line(x, what, rules) == "  "@ + right_aligned(
            decimal(x.depth as nat),
            2,
        ) + what + x.id@ + ("  ["@ + rules[x.id@].owner@ + "]"@),
        !rules.dom().contains(x.id@) ==> reached_line(x, what, rules) == "  "@ + right_aligned(
            decimal(x.depth as nat),
            2,
        ) + what + x.id@,
{
    let head = "  "@ + right_aligned(decimal(x.depth as nat), 2) + what + x.id@;
    assert(head + Seq::<char>::empty() == head);
}

/// What could not be named is counted, and the first ten are listed.
pub proof fn law_how_gaps_are_told(u: Seq<Unresolved>, i: int)
    ensures
        u.len() == 0 ==> gaps(u).len() == 0,
        u.len() > 0 ==> {
            let n = if u.len() < 10 {
                u.len()
            } else {
                10
            };
            &&& gaps(u).len() == 1 + n + (if u.len() > 10 {
                1int
            } else {
                0
            })
            &&& gaps(u)[0] == "\n"@ + decimal(u.len())
                + " source/sink node(s) could not be named, so the answers above may be incomplete:"@
            &&& 0 <= i < n ==> gaps(u)[1 + i] == "  "@ + u[i].pipeline_id@ + " / "@ + u[i].node_id@
                + " ("@ + u[i].component_id@ + ")"@
            &&& u.len() > 10 ==> gaps(u).last() == "  ... and "@ + decimal((u.len() - 10) as nat)
                + " more"@
        },
{
}

/// An asset's line gives its kind and how many write and read it.
pub proof fn law_what_an_asset_line_says(c: Catalog, a: Asset)
    ensures
        asset_line(c, a) == padded(a.kind@, 9) + " "@ + padded(
            decimal(c.touches@.filter(touches(a.id@, Direction::Write)).len()),
            3,
        ) + "w "@ + padded(decimal(c.touches@.filter(touches(a.id@, Direction::Read)).len()), 3)
            + "r  "@ + a.id@,
        orphan_line(a) == "  "@ + padded(a.kind@, 9) + " "@ + a.id@,
{
}

/// An asset that nothing names is a miss, with a code of its own; any other is
/// answered with what it reaches.
pub proof fn law_how_impact_is_answered(
    catalog: &Catalog,
    hit: &Impact,
    asset: &str,
    owners: &Ownership,
    r: (Vec<String>, i32),
)
    requires
        is_impact_report(catalog, hit, asset, owners, r),
    ensures
        is_named(*catalog, asset@) ==> r.1 == 0 && texts(r.0@) == impact_lines(*hit, asset@, *owners),
        !is_named(*catalog, asset@) ==> r.1 == 1 && texts(r.0@) == seq![
            "No pipeline names '"@ + asset@ + "'. Run `catalog assets` to see the names in use."@,
        ],
{
}

} // verus!
