//! What the management console shows: the pipelines of a workspace, how their
//! runs went, their logs, and the graph they form.
use crate::asset::Asset;
use crate::catalog::{law_what_is_one_sided, only_read, only_written, touches, Catalog, Direction, Touch};
use crate::http::{error_doc, map_texts};
use crate::json::{
    add_item, add_member, count, count_in, docs, field, field_in, json_in, json_read, lemma_docs,
    law_a_member_is_found_by_its_name, list, list_in, member, members, number_doc, number_json,
    number_or_null, opt_number_json, opt_text_json, parse, text, text_in, text_json, text_or_null, texts_doc, texts_json, Doc, Json,
};
use crate::number::{decimal, decimal_of, law_decimal_reads_back, number_up_to, read_number};
use crate::order::{arranged, ascending, is_order, listed_before, precedes, put_in_order, TextMap};
use crate::panel::{panel_json, panel_members, PanelEntry};
use crate::paths::{file_name, file_stem, join, last_segment, rel, relative_to, stem, under};
use crate::routes::lookup;
use crate::runs::RunRecord;
use crate::text::{
    chars_of, glue2, glue3, is_blank, lines, lowercase, lowercase_of, same, split_lines, str_opt,
    text_opt, texts, trim, trimmed,
};
use vstd::prelude::*;
use vstd::string::*;

verus! {

// ---------------------------------------------------------------------------
// The pipelines of a workspace
// ---------------------------------------------------------------------------

/// A file that may hold a pipeline.
#[derive(Debug)]
pub struct WorkspaceFile {
    pub path: String,
    pub text: String,
}

/// A pipeline and where it is kept.
#[derive(Debug)]
pub struct Pipeline {
    pub path: String,
    /// The name of its file, without the extension.
    pub id: String,
    pub doc: Json,
}

/// A pipeline and where it is kept, as plain values.
pub struct PipelineView {
    pub path: Seq<char>,
    pub id: Seq<char>,
    pub doc: Doc,
}

impl View for Pipeline {
    type V = PipelineView;

    open spec fn view(&self) -> PipelineView {
        PipelineView { path: self.path@, id: self.id@, doc: self.doc@ }
    }
}

impl Pipeline {
    /// The same pipeline once more.
    pub fn copy(&self) -> (r: Pipeline)
        ensures
            r@ == self@,
    {
        Pipeline { path: self.path.clone(), id: self.id.clone(), doc: self.doc.copy() }
    }
}

/// Whether a value is a pipeline: the thing with a `nodes` list.
pub open spec fn is_pipeline(d: Doc) -> bool {
    list_in(field_in(Some(d), "nodes"@)) is Some
}

/// Whether a value is a pipeline.
fn holds_pipeline(j: &Json) -> (r: bool)
    ensures
        r == is_pipeline(j@),
{
    list(field(Some(j), "nodes")).is_some()
}

/// The pipelines among some files, as they stand. A file that is not JSON, or
/// not a pipeline, is passed over.
pub open spec fn pipelines_among(files: Seq<WorkspaceFile>, windows: bool) -> Seq<PipelineView>
    decreases files.len(),
{
    if files.len() == 0 {
        Seq::empty()
    } else {
        let before = pipelines_among(files.drop_last(), windows);
        let f = files.last();
        match json_in(f.text@) {
            Some(d) => if is_pipeline(d) {
                before.push(
                    PipelineView { path: f.path@, id: stem(last_segment(f.path@, windows)), doc: d },
                )
            } else {
                before
            },
            None => before,
        }
    }
}

/// What each pipeline is.
pub open spec fn pipeline_views(v: Seq<Pipeline>) -> Seq<PipelineView> {
    v.map_values(|p: Pipeline| p@)
}

/// The names that pipelines are listed by: upper and lower case count alike.
pub open spec fn listing_keys(v: Seq<PipelineView>) -> Seq<Seq<char>> {
    v.map_values(|p: PipelineView| lowercase_of(p.id))
}

/// Whether `after` holds the pipelines of `before` in the order of their names.
pub open spec fn listed_by_name(after: Seq<PipelineView>, before: Seq<PipelineView>) -> bool {
    exists|order: Seq<usize>|
        #[trigger] is_order(order, listing_keys(before), false) && after == arranged(before, order)
}

/// The pipelines among the files of a workspace, in the order of their names.
pub fn discover_pipelines(files: &Vec<WorkspaceFile>, windows: bool) -> (r: Vec<Pipeline>)
    ensures
        listed_by_name(pipeline_views(r@), pipelines_among(files@, windows)),
{
    let mut found: Vec<Pipeline> = Vec::new();
    let mut keys: Vec<String> = Vec::new();
    let mut i: usize = 0;
    assert(pipeline_views(found@) == pipelines_among(files@.take(0), windows));
    while i < files.len()
        invariant
            i <= files@.len(),
            pipeline_views(found@) == pipelines_among(files@.take(i as int), windows),
            texts(keys@) == listing_keys(pipeline_views(found@)),
        decreases files@.len() - i,
    {
        let f = &files[i];
        assert(files@.take(i + 1).drop_last() == files@.take(i as int));
        if let Ok(doc) = parse(f.text.as_str()) {
            if holds_pipeline(&doc) {
                let ghost before = found@;
                let ghost before_keys = keys@;
                let name = file_name(f.path.as_str(), windows);
                let id = file_stem(name.as_str());
                keys.push(lowercase(id.as_str()));
                found.push(Pipeline { path: f.path.clone(), id, doc });
                assert(pipeline_views(found@) == pipeline_views(before).push(found@.last()@));
                assert(texts(keys@) == texts(before_keys).push(lowercase_of(found@.last().id@)));
                assert(listing_keys(pipeline_views(found@)) == listing_keys(
                    pipeline_views(before),
                ).push(lowercase_of(found@.last().id@)));
            }
        }
        i = i + 1;
    }
    assert(files@.take(i as int) == files@);
    let order = put_in_order(&keys, false);
    let ghost all = pipeline_views(found@);
    let mut out: Vec<Pipeline> = Vec::new();
    let mut n: usize = 0;
    while n < order.len()
        invariant
            n <= order@.len(),
            all == pipeline_views(found@),
            is_order(order@, listing_keys(all), false),
            out@.len() == n,
            forall|j: int| 0 <= j < n ==> (#[trigger] out@[j])@ == all[order@[j] as int],
        decreases order@.len() - n,
    {
        assert(order@[n as int] < listing_keys(all).len());
        out.push(found[order[n]].copy());
        n = n + 1;
    }
    assert(pipeline_views(out@) =~= arranged(all, order@));
    out
}

/// What a file that should hold a pipeline gives.
pub open spec fn is_read_pipeline(
    file: &str,
    path: &str,
    content: &str,
    r: Result<Json, String>,
) -> bool {
    match json_read(content@) {
        Err(e) => r matches Err(why) && why@ == "parse "@ + path@ + ": "@ + e,
        Ok(d) => if is_pipeline(d) {
            r matches Ok(v) && v@ == d
        } else {
            r matches Err(why) && why@ == file@ + " is not a pipeline"@
        },
    }
}

/// The pipeline in a file that a request names, with what the file holds.
///
/// Lying in the workspace is not enough on its own: the workspace also holds
/// the accounts and the stored connections, and this is for viewers. Anything
/// that is not a pipeline is refused whatever its path.
pub fn read_pipeline_file(file: &str, path: &str, content: &str) -> (r: Result<Json, String>)
    ensures
        is_read_pipeline(file, path, content, r),
{
    match parse(content) {
        Err(e) => {
            let mut why = glue3("parse ", path, ": ");
            why.append(e.as_str());
            Err(why)
        },
        Ok(doc) => if holds_pipeline(&doc) {
            Ok(doc)
        } else {
            Err(glue2(file, " is not a pipeline"))
        },
    }
}

/// Nothing but a pipeline is ever handed out as one.
pub proof fn law_only_pipelines_are_found(files: Seq<WorkspaceFile>, i: int, windows: bool)
    requires
        0 <= i < pipelines_among(files, windows).len(),
    ensures
        is_pipeline(pipelines_among(files, windows)[i].doc),
    decreases files.len(),
{
    if files.len() > 0 {
        let before = pipelines_among(files.drop_last(), windows);
        if i < before.len() {
            law_only_pipelines_are_found(files.drop_last(), i, windows);
        }
    }
}

// ---------------------------------------------------------------------------
// Names
// ---------------------------------------------------------------------------

/// The names in a repository index, by the id of the thing. A blank one is no
/// name.
pub open spec fn names_among(items: Seq<Doc>) -> Map<Seq<char>, Seq<char>>
    decreases items.len(),
{
    if items.len() == 0 {
        Map::empty()
    } else {
        let before = names_among(items.drop_last());
        let it = Some(items.last());
        match (text_in(field_in(it, "id"@)), text_in(field_in(it, "name"@))) {
            (Some(id), Some(name)) => if trimmed(name).len() > 0 {
                before.insert(id, name)
            } else {
                before
            },
            _ => before,
        }
    }
}

/// The names in a repository index, if there is one that can be read.
pub open spec fn names_in(index: Option<Seq<char>>) -> Map<Seq<char>, Seq<char>> {
    match index {
        Some(t) => match json_in(t) {
            Some(Doc::List(items)) => names_among(items),
            _ => Map::empty(),
        },
        None => Map::empty(),
    }
}

/// The names in a repository index. Pipelines are saved under their ids with no
/// name of their own, so the friendly name has to come from here.
pub fn repo_names(index: Option<&str>) -> (r: TextMap<String>)
    ensures
        map_texts(r@) == names_in(str_opt(index)),
{
    let mut out: TextMap<String> = TextMap::new();
    assert(map_texts(out@) == Map::<Seq<char>, Seq<char>>::empty());
    let t = match index {
        Some(t) => t,
        None => {
            return out;
        },
    };
    let parsed = parse(t);
    if let Ok(Json::List(items)) = &parsed {
        let ghost all = docs(items@);
        let mut i: usize = 0;
        assert(map_texts(out@) == names_among(all.take(0)));
        while i < items.len()
            invariant
                i <= items@.len(),
                all == docs(items@),
                map_texts(out@) == names_among(all.take(i as int)),
            decreases items@.len() - i,
        {
            proof {
                lemma_docs(items@);
            }
            let it = &items[i];
            assert(all.take(i + 1).drop_last() == all.take(i as int));
            assert(all.take(i + 1).last() == it@);
            if let Some(id) = text(field(Some(it), "id")) {
                if let Some(name) = text(field(Some(it), "name")) {
                    if !is_blank(name) {
                        let ghost before = out@;
                        let id_owned = id.to_owned();
                        let name_owned = name.to_owned();
                        out.insert(id_owned, name_owned);
                        assert(map_texts(out@) == map_texts(before).insert(id@, name@));
                    }
                }
            }
            i = i + 1;
        }
        proof {
            lemma_docs(items@);
            assert(all.take(i as int) == all);
        }
    }
    out
}

/// What a pipeline is called: its name in the repository, else the one in its
/// file, else its id.
pub open spec fn display_name(names: Map<Seq<char>, Seq<char>>, id: Seq<char>, doc: Doc) -> Seq<char> {
    match lookup(names, id) {
        Some(n) => n,
        None => match text_in(field_in(Some(doc), "name"@)) {
            Some(n) => if trimmed(n).len() > 0 {
                trimmed(n)
            } else {
                id
            },
            None => id,
        },
    }
}

/// What a pipeline is called.
fn name_of(names: &TextMap<String>, p: &Pipeline) -> (r: String)
    ensures
        r@ == display_name(map_texts(names@), p.id@, p.doc@),
{
    match names.get(p.id.as_str()) {
        Some(n) => n.clone(),
        None => match text(field(Some(&p.doc), "name")) {
            Some(n) => {
                let t = trim(n);
                if t.as_str().is_empty() {
                    p.id.clone()
                } else {
                    t
                }
            },
            None => p.id.clone(),
        },
    }
}

// ---------------------------------------------------------------------------
// The list of pipelines
// ---------------------------------------------------------------------------

/// A pipeline with what is known of its runs.
#[derive(Debug)]
pub struct Listed {
    pub pipeline: Pipeline,
    /// Its last run.
    pub last: Option<RunRecord>,
    pub running: bool,
    /// When it is expected to run next.
    pub next_at: Option<String>,
}

/// How many items a member holds.
pub open spec fn size_of_list(d: Doc, k: Seq<char>) -> nat {
    match list_in(field_in(Some(d), k)) {
        Some(v) => v.len(),
        None => 0,
    }
}

/// How many items a member holds.
fn list_size(j: &Json, k: &str) -> (r: usize)
    ensures
        r == size_of_list(j@, k@),
{
    match list(field(Some(j), k)) {
        Some(v) => {
            proof {
                lemma_docs(v@);
            }
            v.len()
        },
        None => 0,
    }
}

/// What is shown as a pipeline's schedule. One without any shows as switched
/// off.
pub open spec fn schedule_doc(e: Option<PanelEntry>) -> Doc {
    match e {
        Some(x) => Doc::Object(panel_members(x@)),
        None => Doc::Object(
            seq![
                ("enabled"@, Doc::Bool(false)),
                ("intervalSeconds"@, number_doc(0)),
                ("intervalMinutes"@, number_doc(0)),
            ],
        ),
    }
}

/// What a map has for a key.
pub open spec fn entry_for(m: Map<Seq<char>, PanelEntry>, k: Seq<char>) -> Option<PanelEntry> {
    if m.dom().contains(k) {
        Some(m[k])
    } else {
        None
    }
}

/// One pipeline, as it is listed.
pub open spec fn row_members(
    workspace: Seq<char>,
    l: Listed,
    entries: Map<Seq<char>, PanelEntry>,
    names: Map<Seq<char>, Seq<char>>,
    windows: bool,
) -> Seq<(Seq<char>, Doc)> {
    let p = l.pipeline;
    seq![
        ("file"@, Doc::Text(relative_to(workspace, p.path@, windows))),
        ("id"@, Doc::Text(p.id@)),
        ("name"@, Doc::Text(display_name(names, p.id@, p.doc@))),
        ("nodeCount"@, number_doc(size_of_list(p.doc@, "nodes"@))),
        ("edgeCount"@, number_doc(size_of_list(p.doc@, "edges"@))),
        (
            "lastStatus"@,
            match l.last {
                Some(x) => Doc::Text(x.status@),
                None => Doc::Null,
            },
        ),
        (
            "lastAt"@,
            match l.last {
                Some(x) => Doc::Text(x.at@),
                None => Doc::Null,
            },
        ),
        (
            "lastDurationMs"@,
            match l.last {
                Some(x) => number_doc(x.duration_ms as nat),
                None => Doc::Null,
            },
        ),
        (
            "lastRows"@,
            match l.last {
                Some(x) => number_or_null(x.rows),
                None => Doc::Null,
            },
        ),
        ("schedule"@, schedule_doc(entry_for(entries, p.id@))),
        ("running"@, Doc::Bool(l.running)),
        ("nextRunAt"@, text_or_null(text_opt(l.next_at))),
    ]
}

/// The schedule to show for a pipeline.
fn shown_schedule(e: Option<&PanelEntry>) -> (r: Json)
    ensures
        r@ == schedule_doc(
            match e {
                Some(x) => Some(*x),
                None => None,
            },
        ),
{
    match e {
        Some(x) => panel_json(x),
        None => {
            let mut m: Vec<(String, Json)> = Vec::new();
            add_member(&mut m, "enabled", Json::Bool(false));
            add_member(&mut m, "intervalSeconds", number_json(0));
            add_member(&mut m, "intervalMinutes", number_json(0));
            assert(members(m@) == schedule_doc(None)->Object_0);
            Json::Object(m)
        },
    }
}

/// One pipeline, as it is listed.
fn pipeline_row(
    workspace: &str,
    l: &Listed,
    entries: &TextMap<PanelEntry>,
    names: &TextMap<String>,
    windows: bool,
) -> (r: Json)
    ensures
        r@ == Doc::Object(row_members(workspace@, *l, entries@, map_texts(names@), windows)),
{
    let p = &l.pipeline;
    let mut m: Vec<(String, Json)> = Vec::new();
    let file = rel(workspace, p.path.as_str(), windows);
    add_member(&mut m, "file", text_json(file.as_str()));
    add_member(&mut m, "id", text_json(p.id.as_str()));
    let name = name_of(names, p);
    add_member(&mut m, "name", text_json(name.as_str()));
    add_member(&mut m, "nodeCount", number_json(list_size(&p.doc, "nodes") as u64));
    add_member(&mut m, "edgeCount", number_json(list_size(&p.doc, "edges") as u64));
    match &l.last {
        Some(x) => {
            add_member(&mut m, "lastStatus", text_json(x.status.as_str()));
            add_member(&mut m, "lastAt", text_json(x.at.as_str()));
            add_member(&mut m, "lastDurationMs", number_json(x.duration_ms));
            add_member(&mut m, "lastRows", opt_number_json(x.rows));
        },
        None => {
            add_member(&mut m, "lastStatus", Json::Null);
            add_member(&mut m, "lastAt", Json::Null);
            add_member(&mut m, "lastDurationMs", Json::Null);
            add_member(&mut m, "lastRows", Json::Null);
        },
    }
    let schedule = shown_schedule(entries.get(p.id.as_str()));
    add_member(&mut m, "schedule", schedule);
    add_member(&mut m, "running", Json::Bool(l.running));
    add_member(&mut m, "nextRunAt", opt_text_json(&l.next_at));
    assert(members(m@) =~= row_members(workspace@, *l, entries@, map_texts(names@), windows));
    Json::Object(m)
}

/// The pipelines of a workspace, as they are sent.
pub open spec fn pipelines_doc(
    workspace: Seq<char>,
    rows: Seq<Listed>,
    entries: Map<Seq<char>, PanelEntry>,
    names: Map<Seq<char>, Seq<char>>,
    windows: bool,
) -> Doc {
    Doc::Object(
        seq![
            (
                "pipelines"@,
                Doc::List(
                    rows.map_values(
                        |l: Listed| Doc::Object(row_members(workspace, l, entries, names, windows)),
                    ),
                ),
            ),
        ],
    )
}

/// The list of pipelines, as it is sent. A schedule store that could not be read
/// comes as no entries: it must not take the list down with it.
pub fn api_pipelines(
    workspace: &str,
    rows: &Vec<Listed>,
    entries: &TextMap<PanelEntry>,
    names: &TextMap<String>,
    windows: bool,
) -> (r: Json)
    ensures
        r@ == pipelines_doc(workspace@, rows@, entries@, map_texts(names@), windows),
{
    let ghost f = |l: Listed|
        Doc::Object(row_members(workspace@, l, entries@, map_texts(names@), windows));
    let ghost all = rows@.map_values(f);
    let mut items: Vec<Json> = Vec::new();
    let mut i: usize = 0;
    while i < rows.len()
        invariant
            i <= rows@.len(),
            f == (|l: Listed| Doc::Object(row_members(workspace@, l, entries@, map_texts(names@), windows))),
            all == rows@.map_values(f),
            docs(items@) == all.take(i as int),
        decreases rows@.len() - i,
    {
        add_item(&mut items, pipeline_row(workspace, &rows[i], entries, names, windows));
        assert(all.take(i + 1) == all.take(i as int).push(f(rows@[i as int])));
        i = i + 1;
    }
    assert(all.take(i as int) == all);
    let mut m: Vec<(String, Json)> = Vec::new();
    add_member(&mut m, "pipelines", Json::List(items));
    assert(members(m@) == seq![("pipelines"@, Doc::List(all))]);
    Json::Object(m)
}

// ---------------------------------------------------------------------------
// Runs
// ---------------------------------------------------------------------------

/// How many of some runs went well.
pub open spec fn good_runs(records: Seq<RunRecord>) -> nat
    decreases records.len(),
{
    if records.len() == 0 {
        0
    } else {
        good_runs(records.drop_last()) + if records.last().status@ == "ok"@ {
            1nat
        } else {
            0nat
        }
    }
}

/// The totals over every pipeline, as they are sent.
pub open spec fn summary_members(
    pipelines: nat,
    records: Seq<RunRecord>,
    workspace: Seq<char>,
) -> Seq<(Seq<char>, Doc)> {
    seq![
        ("pipelineCount"@, number_doc(pipelines)),
        ("totalRuns"@, number_doc(records.len())),
        ("ok"@, number_doc(good_runs(records))),
        ("failed"@, number_doc((records.len() - good_runs(records)) as nat)),
        ("workspace"@, Doc::Text(workspace)),
    ]
}

/// The totals over every pipeline, with the runs of all of them.
pub fn api_summary(pipeline_count: usize, records: &Vec<RunRecord>, workspace: &str) -> (r: Json)
    ensures
        r@ == Doc::Object(summary_members(pipeline_count as nat, records@, workspace@)),
        good_runs(records@) <= records@.len(),
{
    let mut ok: usize = 0;
    let mut i: usize = 0;
    while i < records.len()
        invariant
            ok <= i <= records@.len(),
            ok == good_runs(records@.take(i as int)),
        decreases records@.len() - i,
    {
        assert(records@.take(i + 1).drop_last() == records@.take(i as int));
        if same(records[i].status.as_str(), "ok") {
            ok = ok + 1;
        }
        i = i + 1;
    }
    assert(records@.take(i as int) == records@);
    let total: usize = records.len();
    let mut m: Vec<(String, Json)> = Vec::new();
    add_member(&mut m, "pipelineCount", number_json(pipeline_count as u64));
    add_member(&mut m, "totalRuns", number_json(total as u64));
    add_member(&mut m, "ok", number_json(ok as u64));
    add_member(&mut m, "failed", number_json((total - ok) as u64));
    add_member(&mut m, "workspace", text_json(workspace));
    assert(members(m@) == seq![
        ("pipelineCount"@, number_doc(pipeline_count as nat)),
        ("totalRuns"@, number_doc(records@.len())),
        ("ok"@, number_doc(good_runs(records@))),
        ("failed"@, number_doc((records@.len() - good_runs(records@)) as nat)),
        ("workspace"@, Doc::Text(workspace@)),
    ]);
    Json::Object(m)
}

/// A pipeline and its runs, the oldest first.
#[derive(Debug)]
pub struct History {
    pub pipeline: Pipeline,
    pub records: Vec<RunRecord>,
}

/// One run, as it is listed.
pub open spec fn run_members(
    workspace: Seq<char>,
    p: PipelineView,
    names: Map<Seq<char>, Seq<char>>,
    r: RunRecord,
    windows: bool,
) -> Seq<(Seq<char>, Doc)> {
    seq![
        ("id"@, Doc::Text(p.id)),
        ("name"@, Doc::Text(display_name(names, p.id, p.doc))),
        ("file"@, Doc::Text(relative_to(workspace, p.path, windows))),
        ("at"@, Doc::Text(r.at@)),
        ("status"@, Doc::Text(r.status@)),
        ("durationMs"@, number_doc(r.duration_ms as nat)),
        ("rows"@, number_or_null(r.rows)),
        ("nodeCount"@, number_doc(r.node_count as nat)),
        ("trigger"@, Doc::Text(r.trigger@)),
        ("error"@, text_or_null(text_opt(r.error))),
        ("category"@, text_or_null(text_opt(r.category))),
    ]
}

/// The runs to list, as they are kept, each with its time.
pub open spec fn runs_among(
    workspace: Seq<char>,
    histories: Seq<History>,
    only: Option<Seq<char>>,
    names: Map<Seq<char>, Seq<char>>,
    windows: bool,
) -> Seq<(Seq<char>, Doc)>
    decreases histories.len(),
{
    if histories.len() == 0 {
        Seq::empty()
    } else {
        let before = runs_among(workspace, histories.drop_last(), only, names, windows);
        let h = histories.last();
        if only is Some && only->0 != h.pipeline.id@ {
            before
        } else {
            before + h.records@.map_values(
                |r: RunRecord|
                    (r.at@, Doc::Object(run_members(workspace, h.pipeline@, names, r, windows))),
            )
        }
    }
}

/// When each run was.
pub open spec fn times(rows: Seq<(Seq<char>, Doc)>) -> Seq<Seq<char>> {
    rows.map_values(|x: (Seq<char>, Doc)| x.0)
}

/// Each run, as it is listed.
pub open spec fn values(rows: Seq<(Seq<char>, Doc)>) -> Seq<Doc> {
    rows.map_values(|x: (Seq<char>, Doc)| x.1)
}

/// Whether a list holds these runs, the newest first. Times are RFC 3339 in UTC,
/// so the order of the texts is the order in time.
pub open spec fn newest_first(list: Seq<Doc>, rows: Seq<(Seq<char>, Doc)>) -> bool {
    exists|order: Seq<usize>|
        #[trigger] is_order(order, times(rows), true) && list == arranged(values(rows), order)
}

/// One run, as it is listed.
fn run_row(workspace: &str, p: &Pipeline, name: &str, names: Ghost<Map<Seq<char>, Seq<char>>>, x: &RunRecord, windows: bool) -> (r:
    Json)
    requires
        name@ == display_name(names@, p.id@, p.doc@),
    ensures
        r@ == Doc::Object(run_members(workspace@, p@, names@, *x, windows)),
{
    let mut m: Vec<(String, Json)> = Vec::new();
    add_member(&mut m, "id", text_json(p.id.as_str()));
    add_member(&mut m, "name", text_json(name));
    let file = rel(workspace, p.path.as_str(), windows);
    add_member(&mut m, "file", text_json(file.as_str()));
    add_member(&mut m, "at", text_json(x.at.as_str()));
    add_member(&mut m, "status", text_json(x.status.as_str()));
    add_member(&mut m, "durationMs", number_json(x.duration_ms));
    add_member(&mut m, "rows", opt_number_json(x.rows));
    add_member(&mut m, "nodeCount", number_json(x.node_count));
    add_member(&mut m, "trigger", text_json(x.trigger.as_str()));
    add_member(&mut m, "error", opt_text_json(&x.error));
    add_member(&mut m, "category", opt_text_json(&x.category));
    assert(members(m@) =~= run_members(workspace@, p@, names@, *x, windows));
    Json::Object(m)
}

/// The runs across all pipelines, or of one, the newest first, each with the
/// pipeline it was of.
pub fn api_runs(
    workspace: &str,
    histories: &Vec<History>,
    only: Option<&str>,
    names: &TextMap<String>,
    windows: bool,
) -> (r: Json)
    ensures
        r@ matches Doc::Object(m) && m.len() == 1 && m[0].0 == "runs"@ && (m[0].1 matches Doc::List(list)
            && newest_first(
            list,
            runs_among(workspace@, histories@, str_opt(only), map_texts(names@), windows),
        )),
{
    let ghost nm = map_texts(names@);
    let ghost want = str_opt(only);
    let mut rows: Vec<Json> = Vec::new();
    let mut ats: Vec<String> = Vec::new();
    let ghost mut flat: Seq<(Seq<char>, Doc)> = Seq::empty();
    let mut h: usize = 0;
    assert(texts(ats@) == times(flat));
    while h < histories.len()
        invariant
            h <= histories@.len(),
            nm == map_texts(names@),
            want == str_opt(only),
            flat == runs_among(workspace@, histories@.take(h as int), want, nm, windows),
            rows@.len() == flat.len(),
            ats@.len() == flat.len(),
            forall|j: int|
                0 <= j < flat.len() ==> (#[trigger] flat[j]).0 == ats@[j]@ && flat[j].1 == rows@[j]@,
        decreases histories@.len() - h,
    {
        let hist = &histories[h];
        assert(histories@.take(h + 1).drop_last() == histories@.take(h as int));
        let wanted = match only {
            Some(w) => same(w, hist.pipeline.id.as_str()),
            None => true,
        };
        if wanted {
            let name = name_of(names, &hist.pipeline);
            let ghost f = |r: RunRecord|
                (r.at@, Doc::Object(run_members(workspace@, hist.pipeline@, nm, r, windows)));
            let ghost start = flat;
            let ghost added = hist.records@.map_values(f);
            let mut k: usize = 0;
            assert(start + added.take(0) == start);
            while k < hist.records.len()
                invariant
                    k <= hist.records@.len(),
                    nm == map_texts(names@),
                    name@ == display_name(nm, hist.pipeline.id@, hist.pipeline.doc@),
                    f == (|r: RunRecord|
                        (r.at@, Doc::Object(run_members(workspace@, hist.pipeline@, nm, r, windows)))),
                    added == hist.records@.map_values(f),
                    flat == start + added.take(k as int),
                    rows@.len() == flat.len(),
                    ats@.len() == flat.len(),
                    forall|j: int|
                        0 <= j < flat.len() ==> (#[trigger] flat[j]).0 == ats@[j]@ && flat[j].1
                            == rows@[j]@,
                decreases hist.records@.len() - k,
            {
                let x = &hist.records[k];
                rows.push(run_row(workspace, &hist.pipeline, name.as_str(), Ghost(nm), x, windows));
                ats.push(x.at.clone());
                proof {
                    let before = flat;
                    flat = before.push(f(*x));
                    assert(added.take(k + 1) == added.take(k as int).push(f(*x)));
                    assert(start + added.take(k + 1) == flat);
                    assert forall|j: int| 0 <= j < flat.len() implies (#[trigger] flat[j]).0 == ats@[j]@
                        && flat[j].1 == rows@[j]@ by {
                        if j < before.len() {
                            assert(flat[j] == before[j]);
                        }
                    }
                }
                k = k + 1;
            }
            assert(added.take(k as int) == added);
        }
        h = h + 1;
    }
    assert(histories@.take(h as int) == histories@);
    assert(texts(ats@) == times(flat));
    let order = put_in_order(&ats, true);
    let mut items: Vec<Json> = Vec::new();
    let mut n: usize = 0;
    let ghost listed = arranged(values(flat), order@);
    while n < order.len()
        invariant
            n <= order@.len(),
            is_order(order@, times(flat), true),
            rows@.len() == flat.len(),
            forall|j: int| 0 <= j < flat.len() ==> (#[trigger] flat[j]).1 == rows@[j]@,
            listed == arranged(values(flat), order@),
            docs(items@) == listed.take(n as int),
        decreases order@.len() - n,
    {
        assert(order@[n as int] < times(flat).len());
        add_item(&mut items, rows[order[n]].copy());
        assert(flat[order@[n as int] as int].1 == rows@[order@[n as int] as int]@);
        assert(listed.take(n + 1) == listed.take(n as int).push(listed[n as int]));
        n = n + 1;
    }
    assert(listed.take(n as int) == listed);
    let mut m: Vec<(String, Json)> = Vec::new();
    add_member(&mut m, "runs", Json::List(items));
    assert(members(m@) == seq![("runs"@, Doc::List(listed))]);
    assert(newest_first(listed, flat));
    Json::Object(m)
}

/// How one node of a run ended.
#[derive(Debug)]
pub struct NodeResult {
    pub id: String,
    pub status: String,
    pub rows: Option<u64>,
    pub duration_ms: Option<u64>,
    pub error: Option<String>,
}

/// How one node of a run ended, as it is sent.
pub open spec fn node_doc(n: NodeResult) -> Doc {
    Doc::Object(
        seq![
            ("id"@, Doc::Text(n.id@)),
            ("status"@, Doc::Text(n.status@)),
            ("rows"@, number_or_null(n.rows)),
            ("durationMs"@, number_or_null(n.duration_ms)),
            ("error"@, text_or_null(text_opt(n.error))),
        ],
    )
}

/// How a run ended, member by member.
pub open spec fn report_members(
    id: Seq<char>,
    status: Seq<char>,
    duration_ms: u64,
    error: Option<Seq<char>>,
    nodes: Seq<NodeResult>,
) -> Seq<(Seq<char>, Doc)> {
    seq![
        ("id"@, Doc::Text(id)),
        ("status"@, Doc::Text(status)),
        ("durationMs"@, number_doc(duration_ms as nat)),
        ("error"@, text_or_null(error)),
        ("nodes"@, Doc::List(nodes.map_values(|n: NodeResult| node_doc(n)))),
    ]
}

/// How a run ended, as it is sent.
pub fn run_report(
    id: &str,
    status: &str,
    duration_ms: u64,
    error: &Option<String>,
    nodes: &Vec<NodeResult>,
) -> (r: Json)
    ensures
        r@ == Doc::Object(report_members(id@, status@, duration_ms, text_opt(*error), nodes@)),
{
    let ghost all = nodes@.map_values(|n: NodeResult| node_doc(n));
    let mut items: Vec<Json> = Vec::new();
    let mut i: usize = 0;
    while i < nodes.len()
        invariant
            i <= nodes@.len(),
            all == nodes@.map_values(|n: NodeResult| node_doc(n)),
            docs(items@) == all.take(i as int),
        decreases nodes@.len() - i,
    {
        let n = &nodes[i];
        let mut m: Vec<(String, Json)> = Vec::new();
        add_member(&mut m, "id", text_json(n.id.as_str()));
        add_member(&mut m, "status", text_json(n.status.as_str()));
        add_member(&mut m, "rows", opt_number_json(n.rows));
        add_member(&mut m, "durationMs", opt_number_json(n.duration_ms));
        add_member(&mut m, "error", opt_text_json(&n.error));
        assert(members(m@) == node_doc(*n)->Object_0);
        add_item(&mut items, Json::Object(m));
        assert(all.take(i + 1) == all.take(i as int).push(node_doc(nodes@[i as int])));
        i = i + 1;
    }
    assert(all.take(i as int) == all);
    let mut m: Vec<(String, Json)> = Vec::new();
    add_member(&mut m, "id", text_json(id));
    add_member(&mut m, "status", text_json(status));
    add_member(&mut m, "durationMs", number_json(duration_ms));
    add_member(&mut m, "error", opt_text_json(error));
    add_member(&mut m, "nodes", Json::List(items));
    assert(members(m@) == seq![
        ("id"@, Doc::Text(id@)),
        ("status"@, Doc::Text(status@)),
        ("durationMs"@, number_doc(duration_ms as nat)),
        ("error"@, text_or_null(text_opt(*error))),
        ("nodes"@, Doc::List(all)),
    ]);
    Json::Object(m)
}

/// What is put down against a schedule whose pipeline has run, or could not.
#[derive(Debug)]
pub struct ScheduledOutcome {
    pub status: String,
    pub duration_ms: u64,
    pub error: Option<String>,
    /// Whether an alert is due that the run itself did not raise.
    pub alert: bool,
}

/// What a scheduled run came to.
pub open spec fn is_outcome(result: &Result<Json, String>, r: ScheduledOutcome) -> bool {
    match result {
        Ok(v) => {
            &&& r.status@ == (match text_in(field_in(Some(v@), "status"@)) {
                Some(s) => s,
                None => "?"@,
            })
            &&& r.duration_ms == (match count_in(field_in(Some(v@), "durationMs"@)) {
                Some(n) => n,
                None => 0,
            })
            &&& text_opt(r.error) == text_in(field_in(Some(v@), "error"@))
            &&& !r.alert
        },
        Err(e) => r.status@ == "error"@ && r.duration_ms == 0 && text_opt(r.error) == Some(e@) && r.alert,
    }
}

/// What is put down against a schedule. A run that could not even start is still
/// an outcome, and leaving it out is what makes a schedule look like it never
/// fired.
pub fn scheduled_outcome(result: &Result<Json, String>) -> (r: ScheduledOutcome)
    ensures
        is_outcome(result, r),
{
    match result {
        Ok(v) => ScheduledOutcome {
            status: match text(field(Some(v), "status")) {
                Some(s) => s.to_owned(),
                None => "?".to_owned(),
            },
            duration_ms: match count(field(Some(v), "durationMs")) {
                Some(n) => n,
                None => 0,
            },
            error: match text(field(Some(v), "error")) {
                Some(e) => Some(e.to_owned()),
                None => None,
            },
            alert: false,
        },
        Err(e) => ScheduledOutcome {
            status: "error".to_owned(),
            duration_ms: 0,
            error: Some(e.clone()),
            alert: true,
        },
    }
}

// ---------------------------------------------------------------------------
// Schedules, parameters and short answers
// ---------------------------------------------------------------------------

/// The schedules of these pipelines, as members of one value.
pub open spec fn schedule_members(
    ids: Seq<Seq<char>>,
    entries: Map<Seq<char>, PanelEntry>,
) -> Seq<(Seq<char>, Doc)> {
    Seq::new(ids.len(), |i: int| (ids[i], Doc::Object(panel_members(entries[ids[i]]@))))
}

/// The console's schedules, as they are sent: one for each pipeline that has one,
/// in order of the pipelines' ids.
pub fn api_schedules(entries: &TextMap<PanelEntry>) -> (r: Json)
    ensures
        exists|ids: Seq<Seq<char>>|
            {
                &&& ascending(ids)
                &&& forall|k: Seq<char>| ids.contains(k) <==> #[trigger] entries@.dom().contains(k)
                &&& r@ == Doc::Object(#[trigger] schedule_members(ids, entries@))
            },
{
    let n: usize = entries.len();
    let ghost ids = entries.keys();
    let ghost all = schedule_members(ids, entries@);
    let mut m: Vec<(String, Json)> = Vec::new();
    let mut i: usize = 0;
    while i < n
        invariant
            i <= n,
            n == ids.len(),
            ids == entries.keys(),
            all == schedule_members(ids, entries@),
            members(m@) == all.take(i as int),
        decreases n - i,
    {
        add_member(&mut m, entries.key_at(i), panel_json(entries.value_at(i)));
        assert(all.take(i + 1) == all.take(i as int).push(all[i as int]));
        i = i + 1;
    }
    assert(all.take(i as int) == all);
    Json::Object(m)
}

/// The parameters that a pipeline exposes, as they are sent.
pub fn api_params(names: &Vec<String>) -> (r: Json)
    ensures
        r@ == Doc::Object(seq![("params"@, texts_doc(texts(names@)))]),
{
    let mut m: Vec<(String, Json)> = Vec::new();
    add_member(&mut m, "params", texts_json(names));
    assert(members(m@) == seq![("params"@, texts_doc(texts(names@)))]);
    Json::Object(m)
}

/// What is sent when something was done and there is nothing to show for it.
pub fn acknowledgement() -> (r: Json)
    ensures
        r@ == Doc::Object(seq![("ok"@, Doc::Bool(true))]),
{
    let mut m: Vec<(String, Json)> = Vec::new();
    add_member(&mut m, "ok", Json::Bool(true));
    assert(members(m@) == seq![("ok"@, Doc::Bool(true))]);
    Json::Object(m)
}

/// What is sent in place of a graph that could not be read or built.
pub fn no_catalog(why: &str) -> (r: Json)
    ensures
        r@ == error_doc(why@),
{
    let mut m: Vec<(String, Json)> = Vec::new();
    add_member(&mut m, "error", text_json(why));
    assert(members(m@) == seq![("error"@, Doc::Text(why@))]);
    Json::Object(m)
}

/// Where the pipeline with an id stands.
pub open spec fn is_place_of(pipelines: &Vec<Pipeline>, id: &str, r: Option<usize>) -> bool {
    match r {
        Some(i) => {
            &&& i < pipelines@.len()
            &&& pipelines@[i as int].id@ == id@
            &&& forall|j: int| i < j < pipelines@.len() ==> (#[trigger] pipelines@[j]).id@ != id@
        },
        None => forall|j: int|
            0 <= j < pipelines@.len() ==> (#[trigger] pipelines@[j]).id@ != id@,
    }
}

/// The place of the pipeline with this id. Of several files with one name, the
/// last one is meant.
pub fn find_pipeline(pipelines: &Vec<Pipeline>, id: &str) -> (r: Option<usize>)
    ensures
        is_place_of(pipelines, id, r),
{
    let mut i: usize = pipelines.len();
    while i > 0
        invariant
            i <= pipelines@.len(),
            forall|j: int| i <= j < pipelines@.len() ==> (#[trigger] pipelines@[j]).id@ != id@,
        decreases i,
    {
        i = i - 1;
        if same(pipelines[i].id.as_str(), id) {
            return Some(i);
        }
    }
    None
}

// ---------------------------------------------------------------------------
// Logs
// ---------------------------------------------------------------------------

/// Whether a character is a letter or a digit, by the rules of Unicode.
pub uninterp spec fn is_letter_or_digit(c: char) -> bool;

/// `char::is_alphanumeric`. The result is named; it depends on the character
/// alone.
#[verifier::external_body]
fn alphanumeric(c: char) -> (r: bool)
    ensures
        r == is_letter_or_digit(c),
{
    c.is_alphanumeric()
}

/// A name that is fit to be a folder.
pub open spec fn folder_name(name: Seq<char>) -> Seq<char> {
    if name.len() == 0 {
        "pipeline"@
    } else {
        name.map_values(
            |c: char|
                if is_letter_or_digit(c) || c == '-' || c == '_' || c == '.' {
                    c
                } else {
                    '_'
                },
        )
    }
}

/// A name that is fit to be a folder, as the engine's run log makes it.
pub fn sanitize_segment(name: &str) -> (r: String)
    ensures
        r@ == folder_name(name@),
{
    let v = chars_of(name);
    if v.len() == 0 {
        return "pipeline".to_owned();
    }
    let ghost all = folder_name(name@);
    let mut out = String::new();
    let mut i: usize = 0;
    while i < v.len()
        invariant
            i <= v@.len(),
            v@ == name@,
            v@.len() > 0,
            all == folder_name(name@),
            out@ == all.take(i as int),
        decreases v@.len() - i,
    {
        let c = v[i];
        let kept = if alphanumeric(c) || c == '-' || c == '_' || c == '.' {
            c
        } else {
            '_'
        };
        out.push(kept);
        assert(all.take(i + 1) == all.take(i as int).push(kept));
        i = i + 1;
    }
    assert(all.take(i as int) == all);
    out
}

/// The run log of a pipeline.
pub open spec fn log_file(workspace: Seq<char>, id: Seq<char>, windows: bool) -> Seq<char> {
    under(under(under(workspace, "logs"@, windows), folder_name(id), windows), "runtime.log"@, windows)
}

/// The run log of a pipeline.
pub fn log_path(workspace: &str, id: &str, windows: bool) -> (r: String)
    ensures
        r@ == log_file(workspace@, id@, windows),
{
    let dir = join(workspace, "logs", windows);
    let folder = sanitize_segment(id);
    let inner = join(dir.as_str(), folder.as_str(), windows);
    join(inner.as_str(), "runtime.log", windows)
}

/// The lines with something on them.
pub open spec fn written_lines(all: Seq<Seq<char>>) -> Seq<Seq<char>> {
    all.filter(|l: Seq<char>| trimmed(l).len() > 0)
}

/// One line of a log, as it is sent: the value on it, or the line itself.
pub open spec fn line_doc(l: Seq<char>) -> Doc {
    match json_in(l) {
        Some(d) => d,
        None => Doc::Object(seq![("raw"@, Doc::Text(l))]),
    }
}

/// How many lines from the end of a log are wanted.
pub open spec fn wanted_lines(tail: Option<Seq<char>>) -> nat {
    match tail {
        Some(t) => match number_up_to(t, usize::MAX as nat) {
            Some(n) => n,
            None => 200,
        },
        None => 200,
    }
}

/// The end of a log, as it is sent.
pub open spec fn log_entries(text: Seq<char>, tail: nat) -> Seq<Doc> {
    let all = written_lines(lines(text));
    let from = if tail < all.len() {
        all.len() - tail
    } else {
        0
    };
    all.skip(from).map_values(|l: Seq<char>| line_doc(l))
}

/// One line of a log, as it is sent.
fn line_json(l: &str) -> (r: Json)
    ensures
        r@ == line_doc(l@),
{
    match parse(l) {
        Ok(v) => v,
        Err(_) => {
            let mut m: Vec<(String, Json)> = Vec::new();
            add_member(&mut m, "raw", text_json(l));
            assert(members(m@) == seq![("raw"@, Doc::Text(l@))]);
            Json::Object(m)
        },
    }
}

/// What of a log is shown, if it could be read.
pub open spec fn shown_lines(log: Option<&str>, query: Map<Seq<char>, Seq<char>>) -> Seq<Doc> {
    match log {
        Some(t) => log_entries(t@, wanted_lines(lookup(query, "tail"@))),
        None => Seq::empty(),
    }
}

/// The end of a log and where it is kept, as it is sent.
pub open spec fn log_doc(entries: Seq<Doc>, file: Seq<char>) -> Doc {
    Doc::Object(seq![("entries"@, Doc::List(entries)), ("file"@, Doc::Text(file))])
}

/// The log of a pipeline, as it is sent.
pub open spec fn is_log(
    query: &TextMap<String>,
    workspace: &str,
    log: Option<&str>,
    windows: bool,
    r: Json,
) -> bool {
    ({
        let q = map_texts(query@);
        match lookup(q, "id"@) {
            None => r@ == Doc::Object(seq![("entries"@, Doc::List(Seq::empty()))]),
            Some(id) => r@ == log_doc(shown_lines(log, q), log_file(workspace@, id, windows)),
        }
    })
}

/// The end of a pipeline's run log: the pipeline and the number of lines as the
/// query gives them, and what the log holds, if it can be read.
pub fn api_log(query: &TextMap<String>, workspace: &str, log: Option<&str>, windows: bool) -> (r: Json)
    ensures
        is_log(query, workspace, log, windows, r),
{
    let mut items: Vec<Json> = Vec::new();
    assert(docs(items@) == Seq::<Doc>::empty());
    let id = match query.get("id") {
        Some(i) => i,
        None => {
            let mut m: Vec<(String, Json)> = Vec::new();
            add_member(&mut m, "entries", Json::List(items));
            assert(members(m@) == seq![("entries"@, Doc::List(Seq::empty()))]);
            return Json::Object(m);
        },
    };
    let tail: usize = match query.get("tail") {
        Some(t) => match read_number(t.as_str(), usize::MAX as u64) {
            Some(n) => n as usize,
            None => 200,
        },
        None => 200,
    };
    let file = log_path(workspace, id.as_str(), windows);
    if let Some(t) = log {
        let all = split_lines(t);
        let ghost ls = lines(t@);
        let mut kept: Vec<String> = Vec::new();
        let mut i: usize = 0;
        assert(ls.take(0) == Seq::<Seq<char>>::empty());
        assert(texts(kept@) == written_lines(ls.take(0))) by {
            reveal(Seq::filter);
        }
        while i < all.len()
            invariant
                i <= all@.len(),
                ls == texts(all@),
                texts(kept@) == written_lines(ls.take(i as int)),
            decreases all@.len() - i,
        {
            let ghost before = kept@;
            proof {
                reveal(Seq::filter);
                assert(ls.take(i + 1).drop_last() == ls.take(i as int));
                assert(ls.take(i + 1).last() == all@[i as int]@);
            }
            if !is_blank(all[i].as_str()) {
                kept.push(all[i].clone());
                assert(texts(kept@) == texts(before).push(all@[i as int]@));
            }
            i = i + 1;
        }
        assert(ls.take(i as int) == ls);
        let ghost w = written_lines(ls);
        let total: usize = kept.len();
        let from: usize = if tail < total {
            total - tail
        } else {
            0
        };
        let ghost want = w.skip(from as int).map_values(|l: Seq<char>| line_doc(l));
        let mut n: usize = from;
        assert(docs(items@) == want.take(0));
        while n < total
            invariant
                from <= n <= total,
                total == kept@.len(),
                texts(kept@) == w,
                want == w.skip(from as int).map_values(|l: Seq<char>| line_doc(l)),
                docs(items@) == want.take(n - from),
            decreases total - n,
        {
            add_item(&mut items, line_json(kept[n].as_str()));
            assert(w[n as int] == kept@[n as int]@);
            assert(want.take(n + 1 - from) == want.take(n - from).push(line_doc(w[n as int])));
            n = n + 1;
        }
        assert(want.take(n - from) == want);
        assert(docs(items@) == log_entries(t@, tail as nat));
    }
    assert(tail == wanted_lines(lookup(map_texts(query@), "tail"@)));
    assert(lookup(map_texts(query@), "id"@) == Some(id@));
    let ghost sent = docs(items@);
    assert(sent == shown_lines(log, map_texts(query@)));
    let mut m: Vec<(String, Json)> = Vec::new();
    add_member(&mut m, "entries", Json::List(items));
    add_member(&mut m, "file", text_json(file.as_str()));
    assert(members(m@) == log_doc(sent, log_file(workspace@, id@, windows))->Object_0);
    Json::Object(m)
}

// ---------------------------------------------------------------------------
// The graph
// ---------------------------------------------------------------------------

/// The pipelines of some touches.
pub open spec fn touching_pipelines(v: Seq<Touch>) -> Seq<Seq<char>> {
    v.map_values(|t: Touch| t.pipeline_id@)
}

/// The names of some assets.
pub open spec fn asset_ids(v: Seq<Asset>) -> Seq<Seq<char>> {
    v.map_values(|a: Asset| a.id@)
}

/// One asset, as it is sent.
pub open spec fn asset_members(
    touched: Seq<Touch>,
    a: Asset,
    owners: Map<Seq<char>, Seq<char>>,
) -> Seq<(Seq<char>, Doc)> {
    seq![
        ("id"@, Doc::Text(a.id@)),
        ("kind"@, Doc::Text(a.kind@)),
        (
            "writtenBy"@,
            texts_doc(touching_pipelines(touched.filter(touches(a.id@, Direction::Write)))),
        ),
        (
            "readBy"@,
            texts_doc(touching_pipelines(touched.filter(touches(a.id@, Direction::Read)))),
        ),
        ("owner"@, text_or_null(lookup(owners, a.id@))),
    ]
}

/// The pipelines of some touches.
fn pipeline_ids(v: &Vec<&Touch>) -> (r: Vec<String>)
    ensures
        texts(r@) == touching_pipelines(v@.unref()),
{
    let mut out: Vec<String> = Vec::new();
    let mut i: usize = 0;
    while i < v.len()
        invariant
            i <= v@.len(),
            out@.len() == i,
            forall|j: int| 0 <= j < i ==> (#[trigger] out@[j])@ == v@[j].pipeline_id@,
        decreases v@.len() - i,
    {
        out.push(v[i].pipeline_id.clone());
        i = i + 1;
    }
    assert(texts(out@) =~= touching_pipelines(v@.unref()));
    out
}

/// The names of some assets.
fn ids_of(v: &Vec<&Asset>) -> (r: Vec<String>)
    ensures
        texts(r@) == asset_ids(v@.unref()),
{
    let mut out: Vec<String> = Vec::new();
    let mut i: usize = 0;
    while i < v.len()
        invariant
            i <= v@.len(),
            out@.len() == i,
            forall|j: int| 0 <= j < i ==> (#[trigger] out@[j])@ == v@[j].id@,
        decreases v@.len() - i,
    {
        out.push(v[i].id.clone());
        i = i + 1;
    }
    assert(texts(out@) =~= asset_ids(v@.unref()));
    out
}

/// The catalog as it is sent, member by member.
pub open spec fn catalog_members(
    catalog: Catalog,
    owners: Map<Seq<char>, Seq<char>>,
    has_owners: bool,
) -> Seq<(Seq<char>, Doc)> {
    seq![
        (
            "assets"@,
            Doc::List(
                catalog.assets@.map_values(
                    |a: Asset| Doc::Object(asset_members(catalog.touches@, a, owners)),
                ),
            ),
        ),
        ("pipelines"@, number_doc(catalog.pipelines@.len())),
        (
            "orphans"@,
            texts_doc(asset_ids(catalog.assets@.filter(only_written(catalog.touches@)))),
        ),
        (
            "externals"@,
            texts_doc(asset_ids(catalog.assets@.filter(only_read(catalog.touches@)))),
        ),
        ("unresolved"@, number_doc(catalog.unresolved@.len())),
        ("hasOwners"@, Doc::Bool(has_owners)),
    ]
}

/// The workspace graph, as it is sent, with who owns which asset. The number of
/// unresolved nodes comes along so that a partial graph is not taken for the
/// whole picture.
pub fn api_catalog(catalog: &Catalog, owners: &TextMap<String>, has_owners: bool) -> (r: Json)
    ensures
        r@ == Doc::Object(catalog_members(*catalog, map_texts(owners@), has_owners)),
{
    let ghost om = map_texts(owners@);
    let ghost f = |a: Asset| Doc::Object(asset_members(catalog.touches@, a, om));
    let ghost all = catalog.assets@.map_values(f);
    let mut items: Vec<Json> = Vec::new();
    let mut i: usize = 0;
    while i < catalog.assets.len()
        invariant
            i <= catalog.assets@.len(),
            om == map_texts(owners@),
            f == (|a: Asset| Doc::Object(asset_members(catalog.touches@, a, om))),
            all == catalog.assets@.map_values(f),
            docs(items@) == all.take(i as int),
        decreases catalog.assets@.len() - i,
    {
        let a = &catalog.assets[i];
        let writers = pipeline_ids(&catalog.producers(a.id.as_str()));
        let readers = pipeline_ids(&catalog.consumers(a.id.as_str()));
        let owner = match owners.get(a.id.as_str()) {
            Some(o) => text_json(o.as_str()),
            None => Json::Null,
        };
        let mut m: Vec<(String, Json)> = Vec::new();
        add_member(&mut m, "id", text_json(a.id.as_str()));
        add_member(&mut m, "kind", text_json(a.kind.as_str()));
        add_member(&mut m, "writtenBy", texts_json(&writers));
        add_member(&mut m, "readBy", texts_json(&readers));
        add_member(&mut m, "owner", owner);
        assert(members(m@) =~= asset_members(catalog.touches@, *a, om));
        add_item(&mut items, Json::Object(m));
        assert(all.take(i + 1) == all.take(i as int).push(f(catalog.assets@[i as int])));
        i = i + 1;
    }
    assert(all.take(i as int) == all);
    let orphans = ids_of(&catalog.orphans());
    let externals = ids_of(&catalog.externals());
    let mut m: Vec<(String, Json)> = Vec::new();
    add_member(&mut m, "assets", Json::List(items));
    add_member(&mut m, "pipelines", number_json(catalog.pipelines.len() as u64));
    add_member(&mut m, "orphans", texts_json(&orphans));
    add_member(&mut m, "externals", texts_json(&externals));
    add_member(&mut m, "unresolved", number_json(catalog.unresolved.len() as u64));
    add_member(&mut m, "hasOwners", Json::Bool(has_owners));
    assert(members(m@) =~= seq![
        ("assets"@, Doc::List(all)),
        ("pipelines"@, number_doc(catalog.pipelines@.len())),
        (
            "orphans"@,
            texts_doc(asset_ids(catalog.assets@.filter(only_written(catalog.touches@)))),
        ),
        (
            "externals"@,
            texts_doc(asset_ids(catalog.assets@.filter(only_read(catalog.touches@)))),
        ),
        ("unresolved"@, number_doc(catalog.unresolved@.len())),
        ("hasOwners"@, Doc::Bool(has_owners)),
    ]);
    Json::Object(m)
}

// ---------------------------------------------------------------------------
// Settings
// ---------------------------------------------------------------------------

/// The memory limit that a workspace sets.
pub open spec fn is_memory_limit(
    current: Option<&str>,
    settings: Option<&str>,
    r: Option<String>,
) -> bool {
    text_opt(r) == (if current is Some && current->0@.len() > 0 {
        None
    } else {
        match settings {
            Some(t) => match count_in(field_in(json_in(t@), "memory_limit_mb"@)) {
                Some(mb) => if mb > 0 {
                    Some(decimal(mb as nat) + "MB"@)
                } else {
                    None
                },
                None => None,
            },
            None => None,
        }
    })
}

/// The memory limit to run the engine with, when the workspace's settings hold
/// one and the environment has none of its own.
pub fn workspace_memory_limit(current: Option<&str>, settings: Option<&str>) -> (r: Option<String>)
    ensures
        is_memory_limit(current, settings, r),
{
    if let Some(c) = current {
        if !c.is_empty() {
            return None;
        }
    }
    let t = match settings {
        Some(t) => t,
        None => {
            return None;
        },
    };
    match parse(t) {
        Ok(v) => match count(field(Some(&v), "memory_limit_mb")) {
            Some(mb) => if mb > 0 {
                let n = decimal_of(mb);
                Some(glue2(n.as_str(), "MB"))
            } else {
                None
            },
            None => None,
        },
        Err(_) => None,
    }
}

/// A pipeline is a document with a list of nodes.
pub proof fn law_what_counts_as_a_pipeline(m: Seq<(Seq<char>, Doc)>)
    ensures
        is_pipeline(Doc::Object(m)) <==> (member(m, "nodes"@) matches Some(Doc::List(_))),
        !is_pipeline(Doc::Null),
{
}

/// Every file that holds a pipeline is found, with its path and its document, and
/// goes by the name of the file without its extension; no other file is.
pub proof fn law_which_pipelines_are_found(files: Seq<WorkspaceFile>, f: WorkspaceFile, windows: bool)
    ensures
        pipelines_among(Seq::empty(), windows).len() == 0,
        json_in(f.text@) is None ==> pipelines_among(files.push(f), windows) == pipelines_among(
            files,
            windows,
        ),
        json_in(f.text@) matches Some(d) ==> pipelines_among(files.push(f), windows) == (if is_pipeline(
            d,
        ) {
            pipelines_among(files, windows).push(
                PipelineView { path: f.path@, id: stem(last_segment(f.path@, windows)), doc: d },
            )
        } else {
            pipelines_among(files, windows)
        }),
{
    assert(files.push(f).drop_last() == files);
}

/// The repository's name for a thing is the last one given to its id that is not
/// blank.
pub proof fn law_what_things_are_called(
    items: Seq<Doc>,
    m: Seq<(Seq<char>, Doc)>,
    id: Seq<char>,
    name: Seq<char>,
)
    requires
        member(m, "id"@) == Some(Doc::Text(id)),
        member(m, "name"@) == Some(Doc::Text(name)),
    ensures
        names_among(Seq::empty()) == Map::<Seq<char>, Seq<char>>::empty(),
        trimmed(name).len() > 0 ==> names_among(items.push(Doc::Object(m))) == names_among(
            items,
        ).insert(id, name),
        trimmed(name).len() == 0 ==> names_among(items.push(Doc::Object(m))) == names_among(items),
{
    assert(items.push(Doc::Object(m)).drop_last() == items);
}

/// A pipeline is shown under the repository's name for it, else under the one in
/// its document, else under its id.
pub proof fn law_what_a_pipeline_is_shown_as(
    names: Map<Seq<char>, Seq<char>>,
    id: Seq<char>,
    m: Seq<(Seq<char>, Doc)>,
    n: Seq<char>,
)
    ensures
        names.dom().contains(id) ==> display_name(names, id, Doc::Object(m)) == names[id],
        !names.dom().contains(id) && member(m, "name"@) == Some(Doc::Text(n)) && trimmed(n).len() > 0
            ==> display_name(names, id, Doc::Object(m)) == trimmed(n),
        !names.dom().contains(id) && member(m, "name"@) == Some(Doc::Text(n)) && trimmed(n).len() == 0
            ==> display_name(names, id, Doc::Object(m)) == id,
        !names.dom().contains(id) && member(m, "name"@) is None ==> display_name(
            names,
            id,
            Doc::Object(m),
        ) == id,
{
}

/// A pipeline's row says which file it is, what it is called, how large it is, how
/// it last ran, when it runs next and whether it runs now.
pub proof fn law_what_a_row_says(
    workspace: Seq<char>,
    l: Listed,
    entries: Map<Seq<char>, PanelEntry>,
    names: Map<Seq<char>, Seq<char>>,
    windows: bool,
)
    ensures
        ({
            let m = row_members(workspace, l, entries, names, windows);
            let p = l.pipeline;
            &&& m.len() == 12
            &&& member(m, "file"@) == Some(Doc::Text(relative_to(workspace, p.path@, windows)))
            &&& member(m, "id"@) == Some(Doc::Text(p.id@))
            &&& member(m, "name"@) == Some(Doc::Text(display_name(names, p.id@, p.doc@)))
            &&& member(m, "nodeCount"@) == Some(number_doc(size_of_list(p.doc@, "nodes"@)))
            &&& member(m, "edgeCount"@) == Some(number_doc(size_of_list(p.doc@, "edges"@)))
            &&& member(m, "running"@) == Some(Doc::Bool(l.running))
            &&& l.last matches Some(x) ==> {
                &&& member(m, "lastStatus"@) == Some(Doc::Text(x.status@))
                &&& member(m, "lastAt"@) == Some(Doc::Text(x.at@))
                &&& member(m, "lastDurationMs"@) == Some(Doc::Number(x.duration_ms))
                &&& member(m, "lastRows"@) == Some(number_or_null(x.rows))
            }
            &&& l.last is None ==> {
                &&& member(m, "lastStatus"@) == Some(Doc::Null)
                &&& member(m, "lastAt"@) == Some(Doc::Null)
                &&& member(m, "lastDurationMs"@) == Some(Doc::Null)
                &&& member(m, "lastRows"@) == Some(Doc::Null)
            }
            &&& l.next_at matches Some(t) ==> member(m, "nextRunAt"@) == Some(Doc::Text(t@))
            &&& l.next_at is None ==> member(m, "nextRunAt"@) == Some(Doc::Null)
            &&& entries.dom().contains(p.id@) ==> member(m, "schedule"@) == Some(
                Doc::Object(panel_members(entries[p.id@]@)),
            )
            &&& !entries.dom().contains(p.id@) ==> member(m, "schedule"@) == Some(
                Doc::Object(
                    seq![
                        ("enabled"@, Doc::Bool(false)),
                        ("intervalSeconds"@, Doc::Number(0)),
                        ("intervalMinutes"@, Doc::Number(0)),
                    ],
                ),
            )
        }),
{
    reveal_strlit("file");
    reveal_strlit("id");
    reveal_strlit("name");
    reveal_strlit("nodeCount");
    reveal_strlit("edgeCount");
    reveal_strlit("lastStatus");
    reveal_strlit("lastAt");
    reveal_strlit("lastDurationMs");
    reveal_strlit("lastRows");
    reveal_strlit("schedule");
    reveal_strlit("running");
    reveal_strlit("nextRunAt");
    assert("file"@.len() == 4);
    assert("id"@.len() == 2);
    assert("name"@.len() == 4);
    assert("nodeCount"@.len() == 9);
    assert("edgeCount"@.len() == 9);
    assert("lastStatus"@.len() == 10);
    assert("lastAt"@.len() == 6);
    assert("lastDurationMs"@.len() == 14);
    assert("lastRows"@.len() == 8);
    assert("schedule"@.len() == 8);
    assert("running"@.len() == 7);
    assert("nextRunAt"@.len() == 9);
    assert("file"@[0] == 'f' && "name"@[0] == 'n');
    assert("nodeCount"@[0] == 'n' && "edgeCount"@[0] == 'e');
    assert("nodeCount"@[1] == 'o' && "nextRunAt"@[1] == 'e');
    assert("edgeCount"@[0] == 'e' && "nextRunAt"@[0] == 'n');
    assert("lastRows"@[0] == 'l' && "schedule"@[0] == 's');
    let m = row_members(workspace, l, entries, names, windows);
    law_a_member_is_found_by_its_name(m, 0);
    law_a_member_is_found_by_its_name(m, 1);
    law_a_member_is_found_by_its_name(m, 2);
    law_a_member_is_found_by_its_name(m, 3);
    law_a_member_is_found_by_its_name(m, 4);
    law_a_member_is_found_by_its_name(m, 5);
    law_a_member_is_found_by_its_name(m, 6);
    law_a_member_is_found_by_its_name(m, 7);
    law_a_member_is_found_by_its_name(m, 8);
    law_a_member_is_found_by_its_name(m, 9);
    law_a_member_is_found_by_its_name(m, 10);
    law_a_member_is_found_by_its_name(m, 11);
}

/// A list is as long as it is, and what is none has no length.
pub proof fn law_how_long_lists_are(m: Seq<(Seq<char>, Doc)>, k: Seq<char>, v: Seq<Doc>)
    ensures
        member(m, k) == Some(Doc::List(v)) ==> size_of_list(Doc::Object(m), k) == v.len(),
        member(m, k) is None ==> size_of_list(Doc::Object(m), k) == 0,
{
}

/// Good runs are those that ended in `ok`, and every run is good or failed.
pub proof fn law_which_runs_are_good(records: Seq<RunRecord>, r: RunRecord)
    ensures
        good_runs(Seq::empty()) == 0,
        r.status@ == "ok"@ ==> good_runs(records.push(r)) == good_runs(records) + 1,
        r.status@ != "ok"@ ==> good_runs(records.push(r)) == good_runs(records),
{
    assert(records.push(r).drop_last() == records);
}

/// The totals count the pipelines and the runs, and split the runs in good and
/// failed.
pub proof fn law_what_the_totals_say(n: nat, records: Seq<RunRecord>, workspace: Seq<char>)
    requires
        n <= u64::MAX,
        good_runs(records) <= records.len() <= u64::MAX,
    ensures
        ({
            let m = summary_members(n, records, workspace);
            &&& m.len() == 5
            &&& member(m, "pipelineCount"@) == Some(Doc::Number(n as u64))
            &&& member(m, "totalRuns"@) == Some(Doc::Number(records.len() as u64))
            &&& member(m, "ok"@) == Some(Doc::Number(good_runs(records) as u64))
            &&& member(m, "failed"@) == Some(
                Doc::Number((records.len() - good_runs(records)) as u64),
            )
            &&& member(m, "workspace"@) == Some(Doc::Text(workspace))
        }),
{
    reveal_strlit("pipelineCount");
    reveal_strlit("totalRuns");
    reveal_strlit("ok");
    reveal_strlit("failed");
    reveal_strlit("workspace");
    assert("pipelineCount"@.len() == 13);
    assert("totalRuns"@.len() == 9);
    assert("ok"@.len() == 2);
    assert("failed"@.len() == 6);
    assert("workspace"@.len() == 9);
    assert("totalRuns"@[0] == 't' && "workspace"@[0] == 'w');
    let m = summary_members(n, records, workspace);
    law_a_member_is_found_by_its_name(m, 0);
    law_a_member_is_found_by_its_name(m, 1);
    law_a_member_is_found_by_its_name(m, 2);
    law_a_member_is_found_by_its_name(m, 3);
    law_a_member_is_found_by_its_name(m, 4);
}

/// A run's row says which pipeline it was of, when and how it ran, and what went
/// wrong.
pub proof fn law_what_a_run_says(
    workspace: Seq<char>,
    p: PipelineView,
    names: Map<Seq<char>, Seq<char>>,
    r: RunRecord,
    windows: bool,
)
    ensures
        ({
            let m = run_members(workspace, p, names, r, windows);
            &&& m.len() == 11
            &&& member(m, "id"@) == Some(Doc::Text(p.id))
            &&& member(m, "name"@) == Some(Doc::Text(display_name(names, p.id, p.doc)))
            &&& member(m, "file"@) == Some(Doc::Text(relative_to(workspace, p.path, windows)))
            &&& member(m, "at"@) == Some(Doc::Text(r.at@))
            &&& member(m, "status"@) == Some(Doc::Text(r.status@))
            &&& member(m, "durationMs"@) == Some(Doc::Number(r.duration_ms))
            &&& member(m, "nodeCount"@) == Some(Doc::Number(r.node_count))
            &&& member(m, "trigger"@) == Some(Doc::Text(r.trigger@))
            &&& member(m, "rows"@) == Some(
                match r.rows {
                    Some(n) => Doc::Number(n),
                    None => Doc::Null,
                },
            )
            &&& member(m, "error"@) == Some(
                match r.error {
                    Some(e) => Doc::Text(e@),
                    None => Doc::Null,
                },
            )
            &&& member(m, "category"@) == Some(
                match r.category {
                    Some(e) => Doc::Text(e@),
                    None => Doc::Null,
                },
            )
        }),
{
    reveal_strlit("id");
    reveal_strlit("name");
    reveal_strlit("file");
    reveal_strlit("at");
    reveal_strlit("status");
    reveal_strlit("durationMs");
    reveal_strlit("rows");
    reveal_strlit("nodeCount");
    reveal_strlit("trigger");
    reveal_strlit("error");
    reveal_strlit("category");
    assert("id"@.len() == 2);
    assert("name"@.len() == 4);
    assert("file"@.len() == 4);
    assert("at"@.len() == 2);
    assert("status"@.len() == 6);
    assert("durationMs"@.len() == 10);
    assert("rows"@.len() == 4);
    assert("nodeCount"@.len() == 9);
    assert("trigger"@.len() == 7);
    assert("error"@.len() == 5);
    assert("category"@.len() == 8);
    assert("id"@[0] == 'i' && "at"@[0] == 'a');
    assert("name"@[0] == 'n' && "file"@[0] == 'f');
    assert("name"@[0] == 'n' && "rows"@[0] == 'r');
    assert("file"@[0] == 'f' && "rows"@[0] == 'r');
    let m = run_members(workspace, p, names, r, windows);
    law_a_member_is_found_by_its_name(m, 0);
    law_a_member_is_found_by_its_name(m, 1);
    law_a_member_is_found_by_its_name(m, 2);
    law_a_member_is_found_by_its_name(m, 3);
    law_a_member_is_found_by_its_name(m, 4);
    law_a_member_is_found_by_its_name(m, 5);
    law_a_member_is_found_by_its_name(m, 6);
    law_a_member_is_found_by_its_name(m, 7);
    law_a_member_is_found_by_its_name(m, 8);
    law_a_member_is_found_by_its_name(m, 9);
    law_a_member_is_found_by_its_name(m, 10);
}

/// All runs of every pipeline are listed, or all of the one that was asked for and
/// no other.
pub proof fn law_which_runs_are_listed(
    workspace: Seq<char>,
    histories: Seq<History>,
    only: Option<Seq<char>>,
    names: Map<Seq<char>, Seq<char>>,
    windows: bool,
    h: int,
    k: int,
)
    requires
        0 <= h < histories.len(),
        0 <= k < histories[h].records@.len(),
        only is None || only == Some(histories[h].pipeline.id@),
    ensures
        runs_among(workspace, histories, only, names, windows).contains(
            (
                histories[h].records@[k].at@,
                Doc::Object(
                    run_members(
                        workspace,
                        histories[h].pipeline@,
                        names,
                        histories[h].records@[k],
                        windows,
                    ),
                ),
            ),
        ),
    decreases histories.len(),
{
    let before = histories.drop_last();
    let all = runs_among(workspace, histories, only, names, windows);
    let first = runs_among(workspace, before, only, names, windows);
    let row = (
        histories[h].records@[k].at@,
        Doc::Object(
            run_members(workspace, histories[h].pipeline@, names, histories[h].records@[k], windows),
        ),
    );
    if h == histories.len() - 1 {
        assert(all[first.len() + k] == row);
    } else {
        assert(before[h] == histories[h]);
        law_which_runs_are_listed(workspace, before, only, names, windows, h, k);
        let i = choose|i: int| 0 <= i < first.len() && first[i] == row;
        assert(all[i] == row);
    }
}

/// Runs of other pipelines than the one asked for add nothing to the list.
pub proof fn law_other_runs_are_left_out(
    workspace: Seq<char>,
    histories: Seq<History>,
    id: Seq<char>,
    names: Map<Seq<char>, Seq<char>>,
    windows: bool,
    h: History,
)
    ensures
        runs_among(workspace, Seq::empty(), Some(id), names, windows).len() == 0,
        h.pipeline.id@ != id ==> runs_among(workspace, histories.push(h), Some(id), names, windows)
            == runs_among(workspace, histories, Some(id), names, windows),
        h.pipeline.id@ == id ==> runs_among(workspace, histories.push(h), Some(id), names, windows).len()
            == runs_among(workspace, histories, Some(id), names, windows).len() + h.records@.len(),
{
    assert(histories.push(h).drop_last() == histories);
}

/// Runs are listed from the newest to the oldest, each of them once.
pub proof fn law_the_newest_run_comes_first(list: Seq<Doc>, rows: Seq<(Seq<char>, Doc)>)
    requires
        newest_first(list, rows),
    ensures
        list.len() == rows.len(),
        exists|order: Seq<usize>|
            #![trigger order.len()]
            order.len() == rows.len() && forall|i: int, j: int|
                0 <= i < j < order.len() ==> {
                    &&& order[i] < rows.len()
                    &&& order[j] < rows.len()
                    &&& list[i] == rows[order[i] as int].1
                    &&& list[j] == rows[order[j] as int].1
                    &&& rows[#[trigger] order[i] as int].0 == rows[#[trigger] order[j] as int].0
                        || precedes(rows[order[j] as int].0, rows[order[i] as int].0)
                },
{
    let order = choose|order: Seq<usize>|
        #[trigger] is_order(order, times(rows), true) && list == arranged(values(rows), order);
    assert forall|i: int, j: int| 0 <= i < j < order.len() implies {
        &&& order[i] < rows.len()
        &&& order[j] < rows.len()
        &&& list[i] == rows[order[i] as int].1
        &&& list[j] == rows[order[j] as int].1
        &&& rows[#[trigger] order[i] as int].0 == rows[#[trigger] order[j] as int].0 || precedes(
            rows[order[j] as int].0,
            rows[order[i] as int].0,
        )
    } by {
        assert(listed_before(times(rows), true, order[i] as int, order[j] as int));
        assert(times(rows)[order[i] as int] == rows[order[i] as int].0);
        assert(times(rows)[order[j] as int] == rows[order[j] as int].0);
    }
    assert(order.len() == rows.len());
}

/// The end of a log is its last lines with something on them, as many as were
/// asked for, in the order they were written.
pub proof fn law_what_the_end_of_a_log_is(text: Seq<char>, tail: nat, i: int)
    ensures
        ({
            let all = lines(text).filter(|l: Seq<char>| trimmed(l).len() > 0);
            let sent = log_entries(text, tail);
            &&& sent.len() == (if tail < all.len() {
                tail
            } else {
                all.len()
            })
            &&& 0 <= i < sent.len() ==> sent[i] == (match json_in(
                all[all.len() - sent.len() + i],
            ) {
                Some(d) => d,
                None => Doc::Object(seq![("raw"@, Doc::Text(all[all.len() - sent.len() + i]))]),
            })
        }),
{
    let all = lines(text).filter(|l: Seq<char>| trimmed(l).len() > 0);
    assert(written_lines(lines(text)) == all);
}

/// As many lines are sent as were asked for, and two hundred where nothing usable
/// was.
pub proof fn law_how_many_lines_are_sent(n: nat)
    requires
        n <= usize::MAX,
    ensures
        wanted_lines(Some(decimal(n))) == n,
        wanted_lines(None) == 200,
{
    law_decimal_reads_back(n);
}

/// A folder is named by its pipeline, with what is neither a letter, a digit nor
/// one of `-`, `_` and `.` made an underscore.
pub proof fn law_what_a_log_folder_is_called(name: Seq<char>, i: int)
    requires
        0 <= i < name.len(),
    ensures
        folder_name(name).len() == name.len(),
        folder_name(name)[i] == (if is_letter_or_digit(name[i]) || name[i] == '-' || name[i] == '_'
            || name[i] == '.' {
            name[i]
        } else {
            '_'
        }),
        folder_name(Seq::empty()) == "pipeline"@,
{
}

/// The entry of an asset says who writes it, who reads it and whose it is.
pub proof fn law_what_an_asset_says(
    touched: Seq<Touch>,
    a: Asset,
    owners: Map<Seq<char>, Seq<char>>,
    i: int,
)
    ensures
        ({
            let m = asset_members(touched, a, owners);
            &&& m.len() == 5
            &&& member(m, "id"@) == Some(Doc::Text(a.id@))
            &&& member(m, "kind"@) == Some(Doc::Text(a.kind@))
            &&& member(m, "writtenBy"@) == Some(
                texts_doc(
                    touched.filter(touches(a.id@, Direction::Write)).map_values(
                        |t: Touch| t.pipeline_id@,
                    ),
                ),
            )
            &&& member(m, "readBy"@) == Some(
                texts_doc(
                    touched.filter(touches(a.id@, Direction::Read)).map_values(
                        |t: Touch| t.pipeline_id@,
                    ),
                ),
            )
            &&& owners.dom().contains(a.id@) ==> member(m, "owner"@) == Some(Doc::Text(owners[a.id@]))
            &&& !owners.dom().contains(a.id@) ==> member(m, "owner"@) == Some(Doc::Null)
        }),
{
    reveal_strlit("id");
    reveal_strlit("kind");
    reveal_strlit("writtenBy");
    reveal_strlit("readBy");
    reveal_strlit("owner");
    assert("id"@.len() == 2);
    assert("kind"@.len() == 4);
    assert("writtenBy"@.len() == 9);
    assert("readBy"@.len() == 6);
    assert("owner"@.len() == 5);
    let m = asset_members(touched, a, owners);
    law_a_member_is_found_by_its_name(m, 0);
    law_a_member_is_found_by_its_name(m, 1);
    law_a_member_is_found_by_its_name(m, 2);
    law_a_member_is_found_by_its_name(m, 3);
    law_a_member_is_found_by_its_name(m, 4);
}

/// What a node of a run came to, under its own name.
pub proof fn law_what_a_node_came_to(n: NodeResult)
    ensures
        node_doc(n) matches Doc::Object(m) && {
            &&& m.len() == 5
            &&& member(m, "id"@) == Some(Doc::Text(n.id@))
            &&& member(m, "status"@) == Some(Doc::Text(n.status@))
            &&& member(m, "rows"@) == Some(
                match n.rows {
                    Some(x) => Doc::Number(x),
                    None => Doc::Null,
                },
            )
            &&& member(m, "durationMs"@) == Some(
                match n.duration_ms {
                    Some(x) => Doc::Number(x),
                    None => Doc::Null,
                },
            )
            &&& member(m, "error"@) == Some(
                match n.error {
                    Some(x) => Doc::Text(x@),
                    None => Doc::Null,
                },
            )
        },
{
    reveal_strlit("id");
    reveal_strlit("status");
    reveal_strlit("rows");
    reveal_strlit("durationMs");
    reveal_strlit("error");
    assert("id"@.len() == 2);
    assert("status"@.len() == 6);
    assert("rows"@.len() == 4);
    assert("durationMs"@.len() == 10);
    assert("error"@.len() == 5);
    let m = node_doc(n)->Object_0;
    law_a_member_is_found_by_its_name(m, 0);
    law_a_member_is_found_by_its_name(m, 1);
    law_a_member_is_found_by_its_name(m, 2);
    law_a_member_is_found_by_its_name(m, 3);
    law_a_member_is_found_by_its_name(m, 4);
}

/// A file gives its document where that is a pipeline, and says what it is not
/// otherwise.
pub proof fn law_what_a_pipeline_file_gives(
    file: &str,
    path: &str,
    content: &str,
    d: Doc,
    e: Seq<char>,
    r: Result<Json, String>,
)
    requires
        is_read_pipeline(file, path, content, r),
    ensures
        json_read(content@) == Ok::<Doc, Seq<char>>(d) && is_pipeline(d) ==> (r matches Ok(v) && v@
            == d),
        json_read(content@) == Ok::<Doc, Seq<char>>(d) && !is_pipeline(d) ==> (r matches Err(why)
            && why@ == file@ + " is not a pipeline"@),
        json_read(content@) == Err::<Doc, Seq<char>>(e) ==> (r matches Err(why) && why@ == "parse "@
            + path@ + ": "@ + e),
{
}

/// A scheduled run came to what it reported; one that could not start is an error
/// that is alerted.
pub proof fn law_what_a_scheduled_run_came_to(v: Json, m: Seq<(Seq<char>, Doc)>, e: String, r: ScheduledOutcome)
    ensures
        is_outcome(&Err(e), r) ==> r.status@ == "error"@ && r.duration_ms == 0 && r.error is Some && (
        r.error->0)@ == e@ && r.alert,
        is_outcome(&Ok(v), r) ==> !r.alert,
        is_outcome(&Ok(v), r) && v@ == Doc::Object(m) ==> {
            &&& member(m, "status"@) matches Some(Doc::Text(s)) ==> r.status@ == s
            &&& member(m, "durationMs"@) matches Some(Doc::Number(n)) ==> r.duration_ms == n
            &&& member(m, "error"@) matches Some(Doc::Text(t)) ==> r.error is Some && (r.error->0)@ == t
            &&& member(m, "error"@) is None ==> r.error is None
        },
{
}

/// A memory limit that is set already counts; otherwise the workspace's own does,
/// in megabytes.
pub proof fn law_which_memory_limit_counts(
    current: &str,
    settings: &str,
    m: Seq<(Seq<char>, Doc)>,
    mb: u64,
    r: Option<String>,
)
    requires
        json_in(settings@) == Some(Doc::Object(m)),
        member(m, "memory_limit_mb"@) == Some(Doc::Number(mb)),
    ensures
        current@.len() > 0 && is_memory_limit(Some(current), Some(settings), r) ==> r is None,
        is_memory_limit(None, Some(settings), r) && mb > 0 ==> r is Some && (r->0)@ == decimal(
            mb as nat,
        ) + "MB"@,
        is_memory_limit(None, Some(settings), r) && mb == 0 ==> r is None,
        current@.len() == 0 ==> is_memory_limit(Some(current), Some(settings), r) == is_memory_limit(
            None,
            Some(settings),
            r,
        ),
        is_memory_limit(None, None, r) ==> r is None,
{
}

/// A log is asked for by the id of its pipeline; without one there is none.
pub proof fn law_which_log_is_sent(
    query: &TextMap<String>,
    workspace: &str,
    log: &str,
    windows: bool,
    r: Json,
)
    ensures
        is_log(query, workspace, Some(log), windows, r) && !map_texts(query@).dom().contains("id"@)
            ==> r@ == Doc::Object(seq![("entries"@, Doc::List(Seq::empty()))]),
        is_log(query, workspace, Some(log), windows, r) && map_texts(query@).dom().contains("id"@)
            && !map_texts(query@).dom().contains("tail"@) ==> r@ == Doc::Object(
            seq![
                ("entries"@, Doc::List(log_entries(log@, 200))),
                (
                    "file"@,
                    Doc::Text(
                        under(
                            under(
                                under(workspace@, "logs"@, windows),
                                folder_name(map_texts(query@)["id"@]),
                                windows,
                            ),
                            "runtime.log"@,
                            windows,
                        ),
                    ),
                ),
            ],
        ),
{
}

/// Pipelines are listed by name, upper and lower case alike, and each of them once.
pub proof fn law_pipelines_are_listed_by_name(after: Seq<PipelineView>, before: Seq<PipelineView>)
    requires
        listed_by_name(after, before),
    ensures
        after.len() == before.len(),
        forall|i: int, j: int|
            0 <= i < j < after.len() ==> lowercase_of((#[trigger] after[i]).id) == lowercase_of(
                (#[trigger] after[j]).id,
            ) || precedes(lowercase_of(after[i].id), lowercase_of(after[j].id)),
        forall|i: int| 0 <= i < after.len() ==> before.contains(#[trigger] after[i]),
{
    let order = choose|order: Seq<usize>|
        #[trigger] is_order(order, listing_keys(before), false) && after == arranged(before, order);
    let keys = listing_keys(before);
    assert forall|i: int, j: int| 0 <= i < j < after.len() implies lowercase_of(
        (#[trigger] after[i]).id,
    ) == lowercase_of((#[trigger] after[j]).id) || precedes(
        lowercase_of(after[i].id),
        lowercase_of(after[j].id),
    ) by {
        assert(listed_before(keys, false, order[i] as int, order[j] as int));
        assert(after[i] == before[order[i] as int]);
        assert(after[j] == before[order[j] as int]);
    }
    assert forall|i: int| 0 <= i < after.len() implies before.contains(#[trigger] after[i]) by {
        assert(order[i] < keys.len());
        assert(after[i] == before[order[i] as int]);
    }
}

/// How a run ended is told by its id, its status, how long it took, what went
/// wrong, and each of its nodes in turn.
pub proof fn law_what_a_report_says(
    id: Seq<char>,
    status: Seq<char>,
    duration_ms: u64,
    error: Option<Seq<char>>,
    nodes: Seq<NodeResult>,
    i: int,
)
    ensures
        ({
            let m = report_members(id, status, duration_ms, error, nodes);
            &&& member(m, "id"@) == Some(Doc::Text(id))
            &&& member(m, "status"@) == Some(Doc::Text(status))
            &&& member(m, "durationMs"@) == Some(number_doc(duration_ms as nat))
            &&& error matches Some(e) ==> member(m, "error"@) == Some(Doc::Text(e))
            &&& error is None ==> member(m, "error"@) == Some(Doc::Null)
            &&& member(m, "nodes"@) matches Some(Doc::List(v)) && v.len() == nodes.len() && (0 <= i
                < nodes.len() ==> v[i] == node_doc(nodes[i]))
        }),
{
    reveal_strlit("id");
    reveal_strlit("status");
    reveal_strlit("durationMs");
    reveal_strlit("error");
    reveal_strlit("nodes");
    let m = report_members(id, status, duration_ms, error, nodes);
    assert("id"@.len() == 2 && "status"@.len() == 6 && "durationMs"@.len() == 10);
    assert("error"@.len() == 5 && "nodes"@.len() == 5 && "error"@[0] == 'e' && "nodes"@[0] == 'n');
    law_a_member_is_found_by_its_name(m, 0);
    law_a_member_is_found_by_its_name(m, 1);
    law_a_member_is_found_by_its_name(m, 2);
    law_a_member_is_found_by_its_name(m, 3);
    law_a_member_is_found_by_its_name(m, 4);
}

/// The catalog lists each asset, counts the pipelines and what could not be
/// resolved, and says whether owners are known.
pub proof fn law_what_the_catalog_says(
    catalog: Catalog,
    owners: Map<Seq<char>, Seq<char>>,
    has_owners: bool,
    i: int,
)
    ensures
        ({
            let m = catalog_members(catalog, owners, has_owners);
            &&& member(m, "assets"@) matches Some(Doc::List(v)) && v.len() == catalog.assets@.len() && (0
                <= i < v.len() ==> v[i] == Doc::Object(
                asset_members(catalog.touches@, catalog.assets@[i], owners),
            ))
            &&& member(m, "pipelines"@) == Some(number_doc(catalog.pipelines@.len()))
            &&& member(m, "orphans"@) == Some(
                texts_doc(asset_ids(catalog.assets@.filter(only_written(catalog.touches@)))),
            )
            &&& member(m, "externals"@) == Some(
                texts_doc(asset_ids(catalog.assets@.filter(only_read(catalog.touches@)))),
            )
            &&& member(m, "unresolved"@) == Some(number_doc(catalog.unresolved@.len()))
            &&& member(m, "hasOwners"@) == Some(Doc::Bool(has_owners))
        }),
{
    reveal_strlit("assets");
    reveal_strlit("pipelines");
    reveal_strlit("orphans");
    reveal_strlit("externals");
    reveal_strlit("unresolved");
    reveal_strlit("hasOwners");
    let m = catalog_members(catalog, owners, has_owners);
    assert("assets"@.len() == 6 && "orphans"@.len() == 7 && "unresolved"@.len() == 10);
    assert("pipelines"@.len() == 9 && "externals"@.len() == 9 && "hasOwners"@.len() == 9);
    assert("pipelines"@[0] == 'p' && "externals"@[0] == 'e' && "hasOwners"@[0] == 'h');
    law_a_member_is_found_by_its_name(m, 0);
    law_a_member_is_found_by_its_name(m, 1);
    law_a_member_is_found_by_its_name(m, 2);
    law_a_member_is_found_by_its_name(m, 3);
    law_a_member_is_found_by_its_name(m, 4);
    law_a_member_is_found_by_its_name(m, 5);
}

/// An asset is an orphan exactly when some pipeline writes it and none reads it,
/// and comes from outside exactly when some pipeline reads it and none writes it.
pub proof fn law_which_assets_stand_apart(catalog: Catalog, a: Asset)
    requires
        catalog.assets@.contains(a),
    ensures
        catalog.assets@.filter(only_written(catalog.touches@)).contains(a) <==> (exists|i: int|
            0 <= i < catalog.touches@.len() && (#[trigger] catalog.touches@[i]).asset@ == a.id@
                && catalog.touches@[i].direction == Direction::Write) && (forall|i: int|
            0 <= i < catalog.touches@.len() && (#[trigger] catalog.touches@[i]).asset@ == a.id@
                ==> catalog.touches@[i].direction == Direction::Write),
        catalog.assets@.filter(only_read(catalog.touches@)).contains(a) <==> (exists|i: int|
            0 <= i < catalog.touches@.len() && (#[trigger] catalog.touches@[i]).asset@ == a.id@
                && catalog.touches@[i].direction == Direction::Read) && (forall|i: int|
            0 <= i < catalog.touches@.len() && (#[trigger] catalog.touches@[i]).asset@ == a.id@
                ==> catalog.touches@[i].direction == Direction::Read),
{
    let ts = catalog.touches@;
    let all = catalog.assets@;
    law_what_is_one_sided(ts, a);
    let k = choose|k: int| 0 <= k < all.len() && all[k] == a;
    let orphans = all.filter(only_written(ts));
    let externals = all.filter(only_read(ts));
    if only_written(ts)(a) {
        all.lemma_filter_contains(only_written(ts), k);
    }
    if only_read(ts)(a) {
        all.lemma_filter_contains(only_read(ts), k);
    }
    if orphans.contains(a) {
        let j = choose|j: int| 0 <= j < orphans.len() && orphans[j] == a;
        all.lemma_filter_pred(only_written(ts), j);
    }
    if externals.contains(a) {
        let j = choose|j: int| 0 <= j < externals.len() && externals[j] == a;
        all.lemma_filter_pred(only_read(ts), j);
    }
}

/// The pipelines are sent under their one name, a row for each, in the order in
/// which they are listed.
pub proof fn law_what_the_pipelines_page_says(
    workspace: Seq<char>,
    rows: Seq<Listed>,
    entries: Map<Seq<char>, PanelEntry>,
    names: Map<Seq<char>, Seq<char>>,
    windows: bool,
    i: int,
)
    ensures
        field_in(Some(pipelines_doc(workspace, rows, entries, names, windows)), "pipelines"@) matches Some(
            Doc::List(v),
        ) && v.len() == rows.len() && (0 <= i < rows.len() ==> v[i] == Doc::Object(
            row_members(workspace, rows[i], entries, names, windows),
        )),
{
    if let Doc::Object(m) = pipelines_doc(workspace, rows, entries, names, windows) {
        law_a_member_is_found_by_its_name(m, 0);
    }
}

} // verus!
