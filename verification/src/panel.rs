//! The console's side of the schedule store.
//!
//! The store can hold several schedules for one pipeline, and file-watch
//! schedules the console cannot express at all. Those are left strictly alone:
//! the console shows the first schedule of a pipeline that it can represent, and
//! a save edits that same record rather than replacing the pipeline's entry.
use crate::json::{
    add_member, count, count_in, field, field_in, flag, flag_in, json_in, json_text,
    law_a_member_is_found_by_its_name, member, members,
    number_doc, number_json, parse, render, text, text_in, text_json, value_opt, Doc, Json,
};
use crate::moment::{
    can_look_ahead, can_step, cron_is_valid, earlier, in_calendar, is_cron, is_earlier, later,
    local_text, next_occurrence, plus_seconds, read_rfc3339, rfc3339_in, rfc3339_text, upcoming,
    utc_text, zoned_text, Moment, LAST_SECOND, LONGEST_STEP,
};
use crate::http::map_texts;
use crate::order::TextMap;
use crate::paths::{join, under};
use crate::scheduler::{can_look, can_move, signed_step, step_of};
use crate::schedules::{copy_opt, Schedule, ScheduleKind};
use crate::text::{glue2, same, str_opt, text_opt, trim, trimmed};
use vstd::prelude::*;
use vstd::string::*;

verus! {

/// How a schedule decides it is time to run, with its texts as sequences.
pub enum KindView {
    Cron(Seq<char>),
    Interval(u64),
    FileWatch(Seq<char>, bool),
}

/// How a schedule decides it is time to run.
pub open spec fn kind_view(k: ScheduleKind) -> KindView {
    match k {
        ScheduleKind::Cron { expr } => KindView::Cron(expr@),
        ScheduleKind::Interval { seconds } => KindView::Interval(seconds),
        ScheduleKind::FileWatch { path, recursive } => KindView::FileWatch(path@, recursive),
    }
}

/// Whether `s` is a record that the console added for a pipeline.
pub open spec fn is_fresh(s: Schedule, pipeline: Seq<char>, enabled: bool, kind: KindView) -> bool {
    &&& s.id@ == "panel-"@ + pipeline
    &&& s.pipeline_id@ == pipeline
    &&& s.name@ == pipeline
    &&& s.enabled == enabled
    &&& kind_view(s.kind) == kind
    &&& s.last_run_at is None
    &&& s.last_run_status is None
    &&& s.last_run_duration_ms is None
    &&& s.last_run_error is None
    &&& s.next_run_at is None
}

/// A record that the console adds for a pipeline.
fn fresh(pipeline: &str, enabled: bool, kind: ScheduleKind) -> (r: Schedule)
    ensures
        is_fresh(r, pipeline@, enabled, kind_view(kind)),
{
    Schedule {
        id: glue2("panel-", pipeline),
        pipeline_id: pipeline.to_owned(),
        name: pipeline.to_owned(),
        enabled,
        kind,
        last_run_at: None,
        last_run_status: None,
        last_run_duration_ms: None,
        last_run_error: None,
        next_run_at: None,
    }
}

/// Where the console's own store used to live. Only read, and only to carry an
/// existing install's schedules across once.
pub fn legacy_schedules_path(workspace: &str, windows: bool) -> (r: String)
    ensures
        r@ == under(workspace@, "panel-schedules.json"@, windows),
{
    join(workspace, "panel-schedules.json", windows)
}

// ---------------------------------------------------------------------------
// What the console shows
// ---------------------------------------------------------------------------

/// What the console shows of one pipeline's schedule. The seconds are the value
/// as it is stored; a non-empty cron takes precedence over them.
#[derive(Debug)]
pub struct PanelEntry {
    pub id: String,
    pub enabled: bool,
    pub interval_seconds: u64,
    pub cron: String,
}

/// What the console shows of a schedule, with its texts as sequences.
pub struct PanelView {
    pub id: Seq<char>,
    pub enabled: bool,
    pub seconds: u64,
    pub cron: Seq<char>,
}

impl View for PanelEntry {
    type V = PanelView;

    open spec fn view(&self) -> PanelView {
        PanelView {
            id: self.id@,
            enabled: self.enabled,
            seconds: self.interval_seconds,
            cron: self.cron@,
        }
    }
}

/// What the console shows of a schedule; nothing of a file watch.
pub open spec fn shown(s: Schedule) -> Option<PanelView> {
    match s.kind {
        ScheduleKind::Cron { expr } => Some(
            PanelView { id: s.id@, enabled: s.enabled, seconds: 0, cron: expr@ },
        ),
        ScheduleKind::Interval { seconds } => Some(
            PanelView { id: s.id@, enabled: s.enabled, seconds, cron: Seq::empty() },
        ),
        ScheduleKind::FileWatch { .. } => None,
    }
}

/// What the console shows for a pipeline: the first of its schedules that can be
/// shown.
pub open spec fn panel_entry(list: Seq<Schedule>, pipeline: Seq<char>) -> Option<PanelView>
    decreases list.len(),
{
    if list.len() == 0 {
        None
    } else {
        match panel_entry(list.drop_last(), pipeline) {
            Some(p) => Some(p),
            None => if list.last().pipeline_id@ == pipeline {
                shown(list.last())
            } else {
                None
            },
        }
    }
}

/// Whether a map holds what the console shows for every pipeline.
pub open spec fn shows(m: Map<Seq<char>, PanelEntry>, list: Seq<Schedule>) -> bool {
    forall|p: Seq<char>|
        match #[trigger] panel_entry(list, p) {
            Some(v) => m.dom().contains(p) && m[p]@ == v,
            None => !m.dom().contains(p),
        }
}

/// What the console shows, by pipeline.
pub fn load_schedules(list: &Vec<Schedule>) -> (r: TextMap<PanelEntry>)
    ensures
        shows(r@, list@),
{
    let mut out: TextMap<PanelEntry> = TextMap::new();
    let mut i: usize = 0;
    while i < list.len()
        invariant
            i <= list@.len(),
            shows(out@, list@.take(i as int)),
        decreases list@.len() - i,
    {
        let s = &list[i];
        let ghost before = out@;
        let ghost seen = list@.take(i as int);
        proof {
            assert(list@.take(i + 1).drop_last() == seen);
            assert(list@.take(i + 1).last() == *s);
            assert forall|p: Seq<char>| #[trigger]
                panel_entry(list@.take(i + 1), p) == match panel_entry(seen, p) {
                    Some(v) => Some(v),
                    None => if s.pipeline_id@ == p {
                        shown(*s)
                    } else {
                        None
                    },
                } by {}
            assert(panel_entry(seen, s.pipeline_id@) is Some <==> before.dom().contains(
                s.pipeline_id@,
            ));
        }
        if !out.has(s.pipeline_id.as_str()) {
            match &s.kind {
                ScheduleKind::Cron { expr } => {
                    out.insert(
                        s.pipeline_id.clone(),
                        PanelEntry {
                            id: s.id.clone(),
                            enabled: s.enabled,
                            interval_seconds: 0,
                            cron: expr.clone(),
                        },
                    );
                },
                ScheduleKind::Interval { seconds } => {
                    let cron = String::new();
                    assert(cron@ == Seq::<char>::empty());
                    out.insert(
                        s.pipeline_id.clone(),
                        PanelEntry {
                            id: s.id.clone(),
                            enabled: s.enabled,
                            interval_seconds: *seconds,
                            cron,
                        },
                    );
                },
                ScheduleKind::FileWatch { .. } => {},
            }
        }
        i = i + 1;
    }
    assert(list@.take(i as int) == list@);
    out
}

/// What the console shows of a schedule, as it is sent. The minutes are rounded
/// down, for a page that knows no seconds.
pub open spec fn panel_members(v: PanelView) -> Seq<(Seq<char>, Doc)> {
    seq![
        ("id"@, Doc::Text(v.id)),
        ("enabled"@, Doc::Bool(v.enabled)),
        ("intervalSeconds"@, number_doc(v.seconds as nat)),
        ("intervalMinutes"@, number_doc((v.seconds / 60) as nat)),
        ("cron"@, Doc::Text(v.cron)),
    ]
}

/// What the console shows of a schedule, as it is sent.
pub fn panel_json(e: &PanelEntry) -> (r: Json)
    ensures
        r@ == Doc::Object(panel_members(e@)),
{
    let mut m: Vec<(String, Json)> = Vec::new();
    add_member(&mut m, "id", text_json(e.id.as_str()));
    add_member(&mut m, "enabled", Json::Bool(e.enabled));
    add_member(&mut m, "intervalSeconds", number_json(e.interval_seconds));
    add_member(&mut m, "intervalMinutes", number_json(e.interval_seconds / 60));
    add_member(&mut m, "cron", text_json(e.cron.as_str()));
    assert(members(m@) == panel_members(e@));
    Json::Object(m)
}

// ---------------------------------------------------------------------------
// Carrying the old store over
// ---------------------------------------------------------------------------

/// A text, or nothing written.
pub open spec fn or_blank(t: Option<Seq<char>>) -> Seq<char> {
    match t {
        Some(s) => s,
        None => Seq::empty(),
    }
}

/// A number, or zero.
pub open spec fn or_zero(n: Option<u64>) -> u64 {
    match n {
        Some(x) => x,
        None => 0,
    }
}

/// A truth value, or false.
pub open spec fn or_false(b: Option<bool>) -> bool {
    match b {
        Some(x) => x,
        None => false,
    }
}

/// The trigger in an entry of the old store: its cron, or else its interval in
/// minutes, or nothing.
pub open spec fn legacy_kind(cfg: Doc) -> Option<KindView> {
    let cron = trimmed(or_blank(text_in(field_in(Some(cfg), "cron"@))));
    let minutes = or_zero(count_in(field_in(Some(cfg), "intervalMinutes"@)));
    if cron.len() > 0 {
        Some(KindView::Cron(cron))
    } else if minutes > 0 {
        Some(KindView::Interval((minutes * 60) as u64))
    } else {
        None
    }
}

/// Whether the trigger in an entry of the old store can be written down: an
/// interval, where it is the trigger, has to fit when it is written in seconds.
pub open spec fn trigger_fits(cfg: Doc) -> bool {
    trimmed(or_blank(text_in(field_in(Some(cfg), "cron"@)))).len() > 0 || or_zero(
        count_in(field_in(Some(cfg), "intervalMinutes"@)),
    ) * 60 <= u64::MAX
}

/// Whether the trigger in an entry of the old store can be written down.
pub fn interval_fits(cfg: &Json) -> (r: bool)
    ensures
        r == trigger_fits(cfg@),
{
    let cron = bare_text(text(field(Some(cfg), "cron")));
    let minutes = number_or_zero(count(field(Some(cfg), "intervalMinutes")));
    !cron.as_str().is_empty() || minutes <= u64::MAX / 60
}

/// What is carried over for one pipeline.
pub struct Import {
    pub pipeline: Seq<char>,
    pub enabled: bool,
    pub kind: KindView,
}

/// What is carried over from the old store's entries, when these pipelines
/// already have a schedule.
pub open spec fn imports(known: Set<Seq<char>>, entries: Seq<(Seq<char>, Doc)>) -> Seq<Import>
    decreases entries.len(),
{
    if entries.len() == 0 {
        Seq::empty()
    } else {
        let (pipeline, cfg) = entries[0];
        let rest = entries.drop_first();
        if known.contains(pipeline) || legacy_kind(cfg) is None {
            imports(known, rest)
        } else {
            seq![
                Import {
                    pipeline,
                    enabled: or_false(flag_in(field_in(Some(cfg), "enabled"@))),
                    kind: legacy_kind(cfg)->0,
                },
            ] + imports(known.insert(pipeline), rest)
        }
    }
}

/// Whether the triggers of those entries that are carried over can be written
/// down, when these pipelines already have a schedule.
pub open spec fn imports_fit(known: Set<Seq<char>>, entries: Seq<(Seq<char>, Doc)>) -> bool
    decreases entries.len(),
{
    if entries.len() == 0 {
        true
    } else {
        let (pipeline, cfg) = entries[0];
        let rest = entries.drop_first();
        if known.contains(pipeline) || legacy_kind(cfg) is None {
            imports_fit(known, rest)
        } else {
            trigger_fits(cfg) && imports_fit(known.insert(pipeline), rest)
        }
    }
}

/// The pipelines that have a schedule.
pub open spec fn scheduled(list: Seq<Schedule>) -> Set<Seq<char>> {
    Set::new(|p: Seq<char>| exists|i: int| 0 <= i < list.len() && (#[trigger] list[i]).pipeline_id@ == p)
}

/// A number, or zero.
fn number_or_zero(n: Option<u64>) -> (r: u64)
    ensures
        r == or_zero(n),
{
    match n {
        Some(x) => x,
        None => 0,
    }
}

/// A truth value, or false.
fn flag_or_false(b: Option<bool>) -> (r: bool)
    ensures
        r == or_false(b),
{
    match b {
        Some(x) => x,
        None => false,
    }
}

/// A text without the whitespace round it, or nothing.
fn bare_text(t: Option<&str>) -> (r: String)
    ensures
        r@ == trimmed(or_blank(str_opt(t))),
{
    match t {
        Some(s) => trim(s),
        None => {
            let none = String::new();
            assert(trimmed(Seq::<char>::empty()) == Seq::<char>::empty());
            none
        },
    }
}

/// The trigger in an entry of the old store.
fn legacy_trigger(cfg: &Json) -> (r: Option<ScheduleKind>)
    requires
        trigger_fits(cfg@),
    ensures
        match r {
            Some(k) => legacy_kind(cfg@) == Some(kind_view(k)),
            None => legacy_kind(cfg@) is None,
        },
{
    let cron = bare_text(text(field(Some(cfg), "cron")));
    let minutes = number_or_zero(count(field(Some(cfg), "intervalMinutes")));
    if !cron.as_str().is_empty() {
        Some(ScheduleKind::Cron { expr: cron })
    } else if minutes > 0 {
        Some(ScheduleKind::Interval { seconds: minutes * 60 })
    } else {
        None
    }
}

/// Whether a pipeline has a schedule.
fn has_schedule(list: &Vec<Schedule>, pipeline: &str) -> (r: bool)
    ensures
        r == scheduled(list@).contains(pipeline@),
{
    let mut i: usize = 0;
    while i < list.len()
        invariant
            i <= list@.len(),
            forall|j: int| 0 <= j < i ==> (#[trigger] list@[j]).pipeline_id@ != pipeline@,
        decreases list@.len() - i,
    {
        if same(list[i].pipeline_id.as_str(), pipeline) {
            return true;
        }
        i = i + 1;
    }
    false
}

/// Whether a list is another with these imports behind it.
pub open spec fn carried_over(before: Seq<Schedule>, after: Seq<Schedule>, added: Seq<Import>) -> bool {
    &&& after.len() == before.len() + added.len()
    &&& forall|i: int| 0 <= i < before.len() ==> (#[trigger] after[i]) == before[i]
    &&& forall|i: int|
        0 <= i < added.len() ==> is_fresh(
            after[before.len() + i],
            (#[trigger] added[i]).pipeline,
            added[i].enabled,
            added[i].kind,
        )
}

/// Whether an entry of the old store has a trigger.
fn has_trigger(cfg: &Json) -> (r: bool)
    ensures
        r == legacy_kind(cfg@) is Some,
{
    let cron = bare_text(text(field(Some(cfg), "cron")));
    let minutes = number_or_zero(count(field(Some(cfg), "intervalMinutes")));
    !cron.as_str().is_empty() || minutes > 0
}

/// Whether the old store's entries can be carried into the shared one.
pub fn import_is_possible(entries: &Vec<(String, Json)>, list: &Vec<Schedule>) -> (r: bool)
    ensures
        r == imports_fit(scheduled(list@), members(entries@)),
{
    let ghost all = members(entries@);
    let ghost mut known = scheduled(list@);
    let mut taken: Vec<&str> = Vec::new();
    let mut i: usize = 0;
    proof {
        lemma_members_len(entries@);
        assert(all.skip(0) == all);
    }
    while i < entries.len()
        invariant
            i <= entries@.len(),
            all == members(entries@),
            all.len() == entries@.len(),
            forall|j: int|
                0 <= j < entries@.len() ==> (#[trigger] all[j]).0 == entries@[j].0@ && all[j].1
                    == entries@[j].1@,
            forall|p: Seq<char>|
                #[trigger] known.contains(p) <==> scheduled(list@).contains(p) || holds(taken@, p),
            imports_fit(scheduled(list@), all) == imports_fit(known, all.skip(i as int)),
        decreases entries@.len() - i,
    {
        let pipeline = entries[i].0.as_str();
        let cfg = &entries[i].1;
        let ghost rest = all.skip(i as int);
        assert(rest[0] == all[i as int]);
        assert(rest.drop_first() == all.skip(i + 1));
        if !has_schedule(list, pipeline) && !is_held(&taken, pipeline) && has_trigger(cfg) {
            if !interval_fits(cfg) {
                return false;
            }
            let ghost before = taken@;
            taken.push(pipeline);
            proof {
                assert(taken@[before.len() as int] == pipeline);
                assert forall|p: Seq<char>| #[trigger] holds(taken@, p) <==> holds(before, p) || p
                    == pipeline@ by {
                    if holds(before, p) {
                        let j = choose|j: int| 0 <= j < before.len() && (#[trigger] before[j])@ == p;
                        assert(taken@[j]@ == p);
                    }
                    if holds(taken@, p) && p != pipeline@ {
                        let j = choose|j: int| 0 <= j < taken@.len() && (#[trigger] taken@[j])@ == p;
                        assert(before[j]@ == p);
                    }
                }
                known = known.insert(pipeline@);
            }
        }
        i = i + 1;
    }
    assert(all.skip(i as int).len() == 0);
    true
}

/// Whether a text is on a list.
pub open spec fn holds(v: Seq<&str>, t: Seq<char>) -> bool {
    exists|j: int| 0 <= j < v.len() && (#[trigger] v[j])@ == t
}

/// Whether a text is on a list.
fn is_held(v: &Vec<&str>, t: &str) -> (r: bool)
    ensures
        r == holds(v@, t@),
{
    let mut i: usize = 0;
    while i < v.len()
        invariant
            i <= v@.len(),
            forall|j: int| 0 <= j < i ==> (#[trigger] v@[j])@ != t@,
        decreases v@.len() - i,
    {
        if same(v[i], t) {
            return true;
        }
        i = i + 1;
    }
    false
}

/// Carry the old store's entries into the shared one.
///
/// Only pipelines with no schedule already in the shared store are imported, so
/// a workspace where the same pipeline is already scheduled keeps that record
/// rather than gaining a second one.
pub fn migrate_legacy_schedules(entries: &Vec<(String, Json)>, list: &mut Vec<Schedule>)
    requires
        imports_fit(scheduled(old(list)@), members(entries@)),
    ensures
        carried_over(
            old(list)@,
            final(list)@,
            imports(scheduled(old(list)@), members(entries@)),
        ),
{
    let ghost before = list@;
    let ghost all = members(entries@);
    let ghost total = imports(scheduled(before), all);
    let ghost mut added = Seq::<Import>::empty();
    let mut i: usize = 0;
    proof {
        lemma_members_len(entries@);
        assert(all.skip(0) == all);
        assert(added + imports(scheduled(list@), all.skip(0)) == total);
    }
    while i < entries.len()
        invariant
            i <= entries@.len(),
            all == members(entries@),
            all.len() == entries@.len(),
            imports_fit(scheduled(list@), all.skip(i as int)),
            forall|j: int|
                0 <= j < entries@.len() ==> (#[trigger] all[j]).0 == entries@[j].0@ && all[j].1
                    == entries@[j].1@,
            carried_over(before, list@, added),
            added + imports(scheduled(list@), all.skip(i as int)) == total,
        decreases entries@.len() - i,
    {
        let pipeline = entries[i].0.as_str();
        let cfg = &entries[i].1;
        let ghost rest = all.skip(i as int);
        let ghost now = list@;
        assert(rest[0] == all[i as int]);
        assert(rest.drop_first() == all.skip(i + 1));
        if !has_schedule(list, pipeline) && has_trigger(cfg) {
            if let Some(kind) = legacy_trigger(cfg) {
                let enabled = flag_or_false(flag(field(Some(cfg), "enabled")));
                let ghost one = Import { pipeline: pipeline@, enabled, kind: kind_view(kind) };
                list.push(fresh(pipeline, enabled, kind));
                proof {
                    assert(scheduled(list@) =~= scheduled(now).insert(pipeline@)) by {
                        assert forall|p: Seq<char>| scheduled(list@).contains(p) <==> scheduled(now).insert(
                            pipeline@,
                        ).contains(p) by {
                            if scheduled(now).contains(p) {
                                let j = choose|j: int|
                                    0 <= j < now.len() && (#[trigger] now[j]).pipeline_id@ == p;
                                assert(list@[j].pipeline_id@ == p);
                            }
                            assert(list@[now.len() as int].pipeline_id@ == pipeline@);
                            if scheduled(list@).contains(p) && p != pipeline@ {
                                let j = choose|j: int|
                                    0 <= j < list@.len() && (#[trigger] list@[j]).pipeline_id@ == p;
                                assert(now[j].pipeline_id@ == p);
                            }
                        }
                    }
                    let grown = added.push(one);
                    assert(grown + imports(scheduled(list@), all.skip(i + 1)) == added + imports(
                        scheduled(now),
                        rest,
                    ));
                    assert forall|j: int| 0 <= j < grown.len() implies is_fresh(
                        list@[before.len() + j],
                        (#[trigger] grown[j]).pipeline,
                        grown[j].enabled,
                        grown[j].kind,
                    ) by {
                        if j < added.len() {
                            assert(grown[j] == added[j]);
                        }
                    }
                    added = grown;
                }
            }
        }
        i = i + 1;
    }
    assert(all.skip(i as int).len() == 0);
    assert(added + Seq::<Import>::empty() == added);
}

proof fn lemma_members_len(m: Seq<(String, Json)>)
    ensures
        members(m).len() == m.len(),
        forall|j: int|
            0 <= j < m.len() ==> (#[trigger] members(m)[j]).0 == m[j].0@ && members(m)[j].1 == m[j].1@,
    decreases m.len(),
{
    if m.len() > 0 {
        lemma_members_len(m.drop_last());
    }
}

/// The entries of the old store, when its file holds any.
pub fn legacy_entries(content: &str) -> (r: Option<Vec<(String, Json)>>)
    ensures
        match r {
            Some(m) => m@.len() > 0 && json_in(content@) == Some(Doc::Object(members(m@))),
            None => !(json_in(content@) matches Some(Doc::Object(m)) && m.len() > 0),
        },
{
    match parse(content) {
        Ok(Json::Object(m)) => {
            proof {
                lemma_members_len(m@);
            }
            if m.len() > 0 {
                Some(m)
            } else {
                None
            }
        },
        _ => None,
    }
}

/// Carrying the old store over again adds nothing, so a restart does not import
/// twice.
pub proof fn law_a_second_import_adds_nothing(
    known: Set<Seq<char>>,
    after: Set<Seq<char>>,
    entries: Seq<(Seq<char>, Doc)>,
)
    requires
        known.subset_of(after),
        forall|i: int|
            0 <= i < imports(known, entries).len() ==> after.contains(
                (#[trigger] imports(known, entries)[i]).pipeline,
            ),
    ensures
        imports(after, entries).len() == 0,
    decreases entries.len(),
{
    if entries.len() > 0 {
        let (pipeline, cfg) = entries[0];
        let rest = entries.drop_first();
        let now = imports(known, entries);
        if known.contains(pipeline) || legacy_kind(cfg) is None {
            law_a_second_import_adds_nothing(known, after, rest);
        } else {
            let later = imports(known.insert(pipeline), rest);
            assert(now[0].pipeline == pipeline);
            assert forall|i: int| 0 <= i < later.len() implies after.contains(
                (#[trigger] later[i]).pipeline,
            ) by {
                assert(now[i + 1] == later[i]);
            }
            law_a_second_import_adds_nothing(known.insert(pipeline), after, rest);
        }
    }
}

/// No pipeline gains a second schedule by being carried over: what is imported is
/// for pipelines that had none, and for each of them once.
pub proof fn law_an_import_duplicates_nothing(known: Set<Seq<char>>, entries: Seq<(Seq<char>, Doc)>)
    ensures
        forall|i: int|
            0 <= i < imports(known, entries).len() ==> !known.contains(
                (#[trigger] imports(known, entries)[i]).pipeline,
            ),
        forall|i: int, j: int|
            0 <= i < j < imports(known, entries).len() ==> (#[trigger] imports(known, entries)[i]).pipeline
                != (#[trigger] imports(known, entries)[j]).pipeline,
    decreases entries.len(),
{
    if entries.len() > 0 {
        let (pipeline, cfg) = entries[0];
        let rest = entries.drop_first();
        if known.contains(pipeline) || legacy_kind(cfg) is None {
            law_an_import_duplicates_nothing(known, rest);
        } else {
            let later = imports(known.insert(pipeline), rest);
            law_an_import_duplicates_nothing(known.insert(pipeline), rest);
            let now = imports(known, entries);
            assert forall|i: int| 0 <= i < now.len() implies !known.contains((#[trigger] now[i]).pipeline) by {
                if i > 0 {
                    assert(now[i] == later[i - 1]);
                }
            }
            assert forall|i: int, j: int| 0 <= i < j < now.len() implies (#[trigger] now[i]).pipeline != (
            #[trigger] now[j]).pipeline by {
                assert(now[j] == later[j - 1]);
                if i > 0 {
                    assert(now[i] == later[i - 1]);
                }
            }
        }
    }
}

// ---------------------------------------------------------------------------
// Saving from the console
// ---------------------------------------------------------------------------

/// A schedule as the console wants it saved.
#[derive(Debug)]
pub struct Save {
    pub pipeline_id: String,
    pub enabled: bool,
    pub kind: ScheduleKind,
}

/// The interval that a save asks for, in seconds. One that gives only minutes is
/// honoured.
pub open spec fn seconds_in(body: Doc) -> u64 {
    match count_in(field_in(Some(body), "intervalSeconds"@)) {
        Some(s) => s,
        None => {
            let minutes = or_zero(count_in(field_in(Some(body), "intervalMinutes"@)));
            if minutes * 60 > u64::MAX {
                u64::MAX
            } else {
                (minutes * 60) as u64
            }
        },
    }
}

/// The cron expression that a save asks for.
pub open spec fn cron_in(body: Doc) -> Seq<char> {
    trimmed(or_blank(text_in(field_in(Some(body), "cron"@))))
}

/// What stands against a save, or nothing.
pub open spec fn save_refusal(body: Doc) -> Option<Seq<char>> {
    let enabled = or_false(flag_in(field_in(Some(body), "enabled"@)));
    if text_in(field_in(Some(body), "id"@)) is None {
        Some("missing id"@)
    } else if cron_in(body).len() > 0 && !is_cron(cron_in(body)) {
        Some("Invalid cron expression (use 5 fields, e.g. `0 9 * * 1`)"@)
    } else if enabled && cron_in(body).len() == 0 && seconds_in(body) == 0 {
        Some("An enabled schedule needs a cron expression or an interval greater than zero"@)
    } else {
        None
    }
}

/// The trigger that a save asks for.
pub open spec fn kind_in(body: Doc) -> KindView {
    if cron_in(body).len() > 0 {
        KindView::Cron(cron_in(body))
    } else {
        KindView::Interval(seconds_in(body))
    }
}

/// What a save says.
pub open spec fn is_save(body: &Json, r: Result<Save, String>) -> bool {
    match r {
        Ok(s) => {
            &&& save_refusal(body@) is None
            &&& Some(s.pipeline_id@) == text_in(field_in(Some(body@), "id"@))
            &&& s.enabled == or_false(flag_in(field_in(Some(body@), "enabled"@)))
            &&& kind_view(s.kind) == kind_in(body@)
        },
        Err(e) => save_refusal(body@) == Some(e@),
    }
}

/// Read what the console sent. A bad cron expression is rejected with a clear
/// message instead of silently never firing, and an enabled schedule with
/// neither a cron nor a positive interval is refused, because it would either
/// never fire or fire on every poll.
pub fn parse_save(body: &Json) -> (r: Result<Save, String>)
    ensures
        is_save(body, r),
{
    let id = match text(field(Some(body), "id")) {
        Some(i) => i,
        None => {
            return Err("missing id".to_owned());
        },
    };
    let enabled = flag_or_false(flag(field(Some(body), "enabled")));
    let cron = bare_text(text(field(Some(body), "cron")));
    if !cron.as_str().is_empty() && !cron_is_valid(cron.as_str()) {
        return Err("Invalid cron expression (use 5 fields, e.g. `0 9 * * 1`)".to_owned());
    }
    let seconds: u64 = match count(field(Some(body), "intervalSeconds")) {
        Some(s) => s,
        None => {
            let minutes = number_or_zero(count(field(Some(body), "intervalMinutes")));
            if minutes > u64::MAX / 60 {
                u64::MAX
            } else {
                minutes * 60
            }
        },
    };
    if enabled && cron.as_str().is_empty() && seconds == 0 {
        return Err(
            "An enabled schedule needs a cron expression or an interval greater than zero".to_owned(),
        );
    }
    let kind = if !cron.as_str().is_empty() {
        ScheduleKind::Cron { expr: cron }
    } else {
        ScheduleKind::Interval { seconds }
    };
    Ok(Save { pipeline_id: id.to_owned(), enabled, kind })
}

/// Whether the console can edit a record for a pipeline: it is the pipeline's,
/// and no file watch.
pub open spec fn is_editable(s: Schedule, pipeline: Seq<char>) -> bool {
    s.pipeline_id@ == pipeline && !(s.kind is FileWatch)
}

/// The record that a save edits: the first that can be edited.
pub open spec fn editable(list: Seq<Schedule>, pipeline: Seq<char>) -> Option<int>
    decreases list.len(),
{
    if list.len() == 0 {
        None
    } else {
        match editable(list.drop_last(), pipeline) {
            Some(i) => Some(i),
            None => if is_editable(list.last(), pipeline) {
                Some(list.len() - 1)
            } else {
                None
            },
        }
    }
}

proof fn lemma_editable(list: Seq<Schedule>, pipeline: Seq<char>, n: int)
    requires
        0 <= n <= list.len(),
        forall|j: int| 0 <= j < n ==> !is_editable(#[trigger] list[j], pipeline),
        n < list.len() ==> is_editable(list[n], pipeline),
    ensures
        editable(list, pipeline) == if n < list.len() {
            Some(n)
        } else {
            None
        },
    decreases list.len(),
{
    if list.len() > 0 {
        let front = list.drop_last();
        if n == list.len() || n == list.len() - 1 {
            lemma_editable(front, pipeline, front.len() as int);
        } else {
            lemma_editable(front, pipeline, n);
        }
    }
}

/// Whether a list is another with a save made in it.
pub open spec fn saved(
    before: Seq<Schedule>,
    after: Seq<Schedule>,
    pipeline: Seq<char>,
    enabled: bool,
    kind: KindView,
) -> bool {
    match editable(before, pipeline) {
        Some(i) => {
            &&& 0 <= i < before.len() == after.len()
            &&& kind_view(after[i].kind) == kind
            &&& after == before.update(
                i,
                (Schedule { enabled, kind: after[i].kind, next_run_at: None, ..before[i] }),
            )
        },
        None => {
            &&& after.len() == before.len() + 1
            &&& after.drop_last() == before
            &&& is_fresh(after.last(), pipeline, enabled, kind)
        },
    }
}

/// Save a schedule in the shared store. It edits the record the pipeline already
/// has rather than adding another, so saving from the console does not quietly
/// double a schedule. A file-watch record is not one the console can edit, so a
/// new record is added alongside it. A changed trigger invalidates the time that
/// was armed.
pub fn save_schedule_at(list: &mut Vec<Schedule>, save: &Save)
    ensures
        saved(old(list)@, final(list)@, save.pipeline_id@, save.enabled, kind_view(save.kind)),
{
    let mut i: usize = 0;
    let ghost before = list@;
    while i < list.len()
        invariant
            i <= list@.len(),
            list@ == before,
            before == old(list)@,
            forall|j: int| 0 <= j < i ==> !is_editable(#[trigger] before[j], save.pipeline_id@),
        decreases list@.len() - i,
    {
        let editable_here = match &list[i].kind {
            ScheduleKind::FileWatch { .. } => false,
            _ => same(list[i].pipeline_id.as_str(), save.pipeline_id.as_str()),
        };
        if editable_here {
            proof {
                lemma_editable(before, save.pipeline_id@, i as int);
            }
            let mut s = list[i].copy();
            s.enabled = save.enabled;
            s.kind = save.kind.copy();
            s.next_run_at = None;
            list.set(i, s);
            return ;
        }
        i = i + 1;
    }
    proof {
        lemma_editable(before, save.pipeline_id@, before.len() as int);
    }
    list.push(fresh(save.pipeline_id.as_str(), save.enabled, save.kind.copy()));
    assert(list@.drop_last() == before);
}

/// A save adds no second record to a pipeline that has one the console can edit,
/// and touches no other record.
pub proof fn law_a_console_save_does_not_duplicate(
    before: Seq<Schedule>,
    after: Seq<Schedule>,
    pipeline: Seq<char>,
    enabled: bool,
    kind: KindView,
    j: int,
)
    requires
        saved(before, after, pipeline, enabled, kind),
        0 <= j < before.len(),
    ensures
        editable(before, pipeline) is Some ==> after.len() == before.len(),
        editable(before, pipeline) != Some(j) ==> after[j] == before[j],
{
    if editable(before, pipeline) is None {
        assert(after.drop_last()[j] == after[j]);
    }
}

/// A file watch survives every save from the console.
pub proof fn law_a_console_save_leaves_watches_alone(
    before: Seq<Schedule>,
    after: Seq<Schedule>,
    pipeline: Seq<char>,
    enabled: bool,
    kind: KindView,
    j: int,
)
    requires
        saved(before, after, pipeline, enabled, kind),
        0 <= j < before.len(),
        before[j].kind is FileWatch,
    ensures
        after[j] == before[j],
{
    lemma_editable_is(before, pipeline);
    law_a_console_save_does_not_duplicate(before, after, pipeline, enabled, kind, j);
}

proof fn lemma_editable_is(list: Seq<Schedule>, pipeline: Seq<char>)
    ensures
        editable(list, pipeline) matches Some(i) ==> 0 <= i < list.len() && is_editable(list[i], pipeline),
    decreases list.len(),
{
    if list.len() > 0 {
        lemma_editable_is(list.drop_last(), pipeline);
    }
}

/// Whether one list is another with a run's outcome written to the schedules of
/// its pipeline.
pub open spec fn outcome_written(
    before: Seq<Schedule>,
    after: Seq<Schedule>,
    pipeline: Seq<char>,
    now: Moment,
    status: Seq<char>,
    duration_ms: u64,
    error: Option<String>,
) -> bool {
    &&& after.len() == before.len()
    &&& forall|i: int|
        0 <= i < before.len() ==> if (#[trigger] before[i]).pipeline_id@ == pipeline {
            &&& after[i] == (Schedule {
                last_run_at: Some(now),
                last_run_status: after[i].last_run_status,
                last_run_duration_ms: Some(duration_ms),
                last_run_error: error,
                ..before[i]
            })
            &&& text_opt(after[i].last_run_status) == Some(status)
        } else {
            after[i] == before[i]
        }
}

/// Write a scheduled run's outcome back: every schedule of the pipeline gets it,
/// and no other.
pub fn record_schedule_outcome(
    list: &mut Vec<Schedule>,
    pipeline_id: &str,
    now: Moment,
    status: &str,
    duration_ms: u64,
    error: &Option<String>,
)
    ensures
        outcome_written(
            old(list)@,
            final(list)@,
            pipeline_id@,
            now,
            status@,
            duration_ms,
            *error,
        ),
{
    let mut i: usize = 0;
    let ghost before = list@;
    while i < list.len()
        invariant
            i <= list@.len(),
            list@.len() == before.len(),
            forall|j: int| i <= j < before.len() ==> list@[j] == #[trigger] before[j],
            forall|j: int|
                0 <= j < i ==> if (#[trigger] before[j]).pipeline_id@ == pipeline_id@ {
                    &&& list@[j] == (Schedule {
                        last_run_at: Some(now),
                        last_run_status: list@[j].last_run_status,
                        last_run_duration_ms: Some(duration_ms),
                        last_run_error: *error,
                        ..before[j]
                    })
                    &&& text_opt(list@[j].last_run_status) == Some(status@)
                } else {
                    list@[j] == before[j]
                },
        decreases list@.len() - i,
    {
        assert(list@[i as int] == before[i as int]);
        if same(list[i].pipeline_id.as_str(), pipeline_id) {
            let mut s = list[i].copy();
            s.last_run_at = Some(now);
            s.last_run_status = Some(status.to_owned());
            s.last_run_duration_ms = Some(duration_ms);
            s.last_run_error = copy_opt(error);
            list.set(i, s);
        }
        i = i + 1;
    }
}

// ---------------------------------------------------------------------------
// When a schedule is expected to fire
// ---------------------------------------------------------------------------

/// The `k`-th slot of a steady interval.
pub open spec fn slot(start: Moment, step: int, k: nat) -> Moment
    decreases k,
{
    if k == 0 {
        start
    } else {
        later(slot(start, step, (k - 1) as nat), step)
    }
}

/// Whether `t` is the first slot that is still in the future.
pub open spec fn is_next_slot(start: Moment, step: int, now: Moment, t: Moment) -> bool {
    exists|k: nat|
        t == #[trigger] slot(start, step, k) && earlier(now, t) && forall|j: nat|
            j < k ==> !earlier(now, #[trigger] slot(start, step, j))
}

/// Roll an interval forward past any missed slots, to the first that is still in
/// the future.
pub fn roll_forward(start: Moment, step: i64, now: Moment) -> (r: Moment)
    requires
        in_calendar(start),
        in_calendar(now),
        0 < step <= LONGEST_STEP,
        now.secs + step <= LAST_SECOND,
    ensures
        is_next_slot(start, step as int, now, r),
        in_calendar(r),
{
    let mut next = start;
    let ghost mut k: nat = 0;
    while !is_earlier(now, next)
        invariant
            in_calendar(next),
            in_calendar(now),
            0 < step <= LONGEST_STEP,
            now.secs + step <= LAST_SECOND,
            next == slot(start, step as int, k),
            forall|j: nat| j < k ==> !earlier(now, #[trigger] slot(start, step as int, j)),
        decreases
            (if next.secs <= now.secs {
                now.secs - next.secs + 1
            } else {
                0
            }),
    {
        next = plus_seconds(next, step);
        proof {
            k = k + 1;
            assert((k - 1) as nat == k - 1);
        }
    }
    next
}

/// When a schedule is expected to fire.
#[derive(Debug)]
pub enum NextRun {
    /// It is not.
    Never,
    /// At this time, in RFC 3339.
    At(String),
    /// At a time that the calendar does not have.
    OffCalendar,
}

/// What an interval is counted from: the last run, or now.
pub open spec fn counted_from(last_at: Option<Seq<char>>, now: Moment) -> Moment {
    match last_at {
        Some(t) => match rfc3339_in(t) {
            Some(m) => m,
            None => now,
        },
        None => now,
    }
}

/// Whether the times that an interval leads to are all in the calendar. It is
/// counted from now as well, even where the last run is what the shown time is
/// counted from, so both have to be. A step back, which is what an interval of
/// more seconds than a signed number holds comes to, leads off the calendar
/// unless the time it leads to first is still in the future.
pub open spec fn stays_on_calendar(from: Moment, now: Moment, seconds: u64) -> bool {
    let step = step_of(seconds);
    &&& in_calendar(from) && can_step(from, step)
    &&& in_calendar(now) && can_step(now, step)
    &&& step > 0 || earlier(now, later(from, step))
}

/// Whether an occurrence is shown as it should be: by its time in some time zone,
/// or as none.
pub open spec fn is_shown(r: NextRun, occurrence: Option<Moment>) -> bool {
    match occurrence {
        Some(t) => r matches NextRun::At(text) && exists|zone: int|
            text@ == #[trigger] zoned_text(t, zone),
        None => r is Never,
    }
}

/// How the next occurrence of a cron expression is shown.
pub fn show_occurrence(occurrence: Option<Moment>) -> (r: NextRun)
    requires
        occurrence is Some ==> can_look_ahead(occurrence->0),
    ensures
        is_shown(r, occurrence),
{
    match occurrence {
        Some(t) => NextRun::At(local_text(t)),
        None => NextRun::Never,
    }
}

/// When an entry is expected to fire.
pub open spec fn is_expected(
    entry: Option<&PanelEntry>,
    last_at: Option<&str>,
    now: Moment,
    r: NextRun,
) -> bool {
    match entry {
        None => r is Never,
        Some(e) => if !e.enabled {
            r is Never
        } else if trimmed(e.cron@).len() > 0 {
            if !is_cron(trimmed(e.cron@)) {
                r is Never
            } else {
                if !can_look_ahead(now) {
                    r is OffCalendar
                } else {
                    exists|occurrence: Option<Moment>|
                        upcoming(trimmed(e.cron@), now, occurrence) && #[trigger] is_shown(
                            r,
                            occurrence,
                        )
                }
            }
        } else if e.interval_seconds == 0 {
            r is Never
        } else {
            let from = counted_from(str_opt(last_at), now);
            if !stays_on_calendar(from, now, e.interval_seconds) {
                r is OffCalendar
            } else {
                r matches NextRun::At(t) && exists|m: Moment|
                    is_next_slot(
                        later(from, step_of(e.interval_seconds)),
                        step_of(e.interval_seconds),
                        now,
                        m,
                    ) && t@ == #[trigger] rfc3339_text(m)
            }
        },
    }
}

/// The next time an enabled schedule is expected to fire, for the console to
/// display beside the last run. Cron uses the next occurrence in local time;
/// interval mode estimates from the last run (or now) rolled forward by whole
/// intervals.
pub fn next_run_at(entry: Option<&PanelEntry>, last_at: Option<&str>, now: Moment) -> (r: NextRun)
    ensures
        is_expected(entry, last_at, now, r),
{
    let e = match entry {
        Some(e) => e,
        None => {
            return NextRun::Never;
        },
    };
    if !e.enabled {
        return NextRun::Never;
    }
    let cron = trim(e.cron.as_str());
    if !cron.as_str().is_empty() {
        if !cron_is_valid(cron.as_str()) {
            return NextRun::Never;
        }
        if !can_look(now) {
            return NextRun::OffCalendar;
        }
        let occurrence = next_occurrence(cron.as_str(), now);
        return show_occurrence(occurrence);
    }
    if e.interval_seconds == 0 {
        return NextRun::Never;
    }
    let from = match last_at {
        Some(t) => match read_rfc3339(t) {
            Some(m) => m,
            None => now,
        },
        None => now,
    };
    assert(from == counted_from(str_opt(last_at), now));
    if !can_move(from, e.interval_seconds) || !can_move(now, e.interval_seconds) {
        return NextRun::OffCalendar;
    }
    let step = signed_step(e.interval_seconds);
    let start = plus_seconds(from, step);
    if step < 0 {
        if is_earlier(now, start) {
            assert(start == slot(start, step as int, 0));
            return NextRun::At(utc_text(start));
        }
        return NextRun::OffCalendar;
    }
    let next = roll_forward(start, step, now);
    NextRun::At(utc_text(next))
}

/// The time shown for an interval is in the future.
pub proof fn law_a_shown_time_is_in_the_future(start: Moment, step: int, now: Moment, t: Moment)
    requires
        is_next_slot(start, step, now, t),
    ensures
        earlier(now, t),
{
}

// ---------------------------------------------------------------------------
// Run parameters
// ---------------------------------------------------------------------------

/// The text of a run parameter. A blank one means "use the default", so it is
/// dropped rather than overriding with an empty value.
pub open spec fn param_text(d: Doc) -> Option<Seq<char>> {
    match d {
        Doc::Text(s) => if s.len() > 0 {
            Some(s)
        } else {
            None
        },
        Doc::Null => None,
        other => if json_text(other).len() > 0 {
            Some(json_text(other))
        } else {
            None
        },
    }
}

/// The run parameters among the members of an object.
pub open spec fn params_in(m: Seq<(Seq<char>, Doc)>) -> Map<Seq<char>, Seq<char>>
    decreases m.len(),
{
    if m.len() == 0 {
        Map::empty()
    } else {
        let before = params_in(m.drop_last());
        match param_text(m.last().1) {
            Some(t) => before.insert(m.last().0, t),
            None => before,
        }
    }
}

/// Read the optional `params` object from a run request.
pub fn parse_run_params(v: Option<&Json>) -> (r: TextMap<String>)
    ensures
        map_texts(r@) == match value_opt(v) {
            Some(Doc::Object(m)) => params_in(m),
            _ => Map::empty(),
        },
{
    let mut out: TextMap<String> = TextMap::new();
    assert(map_texts(out@) == Map::<Seq<char>, Seq<char>>::empty());
    if let Some(Json::Object(m)) = v {
        let ghost all = members(m@);
        proof {
            lemma_members_len(m@);
        }
        let mut i: usize = 0;
        while i < m.len()
            invariant
                i <= m@.len(),
                all == members(m@),
                all.len() == m@.len(),
                forall|j: int|
                    0 <= j < m@.len() ==> (#[trigger] all[j]).0 == m@[j].0@ && all[j].1 == m@[j].1@,
                map_texts(out@) == params_in(all.take(i as int)),
            decreases m@.len() - i,
        {
            assert(all.take(i + 1).drop_last() == all.take(i as int));
            assert(all.take(i + 1).last() == all[i as int]);
            let value = match &m[i].1 {
                Json::Text(s) => Some(s.clone()),
                Json::Null => None,
                other => Some(render(other)),
            };
            let ghost before = out@;
            if let Some(t) = value {
                if !t.as_str().is_empty() {
                    let ghost tv = t@;
                    let ghost k = m@[i as int].0@;
                    out.insert(m[i].0.clone(), t);
                    assert(map_texts(out@) == map_texts(before).insert(k, tv));
                }
            }
            i = i + 1;
        }
        assert(all.take(i as int) == all);
    }
    out
}

/// The console shows the first schedule of a pipeline that is no file watch: its
/// expression, or its interval.
pub proof fn law_which_schedule_is_shown(list: Seq<Schedule>, pipeline: Seq<char>, i: int)
    requires
        0 <= i < list.len(),
        list[i].pipeline_id@ == pipeline,
        !(list[i].kind is FileWatch),
        forall|j: int|
            0 <= j < i && (#[trigger] list[j]).pipeline_id@ == pipeline ==> list[j].kind is FileWatch,
    ensures
        panel_entry(list, pipeline) is Some,
        panel_entry(list, pipeline)->0.id == list[i].id@,
        panel_entry(list, pipeline)->0.enabled == list[i].enabled,
        list[i].kind matches ScheduleKind::Cron { expr } ==> panel_entry(list, pipeline)->0.cron == expr@
            && panel_entry(list, pipeline)->0.seconds == 0,
        list[i].kind matches ScheduleKind::Interval { seconds } ==> panel_entry(
            list,
            pipeline,
        )->0.cron.len() == 0 && panel_entry(list, pipeline)->0.seconds == seconds,
    decreases list.len(),
{
    let before = list.drop_last();
    if i < list.len() - 1 {
        assert(before[i] == list[i]);
        assert forall|j: int| 0 <= j < i && (#[trigger] before[j]).pipeline_id@ == pipeline implies before[j].kind
            is FileWatch by {
            assert(before[j] == list[j]);
        }
        law_which_schedule_is_shown(before, pipeline, i);
    } else {
        assert forall|j: int|
            0 <= j < before.len() && (#[trigger] before[j]).pipeline_id@ == pipeline implies before[j].kind
            is FileWatch by {
            assert(before[j] == list[j]);
        }
        law_a_watched_pipeline_shows_nothing(before, pipeline);
    }
}

/// A pipeline that has nothing but file watches shows no schedule.
pub proof fn law_a_watched_pipeline_shows_nothing(list: Seq<Schedule>, pipeline: Seq<char>)
    requires
        forall|j: int|
            0 <= j < list.len() && (#[trigger] list[j]).pipeline_id@ == pipeline ==> list[j].kind is FileWatch,
    ensures
        panel_entry(list, pipeline) is None,
    decreases list.len(),
{
    if list.len() > 0 {
        let before = list.drop_last();
        assert forall|j: int|
            0 <= j < before.len() && (#[trigger] before[j]).pipeline_id@ == pipeline implies before[j].kind
            is FileWatch by {
            assert(before[j] == list[j]);
        }
        law_a_watched_pipeline_shows_nothing(before, pipeline);
        assert(list[list.len() - 1] == list.last());
    }
}

/// An entry is sent with its seconds, and with the whole minutes in them.
pub proof fn law_how_an_entry_is_sent(v: PanelView)
    ensures
        ({
            let m = panel_members(v);
            &&& m.len() == 5
            &&& member(m, "id"@) == Some(Doc::Text(v.id))
            &&& member(m, "enabled"@) == Some(Doc::Bool(v.enabled))
            &&& member(m, "intervalSeconds"@) == Some(Doc::Number(v.seconds))
            &&& member(m, "intervalMinutes"@) == Some(Doc::Number((v.seconds / 60) as u64))
            &&& member(m, "cron"@) == Some(Doc::Text(v.cron))
        }),
{
    reveal_strlit("id");
    reveal_strlit("enabled");
    reveal_strlit("intervalSeconds");
    reveal_strlit("intervalMinutes");
    reveal_strlit("cron");
    assert("id"@.len() == 2);
    assert("enabled"@.len() == 7);
    assert("intervalSeconds"@.len() == 15);
    assert("intervalMinutes"@.len() == 15);
    assert("cron"@.len() == 4);
    assert("intervalSeconds"@[8] == 'S' && "intervalMinutes"@[8] == 'M');
    let m = panel_members(v);
    law_a_member_is_found_by_its_name(m, 0);
    law_a_member_is_found_by_its_name(m, 1);
    law_a_member_is_found_by_its_name(m, 2);
    law_a_member_is_found_by_its_name(m, 3);
    law_a_member_is_found_by_its_name(m, 4);
}

/// The trigger in an entry of the old store is its cron where it has one, else its
/// minutes where they are more than none, and nothing otherwise.
pub proof fn law_what_an_old_entry_triggers(m: Seq<(Seq<char>, Doc)>, cron: Seq<char>, n: u64)
    ensures
        member(m, "cron"@) == Some(Doc::Text(cron)) && trimmed(cron).len() > 0 ==> legacy_kind(
            Doc::Object(m),
        ) == Some(KindView::Cron(trimmed(cron))) && trigger_fits(Doc::Object(m)),
        (member(m, "cron"@) is None || (member(m, "cron"@) == Some(Doc::Text(cron)) && trimmed(
            cron,
        ).len() == 0)) && member(m, "intervalMinutes"@) == Some(Doc::Number(n)) && 0 < n
            <= 307_445_734_561_825_860 ==> legacy_kind(Doc::Object(m)) == Some(
            KindView::Interval((n * 60) as u64),
        ) && trigger_fits(Doc::Object(m)),
        (member(m, "cron"@) is None || (member(m, "cron"@) == Some(Doc::Text(cron)) && trimmed(
            cron,
        ).len() == 0)) && (member(m, "intervalMinutes"@) is None || member(m, "intervalMinutes"@)
            == Some(Doc::Number(0))) ==> legacy_kind(Doc::Object(m)) is None,
        member(m, "cron"@) is None && member(m, "intervalMinutes"@) == Some(Doc::Number(n)) && n
            > 307_445_734_561_825_860 ==> !trigger_fits(Doc::Object(m)),
{
    assert(trimmed(Seq::<char>::empty()) == Seq::<char>::empty());
}

/// Every entry with a trigger, of a pipeline that has no schedule yet, is carried
/// over: the first of its pipeline, and enabled where it says so.
pub proof fn law_what_is_carried_over(
    known: Set<Seq<char>>,
    entries: Seq<(Seq<char>, Doc)>,
    i: int,
)
    requires
        0 <= i < entries.len(),
        !known.contains(entries[i].0),
        legacy_kind(entries[i].1) is Some,
        forall|j: int|
            0 <= j < i && (#[trigger] entries[j]).0 == entries[i].0 ==> legacy_kind(entries[j].1) is None,
    ensures
        exists|k: int|
            0 <= k < imports(known, entries).len() && (#[trigger] imports(known, entries)[k]).pipeline
                == entries[i].0 && imports(known, entries)[k].kind == legacy_kind(entries[i].1)->0
                && imports(known, entries)[k].enabled == (field_in(Some(entries[i].1), "enabled"@)
                == Some(Doc::Bool(true))),
    decreases entries.len(),
{
    let (pipeline, cfg) = entries[0];
    let rest = entries.drop_first();
    let now = imports(known, entries);
    if i == 0 {
        assert(now[0].pipeline == pipeline);
    } else {
        assert(rest[i - 1] == entries[i]);
        assert forall|j: int|
            0 <= j < i - 1 && (#[trigger] rest[j]).0 == rest[i - 1].0 implies legacy_kind(rest[j].1) is None by {
            assert(rest[j] == entries[j + 1]);
        }
        if known.contains(pipeline) || legacy_kind(cfg) is None {
            law_what_is_carried_over(known, rest, i - 1);
        } else {
            assert(pipeline != entries[i].0);
            let later = imports(known.insert(pipeline), rest);
            law_what_is_carried_over(known.insert(pipeline), rest, i - 1);
            let k = choose|k: int|
                0 <= k < later.len() && (#[trigger] later[k]).pipeline == entries[i].0 && later[k].kind
                    == legacy_kind(entries[i].1)->0 && later[k].enabled == (field_in(
                    Some(entries[i].1),
                    "enabled"@,
                ) == Some(Doc::Bool(true)));
            assert(now[k + 1] == later[k]);
        }
    }
}

/// What is carried over goes behind what is there, as a schedule of its pipeline
/// that never ran.
pub proof fn law_how_it_is_carried_over(
    before: Seq<Schedule>,
    after: Seq<Schedule>,
    added: Seq<Import>,
    i: int,
)
    requires
        carried_over(before, after, added),
        0 <= i < added.len(),
    ensures
        after.take(before.len() as int) == before,
        ({
            let s = after[before.len() + i];
            &&& s.id@ == "panel-"@ + added[i].pipeline
            &&& s.pipeline_id@ == added[i].pipeline
            &&& s.name@ == added[i].pipeline
            &&& s.enabled == added[i].enabled
            &&& s.last_run_at is None
            &&& s.last_run_status is None
            &&& s.next_run_at is None
            &&& added[i].kind matches KindView::Cron(e) ==> (s.kind matches ScheduleKind::Cron { expr }
                && expr@ == e)
            &&& added[i].kind matches KindView::Interval(n) ==> s.kind == (ScheduleKind::Interval {
                seconds: n,
            })
        }),
{
    assert(is_fresh(
        after[before.len() + i],
        added[i].pipeline,
        added[i].enabled,
        added[i].kind,
    ));
    assert(after.take(before.len() as int) =~= before);
}

/// What a save asks for: its cron where it has one, else its seconds, or the
/// minutes it gives instead.
pub proof fn law_what_a_save_asks_for(m: Seq<(Seq<char>, Doc)>, cron: Seq<char>, n: u64)
    ensures
        member(m, "cron"@) == Some(Doc::Text(cron)) && trimmed(cron).len() > 0 ==> kind_in(
            Doc::Object(m),
        ) == KindView::Cron(trimmed(cron)),
        member(m, "cron"@) is None && member(m, "intervalSeconds"@) == Some(Doc::Number(n)) ==> kind_in(
            Doc::Object(m),
        ) == KindView::Interval(n),
        member(m, "cron"@) is None && member(m, "intervalSeconds"@) is None && member(
            m,
            "intervalMinutes"@,
        ) == Some(Doc::Number(n)) && n <= 307_445_734_561_825_860 ==> kind_in(Doc::Object(m))
            == KindView::Interval((n * 60) as u64),
        member(m, "cron"@) is None && member(m, "intervalSeconds"@) is None && member(
            m,
            "intervalMinutes"@,
        ) == Some(Doc::Number(n)) && n > 307_445_734_561_825_860 ==> kind_in(Doc::Object(m))
            == KindView::Interval(u64::MAX),
        member(m, "cron"@) is None && member(m, "intervalSeconds"@) is None && member(
            m,
            "intervalMinutes"@,
        ) is None ==> kind_in(Doc::Object(m)) == KindView::Interval(0),
{
    assert(trimmed(Seq::<char>::empty()) == Seq::<char>::empty());
}

/// Which saves are refused: one without an id, one whose cron is none, and one
/// that is enabled with nothing to run by.
pub proof fn law_which_saves_are_refused(m: Seq<(Seq<char>, Doc)>, id: Seq<char>)
    ensures
        member(m, "id"@) is None ==> save_refusal(Doc::Object(m)) == Some("missing id"@),
        member(m, "id"@) == Some(Doc::Text(id)) ==> match kind_in(Doc::Object(m)) {
            KindView::Cron(e) => save_refusal(Doc::Object(m)) == (if is_cron(e) {
                None
            } else {
                Some("Invalid cron expression (use 5 fields, e.g. `0 9 * * 1`)"@)
            }),
            KindView::Interval(n) => save_refusal(Doc::Object(m)) == (if n == 0 && member(m, "enabled"@)
                == Some(Doc::Bool(true)) {
                Some("An enabled schedule needs a cron expression or an interval greater than zero"@)
            } else {
                None
            }),
            KindView::FileWatch(_, _) => false,
        },
{
}

/// A save edits the first schedule of its pipeline that is no file watch: it is
/// enabled and triggered as saved, its next run is to be worked out anew, and all
/// else of it stays. Where there is none, a new one goes to the end.
pub proof fn law_what_a_save_changes(
    before: Seq<Schedule>,
    after: Seq<Schedule>,
    pipeline: Seq<char>,
    enabled: bool,
    kind: KindView,
    i: int,
)
    requires
        saved(before, after, pipeline, enabled, kind),
    ensures
        0 <= i < before.len() && before[i].pipeline_id@ == pipeline && !(before[i].kind is FileWatch) && (
        forall|j: int|
            0 <= j < i && (#[trigger] before[j]).pipeline_id@ == pipeline ==> before[j].kind is FileWatch)
            ==> {
            &&& after.len() == before.len()
            &&& after[i].enabled == enabled
            &&& kind_view(after[i].kind) == kind
            &&& after[i].next_run_at is None
            &&& after[i].id == before[i].id
            &&& after[i].pipeline_id == before[i].pipeline_id
            &&& after[i].name == before[i].name
            &&& after[i].last_run_at == before[i].last_run_at
            &&& after[i].last_run_status == before[i].last_run_status
            &&& after[i].last_run_duration_ms == before[i].last_run_duration_ms
            &&& after[i].last_run_error == before[i].last_run_error
        },
        (forall|j: int|
            0 <= j < before.len() && (#[trigger] before[j]).pipeline_id@ == pipeline ==> before[j].kind is FileWatch)
            ==> {
            &&& after.len() == before.len() + 1
            &&& after.last().id@ == "panel-"@ + pipeline
            &&& after.last().pipeline_id@ == pipeline
            &&& after.last().enabled == enabled
            &&& kind_view(after.last().kind) == kind
            &&& after.last().next_run_at is None
            &&& after.last().last_run_at is None
        },
{
    lemma_editable_is(before, pipeline);
    lemma_editable_is_first(before, pipeline, i);
}

proof fn lemma_editable_is_first(list: Seq<Schedule>, pipeline: Seq<char>, i: int)
    ensures
        0 <= i < list.len() && is_editable(list[i], pipeline) && (forall|j: int|
            0 <= j < i ==> !is_editable(#[trigger] list[j], pipeline)) ==> editable(list, pipeline)
            == Some(i),
        editable(list, pipeline) is None <==> forall|j: int|
            0 <= j < list.len() ==> !is_editable(#[trigger] list[j], pipeline),
    decreases list.len(),
{
    if list.len() > 0 {
        let before = list.drop_last();
        lemma_editable_is_first(before, pipeline, i);
        lemma_editable_is(before, pipeline);
        assert forall|j: int| 0 <= j < before.len() implies before[j] == #[trigger] list[j] by {}
        assert(list[list.len() - 1] == list.last());
        if editable(before, pipeline) is None {
            assert forall|j: int| 0 <= j < before.len() implies !is_editable(#[trigger] list[j], pipeline) by {
                assert(before[j] == list[j]);
            }
        } else {
            let k = editable(before, pipeline)->0;
            assert(list[k] == before[k]);
        }
        if 0 <= i < before.len() && is_editable(list[i], pipeline) && (forall|j: int|
            0 <= j < i ==> !is_editable(#[trigger] list[j], pipeline)) {
            assert forall|j: int| 0 <= j < i implies !is_editable(#[trigger] before[j], pipeline) by {
                assert(before[j] == list[j]);
            }
        }
    }
}

/// The slots of an interval are whole steps apart.
pub proof fn law_slots_are_steps_apart(start: Moment, step: int, k: nat)
    requires
        start.nanos < 1_000_000_000,
        step > 0,
        start.secs + k * step < i64::MAX,
    ensures
        slot(start, step, k).secs == start.secs + k * step,
        slot(start, step, k).nanos == start.nanos,
    decreases k,
{
    if k > 0 {
        let j = (k - 1) as nat;
        assert(k * step == j * step + step) by (nonlinear_arith)
            requires
                k == j + 1,
        ;
        assert(j * step >= 0) by (nonlinear_arith)
            requires
                step > 0,
        ;
        law_slots_are_steps_apart(start, step, j);
    } else {
        assert(k * step == 0) by (nonlinear_arith)
            requires
                k == 0,
        ;
    }
}

/// The time shown for an interval is a whole number of steps after its start,
/// after now, and at most one step after now unless it is the start itself.
pub proof fn law_the_shown_time_is_the_next_one(start: Moment, step: int, now: Moment, t: Moment)
    requires
        is_next_slot(start, step, now, t),
        0 < step <= 9_223_372_036_854_775,
        start.nanos < 1_000_000_000,
        -8_334_601_228_800 <= start.secs <= 8_210_266_876_799,
        -8_334_601_228_800 <= now.secs <= 8_210_266_876_799,
    ensures
        t.secs > now.secs || (t.secs == now.secs && t.nanos > now.nanos),
        t.nanos == start.nanos,
        t == start || t.secs - step < now.secs || (t.secs - step == now.secs && t.nanos <= now.nanos),
        exists|k: nat| t.secs == start.secs + #[trigger] (k * step),
{
    let k = choose|k: nat|
        t == #[trigger] slot(start, step, k) && earlier(now, t) && forall|j: nat|
            j < k ==> !earlier(now, #[trigger] slot(start, step, j));
    if k == 0 {
        assert(k * step == 0) by (nonlinear_arith)
            requires
                k == 0,
        ;
    } else {
        let j = (k - 1) as nat;
        lemma_slots_up_to(start, step, now, j);
        assert(k * step == j * step + step) by (nonlinear_arith)
            requires
                k == j + 1,
        ;
        assert(!earlier(now, slot(start, step, j)));
        law_slots_are_steps_apart(start, step, k);
    }
}

/// Slots that are not after now are within the calendar.
proof fn lemma_slots_up_to(start: Moment, step: int, now: Moment, j: nat)
    requires
        0 < step <= 9_223_372_036_854_775,
        start.nanos < 1_000_000_000,
        -8_334_601_228_800 <= start.secs <= 8_210_266_876_799,
        -8_334_601_228_800 <= now.secs <= 8_210_266_876_799,
        forall|i: nat| i <= j ==> !earlier(now, #[trigger] slot(start, step, i)),
    ensures
        start.secs + j * step <= 8_210_266_876_799,
        slot(start, step, j).secs == start.secs + j * step,
    decreases j,
{
    if j > 0 {
        let i = (j - 1) as nat;
        lemma_slots_up_to(start, step, now, i);
        assert(j * step == i * step + step) by (nonlinear_arith)
            requires
                j == i + 1,
        ;
        law_slots_are_steps_apart(start, step, j);
        assert(!earlier(now, slot(start, step, j)));
    } else {
        assert(j * step == 0) by (nonlinear_arith)
            requires
                j == 0,
        ;
        assert(!earlier(now, slot(start, step, 0)));
    }
}

/// An interval is counted from the last run where that can be read, and from now
/// otherwise.
pub proof fn law_what_an_interval_is_counted_from(t: Seq<char>, m: Moment, now: Moment)
    ensures
        rfc3339_in(t) == Some(m) ==> counted_from(Some(t), now) == m,
        rfc3339_in(t) is None ==> counted_from(Some(t), now) == now,
        counted_from(None, now) == now,
{
}

/// Ordinary intervals stay on the calendar.
pub proof fn law_ordinary_intervals_are_shown(from: Moment, now: Moment, seconds: u64)
    requires
        from.nanos < 1_000_000_000 && now.nanos < 1_000_000_000,
        -8_000_000_000_000 <= from.secs <= 8_000_000_000_000,
        -8_000_000_000_000 <= now.secs <= 8_000_000_000_000,
        1 <= seconds <= 200_000_000_000,
    ensures
        stays_on_calendar(from, now, seconds),
{
}

/// A run parameter is the text it was given as, or the way its value is written;
/// a blank one, or none, is no parameter.
pub proof fn law_what_a_parameter_is(
    m: Seq<(Seq<char>, Doc)>,
    k: Seq<char>,
    t: Seq<char>,
    n: u64,
    b: bool,
)
    ensures
        params_in(Seq::empty()) == Map::<Seq<char>, Seq<char>>::empty(),
        t.len() > 0 ==> params_in(m.push((k, Doc::Text(t)))) == params_in(m).insert(k, t),
        params_in(m.push((k, Doc::Text(Seq::empty())))) == params_in(m),
        params_in(m.push((k, Doc::Null))) == params_in(m),
        json_text(Doc::Number(n)).len() > 0 ==> params_in(m.push((k, Doc::Number(n)))) == params_in(
            m,
        ).insert(k, json_text(Doc::Number(n))),
        json_text(Doc::Bool(b)).len() > 0 ==> params_in(m.push((k, Doc::Bool(b)))) == params_in(
            m,
        ).insert(k, json_text(Doc::Bool(b))),
{
    assert(m.push((k, Doc::Text(t))).drop_last() == m);
    assert(m.push((k, Doc::Text(Seq::empty()))).drop_last() == m);
    assert(m.push((k, Doc::Null)).drop_last() == m);
    assert(m.push((k, Doc::Number(n))).drop_last() == m);
    assert(m.push((k, Doc::Bool(b))).drop_last() == m);
}

/// Nothing is expected of an entry that is disabled, that says nothing to run by,
/// or whose expression is none.
pub proof fn law_when_nothing_is_expected(entry: PanelEntry, last_at: Option<&str>, now: Moment, r: NextRun)
    ensures
        is_expected(None, last_at, now, r) ==> r is Never,
        is_expected(Some(&entry), last_at, now, r) && !entry.enabled ==> r is Never,
        is_expected(Some(&entry), last_at, now, r) && trimmed(entry.cron@).len() == 0
            && entry.interval_seconds == 0 ==> r is Never,
        is_expected(Some(&entry), last_at, now, r) && trimmed(entry.cron@).len() > 0 && !is_cron(
            trimmed(entry.cron@),
        ) ==> r is Never,
{
}

/// An interval that never ran is expected one interval from now; one that ran, one
/// interval after its last run while that is in the future.
pub proof fn law_when_an_interval_is_expected(
    entry: PanelEntry,
    last_at: &str,
    last: Moment,
    now: Moment,
    r: NextRun,
)
    requires
        entry.enabled,
        trimmed(entry.cron@).len() == 0,
        1 <= entry.interval_seconds <= 200_000_000_000,
        now.nanos < 1_000_000_000 && last.nanos < 1_000_000_000,
        -8_000_000_000_000 <= now.secs <= 8_000_000_000_000,
        -8_000_000_000_000 <= last.secs <= 8_000_000_000_000,
    ensures
        is_expected(Some(&entry), None, now, r) ==> (r matches NextRun::At(t) && t@ == rfc3339_text(
            Moment { secs: (now.secs + entry.interval_seconds) as i64, nanos: now.nanos },
        )),
        is_expected(Some(&entry), Some(last_at), now, r) && rfc3339_in(last_at@) == Some(last)
            && last.secs + entry.interval_seconds > now.secs ==> (r matches NextRun::At(t) && t@
            == rfc3339_text(
            Moment { secs: (last.secs + entry.interval_seconds) as i64, nanos: last.nanos },
        )),
{
    let step = entry.interval_seconds as int;
    law_ordinary_intervals_are_shown(now, now, entry.interval_seconds);
    law_ordinary_intervals_are_shown(last, now, entry.interval_seconds);
    if is_expected(Some(&entry), None, now, r) {
        let start = later(now, step);
        let m = choose|m: Moment|
            is_next_slot(start, step, now, m) && r->At_0@ == #[trigger] rfc3339_text(m);
        lemma_first_slot(start, step, now, m);
    }
    if is_expected(Some(&entry), Some(last_at), now, r) && rfc3339_in(last_at@) == Some(last)
        && last.secs + entry.interval_seconds > now.secs {
        let start = later(last, step);
        assert(counted_from(str_opt(Some(last_at)), now) == last);
        let m = choose|m: Moment|
            is_next_slot(start, step, now, m) && r->At_0@ == #[trigger] rfc3339_text(m);
        lemma_first_slot(start, step, now, m);
    }
}

/// A start that is in the future is the next slot.
proof fn lemma_first_slot(start: Moment, step: int, now: Moment, m: Moment)
    requires
        is_next_slot(start, step, now, m),
        earlier(now, start),
    ensures
        m == start,
{
    let k = choose|k: nat|
        m == #[trigger] slot(start, step, k) && earlier(now, m) && forall|j: nat|
            j < k ==> !earlier(now, #[trigger] slot(start, step, j));
    assert(slot(start, step, 0) == start);
}

/// A cron entry is expected at what comes up next for its expression, in some time
/// zone.
pub proof fn law_when_a_cron_entry_is_expected(entry: PanelEntry, last_at: Option<&str>, now: Moment, r: NextRun)
    requires
        is_expected(Some(&entry), last_at, now, r),
        entry.enabled,
        is_cron(trimmed(entry.cron@)),
        trimmed(entry.cron@).len() > 0,
        can_look_ahead(now),
    ensures
        exists|occurrence: Option<Moment>|
            #[trigger] upcoming(trimmed(entry.cron@), now, occurrence) && match occurrence {
                Some(t) => r matches NextRun::At(text) && exists|zone: int|
                    text@ == #[trigger] zoned_text(t, zone),
                None => r is Never,
            },
{
    let occurrence = choose|occurrence: Option<Moment>|
        upcoming(trimmed(entry.cron@), now, occurrence) && #[trigger] is_shown(r, occurrence);
    assert(upcoming(trimmed(entry.cron@), now, occurrence));
}

/// A save that is taken says which pipeline it is for, whether it is enabled, and
/// what it runs by.
pub proof fn law_what_a_save_says(body: &Json, m: Seq<(Seq<char>, Doc)>, id: Seq<char>, r: Result<Save, String>)
    requires
        is_save(body, r),
        body@ == Doc::Object(m),
    ensures
        r matches Ok(s) ==> member(m, "id"@) == Some(Doc::Text(s.pipeline_id@)) && s.enabled == (member(
            m,
            "enabled"@,
        ) == Some(Doc::Bool(true))) && kind_view(s.kind) == kind_in(body@),
        r is Ok <==> save_refusal(body@) is None,
        r matches Err(e) ==> save_refusal(body@) == Some(e@),
{
}

/// A pipeline that a schedule names gains none by being carried over, and one
/// that no schedule names gains its first entry with a trigger.
pub proof fn law_who_gains_a_schedule(
    before: Seq<Schedule>,
    after: Seq<Schedule>,
    entries: Seq<(Seq<char>, Doc)>,
    i: int,
)
    requires
        carried_over(before, after, imports(scheduled(before), entries)),
        0 <= i < entries.len(),
        legacy_kind(entries[i].1) is Some,
    ensures
        (exists|k: int| 0 <= k < before.len() && (#[trigger] before[k]).pipeline_id@ == entries[i].0) ==> (
        forall|k: int|
            before.len() <= k < after.len() ==> (#[trigger] after[k]).pipeline_id@ != entries[i].0),
        (forall|k: int| 0 <= k < before.len() ==> (#[trigger] before[k]).pipeline_id@ != entries[i].0) ==> (
        exists|k: int|
            before.len() <= k < after.len() && (#[trigger] after[k]).pipeline_id@ == entries[i].0),
{
    let known = scheduled(before);
    let added = imports(known, entries);
    let pipeline = entries[i].0;
    law_an_import_duplicates_nothing(known, entries);
    if exists|k: int| 0 <= k < before.len() && (#[trigger] before[k]).pipeline_id@ == pipeline {
        assert(known.contains(pipeline));
        assert forall|k: int| before.len() <= k < after.len() implies (#[trigger] after[k]).pipeline_id@
            != pipeline by {
            law_how_it_is_carried_over(before, after, added, k - before.len());
        }
    } else {
        assert(!known.contains(pipeline));
        lemma_a_first_trigger(entries, i);
        let f = choose|f: int| is_first_trigger(entries, f, pipeline);
        law_what_is_carried_over(known, entries, f);
        let k = choose|k: int| 0 <= k < added.len() && (#[trigger] added[k]).pipeline == pipeline;
        law_how_it_is_carried_over(before, after, added, k);
        assert(after[before.len() + k].pipeline_id@ == pipeline);
    }
}

/// Whether an entry is the first of its pipeline with a trigger.
pub open spec fn is_first_trigger(entries: Seq<(Seq<char>, Doc)>, i: int, pipeline: Seq<char>) -> bool {
    &&& 0 <= i < entries.len()
    &&& entries[i].0 == pipeline
    &&& legacy_kind(entries[i].1) is Some
    &&& forall|j: int|
        0 <= j < i && (#[trigger] entries[j]).0 == pipeline ==> legacy_kind(entries[j].1) is None
}

proof fn lemma_a_first_trigger(entries: Seq<(Seq<char>, Doc)>, i: int)
    requires
        0 <= i < entries.len(),
        legacy_kind(entries[i].1) is Some,
    ensures
        exists|f: int| is_first_trigger(entries, f, entries[i].0),
    decreases i,
{
    if exists|j: int|
        0 <= j < i && (#[trigger] entries[j]).0 == entries[i].0 && legacy_kind(entries[j].1) is Some {
        let j = choose|j: int|
            0 <= j < i && (#[trigger] entries[j]).0 == entries[i].0 && legacy_kind(entries[j].1) is Some;
        lemma_a_first_trigger(entries, j);
    } else {
        assert(is_first_trigger(entries, i, entries[i].0));
    }
}

/// The old store can be carried over exactly when the entries that are carried
/// over have triggers that can be written down: for each pipeline that has no
/// schedule yet, the first of its entries with a trigger.
pub proof fn law_what_can_be_carried_over(known: Set<Seq<char>>, entries: Seq<(Seq<char>, Doc)>)
    ensures
        imports_fit(known, entries) <==> (forall|i: int|
            !known.contains((#[trigger] entries[i]).0) && is_first_trigger(entries, i, entries[i].0)
                ==> trigger_fits(entries[i].1)),
    decreases entries.len(),
{
    if entries.len() > 0 {
        let (pipeline, cfg) = entries[0];
        let rest = entries.drop_first();
        let skipped = known.contains(pipeline) || legacy_kind(cfg) is None;
        let next = if skipped {
            known
        } else {
            known.insert(pipeline)
        };
        law_what_can_be_carried_over(next, rest);
        assert forall|i: int| 0 <= i < rest.len() implies (!next.contains((#[trigger] rest[i]).0)
            && is_first_trigger(rest, i, rest[i].0)) == (!known.contains(entries[i + 1].0)
            && is_first_trigger(entries, i + 1, entries[i + 1].0)) by {
            assert(rest[i] == entries[i + 1]);
            assert forall|j: int| 0 <= j < i implies #[trigger] rest[j] == entries[j + 1] by {}
            if is_first_trigger(entries, i + 1, entries[i + 1].0) {
                assert forall|j: int| 0 <= j < i && (#[trigger] rest[j]).0 == rest[i].0 implies legacy_kind(
                    rest[j].1,
                ) is None by {
                    assert(rest[j] == entries[j + 1]);
                }
                if !known.contains(entries[i + 1].0) && !skipped {
                    assert(entries[0].0 != entries[i + 1].0);
                }
            }
            if !next.contains(rest[i].0) && is_first_trigger(rest, i, rest[i].0) {
                assert forall|j: int|
                    0 <= j < i + 1 && (#[trigger] entries[j]).0 == entries[i + 1].0 implies legacy_kind(
                    entries[j].1,
                ) is None by {
                    if j > 0 {
                        assert(rest[j - 1] == entries[j]);
                    }
                }
            }
        }
        if imports_fit(known, entries) {
            assert forall|i: int|
                !known.contains((#[trigger] entries[i]).0) && is_first_trigger(
                    entries,
                    i,
                    entries[i].0,
                ) implies trigger_fits(entries[i].1) by {
                if i > 0 {
                    assert(rest[i - 1] == entries[i]);
                }
            }
        }
        if forall|i: int|
            !known.contains((#[trigger] entries[i]).0) && is_first_trigger(entries, i, entries[i].0)
                ==> trigger_fits(entries[i].1) {
            assert forall|i: int|
                !next.contains((#[trigger] rest[i]).0) && is_first_trigger(
                    rest,
                    i,
                    rest[i].0,
                ) implies trigger_fits(rest[i].1) by {
                assert(rest[i] == entries[i + 1]);
            }
            if !skipped {
                assert(is_first_trigger(entries, 0, entries[0].0));
            }
        }
    }
}

/// A run's outcome is written to every schedule of its pipeline: when it ended,
/// how, how long it took and what went wrong. What they are, whether they are
/// enabled and when they run next stays, and so does every other schedule.
pub proof fn law_where_an_outcome_goes(
    before: Seq<Schedule>,
    after: Seq<Schedule>,
    pipeline: Seq<char>,
    now: Moment,
    status: Seq<char>,
    duration_ms: u64,
    error: Option<String>,
    i: int,
)
    requires
        outcome_written(before, after, pipeline, now, status, duration_ms, error),
        0 <= i < before.len(),
    ensures
        after.len() == before.len(),
        before[i].pipeline_id@ != pipeline ==> after[i] == before[i],
        before[i].pipeline_id@ == pipeline ==> {
            &&& after[i].last_run_at == Some(now)
            &&& after[i].last_run_status is Some
            &&& after[i].last_run_status->0@ == status
            &&& after[i].last_run_duration_ms == Some(duration_ms)
            &&& text_opt(after[i].last_run_error) == text_opt(error)
            &&& after[i].id == before[i].id
            &&& after[i].pipeline_id == before[i].pipeline_id
            &&& after[i].name == before[i].name
            &&& after[i].enabled == before[i].enabled
            &&& after[i].kind == before[i].kind
            &&& after[i].next_run_at == before[i].next_run_at
        },
{
    assert(before[i].pipeline_id@ == before[i].pipeline_id@);
}

} // verus!
