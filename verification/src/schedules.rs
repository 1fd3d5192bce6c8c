//! The workspace schedule store, shared by everything that schedules a run.
//!
//! There is one store: `<workspace>/schedules.json`, a list of records. Sharing
//! a file between processes means no writer may assume the copy it read is still
//! current. Every mutation takes an exclusive lock, re-reads from disk, applies
//! the change to *that* list, and writes it back through a temporary file. A
//! blind write of an in-memory list would silently drop whatever the other
//! process added since.
use crate::moment::Moment;
use crate::paths::{join, under};
use crate::text::{is_blank, same, text_opt, trimmed};
use vstd::prelude::*;
use vstd::string::*;

verus! {

/// How a schedule decides it is time to run.
#[derive(Debug, Clone)]
pub enum ScheduleKind {
    /// Standard 5-field cron (minute hour day month weekday), or 6/7-field
    /// with a leading seconds field. Evaluated in the machine's local time
    /// zone.
    Cron { expr: String },
    /// Fire every N seconds since last run (or app start).
    Interval { seconds: u64 },
    /// Fire when a file or folder changes (debounced ~2s).
    FileWatch { path: String, recursive: bool },
}

impl ScheduleKind {
    /// Another of the same.
    pub fn copy(&self) -> (r: ScheduleKind)
        ensures
            r == *self,
    {
        match self {
            ScheduleKind::Cron { expr } => ScheduleKind::Cron { expr: expr.clone() },
            ScheduleKind::Interval { seconds } => ScheduleKind::Interval { seconds: *seconds },
            ScheduleKind::FileWatch { path, recursive } => ScheduleKind::FileWatch {
                path: path.clone(),
                recursive: *recursive,
            },
        }
    }
}

/// One scheduled pipeline.
///
/// Timestamps are UTC in the file. Cron is evaluated in local time at fire
/// time, which is a display-vs-storage split, not a contradiction.
#[derive(Debug, Clone)]
pub struct Schedule {
    pub id: String,
    pub pipeline_id: String,
    pub name: String,
    pub enabled: bool,
    pub kind: ScheduleKind,
    pub last_run_at: Option<Moment>,
    pub last_run_status: Option<String>,
    pub last_run_duration_ms: Option<u64>,
    pub last_run_error: Option<String>,
    pub next_run_at: Option<Moment>,
}

/// Another of the same.
pub fn copy_opt(s: &Option<String>) -> (r: Option<String>)
    ensures
        r == *s,
{
    match s {
        Some(t) => Some(t.clone()),
        None => None,
    }
}

impl Schedule {
    /// Another of the same.
    pub fn copy(&self) -> (r: Schedule)
        ensures
            r == *self,
    {
        Schedule {
            id: self.id.clone(),
            pipeline_id: self.pipeline_id.clone(),
            name: self.name.clone(),
            enabled: self.enabled,
            kind: self.kind.copy(),
            last_run_at: self.last_run_at,
            last_run_status: copy_opt(&self.last_run_status),
            last_run_duration_ms: self.last_run_duration_ms,
            last_run_error: copy_opt(&self.last_run_error),
            next_run_at: self.next_run_at,
        }
    }
}

/// Whether a stored schedule that does not say is enabled.
pub fn default_true() -> (r: bool)
    ensures
        r,
{
    true
}

/// The store in a workspace.
pub fn schedules_path(workspace: &str, windows: bool) -> (r: String)
    ensures
        r@ == under(workspace@, "schedules.json"@, windows),
{
    join(workspace, "schedules.json", windows)
}

/// Whether the store, as it is on disk, holds no schedules without being read
/// any further: it is missing, or there is nothing in it. A file that holds
/// anything else has to parse, because silently treating a corrupt store as
/// empty is how a scheduler stops running everything without saying why.
pub fn reads_as_empty(content: &Option<String>) -> (r: bool)
    ensures
        r == match text_opt(*content) {
            Some(t) => trimmed(t).len() == 0,
            None => true,
        },
{
    match content {
        Some(t) => is_blank(t.as_str()),
        None => true,
    }
}

/// Where a record with that id stands: the first such, or nowhere.
pub open spec fn place_of(list: Seq<Schedule>, id: Seq<char>) -> Option<int>
    decreases list.len(),
{
    if list.len() == 0 {
        None
    } else {
        match place_of(list.drop_last(), id) {
            Some(i) => Some(i),
            None => if list.last().id@ == id {
                Some(list.len() - 1)
            } else {
                None
            },
        }
    }
}

/// The place of a record is the first that has its id.
pub proof fn lemma_place_of(list: Seq<Schedule>, id: Seq<char>)
    ensures
        match place_of(list, id) {
            Some(i) => 0 <= i < list.len() && list[i].id@ == id && forall|j: int|
                0 <= j < i ==> (#[trigger] list[j]).id@ != id,
            None => forall|j: int| 0 <= j < list.len() ==> (#[trigger] list[j]).id@ != id,
        },
    decreases list.len(),
{
    if list.len() > 0 {
        lemma_place_of(list.drop_last(), id);
        let front = list.drop_last();
        assert forall|j: int| 0 <= j < front.len() implies front[j] == list[j] by {}
        match place_of(front, id) {
            Some(i) => {
                assert forall|j: int| 0 <= j < i implies (#[trigger] list[j]).id@ != id by {
                    assert(front[j].id@ != id);
                }
            },
            None => {
                assert forall|j: int| 0 <= j < front.len() implies (#[trigger] list[j]).id@ != id by {
                    assert(front[j].id@ != id);
                }
            },
        }
    }
}

/// Where a record with that id stands.
pub fn find_schedule(list: &Vec<Schedule>, id: &str) -> (r: Option<usize>)
    ensures
        match r {
            Some(i) => place_of(list@, id@) == Some(i as int) && i < list@.len() && list@[i as int].id@ == id@,
            None => place_of(list@, id@) is None,
        },
{
    proof {
        lemma_place_of(list@, id@);
    }
    let mut i: usize = 0;
    while i < list.len()
        invariant
            i <= list@.len(),
            forall|j: int| 0 <= j < i ==> (#[trigger] list@[j]).id@ != id@,
            match place_of(list@, id@) {
                Some(p) => 0 <= p < list@.len() && list@[p].id@ == id@ && forall|j: int|
                    0 <= j < p ==> (#[trigger] list@[j]).id@ != id@,
                None => forall|j: int| 0 <= j < list@.len() ==> (#[trigger] list@[j]).id@ != id@,
            },
        decreases list@.len() - i,
    {
        if same(list[i].id.as_str(), id) {
            return Some(i);
        }
        i = i + 1;
    }
    None
}

/// A schedule is found by its id: the first that has it.
pub proof fn law_a_schedule_is_found_by_its_id(list: Seq<Schedule>, id: Seq<char>, i: int)
    ensures
        0 <= i < list.len() && list[i].id@ == id && (forall|j: int|
            0 <= j < i ==> (#[trigger] list[j]).id@ != id) ==> place_of(list, id) == Some(i),
        (forall|j: int| 0 <= j < list.len() ==> (#[trigger] list[j]).id@ != id) ==> place_of(list, id)
            is None,
{
    lemma_place_of(list, id);
}

} // verus!
