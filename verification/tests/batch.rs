use duckle::batch::{
    accept, batch_path, batches_dir, frame, lines_in, new_batch_id, temporary_name, WorkItem,
    BATCH_VERSION,
};
use duckle::moment::Moment;
use duckle::order::TextMap;

fn item(index: usize, name: &str) -> WorkItem {
    let mut vars: TextMap<String> = TextMap::new();
    vars.insert("ITER_ITEM_TABLE_NAME".to_string(), name.to_string());
    WorkItem {
        v: BATCH_VERSION,
        batch: "b".to_string(),
        index,
        item: Some(name.to_string()),
        child: "child".to_string(),
        vars,
    }
}

/// 2026-08-16T10:11:12Z.
fn dispatched() -> Moment {
    Moment { secs: 1_786_875_072, nanos: 0 }
}

#[test]
fn a_batch_id_is_unique_per_dispatch_and_names_its_node() {
    let t1 = dispatched();
    let a = new_batch_id("foreach-1", t1);
    let b = new_batch_id("foreach-1", Moment { secs: t1.secs, nanos: 7_000_000 });
    assert_ne!(a, b, "two dispatches in the same second collided");
    assert!(a.starts_with("foreach-1-"), "{a}");
    // A node id that would escape the folder cannot.
    assert!(!new_batch_id("../../etc/passwd", t1).contains('/'));
    assert_eq!(b, "foreach-1-20260816T101112007");
}

#[test]
fn a_batch_reads_back_one_line_per_item() {
    let raw = frame(&vec!["{\"v\":1,\"i\":0}".to_string(), "{\"v\":1,\"i\":1}".to_string()]);
    assert_eq!(raw, "{\"v\":1,\"i\":0}\n{\"v\":1,\"i\":1}\n");
    assert_eq!(lines_in(&raw), vec!["{\"v\":1,\"i\":0}", "{\"v\":1,\"i\":1}"]);
    assert_eq!(lines_in("\n  \nx\n"), vec!["x"]);
}

#[test]
fn a_damaged_line_costs_one_item() {
    let (kept, skipped) = accept(vec![Some(item(0, "orders")), Some(item(1, "customers")), None]);
    assert_eq!(kept.len(), 2, "the intact items must survive a torn line");
    assert_eq!(skipped, 1);
    assert_eq!(kept[1].item.as_deref(), Some("customers"));
    assert_eq!(kept[1].vars.get("ITER_ITEM_TABLE_NAME").map(String::as_str), Some("customers"));
}

#[test]
fn a_line_from_a_future_format_is_not_run() {
    let mut future = item(1, "customers");
    future.v = 99;
    let (kept, skipped) = accept(vec![Some(item(0, "orders")), Some(future)]);
    assert_eq!(kept.len(), 1, "a v99 line must not be run by a v1 worker");
    assert_eq!(skipped, 1);
}

#[test]
fn where_batches_are_kept() {
    assert_eq!(batches_dir("/w", false), "/w/batches");
    assert!(batch_path("/w", "b1", false).starts_with("/w/batches/"));
    assert!(temporary_name("b1", 7).contains("tmp"));
    assert_ne!(temporary_name("b1", 7), temporary_name("b1", 8));
}

#[test]
fn a_written_batch_reads_back_whole_with_a_torn_line_behind_it() {
    let read = |line: &str| match line {
        "a" => Some(item(0, "orders")),
        "b" => Some(item(1, "customers")),
        _ => None,
    };
    let raw = frame(&vec!["a".to_string(), "b".to_string()]) + "{\"v\":1,\n\n  \n{";
    let (kept, skipped) = accept(lines_in(&raw).iter().map(|l| read(l)).collect());
    let names: Vec<Option<&str>> = kept.iter().map(|i| i.item.as_deref()).collect();
    assert_eq!(names, vec![Some("orders"), Some("customers")]);
    assert_eq!(skipped, 2);
}
