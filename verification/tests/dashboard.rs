use duckle::catalog::{build, PipelineFile};
use duckle::dashboard::{
    acknowledgement, api_catalog, api_log, api_params, api_pipelines, api_runs, api_schedules,
    api_summary, discover_pipelines, find_pipeline, log_path, no_catalog, read_pipeline_file,
    repo_names, run_report, sanitize_segment, scheduled_outcome, workspace_memory_limit,
    History, Listed, NodeResult, Pipeline, WorkspaceFile,
};
use duckle::http::respond_json;
use duckle::json::Json;
use duckle::order::TextMap;
use duckle::panel::PanelEntry;
use duckle::runs::RunRecord;
use serde_json::Value;

fn value(j: &Json) -> Value {
    serde_json::from_slice(&respond_json(j).body).unwrap()
}

fn file(path: &str, text: &str) -> WorkspaceFile {
    WorkspaceFile { path: path.to_string(), text: text.to_string() }
}

fn found(path: &str, text: &str) -> Pipeline {
    discover_pipelines(&vec![file(path, text)], false).remove(0)
}

fn record(at: &str, status: &str) -> RunRecord {
    RunRecord {
        at: at.to_string(),
        status: status.to_string(),
        duration_ms: 5,
        rows: Some(3),
        node_count: 2,
        trigger: "manual".to_string(),
        error: None,
        category: None,
    }
}

fn texts(pairs: &[(&str, &str)]) -> TextMap<String> {
    let mut m: TextMap<String> = TextMap::new();
    for (k, v) in pairs {
        m.insert(k.to_string(), v.to_string());
    }
    m
}

#[test]
fn the_pipeline_reader_refuses_anything_that_is_not_a_pipeline() {
    // The workspace also holds the account hashes and the connection files, and
    // this is for viewers.
    let leaked = read_pipeline_file(
        "connections/prod-db.json",
        "/w/connections/prod-db.json",
        r#"{ "name": "prod", "payload": "<ciphertext>" }"#,
    );
    assert_eq!(leaked.unwrap_err(), "connections/prod-db.json is not a pipeline");
    let real = read_pipeline_file(
        "pipelines/real.json",
        "/w/pipelines/real.json",
        r#"{ "name": "real", "nodes": [], "edges": [] }"#,
    );
    assert!(real.is_ok(), "a real pipeline still reads");
    let broken = read_pipeline_file("x", "/w/x", "{").unwrap_err();
    let expected = serde_json::from_str::<Value>("{").unwrap_err();
    assert_eq!(broken, format!("parse /w/x: {expected}"));
}

#[test]
fn pipelines_are_found_and_listed_by_name() {
    let list = discover_pipelines(&vec![
        file("/w/b.json", r#"{"nodes":[]}"#),
        file("/w/broken.json", "{"),
        file("/w/x/A.json", r#"{"nodes":[1]}"#),
        file("/w/settings.json", r#"{"nodes":7}"#),
        file("/w/É.json", r#"{"nodes":[]}"#),
        file("/w/é.json", r#"{"nodes":[1,2]}"#),
        file("/w/a.json", r#"{"nodes":[]}"#),
    ], false);
    let ids: Vec<&str> = list.iter().map(|p| p.id.as_str()).collect();
    // Case counts alike, and what counts alike stays as it stood.
    assert_eq!(ids, vec!["A", "a", "b", "É", "é"]);
    assert_eq!(list[0].path, "/w/x/A.json");
}

#[test]
fn names_come_from_the_repository() {
    let names = repo_names(Some(
        r#"[{"id":"a","name":"First"},{"id":"b","name":"  "},{"name":"x"},{"id":"a","name":"Last"}]"#,
    ));
    assert_eq!(names.get("a").map(String::as_str), Some("Last"));
    assert!(!names.has("b"));
    assert_eq!(repo_names(Some("{}")).len(), 0);
    assert_eq!(repo_names(Some("oops")).len(), 0);
    assert_eq!(repo_names(None).len(), 0);
}

#[test]
fn the_list_of_pipelines_shows_what_is_known() {
    let mut entries: TextMap<PanelEntry> = TextMap::new();
    entries.insert(
        "a".to_string(),
        PanelEntry { id: "s1".to_string(), enabled: true, interval_seconds: 90, cron: String::new() },
    );
    let rows = vec![
        Listed {
            pipeline: found("/w/pipelines/a.json", r#"{"name":" Own ","nodes":[1,2],"edges":[1]}"#),
            last: Some(record("2026-01-01T00:00:00Z", "ok")),
            running: true,
            next_at: Some("2026-01-01T00:01:30Z".to_string()),
        },
        Listed {
            pipeline: found("/w/pipelines/b.json", r#"{"nodes":[]}"#),
            last: None,
            running: false,
            next_at: None,
        },
    ];
    let v = value(&api_pipelines("/w", &rows, &entries, &texts(&[("b", "Bee")]), false));
    let a = &v["pipelines"][0];
    assert_eq!(a["file"], "pipelines/a.json");
    assert_eq!(a["id"], "a");
    assert_eq!(a["name"], "Own");
    assert_eq!(a["nodeCount"], 2);
    assert_eq!(a["edgeCount"], 1);
    assert_eq!(a["lastStatus"], "ok");
    assert_eq!(a["lastAt"], "2026-01-01T00:00:00Z");
    assert_eq!(a["lastDurationMs"], 5);
    assert_eq!(a["lastRows"], 3);
    assert_eq!(a["schedule"]["id"], "s1");
    assert_eq!(a["schedule"]["intervalSeconds"], 90);
    assert_eq!(a["schedule"]["intervalMinutes"], 1);
    assert_eq!(a["running"], true);
    assert_eq!(a["nextRunAt"], "2026-01-01T00:01:30Z");
    let b = &v["pipelines"][1];
    assert_eq!(b["name"], "Bee");
    assert_eq!(b["edgeCount"], 0);
    assert!(b["lastStatus"].is_null() && b["lastRows"].is_null() && b["nextRunAt"].is_null());
    assert_eq!(b["schedule"]["enabled"], false);
    assert_eq!(b["schedule"]["intervalSeconds"], 0);
}

#[test]
fn the_summary_counts_what_went_well() {
    let v = value(&api_summary(
        2,
        &vec![record("1", "ok"), record("2", "error"), record("3", "ok")],
        "/w",
    ));
    assert_eq!(v["pipelineCount"], 2);
    assert_eq!(v["totalRuns"], 3);
    assert_eq!(v["ok"], 2);
    assert_eq!(v["failed"], 1);
    assert_eq!(v["workspace"], "/w");
}

#[test]
fn runs_are_listed_newest_first() {
    let mut failed = record("2026-01-02", "error");
    failed.error = Some("boom".to_string());
    failed.category = Some("network".to_string());
    let histories = vec![
        History {
            pipeline: found("/w/a.json", r#"{"nodes":[]}"#),
            records: vec![record("2026-01-01", "ok"), failed],
        },
        History {
            pipeline: found("/w/b.json", r#"{"nodes":[]}"#),
            records: vec![record("2026-01-03", "ok"), record("2026-01-01", "ok")],
        },
    ];
    let names = texts(&[]);
    let v = value(&api_runs("/w", &histories, None, &names, false));
    let order: Vec<(String, String)> = v["runs"]
        .as_array()
        .unwrap()
        .iter()
        .map(|r| (r["at"].as_str().unwrap().to_string(), r["id"].as_str().unwrap().to_string()))
        .collect();
    let expected: Vec<(String, String)> =
        [("2026-01-03", "b"), ("2026-01-02", "a"), ("2026-01-01", "a"), ("2026-01-01", "b")]
            .iter()
            .map(|(a, b)| (a.to_string(), b.to_string()))
            .collect();
    assert_eq!(order, expected);
    assert_eq!(v["runs"][1]["error"], "boom");
    assert_eq!(v["runs"][1]["category"], "network");
    assert_eq!(v["runs"][1]["trigger"], "manual");
    assert_eq!(v["runs"][1]["file"], "a.json");
    let only = value(&api_runs("/w", &histories, Some("b"), &names, false));
    assert_eq!(only["runs"].as_array().unwrap().len(), 2);
}

#[test]
fn a_run_is_reported_node_by_node() {
    let v = value(&run_report(
        "p",
        "error",
        12,
        &Some("boom".to_string()),
        &vec![NodeResult {
            id: "n1".to_string(),
            status: "ok".to_string(),
            rows: Some(4),
            duration_ms: None,
            error: None,
        }],
    ));
    assert_eq!(v["id"], "p");
    assert_eq!(v["durationMs"], 12);
    assert_eq!(v["error"], "boom");
    assert_eq!(v["nodes"][0]["rows"], 4);
    assert!(v["nodes"][0]["error"].is_null());
}

#[test]
fn what_is_put_down_against_a_schedule() {
    let ok = scheduled_outcome(&Ok(run_report("p", "ok", 9, &None, &vec![])));
    assert_eq!((ok.status.as_str(), ok.duration_ms, ok.alert), ("ok", 9, false));
    assert!(ok.error.is_none());
    let odd = scheduled_outcome(&Ok(Json::Null));
    assert_eq!((odd.status.as_str(), odd.duration_ms), ("?", 0));
    let err = scheduled_outcome(&Err("not found: p".to_string()));
    assert_eq!((err.status.as_str(), err.duration_ms, err.alert), ("error", 0, true));
    assert_eq!(err.error.as_deref(), Some("not found: p"));
}

#[test]
fn the_end_of_a_log_is_shown() {
    let log = "{\"m\":1}\n\n  \nplain text\n{\"m\":2}\n";
    let v = value(&api_log(&texts(&[("id", "p/q"), ("tail", "2")]), "/w", Some(log), false));
    assert_eq!(v["entries"].as_array().unwrap().len(), 2);
    assert_eq!(v["entries"][0]["raw"], "plain text");
    assert_eq!(v["entries"][1]["m"], 2);
    assert_eq!(v["file"], "/w/logs/p_q/runtime.log");
    let all = value(&api_log(&texts(&[("id", "p")]), "/w", Some(log), false));
    assert_eq!(all["entries"].as_array().unwrap().len(), 3);
    let none = value(&api_log(&texts(&[("id", "p")]), "/w", None, false));
    assert_eq!(none["entries"].as_array().unwrap().len(), 0);
    assert_eq!(none["file"], "/w/logs/p/runtime.log");
    let nobody = value(&api_log(&texts(&[]), "/w", Some(log), false));
    assert!(nobody.get("file").is_none());
}

#[test]
fn log_folders_are_named_as_the_engine_names_them() {
    assert_eq!(sanitize_segment("a b/c.d-e_f"), "a_b_c.d-e_f");
    assert_eq!(sanitize_segment("日次"), "日次");
    assert_eq!(sanitize_segment(""), "pipeline");
    assert_eq!(log_path("/w", "é!", false), "/w/logs/é_/runtime.log");
}

#[test]
fn the_graph_is_sent_with_its_gaps() {
    let node = |id: &str, c: &str, p: &str| {
        format!("{{\"id\":\"{id}\",\"data\":{{\"componentId\":\"{c}\",\"properties\":{{\"path\":\"{p}\"}}}}}}")
    };
    let cat = build(&vec![PipelineFile {
        name: "p.json".to_string(),
        text: format!(
            "{{\"nodes\":[{},{},{{\"id\":\"z\",\"data\":{{\"componentId\":\"snk.odd\",\"properties\":{{}}}}}}]}}",
            node("a", "src.csv", "/in.csv"),
            node("b", "snk.csv", "/out.csv")
        ),
    }]);
    let v = value(&api_catalog(&cat, &texts(&[("/in.csv", "Data Platform")]), true));
    assert_eq!(v["assets"][0]["id"], "/in.csv");
    assert_eq!(v["assets"][0]["readBy"][0], "p");
    assert_eq!(v["assets"][0]["owner"], "Data Platform");
    assert_eq!(v["assets"][1]["writtenBy"][0], "p");
    assert!(v["assets"][1]["owner"].is_null());
    assert_eq!(v["orphans"][0], "/out.csv");
    assert_eq!(v["externals"][0], "/in.csv");
    assert_eq!(v["pipelines"], 1);
    assert_eq!(v["unresolved"], 1);
    assert_eq!(v["hasOwners"], true);
}

#[test]
fn the_workspace_may_limit_memory() {
    let settings = Some(r#"{"memory_limit_mb":512}"#);
    assert_eq!(workspace_memory_limit(None, settings).as_deref(), Some("512MB"));
    assert_eq!(workspace_memory_limit(Some(""), settings).as_deref(), Some("512MB"));
    assert_eq!(workspace_memory_limit(Some("1GB"), settings), None);
    assert_eq!(workspace_memory_limit(None, Some(r#"{"memory_limit_mb":0}"#)), None);
    assert_eq!(workspace_memory_limit(None, Some("x")), None);
    assert_eq!(workspace_memory_limit(None, None), None);
}

#[test]
fn schedules_are_sent_by_pipeline() {
    let mut entries: TextMap<PanelEntry> = TextMap::new();
    for (id, seconds) in [("nightly", 90), ("hourly", 3600)] {
        entries.insert(
            id.to_string(),
            PanelEntry {
                id: format!("panel-{id}"),
                enabled: true,
                interval_seconds: seconds,
                cron: String::new(),
            },
        );
    }
    let sent = api_schedules(&entries);
    let v = value(&sent);
    assert_eq!(v["nightly"]["intervalSeconds"], 90);
    assert_eq!(v["nightly"]["intervalMinutes"], 1);
    assert_eq!(v["hourly"]["id"], "panel-hourly");
    match &sent {
        Json::Object(m) => assert_eq!(m[0].0, "hourly"),
        _ => unreachable!(),
    }
    assert_eq!(value(&api_schedules(&TextMap::new())).to_string(), "{}");
}

#[test]
fn short_answers_say_what_they_should() {
    assert_eq!(value(&acknowledgement()).to_string(), r#"{"ok":true}"#);
    assert_eq!(value(&no_catalog("parse catalog.json: x")).to_string(), r#"{"error":"parse catalog.json: x"}"#);
    let params = api_params(&vec!["region".to_string(), "day".to_string()]);
    assert_eq!(value(&params).to_string(), r#"{"params":["region","day"]}"#);
}

#[test]
fn of_several_files_with_one_name_the_last_is_run() {
    let list = discover_pipelines(&vec![
        file("/w/a/load.json", r#"{"nodes":[]}"#),
        file("/w/b/load.json", r#"{"nodes":[]}"#),
        file("/w/zz.json", r#"{"nodes":[]}"#),
    ], false);
    let at = find_pipeline(&list, "load").unwrap();
    assert_eq!(list[at].path, "/w/b/load.json");
    assert_eq!(find_pipeline(&list, "gone"), None);
}

#[test]
fn numbers_in_a_log_are_sent_as_they_were_read() {
    let log = "{\"share\":0.99622830388368595,\"change\":-3}\n";
    let sent = respond_json(&api_log(&texts(&[("id", "p")]), "/w", Some(log), false)).body;
    let sent = String::from_utf8(sent).unwrap();
    assert!(sent.contains("{\"change\":-3,\"share\":0.9962283038836859}"), "{sent}");
}
