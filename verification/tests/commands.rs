use duckle::args::{choose_token, parse_serve_args, parse_web_args, plain_path, Command, ServeArgs, WebArgs};
use duckle::catalog::{build, Catalog, PipelineFile};
use duckle::catalog_cmd::{
    asset_lines, build_lines, contacts_for, impact_note, impact_report, names_asset, orphan_lines,
    owner_report, parse_catalog_args, report_unresolved, CatalogCommand, OwnerRule, Ownership,
};
use duckle::order::TextMap;
use duckle::pixeltable_engine::{
    install_args, install_done, python_path, root, tail, venv_args, venv_made, venv_path,
};

fn args(line: &str) -> Vec<String> {
    line.split(' ').filter(|s| !s.is_empty()).map(|s| s.to_string()).collect()
}

fn serve(line: &str, setting: Option<&str>) -> ServeArgs {
    match parse_serve_args(&args(line), setting) {
        Ok(Command::Run(a)) => a,
        other => panic!("{other:?}"),
    }
}

fn web(line: &str) -> WebArgs {
    match parse_web_args(&args(line)) {
        Ok(Command::Run(a)) => a,
        other => panic!("{other:?}"),
    }
}

#[test]
fn the_console_starts_on_this_machine_unless_told_otherwise() {
    let a = serve("", None);
    assert_eq!((a.host.as_str(), a.port, a.workspace.as_str()), ("127.0.0.1", 8080, "."));
    assert!(a.duckdb.is_none() && a.token.is_none());
    assert_eq!(a.tick_interval, 15);
    let a = serve(
        "--host 0.0.0.0 --port 9 --workspace /w --duckdb /d --token t --tick-interval 3",
        Some("7"),
    );
    assert_eq!((a.host.as_str(), a.port, a.workspace.as_str()), ("0.0.0.0", 9, "/w"));
    assert_eq!((a.duckdb.as_deref(), a.token.as_deref()), (Some("/d"), Some("t")));
    assert_eq!(a.tick_interval, 3);
    assert_eq!(serve("", Some("7")).tick_interval, 7);
    assert_eq!(serve("", Some("0")).tick_interval, 15);
    assert_eq!(serve("", Some("x")).tick_interval, 15);
    assert_eq!(serve("--tick-interval 0", Some("7")).tick_interval, 15);
}

#[test]
fn what_is_wrong_with_serve_arguments_is_said() {
    let said = |line: &str| parse_serve_args(&args(line), None).unwrap_err();
    assert_eq!(said("--port"), "--port needs a value");
    assert_eq!(said("--port many"), "--port must be a number");
    assert_eq!(said("--port 65536"), "--port must be a number");
    assert_eq!(said("--tick-interval x"), "--tick-interval must be a number (seconds)");
    assert_eq!(said("--dist x"), "unknown serve argument: --dist");
    assert!(matches!(parse_serve_args(&args("--port 1 -h --oops"), None), Ok(Command::Help)));
    assert!(parse_serve_args(&args("--oops -h"), None).is_err());
}

#[test]
fn the_editor_needs_its_frontend() {
    let a = web("--dist /dist");
    assert_eq!((a.host.as_str(), a.port, a.dist.as_str()), ("127.0.0.1", 8090, "/dist"));
    assert_eq!(parse_web_args(&args("")).unwrap_err(), "web mode needs --dist <frontend dist dir>");
    assert_eq!(
        parse_web_args(&args("--tick-interval 3")).unwrap_err(),
        "unknown web argument: --tick-interval"
    );
    assert!(matches!(parse_web_args(&args("--help")), Ok(Command::Help)));
}

#[test]
fn a_blank_token_is_none() {
    let t = |s: &str| Some(s.to_string());
    assert_eq!(choose_token(t("a"), t("b")), t("a"));
    assert_eq!(choose_token(None, t("b")), t("b"));
    assert_eq!(choose_token(None, t("  ")), None);
    assert_eq!(choose_token(t(" "), t("b")), None);
    assert_eq!(choose_token(None, None), None);
    assert_eq!(plain_path(r"\\?\C:\work"), r"C:\work");
    assert_eq!(plain_path("/w"), "/w");
}

#[test]
fn the_graph_is_asked_from_the_command_line() {
    let q = parse_catalog_args(&args("impact /lake/x --workspace /w --json")).unwrap();
    assert!(matches!(&q.command, CatalogCommand::Impact(a) if a == "/lake/x"));
    assert_eq!(q.workspace, "/w");
    assert!(q.as_json);
    let q = parse_catalog_args(&args("build")).unwrap();
    assert!(matches!(q.command, CatalogCommand::Build));
    assert_eq!(q.workspace, ".");
    assert!(matches!(parse_catalog_args(&args("assets")).unwrap().command, CatalogCommand::Assets));
    assert!(matches!(parse_catalog_args(&args("owners")).unwrap().command, CatalogCommand::Owners));
    assert!(matches!(parse_catalog_args(&args("orphans")).unwrap().command, CatalogCommand::Orphans));
    assert!(matches!(parse_catalog_args(&args("")).unwrap().command, CatalogCommand::Help));
    let said = |line: &str| parse_catalog_args(&args(line)).unwrap_err();
    assert_eq!(
        said("impact"),
        "impact needs an asset, e.g. `catalog impact /lake/staged.parquet`"
    );
    assert_eq!(said("build --workspace"), "--workspace needs a value");
    assert_eq!(said("build --fast"), "unknown argument: --fast");
    assert_eq!(said("dance"), "unknown catalog command: dance");
}

fn node(id: &str, component: &str, path: &str) -> String {
    format!(
        "{{\"id\":\"{id}\",\"data\":{{\"componentId\":\"{component}\",\"properties\":{{\"path\":\"{path}\"}}}}}}"
    )
}

fn pipeline(id: &str, nodes: &[String]) -> PipelineFile {
    PipelineFile {
        name: format!("{id}.json"),
        text: format!("{{\"nodes\":[{}]}}", nodes.join(",")),
    }
}

fn graph() -> Catalog {
    build(&vec![
        pipeline("one", &[node("a", "src.csv", "/in.csv"), node("b", "snk.csv", "/mid.csv")]),
        pipeline("two", &[node("a", "src.csv", "/mid.csv"), node("b", "snk.csv", "/out.csv")]),
    ])
}

fn rules(pairs: &[(&str, &str, Option<&str>)]) -> TextMap<OwnerRule> {
    let mut m: TextMap<OwnerRule> = TextMap::new();
    for (id, owner, contact) in pairs {
        m.insert(
            id.to_string(),
            OwnerRule { owner: owner.to_string(), contact: contact.map(|c| c.to_string()) },
        );
    }
    m
}

fn owners() -> Ownership {
    Ownership {
        pipelines: rules(&[("one", "Ingest", Some("i@x.test"))]),
        assets: rules(&[("/mid.csv", "Ingest", Some("i@x.test")), ("/out.csv", "BI", None)]),
    }
}

#[test]
fn the_graph_is_told_in_lines() {
    let cat = graph();
    let (built, written) = build_lines(&cat, "/w/.duckle/catalog.json");
    assert_eq!(built, "2 pipelines, 3 assets, 4 links.");
    assert_eq!(written, "Written to /w/.duckle/catalog.json");
    let row = |w: usize, r: usize, id: &str| format!("{:<9} {:<3}w {:<3}r  {}", "file", w, r, id);
    assert_eq!(
        asset_lines(&cat, "/w"),
        vec![row(0, 1, "/in.csv"), row(1, 1, "/mid.csv"), row(1, 0, "/out.csv")]
    );
    assert_eq!(asset_lines(&build(&vec![]), "/w"), vec!["No assets. Are there pipelines in /w?"]);
    assert_eq!(
        orphan_lines(&cat).join("\n"),
        format!(
            "Written but never read here:\n  {:<9} {}\n\nThese may be real outputs the workspace hands to something else.\nNothing is inferred about whether they are safe to remove.",
            "file", "/out.csv"
        )
    );
    assert_eq!(orphan_lines(&build(&vec![])), vec!["Everything written is read by something."]);
}

#[test]
fn what_changing_a_thing_reaches_is_told_with_whom_to_tell() {
    let cat = graph();
    let hit = cat.impact("/in.csv");
    let (lines, code) = impact_report(&cat, &hit, "/in.csv", &owners());
    assert_eq!(code, 0);
    assert_eq!(
        lines,
        vec![
            "Changing /in.csv reaches:".to_string(),
            "   1 hop  pipeline  one  [Ingest]".to_string(),
            "   2 hop  pipeline  two".to_string(),
            "   1 hop  asset     /mid.csv  [Ingest]".to_string(),
            "   2 hop  asset     /out.csv  [BI]".to_string(),
            "\nTell: Ingest <i@x.test>, BI".to_string(),
        ]
    );
    assert_eq!(contacts_for(&owners(), &hit), vec!["Ingest <i@x.test>", "BI"]);
    let (lines, code) = impact_report(&cat, &cat.impact("/out.csv"), "/out.csv", &owners());
    assert_eq!((lines, code), (vec!["Nothing reads /out.csv.".to_string()], 0));
}

#[test]
fn a_mistyped_asset_is_a_miss_and_not_an_all_clear() {
    let cat = graph();
    assert!(names_asset(&cat, "/in.csv"));
    let miss = "No pipeline names '/im.csv'. Run `catalog assets` to see the names in use.";
    let (lines, code) = impact_report(&cat, &cat.impact("/im.csv"), "/im.csv", &owners());
    assert_eq!((lines, code), (vec![miss.to_string()], 1));
    assert_eq!(impact_note(&cat, "/im.csv"), (Some(miss.to_string()), 1));
    assert_eq!(impact_note(&cat, "/in.csv"), (None, 0));
}

#[test]
fn who_owns_what_is_told() {
    let lines = owner_report(&graph(), &owners(), true, "/w/owners.json");
    assert_eq!(
        lines,
        vec![
            "2 of 3 assets have an owner.".to_string(),
            format!("  {:<20} {}", "-", "/in.csv"),
            format!("  {:<20} {}", "Ingest", "/mid.csv"),
            format!("  {:<20} {}", "BI", "/out.csv"),
            "\nPipelines with no owner: two".to_string(),
        ]
    );
    let nobody = Ownership { pipelines: TextMap::new(), assets: TextMap::new() };
    let lines = owner_report(&graph(), &nobody, false, "/w/owners.json");
    assert_eq!(lines[0], "No /w/owners.json, so nothing has an owner yet.");
    assert_eq!(lines[1], "0 of 3 assets have an owner.");
    assert_eq!(lines.last().unwrap(), "\nPipelines with no owner: one, two");
}

#[test]
fn what_could_not_be_named_is_said_after_every_answer() {
    assert!(report_unresolved(&graph()).is_empty());
    let odd: Vec<String> = (0..12)
        .map(|i| format!("{{\"id\":\"n{i}\",\"data\":{{\"componentId\":\"snk.odd\",\"properties\":{{}}}}}}"))
        .collect();
    let lines = report_unresolved(&build(&vec![pipeline("p", &odd)]));
    assert_eq!(lines.len(), 12);
    assert_eq!(
        lines[0],
        "\n12 source/sink node(s) could not be named, so the answers above may be incomplete:"
    );
    assert_eq!(lines[1], "  p / n0 (snk.odd)");
    assert_eq!(lines[11], "  ... and 2 more");
    let few = report_unresolved(&build(&vec![pipeline("p", &odd[..2])]));
    assert_eq!(few.len(), 3);
}

#[test]
fn python_is_kept_in_one_folder() {
    assert_eq!(root("/data", false), "/data/pixeltable");
    assert_eq!(venv_path("/data", false), "/data/pixeltable/venv");
    assert_eq!(python_path("/data", false), "/data/pixeltable/venv/bin/python");
    assert_eq!(python_path("C:\\data", true), "C:\\data\\pixeltable\\venv\\Scripts\\python.exe");
    assert_eq!(venv_args("/v"), vec!["venv", "--python", "3.12", "/v"]);
    assert_eq!(install_args("/p"), vec!["pip", "install", "pixeltable", "--python", "/p"]);
}

#[test]
fn a_tool_that_fails_is_quoted_from_its_end() {
    assert_eq!(tail("  a\nb\r\nc\n"), "c | b | a");
    let long: Vec<String> = (1..=12).map(|i| i.to_string()).collect();
    assert_eq!(tail(&long.join("\n")), "12 | 11 | 10 | 9 | 8 | 7 | 6 | 5");
    assert_eq!(tail(""), "");
    assert!(venv_made(true, "noise").is_ok());
    assert_eq!(venv_made(false, "x\ny").unwrap_err(), "uv venv failed: y | x");
    assert!(install_done(true, true, "noise").is_ok());
    assert_eq!(install_done(false, true, "x").unwrap_err(), "installing pixeltable failed: x");
    assert!(install_done(true, false, "x").is_err());
}
