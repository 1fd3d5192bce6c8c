use duckle::asset::asset_of;
use duckle::catalog::{build, catalog_path, pipeline_files, Catalog, Direction, PipelineFile};
use duckle::json::Json;
use serde_json::Value;

fn to_json(v: &Value) -> Json {
    match v {
        Value::Null => Json::Null,
        Value::Bool(b) => Json::Bool(*b),
        Value::Number(n) => n.as_u64().map_or(Json::OtherNumber(n.clone()), Json::Number),
        Value::String(s) => Json::Text(s.clone()),
        Value::Array(a) => Json::List(a.iter().map(to_json).collect()),
        Value::Object(m) => Json::Object(m.iter().map(|(k, x)| (k.clone(), to_json(x))).collect()),
    }
}

fn props(text: &str) -> Json {
    to_json(&serde_json::from_str(text).unwrap())
}

fn node(id: &str, component: &str, properties: &str) -> String {
    format!(
        "{{\"id\":\"{id}\",\"data\":{{\"componentId\":\"{component}\",\"properties\":{properties}}}}}"
    )
}

fn pipeline(id: &str, nodes: &[String]) -> PipelineFile {
    PipelineFile {
        name: format!("{id}.json"),
        text: format!("{{\"name\":\"{id}\",\"nodes\":[{}],\"edges\":[]}}", nodes.join(",")),
    }
}

#[test]
fn a_table_is_named_the_same_way_from_either_end() {
    let p = props(
        r#"{ "host": "db.internal", "port": "5432", "database": "sales", "schema": "public", "tableName": "orders" }"#,
    );
    let reader = asset_of("src.postgres", &p).unwrap();
    let writer = asset_of("snk.postgres", &p).unwrap();
    assert_eq!(reader.id, writer.id);
    assert_eq!(reader.id, "postgres://db.internal:5432/sales.public.orders");
    assert_eq!(reader.kind, "table");
}

#[test]
fn the_same_file_written_two_ways_is_one_asset() {
    let windows = asset_of("snk.parquet", &props(r#"{ "path": "C:\\data\\orders.parquet" }"#)).unwrap();
    let posix = asset_of("src.parquet", &props(r#"{ "path": "c:/data/orders.parquet" }"#)).unwrap();
    assert_eq!(windows.id, posix.id, "one file was counted as two assets");

    // A remote path keeps its scheme and is not a local file.
    let remote =
        asset_of("snk.s3", &props(r#"{ "path": "s3://bucket/curated/orders.parquet" }"#)).unwrap();
    assert_eq!(remote.kind, "object");
    assert_eq!(remote.id, "s3://bucket/curated/orders.parquet");
}

#[test]
fn a_dated_path_stays_one_asset_rather_than_one_per_day() {
    let p = props(r#"{ "path": "/exports/orders_${date}.csv" }"#);
    let a = asset_of("snk.csv", &p).unwrap();
    let b = asset_of("src.csv", &p).unwrap();
    assert_eq!(a.id, b.id);
    assert!(a.id.contains("${date}"), "the placeholder was expanded away");
}

#[test]
fn streams_and_collections_and_endpoints_are_named() {
    let topic =
        asset_of("src.kafka", &props(r#"{ "brokers": "a:9092,b:9092", "topic": "orders" }"#)).unwrap();
    assert_eq!(topic.id, "kafka://a:9092/orders");
    assert_eq!(topic.kind, "topic");

    let coll = asset_of(
        "snk.mongodb",
        &props(r#"{ "uri": "mongodb://m:27017/", "database": "sales", "collection": "orders" }"#),
    )
    .unwrap();
    assert_eq!(coll.id, "mongodb://m:27017/sales.orders");

    // Paging parameters must not split one endpoint into many assets.
    let api =
        asset_of("src.rest", &props(r#"{ "url": "https://api.example.com/v1/orders?page=3" }"#)).unwrap();
    assert_eq!(api.id, "https://api.example.com/v1/orders");
}

#[test]
fn every_connector_family_yields_a_name() {
    let cases: Vec<(&str, &str, &str)> = vec![
        ("src.csv", r#"{ "path": "/in/a.csv" }"#, "file"),
        ("snk.gcs", r#"{ "bucket": "warehouse", "key": "/curated/a.parquet" }"#, "object"),
        ("src.kafka", r#"{ "brokers": "a:9092", "topic": "orders" }"#, "topic"),
        ("src.elastic", r#"{ "endpoint": "http://es:9200", "index": "orders" }"#, "index"),
        ("src.qdrant", r#"{ "collection": "embeddings" }"#, "collection"),
        ("snk.postgres", r#"{ "host": "db", "database": "sales", "tableName": "orders" }"#, "table"),
        ("snk.lancedb", r#"{ "uri": "/lake/lance", "table": "vectors" }"#, "table"),
        ("snk.salesforce", r#"{ "object": "Account" }"#, "object"),
        ("src.rest", r#"{ "url": "https://api.example.com/orders" }"#, "api"),
        ("src.sqlite", r#"{ "database": "/data/app.db" }"#, "database"),
        ("src.clickhouse", r#"{ "endpoint": "http://ch:8123" }"#, "database"),
        ("src.snowflake", r#"{ "account": "acme-eu" }"#, "service"),
        ("src.cassandra", r#"{ "contactPoints": "c1:9042,c2:9042" }"#, "service"),
    ];
    for (component, p, expected_kind) in cases {
        let asset = asset_of(component, &props(p))
            .unwrap_or_else(|e| panic!("{component} could not be named: {e}"));
        assert_eq!(asset.kind, expected_kind, "{component} landed in the wrong family");
        assert!(!asset.id.is_empty(), "{component} produced an empty name");
        // A doubled separator means a part was formatted in as nothing, which
        // produces a name nothing else will match.
        if let Some((_, rest)) = asset.id.split_once("://") {
            assert!(!rest.contains("//"), "{component} has an empty segment: {}", asset.id);
        }
        assert!(!asset.id.ends_with('/'), "{component} name ends in a slash: {}", asset.id);
    }
}

#[test]
fn names_are_exactly_these() {
    let cases: Vec<(&str, &str, &str)> = vec![
        ("snk.salesforce", r#"{ "object": "Account" }"#, "salesforce://Account"),
        ("src.qdrant", r#"{ "collection": "embeddings" }"#, "qdrant://embeddings"),
        (
            "snk.postgres",
            r#"{ "host": "db", "port": "5432", "database": "sales", "schema": "public", "tableName": "orders" }"#,
            "postgres://db:5432/sales.public.orders",
        ),
        (
            "snk.gcs",
            r#"{ "bucket": "warehouse", "key": "/curated/a.parquet" }"#,
            "gcs://warehouse/curated/a.parquet",
        ),
        // A uri that is a local path keeps it, which is the ordinary
        // authority-less URI form and stays stable across pipelines.
        (
            "snk.lancedb",
            r#"{ "uri": "/lake/lance", "table": "vectors" }"#,
            "lancedb:///lake/lance/vectors",
        ),
    ];
    for (component, p, expected) in cases {
        assert_eq!(asset_of(component, &props(p)).unwrap().id, expected, "for {component}");
    }
}

#[test]
fn a_node_with_no_recognisable_target_is_reported_not_dropped() {
    let err = asset_of("src.somethingnew", &props(r#"{ "flavour": "vanilla" }"#)).unwrap_err();
    assert!(err.contains("src.somethingnew"), "the reason must name the component: {err}");
}

#[test]
fn two_pipelines_sharing_a_table_are_connected_without_anyone_linking_them() {
    let staged = r#"{ "path": "/lake/staged.parquet" }"#;
    let cat = build(&vec![
        pipeline(
            "ingest",
            &[
                node(
                    "n1",
                    "src.postgres",
                    r#"{ "host": "db", "database": "sales", "tableName": "orders" }"#,
                ),
                node("n2", "snk.parquet", staged),
            ],
        ),
        pipeline(
            "report",
            &[
                node("n1", "src.parquet", staged),
                node("n2", "snk.csv", r#"{ "path": "/out/report.csv" }"#),
            ],
        ),
    ]);
    assert_eq!(cat.pipelines.len(), 2);
    assert_eq!(cat.assets.len(), 3, "expected orders, staged and report");
    assert!(cat.unresolved.is_empty(), "unexpected unresolved: {:?}", cat.unresolved);

    // Nothing in either pipeline file references the other. The connection
    // exists only because they name the same parquet.
    let producers = cat.producers("/lake/staged.parquet");
    let consumers = cat.consumers("/lake/staged.parquet");
    assert_eq!(producers.len(), 1);
    assert_eq!(producers[0].pipeline_id, "ingest");
    assert_eq!(consumers.len(), 1);
    assert_eq!(consumers[0].pipeline_id, "report");
}

fn three_in_a_row() -> Catalog {
    build(&vec![
        pipeline(
            "ingest",
            &[
                node(
                    "a",
                    "src.postgres",
                    r#"{ "host": "db", "database": "sales", "tableName": "orders" }"#,
                ),
                node("b", "snk.parquet", r#"{ "path": "/lake/staged.parquet" }"#),
            ],
        ),
        pipeline(
            "enrich",
            &[
                node("a", "src.parquet", r#"{ "path": "/lake/staged.parquet" }"#),
                node("b", "snk.parquet", r#"{ "path": "/lake/enriched.parquet" }"#),
            ],
        ),
        pipeline(
            "report",
            &[
                node("a", "src.parquet", r#"{ "path": "/lake/enriched.parquet" }"#),
                node("b", "snk.csv", r#"{ "path": "/out/report.csv" }"#),
            ],
        ),
    ])
}

#[test]
fn impact_reaches_across_pipelines_and_reports_distance() {
    let cat = three_in_a_row();
    let hit = cat.impact("postgres://db/sales.orders");

    // Dropping a column in the source table reaches all three pipelines, two of
    // which never mention Postgres anywhere.
    let names: Vec<&str> = hit.pipelines.iter().map(|p| p.id.as_str()).collect();
    assert_eq!(names, vec!["enrich", "ingest", "report"]);
    let depth = |id: &str| hit.pipelines.iter().find(|p| p.id == id).unwrap().depth;
    assert_eq!(depth("ingest"), 1, "the pipeline reading it directly is one hop");
    assert_eq!(depth("enrich"), 2);
    assert_eq!(depth("report"), 3);
    assert!(hit.assets.iter().any(|a| a.id == "/out/report.csv"));
}

#[test]
fn a_pipeline_that_reads_and_writes_the_same_asset_does_not_hang_the_walk() {
    let cat = build(&vec![pipeline(
        "accumulate",
        &[
            node("a", "src.parquet", r#"{ "path": "/lake/running.parquet" }"#),
            node("b", "snk.parquet", r#"{ "path": "/lake/running.parquet" }"#),
        ],
    )]);
    let hit = cat.impact("/lake/running.parquet");
    assert_eq!(hit.pipelines.len(), 1);
}

#[test]
fn nodes_that_cannot_be_named_are_counted_on_the_answer() {
    let cat = build(&vec![pipeline(
        "partly-known",
        &[
            node("a", "src.parquet", r#"{ "path": "/lake/in.parquet" }"#),
            node("b", "snk.mysterybox", r#"{ "wat": "?" }"#),
        ],
    )]);
    assert_eq!(cat.unresolved.len(), 1);
    assert_eq!(cat.unresolved[0].node_id, "b");

    // The count rides along on impact, so a caller cannot show the result as
    // exhaustive without also seeing that something was missed.
    assert_eq!(cat.impact("/lake/in.parquet").unresolved, 1);
}

#[test]
fn orphans_are_written_but_unread_and_externals_are_read_but_unwritten() {
    let cat = build(&vec![pipeline(
        "one",
        &[
            node("a", "src.csv", r#"{ "path": "/in/upstream.csv" }"#),
            node("b", "snk.csv", r#"{ "path": "/out/nobody-reads-this.csv" }"#),
        ],
    )]);
    let orphans: Vec<&str> = cat.orphans().iter().map(|a| a.id.as_str()).collect();
    assert_eq!(orphans, vec!["/out/nobody-reads-this.csv"]);
    let externals: Vec<&str> = cat.externals().iter().map(|a| a.id.as_str()).collect();
    assert_eq!(externals, vec!["/in/upstream.csv"]);
}

#[test]
fn an_asset_nobody_reads_reaches_nothing() {
    let hit = three_in_a_row().impact("/out/report.csv");
    assert!(hit.pipelines.is_empty());
    assert!(hit.assets.is_empty());
}

#[test]
fn files_that_are_no_pipelines_are_passed_over() {
    let cat = build(&vec![
        PipelineFile { name: "broken.json".to_string(), text: "{ not json".to_string() },
        PipelineFile { name: "settings.json".to_string(), text: "{\"a\":1}".to_string() },
        pipeline("p", &[node("a", "src.csv", r#"{ "path": "/in/a.csv" }"#)]),
    ]);
    assert_eq!(cat.pipelines.len(), 1);
    assert_eq!(cat.pipelines[0].id, "p");
    assert_eq!(cat.pipelines[0].name, "p");
    assert_eq!(cat.pipelines[0].node_count, 1);
    assert_eq!(cat.touches.len(), 1);
    assert_eq!(cat.touches[0].direction, Direction::Read);
    assert_eq!(cat.touches[0].component_id, "src.csv");
}

#[test]
fn only_json_files_can_be_pipelines() {
    let names = vec!["b.json".to_string(), "notes.txt".to_string(), "a.json".to_string()];
    assert_eq!(pipeline_files(&names), vec!["a.json", "b.json"]);
    assert_eq!(catalog_path("/w", false), "/w/.duckle/catalog.json");
}

#[test]
fn only_the_first_broker_names_a_cluster() {
    let one = asset_of("src.kafka", &props(r#"{ "brokers": "a:9092", "topic": "t" }"#)).unwrap();
    let more = asset_of("src.kafka", &props(r#"{ "brokers": "a:9092,z:1", "topic": "t" }"#)).unwrap();
    assert_eq!(one.id, more.id);
}
