use create_rust_app_core::config::merged_project_config;
use create_rust_app_core::merge_text::{manifest_model, merge_manifest_text};
use create_rust_app_core::merge::{DepItem, DepTable, TargetTable};
use create_rust_app_core::scaffold::{EngineError, ScaffoldOptions};

fn merge(target: &str, overlay: &str) -> Result<String, EngineError> {
    merge_manifest_text(target, overlay, "/p/Cargo.toml", "/o/Cargo.toml")
}

#[test]
fn merges_overlay_manifest_dependencies() {
    let merged = merge(
        "[package]\nname = \"demo\"\nversion = \"0.1.0\"\n\n[dependencies]\nserde = \"1\"\n",
        "[package]\nname = \"ignored\"\n\n[dependencies]\nserde = \"1\"\njsonwebtoken = \"9\"\n",
    )
    .expect("merge");
    assert!(merged.contains("name = \"demo\""), "package untouched");
    assert!(merged.contains("jsonwebtoken"), "new dep added");
    assert!(!merged.contains("ignored"), "overlay package ignored");
}

#[test]
fn unions_features_on_matching_versions() {
    let merged = merge(
        "[dependencies]\ntower-http = { version = \"0.5\", features = [\"trace\"] }\n",
        "[dependencies]\ntower-http = { version = \"0.5\", features = [\"cors\", \"trace\"] }\n",
    )
    .expect("union");
    assert!(merged.contains("\"trace\""), "keeps target features");
    assert!(merged.contains("\"cors\""), "adds overlay features");
    assert_eq!(merged.matches("tower-http").count(), 1, "single entry");
}

#[test]
fn merges_bench_targets_by_name() {
    let overlay = "[[bench]]\nname = \"slug\"\nharness = false\n";
    let merged = merge("[package]\nname = \"demo\"\n", overlay).expect("union");
    assert!(merged.contains("[[bench]]"), "bench section added");
    assert!(merged.contains("harness = false"), "bench flags kept");
    let again = merge(&merged, overlay).expect("idempotent");
    assert_eq!(again.matches("[[bench]]").count(), 1, "no duplicate");
    assert_eq!(again, merged);
}

#[test]
fn rejects_conflicting_bench_targets() {
    let err = merge(
        "[package]\nname = \"demo\"\n\n[[bench]]\nname = \"slug\"\nharness = false\n",
        "[[bench]]\nname = \"slug\"\npath = \"other.rs\"\n",
    )
    .expect_err("conflict");
    match err {
        EngineError::TemplateMaterialize { path, detail } => {
            assert_eq!(path, "/p/Cargo.toml");
            assert_eq!(detail, "conflicting [[bench]] \"slug\" in overlay '/o/Cargo.toml'");
        }
        other => panic!("unexpected {other:?}"),
    }
}

#[test]
fn rejects_conflicting_overlay_dependencies() {
    let err = merge("[dependencies]\nserde = \"1\"\n", "[dependencies]\nserde = \"2\"\n")
        .expect_err("conflict");
    match err {
        EngineError::TemplateMaterialize { path, detail } => {
            assert_eq!(path, "/p/Cargo.toml");
            assert!(detail.starts_with("dependency conflict on 'serde': project requires"));
        }
        other => panic!("unexpected {other:?}"),
    }
}

#[test]
fn unparsable_manifests_name_their_path() {
    match merge("[dependencies\n", "") {
        Err(EngineError::TemplateMaterialize { path, detail }) => {
            assert_eq!(path, "/p/Cargo.toml");
            assert!(detail.starts_with("cannot parse project Cargo.toml: "));
        }
        other => panic!("unexpected {other:?}"),
    }
    match merge("", "x = \n") {
        Err(EngineError::TemplateMaterialize { path, detail }) => {
            assert_eq!(path, "/o/Cargo.toml");
            assert!(detail.starts_with("cannot parse overlay Cargo.toml: "));
        }
        other => panic!("unexpected {other:?}"),
    }
}

#[test]
fn merging_dependencies_into_a_missing_table_and_twice() {
    let overlay = "[dev-dependencies]\ntempfile = \"3\"\n[dependencies]\nx = { version = \"1\", features = [\"a\"] }\n";
    let target = "[package]\nname = \"demo\"\n\n[dependencies]\nx = \"1\"\n";
    let merged = merge(target, overlay).expect("merge");
    assert!(merged.contains("[dev-dependencies]"));
    assert!(merged.contains("tempfile = \"3\""));
    assert!(merged.contains("features = [\"a\"]"));
    assert_eq!(merge(&merged, overlay).expect("again"), merged);
}

#[test]
fn reads_manifest_models() {
    let m = manifest_model(
        "[dependencies]\nserde = \"1\"\nx = { version = \"2\", features = [\"a\", 3] }\ny.workspace = true\n[[bench]]\nname = \"b\"\n[example]\nk = 1\n",
    );
    match &m.dependencies {
        DepTable::Table(es) => {
            assert_eq!(es.len(), 3);
            assert!(matches!(&es[0].item, DepItem::Version(v) if v == "1"));
            match &es[1].item {
                DepItem::Inline(kvs) => {
                    assert_eq!(kvs[0].key, "version");
                    assert_eq!(kvs[0].text, Some("2".to_string()));
                    assert_eq!(kvs[1].items, Some(vec![Some("a".to_string()), None]));
                }
                other => panic!("unexpected {other:?}"),
            }
            assert!(matches!(&es[2].item, DepItem::Other));
        }
        other => panic!("unexpected {other:?}"),
    }
    assert!(matches!(m.dev_dependencies, DepTable::Absent));
    assert!(matches!(&m.bench, TargetTable::Array(es) if es.len() == 1 && es[0].name == Some("b".to_string())));
    assert!(matches!(m.example, TargetTable::NotArray));
}

fn options() -> ScaffoldOptions {
    ScaffoldOptions {
        project: "my-api".to_string(),
        template: "demo".to_string(),
        addons: vec!["demo-ex".to_string()],
        sets: vec![("key".to_string(), "value".to_string())],
        force: false,
        offline: false,
        keep_on_failure: false,
        cache_dir: None,
        no_cache: false,
        pin: None,
    }
}

#[test]
fn merges_the_project_record_into_the_config() {
    let merged = merged_project_config(
        Some("{\"name\": \"demo\", \"customOptions\": [{\"key\": \"apiPrefix\"}]}"),
        &options(),
        "demo",
        "p/cra.config.json",
    )
    .expect("merge");
    let value: serde_json::Value = serde_json::from_str(&merged).expect("json");
    assert_eq!(value["project"], "my-api");
    assert_eq!(value["template"], "demo");
    assert_eq!(value["addons"][0], "demo-ex");
    assert_eq!(value["set"][0]["key"], "key");
    assert_eq!(value["set"][0]["value"], "value");
    assert_eq!(value["name"], "demo");
    assert_eq!(value["customOptions"][0]["key"], "apiPrefix");
    assert!(merged.ends_with("}\n"));
}

#[test]
fn missing_or_invalid_configs_start_from_an_empty_object() {
    for existing in [None, Some("{ not json")] {
        let merged = merged_project_config(existing, &options(), "demo", "c").expect("merge");
        let value: serde_json::Value = serde_json::from_str(&merged).expect("json");
        assert_eq!(value.as_object().map(|o| o.len()), Some(4));
    }
}

#[test]
fn rejects_configs_that_are_not_objects() {
    match merged_project_config(Some("[1, 2]"), &options(), "demo", "p/cra.config.json") {
        Err(EngineError::TemplateMaterialize { path, detail }) => {
            assert_eq!(path, "p/cra.config.json");
            assert_eq!(detail, "cra.config.json is not a JSON object");
        }
        other => panic!("unexpected {other:?}"),
    }
}

#[test]
fn merging_targets_into_existing_arrays_twice_keeps_the_text() {
    let target = "[package]\nname = \"demo\"\n\n[[bench]]\nname = \"a\"\n";
    let overlay = "[[bench]]\nname = \"b\"\n";
    let merged = merge(target, overlay).expect("merge");
    assert_eq!(merged.matches("[[bench]]").count(), 2);
    assert!(merged.contains("name = \"a\"") && merged.contains("name = \"b\""));
    assert_eq!(merge(&merged, overlay).expect("again"), merged);
}
