use create_rust_app_core::merge::{
    dep_table_key, merge_dep_spec, merge_error, plan_manifest_merge, target_table_key,
    DepAction, DepEntry, DepItem, DepKind, DepTable, InlineValue, ManifestEdit, ManifestModel,
    MergeConflict, TargetEntry, TargetKind, TargetTable,
};
use create_rust_app_core::scaffold::EngineError;

fn empty_model() -> ManifestModel {
    ManifestModel {
        dependencies: DepTable::Absent,
        dev_dependencies: DepTable::Absent,
        build_dependencies: DepTable::Absent,
        bench: TargetTable::Absent,
        example: TargetTable::Absent,
        test: TargetTable::Absent,
    }
}

fn version_dep(name: &str, version: &str) -> DepEntry {
    DepEntry {
        name: name.to_string(),
        item: DepItem::Version(version.to_string()),
        rendered: format!(" \"{version}\""),
    }
}

fn inline_dep(name: &str, version: &str, features: &[&str]) -> DepEntry {
    let items: Vec<Option<String>> = features.iter().map(|f| Some(f.to_string())).collect();
    let rendered_features = features
        .iter()
        .map(|f| format!("\"{f}\""))
        .collect::<Vec<_>>()
        .join(", ");
    DepEntry {
        name: name.to_string(),
        item: DepItem::Inline(vec![
            InlineValue {
                key: "version".to_string(),
                text: Some(version.to_string()),
                items: None,
                rendered: format!(" \"{version}\""),
            },
            InlineValue {
                key: "features".to_string(),
                text: None,
                items: Some(items),
                rendered: format!(" [{rendered_features}]"),
            },
        ]),
        rendered: format!(" {{ version = \"{version}\", features = [{rendered_features}] }}"),
    }
}

fn bench(name: &str, rendered: &str) -> TargetEntry {
    TargetEntry { name: Some(name.to_string()), rendered: rendered.to_string() }
}

#[test]
fn table_keys() {
    assert_eq!(dep_table_key(DepKind::Dependencies), "dependencies");
    assert_eq!(dep_table_key(DepKind::DevDependencies), "dev-dependencies");
    assert_eq!(dep_table_key(DepKind::BuildDependencies), "build-dependencies");
    assert_eq!(target_table_key(TargetKind::Bench), "bench");
    assert_eq!(target_table_key(TargetKind::Example), "example");
    assert_eq!(target_table_key(TargetKind::Test), "test");
}

#[test]
fn plans_inserting_new_dependencies() {
    let mut target = empty_model();
    target.dependencies = DepTable::Table(vec![version_dep("serde", "1")]);
    let mut overlay = empty_model();
    overlay.dependencies = DepTable::Table(vec![
        version_dep("serde", "1"),
        version_dep("jsonwebtoken", "9"),
    ]);
    let plan = plan_manifest_merge(&target, &overlay).expect("merge");
    assert_eq!(plan.len(), 1);
    assert!(matches!(
        &plan[0],
        ManifestEdit::InsertDep(DepKind::Dependencies, n) if n == "jsonwebtoken"
    ));
}

#[test]
fn creates_missing_dependency_tables() {
    let target = empty_model();
    let mut overlay = empty_model();
    overlay.dev_dependencies = DepTable::Table(vec![version_dep("tempfile", "3")]);
    let plan = plan_manifest_merge(&target, &overlay).expect("merge");
    assert_eq!(plan.len(), 2);
    assert!(matches!(&plan[0], ManifestEdit::EnsureDepTable(DepKind::DevDependencies)));
    assert!(matches!(
        &plan[1],
        ManifestEdit::InsertDep(DepKind::DevDependencies, n) if n == "tempfile"
    ));
}

#[test]
fn plans_feature_unions() {
    let existing = inline_dep("tower-http", "0.5", &["trace"]);
    let overlay = inline_dep("tower-http", "0.5", &["cors", "trace"]);
    match merge_dep_spec(&existing, &overlay) {
        DepAction::SetFeatures(f) => assert_eq!(f, vec!["trace".to_string(), "cors".to_string()]),
        other => panic!("unexpected {other:?}"),
    }
    let mut target = empty_model();
    target.dependencies = DepTable::Table(vec![existing]);
    let mut o = empty_model();
    o.dependencies = DepTable::Table(vec![overlay]);
    let plan = plan_manifest_merge(&target, &o).expect("union");
    assert_eq!(plan.len(), 1);
    match &plan[0] {
        ManifestEdit::SetFeatures(DepKind::Dependencies, n, f) => {
            assert_eq!(n, "tower-http");
            assert_eq!(f, &vec!["trace".to_string(), "cors".to_string()]);
        }
        other => panic!("unexpected {other:?}"),
    }
}

#[test]
fn subset_features_change_nothing_and_bare_versions_adopt() {
    let existing = inline_dep("x", "1", &["a", "b"]);
    let overlay = inline_dep("x", "1", &["b"]);
    assert!(matches!(merge_dep_spec(&existing, &overlay), DepAction::Unchanged));
    let bare = version_dep("x", "1");
    let fuller = inline_dep("x", "1", &["a"]);
    assert!(matches!(merge_dep_spec(&bare, &fuller), DepAction::Adopt));
}

#[test]
fn plans_conflicting_dependencies() {
    let mut target = empty_model();
    target.dependencies = DepTable::Table(vec![version_dep("serde", "1")]);
    let mut overlay = empty_model();
    overlay.dependencies = DepTable::Table(vec![version_dep("serde", "2")]);
    let err = plan_manifest_merge(&target, &overlay).expect_err("conflict");
    match &err {
        MergeConflict::DepConflict(n, e, o) => {
            assert_eq!(n, "serde");
            assert_eq!(e, " \"1\"");
            assert_eq!(o, " \"2\"");
        }
        other => panic!("unexpected {other:?}"),
    }
    match merge_error(&err, "/p/Cargo.toml", "/o/Cargo.toml") {
        EngineError::TemplateMaterialize { path, detail } => {
            assert_eq!(path, "/p/Cargo.toml");
            assert_eq!(
                detail,
                "dependency conflict on 'serde': project requires  \"1\" but overlay '/o/Cargo.toml' requires  \"2\""
            );
        }
        other => panic!("unexpected {other:?}"),
    }
}

#[test]
fn rejects_non_table_dependencies() {
    let mut target = empty_model();
    target.build_dependencies = DepTable::NotTable;
    let mut overlay = empty_model();
    overlay.build_dependencies = DepTable::Table(vec![version_dep("cc", "1")]);
    let err = plan_manifest_merge(&target, &overlay).expect_err("not a table");
    match merge_error(&err, "t", "o") {
        EngineError::TemplateMaterialize { detail, .. } => {
            assert_eq!(detail, "project Cargo.toml [build-dependencies] is not a table")
        }
        other => panic!("unexpected {other:?}"),
    }
}

#[test]
fn plans_bench_targets_by_name() {
    let target = empty_model();
    let mut overlay = empty_model();
    overlay.bench = TargetTable::Array(vec![bench("slug", "name = \"slug\"\nharness = false\n")]);
    let plan = plan_manifest_merge(&target, &overlay).expect("union");
    assert_eq!(plan.len(), 2);
    assert!(matches!(&plan[0], ManifestEdit::EnsureTargetArray(TargetKind::Bench)));
    assert!(matches!(&plan[1], ManifestEdit::PushTarget(TargetKind::Bench, 0)));
    // Merging again into the merged manifest plans nothing.
    let mut merged = empty_model();
    merged.bench = TargetTable::Array(vec![bench("slug", "name = \"slug\"\nharness = false\n")]);
    let again = plan_manifest_merge(&merged, &overlay).expect("idempotent");
    assert!(again.is_empty());
}

#[test]
fn merging_dependencies_twice_plans_nothing() {
    let mut target = empty_model();
    target.dependencies = DepTable::Table(vec![inline_dep("tower-http", "0.5", &["trace"])]);
    let mut overlay = empty_model();
    overlay.dependencies = DepTable::Table(vec![
        inline_dep("tower-http", "0.5", &["cors"]),
        version_dep("serde", "1"),
    ]);
    assert_eq!(plan_manifest_merge(&target, &overlay).expect("first").len(), 2);
    let mut merged = empty_model();
    merged.dependencies = DepTable::Table(vec![
        inline_dep("tower-http", "0.5", &["trace", "cors"]),
        version_dep("serde", "1"),
    ]);
    assert!(plan_manifest_merge(&merged, &overlay).expect("second").is_empty());
}

#[test]
fn plans_conflicting_bench_targets() {
    let mut target = empty_model();
    target.bench = TargetTable::Array(vec![bench("slug", "name = \"slug\"\nharness = false\n")]);
    let mut overlay = empty_model();
    overlay.bench = TargetTable::Array(vec![bench("slug", "name = \"slug\"\npath = \"other.rs\"\n")]);
    let err = plan_manifest_merge(&target, &overlay).expect_err("conflict");
    match merge_error(&err, "/p/Cargo.toml", "/o/Cargo.toml") {
        EngineError::TemplateMaterialize { detail, .. } => assert_eq!(
            detail,
            "conflicting [[bench]] \"slug\" in overlay '/o/Cargo.toml'"
        ),
        other => panic!("unexpected {other:?}"),
    }
}

#[test]
fn target_names_are_debug_quoted() {
    let err = MergeConflict::TargetConflict(TargetKind::Example, "a\"b".to_string());
    match merge_error(&err, "t", "o") {
        EngineError::TemplateMaterialize { detail, .. } => {
            assert_eq!(detail, "conflicting [[example]] \"a\\\"b\" in overlay 'o'")
        }
        other => panic!("unexpected {other:?}"),
    }
    let err = MergeConflict::TargetNotArray(TargetKind::Test);
    match merge_error(&err, "t", "o") {
        EngineError::TemplateMaterialize { detail, .. } => {
            assert_eq!(detail, "project Cargo.toml [[test]] is not an array of tables")
        }
        other => panic!("unexpected {other:?}"),
    }
}

#[test]
fn empty_overlay_arrays_change_nothing() {
    let mut target = empty_model();
    target.example = TargetTable::NotArray;
    let mut overlay = empty_model();
    overlay.example = TargetTable::Array(vec![]);
    assert!(plan_manifest_merge(&target, &overlay).expect("nothing").is_empty());
}

#[test]
fn overlay_duplicates_of_one_target_merge_once() {
    let target = empty_model();
    let mut overlay = empty_model();
    overlay.test = TargetTable::Array(vec![bench("t", "x"), bench("t", "x")]);
    let plan = plan_manifest_merge(&target, &overlay).expect("merge");
    assert_eq!(plan.len(), 2);
    overlay.test = TargetTable::Array(vec![bench("t", "x"), bench("t", "y")]);
    assert!(matches!(
        plan_manifest_merge(&target, &overlay),
        Err(MergeConflict::TargetConflict(TargetKind::Test, _))
    ));
}
