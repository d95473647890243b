use std::hash::{Hash, Hasher};
use create_rust_app_core::catalog::{AddonEntry, Catalog, TemplateEntry};
use create_rust_app_core::scaffold::{
    append_fragment_bytes, cache_key_for_url, cache_location, cache_root, clone_args,
    copy_entry_action, copy_plan, missing_manifest, overlay_dir, project_record, remove_on_failure, CopyOp, EntryInfo, RecordValue, fetch_mode, git_failure_detail, is_external_spec, local_dir_candidate,
    missing_subdir, offline_cache_miss, parse_set_override, resolve_addon_source,
    resolve_source_url, resolve_template_source, sanitize_cache_key, scaffold_plan,
    scaffold_steps, sparse_checkout_args, split_subdir, strip_append_suffix,
    validate_project_name, EngineError, EntryAction, FetchMode, ResolvedSource, ScaffoldOptions,
    ScaffoldStep,
};

fn options(project: &str, template: &str) -> ScaffoldOptions {
    ScaffoldOptions {
        project: project.to_string(),
        template: template.to_string(),
        addons: vec![],
        sets: vec![],
        force: false,
        offline: false,
        keep_on_failure: false,
        cache_dir: None,
        no_cache: false,
        pin: None,
    }
}

fn catalog() -> Catalog {
    Catalog {
        templates: vec![
            TemplateEntry {
                slug: "demo".to_string(),
                description: String::new(),
                tags: vec![],
                url: "file:///bank/templates/demo".to_string(),
            },
            TemplateEntry {
                slug: "legacy".to_string(),
                description: String::new(),
                tags: vec![],
                url: String::new(),
            },
        ],
        addons: vec![
            AddonEntry {
                slug: "demo-ex".to_string(),
                description: String::new(),
                url: "https://host/bank?subdir=extensions/demo-ex".to_string(),
            },
            AddonEntry {
                slug: "bare".to_string(),
                description: String::new(),
                url: String::new(),
            },
        ],
    }
}

#[test]
fn accepts_valid_project_names() {
    for name in ["my-app", "my_app", "app123", "my/app", "/tmp/x/my-app"] {
        validate_project_name(name).expect("valid name");
    }
}

#[test]
fn rejects_invalid_project_names() {
    for name in ["", "my app", "café", "/", "my/bad name"] {
        validate_project_name(name).expect_err("invalid name");
    }
}

#[test]
fn project_names_are_judged_by_their_last_component() {
    validate_project_name("a/b/").expect("trailing slash is ignored");
    validate_project_name("./x").expect("dot segments before the name");
    validate_project_name("x/..").expect_err("parent segment has no name");
    match validate_project_name("bad name") {
        Err(e) => assert_eq!(
            e.message(),
            "invalid project name 'bad name': use letters, numbers, '-', '_'"
        ),
        Ok(()) => panic!("must fail"),
    }
}

#[test]
fn parses_set_overrides() {
    assert_eq!(
        parse_set_override("key=value").expect("parsed"),
        ("key".to_string(), "value".to_string())
    );
    assert_eq!(
        parse_set_override("key=a=b").expect("parsed"),
        ("key".to_string(), "a=b".to_string())
    );
    parse_set_override("novalue").expect_err("must fail");
    parse_set_override("=value").expect_err("must fail");
}

#[test]
fn set_overrides_split_at_the_first_equals_sign() {
    let (k, v) = parse_set_override("a=").expect("empty value is fine");
    assert_eq!(format!("{k}={v}"), "a=");
    let (k, v) = parse_set_override("path=/x=y").expect("parsed");
    assert_eq!(format!("{k}={v}"), "path=/x=y");
    assert!(!k.contains('='));
}

#[test]
fn splits_subdir_queries() {
    assert_eq!(
        split_subdir("https://host/org/repo?subdir=a/b"),
        ("https://host/org/repo".to_string(), Some("a/b".to_string()))
    );
    assert_eq!(
        split_subdir("https://host/org/repo?x=1&subdir=a/"),
        ("https://host/org/repo?x=1".to_string(), Some("a".to_string()))
    );
    assert_eq!(
        split_subdir("https://host/org/repo"),
        ("https://host/org/repo".to_string(), None)
    );
}

#[test]
fn subdir_drops_fragments_and_empty_values() {
    assert_eq!(
        split_subdir("https://h/r?subdir=/x/y/#main"),
        ("https://h/r".to_string(), Some("x/y".to_string()))
    );
    assert_eq!(split_subdir("https://h/r?subdir=//"), ("https://h/r".to_string(), None));
}

#[test]
fn sanitizes_cache_keys() {
    assert_eq!(sanitize_cache_key("my-app_1"), "my-app_1");
    assert_eq!(sanitize_cache_key("a b/c.d"), "a_b_c_d");
    assert_eq!(sanitize_cache_key(&sanitize_cache_key("é!")), "__");
}

#[test]
fn url_cache_keys_are_stable_hex_digests() {
    let a = cache_key_for_url("https://host/a");
    let b = cache_key_for_url("https://host/b");
    assert_eq!(a, cache_key_for_url("https://host/a"));
    assert_ne!(a, b);
    assert!(a.starts_with("url-"));
    assert_eq!(a.len(), 4 + 16);
    assert!(a[4..].chars().all(|c| c.is_ascii_hexdigit() && !c.is_ascii_uppercase()));
}

#[test]
fn url_cache_keys_are_the_default_hash_in_hex() {
    let mut hasher = std::collections::hash_map::DefaultHasher::new();
    Hash::hash("https://host/a", &mut hasher);
    assert_eq!(cache_key_for_url("https://host/a"), format!("url-{:016x}", Hasher::finish(&hasher)));
}

#[test]
fn external_specs_are_urls_paths_or_directories() {
    assert!(is_external_spec("https://x", false));
    assert!(is_external_spec("a/b", false));
    assert!(is_external_spec("demo", true));
    assert!(!is_external_spec("demo", false));
}

#[test]
fn local_candidates() {
    assert_eq!(local_dir_candidate("file:///a/b"), Some("/a/b".to_string()));
    assert_eq!(local_dir_candidate("rel/dir"), Some("rel/dir".to_string()));
    assert_eq!(local_dir_candidate("https://h/r"), None);
}

#[test]
fn resolves_source_urls() {
    match resolve_source_url("file:///bank/x", "x", true) {
        Ok(ResolvedSource::Local(p)) => assert_eq!(p, "/bank/x"),
        other => panic!("unexpected {other:?}"),
    }
    match resolve_source_url("file:///bank/x", "x", false) {
        Err(EngineError::TemplateFetch { request, detail }) => {
            assert_eq!(request, "x");
            assert_eq!(detail, "local directory '/bank/x' does not exist");
        }
        other => panic!("unexpected {other:?}"),
    }
    match resolve_source_url("https://h/r?subdir=t/d", "d", false) {
        Ok(ResolvedSource::Remote { url, subdir }) => {
            assert_eq!(url, "https://h/r");
            assert_eq!(subdir, Some("t/d".to_string()));
        }
        other => panic!("unexpected {other:?}"),
    }
    match resolve_source_url("some/dir", "d", true) {
        Ok(ResolvedSource::Local(p)) => assert_eq!(p, "some/dir"),
        other => panic!("unexpected {other:?}"),
    }
}

#[test]
fn resolves_template_slugs_through_the_catalog() {
    let c = catalog();
    assert_eq!(
        resolve_template_source("demo", &c, false).expect("slug"),
        ("file:///bank/templates/demo".to_string(), "template-demo".to_string())
    );
    match resolve_template_source("nope", &c, false) {
        Err(EngineError::UnknownTemplate { slug }) => assert_eq!(slug, "nope"),
        other => panic!("unexpected {other:?}"),
    }
    match resolve_template_source("legacy", &c, false) {
        Err(EngineError::TemplateHasNoSource { slug }) => assert_eq!(slug, "legacy"),
        other => panic!("unexpected {other:?}"),
    }
    let (url, key) = resolve_template_source("https://h/r", &c, false).expect("url");
    assert_eq!(url, "https://h/r");
    assert_eq!(key, format!("template-{}", cache_key_for_url("https://h/r")));
}

#[test]
fn resolves_addon_slugs_through_the_catalog() {
    let c = catalog();
    assert_eq!(
        resolve_addon_source("demo-ex", &c, false).expect("slug"),
        (
            "https://host/bank?subdir=extensions/demo-ex".to_string(),
            "addon-demo-ex".to_string()
        )
    );
    match resolve_addon_source("nope", &c, false) {
        Err(EngineError::UnknownAddon { slug }) => assert_eq!(slug, "nope"),
        other => panic!("unexpected {other:?}"),
    }
    match resolve_addon_source("bare", &c, false) {
        Err(EngineError::AddonHasNoSource { slug }) => assert_eq!(slug, "bare"),
        other => panic!("unexpected {other:?}"),
    }
}

#[test]
fn cache_roots_and_locations() {
    let mut o = options("p", "demo");
    assert_eq!(cache_root(&o, "/default"), "/default");
    o.cache_dir = Some(String::new());
    assert_eq!(cache_root(&o, "/default"), "/default");
    o.cache_dir = Some("/mine".to_string());
    assert_eq!(cache_root(&o, "/default"), "/mine");
    assert_eq!(
        cache_location("/c", "template-demo", Some("templates/demo")),
        (
            "/c/banks/template-demo".to_string(),
            "/c/banks/template-demo/templates/demo".to_string()
        )
    );
    assert_eq!(
        cache_location("/c/", "k", None),
        ("/c/banks/k".to_string(), "/c/banks/k".to_string())
    );
}

#[test]
fn fetch_modes() {
    assert_eq!(fetch_mode(false, false, None, None), FetchMode::Refresh);
    assert_eq!(fetch_mode(true, false, None, None), FetchMode::CacheOnly);
    assert_eq!(fetch_mode(false, true, None, None), FetchMode::Scratch);
    assert_eq!(fetch_mode(false, false, Some("1"), None), FetchMode::Scratch);
    assert_eq!(fetch_mode(false, false, Some("0"), None), FetchMode::Refresh);
    assert_eq!(fetch_mode(false, false, None, Some("always")), FetchMode::Scratch);
    assert_eq!(fetch_mode(false, false, None, Some("manual")), FetchMode::CacheOnly);
    assert_eq!(fetch_mode(true, true, None, None), FetchMode::CacheOnly);
}

#[test]
fn offline_misses_cold_remote_cache() {
    let e = offline_cache_miss("https://example.invalid/bank?subdir=templates/demo");
    assert_eq!(
        e.message(),
        "offline mode: no cached copy of 'https://example.invalid/bank?subdir=templates/demo' (scaffold once online to populate the cache)"
    );
}

#[test]
fn missing_subdirectory_error() {
    match missing_subdir("demo", Some("a/b"), "https://h/r") {
        EngineError::TemplateFetch { request, detail } => {
            assert_eq!(request, "demo");
            assert_eq!(detail, "subdirectory 'a/b' not found in https://h/r");
        }
        other => panic!("unexpected {other:?}"),
    }
}

#[test]
fn git_arguments() {
    assert_eq!(
        clone_args("https://h/r", Some("v1"), "/dest"),
        vec![
            "clone", "--quiet", "--depth", "1", "--filter=blob:none", "--sparse", "--branch",
            "v1", "https://h/r", "/dest"
        ]
    );
    assert_eq!(clone_args("u", Some(""), "d").len(), 8);
    assert_eq!(clone_args("u", None, "d").len(), 8);
    assert_eq!(sparse_checkout_args("a/b"), vec!["sparse-checkout", "set", "a/b"]);
}

#[test]
fn git_failures_report_the_last_stderr_line() {
    let args = vec!["clone".to_string(), "x".to_string()];
    assert_eq!(
        git_failure_detail(&args, "warning: a\nfatal: repository not found  \n"),
        "git clone x failed: fatal: repository not found"
    );
    assert_eq!(git_failure_detail(&args, ""), "git clone x failed: git command failed");
}

#[test]
fn defaults_to_first_catalog_template() {
    let c = catalog();
    let plan = scaffold_plan(&options("/tmp/x/my-app", ""), &c, false, true).expect("plan");
    assert_eq!(plan.template, "demo");
    assert_eq!(plan.package, "my-app");
    let empty = Catalog { templates: vec![], addons: vec![] };
    assert!(matches!(
        scaffold_plan(&options("p", ""), &empty, false, true),
        Err(EngineError::EmptyCatalog)
    ));
    let plan = scaffold_plan(&options("p", "https://h/r"), &empty, false, true).expect("plan");
    assert_eq!(plan.template, "https://h/r");
}

#[test]
fn refuses_non_empty_target_without_force() {
    let c = catalog();
    match scaffold_plan(&options("taken", "demo"), &c, true, false) {
        Err(EngineError::TargetNotEmpty { path }) => assert_eq!(path, "taken"),
        other => panic!("unexpected {other:?}"),
    }
    let mut o = options("taken", "demo");
    o.force = true;
    scaffold_plan(&o, &c, true, false).expect("force succeeds");
    scaffold_plan(&options("taken", "demo"), &c, true, true).expect("empty target is fine");
    assert!(matches!(
        scaffold_plan(&options("bad name", "demo"), &c, false, true),
        Err(EngineError::InvalidProjectName { .. })
    ));
}

#[test]
fn append_suffixes_and_entry_actions() {
    assert_eq!(strip_append_suffix("router.rs.append"), Some("router.rs".to_string()));
    assert_eq!(strip_append_suffix(".append"), Some(String::new()));
    assert_eq!(strip_append_suffix("router.rs"), None);
    assert!(matches!(copy_entry_action(".git", true, false, false), EntryAction::Skip));
    assert!(matches!(copy_entry_action("src", true, false, false), EntryAction::Recurse));
    match copy_entry_action("lib.rs.append", false, true, true) {
        EntryAction::Defer(t) => assert_eq!(t, "lib.rs"),
        other => panic!("unexpected {other:?}"),
    }
    assert!(matches!(
        copy_entry_action("Cargo.toml", false, true, true),
        EntryAction::MergeManifest
    ));
    assert!(matches!(copy_entry_action("Cargo.toml", false, true, false), EntryAction::Copy));
    assert!(matches!(copy_entry_action("link", false, false, false), EntryAction::Skip));
}

#[test]
fn appends_fragments_to_existing_and_missing_targets() {
    assert_eq!(
        append_fragment_bytes(b"", b"pub mod auth;\n"),
        Some(b"pub mod auth;\n".to_vec())
    );
    assert_eq!(
        append_fragment_bytes(b"pub mod health;", b"pub mod auth;\n"),
        Some(b"pub mod health;\npub mod auth;\n".to_vec())
    );
    assert_eq!(
        append_fragment_bytes(b"a\n", b"b"),
        Some(b"a\nb".to_vec())
    );
    assert_eq!(append_fragment_bytes(b"a", b""), None);
}

#[test]
fn error_messages() {
    let cases: Vec<(EngineError, &str)> = vec![
        (
            EngineError::InvalidSetOverride { value: "x".to_string() },
            "invalid --set 'x': expected key=value",
        ),
        (
            EngineError::TargetNotEmpty { path: "p".to_string() },
            "target directory 'p' is not empty (use --force to overwrite)",
        ),
        (
            EngineError::UnknownTemplate { slug: "s".to_string() },
            "unknown template 's' (use --list-templates to browse the catalog)",
        ),
        (
            EngineError::UnknownAddon { slug: "s".to_string() },
            "unknown addon 's' (use --list-addons to browse the catalog)",
        ),
        (
            EngineError::CatalogRead { path: "p".to_string(), detail: "d".to_string() },
            "cannot read catalog at 'p': d",
        ),
        (
            EngineError::CatalogFetch { url: "u".to_string(), detail: "d".to_string() },
            "cannot fetch catalog at 'u': d",
        ),
        (
            EngineError::CatalogFetchBody { url: "u".to_string(), detail: "d".to_string() },
            "cannot read catalog body at 'u': d",
        ),
        (
            EngineError::EmptyCatalog,
            "the catalog contains no templates (pass --template explicitly)",
        ),
        (
            EngineError::TemplateHasNoSource { slug: "s".to_string() },
            "template 's' has no source URL in the catalog",
        ),
        (
            EngineError::AddonHasNoSource { slug: "s".to_string() },
            "addon 's' has no source URL in the catalog",
        ),
        (
            EngineError::TemplateFetch { request: "r".to_string(), detail: "d".to_string() },
            "cannot fetch template source 'r': d",
        ),
        (
            EngineError::TemplateMaterialize { path: "p".to_string(), detail: "d".to_string() },
            "cannot materialise template into 'p': d",
        ),
        (
            EngineError::ProjectWrite { path: "p".to_string(), detail: "d".to_string() },
            "cannot write project file 'p': d",
        ),
    ];
    for (e, text) in cases {
        assert_eq!(e.message(), text);
    }
}

#[test]
fn scaffold_steps_overlay_addons_before_rewriting_references() {
    let c = catalog();
    let mut o = options("/w/my-api", "demo");
    o.addons = vec!["demo-ex".to_string(), "other".to_string()];
    let plan = scaffold_plan(&o, &c, false, true).expect("plan");
    let steps: Vec<String> = scaffold_steps(&plan, &o)
        .iter()
        .map(|s| match s {
            ScaffoldStep::FetchTemplate(t) => format!("fetch {t}"),
            ScaffoldStep::CreateProject => "create".to_string(),
            ScaffoldStep::CopyTemplate(t) => format!("copy {t}"),
            ScaffoldStep::RenameCrate { package, snake } => format!("rename {package} {snake}"),
            ScaffoldStep::WriteProjectRecord => "record".to_string(),
            ScaffoldStep::ApplyAddon(a) => format!("addon {a}"),
            ScaffoldStep::RewriteReferences { package, snake } => {
                format!("rewrite {package} {snake}")
            }
            ScaffoldStep::Format => "format".to_string(),
        })
        .collect();
    assert_eq!(
        steps,
        vec![
            "fetch demo",
            "create",
            "copy demo",
            "rename my-api my_api",
            "record",
            "addon demo-ex",
            "addon other",
            "rewrite my-api my_api",
            "format"
        ]
    );
}

fn info(name: &str, is_dir: bool, is_file: bool, target_is_file: bool) -> EntryInfo {
    EntryInfo { name: name.to_string(), is_dir, is_file, target_is_file }
}

#[test]
fn copy_plans_defer_fragments_to_the_end() {
    let entries = vec![
        info("router.rs.append", false, true, false),
        info(".git", true, false, false),
        info("src", true, false, false),
        info("Cargo.toml", false, true, true),
        info("router.rs", false, true, false),
        info("link", false, false, false),
    ];
    let ops: Vec<String> = copy_plan(&entries)
        .iter()
        .map(|op| match op {
            CopyOp::Recurse(i) => format!("recurse {i}"),
            CopyOp::Copy(i) => format!("copy {i}"),
            CopyOp::MergeManifest(i) => format!("merge {i}"),
            CopyOp::Append(i, t) => format!("append {i} {t}"),
        })
        .collect();
    assert_eq!(ops, vec!["recurse 2", "merge 3", "copy 4", "append 0 router.rs"]);
}

#[test]
fn project_records_hold_project_template_addons_and_overrides() {
    let mut o = options("work/my-api", "");
    o.addons = vec!["demo-ex".to_string()];
    o.sets = vec![("key".to_string(), "value".to_string())];
    let record = project_record(&o, "demo");
    assert_eq!(record.len(), 4);
    assert!(matches!(&record[0], (k, RecordValue::Text(t)) if k == "project" && t == "work/my-api"));
    assert!(matches!(&record[1], (k, RecordValue::Text(t)) if k == "template" && t == "demo"));
    assert!(matches!(&record[2], (k, RecordValue::Texts(a)) if k == "addons" && a == &vec!["demo-ex".to_string()]));
    assert!(matches!(&record[3], (k, RecordValue::Pairs(p)) if k == "set" && p == &vec![("key".to_string(), "value".to_string())]));
}

#[test]
fn rejects_unknown_template_and_addon() {
    let c = catalog();
    assert!(matches!(
        resolve_template_source("nope", &c, false),
        Err(EngineError::UnknownTemplate { .. })
    ));
    assert!(matches!(
        resolve_addon_source("nope", &c, false),
        Err(EngineError::UnknownAddon { .. })
    ));
}

#[test]
fn rejects_entries_without_source_url() {
    let c = catalog();
    assert!(matches!(
        resolve_template_source("legacy", &c, false),
        Err(EngineError::TemplateHasNoSource { .. })
    ));
}

#[test]
fn offline_supports_local_sources() {
    let c = catalog();
    let (url, _) = resolve_template_source("demo", &c, false).expect("slug");
    match resolve_source_url(&url, "demo", true) {
        Ok(ResolvedSource::Local(dir)) => assert_eq!(dir, "/bank/templates/demo"),
        other => panic!("unexpected {other:?}"),
    }
}

#[test]
fn offline_uses_warm_cache() {
    let mut o = options("offline-warm", "https://example.invalid/bank?subdir=templates/demo");
    o.offline = true;
    o.cache_dir = Some("/cache".to_string());
    assert_eq!(fetch_mode(o.offline, o.no_cache, None, None), FetchMode::CacheOnly);
    let c = catalog();
    let (_, key) = resolve_template_source(&o.template, &c, false).expect("url");
    let (base, subdir) = split_subdir(&o.template);
    assert_eq!(base, "https://example.invalid/bank");
    let (_, inner) = cache_location(&cache_root(&o, "/default"), &key, subdir.as_deref());
    assert_eq!(inner, format!("/cache/banks/{key}/templates/demo"));
}

#[test]
fn run_outcome_decisions() {
    use_outcomes();
}

fn use_outcomes() {
    assert!(remove_on_failure(true, false, true));
    assert!(!remove_on_failure(true, true, true));
    assert!(!remove_on_failure(false, false, true));
    assert!(!remove_on_failure(true, false, false));
    match missing_manifest("/w/p") {
        EngineError::TemplateMaterialize { path, detail } => {
            assert_eq!(path, "/w/p");
            assert_eq!(detail, "template source has no Cargo.toml");
        }
        other => panic!("unexpected {other:?}"),
    }
    assert_eq!(overlay_dir("/b/ext", true), "/b/ext/template");
    assert_eq!(overlay_dir("/b/ext", false), "/b/ext");
}
