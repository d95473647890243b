use create_rust_app_core::catalog::{AddonEntry, Catalog, TemplateEntry, DEFAULT_CATALOG_URL};
use create_rust_app_core::cli::{
    cache_action, cache_report, catalog_args, catalog_fallback, collect_addons,
    completion_shell, env_settings, json_string_array, list_output, parse_set_overrides,
    plan_run, split_addons, CacheAction, CatalogFallback, CliArgs, CliCommand, RunPlan,
    ShellKind,
};
use create_rust_app_core::scaffold::EngineError;

fn args() -> CliArgs {
    CliArgs {
        project: None,
        info: false,
        verbose: false,
        template: String::new(),
        addons: String::new(),
        extend: String::new(),
        sets: vec![],
        config: String::new(),
        force: false,
        no_install: false,
        skip_install: false,
        interactive: true,
        no_interactive: false,
        list_templates: false,
        list_addons: false,
        category: String::new(),
        offline: false,
        no_cache: false,
        cache_dir: String::new(),
        pin: String::new(),
        refresh: String::new(),
        strict_version: false,
        keep_on_failure: false,
        catalog_url: String::new(),
        catalog_path: String::new(),
        fixture: false,
        fixture_dir: String::new(),
        add_completion: String::new(),
        json: false,
        command: None,
    }
}

fn catalog() -> Catalog {
    Catalog {
        templates: vec![
            TemplateEntry {
                slug: "web-server".to_string(),
                description: String::new(),
                tags: vec!["web".to_string()],
                url: "file:///bank/web-server".to_string(),
            },
            TemplateEntry {
                slug: "cli".to_string(),
                description: String::new(),
                tags: vec!["tooling".to_string()],
                url: String::new(),
            },
        ],
        addons: vec![AddonEntry {
            slug: "github-setup".to_string(),
            description: String::new(),
            url: String::new(),
        }],
    }
}

#[test]
fn splits_addon_lists() {
    assert_eq!(
        split_addons("a, b,,c "),
        vec!["a".to_string(), "b".to_string(), "c".to_string()]
    );
    assert!(split_addons("").is_empty());
}

#[test]
fn split_addons_trims_unicode_whitespace_and_keeps_order() {
    assert_eq!(
        split_addons("\u{a0}x ,\ty\n, ,z"),
        vec!["x".to_string(), "y".to_string(), "z".to_string()]
    );
    assert_eq!(split_addons(" , ,"), Vec::<String>::new());
    assert_eq!(split_addons("only"), vec!["only".to_string()]);
}

#[test]
fn extend_adds_missing_addons_once() {
    assert_eq!(
        collect_addons("a,b", "b, c,c,a"),
        vec!["a".to_string(), "b".to_string(), "c".to_string()]
    );
    assert_eq!(collect_addons("", "x"), vec!["x".to_string()]);
}

#[test]
fn parses_every_override_or_reports_the_first_bad_one() {
    let ok = parse_set_overrides(&vec!["a=1".to_string(), "b=x=y".to_string()]).expect("parsed");
    assert_eq!(
        ok,
        vec![
            ("a".to_string(), "1".to_string()),
            ("b".to_string(), "x=y".to_string())
        ]
    );
    match parse_set_overrides(&vec!["a=1".to_string(), "bad".to_string(), "=c".to_string()]) {
        Err(EngineError::InvalidSetOverride { value }) => assert_eq!(value, "bad"),
        other => panic!("unexpected {other:?}"),
    }
    assert_eq!(parse_set_overrides(&vec![]).expect("empty"), vec![]);
}

#[test]
fn completion_shells() {
    assert_eq!(completion_shell("bash"), Ok(ShellKind::Bash));
    assert_eq!(completion_shell("zsh"), Ok(ShellKind::Zsh));
    assert_eq!(completion_shell("fish"), Ok(ShellKind::Fish));
    assert_eq!(
        completion_shell("powershell-legacy"),
        Err("unknown shell 'powershell-legacy': expected bash|zsh|fish".to_string())
    );
}

#[test]
fn cache_actions_and_reports() {
    assert!(matches!(cache_action(None), CacheAction::Status));
    assert!(matches!(cache_action(Some("status")), CacheAction::Status));
    assert!(matches!(cache_action(Some("path")), CacheAction::Path));
    assert!(matches!(cache_action(Some("clean")), CacheAction::Clean));
    match cache_action(Some("purge")) {
        CacheAction::Unknown(o) => assert_eq!(o, "purge"),
        other => panic!("unexpected {other:?}"),
    }
    assert_eq!(cache_report(&CacheAction::Status, "/c", true, false), "cache dir: /c");
    assert_eq!(
        cache_report(&CacheAction::Status, "/c", false, false),
        "cache dir: /c (absent)"
    );
    assert_eq!(
        cache_report(&CacheAction::Status, "/c\"d", false, true),
        "{\"cache_dir\":\"/c\\\"d\",\"exists\":false}"
    );
    assert_eq!(cache_report(&CacheAction::Path, "/c", false, false), "/c");
    assert_eq!(cache_report(&CacheAction::Path, "/c", true, true), "{\"cache_dir\":\"/c\"}");
    assert_eq!(cache_report(&CacheAction::Clean, "/c", true, false), "cache cleaned");
    assert_eq!(cache_report(&CacheAction::Clean, "/c", true, true), "{\"cleaned\":true}");
    assert_eq!(
        cache_report(&CacheAction::Unknown("x".to_string()), "/c", true, false),
        "ERR unknown cache action 'x': expected status|path|clean"
    );
}

#[test]
fn json_arrays_escape_their_strings() {
    assert_eq!(json_string_array(&vec![]), "[]");
    assert_eq!(
        json_string_array(&vec!["a".to_string(), "b\"c".to_string(), "d\\e\n".to_string()]),
        "[\"a\",\"b\\\"c\",\"d\\\\e\\n\"]"
    );
}

#[test]
fn json_arrays_escape_control_characters() {
    assert_eq!(
        json_string_array(&vec!["\u{1}\t\u{8}\u{c}\r\u{1f}é/".to_string()]),
        "[\"\\u0001\\t\\b\\f\\r\\u001fé/\"]"
    );
}

#[test]
fn lists_catalog_as_text_and_json() {
    let c = catalog();
    assert_eq!(
        list_output(&c, true, false, "", false).expect("list"),
        vec!["Templates:\n  - web-server\n  - cli".to_string()]
    );
    assert_eq!(
        list_output(&c, true, true, "", false).expect("list"),
        vec![
            "Templates:\n  - web-server\n  - cli".to_string(),
            "Addons:\n  - github-setup".to_string()
        ]
    );
    assert_eq!(
        list_output(&c, true, false, "web", true).expect("list"),
        vec!["[\"web-server\"]".to_string()]
    );
    assert_eq!(
        list_output(&c, false, true, "web", true).expect("list"),
        vec!["[\"github-setup\"]".to_string()]
    );
    assert_eq!(
        list_output(&c, true, true, "", true).expect("list"),
        vec!["{\"addons\":[\"github-setup\"],\"templates\":[\"web-server\",\"cli\"]}".to_string()]
    );
}

#[test]
fn rejects_unknown_category() {
    assert_eq!(
        list_output(&catalog(), true, false, "nope", false),
        Err("no templates found for category 'nope'".to_string())
    );
}

#[test]
fn env_settings_follow_the_flags() {
    let mut a = args();
    assert!(env_settings(&a).is_empty());
    a.offline = true;
    a.no_cache = true;
    a.cache_dir = "/c".to_string();
    a.refresh = "manual".to_string();
    a.strict_version = true;
    a.fixture_dir = "/f".to_string();
    let pairs: Vec<(String, String)> = env_settings(&a);
    let expected: Vec<(String, String)> = vec![
        ("CRA_OFFLINE", "1"),
        ("CRA_NO_CACHE", "1"),
        ("CRA_CACHE_DIR", "/c"),
        ("CRA_REFRESH", "manual"),
        ("CRA_STRICT_VERSION", "1"),
        ("CRA_CATALOG_FIXTURE", "1"),
    ]
    .into_iter()
    .map(|(k, v)| (k.to_string(), v.to_string()))
    .collect();
    assert_eq!(pairs, expected);
}

#[test]
fn catalog_arguments_prefer_fixtures() {
    let mut a = args();
    a.catalog_path = "local.json".to_string();
    a.catalog_url = "https://x/t.json".to_string();
    let c = catalog_args(&a, None);
    assert_eq!(c.path, Some("local.json".to_string()));
    assert_eq!(c.url, Some("https://x/t.json".to_string()));
    a.fixture = true;
    let c = catalog_args(&a, Some("/env/fixtures"));
    assert_eq!(c.path, Some("/env/fixtures/templates.json".to_string()));
    a.fixture_dir = "/mine".to_string();
    let c = catalog_args(&a, Some("/env/fixtures"));
    assert_eq!(c.path, Some("/mine/templates.json".to_string()));
    let c = catalog_args(&args(), None);
    assert_eq!(c.path, None);
    assert_eq!(c.url, None);
}

#[test]
fn plan_handles_completion_and_info_first() {
    let mut a = args();
    a.add_completion = "bash".to_string();
    a.info = true;
    assert!(matches!(plan_run(&a, None), RunPlan::Completion(ShellKind::Bash)));
    a.add_completion = "powershell-legacy".to_string();
    match plan_run(&a, None) {
        RunPlan::Fail { line, code } => {
            assert_eq!(
                line,
                "ERR unknown shell 'powershell-legacy': expected bash|zsh|fish"
            );
            assert_eq!(code, 2);
        }
        other => panic!("unexpected {other:?}"),
    }
    a.add_completion = String::new();
    assert!(matches!(plan_run(&a, None), RunPlan::Info));
}

#[test]
fn plan_lists_before_cache_and_scaffold() {
    let mut a = args();
    a.list_addons = true;
    a.command = Some(CliCommand::Cache { action: None });
    a.project = Some("x".to_string());
    match plan_run(&a, None) {
        RunPlan::List(c) => assert_eq!(c.path, None),
        other => panic!("unexpected {other:?}"),
    }
    a.list_addons = false;
    assert!(matches!(plan_run(&a, None), RunPlan::Cache(CacheAction::Status)));
}

#[test]
fn plan_requires_a_valid_project() {
    let a = args();
    match plan_run(&a, None) {
        RunPlan::Fail { line, code } => {
            assert_eq!(
                line,
                "ERR missing <project>: usage: create-rust-app <project> --template <slug>"
            );
            assert_eq!(code, 2);
        }
        other => panic!("unexpected {other:?}"),
    }
    let mut a = args();
    a.project = Some("my app".to_string());
    match plan_run(&a, None) {
        RunPlan::Fail { line, code } => {
            assert_eq!(
                line,
                "ERR invalid project name 'my app': use letters, numbers, '-', '_'"
            );
            assert_eq!(code, 2);
        }
        other => panic!("unexpected {other:?}"),
    }
}

#[test]
fn rejects_invalid_set_override() {
    let mut a = args();
    a.project = Some("my-api".to_string());
    a.template = "web-server".to_string();
    a.sets = vec!["novalue".to_string()];
    match plan_run(&a, None) {
        RunPlan::Fail { line, code } => {
            assert_eq!(line, "ERR invalid --set 'novalue': expected key=value");
            assert_eq!(code, 2);
        }
        other => panic!("unexpected {other:?}"),
    }
}

#[test]
fn scaffolds_project_headless() {
    let mut a = args();
    a.project = Some("my-api".to_string());
    a.template = "web-server".to_string();
    a.addons = "github-setup, extra".to_string();
    a.extend = "extra,more".to_string();
    a.sets = vec!["k=v".to_string()];
    a.no_interactive = true;
    a.no_install = true;
    a.verbose = true;
    a.pin = "v1".to_string();
    a.catalog_path = "cat.json".to_string();
    match plan_run(&a, None) {
        RunPlan::Scaffold(req) => {
            assert_eq!(req.options.project, "my-api");
            assert_eq!(req.options.template, "web-server");
            assert_eq!(
                req.options.addons,
                vec!["github-setup".to_string(), "extra".to_string(), "more".to_string()]
            );
            assert_eq!(req.options.sets, vec![("k".to_string(), "v".to_string())]);
            assert_eq!(req.options.pin, Some("v1".to_string()));
            assert_eq!(req.options.cache_dir, None);
            assert_eq!(req.notes, vec!["pin: v1".to_string()]);
            assert!(!req.interactive_note);
            assert!(!req.run_check);
            assert_eq!(req.catalog.path, Some("cat.json".to_string()));
        }
        other => panic!("unexpected {other:?}"),
    }
}

#[test]
fn offline_runs_continue_without_a_catalog() {
    let err = EngineError::CatalogParse { detail: "bad".to_string() };
    match catalog_fallback(true, true, &err) {
        CatalogFallback::UseEmpty { warning } => assert_eq!(
            warning,
            Some("warning: cannot parse catalog: bad; continuing offline".to_string())
        ),
        other => panic!("unexpected {other:?}"),
    }
    assert!(matches!(
        catalog_fallback(true, false, &err),
        CatalogFallback::UseEmpty { warning: None }
    ));
    match catalog_fallback(false, true, &err) {
        CatalogFallback::Fail { line } => assert_eq!(line, "ERR cannot parse catalog: bad"),
        other => panic!("unexpected {other:?}"),
    }
    assert!(DEFAULT_CATALOG_URL.starts_with("https://"));
}

#[test]
fn rejects_unknown_completion_shell() {
    let mut a = args();
    a.add_completion = "powershell-legacy".to_string();
    assert!(matches!(plan_run(&a, None), RunPlan::Fail { code: 2, .. }));
}

#[test]
fn prints_bash_completion() {
    let mut a = args();
    a.add_completion = "bash".to_string();
    assert!(matches!(plan_run(&a, None), RunPlan::Completion(ShellKind::Bash)));
}

#[test]
fn lists_templates_from_local_catalog() {
    let mut a = args();
    a.list_templates = true;
    a.catalog_path = "/fixtures/templates.json".to_string();
    match plan_run(&a, None) {
        RunPlan::List(c) => assert_eq!(c.path, Some("/fixtures/templates.json".to_string())),
        other => panic!("unexpected {other:?}"),
    }
    let lines = list_output(&catalog(), true, false, "", false).expect("list");
    assert!(lines[0].contains("web-server"));
    assert!(lines[0].contains("cli"));
}

#[test]
fn lists_templates_as_json() {
    let lines = list_output(&catalog(), true, false, "", true).expect("list");
    assert_eq!(lines, vec!["[\"web-server\",\"cli\"]".to_string()]);
}

#[test]
fn filters_templates_by_category() {
    let lines = list_output(&catalog(), true, false, "web", false).expect("list");
    assert!(lines[0].contains("web-server"));
    assert!(!lines[0].contains("- cli"));
}

#[test]
fn info_flag_reports_environment() {
    let mut a = args();
    a.info = true;
    a.project = Some("x".to_string());
    assert!(matches!(plan_run(&a, None), RunPlan::Info));
}

#[test]
fn cache_status_reports_directory() {
    let mut a = args();
    a.command = Some(CliCommand::Cache { action: Some("status".to_string()) });
    match plan_run(&a, None) {
        RunPlan::Cache(action) => {
            assert_eq!(cache_report(&action, "/tmp/c/cache", true, false), "cache dir: /tmp/c/cache")
        }
        other => panic!("unexpected {other:?}"),
    }
}
