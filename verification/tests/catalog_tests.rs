use create_rust_app_core::catalog::{
    catalog_source, format_catalog_list, list_addon_names, list_template_names,
    list_template_names_in_category, load_catalog, resolve_fixture_catalog_path,
    strip_file_scheme, AddonEntry, Catalog, CatalogFetch, CatalogSource, TemplateEntry,
    DEFAULT_CATALOG_URL,
};
use create_rust_app_core::scaffold::EngineError;

fn sample_catalog() -> Catalog {
    Catalog {
        templates: vec![
            TemplateEntry {
                slug: "web-server".to_string(),
                description: "Axum web server".to_string(),
                tags: vec!["web".to_string()],
                url: "file:///bank/web-server".to_string(),
            },
            TemplateEntry {
                slug: "cli".to_string(),
                description: "Clap CLI starter".to_string(),
                tags: vec!["tooling".to_string()],
                url: String::new(),
            },
        ],
        addons: vec![AddonEntry {
            slug: "github-setup".to_string(),
            description: "CI workflows".to_string(),
            url: "file:///bank/github-setup".to_string(),
        }],
    }
}

#[test]
fn lists_templates_and_addons_in_order() {
    let catalog = sample_catalog();
    assert_eq!(
        list_template_names(&catalog),
        vec!["web-server".to_string(), "cli".to_string()]
    );
    assert_eq!(list_addon_names(&catalog), vec!["github-setup".to_string()]);
}

#[test]
fn filters_templates_by_category_tag() {
    let catalog = sample_catalog();
    assert_eq!(
        list_template_names_in_category(&catalog, "web"),
        vec!["web-server".to_string()]
    );
    assert!(list_template_names_in_category(&catalog, "unknown").is_empty());
}

#[test]
fn formats_catalog_list_for_terminal() {
    let rendered = format_catalog_list("Templates", &["cli".to_string()]);
    assert_eq!(rendered, "Templates:\n  - cli");
}

#[test]
fn resolves_fixture_path_from_explicit_dir() {
    let resolved = resolve_fixture_catalog_path(Some("/tmp/fixtures"), None);
    assert_eq!(resolved, "/tmp/fixtures/templates.json");
}

#[test]
fn fixture_path_falls_back_to_env_then_repo_dir() {
    assert_eq!(
        resolve_fixture_catalog_path(None, Some("/env/dir/")),
        "/env/dir/templates.json"
    );
    assert_eq!(
        resolve_fixture_catalog_path(Some(""), Some("")),
        "fixtures/catalog/templates.json"
    );
    assert_eq!(
        resolve_fixture_catalog_path(None, None),
        "fixtures/catalog/templates.json"
    );
}

#[test]
fn formats_empty_and_multi_entry_lists() {
    assert_eq!(format_catalog_list("Addons", &[]), "Addons:");
    let names = vec!["a".to_string(), "b".to_string()];
    assert_eq!(format_catalog_list("Templates", &names), "Templates:\n  - a\n  - b");
}

#[test]
fn category_listing_keeps_catalog_order() {
    let mut catalog = sample_catalog();
    catalog.templates.push(TemplateEntry {
        slug: "api".to_string(),
        description: String::new(),
        tags: vec!["tooling".to_string(), "web".to_string()],
        url: String::new(),
    });
    let all = list_template_names(&catalog);
    let web = list_template_names_in_category(&catalog, "web");
    assert_eq!(web, vec!["web-server".to_string(), "api".to_string()]);
    assert!(web.iter().all(|slug| all.contains(slug)));
    assert!(web.len() <= all.len());
}

#[test]
fn strips_only_a_leading_file_scheme() {
    assert_eq!(strip_file_scheme("file:///tmp/x"), Some("/tmp/x".to_string()));
    assert_eq!(strip_file_scheme("https://host/file://x"), None);
    assert_eq!(strip_file_scheme("file://"), Some(String::new()));
}

#[test]
fn loads_catalog_from_local_path() {
    assert_eq!(
        catalog_source(Some("file:///tmp/templates.json"), Some("https://x/y.json")),
        CatalogSource::LocalFile("/tmp/templates.json".to_string())
    );
    assert_eq!(
        catalog_source(Some("local.json"), None),
        CatalogSource::LocalFile("local.json".to_string())
    );
}

#[test]
fn reads_file_scheme_urls_from_disk() {
    assert_eq!(
        catalog_source(Some(""), Some("file:///srv/templates.json")),
        CatalogSource::LocalFile("/srv/templates.json".to_string())
    );
    assert_eq!(
        catalog_source(None, Some("https://example.com/t.json")),
        CatalogSource::Remote("https://example.com/t.json".to_string())
    );
    assert_eq!(
        catalog_source(None, Some("")),
        CatalogSource::Remote(DEFAULT_CATALOG_URL.to_string())
    );
    assert_eq!(
        catalog_source(None, None),
        CatalogSource::Remote(DEFAULT_CATALOG_URL.to_string())
    );
}

#[test]
fn load_catalog_returns_the_parsed_catalog() {
    let source = CatalogSource::LocalFile("/tmp/templates.json".to_string());
    let loaded = load_catalog(&source, CatalogFetch::Parsed(sample_catalog())).expect("load");
    assert_eq!(list_template_names(&loaded), list_template_names(&sample_catalog()));
}

#[test]
fn load_catalog_names_the_source_in_errors() {
    let local = CatalogSource::LocalFile("/definitely/missing/templates.json".to_string());
    match load_catalog(&local, CatalogFetch::ReadFailed("No such file".to_string())) {
        Err(EngineError::CatalogRead { path, detail }) => {
            assert_eq!(path, "/definitely/missing/templates.json");
            assert_eq!(detail, "No such file");
        }
        other => panic!("unexpected {other:?}"),
    }
    match load_catalog(&local, CatalogFetch::ParseFailed("expected value".to_string())) {
        Err(EngineError::CatalogParse { detail }) => assert_eq!(detail, "expected value"),
        other => panic!("unexpected {other:?}"),
    }
    let remote = CatalogSource::Remote("https://example.invalid/t.json".to_string());
    match load_catalog(&remote, CatalogFetch::RequestFailed("dns".to_string())) {
        Err(EngineError::CatalogFetch { url, .. }) => {
            assert_eq!(url, "https://example.invalid/t.json")
        }
        other => panic!("unexpected {other:?}"),
    }
    match load_catalog(&remote, CatalogFetch::BodyFailed("reset".to_string())) {
        Err(EngineError::CatalogFetchBody { url, detail }) => {
            assert_eq!(url, "https://example.invalid/t.json");
            assert_eq!(detail, "reset");
        }
        other => panic!("unexpected {other:?}"),
    }
}

#[test]
fn rejects_malformed_catalog_json() {
    let source = CatalogSource::LocalFile("/tmp/templates.json".to_string());
    let err = load_catalog(&source, CatalogFetch::ParseFailed("key must be a string".to_string()))
        .expect_err("must fail");
    assert!(matches!(err, EngineError::CatalogParse { .. }));
}

#[test]
fn reports_missing_catalog_path() {
    let source = catalog_source(Some("/definitely/missing/templates.json"), None);
    let err = load_catalog(&source, CatalogFetch::ReadFailed("not found".to_string()))
        .expect_err("must fail");
    assert!(matches!(err, EngineError::CatalogRead { .. }));
}
