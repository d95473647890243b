use create_rust_app_core::manifest::{
    descends_into, package_renames, quoted_value, rewritten_file, read_manifest_names, rename_manifest, replace_bounded,
    rewrite_references, snake_case, ManifestNames,
};

const DEMO: &str = "[package]\nname = \"demo\"\nversion = \"0.1.0\"\nedition = \"2021\"\n\n[[bin]]\nname = \"demo\"\npath = \"src/main.rs\"\n\n[lib]\nname = \"demo_lib\"\npath = \"src/lib.rs\"\n\n[dependencies]\n";

#[test]
fn renames_package_bin_and_lib_names_only() {
    let renamed = rename_manifest(DEMO, "my-api", "my_api");
    assert_eq!(
        renamed,
        "[package]\nname = \"my-api\"\nversion = \"0.1.0\"\nedition = \"2021\"\n\n[[bin]]\nname = \"my-api\"\npath = \"src/main.rs\"\n\n[lib]\nname = \"my_api\"\npath = \"src/lib.rs\"\n\n[dependencies]\n"
    );
    assert!(!renamed.contains("\"demo"));
}

#[test]
fn keeps_other_sections_and_unquoted_lines() {
    let raw = "# comment\n[dependencies]\nname = \"keep\"\n[package]\n  name=\"x\" # trailing \"q\"\nnamespace = \"y\"\nname = bare\n";
    assert_eq!(
        rename_manifest(raw, "new", "new_lib"),
        "# comment\n[dependencies]\nname = \"keep\"\n[package]\n  name=\"new\" # trailing \"q\"\nnamespace = \"y\"\nname = bare\n"
    );
    assert_eq!(rename_manifest("", "a", "b"), "");
    assert_eq!(
        rename_manifest("[package]\r\nname = \"d\"", "a", "b"),
        "[package]\r\nname = \"a\""
    );
}

#[test]
fn reads_declared_names() {
    let names = read_manifest_names(DEMO);
    assert_eq!(names.package, Some("demo".to_string()));
    assert_eq!(names.lib, Some("demo_lib".to_string()));
    assert_eq!(names.bins, vec!["demo".to_string()]);
    let none = read_manifest_names("[dependencies]\nname = \"x\"\n");
    assert_eq!(none.package, None);
    assert_eq!(none.lib, None);
    assert!(none.bins.is_empty());
}

#[test]
fn a_renamed_manifest_declares_the_new_names() {
    let raw = "[package]\nname = \"demo\"\n[[bin]]\nname = \"a\"\n[[bin]]\nname = \"b\"\n[lib]\nname = \"demo_lib\"";
    let names = read_manifest_names(&rename_manifest(raw, "my-api", "my_api"));
    assert_eq!(names.package, Some("my-api".to_string()));
    assert_eq!(names.lib, Some("my_api".to_string()));
    assert_eq!(names.bins, vec!["my-api".to_string(), "my-api".to_string()]);
}

#[test]
fn quoted_values() {
    assert_eq!(quoted_value("name = \"demo\""), Some("demo".to_string()));
    assert_eq!(quoted_value("name = \"a\" # \"b\""), Some("a".to_string()));
    assert_eq!(quoted_value("name = \"demo\" # was \"x\""), Some("demo".to_string()));
    assert_eq!(quoted_value("name = \"x"), None);
    assert_eq!(quoted_value("name = x"), None);
}

#[test]
fn replaces_only_at_identifier_boundaries() {
    assert_eq!(
        replace_bounded("use demo_lib::greet; demo_lib2 xdemo_lib", "demo_lib", "my_api", &[]),
        "use my_api::greet; demo_lib2 xdemo_lib"
    );
    assert_eq!(
        replace_bounded("demo demo-ex demo_x (demo)", "demo", "my-api", &['-']),
        "my-api demo-ex demo_x (my-api)"
    );
    assert_eq!(replace_bounded("abc", "", "x", &[]), "abc");
    assert_eq!(replace_bounded("abc", "b", "b", &[]), "abc");
    assert_eq!(replace_bounded("aaa", "aa", "b", &[]), "aaa");
}

#[test]
fn snake_cases_names() {
    assert_eq!(snake_case("my-api"), "my_api");
    assert_eq!(snake_case("a--b_c"), "a__b_c");
    assert_eq!(snake_case(&snake_case("x-y")), "x_y");
}

#[test]
fn renames_point_old_names_at_new_ones() {
    let old = ManifestNames {
        package: Some("demo".to_string()),
        lib: Some("demo_lib".to_string()),
        bins: vec!["demo".to_string(), "my-api".to_string(), String::new()],
    };
    let renames = package_renames(&old, "my-api", "my_api");
    let pairs: Vec<(String, String, Vec<char>)> = renames
        .iter()
        .map(|r| (r.from.clone(), r.to.clone(), r.extra.clone()))
        .collect();
    assert_eq!(
        pairs,
        vec![
            ("demo".to_string(), "my-api".to_string(), vec!['-']),
            ("demo_lib".to_string(), "my_api".to_string(), vec![]),
            ("demo".to_string(), "my-api".to_string(), vec!['-']),
        ]
    );
}

#[test]
fn rewrites_crate_references_on_rename() {
    let old = read_manifest_names(DEMO);
    let renames = package_renames(&old, "my-api", "my_api");
    assert_eq!(
        rewrite_references("use demo_lib::greet;\n\nfn main() {\n    greet();\n}\n", &renames),
        "use my_api::greet;\n\nfn main() {\n    greet();\n}\n"
    );
    assert_eq!(
        rewrite_references("name = \"demo\"\nversion = \"0.1.0\"\n", &renames),
        "name = \"my-api\"\nversion = \"0.1.0\"\n"
    );
    assert_eq!(rewrite_references("demo-ex", &renames), "demo-ex");
}

#[test]
fn embedded_names_are_left_alone() {
    assert_eq!(
        replace_bounded("xdemo demo-ex demo_z demo9", "demo", "new", &['-']),
        "xdemo demo-ex demo_z demo9"
    );
    assert_eq!(replace_bounded("no match here", "demo", "new", &[]), "no match here");
}

#[test]
fn back_to_back_occurrences_are_both_embedded() {
    assert_eq!(replace_bounded("demodemo", "demo", "x", &[]), "demodemo");
    assert_eq!(replace_bounded("demo demo", "demo", "x", &[]), "x x");
}

#[test]
fn renaming_keeps_trailing_comments() {
    assert_eq!(
        rename_manifest("[package]\nname = \"demo\" # was \"x\"\n", "my-api", "my_api"),
        "[package]\nname = \"my-api\" # was \"x\"\n"
    );
}

#[test]
fn decides_which_files_are_rewritten() {
    use_rewrites();
}

fn use_rewrites() {
    assert!(!descends_into(".git"));
    assert!(!descends_into("target"));
    assert!(descends_into("src"));
    let old = read_manifest_names(DEMO);
    let renames = package_renames(&old, "my-api", "my_api");
    assert_eq!(
        rewritten_file(b"use demo_lib::greet;\n", &renames),
        Some("use my_api::greet;\n".to_string())
    );
    assert_eq!(rewritten_file(b"nothing here\n", &renames), None);
    assert_eq!(rewritten_file(b"demo_lib\0", &renames), None);
    assert_eq!(rewritten_file(&[0xff, 0xfe, b'd'], &renames), None);
}
