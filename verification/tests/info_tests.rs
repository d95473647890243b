use create_rust_app_core::catalog::DEFAULT_CATALOG_URL;
use create_rust_app_core::info::{brand_banner, cache_dir, env_info, Platform};

#[test]
fn banner_names_the_binary() {
    assert!(brand_banner().contains("create-rust-app"));
    assert!(brand_banner().is_ascii());
}

#[test]
fn info_mentions_platform() {
    let info = env_info("0.4.0", "linux", "x86_64", "/home/u/.cache/create-rust-app");
    assert_eq!(
        info,
        format!(
            "create-rust-app 0.4.0\nos=linux arch=x86_64\ncatalog={DEFAULT_CATALOG_URL}\ncache=/home/u/.cache/create-rust-app"
        )
    );
    assert!(info.contains("linux"));
    assert!(info.contains("x86_64"));
}

#[test]
fn respects_cache_dir_override() {
    assert_eq!(
        cache_dir(Some("/tmp/cra-cache-test"), Platform::Other, Some("/home/u"), None),
        "/tmp/cra-cache-test"
    );
}

#[test]
fn cache_dir_platform_defaults() {
    assert_eq!(
        cache_dir(Some(""), Platform::MacOs, Some("/Users/u"), None),
        "/Users/u/Library/Caches/create-rust-app"
    );
    assert_eq!(
        cache_dir(None, Platform::Windows, Some("/h"), Some("C:\\Users\\u\\AppData\\Local")),
        "C:\\Users\\u\\AppData\\Local\\create-rust-app\\cache"
    );
    assert_eq!(
        cache_dir(None, Platform::Windows, Some("/h"), None),
        "/h\\.cache\\create-rust-app"
    );
    assert_eq!(
        cache_dir(None, Platform::Other, Some("/home/u/"), None),
        "/home/u/.cache/create-rust-app"
    );
    assert_eq!(cache_dir(None, Platform::MacOs, None, None), ".cache/create-rust-app");
}

#[test]
fn windows_joins_with_backslashes_except_after_a_separator_or_drive() {
    assert_eq!(cache_dir(None, Platform::Windows, None, Some("C:")), "C:create-rust-app\\cache");
    assert_eq!(cache_dir(None, Platform::Windows, None, Some("D:\\")), "D:\\create-rust-app\\cache");
    assert_eq!(cache_dir(None, Platform::Windows, None, None), ".cache\\create-rust-app");
}
