//! Environment diagnostics printed by `--info`, and the cache directory.

use vstd::prelude::*;

use crate::catalog::{opt_str_view, DEFAULT_CATALOG_URL};
use crate::paths::{path_join, spec_join};
use crate::text::push_str;

verus! {

/// Short brand banner (ASCII only).
pub fn brand_banner() -> (r: &'static str)
    ensures
        r@ == "create-rust-app - scaffold Rust projects"@,
{
    "create-rust-app - scaffold Rust projects"
}

/// The catalog the command line reads by default.
fn create_rust_app_catalog_default() -> (r: &'static str)
    ensures
        r@ == DEFAULT_CATALOG_URL@,
{
    DEFAULT_CATALOG_URL
}

/// The environment summary for bug reports.
pub open spec fn env_info_text(version: Seq<char>, os: Seq<char>, arch: Seq<char>, cache: Seq<char>) -> Seq<
    char,
> {
    "create-rust-app "@ + version + "\nos="@ + os + " arch="@ + arch + "\ncatalog="@
        + DEFAULT_CATALOG_URL@ + "\ncache="@ + cache
}

/// One-shot environment summary for bug reports: the version, the
/// operating system and architecture, the default catalog and the cache
/// directory.
pub fn env_info(version: &str, os: &str, arch: &str, cache: &str) -> (r: String)
    ensures
        r@ == env_info_text(version@, os@, arch@, cache@),
{
    let mut out = String::new();
    push_str(&mut out, "create-rust-app ");
    push_str(&mut out, version);
    push_str(&mut out, "\nos=");
    push_str(&mut out, os);
    push_str(&mut out, " arch=");
    push_str(&mut out, arch);
    push_str(&mut out, "\ncatalog=");
    push_str(&mut out, create_rust_app_catalog_default());
    push_str(&mut out, "\ncache=");
    push_str(&mut out, cache);
    assert(out@ =~= env_info_text(version@, os@, arch@, cache@));
    out
}

/// The summary names the operating system and the architecture it is
/// given, each at a fixed place: after `os=` and after ` arch=`.
pub proof fn env_info_mentions_platform(version: Seq<char>, os: Seq<char>, arch: Seq<char>, cache: Seq<char>)
    ensures
        ({
            let t = env_info_text(version, os, arch, cache);
            let a: int = version.len() as int + 20;
            let b: int = a + os.len() + 6;
            &&& b + arch.len() <= t.len()
            &&& t.subrange(a, a + os.len()) == os
            &&& t.subrange(b, b + arch.len()) == arch
        }),
{
    reveal_strlit("create-rust-app ");
    reveal_strlit("\nos=");
    reveal_strlit(" arch=");
    let t = env_info_text(version, os, arch, cache);
    let a: int = version.len() as int + 20;
    let b: int = a + os.len() + 6;
    let head = "create-rust-app "@ + version + "\nos="@;
    assert(head.len() == a);
    assert(t.subrange(a, a + os.len()) =~= os);
    assert(t.subrange(b, b + arch.len()) =~= arch);
}

/// The platforms whose cache directories differ.
#[derive(Debug, Clone, Copy, PartialEq, Eq, Structural)]
pub enum Platform {
    MacOs,
    Windows,
    Other,
}

/// A relative segment joined onto `base` on Windows (`Path::join`): a `\\`
/// separates the two unless `base` is empty, already ends with `\\` or `/`,
/// or is a bare drive such as `C:`.
pub open spec fn spec_windows_join(base: Seq<char>, segment: Seq<char>) -> Seq<char> {
    if base.len() == 0 || base.last() == '\\' || base.last() == '/' || (base.len() == 2 && base[1]
        == ':') {
        base + segment
    } else {
        base + seq!['\\'] + segment
    }
}

/// A relative segment joined onto `base` as `Path::join` does on `platform`.
pub open spec fn spec_join_on(platform: Platform, base: Seq<char>, segment: Seq<char>) -> Seq<char> {
    if platform == Platform::Windows {
        spec_windows_join(base, segment)
    } else {
        spec_join(base, segment)
    }
}

/// Joins a relative segment (not starting with a separator) onto `base`
/// as `Path::join` does on `platform`.
fn join_on(platform: Platform, base: &str, segment: &str) -> (r: String)
    requires
        segment@.len() > 0,
        segment@[0] != '/',
    ensures
        r@ == spec_join_on(platform, base@, segment@),
{
    if platform != Platform::Windows {
        return path_join(base, segment);
    }
    let b = crate::text::str_chars(base);
    let mut out = crate::text::chars_to_string(&b);
    let n = b.len();
    if !(n == 0 || b[n - 1] == '\\' || b[n - 1] == '/' || (n == 2 && b[1] == ':')) {
        push_str(&mut out, "\\");
        proof {
            reveal_strlit("\\");
        }
    }
    push_str(&mut out, segment);
    out
}

/// The cache directory: `CRA_CACHE_DIR` when set and not empty; otherwise
/// `~/Library/Caches/create-rust-app` on macOS,
/// `%LOCALAPPDATA%\\create-rust-app\\cache` on Windows, and
/// `~/.cache/create-rust-app` elsewhere (or when those variables are
/// unset); `.cache/create-rust-app` without a home directory. Parts are
/// joined as `Path::join` joins them on the platform.
pub open spec fn spec_cache_dir(
    env_cache_dir: Option<Seq<char>>,
    platform: Platform,
    home: Option<Seq<char>>,
    local_app_data: Option<Seq<char>>,
) -> Seq<char> {
    if env_cache_dir is Some && env_cache_dir->0.len() > 0 {
        env_cache_dir->0
    } else if platform == Platform::MacOs && home is Some {
        spec_join(spec_join(spec_join(home->0, "Library"@), "Caches"@), "create-rust-app"@)
    } else if platform == Platform::Windows && local_app_data is Some {
        spec_join_on(platform, spec_join_on(platform, local_app_data->0, "create-rust-app"@), "cache"@)
    } else if home is Some {
        spec_join_on(platform, spec_join_on(platform, home->0, ".cache"@), "create-rust-app"@)
    } else {
        spec_join_on(platform, ".cache"@, "create-rust-app"@)
    }
}

/// Resolve the cache directory from the environment: the values of
/// `CRA_CACHE_DIR`, `HOME` and `LOCALAPPDATA` (each `None` when unset) on
/// `platform`.
pub fn cache_dir(
    env_cache_dir: Option<&str>,
    platform: Platform,
    home: Option<&str>,
    local_app_data: Option<&str>,
) -> (r: String)
    ensures
        r@ == spec_cache_dir(
            opt_str_view(env_cache_dir),
            platform,
            opt_str_view(home),
            opt_str_view(local_app_data),
        ),
{
    proof {
        reveal_strlit("create-rust-app");
        reveal_strlit("cache");
        reveal_strlit(".cache");
    }
    if let Some(dir) = env_cache_dir {
        if !dir.is_empty() {
            return dir.to_owned();
        }
    }
    if platform == Platform::MacOs {
        if let Some(h) = home {
            let a = path_join(h, "Library");
            let b = path_join(a.as_str(), "Caches");
            return path_join(b.as_str(), "create-rust-app");
        }
    }
    if platform == Platform::Windows {
        if let Some(l) = local_app_data {
            let a = join_on(platform, l, "create-rust-app");
            return join_on(platform, a.as_str(), "cache");
        }
    }
    if let Some(h) = home {
        let a = join_on(platform, h, ".cache");
        return join_on(platform, a.as_str(), "create-rust-app");
    }
    join_on(platform, ".cache", "create-rust-app")
}

} // verus!
