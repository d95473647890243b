//! Project scaffolding decisions: input validation, source resolution,
//! cache locations, fetch and copy plans.

use vstd::prelude::*;
use std::collections::hash_map::DefaultHasher;
use std::hash::Hasher;
use vstd::std_specs::hash::DefaultHasherAdditionalSpecFns;

use crate::catalog::{
    addon_slugs, spec_strip_file_scheme, strip_file_scheme, template_slugs, views, Catalog,
};
use crate::manifest::{snake_case, spec_snake_case};
use crate::paths::{file_name, file_name_bounds, path_join, spec_join};
use crate::text::{
    chars_range_to_string, chars_to_string, concat2, concat3, find, find_char, find_char_exec,
    find_from_exec, has_char, is_name_char, lemma_find_char, name_char, push_chars, push_str,
    str_chars, str_eq, trim_char, trim_char_bounds,
};

verus! {

/// Errors produced by the scaffolding engine. Causes that come from the
/// operating system or from outside crates are carried as their message.
#[derive(Debug, Clone)]
pub enum EngineError {
    /// The project name is empty or contains unsupported characters.
    InvalidProjectName { name: String },
    /// A `--set key=value` override is malformed.
    InvalidSetOverride { value: String },
    /// The target directory is not empty and `--force` was not passed.
    TargetNotEmpty { path: String },
    /// The requested template slug is unknown to the catalog.
    UnknownTemplate { slug: String },
    /// A requested addon slug is unknown to the catalog.
    UnknownAddon { slug: String },
    /// The catalog file could not be read.
    CatalogRead { path: String, detail: String },
    /// The catalog file is not valid JSON.
    CatalogParse { detail: String },
    /// The remote catalog could not be fetched.
    CatalogFetch { url: String, detail: String },
    /// The remote catalog body could not be read.
    CatalogFetchBody { url: String, detail: String },
    /// The catalog contains no templates, so no default can be selected.
    EmptyCatalog,
    /// A catalog template has no source URL to materialise from.
    TemplateHasNoSource { slug: String },
    /// A catalog addon has no source URL to materialise from.
    AddonHasNoSource { slug: String },
    /// A template or addon source could not be fetched.
    TemplateFetch { request: String, detail: String },
    /// Fetched template content could not be materialised.
    TemplateMaterialize { path: String, detail: String },
    /// Offline mode with a cold cache.
    OfflineCacheMiss { request: String },
    /// Project file I/O failed.
    ProjectWrite { path: String, detail: String },
}

/// The message for a rejected project name.
pub open spec fn invalid_name_text(name: Seq<char>) -> Seq<char> {
    "invalid project name '"@ + name + "': use letters, numbers, '-', '_'"@
}

/// The message for a malformed `--set` override.
pub open spec fn invalid_set_text(value: Seq<char>) -> Seq<char> {
    "invalid --set '"@ + value + "': expected key=value"@
}

/// The message of an error, as the command line prints it.
pub open spec fn error_text(e: EngineError) -> Seq<char> {
    match e {
        EngineError::InvalidProjectName { name } => invalid_name_text(name@),
        EngineError::InvalidSetOverride { value } => invalid_set_text(value@),
        EngineError::TargetNotEmpty { path } => "target directory '"@ + path@
            + "' is not empty (use --force to overwrite)"@,
        EngineError::UnknownTemplate { slug } => "unknown template '"@ + slug@
            + "' (use --list-templates to browse the catalog)"@,
        EngineError::UnknownAddon { slug } => "unknown addon '"@ + slug@
            + "' (use --list-addons to browse the catalog)"@,
        EngineError::CatalogRead { path, detail } => "cannot read catalog at '"@ + path@ + "': "@
            + detail@,
        EngineError::CatalogParse { detail } => "cannot parse catalog: "@ + detail@,
        EngineError::CatalogFetch { url, detail } => "cannot fetch catalog at '"@ + url@ + "': "@
            + detail@,
        EngineError::CatalogFetchBody { url, detail } => "cannot read catalog body at '"@ + url@
            + "': "@ + detail@,
        EngineError::EmptyCatalog => "the catalog contains no templates (pass --template explicitly)"@,
        EngineError::TemplateHasNoSource { slug } => "template '"@ + slug@
            + "' has no source URL in the catalog"@,
        EngineError::AddonHasNoSource { slug } => "addon '"@ + slug@
            + "' has no source URL in the catalog"@,
        EngineError::TemplateFetch { request, detail } => "cannot fetch template source '"@
            + request@ + "': "@ + detail@,
        EngineError::TemplateMaterialize { path, detail } => "cannot materialise template into '"@
            + path@ + "': "@ + detail@,
        EngineError::OfflineCacheMiss { request } => "offline mode: no cached copy of '"@ + request@
            + "' (scaffold once online to populate the cache)"@,
        EngineError::ProjectWrite { path, detail } => "cannot write project file '"@ + path@
            + "': "@ + detail@,
    }
}

/// `a + x + b`.
fn framed(a: &str, x: &str, b: &str) -> (r: String)
    ensures
        r@ == a@ + x@ + b@,
{
    concat3(a, x, b)
}

/// `a + x + b + y`.
fn framed2(a: &str, x: &str, b: &str, y: &str) -> (r: String)
    ensures
        r@ == a@ + x@ + b@ + y@,
{
    let mut out = concat3(a, x, b);
    push_str(&mut out, y);
    out
}

impl EngineError {
    /// The message of this error (`Display`).
    pub fn message(&self) -> (r: String)
        ensures
            r@ == error_text(*self),
    {
        match self {
            EngineError::InvalidProjectName { name } => framed(
                "invalid project name '",
                name.as_str(),
                "': use letters, numbers, '-', '_'",
            ),
            EngineError::InvalidSetOverride { value } => framed(
                "invalid --set '",
                value.as_str(),
                "': expected key=value",
            ),
            EngineError::TargetNotEmpty { path } => framed(
                "target directory '",
                path.as_str(),
                "' is not empty (use --force to overwrite)",
            ),
            EngineError::UnknownTemplate { slug } => framed(
                "unknown template '",
                slug.as_str(),
                "' (use --list-templates to browse the catalog)",
            ),
            EngineError::UnknownAddon { slug } => framed(
                "unknown addon '",
                slug.as_str(),
                "' (use --list-addons to browse the catalog)",
            ),
            EngineError::CatalogRead { path, detail } => framed2(
                "cannot read catalog at '",
                path.as_str(),
                "': ",
                detail.as_str(),
            ),
            EngineError::CatalogParse { detail } => concat2("cannot parse catalog: ", detail.as_str()),
            EngineError::CatalogFetch { url, detail } => framed2(
                "cannot fetch catalog at '",
                url.as_str(),
                "': ",
                detail.as_str(),
            ),
            EngineError::CatalogFetchBody { url, detail } => framed2(
                "cannot read catalog body at '",
                url.as_str(),
                "': ",
                detail.as_str(),
            ),
            EngineError::EmptyCatalog => "the catalog contains no templates (pass --template explicitly)".to_owned(),
            EngineError::TemplateHasNoSource { slug } => framed(
                "template '",
                slug.as_str(),
                "' has no source URL in the catalog",
            ),
            EngineError::AddonHasNoSource { slug } => framed(
                "addon '",
                slug.as_str(),
                "' has no source URL in the catalog",
            ),
            EngineError::TemplateFetch { request, detail } => framed2(
                "cannot fetch template source '",
                request.as_str(),
                "': ",
                detail.as_str(),
            ),
            EngineError::TemplateMaterialize { path, detail } => framed2(
                "cannot materialise template into '",
                path.as_str(),
                "': ",
                detail.as_str(),
            ),
            EngineError::OfflineCacheMiss { request } => framed(
                "offline mode: no cached copy of '",
                request.as_str(),
                "' (scaffold once online to populate the cache)",
            ),
            EngineError::ProjectWrite { path, detail } => framed2(
                "cannot write project file '",
                path.as_str(),
                "': ",
                detail.as_str(),
            ),
        }
    }
}

/// Options controlling one scaffold run.
#[derive(Debug, Clone)]
pub struct ScaffoldOptions {
    /// Project (directory) name, for example `my-api`.
    pub project: String,
    /// Template slug, URL, or `file://` path. Empty selects the catalog's
    /// first template.
    pub template: String,
    /// Addon slugs or URLs.
    pub addons: Vec<String>,
    /// Parsed `--set key=value` overrides.
    pub sets: Vec<(String, String)>,
    /// Allow non-empty target directories.
    pub force: bool,
    /// Skip network access; remote sources resolve from the local cache.
    pub offline: bool,
    /// Keep the project directory when scaffolding fails.
    pub keep_on_failure: bool,
    /// Cache root override (`None` falls back to the cache directory).
    pub cache_dir: Option<String>,
    /// Skip cache reads and writes; remote sources are always fetched fresh.
    pub no_cache: bool,
    /// Git ref (branch or tag) to check out when cloning remote sources.
    pub pin: Option<String>,
}

// ---------------------------------------------------------------------------
// Project names and overrides
// ---------------------------------------------------------------------------

/// A project path is valid when its final component is non-empty and made
/// of ASCII letters, digits, `-` and `_`.
pub open spec fn valid_project_name(name: Seq<char>) -> bool {
    match file_name(name) {
        Some(base) => base.len() > 0 && forall|i: int| 0 <= i < base.len() ==> is_name_char(
            #[trigger] base[i],
        ),
        None => false,
    }
}

/// A project name is valid exactly when its final component is made of
/// ASCII letters, digits, `-` and `_` alone, whatever its length and
/// whatever directories come before it: for a non-empty `base` without a
/// separator (other than `.` and `..`), both `base` and `dir/base` are valid
/// if and only if every character of `base` is such a character.
pub proof fn names_of_letters_digits_hyphens_and_underscores_are_valid(dir: Seq<char>, base: Seq<char>)
    requires
        base.len() > 0,
        !base.contains('/'),
        base != seq!['.'],
        base != seq!['.', '.'],
    ensures
        valid_project_name(base) == (forall|i: int|
            0 <= i < base.len() ==> ('0' <= #[trigger] base[i] && base[i] <= '9') || ('a' <= base[i]
                && base[i] <= 'z') || ('A' <= base[i] && base[i] <= 'Z') || base[i] == '-' || base[i]
                == '_'),
        valid_project_name(dir + seq!['/'] + base) == valid_project_name(base),
{
    crate::paths::lemma_file_name_of_last(seq![], base);
    assert(Seq::<char>::empty() + base =~= base);
    crate::paths::lemma_file_name_of_last(dir + seq!['/'], base);
    assert((dir + seq!['/']).last() == '/');
    assert(dir + seq!['/'] + base =~= (dir + seq!['/']) + base);
}

/// Whether every character of `v[from..to]` is a name character.
fn all_name_chars(v: &Vec<char>, from: usize, to: usize) -> (r: bool)
    requires
        from <= to <= v.len(),
    ensures
        r == forall|i: int| from <= i < to ==> is_name_char(#[trigger] v@[i]),
{
    let mut i: usize = from;
    while i < to
        invariant
            from <= i <= to <= v.len(),
            forall|j: int| from <= j < i ==> is_name_char(#[trigger] v@[j]),
        decreases to - i,
    {
        if !name_char(v[i]) {
            return false;
        }
        i = i + 1;
    }
    true
}

/// Check that `name` is a safe project path.
///
/// `name` may be a plain name (`my-app`) or a (relative or absolute) path
/// whose final segment is the package name; only that segment is validated.
pub fn validate_project_name(name: &str) -> (r: Result<(), EngineError>)
    ensures
        r is Ok <==> valid_project_name(name@),
        r matches Err(e) ==> (e matches EngineError::InvalidProjectName { name: n } && n@ == name@),
{
    let v = str_chars(name);
    let ok = match file_name_bounds(&v) {
        Some((a, b)) => {
            let all = all_name_chars(&v, a, b);
            proof {
                let base = v@.subrange(a as int, b as int);
                if all {
                    assert forall|i: int| 0 <= i < base.len() implies is_name_char(
                        #[trigger] base[i],
                    ) by {
                        assert(base[i] == v@[a + i]);
                    }
                } else {
                    let j = choose|j: int| a <= j < b && !is_name_char(#[trigger] v@[j]);
                    assert(base[j - a] == v@[j]);
                }
            }
            a < b && all
        },
        None => false,
    };
    if ok {
        Ok(())
    } else {
        Err(EngineError::InvalidProjectName { name: name.to_owned() })
    }
}

/// What `parse_set_override` accepts and returns: the text before the
/// first `=` (non-empty) and everything after it.
pub open spec fn spec_set_override(raw: Seq<char>) -> Option<(Seq<char>, Seq<char>)> {
    match find_char(raw, '=') {
        Some(k) => if k == 0 {
            None
        } else {
            Some((raw.take(k), raw.skip(k + 1)))
        },
        None => None,
    }
}

/// Parse one `--set key=value` override.
pub fn parse_set_override(raw: &str) -> (r: Result<(String, String), EngineError>)
    ensures
        r matches Ok((k, v)) ==> spec_set_override(raw@) == Some((k@, v@)),
        r is Err ==> spec_set_override(raw@) is None,
        r matches Err(e) ==> (e matches EngineError::InvalidSetOverride { value } && value@
            == raw@),
{
    let v = str_chars(raw);
    match find_char_exec(&v, '=') {
        Some(k) => {
            proof {
                lemma_find_char(v@, '=');
            }
            if k == 0 {
                Err(EngineError::InvalidSetOverride { value: raw.to_owned() })
            } else {
                let key = chars_range_to_string(&v, 0, k);
                let value = chars_range_to_string(&v, k + 1, v.len());
                assert(v@.subrange(0, k as int) =~= v@.take(k as int));
                assert(v@.subrange(k + 1, v.len() as int) =~= v@.skip(k + 1));
                Ok((key, value))
            }
        },
        None => Err(EngineError::InvalidSetOverride { value: raw.to_owned() }),
    }
}

/// An override is split at its first `=`: the key is not empty and holds
/// no `=`, and key, `=` and value give the input back. An input without
/// `=`, or starting with one, is rejected.
pub proof fn set_override_splits_at_first_equals(raw: Seq<char>)
    ensures
        spec_set_override(raw) matches Some((k, v)) ==> k.len() > 0 && !has_char(k, '=') && raw
            == k + seq!['='] + v,
        spec_set_override(raw) is None <==> (!has_char(raw, '=') || (raw.len() > 0 && raw[0]
            == '=')),
{
    lemma_find_char(raw, '=');
    if let Some(k) = find_char(raw, '=') {
        if k > 0 {
            assert(raw =~= raw.take(k) + seq!['='] + raw.skip(k + 1));
            if has_char(raw.take(k), '=') {
                let j = choose|j: int| 0 <= j < raw.take(k).len() && raw.take(k)[j] == '=';
                assert(raw[j] == '=');
            }
        }
    }
}

// ---------------------------------------------------------------------------
// Cache keys
// ---------------------------------------------------------------------------

/// `c` when it is a name character, `_` otherwise.
pub open spec fn sanitize_char(c: char) -> char {
    if is_name_char(c) {
        c
    } else {
        '_'
    }
}

/// `raw` with every character outside ASCII letters, digits, `-` and `_`
/// replaced by `_`.
pub open spec fn spec_sanitize(raw: Seq<char>) -> Seq<char> {
    raw.map_values(|c: char| sanitize_char(c))
}

/// Replace every character that is unsafe in a directory name by `_`.
pub fn sanitize_cache_key(raw: &str) -> (r: String)
    ensures
        r@ == spec_sanitize(raw@),
{
    let v = str_chars(raw);
    let mut out: Vec<char> = Vec::new();
    let mut i: usize = 0;
    while i < v.len()
        invariant
            i <= v.len(),
            out@ == spec_sanitize(v@.take(i as int)),
        decreases v.len() - i,
    {
        let c = v[i];
        if name_char(c) {
            out.push(c);
        } else {
            out.push('_');
        }
        assert(spec_sanitize(v@.take(i + 1)) =~= spec_sanitize(v@.take(i as int)).push(
            sanitize_char(c),
        ));
        i = i + 1;
    }
    assert(v@.take(v.len() as int) =~= v@);
    chars_to_string(&out)
}

/// A sanitised key is as long as its input and made of name characters
/// only; sanitising it again changes nothing, and a key already made of
/// name characters is kept as it is.
pub proof fn sanitized_keys_are_safe(raw: Seq<char>)
    ensures
        spec_sanitize(raw).len() == raw.len(),
        forall|i: int| 0 <= i < raw.len() ==> is_name_char(#[trigger] spec_sanitize(raw)[i]),
        spec_sanitize(spec_sanitize(raw)) == spec_sanitize(raw),
        (forall|i: int| 0 <= i < raw.len() ==> is_name_char(#[trigger] raw[i])) ==> spec_sanitize(
            raw,
        ) == raw,
{
    assert(spec_sanitize(spec_sanitize(raw)) =~= spec_sanitize(raw));
    if forall|i: int| 0 <= i < raw.len() ==> is_name_char(#[trigger] raw[i]) {
        assert(spec_sanitize(raw) =~= raw);
    }
}

/// The writes that `<str as Hash>::hash` makes on a hasher for `s`, each
/// as the bytes written.
pub uninterp spec fn str_hash_writes(s: Seq<char>) -> Seq<Seq<u8>>;

/// Feeds `s` to `hasher` (`<str as Hash>::hash`). The writes that hashing a
/// string makes depend on the string alone; which bytes they are is left
/// unsaid, as std's documentation leaves it.
#[verifier::external_body]
fn hash_str(s: &str, hasher: &mut DefaultHasher)
    ensures
        final(hasher)@ == old(hasher)@ + str_hash_writes(s@),
{
    std::hash::Hash::hash(s, hasher)
}

/// The lowercase hexadecimal digit for `d < 16`.
pub open spec fn hex_digit(d: nat) -> char {
    if d < 10 {
        (('0' as nat) + d) as char
    } else {
        (('a' as nat) + d - 10) as char
    }
}

/// The last `count` hexadecimal digits of `n`, most significant first
/// (zero padded, as `{:0count$x}` prints them).
pub open spec fn hex_digits(n: nat, count: nat) -> Seq<char>
    decreases count,
{
    if count == 0 {
        seq![]
    } else {
        hex_digits(n / 16, (count - 1) as nat).push(hex_digit(n % 16))
    }
}

fn hex_char(d: u64) -> (r: char)
    requires
        d < 16,
    ensures
        r == hex_digit(d as nat),
{
    let table: [char; 16] = [
        '0', '1', '2', '3', '4', '5', '6', '7', '8', '9', 'a', 'b', 'c', 'd', 'e', 'f',
    ];
    let c = table[d as usize];
    assert(c == hex_digit(d as nat)) by {
        assert(table@[d as int] == c);
    }
    c
}

fn push_hex(out: &mut Vec<char>, n: u64, count: usize)
    ensures
        final(out)@ == old(out)@ + hex_digits(n as nat, count as nat),
    decreases count,
{
    if count > 0 {
        push_hex(out, n / 16, count - 1);
        out.push(hex_char(n % 16));
    } else {
        assert(old(out)@ + hex_digits(n as nat, 0) =~= old(out)@);
    }
}

/// The cache key of an arbitrary source URL: `url-` and sixteen hex digits
/// of its hash.
pub open spec fn spec_url_cache_key(url: Seq<char>) -> Seq<char> {
    "url-"@ + hex_digits(DefaultHasher::spec_finish(str_hash_writes(url)) as nat, 16)
}

/// Cache key for a URL source (`url-` plus the zero-padded hex hash).
pub fn cache_key_for_url(url: &str) -> (r: String)
    ensures
        r@ == spec_url_cache_key(url@),
{
    let mut hasher = DefaultHasher::new();
    hash_str(url, &mut hasher);
    assert(hasher@ =~= str_hash_writes(url@));
    let h = hasher.finish();
    let mut digits: Vec<char> = Vec::new();
    push_hex(&mut digits, h, 16);
    let mut out = String::new();
    push_str(&mut out, "url-");
    push_chars(&mut out, &digits);
    assert(Seq::<char>::empty() + "url-"@ + digits@ =~= "url-"@ + digits@);
    out
}

// ---------------------------------------------------------------------------
// Subdirectory queries
// ---------------------------------------------------------------------------

/// `split_subdir` as a specification: the URL before the first `?subdir=`
/// (or, failing that, the first `&subdir=`), and the value after it cut at
/// `#` and stripped of surrounding `/`, absent when that leaves nothing.
pub open spec fn spec_split_subdir(url: Seq<char>) -> (Seq<char>, Option<Seq<char>>) {
    let marker = match find(url, "?subdir="@) {
        Some(i) => Some(i),
        None => find(url, "&subdir="@),
    };
    match marker {
        Some(cut) => {
            let rest = url.skip(cut + 8);
            let cut_rest = match find_char(rest, '#') {
                Some(h) => rest.take(h),
                None => rest,
            };
            let sub = trim_char(cut_rest, '/');
            (url.take(cut), if sub.len() == 0 {
                None
            } else {
                Some(sub)
            })
        },
        None => (url, None),
    }
}

/// Splitting off a subdirectory keeps a prefix of the URL as its base, and
/// a subdirectory, when there is one, is not empty, holds no `#` and
/// neither starts nor ends with `/`. A URL without the query is kept whole.
pub proof fn subdir_split_is_clean(url: Seq<char>)
    ensures
        url.len() >= spec_split_subdir(url).0.len(),
        spec_split_subdir(url).0 == url.take(spec_split_subdir(url).0.len() as int),
        spec_split_subdir(url).1 matches Some(sub) ==> sub.len() > 0 && !has_char(sub, '#')
            && sub[0] != '/' && sub.last() != '/',
        find(url, "?subdir="@) is None && find(url, "&subdir="@) is None ==> spec_split_subdir(url)
            == (url, None::<Seq<char>>),
{
    crate::text::lemma_find_from(url, "?subdir="@, 0);
    crate::text::lemma_find_from(url, "&subdir="@, 0);
    let marker = match find(url, "?subdir="@) {
        Some(i) => Some(i),
        None => find(url, "&subdir="@),
    };
    match marker {
        Some(cut) => {
            let rest = url.skip(cut + 8);
            lemma_find_char(rest, '#');
            let cut_rest = match find_char(rest, '#') {
                Some(h) => rest.take(h),
                None => rest,
            };
            assert(!has_char(cut_rest, '#')) by {
                if has_char(cut_rest, '#') {
                    let j = choose|j: int| 0 <= j < cut_rest.len() && cut_rest[j] == '#';
                    assert(rest[j] == '#');
                }
            }
            crate::text::lemma_trim_char_shape(cut_rest, '/');
            let sub = trim_char(cut_rest, '/');
            let (a, b) = choose|a: int, b: int| 0 <= a <= b <= cut_rest.len() && sub == cut_rest.subrange(a, b);
            assert(!has_char(sub, '#')) by {
                if has_char(sub, '#') {
                    let j = choose|j: int| 0 <= j < sub.len() && sub[j] == '#';
                    assert(cut_rest[a + j] == '#');
                }
            }
        },
        None => {
            assert(url.take(url.len() as int) =~= url);
        },
    }
}

/// Split a `?subdir=` (or `&subdir=`) query off a repository URL.
pub fn split_subdir(url: &str) -> (r: (String, Option<String>))
    ensures
        r.0@ == spec_split_subdir(url@).0,
        r.1 matches Some(s) ==> spec_split_subdir(url@).1 == Some(s@),
        r.1 is None ==> spec_split_subdir(url@).1 is None,
{
    let v = str_chars(url);
    let q = str_chars("?subdir=");
    let a = str_chars("&subdir=");
    proof {
        reveal_strlit("?subdir=");
        reveal_strlit("&subdir=");
    }
    let marker = match find_from_exec(&v, &q, 0) {
        Some(i) => Some(i),
        None => find_from_exec(&v, &a, 0),
    };
    match marker {
        Some(cut) => {
            proof {
                crate::text::lemma_find_from(v@, q@, 0);
                crate::text::lemma_find_from(v@, a@, 0);
                assert(q@.len() == 8 && a@.len() == 8);
                assert(cut + 8 <= v@.len());
            }
            let base = chars_range_to_string(&v, 0, cut);
            let start = cut + 8;
            let rest = chars_range_slice(&v, start, v.len());
            let end = match find_char_exec(&rest, '#') {
                Some(h) => {
                    proof {
                        lemma_find_char(rest@, '#');
                    }
                    h
                },
                None => rest.len(),
            };
            let (s, e) = trim_char_bounds(&rest, 0, end, '/');
            proof {
                assert(v@.subrange(0, cut as int) =~= v@.take(cut as int));
                assert(rest@ =~= v@.skip(cut + 8));
                assert(rest@.subrange(0, rest@.len() as int) =~= rest@);
                assert(rest@.subrange(0, end as int) =~= rest@.take(end as int));
            }
            if s == e {
                (base, None)
            } else {
                (base, Some(chars_range_to_string(&rest, s, e)))
            }
        },
        None => (chars_to_string(&v), None),
    }
}

/// The characters `v[from..to]` as a new vector.
pub fn chars_range_slice(v: &Vec<char>, from: usize, to: usize) -> (r: Vec<char>)
    requires
        from <= to <= v.len(),
    ensures
        r@ == v@.subrange(from as int, to as int),
{
    let mut out: Vec<char> = Vec::new();
    let mut i: usize = from;
    while i < to
        invariant
            from <= i <= to <= v.len(),
            out@ == v@.subrange(from as int, i as int),
        decreases to - i,
    {
        out.push(v[i]);
        assert(out@ =~= v@.subrange(from as int, i + 1));
        i = i + 1;
    }
    out
}

// ---------------------------------------------------------------------------
// Source resolution
// ---------------------------------------------------------------------------

/// A template or addon source resolved to a fetchable location.
#[derive(Debug, Clone)]
pub enum ResolvedSource {
    /// Local directory, used directly (works offline).
    Local(String),
    /// Remote git source with an optional subdirectory.
    Remote {
        /// Repository URL without query or fragment.
        url: String,
        /// Subdirectory inside the repository, if any.
        subdir: Option<String>,
    },
}

/// Whether `p` occurs somewhere in `s` (`str::contains`).
pub open spec fn contains(s: Seq<char>, p: Seq<char>) -> bool {
    find(s, p) is Some
}

/// Whether `v` contains the characters of `p`.
fn contains_exec(v: &Vec<char>, p: &str) -> (r: bool)
    ensures
        r == contains(v@, p@),
{
    let pv = str_chars(p);
    find_from_exec(v, &pv, 0).is_some()
}

/// A spec names an external source (rather than a catalog slug) when it
/// looks like a URL or path, or names an existing directory.
pub open spec fn spec_is_external(spec: Seq<char>, spec_is_dir: bool) -> bool {
    contains(spec, "://"@) || contains(spec, "/"@) || spec_is_dir
}

/// Whether `spec` is a URL or path rather than a catalog slug;
/// `spec_is_dir` tells whether `spec` names an existing directory.
pub fn is_external_spec(spec: &str, spec_is_dir: bool) -> (r: bool)
    ensures
        r == spec_is_external(spec@, spec_is_dir),
{
    let v = str_chars(spec);
    contains_exec(&v, "://") || contains_exec(&v, "/") || spec_is_dir
}

/// The local directory a source URL may name: the path of a `file://`
/// URL, or the URL itself when it has no scheme.
pub open spec fn spec_local_candidate(url: Seq<char>) -> Option<Seq<char>> {
    match spec_strip_file_scheme(url) {
        Some(local) => Some(local),
        None => if !contains(url, "://"@) {
            Some(url)
        } else {
            None
        },
    }
}

/// The directory whose existence `resolve_source_url` depends on.
pub fn local_dir_candidate(url: &str) -> (r: Option<String>)
    ensures
        r matches Some(p) ==> spec_local_candidate(url@) == Some(p@),
        r is None ==> spec_local_candidate(url@) is None,
{
    match strip_file_scheme(url) {
        Some(local) => Some(local),
        None => {
            let v = str_chars(url);
            if !contains_exec(&v, "://") {
                Some(url.to_owned())
            } else {
                None
            }
        },
    }
}

/// The detail of a missing `file://` directory.
pub open spec fn missing_local_detail(local: Seq<char>) -> Seq<char> {
    "local directory '"@ + local + "' does not exist"@
}

/// Resolve a source URL. `local_is_dir` tells whether the directory named
/// by `local_dir_candidate(url)` exists. A `file://` URL must name an
/// existing directory; a scheme-less URL naming one is used directly;
/// anything else is a remote repository with an optional subdirectory.
pub fn resolve_source_url(url: &str, display: &str, local_is_dir: bool) -> (r: Result<
    ResolvedSource,
    EngineError,
>)
    ensures
        spec_strip_file_scheme(url@) matches Some(local) ==> {
            if local_is_dir {
                r matches Ok(ResolvedSource::Local(d)) && d@ == local
            } else {
                r matches Err(EngineError::TemplateFetch { request, detail }) && request@
                    == display@ && detail@ == missing_local_detail(local)
            }
        },
        spec_strip_file_scheme(url@) is None && !contains(url@, "://"@) && local_is_dir ==> (r matches Ok(
            ResolvedSource::Local(d),
        ) && d@ == url@),
        spec_strip_file_scheme(url@) is None && (contains(url@, "://"@) || !local_is_dir)
            ==> (r matches Ok(ResolvedSource::Remote { url: u, subdir }) && u@ == spec_split_subdir(
            url@,
        ).0 && (match subdir {
            Some(s) => spec_split_subdir(url@).1 == Some(s@),
            None => spec_split_subdir(url@).1 is None,
        })),
{
    if let Some(local) = strip_file_scheme(url) {
        if local_is_dir {
            return Ok(ResolvedSource::Local(local));
        }
        let mut detail = String::new();
        push_str(&mut detail, "local directory '");
        push_str(&mut detail, local.as_str());
        push_str(&mut detail, "' does not exist");
        assert(Seq::<char>::empty() + "local directory '"@ + local@ + "' does not exist"@
            =~= missing_local_detail(local@));
        return Err(EngineError::TemplateFetch { request: display.to_owned(), detail });
    }
    let v = str_chars(url);
    if !contains_exec(&v, "://") && local_is_dir {
        return Ok(ResolvedSource::Local(url.to_owned()));
    }
    let (base, subdir) = split_subdir(url);
    Ok(ResolvedSource::Remote { url: base, subdir })
}

/// The first index at or after `i` where `slugs` holds `slug`.
pub open spec fn first_index(slugs: Seq<Seq<char>>, slug: Seq<char>, i: int) -> Option<int>
    decreases slugs.len() - i,
{
    if i < 0 || i >= slugs.len() {
        None
    } else if slugs[i] == slug {
        Some(i)
    } else {
        first_index(slugs, slug, i + 1)
    }
}

/// The index of the first template with slug `slug`.
pub open spec fn first_template(c: Catalog, slug: Seq<char>) -> Option<int> {
    first_index(template_slugs(c), slug, 0)
}

/// The index of the first addon with slug `slug`.
pub open spec fn first_addon(c: Catalog, slug: Seq<char>) -> Option<int> {
    first_index(addon_slugs(c), slug, 0)
}

fn find_template(catalog: &Catalog, slug: &str) -> (r: Option<usize>)
    ensures
        r matches Some(i) ==> i < catalog.templates.len() && first_template(*catalog, slug@)
            == Some(i as int),
        r is None ==> first_template(*catalog, slug@) is None,
{
    let ghost slugs = template_slugs(*catalog);
    let mut i: usize = 0;
    while i < catalog.templates.len()
        invariant
            i <= catalog.templates.len(),
            slugs == template_slugs(*catalog),
            first_index(slugs, slug@, 0) == first_index(slugs, slug@, i as int),
        decreases catalog.templates.len() - i,
    {
        assert(slugs[i as int] == catalog.templates@[i as int].slug@);
        if str_eq(catalog.templates[i].slug.as_str(), slug) {
            return Some(i);
        }
        i = i + 1;
    }
    None
}

fn find_addon(catalog: &Catalog, slug: &str) -> (r: Option<usize>)
    ensures
        r matches Some(i) ==> i < catalog.addons.len() && first_addon(*catalog, slug@) == Some(
            i as int,
        ),
        r is None ==> first_addon(*catalog, slug@) is None,
{
    let ghost slugs = addon_slugs(*catalog);
    let mut i: usize = 0;
    while i < catalog.addons.len()
        invariant
            i <= catalog.addons.len(),
            slugs == addon_slugs(*catalog),
            first_index(slugs, slug@, 0) == first_index(slugs, slug@, i as int),
        decreases catalog.addons.len() - i,
    {
        assert(slugs[i as int] == catalog.addons@[i as int].slug@);
        if str_eq(catalog.addons[i].slug.as_str(), slug) {
            return Some(i);
        }
        i = i + 1;
    }
    None
}

/// `prefix` followed by `rest`.
fn prefixed(prefix: &str, rest: &str) -> (r: String)
    ensures
        r@ == prefix@ + rest@,
{
    let mut out = String::new();
    push_str(&mut out, prefix);
    push_str(&mut out, rest);
    assert(Seq::<char>::empty() + prefix@ + rest@ =~= prefix@ + rest@);
    out
}

/// Resolve a template spec to the source URL to fetch and its cache key.
///
/// A slug is looked up in the catalog (first entry with that slug) and must
/// carry a source URL; its cache key is `template-` plus the sanitised slug.
/// A URL or path is used as is, keyed by `template-` plus its URL key.
/// `template_is_dir` tells whether `template` names an existing directory.
pub fn resolve_template_source(template: &str, catalog: &Catalog, template_is_dir: bool) -> (r:
    Result<(String, String), EngineError>)
    ensures
        !spec_is_external(template@, template_is_dir) ==> match first_template(
            *catalog,
            template@,
        ) {
            None => r matches Err(EngineError::UnknownTemplate { slug }) && slug@ == template@,
            Some(i) => if 0 <= i < catalog.templates@.len() && catalog.templates@[i].url@.len() == 0 {
                r matches Err(EngineError::TemplateHasNoSource { slug }) && slug@ == template@
            } else {
                r matches Ok((url, key)) && url@ == catalog.templates@[i].url@ && key@
                    == "template-"@ + spec_sanitize(template@)
            },
        },
        spec_is_external(template@, template_is_dir) ==> (r matches Ok((url, key)) && url@
            == template@ && key@ == "template-"@ + spec_url_cache_key(template@)),
{
    if !is_external_spec(template, template_is_dir) {
        match find_template(catalog, template) {
            None => Err(EngineError::UnknownTemplate { slug: template.to_owned() }),
            Some(i) => {
                let entry = &catalog.templates[i];
                if entry.url.as_str().is_empty() {
                    return Err(EngineError::TemplateHasNoSource { slug: template.to_owned() });
                }
                let key = sanitize_cache_key(template);
                Ok((entry.url.clone(), prefixed("template-", key.as_str())))
            },
        }
    } else {
        let key = cache_key_for_url(template);
        Ok((template.to_owned(), prefixed("template-", key.as_str())))
    }
}

/// Resolve an addon spec to the source URL to fetch and its cache key, as
/// `resolve_template_source` does for templates (keys start with `addon-`).
pub fn resolve_addon_source(addon: &str, catalog: &Catalog, addon_is_dir: bool) -> (r: Result<
    (String, String),
    EngineError,
>)
    ensures
        !spec_is_external(addon@, addon_is_dir) ==> match first_addon(*catalog, addon@) {
            None => r matches Err(EngineError::UnknownAddon { slug }) && slug@ == addon@,
            Some(i) => if 0 <= i < catalog.addons@.len() && catalog.addons@[i].url@.len() == 0 {
                r matches Err(EngineError::AddonHasNoSource { slug }) && slug@ == addon@
            } else {
                r matches Ok((url, key)) && url@ == catalog.addons@[i].url@ && key@ == "addon-"@
                    + spec_sanitize(addon@)
            },
        },
        spec_is_external(addon@, addon_is_dir) ==> (r matches Ok((url, key)) && url@ == addon@
            && key@ == "addon-"@ + spec_url_cache_key(addon@)),
{
    if !is_external_spec(addon, addon_is_dir) {
        match find_addon(catalog, addon) {
            None => Err(EngineError::UnknownAddon { slug: addon.to_owned() }),
            Some(i) => {
                let entry = &catalog.addons[i];
                if entry.url.as_str().is_empty() {
                    return Err(EngineError::AddonHasNoSource { slug: addon.to_owned() });
                }
                let key = sanitize_cache_key(addon);
                Ok((entry.url.clone(), prefixed("addon-", key.as_str())))
            },
        }
    } else {
        let key = cache_key_for_url(addon);
        Ok((addon.to_owned(), prefixed("addon-", key.as_str())))
    }
}

// ---------------------------------------------------------------------------
// Cache and fetch decisions
// ---------------------------------------------------------------------------

/// The cache root: a non-empty `options.cache_dir`, else `default_dir`
/// (the cache directory the environment selects).
pub open spec fn spec_cache_root(options: ScaffoldOptions, default_dir: Seq<char>) -> Seq<char> {
    match options.cache_dir {
        Some(d) => if d@.len() > 0 {
            d@
        } else {
            default_dir
        },
        None => default_dir,
    }
}

/// Root directory of the source cache for this run.
pub fn cache_root(options: &ScaffoldOptions, default_dir: &str) -> (r: String)
    ensures
        r@ == spec_cache_root(*options, default_dir@),
{
    match &options.cache_dir {
        Some(d) => if !d.as_str().is_empty() {
            d.clone()
        } else {
            default_dir.to_owned()
        },
        None => default_dir.to_owned(),
    }
}

/// How a remote source is obtained.
#[derive(Debug, Clone, Copy, PartialEq, Eq, Structural)]
pub enum FetchMode {
    /// Use the cached copy only; a missing copy is an offline cache miss.
    CacheOnly,
    /// Clone into a scratch directory that is removed afterwards.
    Scratch,
    /// Replace the cached copy with a fresh clone.
    Refresh,
}

/// Whether an optional environment value equals `expected`.
pub open spec fn env_is(value: Option<Seq<char>>, expected: Seq<char>) -> bool {
    value == Some(expected)
}

/// The cache is bypassed with `no_cache`, `CRA_NO_CACHE=1` or
/// `CRA_REFRESH=always`.
pub open spec fn spec_cache_bypassed(
    no_cache: bool,
    env_no_cache: Option<Seq<char>>,
    env_refresh: Option<Seq<char>>,
) -> bool {
    no_cache || env_is(env_no_cache, "1"@) || env_is(env_refresh, "always"@)
}

/// Refreshing is manual in offline mode or with `CRA_REFRESH=manual`.
pub open spec fn spec_refresh_manual(offline: bool, env_refresh: Option<Seq<char>>) -> bool {
    offline || env_is(env_refresh, "manual"@)
}

/// The view of an optional string.
pub open spec fn opt_view(o: Option<&str>) -> Option<Seq<char>> {
    match o {
        Some(s) => Some(s@),
        None => None,
    }
}

fn opt_eq(value: Option<&str>, expected: &str) -> (r: bool)
    ensures
        r == env_is(opt_view(value), expected@),
{
    match value {
        Some(v) => str_eq(v, expected),
        None => false,
    }
}

/// The fetch mode for a remote source: cache only when refreshing is
/// manual (or the cache is bypassed offline), a scratch clone when the
/// cache is bypassed, and a cache refresh otherwise. `env_no_cache` and
/// `env_refresh` are the values of `CRA_NO_CACHE` and `CRA_REFRESH`.
pub fn fetch_mode(offline: bool, no_cache: bool, env_no_cache: Option<&str>, env_refresh: Option<
    &str,
>) -> (r: FetchMode)
    ensures
        r == (if spec_refresh_manual(offline, opt_view(env_refresh)) || (spec_cache_bypassed(
            no_cache,
            opt_view(env_no_cache),
            opt_view(env_refresh),
        ) && offline) {
            FetchMode::CacheOnly
        } else if spec_cache_bypassed(no_cache, opt_view(env_no_cache), opt_view(env_refresh)) {
            FetchMode::Scratch
        } else {
            FetchMode::Refresh
        }),
{
    let bypassed = no_cache || opt_eq(env_no_cache, "1") || opt_eq(env_refresh, "always");
    let manual = offline || opt_eq(env_refresh, "manual");
    if manual || bypassed && offline {
        FetchMode::CacheOnly
    } else if bypassed {
        FetchMode::Scratch
    } else {
        FetchMode::Refresh
    }
}

/// Where a remote source is cached: `root/banks/key`, and the directory
/// inside it that holds the wanted subdirectory.
pub fn cache_location(root: &str, key: &str, subdir: Option<&str>) -> (r: (String, String))
    ensures
        r.0@ == spec_join(spec_join(root@, "banks"@), key@),
        r.1@ == match subdir {
            Some(sub) => spec_join(r.0@, sub@),
            None => r.0@,
        },
{
    let banks = path_join(root, "banks");
    let cached = path_join(banks.as_str(), key);
    let inner = match subdir {
        Some(sub) => path_join(cached.as_str(), sub),
        None => cached.clone(),
    };
    (cached, inner)
}

/// The error of an offline run whose cache holds no copy of `display`.
pub fn offline_cache_miss(display: &str) -> (r: EngineError)
    ensures
        r matches EngineError::OfflineCacheMiss { request } && request@ == display@,
{
    EngineError::OfflineCacheMiss { request: display.to_owned() }
}

/// The detail of a clone that lacks the wanted subdirectory.
pub open spec fn missing_subdir_detail(subdir: Seq<char>, url: Seq<char>) -> Seq<char> {
    "subdirectory '"@ + subdir + "' not found in "@ + url
}

/// The error of a fresh clone of `url` that lacks the wanted subdirectory.
pub fn missing_subdir(display: &str, subdir: Option<&str>, url: &str) -> (r: EngineError)
    ensures
        r matches EngineError::TemplateFetch { request, detail } && request@ == display@
            && detail@ == missing_subdir_detail(
            match subdir {
                Some(s) => s@,
                None => seq![],
            },
            url@,
        ),
{
    let mut detail = String::new();
    push_str(&mut detail, "subdirectory '");
    match subdir {
        Some(s) => push_str(&mut detail, s),
        None => {},
    }
    push_str(&mut detail, "' not found in ");
    push_str(&mut detail, url);
    proof {
        let sub = match subdir {
            Some(s) => s@,
            None => Seq::<char>::empty(),
        };
        assert(Seq::<char>::empty() + "subdirectory '"@ + sub + "' not found in "@ + url@
            =~= missing_subdir_detail(sub, url@));
    }
    EngineError::TemplateFetch { request: display.to_owned(), detail }
}

/// The fixed arguments of a shallow, sparse, blob-less clone.
pub open spec fn clone_prefix() -> Seq<Seq<char>> {
    seq!["clone"@, "--quiet"@, "--depth"@, "1"@, "--filter=blob:none"@, "--sparse"@]
}

/// The arguments of `git clone` for `url` into `dest`, checking out `pin`
/// when it is given and non-empty.
pub open spec fn spec_clone_args(url: Seq<char>, pin: Option<Seq<char>>, dest: Seq<char>) -> Seq<
    Seq<char>,
> {
    let with_pin = match pin {
        Some(p) => if p.len() > 0 {
            clone_prefix() + seq!["--branch"@, p]
        } else {
            clone_prefix()
        },
        None => clone_prefix(),
    };
    with_pin + seq![url, dest]
}

/// Arguments for `git clone` of a remote source.
pub fn clone_args(url: &str, pin: Option<&str>, dest: &str) -> (r: Vec<String>)
    ensures
        crate::catalog::views(r@) == spec_clone_args(url@, opt_view(pin), dest@),
{
    let mut args: Vec<String> = Vec::new();
    args.push("clone".to_owned());
    args.push("--quiet".to_owned());
    args.push("--depth".to_owned());
    args.push("1".to_owned());
    args.push("--filter=blob:none".to_owned());
    args.push("--sparse".to_owned());
    let ghost prefix = args@;
    match pin {
        Some(p) => if !p.is_empty() {
            args.push("--branch".to_owned());
            args.push(p.to_owned());
        },
        None => {},
    }
    args.push(url.to_owned());
    args.push(dest.to_owned());
    assert(crate::catalog::views(args@) =~= spec_clone_args(url@, opt_view(pin), dest@));
    args
}

/// Arguments for narrowing a sparse checkout to `subdir`.
pub fn sparse_checkout_args(subdir: &str) -> (r: Vec<String>)
    ensures
        crate::catalog::views(r@) == seq!["sparse-checkout"@, "set"@, subdir@],
{
    let mut args: Vec<String> = Vec::new();
    args.push("sparse-checkout".to_owned());
    args.push("set".to_owned());
    args.push(subdir.to_owned());
    assert(crate::catalog::views(args@) =~= seq!["sparse-checkout"@, "set"@, subdir@]);
    args
}

/// The words of `args` separated by single spaces (`[&str]::join(" ")`).
pub open spec fn join_spaces(args: Seq<Seq<char>>) -> Seq<char>
    decreases args.len(),
{
    if args.len() == 0 {
        seq![]
    } else if args.len() == 1 {
        args[0]
    } else {
        join_spaces(args.drop_last()) + seq![' '] + args.last()
    }
}

/// The last line of `s` as `str::lines` yields it (a final line ending is
/// optional), or nothing when `s` is empty.
pub open spec fn last_line(s: Seq<char>) -> Option<Seq<char>> {
    if s.len() == 0 {
        None
    } else {
        let t = if s.last() == '\n' {
            s.drop_last()
        } else {
            s
        };
        Some(t.skip(crate::paths::last_index_of(t, '\n') + 1))
    }
}

/// The detail of a failed git command: `git <args> failed: ` and the last
/// line of its standard error, trimmed (`git command failed` when there
/// is none).
pub open spec fn spec_git_failure(args: Seq<Seq<char>>, stderr: Seq<char>) -> Seq<char> {
    "git "@ + join_spaces(args) + " failed: "@ + crate::text::trim(
        match last_line(stderr) {
            Some(l) => l,
            None => "git command failed"@,
        },
    )
}

/// Describe a git command that exited unsuccessfully.
pub fn git_failure_detail(args: &Vec<String>, stderr: &str) -> (r: String)
    ensures
        r@ == spec_git_failure(crate::catalog::views(args@), stderr@),
{
    let ghost words = crate::catalog::views(args@);
    let mut out = String::new();
    push_str(&mut out, "git ");
    let mut joined = String::new();
    let mut i: usize = 0;
    while i < args.len()
        invariant
            i <= args.len(),
            words == crate::catalog::views(args@),
            joined@ == join_spaces(words.take(i as int)),
        decreases args.len() - i,
    {
        if i > 0 {
            push_str(&mut joined, " ");
            proof {
                reveal_strlit(" ");
            }
        }
        push_str(&mut joined, args[i].as_str());
        proof {
            assert(words.take(i + 1).drop_last() =~= words.take(i as int));
            if i == 0 {
                assert(words.take(1)[0] == words[0]);
            }
        }
        i = i + 1;
    }
    assert(words.take(args.len() as int) =~= words);
    push_str(&mut out, joined.as_str());
    push_str(&mut out, " failed: ");
    let v = str_chars(stderr);
    let line: Vec<char> = if v.len() == 0 {
        str_chars("git command failed")
    } else {
        let t_end = if v[v.len() - 1] == '\n' {
            v.len() - 1
        } else {
            v.len()
        };
        let mut k: usize = t_end;
        while k > 0 && v[k - 1] != '\n'
            invariant
                k <= t_end <= v.len(),
                forall|j: int| k <= j < t_end ==> v@[j] != '\n',
            decreases k,
        {
            k = k - 1;
        }
        proof {
            let t = v@.take(t_end as int);
            assert(t =~= if v@.last() == '\n' { v@.drop_last() } else { v@ });
            lemma_last_index_of_exact(t, '\n', k as int);
            assert(t.skip(k as int) =~= v@.subrange(k as int, t_end as int));
        }
        chars_range_slice(&v, k, t_end)
    };
    let (a, b) = crate::text::trim_bounds(&line, 0, line.len());
    assert(line@.subrange(0, line@.len() as int) =~= line@);
    let trimmed = chars_range_to_string(&line, a, b);
    push_str(&mut out, trimmed.as_str());
    assert(Seq::<char>::empty() + "git "@ + joined@ + " failed: "@ + trimmed@ =~= "git "@
        + joined@ + " failed: "@ + trimmed@);
    out
}

/// `last_index_of(t, c) + 1 == k` when `t[k-1] == c` (or `k == 0`) and no
/// `c` follows.
proof fn lemma_last_index_of_exact(t: Seq<char>, c: char, k: int)
    requires
        0 <= k <= t.len(),
        k > 0 ==> t[k - 1] == c,
        forall|j: int| k <= j < t.len() ==> t[j] != c,
    ensures
        crate::paths::last_index_of(t, c) + 1 == k,
    decreases t.len(),
{
    if t.len() > 0 && t.len() > k {
        assert(t.last() != c);
        lemma_last_index_of_exact(t.drop_last(), c, k);
    }
}

// ---------------------------------------------------------------------------
// Scaffold plan
// ---------------------------------------------------------------------------

/// What a scaffold run materialises: the template spec and the package name.
#[derive(Debug, Clone)]
pub struct ScaffoldPlan {
    /// The template spec (the catalog's first template when none was given).
    pub template: String,
    /// The package name: the final component of the project path.
    pub package: String,
}

/// Validate the options of a scaffold run and decide what it materialises.
/// `target_exists` and `target_is_empty` describe the project directory.
///
/// The project name must be valid; an empty template selects the catalog's
/// first template (none is an error); a non-empty existing target needs
/// `force`.
pub fn scaffold_plan(
    options: &ScaffoldOptions,
    catalog: &Catalog,
    target_exists: bool,
    target_is_empty: bool,
) -> (r: Result<ScaffoldPlan, EngineError>)
    ensures
        !valid_project_name(options.project@) ==> (r matches Err(
            EngineError::InvalidProjectName { name },
        ) && name@ == options.project@),
        valid_project_name(options.project@) && options.template@.len() == 0
            && catalog.templates@.len() == 0 ==> (r matches Err(EngineError::EmptyCatalog)),
        valid_project_name(options.project@) && !(options.template@.len() == 0
            && catalog.templates@.len() == 0) && target_exists && !target_is_empty
            && !options.force ==> (r matches Err(EngineError::TargetNotEmpty { path }) && path@
            == options.project@),
        r is Ok <==> valid_project_name(options.project@) && !(options.template@.len() == 0
            && catalog.templates@.len() == 0) && !(target_exists && !target_is_empty
            && !options.force),
        r matches Ok(plan) ==> plan.template@ == (if options.template@.len() == 0 {
            catalog.templates@[0].slug@
        } else {
            options.template@
        }) && file_name(options.project@) == Some(plan.package@),
{
    validate_project_name(options.project.as_str())?;
    let template = if options.template.as_str().is_empty() {
        if catalog.templates.len() == 0 {
            return Err(EngineError::EmptyCatalog);
        }
        catalog.templates[0].slug.clone()
    } else {
        options.template.clone()
    };
    if target_exists && !target_is_empty && !options.force {
        return Err(EngineError::TargetNotEmpty { path: options.project.clone() });
    }
    let v = str_chars(options.project.as_str());
    match file_name_bounds(&v) {
        Some((a, b)) => {
            let package = chars_range_to_string(&v, a, b);
            Ok(ScaffoldPlan { template, package })
        },
        None => Err(EngineError::InvalidProjectName { name: options.project.clone() }),
    }
}

/// One step of a scaffold run.
#[derive(Debug, Clone)]
pub enum ScaffoldStep {
    /// Resolve and fetch the template source.
    FetchTemplate(String),
    /// Create the project directory.
    CreateProject,
    /// Copy the fetched template into the project.
    CopyTemplate(String),
    /// Read the template's crate names, then rename the crate to the
    /// package (and the library to its snake-case form).
    RenameCrate { package: String, snake: String },
    /// Merge the project record into `cra.config.json`.
    WriteProjectRecord,
    /// Resolve, fetch and overlay one addon.
    ApplyAddon(String),
    /// Point references to the template's names at the new ones.
    RewriteReferences { package: String, snake: String },
    /// Format the project (best effort).
    Format,
}

/// A scaffold step as plain values.
pub enum StepView {
    FetchTemplate(Seq<char>),
    CreateProject,
    CopyTemplate(Seq<char>),
    RenameCrate(Seq<char>, Seq<char>),
    WriteProjectRecord,
    ApplyAddon(Seq<char>),
    RewriteReferences(Seq<char>, Seq<char>),
    Format,
}

/// A step as plain values.
pub open spec fn step_view(s: ScaffoldStep) -> StepView {
    match s {
        ScaffoldStep::FetchTemplate(t) => StepView::FetchTemplate(t@),
        ScaffoldStep::CreateProject => StepView::CreateProject,
        ScaffoldStep::CopyTemplate(t) => StepView::CopyTemplate(t@),
        ScaffoldStep::RenameCrate { package, snake } => StepView::RenameCrate(package@, snake@),
        ScaffoldStep::WriteProjectRecord => StepView::WriteProjectRecord,
        ScaffoldStep::ApplyAddon(a) => StepView::ApplyAddon(a@),
        ScaffoldStep::RewriteReferences { package, snake } => StepView::RewriteReferences(
            package@,
            snake@,
        ),
        ScaffoldStep::Format => StepView::Format,
    }
}

/// Steps as plain values.
pub open spec fn steps_view(ss: Seq<ScaffoldStep>) -> Seq<StepView> {
    ss.map_values(|s: ScaffoldStep| step_view(s))
}

/// The steps of a scaffold run, in order: fetch the template, create the
/// project, copy the template in, rename the crate, write the project
/// record, overlay each addon in turn, rewrite references to the old
/// names, and format. The first step that fails ends the run.
pub open spec fn spec_scaffold_steps(template: Seq<char>, package: Seq<char>, addons: Seq<Seq<char>>) -> Seq<
    StepView,
> {
    let snake = spec_snake_case(package);
    seq![
        StepView::FetchTemplate(template),
        StepView::CreateProject,
        StepView::CopyTemplate(template),
        StepView::RenameCrate(package, snake),
        StepView::WriteProjectRecord,
    ] + addons.map_values(|a: Seq<char>| StepView::ApplyAddon(a)) + seq![
        StepView::RewriteReferences(package, snake),
        StepView::Format,
    ]
}

/// The steps that scaffold `plan` with the addons of `options`.
pub fn scaffold_steps(plan: &ScaffoldPlan, options: &ScaffoldOptions) -> (r: Vec<ScaffoldStep>)
    ensures
        steps_view(r@) == spec_scaffold_steps(plan.template@, plan.package@, views(options.addons@)),
{
    let snake = snake_case(plan.package.as_str());
    let t1 = plan.template.clone();
    let t2 = plan.template.clone();
    let p1 = plan.package.clone();
    let s1 = snake.clone();
    let mut out: Vec<ScaffoldStep> = Vec::new();
    out.push(ScaffoldStep::FetchTemplate(t1));
    out.push(ScaffoldStep::CreateProject);
    out.push(ScaffoldStep::CopyTemplate(t2));
    out.push(ScaffoldStep::RenameCrate { package: p1, snake: s1 });
    out.push(ScaffoldStep::WriteProjectRecord);
    let ghost head = steps_view(out@);
    assert(head =~= seq![
        StepView::FetchTemplate(plan.template@),
        StepView::CreateProject,
        StepView::CopyTemplate(plan.template@),
        StepView::RenameCrate(plan.package@, spec_snake_case(plan.package@)),
        StepView::WriteProjectRecord,
    ]);
    let ghost adds = views(options.addons@).map_values(|a: Seq<char>| StepView::ApplyAddon(a));
    let mut i: usize = 0;
    assert(steps_view(out@) =~= head + adds.take(0));
    while i < options.addons.len()
        invariant
            i <= options.addons.len(),
            adds == views(options.addons@).map_values(|a: Seq<char>| StepView::ApplyAddon(a)),
            steps_view(out@) == head + adds.take(i as int),
        decreases options.addons.len() - i,
    {
        let a = options.addons[i].clone();
        assert(a@ == options.addons@[i as int]@);
        let ghost before = out@;
        out.push(ScaffoldStep::ApplyAddon(a));
        assert(steps_view(out@) =~= steps_view(before).push(StepView::ApplyAddon(a@)));
        assert(adds.take(i + 1) =~= adds.take(i as int).push(StepView::ApplyAddon(a@)));
        assert(steps_view(out@) =~= head + adds.take(i + 1));
        i = i + 1;
    }
    assert(adds.take(options.addons.len() as int) =~= adds);
    let ghost middle = steps_view(out@);
    let p = plan.package.clone();
    assert(p@ == plan.package@ && snake@ == spec_snake_case(plan.package@));
    out.push(ScaffoldStep::RewriteReferences { package: p, snake });
    out.push(ScaffoldStep::Format);
    assert(steps_view(out@) =~= middle + seq![
        StepView::RewriteReferences(plan.package@, spec_snake_case(plan.package@)),
        StepView::Format,
    ]);
    assert(steps_view(out@) =~= spec_scaffold_steps(
        plan.template@,
        plan.package@,
        views(options.addons@),
    ));
    out
}

/// References are rewritten after every addon has landed, so files that
/// addons provide are rewritten too; the crate is renamed before any
/// addon lands, and each addon is applied once, in the order given.
pub proof fn references_are_rewritten_after_every_overlay(
    template: Seq<char>,
    package: Seq<char>,
    addons: Seq<Seq<char>>,
)
    ensures
        ({
            let steps = spec_scaffold_steps(template, package, addons);
            let n: int = addons.len() as int;
            &&& steps.len() == n + 7
            &&& steps[3] == StepView::RenameCrate(package, spec_snake_case(package))
            &&& forall|k: int| 0 <= k < n ==> #[trigger] steps[5 + k] == StepView::ApplyAddon(addons[k])
            &&& steps[5 + n] == StepView::RewriteReferences(package, spec_snake_case(package))
            &&& forall|j: int| 0 <= j < steps.len() && j != 5 + n ==> !(steps[j] is RewriteReferences)
        }),
{
    let steps = spec_scaffold_steps(template, package, addons);
    let n: int = addons.len() as int;
    assert forall|k: int| 0 <= k < n implies #[trigger] steps[5 + k] == StepView::ApplyAddon(addons[k]) by {
        assert(steps[5 + k] == addons.map_values(|a: Seq<char>| StepView::ApplyAddon(a))[k]);
    }
    assert forall|j: int| 0 <= j < steps.len() && j != 5 + n implies !(steps[j] is RewriteReferences) by {
        if 5 <= j < 5 + n {
            assert(steps[j] == addons.map_values(|a: Seq<char>| StepView::ApplyAddon(a))[j - 5]);
        }
    }
}

/// A value of the project record.
#[derive(Debug, Clone)]
pub enum RecordValue {
    /// A string.
    Text(String),
    /// A list of strings.
    Texts(Vec<String>),
    /// A list of `{"key": .., "value": ..}` objects.
    Pairs(Vec<(String, String)>),
}

/// A record value as plain values.
pub enum RecordView {
    Text(Seq<char>),
    Texts(Seq<Seq<char>>),
    Pairs(Seq<(Seq<char>, Seq<char>)>),
}

/// A record value as plain values.
pub open spec fn record_view(v: RecordValue) -> RecordView {
    match v {
        RecordValue::Text(t) => RecordView::Text(t@),
        RecordValue::Texts(ts) => RecordView::Texts(views(ts@)),
        RecordValue::Pairs(ps) => RecordView::Pairs(crate::merge::pairs_view(ps@)),
    }
}

/// Record fields as plain values.
pub open spec fn record_fields_view(fs: Seq<(String, RecordValue)>) -> Seq<(Seq<char>, RecordView)> {
    fs.map_values(|f: (String, RecordValue)| (f.0@, record_view(f.1)))
}

/// The fields the engine writes into `cra.config.json`, in order: the
/// project, the template, the addons, and the `--set` overrides.
pub open spec fn spec_project_record(options: ScaffoldOptions, template: Seq<char>) -> Seq<
    (Seq<char>, RecordView),
> {
    seq![
        ("project"@, RecordView::Text(options.project@)),
        ("template"@, RecordView::Text(template)),
        ("addons"@, RecordView::Texts(views(options.addons@))),
        ("set"@, RecordView::Pairs(crate::merge::pairs_view(options.sets@))),
    ]
}

/// A copy of a list of string pairs.
fn copy_pairs(v: &Vec<(String, String)>) -> (r: Vec<(String, String)>)
    ensures
        crate::merge::pairs_view(r@) == crate::merge::pairs_view(v@),
{
    let mut out: Vec<(String, String)> = Vec::new();
    let mut i: usize = 0;
    while i < v.len()
        invariant
            i <= v.len(),
            crate::merge::pairs_view(out@) == crate::merge::pairs_view(v@).take(i as int),
        decreases v.len() - i,
    {
        let ghost before = out@;
        let k = v[i].0.clone();
        let w = v[i].1.clone();
        assert(k@ == v@[i as int].0@ && w@ == v@[i as int].1@);
        out.push((k, w));
        assert(crate::merge::pairs_view(out@) =~= crate::merge::pairs_view(before).push(
            (v@[i as int].0@, v@[i as int].1@),
        ));
        assert(crate::merge::pairs_view(out@) =~= crate::merge::pairs_view(v@).take(i + 1));
        i = i + 1;
    }
    assert(crate::merge::pairs_view(v@).take(v.len() as int) =~= crate::merge::pairs_view(v@));
    out
}

/// The project record a run merges into `cra.config.json`; every other key
/// of the file is kept.
pub fn project_record(options: &ScaffoldOptions, template: &str) -> (r: Vec<(String, RecordValue)>)
    ensures
        record_fields_view(r@) == spec_project_record(*options, template@),
{
    let addons = options.addons.clone();
    let sets = copy_pairs(&options.sets);
    assert(views(addons@) =~= views(options.addons@)) by {
        assert forall|k: int| 0 <= k < addons@.len() implies addons@[k]@ == options.addons@[k]@ by {
            assert(vstd::pervasive::cloned(options.addons@[k], addons@[k]));
        }
    }
    let mut out: Vec<(String, RecordValue)> = Vec::new();
    out.push(("project".to_owned(), RecordValue::Text(options.project.clone())));
    out.push(("template".to_owned(), RecordValue::Text(template.to_owned())));
    out.push(("addons".to_owned(), RecordValue::Texts(addons)));
    out.push(("set".to_owned(), RecordValue::Pairs(sets)));
    assert(record_fields_view(out@) =~= spec_project_record(*options, template@));
    out
}

// ---------------------------------------------------------------------------
// Copying template trees
// ---------------------------------------------------------------------------

/// `name` without a trailing `.append`, when it has one.
pub open spec fn spec_strip_append(name: Seq<char>) -> Option<Seq<char>> {
    if crate::text::ends_with(name, ".append"@) {
        Some(name.take(name.len() - 7))
    } else {
        None
    }
}

/// Strip a trailing `.append` overlay suffix, returning the target file
/// name: `router.rs.append` merges into `router.rs`; plain files return
/// `None`.
pub fn strip_append_suffix(file_name: &str) -> (r: Option<String>)
    ensures
        r matches Some(t) ==> spec_strip_append(file_name@) == Some(t@),
        r is None ==> spec_strip_append(file_name@) is None,
{
    let v = str_chars(file_name);
    if crate::text::ends_with_exec(&v, ".append") {
        proof {
            reveal_strlit(".append");
        }
        assert(v@.subrange(0, v.len() - 7) =~= v@.take(v.len() - 7));
        Some(chars_range_to_string(&v, 0, v.len() - 7))
    } else {
        None
    }
}

/// What copying a template tree does with one directory entry.
#[derive(Debug, Clone)]
pub enum EntryAction {
    /// Leave the entry out.
    Skip,
    /// Copy the directory's contents recursively.
    Recurse,
    /// Append the fragment to the named sibling after all plain copies.
    Defer(String),
    /// Merge the overlay `Cargo.toml` into the existing project manifest.
    MergeManifest,
    /// Copy the file over.
    Copy,
}

/// The action for an entry named `name`: `.git` is skipped, directories
/// recurse, `.append` fragments are deferred, a `Cargo.toml` landing on an
/// existing file merges into it, other files are copied, and anything else
/// (such as a symbolic link) is left out.
pub fn copy_entry_action(name: &str, is_dir: bool, is_file: bool, target_is_file: bool) -> (r:
    EntryAction)
    ensures
        name@ == ".git"@ ==> r matches EntryAction::Skip,
        name@ != ".git"@ && is_dir ==> r matches EntryAction::Recurse,
        name@ != ".git"@ && !is_dir && is_file ==> match spec_strip_append(name@) {
            Some(t) => r matches EntryAction::Defer(d) && d@ == t,
            None => if name@ == "Cargo.toml"@ && target_is_file {
                r matches EntryAction::MergeManifest
            } else {
                r matches EntryAction::Copy
            },
        },
        name@ != ".git"@ && !is_dir && !is_file ==> r matches EntryAction::Skip,
        action_view(r) == spec_entry_action(name@, is_dir, is_file, target_is_file),
{
    if str_eq(name, ".git") {
        return EntryAction::Skip;
    }
    if is_dir {
        return EntryAction::Recurse;
    }
    if !is_file {
        return EntryAction::Skip;
    }
    match strip_append_suffix(name) {
        Some(t) => EntryAction::Defer(t),
        None => if str_eq(name, "Cargo.toml") && target_is_file {
            EntryAction::MergeManifest
        } else {
            EntryAction::Copy
        },
    }
}

/// An entry action as plain values.
pub enum ActionView {
    Skip,
    Recurse,
    Defer(Seq<char>),
    MergeManifest,
    Copy,
}

/// An entry action as plain values.
pub open spec fn action_view(a: EntryAction) -> ActionView {
    match a {
        EntryAction::Skip => ActionView::Skip,
        EntryAction::Recurse => ActionView::Recurse,
        EntryAction::Defer(t) => ActionView::Defer(t@),
        EntryAction::MergeManifest => ActionView::MergeManifest,
        EntryAction::Copy => ActionView::Copy,
    }
}

/// The action `copy_entry_action` takes, as plain values.
pub open spec fn spec_entry_action(name: Seq<char>, is_dir: bool, is_file: bool, target_is_file: bool) -> ActionView {
    if name == ".git"@ {
        ActionView::Skip
    } else if is_dir {
        ActionView::Recurse
    } else if !is_file {
        ActionView::Skip
    } else {
        match spec_strip_append(name) {
            Some(t) => ActionView::Defer(t),
            None => if name == "Cargo.toml"@ && target_is_file {
                ActionView::MergeManifest
            } else {
                ActionView::Copy
            },
        }
    }
}

/// One entry of a directory being copied into the project.
#[derive(Debug, Clone)]
pub struct EntryInfo {
    /// The entry's file name.
    pub name: String,
    /// Whether it is a directory.
    pub is_dir: bool,
    /// Whether it is a regular file.
    pub is_file: bool,
    /// Whether the project already holds a file under that name.
    pub target_is_file: bool,
}

/// What copying one directory does, entry by entry (by index).
#[derive(Debug, Clone)]
pub enum CopyOp {
    /// Copy the subdirectory recursively.
    Recurse(usize),
    /// Copy the file over.
    Copy(usize),
    /// Merge the overlay `Cargo.toml` into the project's.
    MergeManifest(usize),
    /// Append the fragment to the named sibling.
    Append(usize, String),
}

/// A copy operation as plain values.
pub enum OpView {
    Recurse(int),
    Copy(int),
    MergeManifest(int),
    Append(int, Seq<char>),
}

/// Copy operations as plain values.
pub open spec fn ops_view(ops: Seq<CopyOp>) -> Seq<OpView> {
    ops.map_values(
        |o: CopyOp|
            match o {
                CopyOp::Recurse(i) => OpView::Recurse(i as int),
                CopyOp::Copy(i) => OpView::Copy(i as int),
                CopyOp::MergeManifest(i) => OpView::MergeManifest(i as int),
                CopyOp::Append(i, t) => OpView::Append(i as int, t@),
            },
    )
}

/// The action for an entry.
pub open spec fn info_action(e: EntryInfo) -> ActionView {
    spec_entry_action(e.name@, e.is_dir, e.is_file, e.target_is_file)
}

/// The operations of the entries that are not fragments, in order.
pub open spec fn plain_ops(es: Seq<EntryInfo>) -> Seq<OpView>
    decreases es.len(),
{
    if es.len() == 0 {
        seq![]
    } else {
        let i = es.len() - 1;
        let before = plain_ops(es.drop_last());
        match info_action(es.last()) {
            ActionView::Recurse => before.push(OpView::Recurse(i)),
            ActionView::Copy => before.push(OpView::Copy(i)),
            ActionView::MergeManifest => before.push(OpView::MergeManifest(i)),
            _ => before,
        }
    }
}

/// The appends of the fragment entries, in order.
pub open spec fn deferred_ops(es: Seq<EntryInfo>) -> Seq<OpView>
    decreases es.len(),
{
    if es.len() == 0 {
        seq![]
    } else {
        let i = es.len() - 1;
        let before = deferred_ops(es.drop_last());
        match info_action(es.last()) {
            ActionView::Defer(t) => before.push(OpView::Append(i, t)),
            _ => before,
        }
    }
}

/// The operations that copy a directory: every entry that is not a
/// fragment, in listing order, then the fragments' appends, so that no
/// plain copy can overwrite a file a fragment has extended.
pub fn copy_plan(entries: &Vec<EntryInfo>) -> (r: Vec<CopyOp>)
    ensures
        ops_view(r@) == plain_ops(entries@) + deferred_ops(entries@),
{
    let mut plain: Vec<CopyOp> = Vec::new();
    let mut deferred: Vec<CopyOp> = Vec::new();
    let mut i: usize = 0;
    assert(entries@.take(0) =~= Seq::<EntryInfo>::empty());
    assert(ops_view(plain@) =~= Seq::<OpView>::empty());
    assert(ops_view(deferred@) =~= Seq::<OpView>::empty());
    while i < entries.len()
        invariant
            i <= entries.len(),
            ops_view(plain@) == plain_ops(entries@.take(i as int)),
            ops_view(deferred@) == deferred_ops(entries@.take(i as int)),
        decreases entries.len() - i,
    {
        let e = &entries[i];
        assert(entries@.take(i + 1).drop_last() =~= entries@.take(i as int));
        assert(entries@.take(i + 1).last() == entries@[i as int]);
        let action = copy_entry_action(e.name.as_str(), e.is_dir, e.is_file, e.target_is_file);
        let ghost p0 = plain@;
        let ghost d0 = deferred@;
        match action {
            EntryAction::Recurse => {
                plain.push(CopyOp::Recurse(i));
                assert(ops_view(plain@) =~= ops_view(p0).push(OpView::Recurse(i as int)));
            },
            EntryAction::Copy => {
                plain.push(CopyOp::Copy(i));
                assert(ops_view(plain@) =~= ops_view(p0).push(OpView::Copy(i as int)));
            },
            EntryAction::MergeManifest => {
                plain.push(CopyOp::MergeManifest(i));
                assert(ops_view(plain@) =~= ops_view(p0).push(OpView::MergeManifest(i as int)));
            },
            EntryAction::Defer(t) => {
                let ghost tv = t@;
                deferred.push(CopyOp::Append(i, t));
                assert(ops_view(deferred@) =~= ops_view(d0).push(OpView::Append(i as int, tv)));
            },
            EntryAction::Skip => {},
        }
        i = i + 1;
    }
    assert(entries@.take(entries.len() as int) =~= entries@);
    let ghost pv = ops_view(plain@);
    let ghost dv = ops_view(deferred@);
    let mut j: usize = 0;
    while j < deferred.len()
        invariant
            j <= deferred.len(),
            dv == ops_view(deferred@),
            ops_view(plain@) == pv + dv.take(j as int),
        decreases deferred.len() - j,
    {
        let ghost before = plain@;
        let op = match &deferred[j] {
            CopyOp::Recurse(k) => CopyOp::Recurse(*k),
            CopyOp::Copy(k) => CopyOp::Copy(*k),
            CopyOp::MergeManifest(k) => CopyOp::MergeManifest(*k),
            CopyOp::Append(k, t) => CopyOp::Append(*k, t.clone()),
        };
        plain.push(op);
        assert(ops_view(plain@) =~= ops_view(before).push(dv[j as int]));
        assert(dv.take(j + 1) =~= dv.take(j as int).push(dv[j as int]));
        j = j + 1;
    }
    assert(dv.take(deferred.len() as int) =~= dv);
    plain
}

proof fn lemma_plain_ops_no_append(es: Seq<EntryInfo>)
    ensures
        forall|k: int| 0 <= k < plain_ops(es).len() ==> !(#[trigger] plain_ops(es)[k] is Append),
    decreases es.len(),
{
    if es.len() > 0 {
        lemma_plain_ops_no_append(es.drop_last());
    }
}

proof fn lemma_deferred_ops_append(es: Seq<EntryInfo>)
    ensures
        forall|k: int| 0 <= k < deferred_ops(es).len() ==> #[trigger] deferred_ops(es)[k] is Append,
    decreases es.len(),
{
    if es.len() > 0 {
        lemma_deferred_ops_append(es.drop_last());
    }
}

/// The entry an operation handles.
pub open spec fn op_entry(o: OpView) -> int {
    match o {
        OpView::Recurse(i) => i,
        OpView::Copy(i) => i,
        OpView::MergeManifest(i) => i,
        OpView::Append(i, _) => i,
    }
}

/// Whether an operation does what an entry's action calls for: a fragment
/// is appended to the file its action names.
pub open spec fn op_fits(o: OpView, a: ActionView) -> bool {
    match (o, a) {
        (OpView::Recurse(_), ActionView::Recurse) => true,
        (OpView::Copy(_), ActionView::Copy) => true,
        (OpView::MergeManifest(_), ActionView::MergeManifest) => true,
        (OpView::Append(_, t), ActionView::Defer(u)) => t == u,
        _ => false,
    }
}

proof fn lemma_plain_ops_entries(es: Seq<EntryInfo>)
    ensures
        forall|k: int|
            0 <= k < plain_ops(es).len() ==> 0 <= op_entry(#[trigger] plain_ops(es)[k]) < es.len()
                && op_fits(plain_ops(es)[k], info_action(es[op_entry(plain_ops(es)[k])])),
        forall|k1: int, k2: int|
            0 <= k1 < k2 < plain_ops(es).len() ==> op_entry(#[trigger] plain_ops(es)[k1]) < op_entry(
                #[trigger] plain_ops(es)[k2],
            ),
        forall|i: int|
            0 <= i < es.len() && (info_action(#[trigger] es[i]) is Recurse || info_action(es[i]) is Copy
                || info_action(es[i]) is MergeManifest) ==> exists|k: int|
                0 <= k < plain_ops(es).len() && op_entry(#[trigger] plain_ops(es)[k]) == i,
    decreases es.len(),
{
    if es.len() > 0 {
        let d = es.drop_last();
        lemma_plain_ops_entries(d);
        let p = plain_ops(d);
        let n = es.len() - 1;
        assert forall|j: int| 0 <= j < d.len() implies #[trigger] d[j] == es[j] by {}
        assert forall|i: int|
            0 <= i < es.len() && (info_action(#[trigger] es[i]) is Recurse || info_action(es[i]) is Copy
                || info_action(es[i]) is MergeManifest) implies exists|k: int|
            0 <= k < plain_ops(es).len() && op_entry(#[trigger] plain_ops(es)[k]) == i by {
            if i < n {
                assert(d[i] == es[i]);
                let k = choose|k: int| 0 <= k < p.len() && op_entry(#[trigger] p[k]) == i;
                assert(plain_ops(es)[k] == p[k]);
            } else {
                assert(es.last() == es[i]);
                assert(op_entry(plain_ops(es)[p.len() as int]) == i);
            }
        }
    }
}

proof fn lemma_deferred_ops_entries(es: Seq<EntryInfo>)
    ensures
        forall|k: int|
            0 <= k < deferred_ops(es).len() ==> 0 <= op_entry(#[trigger] deferred_ops(es)[k])
                < es.len() && op_fits(
                deferred_ops(es)[k],
                info_action(es[op_entry(deferred_ops(es)[k])]),
            ),
        forall|k1: int, k2: int|
            0 <= k1 < k2 < deferred_ops(es).len() ==> op_entry(#[trigger] deferred_ops(es)[k1])
                < op_entry(#[trigger] deferred_ops(es)[k2]),
        forall|i: int|
            0 <= i < es.len() && info_action(#[trigger] es[i]) is Defer ==> exists|k: int|
                0 <= k < deferred_ops(es).len() && op_entry(#[trigger] deferred_ops(es)[k]) == i,
    decreases es.len(),
{
    if es.len() > 0 {
        let d = es.drop_last();
        lemma_deferred_ops_entries(d);
        let p = deferred_ops(d);
        let n = es.len() - 1;
        assert forall|j: int| 0 <= j < d.len() implies #[trigger] d[j] == es[j] by {}
        assert forall|i: int|
            0 <= i < es.len() && info_action(#[trigger] es[i]) is Defer implies exists|k: int|
            0 <= k < deferred_ops(es).len() && op_entry(#[trigger] deferred_ops(es)[k]) == i by {
            if i < n {
                assert(d[i] == es[i]);
                let k = choose|k: int| 0 <= k < p.len() && op_entry(#[trigger] p[k]) == i;
                assert(deferred_ops(es)[k] == p[k]);
            } else {
                assert(es.last() == es[i]);
                assert(op_entry(deferred_ops(es)[p.len() as int]) == i);
            }
        }
    }
}

/// Copying a directory handles every entry exactly once: each operation
/// handles an entry as that entry's action calls for (a fragment is
/// appended to the file it names), no two operations handle the same entry,
/// and every entry that is not skipped, every fragment among them, has an
/// operation.
pub proof fn copy_plan_handles_each_entry_once(es: Seq<EntryInfo>)
    ensures
        forall|k: int|
            0 <= k < (plain_ops(es) + deferred_ops(es)).len() ==> 0 <= op_entry(
                #[trigger] (plain_ops(es) + deferred_ops(es))[k],
            ) < es.len() && op_fits(
                (plain_ops(es) + deferred_ops(es))[k],
                info_action(es[op_entry((plain_ops(es) + deferred_ops(es))[k])]),
            ),
        forall|k1: int, k2: int|
            0 <= k1 < k2 < (plain_ops(es) + deferred_ops(es)).len() ==> op_entry(
                #[trigger] (plain_ops(es) + deferred_ops(es))[k1],
            ) != op_entry(#[trigger] (plain_ops(es) + deferred_ops(es))[k2]),
        forall|i: int|
            0 <= i < es.len() && !(info_action(#[trigger] es[i]) is Skip) ==> exists|k: int|
                0 <= k < (plain_ops(es) + deferred_ops(es)).len() && op_entry(
                    #[trigger] (plain_ops(es) + deferred_ops(es))[k],
                ) == i,
{
    lemma_plain_ops_entries(es);
    lemma_deferred_ops_entries(es);
    lemma_plain_ops_no_append(es);
    lemma_deferred_ops_append(es);
    let p = plain_ops(es);
    let q = deferred_ops(es);
    let ops = p + q;
    let n = p.len();
    assert forall|k: int| 0 <= k < ops.len() implies 0 <= op_entry(#[trigger] ops[k]) < es.len()
        && op_fits(ops[k], info_action(es[op_entry(ops[k])])) by {
        if k < n {
            assert(ops[k] == p[k]);
        } else {
            assert(ops[k] == q[k - n]);
        }
    }
    assert forall|k1: int, k2: int| 0 <= k1 < k2 < ops.len() implies op_entry(#[trigger] ops[k1])
        != op_entry(#[trigger] ops[k2]) by {
        if k2 < n {
            assert(ops[k1] == p[k1] && ops[k2] == p[k2]);
        } else if k1 >= n {
            assert(ops[k1] == q[k1 - n] && ops[k2] == q[k2 - n]);
        } else {
            assert(ops[k1] == p[k1] && ops[k2] == q[k2 - n]);
            assert(!(p[k1] is Append));
            assert(q[k2 - n] is Append);
        }
    }
    assert forall|i: int| 0 <= i < es.len() && !(info_action(#[trigger] es[i]) is Skip) implies exists|
        k: int,
    | 0 <= k < ops.len() && op_entry(#[trigger] ops[k]) == i by {
        if info_action(es[i]) is Defer {
            let k = choose|k: int| 0 <= k < q.len() && op_entry(#[trigger] q[k]) == i;
            assert(ops[n + k] == q[k]);
        } else {
            let k = choose|k: int| 0 <= k < p.len() && op_entry(#[trigger] p[k]) == i;
            assert(ops[k] == p[k]);
        }
    }
}

/// Fragments apply after every plain copy of the same directory: once an
/// append comes, only appends follow.
pub proof fn fragments_apply_after_plain_copies(es: Seq<EntryInfo>)
    ensures
        forall|i: int, j: int|
            0 <= i < j < (plain_ops(es) + deferred_ops(es)).len() && (#[trigger] (plain_ops(es)
                + deferred_ops(es))[i]) is Append ==> (#[trigger] (plain_ops(es) + deferred_ops(
                es))[j]) is Append,
{
    lemma_plain_ops_no_append(es);
    lemma_deferred_ops_append(es);
    let ops = plain_ops(es) + deferred_ops(es);
    let n = plain_ops(es).len();
    assert forall|i: int, j: int| 0 <= i < j < ops.len() && (#[trigger] ops[i]) is Append implies (
    #[trigger] ops[j]) is Append by {
        if i < n {
            assert(ops[i] == plain_ops(es)[i]);
        }
        assert(ops[j] == deferred_ops(es)[j - n]);
    }
}

/// The contents after appending `addition` to `base`: a newline separates
/// them when `base` is non-empty and does not already end with one.
pub open spec fn spec_appended(base: Seq<u8>, addition: Seq<u8>) -> Seq<u8> {
    if base.len() > 0 && base.last() != 10u8 {
        base.push(10u8) + addition
    } else {
        base + addition
    }
}

/// Appending keeps the current contents as they are, ends with the
/// fragment, and puts at most one newline between them, exactly when the
/// contents are not empty and do not end with one.
pub proof fn appending_keeps_both_parts(base: Seq<u8>, addition: Seq<u8>)
    ensures
        spec_appended(base, addition).take(base.len() as int) == base,
        spec_appended(base, addition).skip(spec_appended(base, addition).len() - addition.len())
            == addition,
        spec_appended(base, addition).len() == base.len() + addition.len() + (if base.len() > 0
            && base.last() != 10u8 {
            1int
        } else {
            0int
        }),
{
    let r = spec_appended(base, addition);
    assert(r.take(base.len() as int) =~= base);
    assert(r.skip(r.len() - addition.len()) =~= addition);
}

/// The new contents of a file that an overlay fragment extends, or `None`
/// when the fragment is empty and nothing is written. `base` is the
/// current contents of the target (empty when it does not exist).
pub fn append_fragment_bytes(base: &[u8], addition: &[u8]) -> (r: Option<Vec<u8>>)
    ensures
        addition@.len() == 0 ==> r is None,
        addition@.len() > 0 ==> (r matches Some(out) && out@ == spec_appended(base@, addition@)),
{
    if addition.len() == 0 {
        return None;
    }
    let mut out: Vec<u8> = Vec::new();
    let mut i: usize = 0;
    while i < base.len()
        invariant
            i <= base.len(),
            out@ == base@.take(i as int),
        decreases base.len() - i,
    {
        out.push(base[i]);
        assert(out@ =~= base@.take(i + 1));
        i = i + 1;
    }
    assert(base@.take(base.len() as int) =~= base@);
    if base.len() > 0 && base[base.len() - 1] != 10u8 {
        out.push(10u8);
    }
    let ghost prefix = out@;
    let mut j: usize = 0;
    while j < addition.len()
        invariant
            j <= addition.len(),
            out@ == prefix + addition@.take(j as int),
        decreases addition.len() - j,
    {
        out.push(addition[j]);
        assert(out@ =~= prefix + addition@.take(j + 1));
        j = j + 1;
    }
    assert(addition@.take(addition.len() as int) =~= addition@);
    Some(out)
}


// ---------------------------------------------------------------------------
// Run outcomes
// ---------------------------------------------------------------------------

/// Whether a finished run removes the project directory: when it failed,
/// the directory exists, and `keep_on_failure` is off.
pub fn remove_on_failure(failed: bool, keep_on_failure: bool, target_exists: bool) -> (r: bool)
    ensures
        r == (failed && !keep_on_failure && target_exists),
{
    failed && !keep_on_failure && target_exists
}

/// The error of a template whose copied tree has no `Cargo.toml` at
/// `target`.
pub fn missing_manifest(target: &str) -> (r: EngineError)
    ensures
        r matches EngineError::TemplateMaterialize { path, detail } && path@ == target@ && detail@
            == "template source has no Cargo.toml"@,
{
    EngineError::TemplateMaterialize {
        path: target.to_owned(),
        detail: "template source has no Cargo.toml".to_owned(),
    }
}

/// The directory an addon overlays: its `template` subdirectory when it has
/// one (`template_is_dir`), else the addon directory itself.
pub fn overlay_dir(addon_dir: &str, template_is_dir: bool) -> (r: String)
    ensures
        r@ == (if template_is_dir {
            spec_join(addon_dir@, "template"@)
        } else {
            addon_dir@
        }),
{
    if template_is_dir {
        path_join(addon_dir, "template")
    } else {
        addon_dir.to_owned()
    }
}

} // verus!
