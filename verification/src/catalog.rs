//! The template catalog: its entries, where it is read from, and the
//! listings derived from it.

use vstd::prelude::*;

use crate::paths::{path_join, spec_join};
use crate::scaffold::EngineError;
use crate::text::{chars_range_to_string, push_str, starts_with, starts_with_at, str_chars, str_eq};

verus! {

/// Default catalog URL served by the `cra-templates` bank.
pub const DEFAULT_CATALOG_URL: &'static str =
    "https://raw.githubusercontent.com/Create-Rust-App/cra-templates/main/templates.json";

/// One scaffoldable project template.
#[derive(Debug, Clone)]
pub struct TemplateEntry {
    /// Stable slug used with `--template` (for example `axum-starter`).
    pub slug: String,
    /// One-line human description.
    pub description: String,
    /// Category tags used by `--category` filtering.
    pub tags: Vec<String>,
    /// Where template content lives: `file://` directory, git URL (with
    /// optional `?subdir=`), or empty when unknown.
    pub url: String,
}

/// One composable extension applied on top of a template.
#[derive(Debug, Clone)]
pub struct AddonEntry {
    /// Stable slug used with `--addons` (for example `all-github-setup`).
    pub slug: String,
    /// One-line human description.
    pub description: String,
    /// Overlay source: `file://` directory, git URL (with optional
    /// `?subdir=`), or empty when unknown.
    pub url: String,
}

/// The full template/addon bank served as `templates.json`.
#[derive(Debug, Clone)]
pub struct Catalog {
    /// Available project templates.
    pub templates: Vec<TemplateEntry>,
    /// Available addons.
    pub addons: Vec<AddonEntry>,
}

/// Where the catalog is to be read from.
#[derive(Debug, Clone, PartialEq, Eq)]
pub enum CatalogSource {
    /// A local file path.
    LocalFile(String),
    /// A remote URL fetched over HTTP(S).
    Remote(String),
}

/// The character views of a sequence of strings.
pub open spec fn views(v: Seq<String>) -> Seq<Seq<char>> {
    v.map_values(|s: String| s@)
}

/// The slugs of the catalog's templates, in catalog order.
pub open spec fn template_slugs(c: Catalog) -> Seq<Seq<char>> {
    c.templates@.map_values(|e: TemplateEntry| e.slug@)
}

/// The slugs of the catalog's addons, in catalog order.
pub open spec fn addon_slugs(c: Catalog) -> Seq<Seq<char>> {
    c.addons@.map_values(|e: AddonEntry| e.slug@)
}

/// Whether a template carries the tag `category`.
pub open spec fn has_tag(e: TemplateEntry, category: Seq<char>) -> bool {
    exists|i: int| 0 <= i < e.tags@.len() && (#[trigger] e.tags@[i])@ == category
}

/// The slugs of the templates among `ts` tagged `category`, in order.
pub open spec fn slugs_in_category(ts: Seq<TemplateEntry>, category: Seq<char>) -> Seq<Seq<char>>
    decreases ts.len(),
{
    if ts.len() == 0 {
        seq![]
    } else if has_tag(ts.last(), category) {
        slugs_in_category(ts.drop_last(), category).push(ts.last().slug@)
    } else {
        slugs_in_category(ts.drop_last(), category)
    }
}

/// The category listing is exactly the slugs, in catalog order, of the
/// templates that have some tag equal to the category, whatever its place
/// among their tags.
pub proof fn category_listing_is_every_tagged_template(ts: Seq<TemplateEntry>, category: Seq<char>)
    ensures
        slugs_in_category(ts, category) == ts.filter(
            |t: TemplateEntry| exists|j: int| 0 <= j < t.tags@.len() && t.tags@[j]@ == category,
        ).map_values(|t: TemplateEntry| t.slug@),
    decreases ts.len(),
{
    reveal(Seq::filter);
    if ts.len() > 0 {
        category_listing_is_every_tagged_template(ts.drop_last(), category);
        let f = ts.drop_last().filter(
            |t: TemplateEntry| exists|j: int| 0 <= j < t.tags@.len() && t.tags@[j]@ == category,
        );
        assert(f.push(ts.last()).map_values(|t: TemplateEntry| t.slug@) =~= f.map_values(
            |t: TemplateEntry| t.slug@,
        ).push(ts.last().slug@));
        let t = ts.last();
        if exists|j: int| 0 <= j < t.tags@.len() && t.tags@[j]@ == category {
            let j = choose|j: int| 0 <= j < t.tags@.len() && t.tags@[j]@ == category;
            assert(has_tag(t, category));
        }
    }
}

/// A category listing shows only templates of the full listing that carry
/// the tag, and never more of them than the full listing has.
pub proof fn category_listing_is_part_of_listing(ts: Seq<TemplateEntry>, category: Seq<char>)
    ensures
        slugs_in_category(ts, category).len() <= ts.len(),
        forall|k: int|
            #![trigger slugs_in_category(ts, category)[k]]
            0 <= k < slugs_in_category(ts, category).len() ==> exists|j: int|
                #![trigger ts[j]]
                0 <= j < ts.len() && ts[j].slug@ == slugs_in_category(ts, category)[k]
                    && has_tag(ts[j], category),
    decreases ts.len(),
{
    if ts.len() > 0 {
        category_listing_is_part_of_listing(ts.drop_last(), category);
        assert forall|k: int|
            #![trigger slugs_in_category(ts, category)[k]]
            0 <= k < slugs_in_category(ts, category).len() implies exists|j: int|
                #![trigger ts[j]]
                0 <= j < ts.len() && ts[j].slug@ == slugs_in_category(ts, category)[k]
                    && has_tag(ts[j], category) by {
            let init = ts.drop_last();
            let ci = slugs_in_category(init, category);
            if k < ci.len() {
                assert(slugs_in_category(ts, category)[k] == ci[k]);
                let j = choose|j: int|
                    #![trigger init[j]]
                    0 <= j < init.len() && init[j].slug@ == ci[k] && has_tag(init[j], category);
                assert(ts[j] == init[j]);
            } else {
                let j = ts.len() - 1;
                assert(ts[j] == ts.last());
                assert(ts[j].slug@ == slugs_in_category(ts, category)[k] && has_tag(ts[j], category));
            }
        }
    }
}

/// The text of a `Title:\n  - name` listing.
pub open spec fn catalog_list_text(title: Seq<char>, names: Seq<Seq<char>>) -> Seq<char>
    decreases names.len(),
{
    if names.len() == 0 {
        title + seq![':']
    } else {
        catalog_list_text(title, names.drop_last()) + "\n  - "@ + names.last()
    }
}

/// `location` without a leading `file://`, when it has one.
pub open spec fn spec_strip_file_scheme(location: Seq<char>) -> Option<Seq<char>> {
    if starts_with(location, "file://"@) {
        Some(location.subrange(7, location.len() as int))
    } else {
        None
    }
}

/// Where `load_catalog` reads from: a non-empty `catalog_path` wins (a
/// `file://` prefix is dropped); otherwise `catalog_url`, or the default
/// URL when it is absent or empty, read from disk when it is a `file://`
/// URL and fetched otherwise.
pub open spec fn spec_catalog_source(
    catalog_path: Option<Seq<char>>,
    catalog_url: Option<Seq<char>>,
) -> (CatalogSourceKind, Seq<char>) {
    if catalog_path is Some && catalog_path->0.len() > 0 {
        let p = catalog_path->0;
        match spec_strip_file_scheme(p) {
            Some(local) => (CatalogSourceKind::Local, local),
            None => (CatalogSourceKind::Local, p),
        }
    } else {
        let url = match catalog_url {
            Some(u) => if u.len() > 0 {
                u
            } else {
                DEFAULT_CATALOG_URL@
            },
            None => DEFAULT_CATALOG_URL@,
        };
        match spec_strip_file_scheme(url) {
            Some(local) => (CatalogSourceKind::Local, local),
            None => (CatalogSourceKind::Remote, url),
        }
    }
}

/// The two kinds of catalog source, for specifications.
pub enum CatalogSourceKind {
    Local,
    Remote,
}

/// A catalog source as a (kind, location) pair.
pub open spec fn source_view(s: CatalogSource) -> (CatalogSourceKind, Seq<char>) {
    match s {
        CatalogSource::LocalFile(p) => (CatalogSourceKind::Local, p@),
        CatalogSource::Remote(u) => (CatalogSourceKind::Remote, u@),
    }
}

/// `location` without a leading `file://`, when it has one.
pub fn strip_file_scheme(location: &str) -> (r: Option<String>)
    ensures
        r matches Some(s) ==> spec_strip_file_scheme(location@) == Some(s@),
        r is None ==> spec_strip_file_scheme(location@) is None,
{
    let v = str_chars(location);
    if starts_with_at(&v, 0, "file://") {
        proof {
            reveal_strlit("file://");
            assert(v@.subrange(0, v@.len() as int) =~= v@);
        }
        Some(chars_range_to_string(&v, 7, v.len()))
    } else {
        proof {
            assert(v@.subrange(0, v@.len() as int) =~= v@);
        }
        None
    }
}

/// Decide where the catalog is loaded from.
///
/// Resolution order: `catalog_path` (local file) → `catalog_url`
/// (`file://` URLs are read from disk, anything else is fetched over
/// HTTPS) → [`DEFAULT_CATALOG_URL`].
pub fn catalog_source(catalog_path: Option<&str>, catalog_url: Option<&str>) -> (r: CatalogSource)
    ensures
        source_view(r) == spec_catalog_source(
            match catalog_path {
                Some(p) => Some(p@),
                None => None,
            },
            match catalog_url {
                Some(u) => Some(u@),
                None => None,
            },
        ),
{
    if let Some(path) = catalog_path {
        if !path.is_empty() {
            match strip_file_scheme(path) {
                Some(local) => return CatalogSource::LocalFile(local),
                None => return CatalogSource::LocalFile(path.to_owned()),
            }
        }
    }
    let url: &str = match catalog_url {
        Some(u) => if !u.is_empty() {
            u
        } else {
            DEFAULT_CATALOG_URL
        },
        None => DEFAULT_CATALOG_URL,
    };
    match strip_file_scheme(url) {
        Some(local) => CatalogSource::LocalFile(local),
        None => CatalogSource::Remote(url.to_owned()),
    }
}

/// The directory of the fixture catalog: `dir` when given and not empty,
/// else the `CRA_FIXTURE_DIR` value when not empty, else
/// `fixtures/catalog`.
pub open spec fn spec_fixture_dir(dir: Option<Seq<char>>, env_dir: Option<Seq<char>>) -> Seq<char> {
    if dir is Some && dir->0.len() > 0 {
        dir->0
    } else if env_dir is Some && env_dir->0.len() > 0 {
        env_dir->0
    } else {
        "fixtures/catalog"@
    }
}

/// The fixture catalog file: `templates.json` inside the fixture directory.
pub open spec fn spec_fixture_catalog_path(dir: Option<Seq<char>>, env_dir: Option<Seq<char>>) -> Seq<
    char,
> {
    spec_join(spec_fixture_dir(dir, env_dir), "templates.json"@)
}

/// A borrowed optional string as plain characters.
pub open spec fn opt_str_view(o: Option<&str>) -> Option<Seq<char>> {
    match o {
        Some(s) => Some(s@),
        None => None,
    }
}

/// Resolve the local fixture catalog path. With no directory given, falls
/// back to `env_dir` (the value of `CRA_FIXTURE_DIR`) and finally to the
/// repo-local `fixtures/catalog` directory.
pub fn resolve_fixture_catalog_path(dir: Option<&str>, env_dir: Option<&str>) -> (r: String)
    ensures
        r@ == spec_fixture_catalog_path(opt_str_view(dir), opt_str_view(env_dir)),
{
    let base: &str = match dir {
        Some(d) if !d.is_empty() => d,
        _ => match env_dir {
            Some(d) if !d.is_empty() => d,
            _ => "fixtures/catalog",
        },
    };
    path_join(base, "templates.json")
}

/// What reading the catalog from its source gave.
#[derive(Debug, Clone)]
pub enum CatalogFetch {
    /// The local file could not be read; the cause's message.
    ReadFailed(String),
    /// The remote request failed; the cause's message.
    RequestFailed(String),
    /// The remote body could not be read; the cause's message.
    BodyFailed(String),
    /// The text is not a valid catalog; the parser's message.
    ParseFailed(String),
    /// The catalog that was read.
    Parsed(Catalog),
}

/// Load the catalog from what reading `source` gave: the catalog itself,
/// or the error that names the source and carries the cause.
pub fn load_catalog(source: &CatalogSource, fetched: CatalogFetch) -> (r: Result<Catalog, EngineError>)
    ensures
        fetched matches CatalogFetch::Parsed(c) ==> (r matches Ok(d) && d == c),
        fetched matches CatalogFetch::ParseFailed(m) ==> (r matches Err(
            EngineError::CatalogParse { detail },
        ) && detail@ == m@),
        fetched matches CatalogFetch::ReadFailed(m) ==> (r matches Err(
            EngineError::CatalogRead { path, detail },
        ) && path@ == source_view(*source).1 && detail@ == m@),
        fetched matches CatalogFetch::RequestFailed(m) ==> (r matches Err(
            EngineError::CatalogFetch { url, detail },
        ) && url@ == source_view(*source).1 && detail@ == m@),
        fetched matches CatalogFetch::BodyFailed(m) ==> (r matches Err(
            EngineError::CatalogFetchBody { url, detail },
        ) && url@ == source_view(*source).1 && detail@ == m@),
{
    let location: String = match source {
        CatalogSource::LocalFile(p) => p.clone(),
        CatalogSource::Remote(u) => u.clone(),
    };
    match fetched {
        CatalogFetch::Parsed(c) => Ok(c),
        CatalogFetch::ParseFailed(m) => Err(EngineError::CatalogParse { detail: m }),
        CatalogFetch::ReadFailed(m) => Err(EngineError::CatalogRead { path: location, detail: m }),
        CatalogFetch::RequestFailed(m) => Err(EngineError::CatalogFetch { url: location, detail: m }),
        CatalogFetch::BodyFailed(m) => Err(EngineError::CatalogFetchBody { url: location, detail: m }),
    }
}

/// Template slugs in catalog order.
pub fn list_template_names(catalog: &Catalog) -> (r: Vec<String>)
    ensures
        views(r@) == template_slugs(*catalog),
{
    let mut out: Vec<String> = Vec::new();
    let mut i: usize = 0;
    while i < catalog.templates.len()
        invariant
            i <= catalog.templates.len(),
            out@.len() == i,
            forall|j: int| 0 <= j < i ==> (#[trigger] out@[j])@ == catalog.templates@[j].slug@,
        decreases catalog.templates.len() - i,
    {
        out.push(catalog.templates[i].slug.clone());
        i = i + 1;
    }
    assert(views(out@) =~= template_slugs(*catalog));
    out
}

/// Addon slugs in catalog order.
pub fn list_addon_names(catalog: &Catalog) -> (r: Vec<String>)
    ensures
        views(r@) == addon_slugs(*catalog),
{
    let mut out: Vec<String> = Vec::new();
    let mut i: usize = 0;
    while i < catalog.addons.len()
        invariant
            i <= catalog.addons.len(),
            out@.len() == i,
            forall|j: int| 0 <= j < i ==> (#[trigger] out@[j])@ == catalog.addons@[j].slug@,
        decreases catalog.addons.len() - i,
    {
        out.push(catalog.addons[i].slug.clone());
        i = i + 1;
    }
    assert(views(out@) =~= addon_slugs(*catalog));
    out
}

/// Whether `entry` carries the tag `category`.
fn entry_has_tag(entry: &TemplateEntry, category: &str) -> (r: bool)
    ensures
        r == has_tag(*entry, category@),
{
    let mut i: usize = 0;
    while i < entry.tags.len()
        invariant
            i <= entry.tags.len(),
            forall|j: int| 0 <= j < i ==> (#[trigger] entry.tags@[j])@ != category@,
        decreases entry.tags.len() - i,
    {
        if str_eq(entry.tags[i].as_str(), category) {
            return true;
        }
        i = i + 1;
    }
    false
}

/// Template slugs whose tags contain `category`.
pub fn list_template_names_in_category(catalog: &Catalog, category: &str) -> (r: Vec<String>)
    ensures
        views(r@) == slugs_in_category(catalog.templates@, category@),
{
    let mut out: Vec<String> = Vec::new();
    let mut i: usize = 0;
    while i < catalog.templates.len()
        invariant
            i <= catalog.templates.len(),
            views(out@) == slugs_in_category(catalog.templates@.take(i as int), category@),
        decreases catalog.templates.len() - i,
    {
        let ghost before = catalog.templates@.take(i as int);
        let ghost after = catalog.templates@.take(i + 1);
        assert(after.drop_last() =~= before);
        let ghost prev = out@;
        if entry_has_tag(&catalog.templates[i], category) {
            out.push(catalog.templates[i].slug.clone());
            assert(views(out@) =~= views(prev).push(catalog.templates@[i as int].slug@));
        }
        i = i + 1;
    }
    assert(catalog.templates@.take(i as int) =~= catalog.templates@);
    out
}

/// Render a `Title:\n  - name` list for terminal output.
pub fn format_catalog_list(title: &str, names: &[String]) -> (r: String)
    ensures
        r@ == catalog_list_text(title@, views(names@)),
{
    let mut out = String::new();
    push_str(&mut out, title);
    push_str(&mut out, ":");
    proof {
        reveal_strlit(":");
        assert(Seq::<char>::empty() + title@ + ":"@ =~= title@ + seq![':']);
        assert(views(names@).take(0) =~= Seq::<Seq<char>>::empty());
    }
    let mut i: usize = 0;
    while i < names.len()
        invariant
            i <= names.len(),
            out@ == catalog_list_text(title@, views(names@).take(i as int)),
        decreases names.len() - i,
    {
        push_str(&mut out, "\n  - ");
        push_str(&mut out, names[i].as_str());
        assert(views(names@).take(i + 1).drop_last() =~= views(names@).take(i as int));
        i = i + 1;
    }
    assert(views(names@).take(names.len() as int) =~= views(names@));
    out
}

} // verus!
