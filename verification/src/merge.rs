//! Merging an overlay `Cargo.toml` into the project manifest.
//!
//! The manifests are read into a model that holds, as plain values, what
//! the merge looks at: the entries of the three dependency tables and of
//! the three target arrays. The merge is planned over that model; the plan
//! is a list of edits for the document.

use vstd::prelude::*;

use crate::catalog::views;
use crate::scaffold::EngineError;
use crate::text::{push_str, str_eq};

verus! {

// ---------------------------------------------------------------------------
// Model
// ---------------------------------------------------------------------------

/// One key of an inline dependency table.
#[derive(Debug, Clone)]
pub struct InlineValue {
    /// The key.
    pub key: String,
    /// The value when it is a string.
    pub text: Option<String>,
    /// The elements, each when it is a string, when the value is an array.
    pub items: Option<Vec<Option<String>>>,
    /// The value as the document renders it.
    pub rendered: String,
}

/// The shape of a dependency specification.
#[derive(Debug, Clone)]
pub enum DepItem {
    /// A bare version requirement (`serde = "1"`).
    Version(String),
    /// An inline table (`serde = { version = "1", features = [...] }`).
    Inline(Vec<InlineValue>),
    /// Anything else (for example a dotted `[dependencies.serde]` table).
    Other,
}

/// One entry of a dependency table.
#[derive(Debug, Clone)]
pub struct DepEntry {
    /// The dependency name.
    pub name: String,
    /// Its specification.
    pub item: DepItem,
    /// The specification as the document renders it.
    pub rendered: String,
}

/// A dependency table of a manifest.
#[derive(Debug, Clone)]
pub enum DepTable {
    /// The manifest has no such table.
    Absent,
    /// The key holds something other than a table.
    NotTable,
    /// The table's entries, in document order.
    Table(Vec<DepEntry>),
}

/// One `[[bench]]`/`[[example]]`/`[[test]]` entry.
#[derive(Debug, Clone)]
pub struct TargetEntry {
    /// Its `name` when that is a string.
    pub name: Option<String>,
    /// The entry as the document renders it.
    pub rendered: String,
}

/// A target array of a manifest.
#[derive(Debug, Clone)]
pub enum TargetTable {
    /// The manifest has no such array.
    Absent,
    /// The key holds something other than an array of tables.
    NotArray,
    /// The entries, in document order.
    Array(Vec<TargetEntry>),
}

/// What the merge reads of a manifest.
#[derive(Debug, Clone)]
pub struct ManifestModel {
    pub dependencies: DepTable,
    pub dev_dependencies: DepTable,
    pub build_dependencies: DepTable,
    pub bench: TargetTable,
    pub example: TargetTable,
    pub test: TargetTable,
}

/// The dependency tables that are merged.
#[derive(Debug, Clone, Copy, PartialEq, Eq, Structural)]
pub enum DepKind {
    Dependencies,
    DevDependencies,
    BuildDependencies,
}

/// The target arrays that are merged.
#[derive(Debug, Clone, Copy, PartialEq, Eq, Structural)]
pub enum TargetKind {
    Bench,
    Example,
    Test,
}

/// The manifest key of a dependency table.
pub open spec fn spec_dep_key(kind: DepKind) -> Seq<char> {
    match kind {
        DepKind::Dependencies => "dependencies"@,
        DepKind::DevDependencies => "dev-dependencies"@,
        DepKind::BuildDependencies => "build-dependencies"@,
    }
}

/// The manifest key of a target array.
pub open spec fn spec_target_key(kind: TargetKind) -> Seq<char> {
    match kind {
        TargetKind::Bench => "bench"@,
        TargetKind::Example => "example"@,
        TargetKind::Test => "test"@,
    }
}

/// The manifest key of a dependency table.
pub fn dep_table_key(kind: DepKind) -> (r: &'static str)
    ensures
        r@ == spec_dep_key(kind),
{
    match kind {
        DepKind::Dependencies => "dependencies",
        DepKind::DevDependencies => "dev-dependencies",
        DepKind::BuildDependencies => "build-dependencies",
    }
}

/// The manifest key of a target array.
pub fn target_table_key(kind: TargetKind) -> (r: &'static str)
    ensures
        r@ == spec_target_key(kind),
{
    match kind {
        TargetKind::Bench => "bench",
        TargetKind::Example => "example",
        TargetKind::Test => "test",
    }
}

// ---------------------------------------------------------------------------
// Dependency parts
// ---------------------------------------------------------------------------

/// The first value of an inline table with key `key`.
pub open spec fn inline_lookup(kvs: Seq<InlineValue>, key: Seq<char>) -> Option<InlineValue>
    decreases kvs.len(),
{
    if kvs.len() == 0 {
        None
    } else if kvs[0].key@ == key {
        Some(kvs[0])
    } else {
        inline_lookup(kvs.drop_first(), key)
    }
}

/// The string elements of an array, in order.
pub open spec fn string_items(xs: Seq<Option<String>>) -> Seq<Seq<char>>
    decreases xs.len(),
{
    if xs.len() == 0 {
        seq![]
    } else {
        match xs.last() {
            Some(s) => string_items(xs.drop_last()).push(s@),
            None => string_items(xs.drop_last()),
        }
    }
}

/// The keys of an inline table other than `version` and `features`, with
/// their rendered values.
pub open spec fn rest_pairs(kvs: Seq<InlineValue>) -> Seq<(Seq<char>, Seq<char>)>
    decreases kvs.len(),
{
    if kvs.len() == 0 {
        seq![]
    } else if kvs.last().key@ == "version"@ || kvs.last().key@ == "features"@ {
        rest_pairs(kvs.drop_last())
    } else {
        rest_pairs(kvs.drop_last()).push((kvs.last().key@, kvs.last().rendered@))
    }
}

/// The version requirement of a dependency: the string itself, or the
/// inline table's `version` when it is a string.
pub open spec fn dep_version(item: DepItem) -> Option<Seq<char>> {
    match item {
        DepItem::Version(v) => Some(v@),
        DepItem::Inline(kvs) => match inline_lookup(kvs@, "version"@) {
            Some(kv) => match kv.text {
                Some(t) => Some(t@),
                None => None,
            },
            None => None,
        },
        DepItem::Other => None,
    }
}

/// The features of a dependency: the string elements of the inline
/// table's `features` array.
pub open spec fn dep_features(item: DepItem) -> Seq<Seq<char>> {
    match item {
        DepItem::Inline(kvs) => match inline_lookup(kvs@, "features"@) {
            Some(kv) => match kv.items {
                Some(xs) => string_items(xs@),
                None => seq![],
            },
            None => seq![],
        },
        _ => seq![],
    }
}

/// Everything else a dependency specifies; an unusual specification is
/// represented by its rendered text.
pub open spec fn dep_rest(item: DepItem, rendered: Seq<char>) -> Seq<(Seq<char>, Seq<char>)> {
    match item {
        DepItem::Version(_) => seq![],
        DepItem::Inline(kvs) => rest_pairs(kvs@),
        DepItem::Other => seq![("spec"@, rendered)],
    }
}

/// The features of `existing` followed by those of `extra` it lacks, each
/// added once.
pub open spec fn union_features(existing: Seq<Seq<char>>, extra: Seq<Seq<char>>) -> Seq<Seq<char>>
    decreases extra.len(),
{
    if extra.len() == 0 {
        existing
    } else if existing.contains(extra[0]) {
        union_features(existing, extra.drop_first())
    } else {
        union_features(existing.push(extra[0]), extra.drop_first())
    }
}

/// How a dependency that both manifests declare, differently, is merged.
pub enum DepDecision {
    /// Nothing changes.
    Unchanged,
    /// The project's inline table gets these features.
    SetFeatures(Seq<Seq<char>>),
    /// The project entry is replaced by the overlay's.
    Adopt,
    /// The two requirements clash.
    Conflict,
}

/// Additive differences compose: when both sides require the same version
/// with the same remaining keys, their features unite (in the project's
/// inline table, or by adopting the overlay entry when the project pins a
/// bare version). Anything else is a conflict.
pub open spec fn dep_decision(existing: DepEntry, overlay: DepEntry) -> DepDecision {
    if dep_version(existing.item) != dep_version(overlay.item) || dep_rest(
        existing.item,
        existing.rendered@,
    ).to_multiset() != dep_rest(overlay.item, overlay.rendered@).to_multiset() {
        DepDecision::Conflict
    } else {
        let merged = union_features(dep_features(existing.item), dep_features(overlay.item));
        if merged == dep_features(existing.item) {
            DepDecision::Unchanged
        } else {
            match existing.item {
                DepItem::Inline(_) => DepDecision::SetFeatures(merged),
                _ => DepDecision::Adopt,
            }
        }
    }
}

/// A pair of strings as plain values.
pub open spec fn pairs_view(v: Seq<(String, String)>) -> Seq<(Seq<char>, Seq<char>)> {
    v.map_values(|p: (String, String)| (p.0@, p.1@))
}

/// How often `x` occurs in `s`.
pub open spec fn count_of<A>(s: Seq<A>, x: A) -> nat
    decreases s.len(),
{
    if s.len() == 0 {
        0
    } else {
        count_of(s.drop_last(), x) + if s.last() == x {
            1nat
        } else {
            0nat
        }
    }
}

proof fn lemma_count_of<A>(s: Seq<A>, x: A)
    ensures
        count_of(s, x) == s.to_multiset().count(x),
    decreases s.len(),
{
    broadcast use vstd::seq_lib::group_to_multiset_ensures;

    if s.len() == 0 {
        assert(s.to_multiset().len() == 0);
    } else {
        lemma_count_of(s.drop_last(), x);
        assert(s.drop_last().push(s.last()) =~= s);
    }
}

/// How often `x` occurs in `v`.
fn count_pairs(v: &Vec<(String, String)>, x: &(String, String)) -> (r: usize)
    ensures
        r == count_of(pairs_view(v@), (x.0@, x.1@)),
{
    let ghost pv = pairs_view(v@);
    let mut n: usize = 0;
    let mut i: usize = 0;
    while i < v.len()
        invariant
            i <= v.len(),
            pv == pairs_view(v@),
            n == count_of(pv.take(i as int), (x.0@, x.1@)),
            n <= i,
        decreases v.len() - i,
    {
        assert(pv.take(i + 1).drop_last() =~= pv.take(i as int));
        if str_eq(v[i].0.as_str(), x.0.as_str()) && str_eq(v[i].1.as_str(), x.1.as_str()) {
            n = n + 1;
        }
        i = i + 1;
    }
    assert(pv.take(v.len() as int) =~= pv);
    n
}

/// Whether `a` and `b` hold the same pairs, as many times each.
fn same_pairs(a: &Vec<(String, String)>, b: &Vec<(String, String)>) -> (r: bool)
    ensures
        r == (pairs_view(a@).to_multiset() == pairs_view(b@).to_multiset()),
{
    broadcast use vstd::seq_lib::group_to_multiset_ensures;

    let ghost pa = pairs_view(a@);
    let ghost pb = pairs_view(b@);
    if a.len() != b.len() {
        assert(pa.to_multiset().len() != pb.to_multiset().len());
        return false;
    }
    let mut i: usize = 0;
    while i < a.len()
        invariant
            i <= a.len(),
            pa == pairs_view(a@),
            pb == pairs_view(b@),
            forall|k: int| 0 <= k < i ==> count_of(pa, #[trigger] pa[k]) == count_of(pb, pa[k]),
        decreases a.len() - i,
    {
        if count_pairs(a, &a[i]) != count_pairs(b, &a[i]) {
            proof {
                lemma_count_of(pa, pa[i as int]);
                lemma_count_of(pb, pa[i as int]);
            }
            return false;
        }
        i = i + 1;
    }
    let mut j: usize = 0;
    while j < b.len()
        invariant
            j <= b.len(),
            pa == pairs_view(a@),
            pb == pairs_view(b@),
            forall|k: int| 0 <= k < j ==> count_of(pa, #[trigger] pb[k]) == count_of(pb, pb[k]),
        decreases b.len() - j,
    {
        if count_pairs(a, &b[j]) != count_pairs(b, &b[j]) {
            proof {
                lemma_count_of(pa, pb[j as int]);
                lemma_count_of(pb, pb[j as int]);
            }
            return false;
        }
        j = j + 1;
    }
    proof {
        assert forall|x: (Seq<char>, Seq<char>)| pa.to_multiset().count(x) == pb.to_multiset().count(
            x,
        ) by {
            lemma_count_of(pa, x);
            lemma_count_of(pb, x);
            if pa.contains(x) {
                let k = choose|k: int| 0 <= k < pa.len() && pa[k] == x;
                assert(count_of(pa, pa[k]) == count_of(pb, pa[k]));
            } else if pb.contains(x) {
                let k = choose|k: int| 0 <= k < pb.len() && pb[k] == x;
                assert(count_of(pa, pb[k]) == count_of(pb, pb[k]));
            } else {
                assert(pa.to_multiset().count(x) == 0);
                assert(pb.to_multiset().count(x) == 0);
            }
        }
        assert(pa.to_multiset() =~= pb.to_multiset());
    }
    true
}

/// The index of the first value of an inline table with key `key`.
fn inline_index(kvs: &Vec<InlineValue>, key: &str) -> (r: Option<usize>)
    ensures
        r matches Some(i) ==> i < kvs.len() && inline_lookup(kvs@, key@) == Some(kvs@[i as int]),
        r is None ==> inline_lookup(kvs@, key@) is None,
{
    let mut i: usize = 0;
    assert(kvs@.skip(0) =~= kvs@);
    while i < kvs.len()
        invariant
            i <= kvs.len(),
            inline_lookup(kvs@, key@) == inline_lookup(kvs@.skip(i as int), key@),
        decreases kvs.len() - i,
    {
        assert(kvs@.skip(i as int)[0] == kvs@[i as int]);
        assert(kvs@.skip(i as int).drop_first() =~= kvs@.skip(i + 1));
        if str_eq(kvs[i].key.as_str(), key) {
            return Some(i);
        }
        i = i + 1;
    }
    None
}

/// The optional string as plain value.
pub open spec fn opt_str(o: Option<String>) -> Option<Seq<char>> {
    match o {
        Some(s) => Some(s@),
        None => None,
    }
}

fn version_of(item: &DepItem) -> (r: Option<String>)
    ensures
        opt_str(r) == dep_version(*item),
{
    match item {
        DepItem::Version(v) => Some(v.clone()),
        DepItem::Inline(kvs) => {
            proof {
                reveal_strlit("version");
            }
            match inline_index(kvs, "version") {
                Some(i) => match &kvs[i].text {
                    Some(t) => Some(t.clone()),
                    None => None,
                },
                None => None,
            }
        },
        DepItem::Other => None,
    }
}

fn string_items_exec(xs: &Vec<Option<String>>) -> (r: Vec<String>)
    ensures
        views(r@) == string_items(xs@),
{
    let mut out: Vec<String> = Vec::new();
    let mut i: usize = 0;
    while i < xs.len()
        invariant
            i <= xs.len(),
            views(out@) == string_items(xs@.take(i as int)),
        decreases xs.len() - i,
    {
        assert(xs@.take(i + 1).drop_last() =~= xs@.take(i as int));
        match &xs[i] {
            Some(s) => {
                out.push(s.clone());
                assert(views(out@) =~= string_items(xs@.take(i as int)).push(s@));
            },
            None => {},
        }
        i = i + 1;
    }
    assert(xs@.take(xs.len() as int) =~= xs@);
    out
}

fn features_of(item: &DepItem) -> (r: Vec<String>)
    ensures
        views(r@) == dep_features(*item),
{
    match item {
        DepItem::Inline(kvs) => match inline_index(kvs, "features") {
            Some(i) => match &kvs[i].items {
                Some(xs) => string_items_exec(xs),
                None => Vec::new(),
            },
            None => Vec::new(),
        },
        _ => Vec::new(),
    }
}

fn rest_of(item: &DepItem, rendered: &String) -> (r: Vec<(String, String)>)
    ensures
        pairs_view(r@) == dep_rest(*item, rendered@),
{
    let mut out: Vec<(String, String)> = Vec::new();
    match item {
        DepItem::Version(_) => {},
        DepItem::Inline(kvs) => {
            let mut i: usize = 0;
            while i < kvs.len()
                invariant
                    i <= kvs.len(),
                    pairs_view(out@) == rest_pairs(kvs@.take(i as int)),
                decreases kvs.len() - i,
            {
                assert(kvs@.take(i + 1).drop_last() =~= kvs@.take(i as int));
                let k = kvs[i].key.as_str();
                if !str_eq(k, "version") && !str_eq(k, "features") {
                    out.push((kvs[i].key.clone(), kvs[i].rendered.clone()));
                    assert(pairs_view(out@) =~= rest_pairs(kvs@.take(i as int)).push(
                        (kvs@[i as int].key@, kvs@[i as int].rendered@),
                    ));
                }
                i = i + 1;
            }
            assert(kvs@.take(kvs.len() as int) =~= kvs@);
        },
        DepItem::Other => {
            out.push(("spec".to_owned(), rendered.clone()));
            assert(pairs_view(out@) =~= seq![("spec"@, rendered@)]);
        },
    }
    out
}

fn contains_string(v: &Vec<String>, s: &String) -> (r: bool)
    ensures
        r == views(v@).contains(s@),
{
    let mut i: usize = 0;
    while i < v.len()
        invariant
            i <= v.len(),
            forall|k: int| 0 <= k < i ==> v@[k]@ != s@,
        decreases v.len() - i,
    {
        if str_eq(v[i].as_str(), s.as_str()) {
            assert(views(v@)[i as int] == s@);
            return true;
        }
        i = i + 1;
    }
    assert(!views(v@).contains(s@)) by {
        if views(v@).contains(s@) {
            let k = choose|k: int| 0 <= k < views(v@).len() && views(v@)[k] == s@;
            assert(v@[k]@ == s@);
        }
    }
    false
}

pub(crate) fn union_exec(existing: &Vec<String>, extra: &Vec<String>) -> (r: Vec<String>)
    ensures
        views(r@) == union_features(views(existing@), views(extra@)),
{
    let mut merged: Vec<String> = existing.clone();
    assert(views(merged@) =~= views(existing@)) by {
        assert forall|k: int| 0 <= k < merged@.len() implies merged@[k]@ == existing@[k]@ by {
            assert(vstd::pervasive::cloned(existing@[k], merged@[k]));
        }
    }
    let mut i: usize = 0;
    assert(views(extra@).skip(0) =~= views(extra@));
    while i < extra.len()
        invariant
            i <= extra.len(),
            union_features(views(merged@), views(extra@).skip(i as int)) == union_features(
                views(existing@),
                views(extra@),
            ),
        decreases extra.len() - i,
    {
        let ghost rest = views(extra@).skip(i as int);
        assert(rest[0] == extra@[i as int]@);
        assert(rest.drop_first() =~= views(extra@).skip(i + 1));
        if !contains_string(&merged, &extra[i]) {
            let ghost before = views(merged@);
            merged.push(extra[i].clone());
            assert(views(merged@) =~= before.push(extra@[i as int]@));
        }
        i = i + 1;
    }
    assert(views(extra@).skip(extra.len() as int) =~= Seq::<Seq<char>>::empty());
    merged
}

fn strings_eq(a: &Vec<String>, b: &Vec<String>) -> (r: bool)
    ensures
        r == (views(a@) == views(b@)),
{
    if a.len() != b.len() {
        assert(views(a@).len() != views(b@).len());
        return false;
    }
    let mut i: usize = 0;
    while i < a.len()
        invariant
            i <= a.len(),
            a.len() == b.len(),
            forall|k: int| 0 <= k < i ==> a@[k]@ == b@[k]@,
        decreases a.len() - i,
    {
        if !str_eq(a[i].as_str(), b[i].as_str()) {
            assert(views(a@)[i as int] != views(b@)[i as int]);
            return false;
        }
        i = i + 1;
    }
    assert(views(a@) =~= views(b@));
    true
}

/// What the merge of one dependency does.
#[derive(Debug, Clone)]
pub enum DepAction {
    /// Nothing changes.
    Unchanged,
    /// The project's inline table gets these features.
    SetFeatures(Vec<String>),
    /// The project entry is replaced by the overlay's.
    Adopt,
    /// The two requirements clash.
    Conflict,
}

/// A merge action as its decision.
pub open spec fn action_view(a: DepAction) -> DepDecision {
    match a {
        DepAction::Unchanged => DepDecision::Unchanged,
        DepAction::SetFeatures(f) => DepDecision::SetFeatures(views(f@)),
        DepAction::Adopt => DepDecision::Adopt,
        DepAction::Conflict => DepDecision::Conflict,
    }
}

/// Merge one dependency that both manifests declare with different
/// specifications.
pub fn merge_dep_spec(existing: &DepEntry, overlay: &DepEntry) -> (r: DepAction)
    ensures
        action_view(r) == dep_decision(*existing, *overlay),
{
    let ev = version_of(&existing.item);
    let ov = version_of(&overlay.item);
    let same_version = match (&ev, &ov) {
        (Some(a), Some(b)) => str_eq(a.as_str(), b.as_str()),
        (None, None) => true,
        _ => false,
    };
    let er = rest_of(&existing.item, &existing.rendered);
    let or = rest_of(&overlay.item, &overlay.rendered);
    if !same_version || !same_pairs(&er, &or) {
        return DepAction::Conflict;
    }
    let ef = features_of(&existing.item);
    let of = features_of(&overlay.item);
    let merged = union_exec(&ef, &of);
    if strings_eq(&merged, &ef) {
        return DepAction::Unchanged;
    }
    match &existing.item {
        DepItem::Inline(_) => DepAction::SetFeatures(merged),
        _ => DepAction::Adopt,
    }
}

// ---------------------------------------------------------------------------
// Plans
// ---------------------------------------------------------------------------

/// An edit of the project manifest, as plain values.
pub enum EditView {
    EnsureDepTable(DepKind),
    InsertDep(DepKind, Seq<char>),
    SetFeatures(DepKind, Seq<char>, Seq<Seq<char>>),
    AdoptDep(DepKind, Seq<char>),
    EnsureTargetArray(TargetKind),
    PushTarget(TargetKind, int),
}

/// Why a merge fails, as plain values.
pub enum MergeFailure {
    DepNotTable(DepKind),
    DepConflict(Seq<char>, Seq<char>, Seq<char>),
    TargetNotArray(TargetKind),
    TargetConflict(TargetKind, Seq<char>),
}

/// An edit of the project manifest.
#[derive(Debug, Clone)]
pub enum ManifestEdit {
    /// Create the dependency table when the project lacks it.
    EnsureDepTable(DepKind),
    /// Insert the overlay's entry for this dependency.
    InsertDep(DepKind, String),
    /// Set the features of the project's inline entry.
    SetFeatures(DepKind, String, Vec<String>),
    /// Replace the project's entry by the overlay's.
    AdoptDep(DepKind, String),
    /// Create the target array when the project lacks it.
    EnsureTargetArray(TargetKind),
    /// Append the overlay's target entry with this index.
    PushTarget(TargetKind, usize),
}

/// Why a merge fails.
#[derive(Debug, Clone)]
pub enum MergeConflict {
    /// The project's dependency key is not a table.
    DepNotTable(DepKind),
    /// Clashing requirements: dependency name, project spec, overlay spec.
    DepConflict(String, String, String),
    /// The project's target key is not an array of tables.
    TargetNotArray(TargetKind),
    /// A target of this name is declared differently.
    TargetConflict(TargetKind, String),
}

/// An edit as plain values.
pub open spec fn edit_view(e: ManifestEdit) -> EditView {
    match e {
        ManifestEdit::EnsureDepTable(k) => EditView::EnsureDepTable(k),
        ManifestEdit::InsertDep(k, n) => EditView::InsertDep(k, n@),
        ManifestEdit::SetFeatures(k, n, f) => EditView::SetFeatures(k, n@, views(f@)),
        ManifestEdit::AdoptDep(k, n) => EditView::AdoptDep(k, n@),
        ManifestEdit::EnsureTargetArray(k) => EditView::EnsureTargetArray(k),
        ManifestEdit::PushTarget(k, i) => EditView::PushTarget(k, i as int),
    }
}

/// Edits as plain values.
pub open spec fn edits_view(es: Seq<ManifestEdit>) -> Seq<EditView> {
    es.map_values(|e: ManifestEdit| edit_view(e))
}

/// A failure as plain values.
pub open spec fn failure_view(c: MergeConflict) -> MergeFailure {
    match c {
        MergeConflict::DepNotTable(k) => MergeFailure::DepNotTable(k),
        MergeConflict::DepConflict(n, e, o) => MergeFailure::DepConflict(n@, e@, o@),
        MergeConflict::TargetNotArray(k) => MergeFailure::TargetNotArray(k),
        MergeConflict::TargetConflict(k, n) => MergeFailure::TargetConflict(k, n@),
    }
}

/// A plan result as plain values.
pub open spec fn plan_view(r: Result<Vec<ManifestEdit>, MergeConflict>) -> Result<
    Seq<EditView>,
    MergeFailure,
> {
    match r {
        Ok(es) => Ok(edits_view(es@)),
        Err(c) => Err(failure_view(c)),
    }
}

/// The first of two plans that fails, or both plans' edits in order.
pub open spec fn then(
    a: Result<Seq<EditView>, MergeFailure>,
    b: Result<Seq<EditView>, MergeFailure>,
) -> Result<Seq<EditView>, MergeFailure> {
    match a {
        Err(f) => Err(f),
        Ok(x) => match b {
            Err(f) => Err(f),
            Ok(y) => Ok(x + y),
        },
    }
}

/// The first index at or after `i` of a dependency named `name`.
pub open spec fn dep_index(ts: Seq<DepEntry>, name: Seq<char>, i: int) -> Option<int>
    decreases ts.len() - i,
{
    if i < 0 || i >= ts.len() {
        None
    } else if ts[i].name@ == name {
        Some(i)
    } else {
        dep_index(ts, name, i + 1)
    }
}

pub(crate) proof fn lemma_dep_index(ts: Seq<DepEntry>, name: Seq<char>, i: int)
    requires
        0 <= i,
    ensures
        dep_index(ts, name, i) matches Some(k) ==> i <= k < ts.len() && ts[k].name@ == name,
        dep_index(ts, name, i) is None ==> forall|k: int| i <= k < ts.len() ==> ts[k].name@ != name,
    decreases ts.len() - i,
{
    if i < ts.len() && ts[i].name@ != name {
        lemma_dep_index(ts, name, i + 1);
    }
}

/// The edits one overlay dependency calls for: a dependency the project
/// lacks is inserted, an identical one is skipped, and a different one is
/// merged by `dep_decision`.
pub open spec fn dep_step(ts: Seq<DepEntry>, o: DepEntry, kind: DepKind) -> Result<
    Seq<EditView>,
    MergeFailure,
> {
    match dep_index(ts, o.name@, 0) {
        None => Ok(seq![EditView::InsertDep(kind, o.name@)]),
        Some(i) => {
            let e = ts[i];
            if e.rendered@ == o.rendered@ {
                Ok(seq![])
            } else {
                match dep_decision(e, o) {
                    DepDecision::Conflict => Err(
                        MergeFailure::DepConflict(o.name@, e.rendered@, o.rendered@),
                    ),
                    DepDecision::Unchanged => Ok(seq![]),
                    DepDecision::SetFeatures(f) => Ok(seq![EditView::SetFeatures(kind, o.name@, f)]),
                    DepDecision::Adopt => Ok(seq![EditView::AdoptDep(kind, o.name@)]),
                }
            }
        },
    }
}

/// The edits for all overlay dependencies, in order; the first failure
/// ends the merge.
pub open spec fn dep_steps(ts: Seq<DepEntry>, os: Seq<DepEntry>, kind: DepKind) -> Result<
    Seq<EditView>,
    MergeFailure,
>
    decreases os.len(),
{
    if os.len() == 0 {
        Ok(seq![])
    } else {
        then(dep_steps(ts, os.drop_last(), kind), dep_step(ts, os.last(), kind))
    }
}

/// The plan for one dependency table: nothing when the overlay has no such
/// table; a failure when the project's key is not a table; otherwise the
/// table is created when missing and every overlay entry is merged.
pub open spec fn dep_table_plan(t: DepTable, o: DepTable, kind: DepKind) -> Result<
    Seq<EditView>,
    MergeFailure,
> {
    match o {
        DepTable::Table(os) => match t {
            DepTable::NotTable => Err(MergeFailure::DepNotTable(kind)),
            DepTable::Absent => then(
                Ok(seq![EditView::EnsureDepTable(kind)]),
                dep_steps(seq![], os@, kind),
            ),
            DepTable::Table(ts) => dep_steps(ts@, os@, kind),
        },
        _ => Ok(seq![]),
    }
}

/// A target's name: its `name` string, or empty.
pub open spec fn target_name(e: TargetEntry) -> Seq<char> {
    match e.name {
        Some(n) => n@,
        None => seq![],
    }
}

/// Targets as (name, rendered) pairs.
pub open spec fn targets_view(ts: Seq<TargetEntry>) -> Seq<(Seq<char>, Seq<char>)> {
    ts.map_values(|e: TargetEntry| (target_name(e), e.rendered@))
}

/// The first index at or after `i` of a target named `name`.
pub open spec fn target_index(cur: Seq<(Seq<char>, Seq<char>)>, name: Seq<char>, i: int) -> Option<
    int,
>
    decreases cur.len() - i,
{
    if i < 0 || i >= cur.len() {
        None
    } else if cur[i].0 == name {
        Some(i)
    } else {
        target_index(cur, name, i + 1)
    }
}

proof fn lemma_target_index(cur: Seq<(Seq<char>, Seq<char>)>, name: Seq<char>, i: int)
    requires
        0 <= i,
    ensures
        target_index(cur, name, i) matches Some(k) ==> i <= k < cur.len() && cur[k].0 == name,
        target_index(cur, name, i) is None ==> forall|k: int|
            i <= k < cur.len() ==> cur[k].0 != name,
    decreases cur.len() - i,
{
    if i < cur.len() && cur[i].0 != name {
        lemma_target_index(cur, name, i + 1);
    }
}

/// The merge of the overlay targets `os` into the targets `cur`, target by
/// target: a name not yet present is appended, the same declaration is
/// skipped, and a different declaration of a present name fails. The
/// result holds the edits and the targets afterwards.
pub open spec fn target_steps(
    cur: Seq<(Seq<char>, Seq<char>)>,
    os: Seq<TargetEntry>,
    kind: TargetKind,
) -> Result<(Seq<EditView>, Seq<(Seq<char>, Seq<char>)>), MergeFailure>
    decreases os.len(),
{
    if os.len() == 0 {
        Ok((seq![], cur))
    } else {
        match target_steps(cur, os.drop_last(), kind) {
            Err(f) => Err(f),
            Ok((es, now)) => {
                let o = os.last();
                match target_index(now, target_name(o), 0) {
                    None => Ok(
                        (
                            es.push(EditView::PushTarget(kind, os.len() - 1)),
                            now.push((target_name(o), o.rendered@)),
                        ),
                    ),
                    Some(p) => if now[p].1 == o.rendered@ {
                        Ok((es, now))
                    } else {
                        Err(MergeFailure::TargetConflict(kind, target_name(o)))
                    },
                }
            },
        }
    }
}

/// The edits of a target merge.
pub open spec fn target_edits(
    r: Result<(Seq<EditView>, Seq<(Seq<char>, Seq<char>)>), MergeFailure>,
) -> Result<Seq<EditView>, MergeFailure> {
    match r {
        Err(f) => Err(f),
        Ok((es, _)) => Ok(es),
    }
}

/// The plan for one target array: nothing when the overlay has no such
/// array or an empty one; a failure when the project's key is not an array
/// of tables; otherwise the array is created when missing and the targets
/// are merged by name.
pub open spec fn target_table_plan(t: TargetTable, o: TargetTable, kind: TargetKind) -> Result<
    Seq<EditView>,
    MergeFailure,
> {
    match o {
        TargetTable::Array(os) => if os.len() == 0 {
            Ok(seq![])
        } else {
            match t {
                TargetTable::NotArray => Err(MergeFailure::TargetNotArray(kind)),
                TargetTable::Absent => then(
                    Ok(seq![EditView::EnsureTargetArray(kind)]),
                    target_edits(target_steps(seq![], os@, kind)),
                ),
                TargetTable::Array(ts) => target_edits(target_steps(targets_view(ts@), os@, kind)),
            }
        },
        _ => Ok(seq![]),
    }
}

/// The plan of a manifest merge: the dependency tables (`dependencies`,
/// `dev-dependencies`, `build-dependencies`), then the target arrays
/// (`bench`, `example`, `test`); the first failure ends the merge.
pub open spec fn spec_merge_plan(t: ManifestModel, o: ManifestModel) -> Result<
    Seq<EditView>,
    MergeFailure,
> {
    then(
        then(
            then(
                dep_table_plan(t.dependencies, o.dependencies, DepKind::Dependencies),
                dep_table_plan(t.dev_dependencies, o.dev_dependencies, DepKind::DevDependencies),
            ),
            dep_table_plan(t.build_dependencies, o.build_dependencies, DepKind::BuildDependencies),
        ),
        then(
            then(
                target_table_plan(t.bench, o.bench, TargetKind::Bench),
                target_table_plan(t.example, o.example, TargetKind::Example),
            ),
            target_table_plan(t.test, o.test, TargetKind::Test),
        ),
    )
}

fn find_dep(ts: &Vec<DepEntry>, name: &str) -> (r: Option<usize>)
    ensures
        r matches Some(i) ==> i < ts.len() && dep_index(ts@, name@, 0) == Some(i as int),
        r is None ==> dep_index(ts@, name@, 0) is None,
{
    let mut i: usize = 0;
    while i < ts.len()
        invariant
            i <= ts.len(),
            dep_index(ts@, name@, 0) == dep_index(ts@, name@, i as int),
        decreases ts.len() - i,
    {
        if str_eq(ts[i].name.as_str(), name) {
            return Some(i);
        }
        i = i + 1;
    }
    None
}

fn dep_step_exec(ts: &Vec<DepEntry>, o: &DepEntry, kind: DepKind) -> (r: Result<
    Vec<ManifestEdit>,
    MergeConflict,
>)
    ensures
        plan_view(r) == dep_step(ts@, *o, kind),
{
    let mut out: Vec<ManifestEdit> = Vec::new();
    match find_dep(ts, o.name.as_str()) {
        None => {
            out.push(ManifestEdit::InsertDep(kind, o.name.clone()));
            assert(edits_view(out@) =~= seq![EditView::InsertDep(kind, o.name@)]);
            Ok(out)
        },
        Some(i) => {
            let e = &ts[i];
            if str_eq(e.rendered.as_str(), o.rendered.as_str()) {
                assert(edits_view(out@) =~= Seq::<EditView>::empty());
                return Ok(out);
            }
            match merge_dep_spec(e, o) {
                DepAction::Conflict => Err(
                    MergeConflict::DepConflict(o.name.clone(), e.rendered.clone(), o.rendered.clone()),
                ),
                DepAction::Unchanged => {
                    assert(edits_view(out@) =~= Seq::<EditView>::empty());
                    Ok(out)
                },
                DepAction::SetFeatures(f) => {
                    let ghost fv = views(f@);
                    out.push(ManifestEdit::SetFeatures(kind, o.name.clone(), f));
                    assert(edits_view(out@) =~= seq![EditView::SetFeatures(kind, o.name@, fv)]);
                    Ok(out)
                },
                DepAction::Adopt => {
                    out.push(ManifestEdit::AdoptDep(kind, o.name.clone()));
                    assert(edits_view(out@) =~= seq![EditView::AdoptDep(kind, o.name@)]);
                    Ok(out)
                },
            }
        },
    }
}

proof fn lemma_dep_steps_err(ts: Seq<DepEntry>, os: Seq<DepEntry>, kind: DepKind, i: int, j: int)
    requires
        0 <= i <= j <= os.len(),
        dep_steps(ts, os.take(i), kind) is Err,
    ensures
        dep_steps(ts, os.take(j), kind) == dep_steps(ts, os.take(i), kind),
    decreases j - i,
{
    if j > i {
        lemma_dep_steps_err(ts, os, kind, i, j - 1);
        assert(os.take(j).drop_last() =~= os.take(j - 1));
    }
}

/// Appends the edits that merging the overlay entries `os` into the
/// project entries `ts` calls for.
fn dep_steps_exec(ts: &Vec<DepEntry>, os: &Vec<DepEntry>, kind: DepKind, out: &mut Vec<ManifestEdit>) -> (r: Result<(), MergeConflict>)
    ensures
        match dep_steps(ts@, os@, kind) {
            Ok(es) => r is Ok && edits_view(final(out)@) == edits_view(old(out)@) + es,
            Err(f) => r matches Err(c) && failure_view(c) == f,
        },
{
    let ghost start = edits_view(out@);
    let mut i: usize = 0;
    assert(os@.take(0) =~= Seq::<DepEntry>::empty());
    assert(start + Seq::<EditView>::empty() =~= start);
    while i < os.len()
        invariant
            i <= os.len(),
            dep_steps(ts@, os@.take(i as int), kind) matches Ok(es) && edits_view(out@) == start + es,
        decreases os.len() - i,
    {
        let ghost prev = edits_view(out@);
        assert(os@.take(i + 1).drop_last() =~= os@.take(i as int));
        assert(os@.take(i + 1).last() == os@[i as int]);
        match dep_step_exec(ts, &os[i], kind) {
            Err(c) => {
                proof {
                    lemma_dep_steps_err(ts@, os@, kind, i + 1, os.len() as int);
                    assert(os@.take(os.len() as int) =~= os@);
                }
                return Err(c);
            },
            Ok(es) => {
                append_edits(out, &es);
                proof {
                    let e1 = dep_steps(ts@, os@.take(i as int), kind)->Ok_0;
                    assert(prev == start + e1);
                    assert(edits_view(out@) =~= start + (e1 + edits_view(es@)));
                }
            },
        }
        i = i + 1;
    }
    assert(os@.take(os.len() as int) =~= os@);
    Ok(())
}

fn append_edits(out: &mut Vec<ManifestEdit>, es: &Vec<ManifestEdit>)
    ensures
        edits_view(final(out)@) == edits_view(old(out)@) + edits_view(es@),
{
    let ghost start = out@;
    let mut k: usize = 0;
    while k < es.len()
        invariant
            k <= es.len(),
            out@.len() == start.len() + k,
            forall|j: int| 0 <= j < start.len() ==> (#[trigger] out@[j]) == start[j],
            forall|j: int| 0 <= j < k ==> edit_view(#[trigger] out@[start.len() + j]) == edit_view(es@[j]),
        decreases es.len() - k,
    {
        out.push(es[k].clone_edit());
        k = k + 1;
    }
    assert forall|j: int| 0 <= j < out@.len() implies edits_view(out@)[j] == (edits_view(start) + edits_view(es@))[j] by {
        if j >= start.len() {
            assert(edit_view(out@[start.len() + (j - start.len())]) == edit_view(es@[j - start.len()]));
        }
    }
    assert(edits_view(out@) =~= edits_view(start) + edits_view(es@));
}

impl ManifestEdit {
    /// A copy of this edit.
    pub fn clone_edit(&self) -> (r: ManifestEdit)
        ensures
            edit_view(r) == edit_view(*self),
    {
        match self {
            ManifestEdit::EnsureDepTable(k) => ManifestEdit::EnsureDepTable(*k),
            ManifestEdit::InsertDep(k, n) => ManifestEdit::InsertDep(*k, n.clone()),
            ManifestEdit::SetFeatures(k, n, f) => {
                let mut g: Vec<String> = Vec::new();
                let mut i: usize = 0;
                while i < f.len()
                    invariant
                        i <= f.len(),
                        g@.len() == i,
                        forall|j: int| 0 <= j < i ==> (#[trigger] g@[j])@ == f@[j]@,
                    decreases f.len() - i,
                {
                    g.push(f[i].clone());
                    i = i + 1;
                }
                assert(views(g@) =~= views(f@));
                ManifestEdit::SetFeatures(*k, n.clone(), g)
            },
            ManifestEdit::AdoptDep(k, n) => ManifestEdit::AdoptDep(*k, n.clone()),
            ManifestEdit::EnsureTargetArray(k) => ManifestEdit::EnsureTargetArray(*k),
            ManifestEdit::PushTarget(k, i) => ManifestEdit::PushTarget(*k, *i),
        }
    }
}

fn name_of(e: &TargetEntry) -> (r: String)
    ensures
        r@ == target_name(*e),
{
    match &e.name {
        Some(n) => n.clone(),
        None => String::new(),
    }
}

fn targets_pairs(ts: &Vec<TargetEntry>) -> (r: Vec<(String, String)>)
    ensures
        pairs_view(r@) == targets_view(ts@),
{
    let mut out: Vec<(String, String)> = Vec::new();
    let mut i: usize = 0;
    while i < ts.len()
        invariant
            i <= ts.len(),
            out@.len() == i,
            forall|j: int|
                0 <= j < i ==> ((#[trigger] out@[j]).0@, out@[j].1@) == (
                    target_name(ts@[j]),
                    ts@[j].rendered@,
                ),
        decreases ts.len() - i,
    {
        out.push((name_of(&ts[i]), ts[i].rendered.clone()));
        i = i + 1;
    }
    assert(pairs_view(out@) =~= targets_view(ts@));
    out
}

fn target_pos(cur: &Vec<(String, String)>, name: &str) -> (r: Option<usize>)
    ensures
        r matches Some(i) ==> i < cur.len() && target_index(pairs_view(cur@), name@, 0) == Some(
            i as int,
        ),
        r is None ==> target_index(pairs_view(cur@), name@, 0) is None,
{
    let ghost pv = pairs_view(cur@);
    let mut i: usize = 0;
    while i < cur.len()
        invariant
            i <= cur.len(),
            pv == pairs_view(cur@),
            target_index(pv, name@, 0) == target_index(pv, name@, i as int),
        decreases cur.len() - i,
    {
        assert(pv[i as int].0 == cur@[i as int].0@);
        if str_eq(cur[i].0.as_str(), name) {
            return Some(i);
        }
        i = i + 1;
    }
    None
}

proof fn lemma_target_steps_err(
    cur: Seq<(Seq<char>, Seq<char>)>,
    os: Seq<TargetEntry>,
    kind: TargetKind,
    i: int,
    j: int,
)
    requires
        0 <= i <= j <= os.len(),
        target_steps(cur, os.take(i), kind) is Err,
    ensures
        target_steps(cur, os.take(j), kind) == target_steps(cur, os.take(i), kind),
    decreases j - i,
{
    if j > i {
        lemma_target_steps_err(cur, os, kind, i, j - 1);
        assert(os.take(j).drop_last() =~= os.take(j - 1));
    }
}

/// Appends the edits that merging the overlay targets `os` into the
/// targets `cur` calls for.
fn target_steps_exec(
    cur: Vec<(String, String)>,
    os: &Vec<TargetEntry>,
    kind: TargetKind,
    out: &mut Vec<ManifestEdit>,
) -> (r: Result<(), MergeConflict>)
    ensures
        match target_steps(pairs_view(cur@), os@, kind) {
            Ok((es, _)) => r is Ok && edits_view(final(out)@) == edits_view(old(out)@) + es,
            Err(f) => r matches Err(c) && failure_view(c) == f,
        },
{
    let ghost cur0 = pairs_view(cur@);
    let ghost start = edits_view(out@);
    let mut now = cur;
    let mut i: usize = 0;
    assert(os@.take(0) =~= Seq::<TargetEntry>::empty());
    assert(start + Seq::<EditView>::empty() =~= start);
    while i < os.len()
        invariant
            i <= os.len(),
            cur0 == pairs_view(cur@),
            target_steps(cur0, os@.take(i as int), kind) matches Ok((es, v)) && edits_view(out@)
                == start + es && v == pairs_view(now@),
        decreases os.len() - i,
    {
        assert(os@.take(i + 1).drop_last() =~= os@.take(i as int));
        assert(os@.take(i + 1).last() == os@[i as int]);
        let ghost prev_vec = out@;
        let ghost es0 = target_steps(cur0, os@.take(i as int), kind)->Ok_0.0;
        let ghost v0 = target_steps(cur0, os@.take(i as int), kind)->Ok_0.1;
        assert(edits_view(prev_vec) == start + es0);
        assert(v0 == pairs_view(now@));
        let o = &os[i];
        let name = name_of(o);
        match target_pos(&now, name.as_str()) {
            None => {
                out.push(ManifestEdit::PushTarget(kind, i));
                assert(edits_view(out@) =~= edits_view(prev_vec).push(EditView::PushTarget(kind, i as int)));
                let ghost before = now@;
                now.push((name, o.rendered.clone()));
                assert(pairs_view(now@) =~= pairs_view(before).push((target_name(*o), o.rendered@)));
                assert(edits_view(out@) =~= start + es0.push(EditView::PushTarget(kind, i as int)));
            },
            Some(p) => {
                assert(v0[p as int].1 == now@[p as int].1@);
                if !str_eq(now[p].1.as_str(), o.rendered.as_str()) {
                    proof {
                        assert(target_steps(cur0, os@.take(i + 1), kind) == Err::<(Seq<EditView>, Seq<(Seq<char>, Seq<char>)>), MergeFailure>(
                            MergeFailure::TargetConflict(kind, name@),
                        ));
                        lemma_target_steps_err(cur0, os@, kind, i + 1, os.len() as int);
                        assert(os@.take(os.len() as int) =~= os@);
                        assert(target_steps(cur0, os@, kind) == Err::<(Seq<EditView>, Seq<(Seq<char>, Seq<char>)>), MergeFailure>(
                            MergeFailure::TargetConflict(kind, name@),
                        ));
                    }
                    let c = MergeConflict::TargetConflict(kind, name);
                    assert(failure_view(c) == MergeFailure::TargetConflict(kind, name@));
                    return Err(c);
                }
            },
        }
        i = i + 1;
    }
    assert(os@.take(os.len() as int) =~= os@);
    Ok(())
}

/// Appends the edits for one dependency table.
fn dep_table_exec(t: &DepTable, o: &DepTable, kind: DepKind, out: &mut Vec<ManifestEdit>) -> (r: Result<(), MergeConflict>)
    ensures
        match dep_table_plan(*t, *o, kind) {
            Ok(es) => r is Ok && edits_view(final(out)@) == edits_view(old(out)@) + es,
            Err(f) => r matches Err(c) && failure_view(c) == f,
        },
{
    match o {
        DepTable::Table(os) => match t {
            DepTable::NotTable => Err(MergeConflict::DepNotTable(kind)),
            DepTable::Absent => {
                let ghost start = edits_view(out@);
                out.push(ManifestEdit::EnsureDepTable(kind));
                assert(edits_view(out@) =~= start + seq![EditView::EnsureDepTable(kind)]);
                let empty: Vec<DepEntry> = Vec::new();
                let r = dep_steps_exec(&empty, os, kind, out);
                proof {
                    assert(empty@ =~= Seq::<DepEntry>::empty());
                    if let Ok(es) = dep_steps(seq![], os@, kind) {
                        assert(start + seq![EditView::EnsureDepTable(kind)] + es =~= start + (seq![
                            EditView::EnsureDepTable(kind)
                        ] + es));
                    }
                }
                r
            },
            DepTable::Table(ts) => dep_steps_exec(ts, os, kind, out),
        },
        _ => {
            assert(edits_view(out@) =~= edits_view(out@) + Seq::<EditView>::empty());
            Ok(())
        },
    }
}

/// Appends the edits for one target array.
fn target_table_exec(t: &TargetTable, o: &TargetTable, kind: TargetKind, out: &mut Vec<ManifestEdit>) -> (r: Result<(), MergeConflict>)
    ensures
        match target_table_plan(*t, *o, kind) {
            Ok(es) => r is Ok && edits_view(final(out)@) == edits_view(old(out)@) + es,
            Err(f) => r matches Err(c) && failure_view(c) == f,
        },
{
    match o {
        TargetTable::Array(os) => {
            if os.len() == 0 {
                assert(edits_view(out@) =~= edits_view(out@) + Seq::<EditView>::empty());
                return Ok(());
            }
            match t {
                TargetTable::NotArray => Err(MergeConflict::TargetNotArray(kind)),
                TargetTable::Absent => {
                    let ghost start = edits_view(out@);
                    out.push(ManifestEdit::EnsureTargetArray(kind));
                    assert(edits_view(out@) =~= start + seq![EditView::EnsureTargetArray(kind)]);
                    let empty: Vec<(String, String)> = Vec::new();
                    assert(pairs_view(empty@) =~= Seq::<(Seq<char>, Seq<char>)>::empty());
                    let r = target_steps_exec(empty, os, kind, out);
                    proof {
                        if let Ok((es, _)) = target_steps(seq![], os@, kind) {
                            assert(start + seq![EditView::EnsureTargetArray(kind)] + es =~= start + (
                            seq![EditView::EnsureTargetArray(kind)] + es));
                        }
                    }
                    r
                },
                TargetTable::Array(ts) => target_steps_exec(targets_pairs(ts), os, kind, out),
            }
        },
        _ => {
            assert(edits_view(out@) =~= edits_view(out@) + Seq::<EditView>::empty());
            Ok(())
        },
    }
}

/// Plan the merge of an overlay manifest into the project manifest.
///
/// Dependency entries missing from the project are added; identical
/// entries are skipped; differing entries merge their features when that
/// is all that differs and fail otherwise. Targets merge by name: missing
/// entries are added, identical entries skipped, conflicting ones fail.
/// Every other overlay section is ignored.
pub fn plan_manifest_merge(target: &ManifestModel, overlay: &ManifestModel) -> (r: Result<
    Vec<ManifestEdit>,
    MergeConflict,
>)
    ensures
        plan_view(r) == spec_merge_plan(*target, *overlay),
{
    let mut out: Vec<ManifestEdit> = Vec::new();
    let ghost e0 = edits_view(out@);
    assert(e0 =~= Seq::<EditView>::empty());
    let ghost p1 = dep_table_plan(target.dependencies, overlay.dependencies, DepKind::Dependencies);
    let ghost p2 = dep_table_plan(target.dev_dependencies, overlay.dev_dependencies, DepKind::DevDependencies);
    let ghost p3 = dep_table_plan(target.build_dependencies, overlay.build_dependencies, DepKind::BuildDependencies);
    let ghost p4 = target_table_plan(target.bench, overlay.bench, TargetKind::Bench);
    let ghost p5 = target_table_plan(target.example, overlay.example, TargetKind::Example);
    let ghost p6 = target_table_plan(target.test, overlay.test, TargetKind::Test);
    if let Err(c) = dep_table_exec(&target.dependencies, &overlay.dependencies, DepKind::Dependencies, &mut out) {
        return Err(c);
    }
    if let Err(c) = dep_table_exec(&target.dev_dependencies, &overlay.dev_dependencies, DepKind::DevDependencies, &mut out) {
        return Err(c);
    }
    if let Err(c) = dep_table_exec(&target.build_dependencies, &overlay.build_dependencies, DepKind::BuildDependencies, &mut out) {
        return Err(c);
    }
    let ghost deps_done = edits_view(out@);
    assert(then(then(p1, p2), p3) == Ok::<Seq<EditView>, MergeFailure>(deps_done)) by {
        assert(deps_done =~= p1->Ok_0 + p2->Ok_0 + p3->Ok_0);
    }
    if let Err(c) = target_table_exec(&target.bench, &overlay.bench, TargetKind::Bench, &mut out) {
        return Err(c);
    }
    if let Err(c) = target_table_exec(&target.example, &overlay.example, TargetKind::Example, &mut out) {
        return Err(c);
    }
    if let Err(c) = target_table_exec(&target.test, &overlay.test, TargetKind::Test, &mut out) {
        return Err(c);
    }
    assert(edits_view(out@) =~= deps_done + (p4->Ok_0 + p5->Ok_0 + p6->Ok_0));
    Ok(out)
}


// ---------------------------------------------------------------------------
// Failures as errors
// ---------------------------------------------------------------------------

/// The text `{:?}` gives for a string: quoted, with escapes.
pub uninterp spec fn debug_quoted(s: Seq<char>) -> Seq<char>;

/// A string formatted with `{:?}` (`<str as Debug>::fmt`).
#[verifier::external_body]
fn debug_str(s: &str) -> (r: String)
    ensures
        r@ == debug_quoted(s@),
{
    format!("{:?}", s)
}

/// The message of a failed merge; `overlay` is the overlay manifest's path.
pub open spec fn failure_detail(f: MergeFailure, overlay: Seq<char>) -> Seq<char> {
    match f {
        MergeFailure::DepNotTable(k) => "project Cargo.toml ["@ + spec_dep_key(k)
            + "] is not a table"@,
        MergeFailure::DepConflict(n, e, o) => "dependency conflict on '"@ + n
            + "': project requires "@ + e + " but overlay '"@ + overlay + "' requires "@ + o,
        MergeFailure::TargetNotArray(k) => "project Cargo.toml [["@ + spec_target_key(k)
            + "]] is not an array of tables"@,
        MergeFailure::TargetConflict(k, n) => "conflicting [["@ + spec_target_key(k) + "]] "@
            + debug_quoted(n) + " in overlay '"@ + overlay + "'"@,
    }
}

/// The error a failed merge reports: the project manifest at `target`
/// cannot be materialised, for the reason the failure gives.
pub fn merge_error(c: &MergeConflict, target: &str, overlay: &str) -> (r: EngineError)
    ensures
        r matches EngineError::TemplateMaterialize { path, detail } && path@ == target@ && detail@
            == failure_detail(failure_view(*c), overlay@),
{
    let mut d = String::new();
    match c {
        MergeConflict::DepNotTable(k) => {
            push_str(&mut d, "project Cargo.toml [");
            push_str(&mut d, dep_table_key(*k));
            push_str(&mut d, "] is not a table");
        },
        MergeConflict::DepConflict(n, e, o) => {
            push_str(&mut d, "dependency conflict on '");
            push_str(&mut d, n.as_str());
            push_str(&mut d, "': project requires ");
            push_str(&mut d, e.as_str());
            push_str(&mut d, " but overlay '");
            push_str(&mut d, overlay);
            push_str(&mut d, "' requires ");
            push_str(&mut d, o.as_str());
        },
        MergeConflict::TargetNotArray(k) => {
            push_str(&mut d, "project Cargo.toml [[");
            push_str(&mut d, target_table_key(*k));
            push_str(&mut d, "]] is not an array of tables");
        },
        MergeConflict::TargetConflict(k, n) => {
            push_str(&mut d, "conflicting [[");
            push_str(&mut d, target_table_key(*k));
            push_str(&mut d, "]] ");
            push_str(&mut d, debug_str(n.as_str()).as_str());
            push_str(&mut d, " in overlay '");
            push_str(&mut d, overlay);
            push_str(&mut d, "'");
        },
    }
    assert(d@ =~= failure_detail(failure_view(*c), overlay@));
    EngineError::TemplateMaterialize { path: target.to_owned(), detail: d }
}


// ---------------------------------------------------------------------------
// Laws: features unite once, and merging twice changes nothing
// ---------------------------------------------------------------------------

proof fn lemma_union_keeps(x: Seq<Seq<char>>, y: Seq<Seq<char>>)
    ensures
        forall|k: int| 0 <= k < x.len() ==> union_features(x, y).contains(#[trigger] x[k]),
    decreases y.len(),
{
    if y.len() > 0 {
        if x.contains(y[0]) {
            lemma_union_keeps(x, y.drop_first());
        } else {
            lemma_union_keeps(x.push(y[0]), y.drop_first());
            assert forall|k: int| 0 <= k < x.len() implies union_features(x, y).contains(
                #[trigger] x[k],
            ) by {
                assert(x.push(y[0])[k] == x[k]);
            }
        }
    }
}

proof fn lemma_union_covers(x: Seq<Seq<char>>, y: Seq<Seq<char>>)
    ensures
        forall|k: int| 0 <= k < y.len() ==> union_features(x, y).contains(#[trigger] y[k]),
    decreases y.len(),
{
    if y.len() > 0 {
        let x2 = if x.contains(y[0]) {
            x
        } else {
            x.push(y[0])
        };
        assert(x2.contains(y[0])) by {
            if !x.contains(y[0]) {
                assert(x2[x.len() as int] == y[0]);
            }
        }
        lemma_union_covers(x2, y.drop_first());
        lemma_union_keeps(x2, y.drop_first());
        let u = union_features(x, y);
        assert(u == union_features(x2, y.drop_first()));
        assert forall|k: int| 0 <= k < y.len() implies u.contains(#[trigger] y[k]) by {
            if k == 0 {
                let w = choose|w: int| 0 <= w < x2.len() && x2[w] == y[0];
                assert(u.contains(x2[w]));
            } else {
                assert(y[k] == y.drop_first()[k - 1]);
            }
        }
    }
}

proof fn lemma_union_absorbs(x: Seq<Seq<char>>, y: Seq<Seq<char>>)
    requires
        forall|k: int| 0 <= k < y.len() ==> x.contains(#[trigger] y[k]),
    ensures
        union_features(x, y) == x,
    decreases y.len(),
{
    if y.len() > 0 {
        assert(x.contains(y[0]));
        assert forall|k: int| 0 <= k < y.drop_first().len() implies x.contains(
            #[trigger] y.drop_first()[k],
        ) by {
            assert(y.drop_first()[k] == y[k + 1]);
        }
        lemma_union_absorbs(x, y.drop_first());
    }
}

/// Uniting features a second time with the same features changes nothing:
/// every feature of `extra` is already there.
pub proof fn features_unite_once(existing: Seq<Seq<char>>, extra: Seq<Seq<char>>)
    ensures
        union_features(union_features(existing, extra), extra) == union_features(existing, extra),
        forall|k: int| 0 <= k < existing.len() ==> union_features(existing, extra).contains(
            #[trigger] existing[k],
        ),
        forall|k: int| 0 <= k < extra.len() ==> union_features(existing, extra).contains(
            #[trigger] extra[k],
        ),
{
    lemma_union_keeps(existing, extra);
    lemma_union_covers(existing, extra);
    lemma_union_absorbs(union_features(existing, extra), extra);
}

/// Whether no element of `s` occurs twice.
pub open spec fn no_repeats(s: Seq<Seq<char>>) -> bool {
    forall|i: int, j: int| 0 <= i < j < s.len() ==> s[i] != s[j]
}

/// Uniting adds each missing feature once: when the existing features do
/// not repeat, neither does the union, whatever `extra` holds.
pub proof fn union_adds_each_once(existing: Seq<Seq<char>>, extra: Seq<Seq<char>>)
    requires
        no_repeats(existing),
    ensures
        no_repeats(union_features(existing, extra)),
    decreases extra.len(),
{
    if extra.len() > 0 {
        if existing.contains(extra[0]) {
            union_adds_each_once(existing, extra.drop_first());
        } else {
            let x2 = existing.push(extra[0]);
            assert(no_repeats(x2)) by {
                assert forall|i: int, j: int| 0 <= i < j < x2.len() implies x2[i] != x2[j] by {
                    if j == existing.len() {
                        assert(x2[i] == existing[i]);
                    }
                }
            }
            union_adds_each_once(x2, extra.drop_first());
        }
    }
}

/// The project's first entry named `name`, if it has one.
pub open spec fn entry_named(ts: Seq<DepEntry>, name: Seq<char>) -> Option<DepEntry> {
    match dep_index(ts, name, 0) {
        Some(i) => Some(ts[i]),
        None => None,
    }
}

/// `new` is the inline table `old` with its features set to `f`: the same
/// version requirement and other keys, and the features `f`.
pub open spec fn features_set(old: DepItem, new: DepItem, f: Seq<Seq<char>>) -> bool {
    &&& old is Inline
    &&& new is Inline
    &&& dep_version(new) == dep_version(old)
    &&& rest_pairs(new->Inline_0@) == rest_pairs(old->Inline_0@)
    &&& dep_features(new) == f
}

/// What the merge leaves under an overlay dependency's name, given the
/// project's entry `e` for it: the overlay entry when the project lacked it
/// or adopts it, the project's entry when it is identical or unchanged, and
/// the project's entry with the united features otherwise.
pub open spec fn dep_entry_after(e: Option<DepEntry>, o: DepEntry, a: DepEntry) -> bool {
    match e {
        None => a == o,
        Some(e) => if e.rendered@ == o.rendered@ {
            a == e
        } else {
            match dep_decision(e, o) {
                DepDecision::Unchanged => a == e,
                DepDecision::Adopt => a == o,
                DepDecision::SetFeatures(f) => a.name@ == e.name@ && features_set(e.item, a.item, f),
                DepDecision::Conflict => false,
            }
        }
    }
}

/// Whether `after` holds the overlay entries `os` merged into `ts`: under
/// each overlay name stands what the merge leaves there.
pub open spec fn dep_table_merged(ts: Seq<DepEntry>, os: Seq<DepEntry>, after: Seq<DepEntry>) -> bool {
    forall|i: int|
        0 <= i < os.len() ==> match #[trigger] dep_index(after, os[i].name@, 0) {
            Some(j) => dep_entry_after(entry_named(ts, os[i].name@), os[i], after[j]),
            None => false,
        }
}

proof fn lemma_dep_steps_each(ts: Seq<DepEntry>, os: Seq<DepEntry>, kind: DepKind, i: int)
    requires
        dep_steps(ts, os, kind) is Ok,
        0 <= i < os.len(),
    ensures
        dep_step(ts, os[i], kind) is Ok,
    decreases os.len(),
{
    if i < os.len() - 1 {
        assert(os.drop_last()[i] == os[i]);
        lemma_dep_steps_each(ts, os.drop_last(), kind, i);
    }
}

proof fn lemma_dep_step_again(ts: Seq<DepEntry>, after: Seq<DepEntry>, o: DepEntry, kind: DepKind)
    requires
        dep_step(ts, o, kind) is Ok,
        match dep_index(after, o.name@, 0) {
            Some(j) => dep_entry_after(entry_named(ts, o.name@), o, after[j]),
            None => false,
        },
    ensures
        dep_step(after, o, kind) == Ok::<Seq<EditView>, MergeFailure>(seq![]),
{
    let j = dep_index(after, o.name@, 0)->0;
    let a = after[j];
    match entry_named(ts, o.name@) {
        None => {},
        Some(e) => {
            if e.rendered@ != o.rendered@ {
                match dep_decision(e, o) {
                    DepDecision::SetFeatures(f) => {
                        let ef = dep_features(e.item);
                        let of = dep_features(o.item);
                        features_unite_once(ef, of);
                        assert(dep_rest(a.item, a.rendered@) == dep_rest(e.item, e.rendered@));
                        assert(dep_decision(a, o) == DepDecision::Unchanged);
                    },
                    _ => {},
                }
            }
        },
    }
}

/// Merging the same overlay dependencies into a table that already holds
/// their merge plans no edit.
pub proof fn dep_merge_is_idempotent(ts: Seq<DepEntry>, os: Seq<DepEntry>, after: Seq<DepEntry>, kind: DepKind)
    requires
        dep_steps(ts, os, kind) is Ok,
        dep_table_merged(ts, os, after),
    ensures
        dep_steps(after, os, kind) == Ok::<Seq<EditView>, MergeFailure>(seq![]),
    decreases os.len(),
{
    if os.len() > 0 {
        let init = os.drop_last();
        assert(dep_table_merged(ts, init, after)) by {
            assert forall|i: int| 0 <= i < init.len() implies match #[trigger] dep_index(
                after,
                init[i].name@,
                0,
            ) {
                Some(j) => dep_entry_after(entry_named(ts, init[i].name@), init[i], after[j]),
                None => false,
            } by {
                assert(init[i] == os[i]);
                assert(dep_index(after, os[i].name@, 0) == dep_index(after, init[i].name@, 0));
            }
        }
        dep_merge_is_idempotent(ts, init, after, kind);
        lemma_dep_steps_each(ts, os, kind, os.len() - 1);
        assert(dep_index(after, os[os.len() - 1].name@, 0) == dep_index(after, os.last().name@, 0));
        lemma_dep_step_again(ts, after, os.last(), kind);
        assert(Seq::<EditView>::empty() + Seq::<EditView>::empty() =~= Seq::<EditView>::empty());
    }
}

/// Appending keeps the first match, and finds the appended entry otherwise.
proof fn lemma_target_index_push(
    s: Seq<(Seq<char>, Seq<char>)>,
    x: (Seq<char>, Seq<char>),
    name: Seq<char>,
    i: int,
)
    requires
        0 <= i <= s.len(),
    ensures
        target_index(s, name, i) is Some ==> target_index(s.push(x), name, i) == target_index(
            s,
            name,
            i,
        ),
        target_index(s, name, i) is None ==> target_index(s.push(x), name, i) == (if x.0 == name {
            Some(s.len() as int)
        } else {
            None
        }),
    decreases s.len() - i,
{
    if i < s.len() {
        assert(s.push(x)[i] == s[i]);
        if s[i].0 != name {
            lemma_target_index_push(s, x, name, i + 1);
        }
    } else {
        assert(s.push(x)[i] == x);
        assert(target_index(s.push(x), name, i + 1) is None);
    }
}

/// After a target merge, every overlay target stands, as declared, under
/// its name.
proof fn lemma_target_steps_found(cur: Seq<(Seq<char>, Seq<char>)>, os: Seq<TargetEntry>, kind: TargetKind)
    requires
        target_steps(cur, os, kind) is Ok,
    ensures
        forall|i: int|
            0 <= i < os.len() ==> (#[trigger] target_index(
                target_steps(cur, os, kind)->Ok_0.1,
                target_name(os[i]),
                0,
            ) matches Some(p) && target_steps(cur, os, kind)->Ok_0.1[p].1 == os[i].rendered@),
    decreases os.len(),
{
    if os.len() > 0 {
        let init = os.drop_last();
        lemma_target_steps_found(cur, init, kind);
        let prev = target_steps(cur, init, kind)->Ok_0.1;
        let now = target_steps(cur, os, kind)->Ok_0.1;
        let o = os.last();
        lemma_target_index(prev, target_name(o), 0);
        assert forall|i: int| 0 <= i < os.len() implies (#[trigger] target_index(
            now,
            target_name(os[i]),
            0,
        ) matches Some(p) && now[p].1 == os[i].rendered@) by {
            if i < os.len() - 1 {
                assert(init[i] == os[i]);
                assert(target_index(prev, target_name(init[i]), 0) is Some);
                if now != prev {
                    lemma_target_index_push(prev, (target_name(o), o.rendered@), target_name(os[i]), 0);
                    let p = target_index(prev, target_name(os[i]), 0)->0;
                    lemma_target_index(prev, target_name(os[i]), 0);
                    assert(now[p] == prev[p]);
                }
            } else {
                if now != prev {
                    lemma_target_index_push(prev, (target_name(o), o.rendered@), target_name(o), 0);
                }
            }
        }
    }
}

/// Merging overlay targets that all stand, as declared, under their names
/// plans nothing and changes nothing.
proof fn lemma_target_steps_again(now: Seq<(Seq<char>, Seq<char>)>, os: Seq<TargetEntry>, kind: TargetKind)
    requires
        forall|i: int|
            0 <= i < os.len() ==> (#[trigger] target_index(now, target_name(os[i]), 0) matches Some(
                p,
            ) && now[p].1 == os[i].rendered@),
    ensures
        target_steps(now, os, kind) == Ok::<
            (Seq<EditView>, Seq<(Seq<char>, Seq<char>)>),
            MergeFailure,
        >((seq![], now)),
    decreases os.len(),
{
    if os.len() > 0 {
        let init = os.drop_last();
        assert forall|i: int| 0 <= i < init.len() implies (#[trigger] target_index(
            now,
            target_name(init[i]),
            0,
        ) matches Some(p) && now[p].1 == init[i].rendered@) by {
            assert(init[i] == os[i]);
        }
        lemma_target_steps_again(now, init, kind);
        assert(os[os.len() - 1] == os.last());
    }
}

/// Merging the same overlay targets into the targets a merge produced plans
/// no edit.
pub proof fn target_merge_is_idempotent(cur: Seq<(Seq<char>, Seq<char>)>, os: Seq<TargetEntry>, kind: TargetKind)
    requires
        target_steps(cur, os, kind) is Ok,
    ensures
        target_steps(target_steps(cur, os, kind)->Ok_0.1, os, kind) == Ok::<
            (Seq<EditView>, Seq<(Seq<char>, Seq<char>)>),
            MergeFailure,
        >((seq![], target_steps(cur, os, kind)->Ok_0.1)),
{
    lemma_target_steps_found(cur, os, kind);
    lemma_target_steps_again(target_steps(cur, os, kind)->Ok_0.1, os, kind);
}

/// A target found at `k`, with no target of that name before it, is the one
/// the search from `i` finds.
proof fn lemma_target_index_first(cur: Seq<(Seq<char>, Seq<char>)>, name: Seq<char>, i: int, k: int)
    requires
        0 <= i <= k < cur.len(),
        cur[k].0 == name,
        forall|j: int| i <= j < k ==> cur[j].0 != name,
    ensures
        target_index(cur, name, i) == Some(k),
    decreases k - i,
{
    if i < k {
        lemma_target_index_first(cur, name, i + 1, k);
    }
}

/// Overlay targets are merged one at a time, in order. After the earlier
/// ones, a target whose name the table does not hold yet is appended (by an
/// edit that pushes it); one declared as the first present target of that
/// name is skipped; one declared otherwise fails with a conflict that names
/// the table and the target. A failure of an earlier target ends the merge.
pub proof fn targets_merge_by_name(cur: Seq<(Seq<char>, Seq<char>)>, os: Seq<TargetEntry>, kind: TargetKind)
    requires
        os.len() > 0,
    ensures
        match target_steps(cur, os.drop_last(), kind) {
            Err(f) => target_steps(cur, os, kind) == Err::<
                (Seq<EditView>, Seq<(Seq<char>, Seq<char>)>),
                MergeFailure,
            >(f),
            Ok((es, now)) => {
                let o = os.last();
                let name = target_name(o);
                &&& (forall|j: int| 0 <= j < now.len() ==> now[j].0 != name) ==> target_steps(
                    cur,
                    os,
                    kind,
                ) == Ok::<(Seq<EditView>, Seq<(Seq<char>, Seq<char>)>), MergeFailure>(
                    (
                        es.push(EditView::PushTarget(kind, os.len() - 1)),
                        now.push((name, o.rendered@)),
                    ),
                )
                &&& forall|k: int|
                    0 <= k < now.len() && now[k].0 == name && (forall|j: int|
                        0 <= j < k ==> now[j].0 != name) ==> target_steps(cur, os, kind) == (if now[k].1
                        == o.rendered@ {
                        Ok::<(Seq<EditView>, Seq<(Seq<char>, Seq<char>)>), MergeFailure>((es, now))
                    } else {
                        Err(MergeFailure::TargetConflict(kind, name))
                    })
            },
        },
{
    match target_steps(cur, os.drop_last(), kind) {
        Err(_) => {},
        Ok((es, now)) => {
            let name = target_name(os.last());
            lemma_target_index(now, name, 0);
            assert forall|k: int|
                0 <= k < now.len() && now[k].0 == name && (forall|j: int|
                    0 <= j < k ==> now[j].0 != name) implies target_index(now, name, 0) == Some(
                k,
            ) by {
                lemma_target_index_first(now, name, 0, k);
            }
        },
    }
}

/// Two declarations of one dependency merge additively. They clash exactly
/// when their versions or their other keys differ. Otherwise nothing changes
/// when the project already has every feature that the overlay asks for;
/// else the features are united, the project's first and then each missing
/// one of the overlay, in the project's inline table, or by adopting the
/// overlay's declaration over a bare version.
pub proof fn dependencies_merge_additively(existing: DepEntry, overlay: DepEntry)
    ensures
        ({
            let f1 = dep_features(existing.item);
            let f2 = dep_features(overlay.item);
            let clash = dep_version(existing.item) != dep_version(overlay.item) || dep_rest(
                existing.item,
                existing.rendered@,
            ).to_multiset() != dep_rest(overlay.item, overlay.rendered@).to_multiset();
            &&& (dep_decision(existing, overlay) is Conflict) == clash
            &&& !clash && (forall|k: int| 0 <= k < f2.len() ==> f1.contains(#[trigger] f2[k]))
                ==> dep_decision(existing, overlay) is Unchanged
            &&& !clash && !(forall|k: int| 0 <= k < f2.len() ==> f1.contains(#[trigger] f2[k]))
                ==> dep_decision(existing, overlay) == (if existing.item is Inline {
                DepDecision::SetFeatures(union_features(f1, f2))
            } else {
                DepDecision::Adopt
            })
        }),
{
    let f1 = dep_features(existing.item);
    let f2 = dep_features(overlay.item);
    lemma_union_covers(f1, f2);
    if forall|k: int| 0 <= k < f2.len() ==> f1.contains(#[trigger] f2[k]) {
        lemma_union_absorbs(f1, f2);
    }
}

/// The other keys of an inline dependency table are all of its keys but
/// `version` and `features`, in order, each with its rendered value.
pub proof fn other_keys_are_all_but_version_and_features(kvs: Seq<InlineValue>)
    ensures
        rest_pairs(kvs) == kvs.filter(
            |v: InlineValue| v.key@ != "version"@ && v.key@ != "features"@,
        ).map_values(|v: InlineValue| (v.key@, v.rendered@)),
    decreases kvs.len(),
{
    reveal(Seq::filter);
    if kvs.len() > 0 {
        other_keys_are_all_but_version_and_features(kvs.drop_last());
        let f = kvs.drop_last().filter(
            |v: InlineValue| v.key@ != "version"@ && v.key@ != "features"@,
        );
        assert(f.push(kvs.last()).map_values(|v: InlineValue| (v.key@, v.rendered@))
            =~= f.map_values(|v: InlineValue| (v.key@, v.rendered@)).push(
            (kvs.last().key@, kvs.last().rendered@),
        ));
    }
}

proof fn lemma_rest_has(kvs: Seq<InlineValue>, i: int)
    requires
        0 <= i < kvs.len(),
        kvs[i].key@ != "version"@,
        kvs[i].key@ != "features"@,
    ensures
        rest_pairs(kvs).contains((kvs[i].key@, kvs[i].rendered@)),
    decreases kvs.len(),
{
    if i < kvs.len() - 1 {
        lemma_rest_has(kvs.drop_last(), i);
        let r = rest_pairs(kvs.drop_last());
        let k = choose|k: int| 0 <= k < r.len() && r[k] == (kvs[i].key@, kvs[i].rendered@);
        if !(kvs.last().key@ == "version"@ || kvs.last().key@ == "features"@) {
            assert(r.push((kvs.last().key@, kvs.last().rendered@))[k] == r[k]);
        }
    } else {
        let r = rest_pairs(kvs.drop_last()).push((kvs.last().key@, kvs.last().rendered@));
        assert(r[r.len() - 1] == (kvs[i].key@, kvs[i].rendered@));
    }
}

proof fn lemma_rest_keys(kvs: Seq<InlineValue>, name: Seq<char>)
    requires
        forall|j: int| 0 <= j < kvs.len() ==> (#[trigger] kvs[j]).key@ != name,
    ensures
        forall|k: int| 0 <= k < rest_pairs(kvs).len() ==> (#[trigger] rest_pairs(kvs)[k]).0 != name,
    decreases kvs.len(),
{
    if kvs.len() > 0 {
        assert(kvs.last() == kvs[kvs.len() - 1]);
        assert forall|j: int| 0 <= j < kvs.drop_last().len() implies (
        #[trigger] kvs.drop_last()[j]).key@ != name by {
            assert(kvs.drop_last()[j] == kvs[j]);
        }
        lemma_rest_keys(kvs.drop_last(), name);
        let r = rest_pairs(kvs.drop_last());
        assert forall|k: int| 0 <= k < rest_pairs(kvs).len() implies (#[trigger] rest_pairs(
            kvs,
        )[k]).0 != name by {
            if k < r.len() {
                assert(r[k].0 != name);
            }
        }
    }
}

/// Two inline declarations of one dependency clash when the project's sets
/// a key besides `version` and `features` (such as `default-features`,
/// `path`, `git` or `optional`) that the overlay's does not set at all, or
/// the other way round, whatever their versions and features.
pub proof fn differing_other_keys_clash(existing: DepEntry, overlay: DepEntry, i: int)
    requires
        existing.item is Inline,
        overlay.item is Inline,
        0 <= i < existing.item->Inline_0@.len(),
        existing.item->Inline_0@[i].key@ != "version"@,
        existing.item->Inline_0@[i].key@ != "features"@,
        forall|j: int|
            0 <= j < overlay.item->Inline_0@.len() ==> (#[trigger] overlay.item->Inline_0@[j]).key@
                != existing.item->Inline_0@[i].key@,
    ensures
        dep_decision(existing, overlay) is Conflict,
        dep_decision(overlay, existing) is Conflict,
{
    broadcast use vstd::seq_lib::group_to_multiset_ensures;

    let xs = existing.item->Inline_0@;
    let ys = overlay.item->Inline_0@;
    let p = (xs[i].key@, xs[i].rendered@);
    lemma_rest_has(xs, i);
    lemma_rest_keys(ys, xs[i].key@);
    assert(!rest_pairs(ys).contains(p)) by {
        if rest_pairs(ys).contains(p) {
            let k = choose|k: int| 0 <= k < rest_pairs(ys).len() && rest_pairs(ys)[k] == p;
            assert(rest_pairs(ys)[k].0 != xs[i].key@);
        }
    }
    assert(rest_pairs(xs).to_multiset().count(p) > 0);
    assert(rest_pairs(ys).to_multiset().count(p) == 0);
    assert(dep_rest(existing.item, existing.rendered@) == rest_pairs(xs));
    assert(dep_rest(overlay.item, overlay.rendered@) == rest_pairs(ys));
}

proof fn lemma_dep_index_first(ts: Seq<DepEntry>, name: Seq<char>, i: int, k: int)
    requires
        0 <= i <= k < ts.len(),
        ts[k].name@ == name,
        forall|j: int| i <= j < k ==> ts[j].name@ != name,
    ensures
        dep_index(ts, name, i) == Some(k),
    decreases k - i,
{
    if i < k {
        lemma_dep_index_first(ts, name, i + 1, k);
    }
}

/// One overlay dependency is merged by name: one the project does not
/// declare is inserted; against the first project entry of that name, one
/// declared the same way is left alone, and one whose declaration clashes
/// fails with a conflict naming the dependency and both declarations.
pub proof fn overlay_dependency_is_inserted_or_matched(ts: Seq<DepEntry>, o: DepEntry, kind: DepKind)
    ensures
        (forall|j: int| 0 <= j < ts.len() ==> (#[trigger] ts[j]).name@ != o.name@) ==> dep_step(
            ts,
            o,
            kind,
        ) == Ok::<Seq<EditView>, MergeFailure>(seq![EditView::InsertDep(kind, o.name@)]),
        forall|k: int|
            0 <= k < ts.len() && (#[trigger] ts[k]).name@ == o.name@ && (forall|j: int|
                0 <= j < k ==> ts[j].name@ != o.name@) ==> {
                &&& ts[k].rendered@ == o.rendered@ ==> dep_step(ts, o, kind) == Ok::<
                    Seq<EditView>,
                    MergeFailure,
                >(seq![])
                &&& ts[k].rendered@ != o.rendered@ && dep_decision(ts[k], o) is Conflict ==> dep_step(
                    ts,
                    o,
                    kind,
                ) == Err::<Seq<EditView>, MergeFailure>(
                    MergeFailure::DepConflict(o.name@, ts[k].rendered@, o.rendered@),
                )
            },
{
    lemma_dep_index(ts, o.name@, 0);
    assert forall|k: int|
        0 <= k < ts.len() && (#[trigger] ts[k]).name@ == o.name@ && (forall|j: int|
            0 <= j < k ==> ts[j].name@ != o.name@) implies dep_index(ts, o.name@, 0) == Some(k) by {
        lemma_dep_index_first(ts, o.name@, 0, k);
    }
}

/// Every overlay dependency that the project's table does not declare is
/// inserted by a merge of the table that succeeds.
pub proof fn missing_dependencies_are_inserted(ts: Seq<DepEntry>, os: Seq<DepEntry>, kind: DepKind)
    ensures
        dep_steps(ts, os, kind) matches Ok(es) ==> forall|k: int|
            0 <= k < os.len() && (forall|j: int| 0 <= j < ts.len() ==> (#[trigger] ts[j]).name@
                != (#[trigger] os[k]).name@) ==> es.contains(EditView::InsertDep(kind, os[k].name@)),
    decreases os.len(),
{
    if os.len() > 0 {
        missing_dependencies_are_inserted(ts, os.drop_last(), kind);
        if dep_steps(ts, os, kind) is Ok {
            let es = dep_steps(ts, os, kind)->Ok_0;
            let e1 = dep_steps(ts, os.drop_last(), kind)->Ok_0;
            let e2 = dep_step(ts, os.last(), kind)->Ok_0;
            assert(es == e1 + e2);
            assert forall|k: int|
                0 <= k < os.len() && (forall|j: int| 0 <= j < ts.len() ==> (#[trigger] ts[j]).name@
                    != (#[trigger] os[k]).name@) implies es.contains(
                EditView::InsertDep(kind, os[k].name@),
            ) by {
                if k < os.len() - 1 {
                    assert(os.drop_last()[k] == os[k]);
                    assert(e1.contains(EditView::InsertDep(kind, os[k].name@)));
                    let m = choose|m: int| 0 <= m < e1.len() && e1[m] == EditView::InsertDep(kind, os[k].name@);
                    assert(es[m] == e1[m]);
                } else {
                    assert(os.last() == os[k]);
                    overlay_dependency_is_inserted_or_matched(ts, os[k], kind);
                    assert(es[e1.len() as int] == e2[0]);
                }
            }
        }
    }
}

/// Whether the dependency table `after` holds the merge of `o` into `t`.
pub open spec fn dep_table_merged_into(t: DepTable, o: DepTable, after: DepTable) -> bool {
    match o {
        DepTable::Table(os) => match after {
            DepTable::Table(xs) => match t {
                DepTable::Absent => dep_table_merged(seq![], os@, xs@),
                DepTable::Table(ts) => dep_table_merged(ts@, os@, xs@),
                DepTable::NotTable => false,
            },
            _ => false,
        },
        _ => true,
    }
}

/// Whether the target array `after` holds the merge of `o` into `t`.
pub open spec fn target_table_merged_into(
    t: TargetTable,
    o: TargetTable,
    after: TargetTable,
    kind: TargetKind,
) -> bool {
    match o {
        TargetTable::Array(os) => if os.len() == 0 {
            true
        } else {
            match after {
                TargetTable::Array(xs) => match t {
                    TargetTable::Absent => target_steps(seq![], os@, kind) matches Ok((_, now))
                        && targets_view(xs@) == now,
                    TargetTable::Array(ts) => target_steps(targets_view(ts@), os@, kind) matches Ok(
                        (_, now),
                    ) && targets_view(xs@) == now,
                    TargetTable::NotArray => false,
                },
                _ => false,
            }
        },
        _ => true,
    }
}

/// Whether the manifest `after` holds the merge of `o` into `t`, table by
/// table and array by array.
pub open spec fn manifest_merged(t: ManifestModel, o: ManifestModel, after: ManifestModel) -> bool {
    &&& dep_table_merged_into(t.dependencies, o.dependencies, after.dependencies)
    &&& dep_table_merged_into(t.dev_dependencies, o.dev_dependencies, after.dev_dependencies)
    &&& dep_table_merged_into(t.build_dependencies, o.build_dependencies, after.build_dependencies)
    &&& target_table_merged_into(t.bench, o.bench, after.bench, TargetKind::Bench)
    &&& target_table_merged_into(t.example, o.example, after.example, TargetKind::Example)
    &&& target_table_merged_into(t.test, o.test, after.test, TargetKind::Test)
}

proof fn lemma_dep_table_again(t: DepTable, o: DepTable, after: DepTable, kind: DepKind)
    requires
        dep_table_plan(t, o, kind) is Ok,
        dep_table_merged_into(t, o, after),
    ensures
        dep_table_plan(after, o, kind) == Ok::<Seq<EditView>, MergeFailure>(seq![]),
{
    match o {
        DepTable::Table(os) => match after {
            DepTable::Table(xs) => match t {
                DepTable::Absent => {
                    assert(dep_steps(seq![], os@, kind) is Ok);
                    dep_merge_is_idempotent(seq![], os@, xs@, kind);
                },
                DepTable::Table(ts) => {
                    dep_merge_is_idempotent(ts@, os@, xs@, kind);
                },
                DepTable::NotTable => {},
            },
            _ => {},
        },
        _ => {},
    }
}

proof fn lemma_target_table_again(t: TargetTable, o: TargetTable, after: TargetTable, kind: TargetKind)
    requires
        target_table_plan(t, o, kind) is Ok,
        target_table_merged_into(t, o, after, kind),
    ensures
        target_table_plan(after, o, kind) == Ok::<Seq<EditView>, MergeFailure>(seq![]),
{
    match o {
        TargetTable::Array(os) => if os.len() > 0 {
            match after {
                TargetTable::Array(xs) => match t {
                    TargetTable::Absent => {
                        target_merge_is_idempotent(seq![], os@, kind);
                    },
                    TargetTable::Array(ts) => {
                        target_merge_is_idempotent(targets_view(ts@), os@, kind);
                    },
                    TargetTable::NotArray => {},
                },
                _ => {},
            }
        },
        _ => {},
    }
}

/// Merging an overlay manifest into a manifest that already holds its
/// merge changes nothing: the second merge succeeds and plans no edit.
pub proof fn merge_is_idempotent(t: ManifestModel, o: ManifestModel, after: ManifestModel)
    requires
        spec_merge_plan(t, o) is Ok,
        manifest_merged(t, o, after),
    ensures
        spec_merge_plan(after, o) == Ok::<Seq<EditView>, MergeFailure>(seq![]),
{
    lemma_dep_table_again(t.dependencies, o.dependencies, after.dependencies, DepKind::Dependencies);
    lemma_dep_table_again(
        t.dev_dependencies,
        o.dev_dependencies,
        after.dev_dependencies,
        DepKind::DevDependencies,
    );
    lemma_dep_table_again(
        t.build_dependencies,
        o.build_dependencies,
        after.build_dependencies,
        DepKind::BuildDependencies,
    );
    lemma_target_table_again(t.bench, o.bench, after.bench, TargetKind::Bench);
    lemma_target_table_again(t.example, o.example, after.example, TargetKind::Example);
    lemma_target_table_again(t.test, o.test, after.test, TargetKind::Test);
    assert(Seq::<EditView>::empty() + Seq::<EditView>::empty() =~= Seq::<EditView>::empty());
}

} // verus!
