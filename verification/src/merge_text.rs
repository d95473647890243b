//! Merging an overlay `Cargo.toml` into the project manifest as text: the
//! manifests are read into the merge model through `toml_edit`, the merge is
//! planned over the model, and the planned edits are made to the text one by
//! one, each through `toml_edit`.

use vstd::prelude::*;

use crate::merge::{
    dep_decision, dep_features, dep_index, dep_rest, dep_step, dep_steps, dep_table_plan,
    dep_version, inline_lookup, rest_pairs, string_items, target_name, target_steps,
    target_table_plan, targets_view, lemma_dep_index, manifest_merged, merge_is_idempotent,
    MergeFailure, dep_table_key, failure_detail, failure_view, merge_error, opt_str, pairs_view,
    plan_manifest_merge, spec_dep_key, spec_merge_plan, spec_target_key, target_table_key,
    DepEntry, DepItem, DepKind, DepTable, EditView, InlineValue, ManifestEdit, ManifestModel,
    TargetEntry, TargetKind, TargetTable, edit_view, edits_view,
};
use crate::scaffold::EngineError;
use crate::text::concat2;

verus! {

// ---------------------------------------------------------------------------
// What `toml_edit` reads of a manifest
// ---------------------------------------------------------------------------

/// The message of `toml_edit`'s parse error for `raw`, when `raw` is not a
/// TOML document.
pub uninterp spec fn toml_error(raw: Seq<char>) -> Option<Seq<char>>;

/// The entries of the table `key` of the document `raw`, each as its name
/// and its rendering: `None` when the document has no such key (or does not
/// parse), `Some(None)` when the key holds something other than a table.
pub uninterp spec fn toml_dep_entries(raw: Seq<char>, key: Seq<char>) -> Option<
    Option<Seq<(Seq<char>, Seq<char>)>>,
>;

/// The shape of the entry `name` of the table `key`: `Some(Some(v))` for a
/// string `v`, `Some(None)` for an inline table, `None` otherwise.
pub uninterp spec fn toml_dep_shape(raw: Seq<char>, key: Seq<char>, name: Seq<char>) -> Option<
    Option<Seq<char>>,
>;

/// The keys of the inline table at entry `name` of the table `key`, each
/// with its value as a string (when it is one), as an array of optional
/// strings (when it is an array), and as rendered.
pub uninterp spec fn toml_inline_values(raw: Seq<char>, key: Seq<char>, name: Seq<char>) -> Seq<
    (Seq<char>, Option<Seq<char>>, Option<Seq<Option<Seq<char>>>>, Seq<char>),
>;

/// The entries of the array of tables `key`, each as its `name` (when a
/// string) and its rendering: `None` when the document has no such key,
/// `Some(None)` when the key holds something other than an array of tables.
pub uninterp spec fn toml_targets(raw: Seq<char>, key: Seq<char>) -> Option<
    Option<Seq<(Option<Seq<char>>, Seq<char>)>>,
>;

/// The message of the parse error of `raw` (`str::parse` into
/// `toml_edit::DocumentMut`, then `Display`), or `None` when it parses.
#[verifier::external_body]
fn toml_parse_error(raw: &str) -> (r: Option<String>)
    ensures
        opt_str(r) == toml_error(raw@),
{
    match raw.parse::<toml_edit::DocumentMut>() {
        Ok(_) => None,
        Err(e) => Some(e.to_string()),
    }
}

/// `DocumentMut::get(key)`, `Item::as_table`, `Table::iter` with each
/// entry's key and `Item::to_string`.
#[verifier::external_body]
fn dep_entries(raw: &str, key: &str) -> (r: Option<Option<Vec<(String, String)>>>)
    ensures
        match r {
            None => toml_dep_entries(raw@, key@) is None,
            Some(None) => toml_dep_entries(raw@, key@) == Some(None::<Seq<(Seq<char>, Seq<char>)>>),
            Some(Some(v)) => toml_dep_entries(raw@, key@) == Some(Some(pairs_view(v@))),
        },
{
    let doc = raw.parse::<toml_edit::DocumentMut>().ok();
    match doc.as_ref().and_then(|d| d.get(key)) {
        None => None,
        Some(node) => Some(node.as_table().map(
            |t| t.iter().map(|(n, item)| (n.to_owned(), item.to_string())).collect(),
        )),
    }
}

/// The shape of one entry (`Table::get`, then the `Item`/`Value` variants
/// `String` and `InlineTable`).
#[verifier::external_body]
fn dep_shape(raw: &str, key: &str, name: &str) -> (r: Option<Option<String>>)
    ensures
        match r {
            None => toml_dep_shape(raw@, key@, name@) is None,
            Some(o) => toml_dep_shape(raw@, key@, name@) == Some(opt_str(o)),
        },
{
    let doc = raw.parse::<toml_edit::DocumentMut>().ok();
    let table = doc.as_ref().and_then(|d| d.get(key)).and_then(|t| t.as_table());
    match table.and_then(|t| t.get(name)) {
        Some(toml_edit::Item::Value(toml_edit::Value::String(s))) => Some(Some(s.value().to_owned())),
        Some(toml_edit::Item::Value(toml_edit::Value::InlineTable(_))) => Some(None),
        _ => None,
    }
}

/// An inline value as plain values.
pub open spec fn inline_view(v: InlineValue) -> (Seq<char>, Option<Seq<char>>, Option<Seq<Option<Seq<char>>>>, Seq<char>) {
    (
        v.key@,
        opt_str(v.text),
        match v.items {
            Some(xs) => Some(xs@.map_values(|x: Option<String>| opt_str(x))),
            None => None,
        },
        v.rendered@,
    )
}

/// The keys of an inline table as plain values.
pub open spec fn inline_views(kvs: Seq<InlineValue>) -> Seq<
    (Seq<char>, Option<Seq<char>>, Option<Seq<Option<Seq<char>>>>, Seq<char>),
> {
    kvs.map_values(|v: InlineValue| inline_view(v))
}

/// The keys of one inline table (`InlineTable::iter`, `Value::as_str`,
/// `Value::as_array`, `Value::to_string`).
#[verifier::external_body]
fn inline_values(raw: &str, key: &str, name: &str) -> (r: Vec<InlineValue>)
    ensures
        inline_views(r@) == toml_inline_values(raw@, key@, name@),
{
    let doc = raw.parse::<toml_edit::DocumentMut>().ok();
    let table = doc.as_ref().and_then(|d| d.get(key)).and_then(|t| t.as_table());
    match table.and_then(|t| t.get(name)) {
        Some(toml_edit::Item::Value(toml_edit::Value::InlineTable(t))) => t.iter().map(
            |(k, v)| InlineValue {
                key: k.to_owned(),
                text: v.as_str().map(str::to_owned),
                items: v.as_array().map(|a| a.iter().map(|x| x.as_str().map(str::to_owned)).collect()),
                rendered: v.to_string(),
            },
        ).collect(),
        _ => Vec::new(),
    }
}

/// A target entry as plain values.
pub open spec fn target_pair_view(p: (Option<String>, String)) -> (Option<Seq<char>>, Seq<char>) {
    (opt_str(p.0), p.1@)
}

/// The entries of one array of tables (`Item::as_array_of_tables`, each
/// table's `name` as a string and `Table::to_string`).
#[verifier::external_body]
fn target_entries(raw: &str, key: &str) -> (r: Option<Option<Vec<(Option<String>, String)>>>)
    ensures
        match r {
            None => toml_targets(raw@, key@) is None,
            Some(None) => toml_targets(raw@, key@) == Some(None::<Seq<(Option<Seq<char>>, Seq<char>)>>),
            Some(Some(v)) => toml_targets(raw@, key@) == Some(
                Some(v@.map_values(|p: (Option<String>, String)| target_pair_view(p))),
            ),
        },
{
    let doc = raw.parse::<toml_edit::DocumentMut>().ok();
    match doc.as_ref().and_then(|d| d.get(key)) {
        None => None,
        Some(node) => Some(node.as_array_of_tables().map(|a| a.iter().map(
            |t| (t.get("name").and_then(|n| n.as_str()).map(str::to_owned), t.to_string()),
        ).collect())),
    }
}

// ---------------------------------------------------------------------------
// The model of a manifest text
// ---------------------------------------------------------------------------

/// Whether `item` is what the document says of the entry `name`.
pub open spec fn dep_item_of_raw(item: DepItem, raw: Seq<char>, key: Seq<char>, name: Seq<char>) -> bool {
    match toml_dep_shape(raw, key, name) {
        Some(Some(v)) => item matches DepItem::Version(s) && s@ == v,
        Some(None) => item matches DepItem::Inline(kvs) && inline_views(kvs@) == toml_inline_values(
            raw,
            key,
            name,
        ),
        None => item is Other,
    }
}

/// Whether `t` is what the document says of the table `key`.
pub open spec fn dep_table_of_raw(t: DepTable, raw: Seq<char>, key: Seq<char>) -> bool {
    match toml_dep_entries(raw, key) {
        None => t is Absent,
        Some(None) => t is NotTable,
        Some(Some(ps)) => t matches DepTable::Table(es) && es@.len() == ps.len() && forall|i: int|
            0 <= i < ps.len() ==> {
                &&& (#[trigger] es@[i]).name@ == ps[i].0
                &&& es@[i].rendered@ == ps[i].1
                &&& dep_item_of_raw(es@[i].item, raw, key, ps[i].0)
            },
    }
}

/// Whether `t` is what the document says of the array of tables `key`.
pub open spec fn target_table_of_raw(t: TargetTable, raw: Seq<char>, key: Seq<char>) -> bool {
    match toml_targets(raw, key) {
        None => t is Absent,
        Some(None) => t is NotArray,
        Some(Some(ps)) => t matches TargetTable::Array(es) && es@.len() == ps.len() && forall|i: int|
            0 <= i < ps.len() ==> opt_str((#[trigger] es@[i]).name) == ps[i].0 && es@[i].rendered@
                == ps[i].1,
    }
}

/// Whether `m` is the merge model of the manifest text `raw`.
pub open spec fn model_of_raw(m: ManifestModel, raw: Seq<char>) -> bool {
    &&& dep_table_of_raw(m.dependencies, raw, spec_dep_key(DepKind::Dependencies))
    &&& dep_table_of_raw(m.dev_dependencies, raw, spec_dep_key(DepKind::DevDependencies))
    &&& dep_table_of_raw(m.build_dependencies, raw, spec_dep_key(DepKind::BuildDependencies))
    &&& target_table_of_raw(m.bench, raw, spec_target_key(TargetKind::Bench))
    &&& target_table_of_raw(m.example, raw, spec_target_key(TargetKind::Example))
    &&& target_table_of_raw(m.test, raw, spec_target_key(TargetKind::Test))
}

// ---------------------------------------------------------------------------
// Two readings of one text plan the same merge
// ---------------------------------------------------------------------------

/// Whether two dependency specifications read the same as plain values.
spec fn items_alike(a: DepItem, b: DepItem) -> bool {
    match (a, b) {
        (DepItem::Version(x), DepItem::Version(y)) => x@ == y@,
        (DepItem::Inline(x), DepItem::Inline(y)) => inline_views(x@) == inline_views(y@),
        (DepItem::Other, DepItem::Other) => true,
        _ => false,
    }
}

spec fn entry_alike(a: DepEntry, b: DepEntry) -> bool {
    a.name@ == b.name@ && a.rendered@ == b.rendered@ && items_alike(a.item, b.item)
}

spec fn entries_alike(x: Seq<DepEntry>, y: Seq<DepEntry>) -> bool {
    x.len() == y.len() && forall|i: int| 0 <= i < x.len() ==> entry_alike(#[trigger] x[i], y[i])
}

spec fn dep_tables_alike(a: DepTable, b: DepTable) -> bool {
    match (a, b) {
        (DepTable::Absent, DepTable::Absent) => true,
        (DepTable::NotTable, DepTable::NotTable) => true,
        (DepTable::Table(x), DepTable::Table(y)) => entries_alike(x@, y@),
        _ => false,
    }
}

spec fn target_alike(a: TargetEntry, b: TargetEntry) -> bool {
    opt_str(a.name) == opt_str(b.name) && a.rendered@ == b.rendered@
}

spec fn targets_alike(x: Seq<TargetEntry>, y: Seq<TargetEntry>) -> bool {
    x.len() == y.len() && forall|i: int| 0 <= i < x.len() ==> target_alike(#[trigger] x[i], y[i])
}

spec fn target_tables_alike(a: TargetTable, b: TargetTable) -> bool {
    match (a, b) {
        (TargetTable::Absent, TargetTable::Absent) => true,
        (TargetTable::NotArray, TargetTable::NotArray) => true,
        (TargetTable::Array(x), TargetTable::Array(y)) => targets_alike(x@, y@),
        _ => false,
    }
}

spec fn models_alike(a: ManifestModel, b: ManifestModel) -> bool {
    &&& dep_tables_alike(a.dependencies, b.dependencies)
    &&& dep_tables_alike(a.dev_dependencies, b.dev_dependencies)
    &&& dep_tables_alike(a.build_dependencies, b.build_dependencies)
    &&& target_tables_alike(a.bench, b.bench)
    &&& target_tables_alike(a.example, b.example)
    &&& target_tables_alike(a.test, b.test)
}

proof fn lemma_string_items_alike(x: Seq<Option<String>>, y: Seq<Option<String>>)
    requires
        x.len() == y.len(),
        forall|i: int| 0 <= i < x.len() ==> opt_str(#[trigger] x[i]) == opt_str(y[i]),
    ensures
        string_items(x) == string_items(y),
    decreases x.len(),
{
    if x.len() > 0 {
        assert(opt_str(x[x.len() - 1]) == opt_str(y[y.len() - 1]));
        lemma_string_items_alike(x.drop_last(), y.drop_last());
    }
}

proof fn lemma_lookup_alike(x: Seq<InlineValue>, y: Seq<InlineValue>, key: Seq<char>)
    requires
        x.len() == y.len(),
        forall|i: int| 0 <= i < x.len() ==> inline_view(#[trigger] x[i]) == inline_view(y[i]),
    ensures
        match (inline_lookup(x, key), inline_lookup(y, key)) {
            (None, None) => true,
            (Some(a), Some(b)) => inline_view(a) == inline_view(b),
            _ => false,
        },
    decreases x.len(),
{
    if x.len() > 0 {
        assert(inline_view(x[0]) == inline_view(y[0]));
        assert forall|i: int| 0 <= i < x.drop_first().len() implies inline_view(
            #[trigger] x.drop_first()[i],
        ) == inline_view(y.drop_first()[i]) by {
            assert(inline_view(x[i + 1]) == inline_view(y[i + 1]));
        }
        lemma_lookup_alike(x.drop_first(), y.drop_first(), key);
    }
}

proof fn lemma_rest_alike(x: Seq<InlineValue>, y: Seq<InlineValue>)
    requires
        x.len() == y.len(),
        forall|i: int| 0 <= i < x.len() ==> inline_view(#[trigger] x[i]) == inline_view(y[i]),
    ensures
        rest_pairs(x) == rest_pairs(y),
    decreases x.len(),
{
    if x.len() > 0 {
        assert(inline_view(x[x.len() - 1]) == inline_view(y[y.len() - 1]));
        lemma_rest_alike(x.drop_last(), y.drop_last());
    }
}

proof fn lemma_items_alike(a: DepItem, b: DepItem)
    requires
        items_alike(a, b),
    ensures
        dep_version(a) == dep_version(b),
        dep_features(a) == dep_features(b),
        forall|r: Seq<char>| #[trigger] dep_rest(a, r) == dep_rest(b, r),
{
    match (a, b) {
        (DepItem::Inline(x), DepItem::Inline(y)) => {
            assert(x@.len() == inline_views(x@).len());
            assert forall|i: int| 0 <= i < x@.len() implies inline_view(#[trigger] x@[i])
                == inline_view(y@[i]) by {
                assert(inline_views(x@)[i] == inline_views(y@)[i]);
            }
            lemma_lookup_alike(x@, y@, "version"@);
            lemma_lookup_alike(x@, y@, "features"@);
            lemma_rest_alike(x@, y@);
            match (inline_lookup(x@, "features"@), inline_lookup(y@, "features"@)) {
                (Some(p), Some(q)) => match (p.items, q.items) {
                    (Some(xs), Some(ys)) => {
                        assert(xs@.map_values(|o: Option<String>| opt_str(o)).len() == xs@.len());
                        assert forall|i: int| 0 <= i < xs@.len() implies opt_str(#[trigger] xs@[i])
                            == opt_str(ys@[i]) by {
                            assert(inline_view(p).2 == inline_view(q).2);
                            assert(xs@.map_values(|o: Option<String>| opt_str(o))[i]
                                == ys@.map_values(|o: Option<String>| opt_str(o))[i]);
                        }
                        lemma_string_items_alike(xs@, ys@);
                    },
                    _ => {},
                },
                _ => {},
            }
        },
        _ => {},
    }
}

proof fn lemma_dep_index_alike(x: Seq<DepEntry>, y: Seq<DepEntry>, name: Seq<char>, i: int)
    requires
        entries_alike(x, y),
    ensures
        dep_index(x, name, i) == dep_index(y, name, i),
    decreases x.len() - i,
{
    if 0 <= i < x.len() {
        assert(entry_alike(x[i], y[i]));
        lemma_dep_index_alike(x, y, name, i + 1);
    }
}

proof fn lemma_dep_step_alike(x: Seq<DepEntry>, y: Seq<DepEntry>, o1: DepEntry, o2: DepEntry, kind: DepKind)
    requires
        entries_alike(x, y),
        entry_alike(o1, o2),
    ensures
        dep_step(x, o1, kind) == dep_step(y, o2, kind),
{
    lemma_dep_index_alike(x, y, o1.name@, 0);
    lemma_dep_index(x, o1.name@, 0);
    match dep_index(x, o1.name@, 0) {
        Some(i) => {
            assert(entry_alike(x[i], y[i]));
            lemma_items_alike(x[i].item, y[i].item);
            lemma_items_alike(o1.item, o2.item);
            assert(dep_rest(x[i].item, x[i].rendered@) == dep_rest(y[i].item, y[i].rendered@));
            assert(dep_rest(o1.item, o1.rendered@) == dep_rest(o2.item, o2.rendered@));
            assert(dep_decision(x[i], o1) == dep_decision(y[i], o2));
        },
        None => {},
    }
}

proof fn lemma_dep_steps_alike(x: Seq<DepEntry>, y: Seq<DepEntry>, os1: Seq<DepEntry>, os2: Seq<DepEntry>, kind: DepKind)
    requires
        entries_alike(x, y),
        entries_alike(os1, os2),
    ensures
        dep_steps(x, os1, kind) == dep_steps(y, os2, kind),
    decreases os1.len(),
{
    if os1.len() > 0 {
        assert(entries_alike(os1.drop_last(), os2.drop_last())) by {
            assert forall|i: int| 0 <= i < os1.drop_last().len() implies entry_alike(
                #[trigger] os1.drop_last()[i],
                os2.drop_last()[i],
            ) by {
                assert(entry_alike(os1[i], os2[i]));
            }
        }
        assert(entry_alike(os1[os1.len() - 1], os2[os2.len() - 1]));
        lemma_dep_steps_alike(x, y, os1.drop_last(), os2.drop_last(), kind);
        lemma_dep_step_alike(x, y, os1.last(), os2.last(), kind);
    }
}

proof fn lemma_dep_plan_alike(t1: DepTable, t2: DepTable, o1: DepTable, o2: DepTable, kind: DepKind)
    requires
        dep_tables_alike(t1, t2),
        dep_tables_alike(o1, o2),
    ensures
        dep_table_plan(t1, o1, kind) == dep_table_plan(t2, o2, kind),
{
    match (o1, o2) {
        (DepTable::Table(os1), DepTable::Table(os2)) => match (t1, t2) {
            (DepTable::Table(x), DepTable::Table(y)) => lemma_dep_steps_alike(x@, y@, os1@, os2@, kind),
            (DepTable::Absent, DepTable::Absent) => {
                assert(entries_alike(Seq::<DepEntry>::empty(), Seq::<DepEntry>::empty()));
                lemma_dep_steps_alike(seq![], seq![], os1@, os2@, kind);
            },
            _ => {},
        },
        _ => {},
    }
}

proof fn lemma_target_steps_alike(
    cur: Seq<(Seq<char>, Seq<char>)>,
    os1: Seq<TargetEntry>,
    os2: Seq<TargetEntry>,
    kind: TargetKind,
)
    requires
        targets_alike(os1, os2),
    ensures
        target_steps(cur, os1, kind) == target_steps(cur, os2, kind),
    decreases os1.len(),
{
    if os1.len() > 0 {
        assert(targets_alike(os1.drop_last(), os2.drop_last())) by {
            assert forall|i: int| 0 <= i < os1.drop_last().len() implies target_alike(
                #[trigger] os1.drop_last()[i],
                os2.drop_last()[i],
            ) by {
                assert(target_alike(os1[i], os2[i]));
            }
        }
        assert(target_alike(os1[os1.len() - 1], os2[os2.len() - 1]));
        assert(target_name(os1.last()) == target_name(os2.last()));
        lemma_target_steps_alike(cur, os1.drop_last(), os2.drop_last(), kind);
    }
}

proof fn lemma_target_plan_alike(t1: TargetTable, t2: TargetTable, o1: TargetTable, o2: TargetTable, kind: TargetKind)
    requires
        target_tables_alike(t1, t2),
        target_tables_alike(o1, o2),
    ensures
        target_table_plan(t1, o1, kind) == target_table_plan(t2, o2, kind),
{
    match (o1, o2) {
        (TargetTable::Array(os1), TargetTable::Array(os2)) => match (t1, t2) {
            (TargetTable::Array(x), TargetTable::Array(y)) => {
                assert(targets_view(x@) =~= targets_view(y@)) by {
                    assert forall|i: int| 0 <= i < x@.len() implies targets_view(x@)[i] == targets_view(
                        y@,
                    )[i] by {
                        assert(target_alike(x@[i], y@[i]));
                    }
                }
                lemma_target_steps_alike(targets_view(x@), os1@, os2@, kind);
            },
            _ => lemma_target_steps_alike(seq![], os1@, os2@, kind),
        },
        _ => {},
    }
}

/// Manifests that read the same plan the same merge.
proof fn lemma_plan_alike(t1: ManifestModel, t2: ManifestModel, o1: ManifestModel, o2: ManifestModel)
    requires
        models_alike(t1, t2),
        models_alike(o1, o2),
    ensures
        spec_merge_plan(t1, o1) == spec_merge_plan(t2, o2),
{
    lemma_dep_plan_alike(t1.dependencies, t2.dependencies, o1.dependencies, o2.dependencies, DepKind::Dependencies);
    lemma_dep_plan_alike(
        t1.dev_dependencies,
        t2.dev_dependencies,
        o1.dev_dependencies,
        o2.dev_dependencies,
        DepKind::DevDependencies,
    );
    lemma_dep_plan_alike(
        t1.build_dependencies,
        t2.build_dependencies,
        o1.build_dependencies,
        o2.build_dependencies,
        DepKind::BuildDependencies,
    );
    lemma_target_plan_alike(t1.bench, t2.bench, o1.bench, o2.bench, TargetKind::Bench);
    lemma_target_plan_alike(t1.example, t2.example, o1.example, o2.example, TargetKind::Example);
    lemma_target_plan_alike(t1.test, t2.test, o1.test, o2.test, TargetKind::Test);
}

proof fn lemma_dep_table_of_raw_alike(a: DepTable, b: DepTable, raw: Seq<char>, key: Seq<char>)
    requires
        dep_table_of_raw(a, raw, key),
        dep_table_of_raw(b, raw, key),
    ensures
        dep_tables_alike(a, b),
{
    match (a, b) {
        (DepTable::Table(x), DepTable::Table(y)) => {
            let ps = toml_dep_entries(raw, key)->Some_0->Some_0;
            assert forall|i: int| 0 <= i < x@.len() implies entry_alike(#[trigger] x@[i], y@[i]) by {
                assert(dep_item_of_raw(x@[i].item, raw, key, ps[i].0));
                assert(dep_item_of_raw(y@[i].item, raw, key, ps[i].0));
            }
        },
        _ => {},
    }
}

proof fn lemma_target_table_of_raw_alike(a: TargetTable, b: TargetTable, raw: Seq<char>, key: Seq<char>)
    requires
        target_table_of_raw(a, raw, key),
        target_table_of_raw(b, raw, key),
    ensures
        target_tables_alike(a, b),
{
    match (a, b) {
        (TargetTable::Array(x), TargetTable::Array(y)) => {
            assert forall|i: int| 0 <= i < x@.len() implies target_alike(#[trigger] x@[i], y@[i]) by {
            }
        },
        _ => {},
    }
}

/// Any two readings of one manifest text plan the same merge with any two
/// readings of one overlay text.
proof fn lemma_readings_plan_alike(
    t1: ManifestModel,
    t2: ManifestModel,
    o1: ManifestModel,
    o2: ManifestModel,
    raw: Seq<char>,
    overlay: Seq<char>,
)
    requires
        model_of_raw(t1, raw),
        model_of_raw(t2, raw),
        model_of_raw(o1, overlay),
        model_of_raw(o2, overlay),
    ensures
        spec_merge_plan(t1, o1) == spec_merge_plan(t2, o2),
{
    let d = spec_dep_key(DepKind::Dependencies);
    let dd = spec_dep_key(DepKind::DevDependencies);
    let bd = spec_dep_key(DepKind::BuildDependencies);
    let b = spec_target_key(TargetKind::Bench);
    let e = spec_target_key(TargetKind::Example);
    let t = spec_target_key(TargetKind::Test);
    lemma_dep_table_of_raw_alike(t1.dependencies, t2.dependencies, raw, d);
    lemma_dep_table_of_raw_alike(t1.dev_dependencies, t2.dev_dependencies, raw, dd);
    lemma_dep_table_of_raw_alike(t1.build_dependencies, t2.build_dependencies, raw, bd);
    lemma_target_table_of_raw_alike(t1.bench, t2.bench, raw, b);
    lemma_target_table_of_raw_alike(t1.example, t2.example, raw, e);
    lemma_target_table_of_raw_alike(t1.test, t2.test, raw, t);
    lemma_dep_table_of_raw_alike(o1.dependencies, o2.dependencies, overlay, d);
    lemma_dep_table_of_raw_alike(o1.dev_dependencies, o2.dev_dependencies, overlay, dd);
    lemma_dep_table_of_raw_alike(o1.build_dependencies, o2.build_dependencies, overlay, bd);
    lemma_target_table_of_raw_alike(o1.bench, o2.bench, overlay, b);
    lemma_target_table_of_raw_alike(o1.example, o2.example, overlay, e);
    lemma_target_table_of_raw_alike(o1.test, o2.test, overlay, t);
    lemma_plan_alike(t1, t2, o1, o2);
}

fn dep_item_from(raw: &str, key: &str, name: &str) -> (r: DepItem)
    ensures
        dep_item_of_raw(r, raw@, key@, name@),
{
    match dep_shape(raw, key, name) {
        Some(Some(v)) => DepItem::Version(v),
        Some(None) => DepItem::Inline(inline_values(raw, key, name)),
        None => DepItem::Other,
    }
}

fn dep_table_from(raw: &str, key: &str) -> (r: DepTable)
    ensures
        dep_table_of_raw(r, raw@, key@),
{
    match dep_entries(raw, key) {
        None => DepTable::Absent,
        Some(None) => DepTable::NotTable,
        Some(Some(ps)) => {
            let ghost pv = pairs_view(ps@);
            let mut es: Vec<DepEntry> = Vec::new();
            let mut i: usize = 0;
            while i < ps.len()
                invariant
                    i <= ps.len(),
                    pv == pairs_view(ps@),
                    toml_dep_entries(raw@, key@) == Some(Some(pv)),
                    es@.len() == i,
                    forall|j: int|
                        0 <= j < i ==> {
                            &&& (#[trigger] es@[j]).name@ == pv[j].0
                            &&& es@[j].rendered@ == pv[j].1
                            &&& dep_item_of_raw(es@[j].item, raw@, key@, pv[j].0)
                        },
                decreases ps.len() - i,
            {
                let name = ps[i].0.clone();
                let rendered = ps[i].1.clone();
                let item = dep_item_from(raw, key, name.as_str());
                es.push(DepEntry { name, item, rendered });
                i = i + 1;
            }
            DepTable::Table(es)
        },
    }
}

fn target_table_from(raw: &str, key: &str) -> (r: TargetTable)
    ensures
        target_table_of_raw(r, raw@, key@),
{
    match target_entries(raw, key) {
        None => TargetTable::Absent,
        Some(None) => TargetTable::NotArray,
        Some(Some(ps)) => {
            let ghost pv = ps@.map_values(|p: (Option<String>, String)| target_pair_view(p));
            let mut es: Vec<TargetEntry> = Vec::new();
            let mut i: usize = 0;
            while i < ps.len()
                invariant
                    i <= ps.len(),
                    pv == ps@.map_values(|p: (Option<String>, String)| target_pair_view(p)),
                    toml_targets(raw@, key@) == Some(Some(pv)),
                    es@.len() == i,
                    forall|j: int|
                        0 <= j < i ==> opt_str((#[trigger] es@[j]).name) == pv[j].0
                            && es@[j].rendered@ == pv[j].1,
                decreases ps.len() - i,
            {
                let name = match &ps[i].0 {
                    Some(n) => Some(n.clone()),
                    None => None,
                };
                let rendered = ps[i].1.clone();
                es.push(TargetEntry { name, rendered });
                i = i + 1;
            }
            TargetTable::Array(es)
        },
    }
}

/// Read the merge model of a manifest text.
pub fn manifest_model(raw: &str) -> (r: ManifestModel)
    ensures
        model_of_raw(r, raw@),
{
    ManifestModel {
        dependencies: dep_table_from(raw, dep_table_key(DepKind::Dependencies)),
        dev_dependencies: dep_table_from(raw, dep_table_key(DepKind::DevDependencies)),
        build_dependencies: dep_table_from(raw, dep_table_key(DepKind::BuildDependencies)),
        bench: target_table_from(raw, target_table_key(TargetKind::Bench)),
        example: target_table_from(raw, target_table_key(TargetKind::Example)),
        test: target_table_from(raw, target_table_key(TargetKind::Test)),
    }
}

// ---------------------------------------------------------------------------
// Editing a manifest text
// ---------------------------------------------------------------------------

/// The text after `doc[key].or_insert(Item::Table(Table::new()))`.
pub uninterp spec fn toml_with_dep_table(raw: Seq<char>, key: Seq<char>) -> Seq<char>;

/// The text after inserting, into the table `key`, the overlay's entry
/// `name` (`Table::insert` of the overlay item's clone).
pub uninterp spec fn toml_with_dep_from(raw: Seq<char>, overlay: Seq<char>, key: Seq<char>, name: Seq<char>) -> Seq<char>;

/// The text after setting `features` of the inline table at entry `name`
/// of the table `key` to an array of `features`.
pub uninterp spec fn toml_with_features(raw: Seq<char>, key: Seq<char>, name: Seq<char>, features: Seq<Seq<char>>) -> Seq<char>;

/// The text after `doc[key] = Item::ArrayOfTables(ArrayOfTables::new())`.
pub uninterp spec fn toml_with_target_array(raw: Seq<char>, key: Seq<char>) -> Seq<char>;

/// The text after pushing, onto the array of tables `key`, the overlay's
/// entry `index` of that array.
pub uninterp spec fn toml_with_target_from(raw: Seq<char>, overlay: Seq<char>, key: Seq<char>, index: int) -> Seq<char>;

/// Parses `raw` into a `toml_edit::DocumentMut`, makes sure the table
/// `key` exists, and renders the document (unchanged text when `raw` does
/// not parse).
#[verifier::external_body]
fn with_dep_table(raw: &str, key: &str) -> (r: String)
    ensures
        r@ == toml_with_dep_table(raw@, key@),
{
    let Ok(mut doc) = raw.parse::<toml_edit::DocumentMut>() else { return raw.to_owned() };
    doc[key].or_insert(toml_edit::Item::Table(toml_edit::Table::new()));
    doc.to_string()
}

/// Copies the overlay's entry `name` of table `key` into the document's
/// table `key` (`Table::insert`), and renders the document.
#[verifier::external_body]
fn with_dep_from(raw: &str, overlay: &str, key: &str, name: &str) -> (r: String)
    ensures
        r@ == toml_with_dep_from(raw@, overlay@, key@, name@),
{
    let Ok(mut doc) = raw.parse::<toml_edit::DocumentMut>() else { return raw.to_owned() };
    let over = overlay.parse::<toml_edit::DocumentMut>().ok();
    let item = over.as_ref().and_then(|o| o.get(key)).and_then(|t| t.as_table()).and_then(|t| t.get(name)).cloned();
    if let (Some(item), Some(t)) = (item, doc.get_mut(key).and_then(|t| t.as_table_mut())) {
        t.insert(name, item);
    }
    doc.to_string()
}

/// Sets the `features` key of the inline table at entry `name` of table
/// `key` to an array of `features` (`InlineTable::insert`), and renders the
/// document.
#[verifier::external_body]
fn with_features(raw: &str, key: &str, name: &str, features: &Vec<String>) -> (r: String)
    ensures
        r@ == toml_with_features(raw@, key@, name@, crate::catalog::views(features@)),
{
    let Ok(mut doc) = raw.parse::<toml_edit::DocumentMut>() else { return raw.to_owned() };
    let entry = doc.get_mut(key).and_then(|t| t.as_table_mut()).and_then(|t| t.get_mut(name));
    if let Some(toml_edit::Item::Value(toml_edit::Value::InlineTable(t))) = entry {
        let array: toml_edit::Array = features.iter().map(|f| f.as_str()).collect();
        t.insert("features", toml_edit::Value::Array(array));
    }
    doc.to_string()
}

/// Sets `key` to an empty array of tables, and renders the document.
#[verifier::external_body]
fn with_target_array(raw: &str, key: &str) -> (r: String)
    ensures
        r@ == toml_with_target_array(raw@, key@),
{
    let Ok(mut doc) = raw.parse::<toml_edit::DocumentMut>() else { return raw.to_owned() };
    doc[key] = toml_edit::Item::ArrayOfTables(toml_edit::ArrayOfTables::new());
    doc.to_string()
}

/// Pushes the overlay's entry `index` of the array of tables `key` onto the
/// document's array `key` (`ArrayOfTables::push`), creating that array
/// first where the document has none (an empty array of tables renders as
/// nothing, so it does not survive a render), and renders the document.
#[verifier::external_body]
fn with_target_from(raw: &str, overlay: &str, key: &str, index: usize) -> (r: String)
    ensures
        r@ == toml_with_target_from(raw@, overlay@, key@, index as int),
{
    let Ok(mut doc) = raw.parse::<toml_edit::DocumentMut>() else { return raw.to_owned() };
    let over = overlay.parse::<toml_edit::DocumentMut>().ok();
    let entry = over.as_ref().and_then(|o| o.get(key)).and_then(|t| t.as_array_of_tables()).and_then(|a| a.get(index)).cloned();
    let slot = doc[key].or_insert(toml_edit::Item::ArrayOfTables(toml_edit::ArrayOfTables::new()));
    if let (Some(entry), Some(a)) = (entry, slot.as_array_of_tables_mut()) {
        a.push(entry);
    }
    doc.to_string()
}

/// The text after one planned edit; the overlay text supplies inserted and
/// pushed entries.
pub open spec fn edit_text(raw: Seq<char>, overlay: Seq<char>, e: EditView) -> Seq<char> {
    match e {
        EditView::EnsureDepTable(k) => toml_with_dep_table(raw, spec_dep_key(k)),
        EditView::InsertDep(k, n) => toml_with_dep_from(raw, overlay, spec_dep_key(k), n),
        EditView::SetFeatures(k, n, f) => toml_with_features(raw, spec_dep_key(k), n, f),
        EditView::AdoptDep(k, n) => toml_with_dep_from(raw, overlay, spec_dep_key(k), n),
        EditView::EnsureTargetArray(k) => toml_with_target_array(raw, spec_target_key(k)),
        EditView::PushTarget(k, i) => toml_with_target_from(raw, overlay, spec_target_key(k), i),
    }
}

/// The text after the planned edits, in order.
pub open spec fn edited_text(raw: Seq<char>, overlay: Seq<char>, es: Seq<EditView>) -> Seq<char>
    decreases es.len(),
{
    if es.len() == 0 {
        raw
    } else {
        edit_text(edited_text(raw, overlay, es.drop_last()), overlay, es.last())
    }
}

fn apply_edit_text(raw: &str, overlay: &str, e: &ManifestEdit) -> (r: String)
    ensures
        r@ == edit_text(raw@, overlay@, edit_view(*e)),
{
    match e {
        ManifestEdit::EnsureDepTable(k) => with_dep_table(raw, dep_table_key(*k)),
        ManifestEdit::InsertDep(k, n) => with_dep_from(raw, overlay, dep_table_key(*k), n.as_str()),
        ManifestEdit::SetFeatures(k, n, f) => with_features(raw, dep_table_key(*k), n.as_str(), f),
        ManifestEdit::AdoptDep(k, n) => with_dep_from(raw, overlay, dep_table_key(*k), n.as_str()),
        ManifestEdit::EnsureTargetArray(k) => with_target_array(raw, target_table_key(*k)),
        ManifestEdit::PushTarget(k, i) => with_target_from(raw, overlay, target_table_key(*k), *i),
    }
}

/// Make the planned edits to the project manifest text, in order.
pub fn apply_edits_text(raw: &str, overlay: &str, edits: &Vec<ManifestEdit>) -> (r: String)
    ensures
        r@ == edited_text(raw@, overlay@, edits_view(edits@)),
{
    let mut text = raw.to_owned();
    let mut i: usize = 0;
    assert(edits_view(edits@).take(0) =~= Seq::<EditView>::empty());
    while i < edits.len()
        invariant
            i <= edits.len(),
            text@ == edited_text(raw@, overlay@, edits_view(edits@).take(i as int)),
        decreases edits.len() - i,
    {
        let next = apply_edit_text(text.as_str(), overlay, &edits[i]);
        assert(edits_view(edits@).take(i + 1).drop_last() =~= edits_view(edits@).take(i as int));
        assert(edits_view(edits@).take(i + 1).last() == edit_view(edits@[i as int]));
        text = next;
        i = i + 1;
    }
    assert(edits_view(edits@).take(edits.len() as int) =~= edits_view(edits@));
    text
}

/// Merge an overlay manifest text into the project manifest text. A text
/// that does not parse is an error naming its path; otherwise the merge is
/// planned over the two models: a conflict is an error naming the project
/// manifest, and success gives the project text with the planned edits.
pub fn merge_manifest_text(
    target_raw: &str,
    overlay_raw: &str,
    target_path: &str,
    overlay_path: &str,
) -> (r: Result<String, EngineError>)
    ensures
        match toml_error(target_raw@) {
            Some(e) => r matches Err(EngineError::TemplateMaterialize { path, detail }) && path@
                == target_path@ && detail@ == "cannot parse project Cargo.toml: "@ + e,
            None => match toml_error(overlay_raw@) {
                Some(e) => r matches Err(EngineError::TemplateMaterialize { path, detail })
                    && path@ == overlay_path@ && detail@ == "cannot parse overlay Cargo.toml: "@ + e,
                None => (exists|t: ManifestModel, o: ManifestModel|
                    #![trigger model_of_raw(t, target_raw@), model_of_raw(o, overlay_raw@)]
                    model_of_raw(t, target_raw@) && model_of_raw(o, overlay_raw@)) && forall|
                    t: ManifestModel,
                    o: ManifestModel,
                |
                    #![trigger model_of_raw(t, target_raw@), model_of_raw(o, overlay_raw@)]
                    model_of_raw(t, target_raw@) && model_of_raw(o, overlay_raw@) ==> match spec_merge_plan(t, o) {
                        Err(f) => r matches Err(EngineError::TemplateMaterialize { path, detail })
                            && path@ == target_path@ && detail@ == failure_detail(f, overlay_path@),
                        Ok(es) => r matches Ok(text) && text@ == edited_text(target_raw@, overlay_raw@, es),
                    },
            },
        },
{
    if let Some(e) = toml_parse_error(target_raw) {
        return Err(EngineError::TemplateMaterialize {
            path: target_path.to_owned(),
            detail: concat2("cannot parse project Cargo.toml: ", e.as_str()),
        });
    }
    if let Some(e) = toml_parse_error(overlay_raw) {
        return Err(EngineError::TemplateMaterialize {
            path: overlay_path.to_owned(),
            detail: concat2("cannot parse overlay Cargo.toml: ", e.as_str()),
        });
    }
    let t = manifest_model(target_raw);
    let o = manifest_model(overlay_raw);
    let plan = plan_manifest_merge(&t, &o);
    match plan {
        Err(c) => {
            let e = merge_error(&c, target_path, overlay_path);
            proof {
                assert(model_of_raw(t, target_raw@) && model_of_raw(o, overlay_raw@));
                assert forall|t2: ManifestModel, o2: ManifestModel|
                    model_of_raw(t2, target_raw@) && model_of_raw(o2, overlay_raw@) implies spec_merge_plan(t2, o2)
                    == spec_merge_plan(t, o) by {
                    lemma_readings_plan_alike(t, t2, o, o2, target_raw@, overlay_raw@);
                }
            }
            Err(e)
        },
        Ok(edits) => {
            let text = apply_edits_text(target_raw, overlay_raw, &edits);
            proof {
                assert(model_of_raw(t, target_raw@) && model_of_raw(o, overlay_raw@));
                assert forall|t2: ManifestModel, o2: ManifestModel|
                    model_of_raw(t2, target_raw@) && model_of_raw(o2, overlay_raw@) implies spec_merge_plan(t2, o2)
                    == spec_merge_plan(t, o) by {
                    lemma_readings_plan_alike(t, t2, o, o2, target_raw@, overlay_raw@);
                }
            }
            Ok(text)
        },
    }
}

/// Merging an overlay into a project manifest text that already reads as
/// the merge of that overlay into some manifest plans no edit, whichever way
/// the two texts are read, and the text after no edit is the text itself:
/// merging the same overlay again gives the text back unchanged.
pub proof fn merging_into_a_merged_text_keeps_it(
    text: Seq<char>,
    overlay: Seq<char>,
    before: ManifestModel,
    o: ManifestModel,
    after: ManifestModel,
)
    requires
        model_of_raw(after, text),
        model_of_raw(o, overlay),
        spec_merge_plan(before, o) is Ok,
        manifest_merged(before, o, after),
    ensures
        forall|t: ManifestModel, o2: ManifestModel|
            #![trigger model_of_raw(t, text), model_of_raw(o2, overlay)]
            model_of_raw(t, text) && model_of_raw(o2, overlay) ==> spec_merge_plan(t, o2) == Ok::<
                Seq<EditView>,
                MergeFailure,
            >(seq![]),
        edited_text(text, overlay, seq![]) == text,
{
    merge_is_idempotent(before, o, after);
    assert forall|t: ManifestModel, o2: ManifestModel|
        model_of_raw(t, text) && model_of_raw(o2, overlay) implies spec_merge_plan(t, o2) == Ok::<
        Seq<EditView>,
        MergeFailure,
    >(seq![]) by {
        lemma_readings_plan_alike(after, t, o, o2, text, overlay);
    }
}

} // verus!
