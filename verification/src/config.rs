//! The project record in `cra.config.json`: the engine's fields are merged
//! into whatever object the template ships, through `serde_json`.

use vstd::prelude::*;

use crate::catalog::views;
use crate::cli::{joined, json_quoted};
use crate::merge::pairs_view;
use crate::scaffold::{
    project_record, record_fields_view, spec_project_record, EngineError, RecordValue, RecordView,
    ScaffoldOptions,
};
use crate::text::concat2;

verus! {

/// What a text is as JSON.
#[derive(Debug, Clone, Copy, PartialEq, Eq, Structural)]
pub enum JsonShape {
    /// Not JSON at all.
    Invalid,
    /// JSON, but not an object.
    Other,
    /// A JSON object.
    Object,
}

#[verifier::external_type_specification]
#[verifier::external_body]
pub struct ExJsonValue(serde_json::Value);

#[verifier::external_type_specification]
#[verifier::external_body]
#[verifier::reject_recursive_types(K)]
#[verifier::reject_recursive_types(V)]
pub struct ExJsonMap<K, V>(serde_json::Map<K, V>);

/// What a JSON object holds: each key with the compact JSON text of its
/// value.
pub uninterp spec fn json_entries(m: serde_json::Map<String, serde_json::Value>) -> Map<
    Seq<char>,
    Seq<char>,
>;

/// What `serde_json::from_str` parses `raw` into: its shape, and for an
/// object what the object holds.
pub uninterp spec fn json_parsed(raw: Seq<char>) -> (JsonShape, Map<Seq<char>, Seq<char>>);

/// The compact JSON text of an object that holds `entries`.
pub uninterp spec fn json_compact(entries: Map<Seq<char>, Seq<char>>) -> Seq<char>;

/// The pretty-printed JSON text of an object that holds `entries`.
pub uninterp spec fn json_pretty(entries: Map<Seq<char>, Seq<char>>) -> Seq<char>;

/// Parses `raw` as JSON (`serde_json::from_str` into `serde_json::Value`)
/// and hands out the object it holds; for anything else, its shape.
#[verifier::external_body]
fn parse_object(raw: &str) -> (r: Result<serde_json::Map<String, serde_json::Value>, JsonShape>)
    ensures
        match r {
            Ok(m) => json_parsed(raw@).0 == JsonShape::Object && json_entries(m) == json_parsed(
                raw@,
            ).1,
            Err(s) => s == json_parsed(raw@).0 && s != JsonShape::Object,
        },
{
    match serde_json::from_str::<serde_json::Value>(raw) {
        Err(_) => Err(JsonShape::Invalid),
        Ok(serde_json::Value::Object(m)) => Ok(m),
        Ok(_) => Err(JsonShape::Other),
    }
}

/// The entries of an empty object.
pub open spec fn no_entries() -> Map<Seq<char>, Seq<char>> {
    Map::empty()
}

/// An empty object (`serde_json::Map::new`).
#[verifier::external_body]
fn new_object() -> (r: serde_json::Map<String, serde_json::Value>)
    ensures
        json_entries(r) == no_entries(),
{
    serde_json::Map::new()
}

/// Sets `key` to the string `value` (`serde_json::Map::insert` of a
/// `Value::String`), whose compact text is the quoted string.
#[verifier::external_body]
fn insert_text(m: &mut serde_json::Map<String, serde_json::Value>, key: &str, value: &str)
    ensures
        json_entries(*final(m)) == json_entries(*old(m)).insert(key@, json_quoted(value@)),
{
    m.insert(key.to_owned(), serde_json::Value::String(value.to_owned()));
}

/// Sets `key` to the array of the strings `values` (`serde_json::Map::insert`
/// of a `Value::Array` of `Value::String`s), whose compact text is the quoted
/// strings in order between brackets.
#[verifier::external_body]
fn insert_texts(m: &mut serde_json::Map<String, serde_json::Value>, key: &str, values: &Vec<String>)
    ensures
        json_entries(*final(m)) == json_entries(*old(m)).insert(
            key@,
            json_list(views(values@).map_values(|t: Seq<char>| json_quoted(t))),
        ),
{
    m.insert(
        key.to_owned(),
        serde_json::Value::Array(values.iter().map(|v| serde_json::Value::String(v.clone())).collect()),
    );
}

/// Sets `key` to the array of the objects `objects` (`serde_json::Map::insert`
/// of a `Value::Array` of `Value::Object`s), whose compact text is the
/// objects' compact texts in order between brackets.
#[verifier::external_body]
fn insert_objects(
    m: &mut serde_json::Map<String, serde_json::Value>,
    key: &str,
    objects: Vec<serde_json::Map<String, serde_json::Value>>,
)
    ensures
        json_entries(*final(m)) == json_entries(*old(m)).insert(
            key@,
            json_list(
                objects@.map_values(
                    |o: serde_json::Map<String, serde_json::Value>| json_compact(json_entries(o)),
                ),
            ),
        ),
{
    m.insert(key.to_owned(), serde_json::Value::Array(objects.into_iter().map(serde_json::Value::Object).collect()));
}

/// The object pretty printed (`serde_json::to_string_pretty`, which cannot
/// fail on an object with string keys).
#[verifier::external_body]
fn render_pretty(m: &serde_json::Map<String, serde_json::Value>) -> (r: String)
    ensures
        r@ == json_pretty(json_entries(*m)),
{
    serde_json::to_string_pretty(m).unwrap_or_default()
}

/// `[` + the items joined with `,` + `]`.
pub open spec fn json_list(items: Seq<Seq<char>>) -> Seq<char> {
    seq!['['] + joined(items, seq![',']) + seq![']']
}


/// The object `{"key": k, "value": v}`.
pub open spec fn pair_entries(k: Seq<char>, v: Seq<char>) -> Map<Seq<char>, Seq<char>> {
    no_entries().insert("key"@, json_quoted(k)).insert(
        "value"@,
        json_quoted(v),
    )
}

/// A record value as compact JSON text: a string, an array of strings, or
/// an array of `{"key": .., "value": ..}` objects.
pub open spec fn record_value_text(v: RecordView) -> Seq<char> {
    match v {
        RecordView::Text(t) => json_quoted(t),
        RecordView::Texts(ts) => json_list(ts.map_values(|t: Seq<char>| json_quoted(t))),
        RecordView::Pairs(ps) => json_list(
            ps.map_values(|p: (Seq<char>, Seq<char>)| json_compact(pair_entries(p.0, p.1))),
        ),
    }
}

/// `base` with each record field set in turn.
pub open spec fn with_record(base: Map<Seq<char>, Seq<char>>, fs: Seq<(Seq<char>, RecordView)>) -> Map<
    Seq<char>,
    Seq<char>,
>
    decreases fs.len(),
{
    if fs.len() == 0 {
        base
    } else {
        with_record(base, fs.drop_last()).insert(fs.last().0, record_value_text(fs.last().1))
    }
}

/// Whether the existing file is JSON but not an object.
pub open spec fn config_not_object(existing: Option<Seq<char>>) -> bool {
    existing matches Some(raw) && json_parsed(raw).0 == JsonShape::Other
}

/// The object the record goes into: the existing file's object, or an empty
/// one when there is no file or it is not JSON.
pub open spec fn config_base(existing: Option<Seq<char>>) -> Map<Seq<char>, Seq<char>> {
    match existing {
        Some(raw) => if json_parsed(raw).0 == JsonShape::Object {
            json_parsed(raw).1
        } else {
            no_entries()
        },
        None => no_entries(),
    }
}

/// What the merged `cra.config.json` holds.
pub open spec fn spec_config_entries(
    existing: Option<Seq<char>>,
    options: ScaffoldOptions,
    template: Seq<char>,
) -> Map<Seq<char>, Seq<char>> {
    with_record(config_base(existing), spec_project_record(options, template))
}

/// One object `{"key": k, "value": v}` per pair.
fn pair_objects(ps: &Vec<(String, String)>) -> (r: Vec<serde_json::Map<String, serde_json::Value>>)
    ensures
        r@.len() == ps@.len(),
        forall|k: int|
            0 <= k < r@.len() ==> json_entries(#[trigger] r@[k]) == pair_entries(
                ps@[k].0@,
                ps@[k].1@,
            ),
{
    let mut out: Vec<serde_json::Map<String, serde_json::Value>> = Vec::new();
    let mut i: usize = 0;
    while i < ps.len()
        invariant
            i <= ps.len(),
            out@.len() == i,
            forall|k: int|
                0 <= k < i ==> json_entries(#[trigger] out@[k]) == pair_entries(
                    ps@[k].0@,
                    ps@[k].1@,
                ),
        decreases ps.len() - i,
    {
        let mut o = new_object();
        insert_text(&mut o, "key", ps[i].0.as_str());
        insert_text(&mut o, "value", ps[i].1.as_str());
        out.push(o);
        i = i + 1;
    }
    out
}

/// Merge the engine's project record into the text of `cra.config.json`
/// (`existing`, `None` when there is no such file) at `path`: the fields
/// `project`, `template`, `addons` and `set` are set in the existing
/// object (an empty one when there is no file or it is not JSON), and the
/// object is pretty printed with a final newline. A file that is JSON but
/// not an object is an error.
pub fn merged_project_config(
    existing: Option<&str>,
    options: &ScaffoldOptions,
    template: &str,
    path: &str,
) -> (r: Result<String, EngineError>)
    ensures
        ({
            let ex = match existing {
                Some(s) => Some(s@),
                None => None,
            };
            if config_not_object(ex) {
                r matches Err(EngineError::TemplateMaterialize { path: p, detail }) && p@ == path@
                    && detail@ == "cra.config.json is not a JSON object"@
            } else {
                r matches Ok(t) && t@ == json_pretty(spec_config_entries(ex, *options, template@))
                    + seq!['\n']
            }
        }),
{
    let parsed = match existing {
        Some(raw) => parse_object(raw),
        None => Err(JsonShape::Invalid),
    };
    let mut object = match parsed {
        Ok(m) => m,
        Err(shape) => {
            if shape == JsonShape::Other {
                return Err(
                    EngineError::TemplateMaterialize {
                        path: path.to_owned(),
                        detail: "cra.config.json is not a JSON object".to_owned(),
                    },
                );
            }
            new_object()
        },
    };
    let ghost ex = match existing {
        Some(s) => Some(s@),
        None => None,
    };
    let ghost base = json_entries(object);
    assert(base == config_base(ex));
    let record = project_record(options, template);
    let ghost fs = record_fields_view(record@);
    let mut i: usize = 0;
    assert(fs.take(0) =~= Seq::<(Seq<char>, RecordView)>::empty());
    while i < record.len()
        invariant
            i <= record.len(),
            fs == record_fields_view(record@),
            json_entries(object) == with_record(base, fs.take(i as int)),
        decreases record.len() - i,
    {
        let key = record[i].0.as_str();
        match &record[i].1 {
            RecordValue::Text(t) => insert_text(&mut object, key, t.as_str()),
            RecordValue::Texts(ts) => insert_texts(&mut object, key, ts),
            RecordValue::Pairs(ps) => {
                let objects = pair_objects(ps);
                let ghost ov = objects@;
                insert_objects(&mut object, key, objects);
                assert(ov.map_values(
                    |o: serde_json::Map<String, serde_json::Value>| json_compact(json_entries(o)),
                ) =~= pairs_view(ps@).map_values(
                    |p: (Seq<char>, Seq<char>)| json_compact(pair_entries(p.0, p.1)),
                ));
            },
        }
        assert(fs.take(i + 1).drop_last() =~= fs.take(i as int));
        i = i + 1;
    }
    assert(fs.take(record.len() as int) =~= fs);
    let rendered = render_pretty(&object);
    let out = concat2(rendered.as_str(), "\n");
    proof {
        reveal_strlit("\n");
    }
    Ok(out)
}

/// Merging the record into `cra.config.json` keeps every key of the
/// existing object, leaves each key that the record does not set as it
/// was, and sets `project`, `template`, `addons` and `set` to the record's
/// values.
pub proof fn merged_config_keeps_existing_keys(
    existing: Option<Seq<char>>,
    options: ScaffoldOptions,
    template: Seq<char>,
)
    ensures
        ({
            let base = config_base(existing);
            let after = spec_config_entries(existing, options, template);
            &&& forall|k: Seq<char>| base.dom().contains(k) ==> after.dom().contains(k)
            &&& forall|k: Seq<char>|
                base.dom().contains(k) && k != "project"@ && k != "template"@ && k != "addons"@
                    && k != "set"@ ==> after[k] == base[k]
            &&& after["project"@] == json_quoted(options.project@)
            &&& after["template"@] == json_quoted(template)
            &&& after["addons"@] == record_value_text(RecordView::Texts(views(options.addons@)))
            &&& after["set"@] == record_value_text(RecordView::Pairs(pairs_view(options.sets@)))
        }),
{
    let fs = spec_project_record(options, template);
    let base = config_base(existing);
    let f1 = fs.drop_last().drop_last().drop_last();
    let f2 = fs.drop_last().drop_last();
    let f3 = fs.drop_last();
    assert(f1.drop_last() =~= Seq::<(Seq<char>, RecordView)>::empty());
    assert(with_record(base, f1.drop_last()) == base);
    assert(with_record(base, f1) == base.insert(fs[0].0, record_value_text(fs[0].1)));
    assert(f2.drop_last() =~= f1);
    assert(with_record(base, f2) == with_record(base, f1).insert(fs[1].0, record_value_text(fs[1].1)));
    assert(f3.drop_last() =~= f2);
    assert(with_record(base, f3) == with_record(base, f2).insert(fs[2].0, record_value_text(fs[2].1)));
    assert(with_record(base, fs) == with_record(base, f3).insert(fs[3].0, record_value_text(fs[3].1)));
    reveal_strlit("project");
    reveal_strlit("template");
    reveal_strlit("addons");
    reveal_strlit("set");
    assert("project"@.len() == 7 && "template"@.len() == 8 && "addons"@.len() == 6 && "set"@.len()
        == 3);
}

} // verus!
