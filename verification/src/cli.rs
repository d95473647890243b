//! Decisions of the command-line front end: addon lists, `--set`
//! overrides, completion shells, cache actions, catalog listings and the
//! order in which a run handles its flags.

use vstd::prelude::*;

use crate::catalog::{
    addon_slugs, catalog_list_text, format_catalog_list, list_addon_names,
    list_template_names, list_template_names_in_category, opt_str_view,
    resolve_fixture_catalog_path, slugs_in_category, spec_fixture_catalog_path, template_slugs,
    views, Catalog,
};
use crate::merge::{pairs_view, union_exec, union_features};
use crate::scaffold::{
    error_text, hex_digit, invalid_name_text, invalid_set_text, parse_set_override, spec_set_override,
    valid_project_name, validate_project_name, EngineError, ScaffoldOptions,
};
use crate::text::{
    chars_range_to_string, concat2, concat3, is_whitespace, push_str, str_chars, str_eq, trim,
    trim_bounds,
};

verus! {

// ---------------------------------------------------------------------------
// Addon lists
// ---------------------------------------------------------------------------

/// `str::split(c)` in progress: the pieces closed so far and the piece
/// being read.
pub open spec fn split_state(s: Seq<char>, c: char) -> (Seq<Seq<char>>, Seq<char>)
    decreases s.len(),
{
    if s.len() == 0 {
        (seq![], seq![])
    } else {
        let (done, cur) = split_state(s.drop_last(), c);
        if s.last() == c {
            (done.push(cur), seq![])
        } else {
            (done, cur.push(s.last()))
        }
    }
}

/// `str::split(c)`: the pieces of `s` between occurrences of `c`.
pub open spec fn split_on(s: Seq<char>, c: char) -> Seq<Seq<char>> {
    split_state(s, c).0.push(split_state(s, c).1)
}

/// The trimmed pieces that are not empty, in order.
pub open spec fn kept_pieces(ps: Seq<Seq<char>>) -> Seq<Seq<char>>
    decreases ps.len(),
{
    if ps.len() == 0 {
        seq![]
    } else if trim(ps.last()).len() > 0 {
        kept_pieces(ps.drop_last()).push(trim(ps.last()))
    } else {
        kept_pieces(ps.drop_last())
    }
}

/// The addons of a comma-separated list: each piece trimmed, empty ones
/// left out.
pub open spec fn spec_split_addons(raw: Seq<char>) -> Seq<Seq<char>> {
    kept_pieces(split_on(raw, ','))
}

proof fn lemma_split_pieces(s: Seq<char>, c: char)
    ensures
        forall|k: int| 0 <= k < split_state(s, c).0.len() ==> !(#[trigger] split_state(s, c).0[k]).contains(c),
        !split_state(s, c).1.contains(c),
    decreases s.len(),
{
    if s.len() > 0 {
        lemma_split_pieces(s.drop_last(), c);
        let (done, cur) = split_state(s.drop_last(), c);
        if s.last() != c {
            assert(!cur.push(s.last()).contains(c)) by {
                if cur.push(s.last()).contains(c) {
                    let j = choose|j: int| 0 <= j < cur.push(s.last()).len() && cur.push(s.last())[j] == c;
                    if j < cur.len() {
                        assert(cur[j] == c);
                    }
                }
            }
        } else {
            assert forall|k: int| 0 <= k < done.push(cur).len() implies !(#[trigger] done.push(cur)[k]).contains(c) by {
                if k < done.len() {
                    assert(done.push(cur)[k] == done[k]);
                }
            }
            assert(!Seq::<char>::empty().contains(c));
        }
    }
}

proof fn lemma_kept_pieces(ps: Seq<Seq<char>>)
    ensures
        forall|k: int| 0 <= k < kept_pieces(ps).len() ==> exists|j: int| 0 <= j < ps.len()
            && #[trigger] kept_pieces(ps)[k] == trim(ps[j]) && trim(ps[j]).len() > 0,
    decreases ps.len(),
{
    if ps.len() > 0 {
        lemma_kept_pieces(ps.drop_last());
        let ki = kept_pieces(ps.drop_last());
        let kp = kept_pieces(ps);
        assert forall|k: int| 0 <= k < kp.len() implies exists|j: int| 0 <= j < ps.len()
            && #[trigger] kp[k] == trim(ps[j]) && trim(ps[j]).len() > 0 by {
            if k < ki.len() {
                assert(kp[k] == ki[k]);
                let j = choose|j: int| 0 <= j < ps.drop_last().len() && #[trigger] ki[k] == trim(ps.drop_last()[j]) && trim(ps.drop_last()[j]).len() > 0;
                assert(ps[j] == ps.drop_last()[j]);
            } else {
                assert(ps[ps.len() - 1] == ps.last());
            }
        }
    }
}

proof fn lemma_split_state_plain(a: Seq<char>, c: char)
    requires
        !a.contains(c),
    ensures
        split_state(a, c) == (Seq::<Seq<char>>::empty(), a),
    decreases a.len(),
{
    if a.len() > 0 {
        assert(a.last() == a[a.len() - 1]);
        assert(!a.drop_last().contains(c)) by {
            if a.drop_last().contains(c) {
                let k = choose|k: int| 0 <= k < a.drop_last().len() && a.drop_last()[k] == c;
                assert(a[k] == c);
            }
        }
        lemma_split_state_plain(a.drop_last(), c);
        assert(a.drop_last().push(a.last()) =~= a);
    }
}

proof fn lemma_split_on_join(a: Seq<char>, b: Seq<char>, c: char)
    ensures
        split_on(a + seq![c] + b, c) == split_on(a, c) + split_on(b, c),
        split_state(a + seq![c] + b, c) == (split_on(a, c) + split_state(b, c).0, split_state(b, c).1),
    decreases b.len(),
{
    if b.len() == 0 {
        assert(a + seq![c] + b =~= a + seq![c]);
        assert((a + seq![c]).drop_last() =~= a);
        assert(split_on(a, c) + Seq::<Seq<char>>::empty() =~= split_on(a, c));
        assert(split_on(a, c) + split_on(b, c) =~= split_on(a, c).push(seq![]));
    } else {
        lemma_split_on_join(a, b.drop_last(), c);
        assert((a + seq![c] + b).drop_last() =~= a + seq![c] + b.drop_last());
        assert((a + seq![c] + b).last() == b.last());
        let (d, cur) = split_state(b.drop_last(), c);
        if b.last() == c {
            assert(split_on(a, c) + d.push(cur) =~= (split_on(a, c) + d).push(cur));
        }
        assert(split_on(a, c) + split_state(b, c).0.push(split_state(b, c).1) =~= (split_on(a, c)
            + split_state(b, c).0).push(split_state(b, c).1));
    }
}

proof fn lemma_kept_pieces_join(x: Seq<Seq<char>>, y: Seq<Seq<char>>)
    ensures
        kept_pieces(x + y) == kept_pieces(x) + kept_pieces(y),
    decreases y.len(),
{
    if y.len() == 0 {
        assert(x + y =~= x);
        assert(kept_pieces(x) + kept_pieces(y) =~= kept_pieces(x));
    } else {
        lemma_kept_pieces_join(x, y.drop_last());
        assert((x + y).drop_last() =~= x + y.drop_last());
        assert((x + y).last() == y.last());
        assert(kept_pieces(x) + kept_pieces(y.drop_last()).push(trim(y.last())) =~= (kept_pieces(x)
            + kept_pieces(y.drop_last())).push(trim(y.last())));
    }
}

/// An addon list splits at every comma: the addons of `a,b` are those of
/// `a` followed by those of `b`, and a list without a comma holds its one
/// entry, trimmed, unless that is empty.
pub proof fn addon_lists_split_at_every_comma(a: Seq<char>, b: Seq<char>)
    ensures
        spec_split_addons(a + seq![','] + b) == spec_split_addons(a) + spec_split_addons(b),
        !a.contains(',') ==> spec_split_addons(a) == (if trim(a).len() > 0 {
            seq![trim(a)]
        } else {
            Seq::<Seq<char>>::empty()
        }),
{
    lemma_split_on_join(a, b, ',');
    lemma_kept_pieces_join(split_on(a, ','), split_on(b, ','));
    if !a.contains(',') {
        lemma_split_state_plain(a, ',');
        assert(split_on(a, ',') =~= seq![a]);
        assert(seq![a].drop_last() =~= Seq::<Seq<char>>::empty());
        assert(seq![a].last() == a);
        assert(kept_pieces(Seq::<Seq<char>>::empty()) == Seq::<Seq<char>>::empty());
        assert(Seq::<Seq<char>>::empty().push(trim(a)) =~= seq![trim(a)]);
        assert(spec_split_addons(a) == kept_pieces(seq![a]));
    }
}

/// Every addon of a list is a piece between commas, trimmed: it is not
/// empty, holds no comma, and neither starts nor ends with whitespace.
pub proof fn addon_list_entries_are_clean(raw: Seq<char>)
    ensures
        forall|k: int| 0 <= k < spec_split_addons(raw).len() ==> {
            let a = #[trigger] spec_split_addons(raw)[k];
            &&& a.len() > 0
            &&& !a.contains(',')
            &&& !is_whitespace(a[0])
            &&& !is_whitespace(a.last())
        },
{
    let ps = split_on(raw, ',');
    lemma_split_pieces(raw, ',');
    lemma_kept_pieces(ps);
    assert forall|k: int| 0 <= k < spec_split_addons(raw).len() implies {
        let a = #[trigger] spec_split_addons(raw)[k];
        &&& a.len() > 0
        &&& !a.contains(',')
        &&& !is_whitespace(a[0])
        &&& !is_whitespace(a.last())
    } by {
        let a = spec_split_addons(raw)[k];
        let j = choose|j: int| 0 <= j < ps.len() && #[trigger] kept_pieces(ps)[k] == trim(ps[j]) && trim(ps[j]).len() > 0;
        let p = ps[j];
        assert(!p.contains(',')) by {
            let d = split_state(raw, ',').0;
            if j < d.len() {
                assert(p == d[j]);
            }
        }
        crate::text::lemma_trim_shape(p);
        let (x, y) = choose|x: int, y: int| 0 <= x <= y <= p.len() && trim(p) == p.subrange(x, y);
        if a.contains(',') {
            let i = choose|i: int| 0 <= i < a.len() && a[i] == ',';
            assert(p[x + i] == ',');
        }
    }
}

/// Appends the trimmed piece `v[from..to]` to `out` when it is not empty.
fn keep_piece(out: &mut Vec<String>, v: &Vec<char>, from: usize, to: usize)
    requires
        from <= to <= v.len(),
    ensures
        views(final(out)@) == (if trim(v@.subrange(from as int, to as int)).len() > 0 {
            views(old(out)@).push(trim(v@.subrange(from as int, to as int)))
        } else {
            views(old(out)@)
        }),
{
    let (a, b) = trim_bounds(v, from, to);
    if a < b {
        let ghost before = out@;
        out.push(chars_range_to_string(v, a, b));
        assert(views(out@) =~= views(before).push(trim(v@.subrange(from as int, to as int))));
    }
}

/// Split a comma-separated addon list: pieces are trimmed and empty ones
/// dropped, so `"a, b,,c "` gives `a`, `b`, `c`.
pub fn split_addons(raw: &str) -> (r: Vec<String>)
    ensures
        views(r@) == spec_split_addons(raw@),
{
    let v = str_chars(raw);
    let mut out: Vec<String> = Vec::new();
    let mut start: usize = 0;
    let mut i: usize = 0;
    assert(v@.take(0) =~= Seq::<char>::empty());
    while i < v.len()
        invariant
            start <= i <= v.len(),
            views(out@) == kept_pieces(split_state(v@.take(i as int), ',').0),
            split_state(v@.take(i as int), ',').1 == v@.subrange(start as int, i as int),
        decreases v.len() - i,
    {
        let ghost pre = v@.take(i as int);
        let ghost done = split_state(pre, ',').0;
        assert(v@.take(i + 1).drop_last() =~= pre);
        assert(v@.take(i + 1).last() == v@[i as int]);
        if v[i] == ',' {
            keep_piece(&mut out, &v, start, i);
            assert(done.push(v@.subrange(start as int, i as int)).drop_last() =~= done);
            start = i + 1;
            assert(v@.subrange(start as int, i + 1) =~= Seq::<char>::empty());
        } else {
            assert(v@.subrange(start as int, i as int).push(v@[i as int]) =~= v@.subrange(
                start as int,
                i + 1,
            ));
        }
        i = i + 1;
    }
    assert(v@.take(v.len() as int) =~= v@);
    let ghost done = split_state(v@, ',').0;
    keep_piece(&mut out, &v, start, v.len());
    assert(done.push(v@.subrange(start as int, v.len() as int)).drop_last() =~= done);
    out
}

/// The addons of a run: those of `--addons`, then those of `--extend`
/// that are not already there, each once.
pub fn collect_addons(addons: &str, extend: &str) -> (r: Vec<String>)
    ensures
        views(r@) == union_features(spec_split_addons(addons@), spec_split_addons(extend@)),
{
    let first = split_addons(addons);
    let extra = split_addons(extend);
    union_exec(&first, &extra)
}

// ---------------------------------------------------------------------------
// Overrides
// ---------------------------------------------------------------------------

/// The parsed `--set` overrides, in order, or the first malformed one.
pub open spec fn spec_set_overrides(raws: Seq<Seq<char>>) -> Result<
    Seq<(Seq<char>, Seq<char>)>,
    Seq<char>,
>
    decreases raws.len(),
{
    if raws.len() == 0 {
        Ok(seq![])
    } else {
        match spec_set_overrides(raws.drop_last()) {
            Err(bad) => Err(bad),
            Ok(ps) => match spec_set_override(raws.last()) {
                Some(p) => Ok(ps.push(p)),
                None => Err(raws.last()),
            },
        }
    }
}

/// Parse every `--set key=value` override; the first malformed one is the
/// error.
pub fn parse_set_overrides(raws: &Vec<String>) -> (r: Result<Vec<(String, String)>, EngineError>)
    ensures
        match spec_set_overrides(views(raws@)) {
            Ok(ps) => r matches Ok(v) && pairs_view(v@) == ps,
            Err(bad) => r matches Err(EngineError::InvalidSetOverride { value }) && value@ == bad,
        },
{
    let mut out: Vec<(String, String)> = Vec::new();
    let mut i: usize = 0;
    assert(views(raws@).take(0) =~= Seq::<Seq<char>>::empty());
    assert(pairs_view(out@) =~= Seq::<(Seq<char>, Seq<char>)>::empty());
    while i < raws.len()
        invariant
            i <= raws.len(),
            spec_set_overrides(views(raws@).take(i as int)) == Ok::<
                Seq<(Seq<char>, Seq<char>)>,
                Seq<char>,
            >(pairs_view(out@)),
        decreases raws.len() - i,
    {
        let ghost pre = views(raws@).take(i as int);
        assert(views(raws@).take(i + 1).drop_last() =~= pre);
        assert(views(raws@).take(i + 1).last() == raws@[i as int]@);
        match parse_set_override(raws[i].as_str()) {
            Ok(pair) => {
                let ghost before = out@;
                out.push(pair);
                assert(pairs_view(out@) =~= pairs_view(before).push((pair.0@, pair.1@)));
            },
            Err(e) => {
                proof {
                    lemma_set_overrides_err(views(raws@), i + 1);
                    assert(views(raws@).take(raws.len() as int) =~= views(raws@));
                }
                return Err(e);
            },
        }
        i = i + 1;
    }
    assert(views(raws@).take(raws.len() as int) =~= views(raws@));
    Ok(out)
}

/// Once a prefix fails, every longer prefix fails the same way.
proof fn lemma_set_overrides_err(raws: Seq<Seq<char>>, k: int)
    requires
        0 < k <= raws.len(),
        spec_set_overrides(raws.take(k)) is Err,
    ensures
        spec_set_overrides(raws.take(raws.len() as int)) == spec_set_overrides(raws.take(k)),
    decreases raws.len() - k,
{
    if k < raws.len() {
        assert(raws.take(k + 1).drop_last() =~= raws.take(k));
        lemma_set_overrides_err(raws, k + 1);
    }
}

// ---------------------------------------------------------------------------
// Completion shells
// ---------------------------------------------------------------------------

/// The shells a completion script can be printed for.
#[derive(Debug, Clone, Copy, PartialEq, Eq, Structural)]
pub enum ShellKind {
    Bash,
    Zsh,
    Fish,
}

/// The shell named `name`, if it is one of `bash`, `zsh`, `fish`.
pub open spec fn spec_shell(name: Seq<char>) -> Option<ShellKind> {
    if name == "bash"@ {
        Some(ShellKind::Bash)
    } else if name == "zsh"@ {
        Some(ShellKind::Zsh)
    } else if name == "fish"@ {
        Some(ShellKind::Fish)
    } else {
        None
    }
}

/// The message for an unsupported completion shell.
pub open spec fn unknown_shell_text(name: Seq<char>) -> Seq<char> {
    "unknown shell '"@ + name + "': expected bash|zsh|fish"@
}

/// The shell to print a completion script for.
pub fn completion_shell(shell: &str) -> (r: Result<ShellKind, String>)
    ensures
        match spec_shell(shell@) {
            Some(k) => r matches Ok(s) && s == k,
            None => r matches Err(m) && m@ == unknown_shell_text(shell@),
        },
{
    if str_eq(shell, "bash") {
        Ok(ShellKind::Bash)
    } else if str_eq(shell, "zsh") {
        Ok(ShellKind::Zsh)
    } else if str_eq(shell, "fish") {
        Ok(ShellKind::Fish)
    } else {
        Err(concat3("unknown shell '", shell, "': expected bash|zsh|fish"))
    }
}

// ---------------------------------------------------------------------------
// JSON output
// ---------------------------------------------------------------------------

/// How `serde_json` writes one character inside a string: `"` and `\`
/// behind a backslash; backspace, form feed, newline, carriage return and
/// tab as `\b`, `\f`, `\n`, `\r`, `\t`; any other character below
/// U+0020 as `\u00` and two lowercase hex digits; everything else as it is.
pub open spec fn json_escape(c: char) -> Seq<char> {
    if c == '"' {
        seq!['\\', '"']
    } else if c == '\\' {
        seq!['\\', '\\']
    } else if c == '\x08' {
        seq!['\\', 'b']
    } else if c == '\x0c' {
        seq!['\\', 'f']
    } else if c == '\n' {
        seq!['\\', 'n']
    } else if c == '\r' {
        seq!['\\', 'r']
    } else if c == '\t' {
        seq!['\\', 't']
    } else if (c as u32) < 0x20 {
        seq!['\\', 'u', '0', '0', hex_digit((c as u32 / 16) as nat), hex_digit((c as u32 % 16) as nat)]
    } else {
        seq![c]
    }
}

/// The characters of `s`, each escaped as a JSON string's body.
pub open spec fn json_escaped(s: Seq<char>) -> Seq<char>
    decreases s.len(),
{
    if s.len() == 0 {
        seq![]
    } else {
        json_escaped(s.drop_last()) + json_escape(s.last())
    }
}

/// The JSON text that `serde_json` writes for a string: the escaped
/// characters between double quotes.
pub open spec fn json_quoted(s: Seq<char>) -> Seq<char> {
    seq!['"'] + json_escaped(s) + seq!['"']
}

/// A string as a JSON string literal (`serde_json::to_string` on a `str`,
/// which cannot fail; the escaping is that of `format_escaped_str` in
/// serde_json's serializer).
#[verifier::external_body]
pub(crate) fn json_string(s: &str) -> (r: String)
    ensures
        r@ == json_quoted(s@),
{
    serde_json::to_string(s).unwrap_or_default()
}

/// `parts` with `sep` between consecutive ones.
pub open spec fn joined(parts: Seq<Seq<char>>, sep: Seq<char>) -> Seq<char>
    decreases parts.len(),
{
    if parts.len() == 0 {
        seq![]
    } else if parts.len() == 1 {
        parts[0]
    } else {
        joined(parts.drop_last(), sep) + sep + parts.last()
    }
}

/// The quoted JSON form of each string.
pub open spec fn json_items(names: Seq<Seq<char>>) -> Seq<Seq<char>> {
    names.map_values(|n: Seq<char>| json_quoted(n))
}

/// A compact JSON array of strings, as `serde_json` writes it.
pub open spec fn json_array(names: Seq<Seq<char>>) -> Seq<char> {
    seq!['['] + joined(json_items(names), seq![',']) + seq![']']
}

/// Render strings as a compact JSON array.
pub fn json_string_array(names: &Vec<String>) -> (r: String)
    ensures
        r@ == json_array(views(names@)),
{
    let ghost qs = json_items(views(names@));
    let mut body = String::new();
    let mut i: usize = 0;
    assert(qs.take(0) =~= Seq::<Seq<char>>::empty());
    while i < names.len()
        invariant
            i <= names.len(),
            qs == json_items(views(names@)),
            body@ == joined(qs.take(i as int), seq![',']),
        decreases names.len() - i,
    {
        if i > 0 {
            push_str(&mut body, ",");
            proof {
                reveal_strlit(",");
            }
        }
        let q = json_string(names[i].as_str());
        push_str(&mut body, q.as_str());
        proof {
            assert(qs.take(i + 1).drop_last() =~= qs.take(i as int));
            assert(qs.take(i + 1).last() == q@);
            if i == 0 {
                assert(body@ =~= qs.take(1)[0]);
            }
        }
        i = i + 1;
    }
    assert(qs.take(names.len() as int) =~= qs);
    let mut out = String::new();
    push_str(&mut out, "[");
    push_str(&mut out, body.as_str());
    push_str(&mut out, "]");
    proof {
        reveal_strlit("[");
        reveal_strlit("]");
        assert(out@ =~= seq!['['] + body@ + seq![']']);
    }
    out
}

// ---------------------------------------------------------------------------
// Catalog listings
// ---------------------------------------------------------------------------

/// The line printed when a category matches no template.
pub open spec fn no_templates_text(category: Seq<char>) -> Seq<char> {
    "no templates found for category '"@ + category + "'"@
}

/// The JSON object listing both templates and addons (keys in order).
pub open spec fn list_json_payload(templates: Seq<Seq<char>>, addons: Seq<Seq<char>>) -> Seq<char> {
    "{\"addons\":"@ + json_array(addons) + ",\"templates\":"@ + json_array(templates) + "}"@
}

/// The templates a listing shows: those of the category when one is given
/// for a template listing, else all.
pub open spec fn listed_templates(c: Catalog, list_templates: bool, category: Seq<char>) -> Seq<
    Seq<char>,
> {
    if list_templates && category.len() > 0 {
        slugs_in_category(c.templates@, category)
    } else {
        template_slugs(c)
    }
}

/// The lines a catalog listing prints, or the line it fails with.
pub open spec fn spec_list_output(
    c: Catalog,
    list_templates: bool,
    list_addons: bool,
    category: Seq<char>,
    json: bool,
) -> Result<Seq<Seq<char>>, Seq<char>> {
    let templates = listed_templates(c, list_templates, category);
    if list_templates && category.len() > 0 && templates.len() == 0 {
        Err(no_templates_text(category))
    } else if json && list_templates && list_addons {
        Ok(seq![list_json_payload(templates, addon_slugs(c))])
    } else {
        let t = if !list_templates {
            seq![]
        } else if json {
            seq![json_array(templates)]
        } else {
            seq![catalog_list_text("Templates"@, templates)]
        };
        let a = if !list_addons {
            seq![]
        } else if json {
            seq![json_array(addon_slugs(c))]
        } else {
            seq![catalog_list_text("Addons"@, addon_slugs(c))]
        };
        Ok(t + a)
    }
}

/// The output of `--list-templates` / `--list-addons`: the lines to print,
/// or the line to fail with when a category matches no template.
pub fn list_output(
    catalog: &Catalog,
    list_templates: bool,
    list_addons: bool,
    category: &str,
    json: bool,
) -> (r: Result<Vec<String>, String>)
    ensures
        match spec_list_output(*catalog, list_templates, list_addons, category@, json) {
            Ok(lines) => r matches Ok(v) && views(v@) == lines,
            Err(m) => r matches Err(e) && e@ == m,
        },
{
    let mut templates = list_template_names(catalog);
    if list_templates && !category.is_empty() {
        templates = list_template_names_in_category(catalog, category);
        if templates.len() == 0 {
            return Err(concat3("no templates found for category '", category, "'"));
        }
    }
    let addons = list_addon_names(catalog);
    let mut out: Vec<String> = Vec::new();
    if json && list_templates && list_addons {
        let mut payload = String::new();
        push_str(&mut payload, "{\"addons\":");
        push_str(&mut payload, json_string_array(&addons).as_str());
        push_str(&mut payload, ",\"templates\":");
        push_str(&mut payload, json_string_array(&templates).as_str());
        push_str(&mut payload, "}");
        let ghost p = payload@;
        out.push(payload);
        assert(views(out@) =~= seq![p]);
        return Ok(out);
    }
    if list_templates {
        let line = if json {
            json_string_array(&templates)
        } else {
            format_catalog_list("Templates", templates.as_slice())
        };
        let ghost l = line@;
        out.push(line);
        assert(views(out@) =~= seq![l]);
    }
    let ghost first = views(out@);
    if list_addons {
        let line = if json {
            json_string_array(&addons)
        } else {
            format_catalog_list("Addons", addons.as_slice())
        };
        let ghost l = line@;
        out.push(line);
        assert(views(out@) =~= first + seq![l]);
    } else {
        assert(views(out@) =~= first + Seq::<Seq<char>>::empty());
    }
    Ok(out)
}

// ---------------------------------------------------------------------------
// The cache command
// ---------------------------------------------------------------------------

/// The actions of the `cache` command.
#[derive(Debug, Clone)]
pub enum CacheAction {
    Status,
    Path,
    Clean,
    /// An action the command does not know.
    Unknown(String),
}

/// The cache action named by the command's argument (`status` when none
/// is given).
pub fn cache_action(action: Option<&str>) -> (r: CacheAction)
    ensures
        action is None ==> r is Status,
        action matches Some(a) ==> if a@ == "status"@ {
            r is Status
        } else if a@ == "path"@ {
            r is Path
        } else if a@ == "clean"@ {
            r is Clean
        } else {
            r matches CacheAction::Unknown(o) && o@ == a@
        },
{
    match action {
        None => CacheAction::Status,
        Some(a) => if str_eq(a, "status") {
            CacheAction::Status
        } else if str_eq(a, "path") {
            CacheAction::Path
        } else if str_eq(a, "clean") {
            CacheAction::Clean
        } else {
            CacheAction::Unknown(a.to_owned())
        },
    }
}

/// `true` or `false` as JSON.
pub open spec fn json_bool(b: bool) -> Seq<char> {
    if b {
        "true"@
    } else {
        "false"@
    }
}

/// The line a cache action prints: for `status` the directory and whether
/// it exists, for `path` the directory, for `clean` a confirmation (each in
/// JSON when asked), and for an unknown action the error line.
pub open spec fn cache_report_text(action: CacheAction, dir: Seq<char>, exists: bool, json: bool) -> Seq<
    char,
> {
    match action {
        CacheAction::Status => if json {
            "{\"cache_dir\":"@ + json_quoted(dir) + ",\"exists\":"@ + json_bool(exists) + "}"@
        } else if exists {
            "cache dir: "@ + dir
        } else {
            "cache dir: "@ + dir + " (absent)"@
        },
        CacheAction::Path => if json {
            "{\"cache_dir\":"@ + json_quoted(dir) + "}"@
        } else {
            dir
        },
        CacheAction::Clean => if json {
            "{\"cleaned\":true}"@
        } else {
            "cache cleaned"@
        },
        CacheAction::Unknown(o) => "ERR unknown cache action '"@ + o@ + "': expected status|path|clean"@,
    }
}

/// The line a cache action prints, once it has been carried out.
pub fn cache_report(action: &CacheAction, dir: &str, exists: bool, json: bool) -> (r: String)
    ensures
        r@ == cache_report_text(*action, dir@, exists, json),
{
    match action {
        CacheAction::Status => if json {
            let mut out = String::new();
            push_str(&mut out, "{\"cache_dir\":");
            push_str(&mut out, json_string(dir).as_str());
            push_str(&mut out, ",\"exists\":");
            push_str(&mut out, if exists { "true" } else { "false" });
            push_str(&mut out, "}");
            assert(out@ =~= "{\"cache_dir\":"@ + json_quoted(dir@) + ",\"exists\":"@ + json_bool(exists)
                + "}"@);
            out
        } else if exists {
            concat2("cache dir: ", dir)
        } else {
            concat3("cache dir: ", dir, " (absent)")
        },
        CacheAction::Path => if json {
            concat3("{\"cache_dir\":", json_string(dir).as_str(), "}")
        } else {
            dir.to_owned()
        },
        CacheAction::Clean => if json {
            "{\"cleaned\":true}".to_owned()
        } else {
            "cache cleaned".to_owned()
        },
        CacheAction::Unknown(o) => concat3(
            "ERR unknown cache action '",
            o.as_str(),
            "': expected status|path|clean",
        ),
    }
}

// ---------------------------------------------------------------------------
// A run of the command line
// ---------------------------------------------------------------------------

/// The subcommands.
#[derive(Debug, Clone)]
pub enum CliCommand {
    /// Inspect or clean the local catalog cache.
    Cache {
        /// Cache action: status | path | clean.
        action: Option<String>,
    },
}

/// The parsed command line.
#[derive(Debug, Clone)]
pub struct CliArgs {
    /// Project directory to create.
    pub project: Option<String>,
    /// Print environment info.
    pub info: bool,
    /// Verbose output.
    pub verbose: bool,
    /// Template URL, `file://`, or slug.
    pub template: String,
    /// Comma-separated addon slugs or URLs.
    pub addons: String,
    /// Alias for `--addons`.
    pub extend: String,
    /// `key=value` overrides.
    pub sets: Vec<String>,
    /// Base `cra.config.json` path.
    pub config: String,
    /// Allow a non-empty target directory.
    pub force: bool,
    /// Skip the post-scaffold `cargo check`.
    pub no_install: bool,
    /// Skip the post-scaffold `cargo check` (alias).
    pub skip_install: bool,
    /// Interactive prompts.
    pub interactive: bool,
    /// Disable interactive prompts.
    pub no_interactive: bool,
    /// List templates from the catalog.
    pub list_templates: bool,
    /// List addons from the catalog.
    pub list_addons: bool,
    /// Filter the template listing by category tag.
    pub category: String,
    /// Offline mode.
    pub offline: bool,
    /// Bypass the cache.
    pub no_cache: bool,
    /// Cache directory override.
    pub cache_dir: String,
    /// Git ref to pin.
    pub pin: String,
    /// Cache refresh policy.
    pub refresh: String,
    /// Strict version checks.
    pub strict_version: bool,
    /// Keep the project directory on failure.
    pub keep_on_failure: bool,
    /// Catalog URL override.
    pub catalog_url: String,
    /// Local catalog path.
    pub catalog_path: String,
    /// Use the fixture catalog.
    pub fixture: bool,
    /// Fixture catalog directory (implies `fixture`).
    pub fixture_dir: String,
    /// Shell to print a completion script for.
    pub add_completion: String,
    /// JSON output for listings and the cache command.
    pub json: bool,
    /// The subcommand, if any.
    pub command: Option<CliCommand>,
}

/// Whether the run reads the fixture catalog.
pub open spec fn uses_fixture(cli: CliArgs) -> bool {
    cli.fixture || cli.fixture_dir@.len() > 0
}

/// `Some(s)` when `s` is not empty.
pub open spec fn non_empty(s: Seq<char>) -> Option<Seq<char>> {
    if s.len() > 0 {
        Some(s)
    } else {
        None
    }
}

/// The environment a run sets before it loads anything, in order.
pub open spec fn spec_env_settings(cli: CliArgs) -> Seq<(Seq<char>, Seq<char>)> {
    (if cli.offline {
        seq![("CRA_OFFLINE"@, "1"@)]
    } else {
        seq![]
    }) + (if cli.no_cache {
        seq![("CRA_NO_CACHE"@, "1"@)]
    } else {
        seq![]
    }) + (if cli.cache_dir@.len() > 0 {
        seq![("CRA_CACHE_DIR"@, cli.cache_dir@)]
    } else {
        seq![]
    }) + (if cli.refresh@.len() > 0 {
        seq![("CRA_REFRESH"@, cli.refresh@)]
    } else {
        seq![]
    }) + (if cli.strict_version {
        seq![("CRA_STRICT_VERSION"@, "1"@)]
    } else {
        seq![]
    }) + (if uses_fixture(cli) {
        seq![("CRA_CATALOG_FIXTURE"@, "1"@)]
    } else {
        seq![]
    })
}

/// Appends `(key, value)` to `out`.
fn push_setting(out: &mut Vec<(String, String)>, key: &str, value: &str)
    ensures
        pairs_view(final(out)@) == pairs_view(old(out)@).push((key@, value@)),
{
    let ghost before = out@;
    out.push((key.to_owned(), value.to_owned()));
    assert(pairs_view(out@) =~= pairs_view(before).push((key@, value@)));
}

/// The environment variables a run sets from its flags, in order.
pub fn env_settings(cli: &CliArgs) -> (r: Vec<(String, String)>)
    ensures
        pairs_view(r@) == spec_env_settings(*cli),
{
    let mut out: Vec<(String, String)> = Vec::new();
    let ghost e = Seq::<(Seq<char>, Seq<char>)>::empty();
    assert(pairs_view(out@) =~= e);
    proof {
        reveal_strlit("1");
    }
    if cli.offline {
        push_setting(&mut out, "CRA_OFFLINE", "1");
    }
    let ghost s1 = pairs_view(out@);
    if cli.no_cache {
        push_setting(&mut out, "CRA_NO_CACHE", "1");
    }
    let ghost s2 = pairs_view(out@);
    if !cli.cache_dir.as_str().is_empty() {
        push_setting(&mut out, "CRA_CACHE_DIR", cli.cache_dir.as_str());
    }
    let ghost s3 = pairs_view(out@);
    if !cli.refresh.as_str().is_empty() {
        push_setting(&mut out, "CRA_REFRESH", cli.refresh.as_str());
    }
    let ghost s4 = pairs_view(out@);
    if cli.strict_version {
        push_setting(&mut out, "CRA_STRICT_VERSION", "1");
    }
    let ghost s5 = pairs_view(out@);
    if cli.fixture || !cli.fixture_dir.as_str().is_empty() {
        push_setting(&mut out, "CRA_CATALOG_FIXTURE", "1");
    }
    proof {
        let c = *cli;
        assert(s1 =~= e + (if c.offline {
            seq![("CRA_OFFLINE"@, "1"@)]
        } else {
            seq![]
        }));
        assert(s2 =~= s1 + (if c.no_cache {
            seq![("CRA_NO_CACHE"@, "1"@)]
        } else {
            seq![]
        }));
        assert(s3 =~= s2 + (if c.cache_dir@.len() > 0 {
            seq![("CRA_CACHE_DIR"@, c.cache_dir@)]
        } else {
            seq![]
        }));
        assert(s4 =~= s3 + (if c.refresh@.len() > 0 {
            seq![("CRA_REFRESH"@, c.refresh@)]
        } else {
            seq![]
        }));
        assert(s5 =~= s4 + (if c.strict_version {
            seq![("CRA_STRICT_VERSION"@, "1"@)]
        } else {
            seq![]
        }));
        assert(pairs_view(out@) =~= s5 + (if uses_fixture(c) {
            seq![("CRA_CATALOG_FIXTURE"@, "1"@)]
        } else {
            seq![]
        }));
    }
    out
}

/// Where a run's catalog comes from: a local path and a URL override.
#[derive(Debug, Clone)]
pub struct CatalogArgs {
    /// The local catalog path, when one is given.
    pub path: Option<String>,
    /// The catalog URL override, when one is given.
    pub url: Option<String>,
}

/// The local catalog path of a run: the fixture catalog when a fixture is
/// asked for (with `env_fixture_dir`, the value of `CRA_FIXTURE_DIR`),
/// else `--catalog-path`.
pub open spec fn spec_resolved_catalog_path(cli: CliArgs, env_fixture_dir: Option<Seq<char>>) -> Seq<
    char,
> {
    if uses_fixture(cli) {
        spec_fixture_catalog_path(non_empty(cli.fixture_dir@), env_fixture_dir)
    } else {
        cli.catalog_path@
    }
}

/// An optional string as plain characters.
pub open spec fn opt_string_view(o: Option<String>) -> Option<Seq<char>> {
    match o {
        Some(s) => Some(s@),
        None => None,
    }
}

/// Whether `args` are the catalog arguments of the run.
pub open spec fn catalog_args_of(args: CatalogArgs, cli: CliArgs, env_fixture_dir: Option<Seq<char>>) -> bool {
    &&& opt_string_view(args.path) == non_empty(spec_resolved_catalog_path(cli, env_fixture_dir))
    &&& opt_string_view(args.url) == non_empty(cli.catalog_url@)
}

/// `Some(s)` when `s` is not empty (executable).
fn non_empty_string(s: &str) -> (r: Option<String>)
    ensures
        opt_string_view(r) == non_empty(s@),
{
    if s.is_empty() {
        None
    } else {
        Some(s.to_owned())
    }
}

/// The catalog arguments of a run; `env_fixture_dir` is the value of
/// `CRA_FIXTURE_DIR`.
pub fn catalog_args(cli: &CliArgs, env_fixture_dir: Option<&str>) -> (r: CatalogArgs)
    ensures
        catalog_args_of(r, *cli, opt_str_view(env_fixture_dir)),
{
    let path = if cli.fixture || !cli.fixture_dir.as_str().is_empty() {
        let dir: Option<&str> = if cli.fixture_dir.as_str().is_empty() {
            None
        } else {
            Some(cli.fixture_dir.as_str())
        };
        resolve_fixture_catalog_path(dir, env_fixture_dir)
    } else {
        cli.catalog_path.clone()
    };
    CatalogArgs { path: non_empty_string(path.as_str()), url: non_empty_string(cli.catalog_url.as_str()) }
}

/// What a scaffold run is asked to do.
#[derive(Debug, Clone)]
pub struct ScaffoldRequest {
    /// Where the catalog comes from.
    pub catalog: CatalogArgs,
    /// The scaffold options.
    pub options: ScaffoldOptions,
    /// Lines printed before the catalog is loaded.
    pub notes: Vec<String>,
    /// Whether to announce interactive prompts once the catalog is loaded.
    pub interactive_note: bool,
    /// Whether to run `cargo check` on the new project.
    pub run_check: bool,
}

/// What a run does first.
#[derive(Debug, Clone)]
pub enum RunPlan {
    /// Print a completion script.
    Completion(ShellKind),
    /// Print the banner and environment info.
    Info,
    /// Load the catalog and list it.
    List(CatalogArgs),
    /// Carry out a cache action.
    Cache(CacheAction),
    /// Load the catalog and scaffold.
    Scaffold(ScaffoldRequest),
    /// Print `line` to standard error and exit with `code`.
    Fail { line: String, code: u8 },
}

/// The line printed when no project is given.
pub open spec fn missing_project_line() -> Seq<char> {
    "ERR missing <project>: usage: create-rust-app <project> --template <slug>"@
}

/// The verbose lines printed before the catalog is loaded.
pub open spec fn spec_notes(cli: CliArgs) -> Seq<Seq<char>> {
    (if cli.config@.len() > 0 && cli.verbose {
        seq!["using config base: "@ + cli.config@]
    } else {
        seq![]
    }) + (if cli.pin@.len() > 0 && cli.verbose {
        seq!["pin: "@ + cli.pin@]
    } else {
        seq![]
    })
}

/// The addons of a run.
pub open spec fn spec_run_addons(cli: CliArgs) -> Seq<Seq<char>> {
    union_features(spec_split_addons(cli.addons@), spec_split_addons(cli.extend@))
}

/// Whether `req` is the scaffold request of the run for project `project`
/// with overrides `sets`.
pub open spec fn scaffold_request_of(
    req: ScaffoldRequest,
    cli: CliArgs,
    project: Seq<char>,
    sets: Seq<(Seq<char>, Seq<char>)>,
    env_fixture_dir: Option<Seq<char>>,
) -> bool {
    &&& catalog_args_of(req.catalog, cli, env_fixture_dir)
    &&& req.options.project@ == project
    &&& req.options.template@ == cli.template@
    &&& views(req.options.addons@) == spec_run_addons(cli)
    &&& pairs_view(req.options.sets@) == sets
    &&& req.options.force == cli.force
    &&& req.options.offline == cli.offline
    &&& req.options.keep_on_failure == cli.keep_on_failure
    &&& req.options.cache_dir is None
    &&& req.options.no_cache == cli.no_cache
    &&& opt_string_view(req.options.pin) == non_empty(cli.pin@)
    &&& views(req.notes@) == spec_notes(cli)
    &&& req.interactive_note == (cli.interactive && !cli.no_interactive && cli.verbose)
    &&& req.run_check == !(cli.no_install || cli.skip_install)
}

/// Whether the run gets past completion, info and listing.
pub open spec fn past_listing(cli: CliArgs) -> bool {
    cli.add_completion@.len() == 0 && !cli.info && !(cli.list_templates || cli.list_addons)
}

/// The verbose lines printed before the catalog is loaded.
fn notes_of(cli: &CliArgs) -> (r: Vec<String>)
    ensures
        views(r@) == spec_notes(*cli),
{
    let mut out: Vec<String> = Vec::new();
    if !cli.config.as_str().is_empty() && cli.verbose {
        out.push(concat2("using config base: ", cli.config.as_str()));
    }
    let ghost first = views(out@);
    if !cli.pin.as_str().is_empty() && cli.verbose {
        out.push(concat2("pin: ", cli.pin.as_str()));
    }
    proof {
        let c = *cli;
        assert(first =~= (if c.config@.len() > 0 && c.verbose {
            seq!["using config base: "@ + c.config@]
        } else {
            seq![]
        }));
        assert(views(out@) =~= first + (if c.pin@.len() > 0 && c.verbose {
            seq!["pin: "@ + c.pin@]
        } else {
            seq![]
        }));
    }
    out
}

/// Decide what a run does, in the order the command line handles its
/// flags: a completion script, then `--info`, then catalog listings, then
/// the `cache` command, then scaffolding, which needs a valid project name
/// and well-formed `--set` overrides. `env_fixture_dir` is the value of
/// `CRA_FIXTURE_DIR`.
pub fn plan_run(cli: &CliArgs, env_fixture_dir: Option<&str>) -> (r: RunPlan)
    ensures
        cli.add_completion@.len() > 0 ==> match spec_shell(cli.add_completion@) {
            Some(k) => r matches RunPlan::Completion(s) && s == k,
            None => r matches RunPlan::Fail { line, code } && line@ == "ERR "@ + unknown_shell_text(
                cli.add_completion@,
            ) && code == 2,
        },
        cli.add_completion@.len() == 0 && cli.info ==> r is Info,
        cli.add_completion@.len() == 0 && !cli.info && (cli.list_templates || cli.list_addons)
            ==> (r matches RunPlan::List(args) && catalog_args_of(
            args,
            *cli,
            opt_str_view(env_fixture_dir),
        )),
        past_listing(*cli) && cli.command is Some ==> (r matches RunPlan::Cache(a) && match cli.command {
            Some(CliCommand::Cache { action }) => match action {
                None => a is Status,
                Some(n) => if n@ == "status"@ {
                    a is Status
                } else if n@ == "path"@ {
                    a is Path
                } else if n@ == "clean"@ {
                    a is Clean
                } else {
                    a matches CacheAction::Unknown(o) && o@ == n@
                },
            },
            None => false,
        }),
        past_listing(*cli) && cli.command is None && cli.project is None ==> (r matches RunPlan::Fail {
            line,
            code,
        } && line@ == missing_project_line() && code == 2),
        past_listing(*cli) && cli.command is None && cli.project is Some ==> {
            let p = cli.project->0@;
            if !valid_project_name(p) {
                r matches RunPlan::Fail { line, code } && line@ == "ERR "@ + invalid_name_text(p)
                    && code == 2
            } else {
                match spec_set_overrides(views(cli.sets@)) {
                    Err(bad) => r matches RunPlan::Fail { line, code } && line@ == "ERR "@
                        + invalid_set_text(bad) && code == 2,
                    Ok(ps) => r matches RunPlan::Scaffold(req) && scaffold_request_of(
                        req,
                        *cli,
                        p,
                        ps,
                        opt_str_view(env_fixture_dir),
                    ),
                }
            }
        },
{
    if !cli.add_completion.as_str().is_empty() {
        return match completion_shell(cli.add_completion.as_str()) {
            Ok(k) => RunPlan::Completion(k),
            Err(m) => RunPlan::Fail { line: concat2("ERR ", m.as_str()), code: 2 },
        };
    }
    if cli.info {
        return RunPlan::Info;
    }
    let catalog = catalog_args(cli, env_fixture_dir);
    if cli.list_templates || cli.list_addons {
        return RunPlan::List(catalog);
    }
    if let Some(CliCommand::Cache { action }) = &cli.command {
        let a: Option<&str> = match action {
            Some(n) => Some(n.as_str()),
            None => None,
        };
        return RunPlan::Cache(cache_action(a));
    }
    let project = match &cli.project {
        Some(p) => p,
        None => {
            return RunPlan::Fail {
                line: "ERR missing <project>: usage: create-rust-app <project> --template <slug>".to_owned(),
                code: 2,
            };
        },
    };
    if let Err(e) = validate_project_name(project.as_str()) {
        let m = e.message();
        return RunPlan::Fail { line: concat2("ERR ", m.as_str()), code: 2 };
    }
    let addons = collect_addons(cli.addons.as_str(), cli.extend.as_str());
    let sets = match parse_set_overrides(&cli.sets) {
        Ok(ps) => ps,
        Err(e) => {
            let m = e.message();
            return RunPlan::Fail { line: concat2("ERR ", m.as_str()), code: 2 };
        },
    };
    let pin = non_empty_string(cli.pin.as_str());
    let options = ScaffoldOptions {
        project: project.clone(),
        template: cli.template.clone(),
        addons,
        sets,
        force: cli.force,
        offline: cli.offline,
        keep_on_failure: cli.keep_on_failure,
        cache_dir: None,
        no_cache: cli.no_cache,
        pin,
    };
    let notes = notes_of(cli);
    RunPlan::Scaffold(ScaffoldRequest {
        catalog,
        options,
        notes,
        interactive_note: cli.interactive && !cli.no_interactive && cli.verbose,
        run_check: !(cli.no_install || cli.skip_install),
    })
}

/// What a scaffold run does when its catalog cannot be loaded.
#[derive(Debug, Clone)]
pub enum CatalogFallback {
    /// Go on with an empty catalog, printing the warning when there is one.
    UseEmpty { warning: Option<String> },
    /// Print `line` to standard error and fail.
    Fail { line: String },
}

/// An offline run goes on with an empty catalog (warning when verbose);
/// any other run fails with the error.
pub fn catalog_fallback(offline: bool, verbose: bool, error: &EngineError) -> (r: CatalogFallback)
    ensures
        offline && verbose ==> (r matches CatalogFallback::UseEmpty { warning } && warning matches Some(
            w,
        ) && w@ == "warning: "@ + error_text(*error) + "; continuing offline"@),
        offline && !verbose ==> (r matches CatalogFallback::UseEmpty { warning } && warning is None),
        !offline ==> (r matches CatalogFallback::Fail { line } && line@ == "ERR "@ + error_text(
            *error,
        )),
{
    let m = error.message();
    if offline {
        if verbose {
            CatalogFallback::UseEmpty {
                warning: Some(concat3("warning: ", m.as_str(), "; continuing offline")),
            }
        } else {
            CatalogFallback::UseEmpty { warning: None }
        }
    } else {
        CatalogFallback::Fail { line: concat2("ERR ", m.as_str()) }
    }
}
} // verus!
