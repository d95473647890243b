//! Renaming a scaffolded crate: the line-oriented `Cargo.toml` rewrite,
//! reading the names a manifest declares, and rewriting references to the
//! old names at identifier boundaries.

use vstd::prelude::*;

use crate::paths::last_index_of;
use crate::text::{
    chars_range_to_string, find, find_char, find_char_exec, is_ascii_alnum, lemma_find_char,
    push_chars, starts_with, str_chars, trim, trim_bounds, trim_start,
};

verus! {

// ---------------------------------------------------------------------------
// Lines
// ---------------------------------------------------------------------------

/// The lines of `s`, each with its terminating `\n` (`str::split_inclusive`).
pub open spec fn lines_incl(s: Seq<char>) -> Seq<Seq<char>>
    decreases s.len(),
{
    if s.len() == 0 {
        seq![]
    } else {
        match find_char(s, '\n') {
            Some(k) => if 0 <= k < s.len() {
                seq![s.take(k + 1)] + lines_incl(s.skip(k + 1))
            } else {
                seq![s]
            },
            None => seq![s],
        }
    }
}

/// The end of the line that starts at `pos`: one past its `\n`, or the end
/// of `v`.
fn line_end(v: &Vec<char>, pos: usize) -> (end: usize)
    requires
        pos < v.len(),
    ensures
        pos < end <= v.len(),
        lines_incl(v@.skip(pos as int)) == seq![v@.subrange(pos as int, end as int)]
            + lines_incl(v@.skip(end as int)),
{
    let mut i: usize = pos;
    while i < v.len() && v[i] != '\n'
        invariant
            pos <= i <= v.len(),
            forall|j: int| pos <= j < i ==> v@[j] != '\n',
        decreases v.len() - i,
    {
        i = i + 1;
    }
    let ghost t = v@.skip(pos as int);
    proof {
        lemma_find_char(t, '\n');
    }
    if i < v.len() {
        proof {
            let k = i - pos;
            assert(t[k] == '\n');
            match find_char(t, '\n') {
                Some(k2) => {
                    if k2 < k {
                        assert(t[k2] == v@[pos + k2]);
                    }
                    if k2 > k {
                        assert(t[k] == '\n');
                    }
                    assert(k2 == k);
                },
                None => {
                    assert(crate::text::has_char(t, '\n'));
                },
            }
            assert(t.take(k + 1) =~= v@.subrange(pos as int, i + 1));
            assert(t.skip(k + 1) =~= v@.skip(i + 1));
        }
        i + 1
    } else {
        proof {
            assert(!crate::text::has_char(t, '\n')) by {
                if crate::text::has_char(t, '\n') {
                    let j = choose|j: int| 0 <= j < t.len() && t[j] == '\n';
                    assert(t[j] == v@[pos + j]);
                }
            }
            assert(t =~= v@.subrange(pos as int, v.len() as int));
            assert(v@.skip(v.len() as int) =~= Seq::<char>::empty());
            assert(lines_incl(Seq::<char>::empty()) =~= Seq::<Seq<char>>::empty());
            assert(seq![t] + Seq::<Seq<char>>::empty() =~= seq![t]);
        }
        i
    }
}

// ---------------------------------------------------------------------------
// Manifest lines
// ---------------------------------------------------------------------------

/// The manifest section a line belongs to.
#[derive(Debug, Clone, Copy, PartialEq, Eq, Structural)]
pub enum ManifestSection {
    Other,
    Package,
    Bin,
    Lib,
}

/// The section a header line (trimmed) opens.
pub open spec fn section_of(trimmed: Seq<char>) -> ManifestSection {
    if trimmed == "[package]"@ {
        ManifestSection::Package
    } else if trimmed == "[[bin]]"@ {
        ManifestSection::Bin
    } else if trimmed == "[lib]"@ {
        ManifestSection::Lib
    } else {
        ManifestSection::Other
    }
}

/// Whether a trimmed line opens a section.
pub open spec fn is_header(trimmed: Seq<char>) -> bool {
    starts_with(trimmed, "["@)
}

/// Whether a trimmed line assigns `name`.
pub open spec fn is_name_line(trimmed: Seq<char>) -> bool {
    starts_with(trimmed, "name"@) && starts_with(trim_start(trimmed.skip(4)), "="@)
}

/// The positions of the first `"` of a line and of the `"` that closes it,
/// when the line holds both.
pub open spec fn quote_bounds(line: Seq<char>) -> Option<(int, int)> {
    match find_char(line, '"') {
        Some(first) => match find_char(line.skip(first + 1), '"') {
            Some(k) => Some((first, first + 1 + k)),
            None => None,
        },
        None => None,
    }
}

/// The first double-quoted value of a line: the text between its first
/// `"` and the next one.
pub open spec fn spec_quoted_value(line: Seq<char>) -> Option<Seq<char>> {
    match quote_bounds(line) {
        Some((first, last)) => Some(line.subrange(first + 1, last)),
        None => None,
    }
}

/// What `quote_bounds` finds: two quotes with no quote before the first or
/// between them.
proof fn lemma_quote_bounds(line: Seq<char>)
    ensures
        quote_bounds(line) matches Some((f, l)) ==> {
            &&& 0 <= f < l < line.len()
            &&& line[f] == '"' && line[l] == '"'
            &&& forall|j: int| 0 <= j < l && j != f ==> line[j] != '"'
        },
{
    lemma_find_char(line, '"');
    if let Some(f) = find_char(line, '"') {
        let rest = line.skip(f + 1);
        lemma_find_char(rest, '"');
        if let Some(k) = find_char(rest, '"') {
            assert(rest[k] == line[f + 1 + k]);
            assert forall|j: int| 0 <= j < f + 1 + k && j != f implies line[j] != '"' by {
                if j > f {
                    assert(rest[j - f - 1] == line[j]);
                }
            }
        }
    }
}

/// Two quotes with no quote before the first or between them are what
/// `quote_bounds` finds.
proof fn lemma_quote_bounds_is(line: Seq<char>, f: int, l: int)
    requires
        0 <= f < l < line.len(),
        line[f] == '"',
        line[l] == '"',
        forall|j: int| 0 <= j < l && j != f ==> line[j] != '"',
    ensures
        quote_bounds(line) == Some((f, l)),
{
    lemma_find_char(line, '"');
    assert(crate::text::has_char(line, '"'));
    let g = find_char(line, '"')->0;
    if g < f {
        assert(line[g] == '"');
    }
    if g > f {
        assert(line[f] == '"');
    }
    let rest = line.skip(f + 1);
    lemma_find_char(rest, '"');
    assert(rest[l - f - 1] == line[l]);
    assert(crate::text::has_char(rest, '"'));
    let k = find_char(rest, '"')->0;
    if k < l - f - 1 {
        assert(rest[k] == line[f + 1 + k]);
    }
    if k > l - f - 1 {
        assert(rest[l - f - 1] == '"');
    }
}

/// Positions of the first `"` in `v[from..to]` and of the `"` that closes
/// it, relative to `from`.
fn quote_bounds_exec(v: &Vec<char>, from: usize, to: usize) -> (r: Option<(usize, usize)>)
    requires
        from <= to <= v.len(),
    ensures
        r matches Some((f, l)) ==> quote_bounds(v@.subrange(from as int, to as int)) == Some(
            (f as int, l as int),
        ) && f < l && from + l < to,
        r is None ==> quote_bounds(v@.subrange(from as int, to as int)) is None,
{
    let ghost line = v@.subrange(from as int, to as int);
    let mut i: usize = from;
    while i < to && v[i] != '"'
        invariant
            from <= i <= to <= v.len(),
            forall|j: int| from <= j < i ==> v@[j] != '"',
        decreases to - i,
    {
        i = i + 1;
    }
    proof {
        lemma_find_char(line, '"');
        lemma_quote_bounds(line);
    }
    if i == to {
        proof {
            if crate::text::has_char(line, '"') {
                let j = choose|j: int| 0 <= j < line.len() && line[j] == '"';
                assert(line[j] == v@[from + j]);
            }
        }
        return None;
    }
    let mut l: usize = i + 1;
    while l < to && v[l] != '"'
        invariant
            i < l <= to <= v.len(),
            forall|j: int| i < j < l ==> v@[j] != '"',
        decreases to - l,
    {
        l = l + 1;
    }
    if l == to {
        proof {
            if let Some((f, k)) = quote_bounds(line) {
                assert(line[f] == v@[from + f]);
                if f < i - from {
                    assert(v@[from + f] != '"');
                }
                if f > i - from {
                    assert(line[i - from] == v@[i as int]);
                }
                assert(line[k] == v@[from + k]);
            }
        }
        return None;
    }
    proof {
        assert forall|j: int| 0 <= j < l - from && j != i - from implies line[j] != '"' by {
            assert(line[j] == v@[from + j]);
        }
        assert(line[i - from] == v@[i as int]);
        assert(line[l - from] == v@[l as int]);
        lemma_quote_bounds_is(line, i - from, l - from);
    }
    Some((i - from, l - from))
}

/// The first double-quoted value of a manifest line.
pub fn quoted_value(line: &str) -> (r: Option<String>)
    ensures
        r matches Some(s) ==> spec_quoted_value(line@) == Some(s@),
        r is None ==> spec_quoted_value(line@) is None,
{
    let v = str_chars(line);
    assert(v@.subrange(0, v.len() as int) =~= v@);
    match quote_bounds_exec(&v, 0, v.len()) {
        Some((f, l)) => Some(chars_range_to_string(&v, f + 1, l)),
        None => None,
    }
}

/// Whether `v[from..to]`, trimmed to `[a, b)`, starts with `p`.
fn range_starts_with(v: &Vec<char>, a: usize, b: usize, p: &str) -> (r: bool)
    requires
        a <= b <= v.len(),
    ensures
        r == starts_with(v@.subrange(a as int, b as int), p@),
{
    let pv = str_chars(p);
    if pv.len() > b - a {
        return false;
    }
    let mut j: usize = 0;
    while j < pv.len()
        invariant
            j <= pv.len() <= b - a,
            a <= b <= v.len(),
            pv@ == p@,
            forall|k: int| 0 <= k < j ==> v@[a + k] == pv@[k],
        decreases pv.len() - j,
    {
        if v[a + j] != pv[j] {
            let ghost pre = v@.subrange(a as int, b as int).subrange(0, pv.len() as int);
            assert(pre[j as int] == v@[a + j]);
            assert(pre[j as int] != pv@[j as int]);
            assert(pre != pv@);
            assert(!starts_with(v@.subrange(a as int, b as int), p@));
            return false;
        }
        j = j + 1;
    }
    assert(v@.subrange(a as int, b as int).subrange(0, pv.len() as int) =~= pv@);
    true
}

/// Whether `v[a..b]` equals `p`.
fn range_eq(v: &Vec<char>, a: usize, b: usize, p: &str) -> (r: bool)
    requires
        a <= b <= v.len(),
    ensures
        r == (v@.subrange(a as int, b as int) == p@),
{
    let pv = str_chars(p);
    if pv.len() != b - a {
        return false;
    }
    let r = range_starts_with(v, a, b, p);
    assert(v@.subrange(a as int, b as int).subrange(0, pv.len() as int) =~= v@.subrange(
        a as int,
        b as int,
    ));
    r
}

/// The section a trimmed header `v[a..b]` opens.
fn section_exec(v: &Vec<char>, a: usize, b: usize) -> (r: ManifestSection)
    requires
        a <= b <= v.len(),
    ensures
        r == section_of(v@.subrange(a as int, b as int)),
{
    if range_eq(v, a, b, "[package]") {
        ManifestSection::Package
    } else if range_eq(v, a, b, "[[bin]]") {
        ManifestSection::Bin
    } else if range_eq(v, a, b, "[lib]") {
        ManifestSection::Lib
    } else {
        ManifestSection::Other
    }
}

/// Whether the trimmed line `v[a..b]` assigns `name`.
fn name_line_exec(v: &Vec<char>, a: usize, b: usize) -> (r: bool)
    requires
        a <= b <= v.len(),
    ensures
        r == is_name_line(v@.subrange(a as int, b as int)),
{
    let ghost t = v@.subrange(a as int, b as int);
    if !range_starts_with(v, a, b, "name") {
        return false;
    }
    proof {
        reveal_strlit("name");
    }
    let c = crate::text::trim_start_bound(v, a + 4, b);
    assert(t.skip(4) =~= v@.subrange(a + 4, b as int));
    range_starts_with(v, c, b, "=")
}

// ---------------------------------------------------------------------------
// Renaming the package
// ---------------------------------------------------------------------------

/// One line of the rename: headers switch the section; a `name = "..."`
/// line inside `[package]`, `[[bin]]` or `[lib]` gets the kebab-case name
/// (the snake-case name in `[lib]`) between its first quote and the one that closes it;
/// every other line is kept as it is.
pub open spec fn rename_line(
    line: Seq<char>,
    section: ManifestSection,
    kebab: Seq<char>,
    snake: Seq<char>,
) -> (ManifestSection, Seq<char>) {
    let t = trim(line);
    if is_header(t) {
        (section_of(t), line)
    } else if is_name_line(t) && section != ManifestSection::Other {
        let rep = if section == ManifestSection::Lib {
            snake
        } else {
            kebab
        };
        match quote_bounds(line) {
            Some((f, l)) => (section, line.take(f + 1) + rep + line.skip(l)),
            None => (section, line),
        }
    } else {
        (section, line)
    }
}

/// The renamed text of `lines`, starting in `section`.
pub open spec fn rename_lines(
    lines: Seq<Seq<char>>,
    section: ManifestSection,
    kebab: Seq<char>,
    snake: Seq<char>,
) -> Seq<char>
    decreases lines.len(),
{
    if lines.len() == 0 {
        seq![]
    } else {
        let (next, out) = rename_line(lines[0], section, kebab, snake);
        out + rename_lines(lines.drop_first(), next, kebab, snake)
    }
}

/// The manifest `raw` with its crate renamed.
pub open spec fn spec_rename_manifest(raw: Seq<char>, kebab: Seq<char>, snake: Seq<char>) -> Seq<
    char,
> {
    rename_lines(lines_incl(raw), ManifestSection::Other, kebab, snake)
}

/// Appends `v[from..to]` to `out`.
fn push_range(out: &mut Vec<char>, v: &Vec<char>, from: usize, to: usize)
    requires
        from <= to <= v.len(),
    ensures
        final(out)@ == old(out)@ + v@.subrange(from as int, to as int),
{
    let ghost start = out@;
    let mut i: usize = from;
    while i < to
        invariant
            from <= i <= to <= v.len(),
            out@ == start + v@.subrange(from as int, i as int),
        decreases to - i,
    {
        out.push(v[i]);
        assert(out@ =~= start + v@.subrange(from as int, i + 1));
        i = i + 1;
    }
}

/// Rename the crate in a `Cargo.toml`.
///
/// Only `name = "..."` lines inside `[package]`, `[[bin]]`, and `[lib]`
/// sections are rewritten (kebab-case for package/bin targets, snake_case
/// for the library target); everything else is preserved character for
/// character so formatting and comments survive.
pub fn rename_manifest(raw: &str, kebab: &str, snake: &str) -> (r: String)
    ensures
        r@ == spec_rename_manifest(raw@, kebab@, snake@),
{
    let v = str_chars(raw);
    let kv = str_chars(kebab);
    let sv = str_chars(snake);
    let mut out: Vec<char> = Vec::new();
    let mut section = ManifestSection::Other;
    let mut pos: usize = 0;
    assert(v@.skip(0) =~= v@);
    while pos < v.len()
        invariant
            pos <= v.len(),
            kv@ == kebab@,
            sv@ == snake@,
            out@ + rename_lines(lines_incl(v@.skip(pos as int)), section, kebab@, snake@)
                == spec_rename_manifest(raw@, kebab@, snake@),
        decreases v.len() - pos,
    {
        let end = line_end(&v, pos);
        let ghost line = v@.subrange(pos as int, end as int);
        let ghost rest = lines_incl(v@.skip(pos as int));
        assert(rest[0] == line && rest.drop_first() =~= lines_incl(v@.skip(end as int)));
        let ghost prev = out@;
        let ghost sec0 = section;
        let (a, b) = trim_bounds(&v, pos, end);
        assert(trim(line) == v@.subrange(a as int, b as int));
        if range_starts_with(&v, a, b, "[") {
            section = section_exec(&v, a, b);
            push_range(&mut out, &v, pos, end);
        } else if name_line_exec(&v, a, b) && section != ManifestSection::Other {
            match quote_bounds_exec(&v, pos, end) {
                Some((f, l)) => {
                    push_range(&mut out, &v, pos, pos + f + 1);
                    if section == ManifestSection::Lib {
                        push_range(&mut out, &sv, 0, sv.len());
                    } else {
                        push_range(&mut out, &kv, 0, kv.len());
                    }
                    push_range(&mut out, &v, pos + l, end);
                    proof {
                        assert(sv@.subrange(0, sv.len() as int) =~= sv@);
                        assert(kv@.subrange(0, kv.len() as int) =~= kv@);
                        assert(line.take(f + 1) =~= v@.subrange(pos as int, pos + f + 1));
                        assert(line.skip(l as int) =~= v@.subrange(pos + l, end as int));
                    }
                },
                None => {
                    push_range(&mut out, &v, pos, end);
                },
            }
        } else {
            push_range(&mut out, &v, pos, end);
        }
        proof {
            let (next, out_line) = rename_line(line, sec0, kebab@, snake@);
            assert(section == next);
            assert(out@ =~= prev + out_line);
            assert(rename_lines(rest, sec0, kebab@, snake@) == out_line + rename_lines(
                rest.drop_first(),
                next,
                kebab@,
                snake@,
            ));
            assert(prev + out_line + rename_lines(rest.drop_first(), next, kebab@, snake@)
                =~= prev + (out_line + rename_lines(rest.drop_first(), next, kebab@, snake@)));
        }
        pos = end;
    }
    proof {
        assert(v@.skip(pos as int) =~= Seq::<char>::empty());
        assert(out@ + Seq::<char>::empty() =~= out@);
    }
    crate::text::chars_to_string(&out)
}

// ---------------------------------------------------------------------------
// Reading the declared names
// ---------------------------------------------------------------------------

/// Package, library, and binary target names declared in a `Cargo.toml`.
#[derive(Debug, Clone)]
pub struct ManifestNames {
    /// The `[package]` name (the last one declared).
    pub package: Option<String>,
    /// The `[lib]` name (the last one declared).
    pub lib: Option<String>,
    /// The `[[bin]]` names, in order.
    pub bins: Vec<String>,
}

/// The names as plain values.
pub open spec fn names_view(n: ManifestNames) -> (Option<Seq<char>>, Option<Seq<char>>, Seq<
    Seq<char>,
>) {
    (
        match n.package {
            Some(p) => Some(p@),
            None => None,
        },
        match n.lib {
            Some(l) => Some(l@),
            None => None,
        },
        crate::catalog::views(n.bins@),
    )
}

/// One line of reading the names: headers switch the section, and the
/// quoted value of a `name = "..."` line is recorded for its section.
pub open spec fn read_line(
    line: Seq<char>,
    section: ManifestSection,
    acc: (Option<Seq<char>>, Option<Seq<char>>, Seq<Seq<char>>),
) -> (ManifestSection, (Option<Seq<char>>, Option<Seq<char>>, Seq<Seq<char>>)) {
    let t = trim(line);
    if is_header(t) {
        (section_of(t), acc)
    } else if !is_name_line(t) {
        (section, acc)
    } else {
        match spec_quoted_value(line) {
            None => (section, acc),
            Some(value) => (
                section,
                match section {
                    ManifestSection::Package => (Some(value), acc.1, acc.2),
                    ManifestSection::Lib => (acc.0, Some(value), acc.2),
                    ManifestSection::Bin => (acc.0, acc.1, acc.2.push(value)),
                    ManifestSection::Other => acc,
                },
            ),
        }
    }
}

/// The names read from `lines`, starting in `section` with `acc`.
pub open spec fn read_lines(
    lines: Seq<Seq<char>>,
    section: ManifestSection,
    acc: (Option<Seq<char>>, Option<Seq<char>>, Seq<Seq<char>>),
) -> (Option<Seq<char>>, Option<Seq<char>>, Seq<Seq<char>>)
    decreases lines.len(),
{
    if lines.len() == 0 {
        acc
    } else {
        let (next, acc2) = read_line(lines[0], section, acc);
        read_lines(lines.drop_first(), next, acc2)
    }
}

/// The names a manifest declares.
pub open spec fn spec_manifest_names(raw: Seq<char>) -> (Option<Seq<char>>, Option<Seq<char>>, Seq<
    Seq<char>,
>) {
    read_lines(lines_incl(raw), ManifestSection::Other, (None, None, seq![]))
}

/// Read the `[package]` name plus `[lib]`/`[[bin]]` target names from a
/// manifest.
pub fn read_manifest_names(raw: &str) -> (r: ManifestNames)
    ensures
        names_view(r) == spec_manifest_names(raw@),
{
    let v = str_chars(raw);
    let mut names = ManifestNames { package: None, lib: None, bins: Vec::new() };
    let mut section = ManifestSection::Other;
    let mut pos: usize = 0;
    assert(v@.skip(0) =~= v@);
    assert(names_view(names) =~= (None, None, Seq::<Seq<char>>::empty()));
    while pos < v.len()
        invariant
            pos <= v.len(),
            read_lines(lines_incl(v@.skip(pos as int)), section, names_view(names))
                == spec_manifest_names(raw@),
        decreases v.len() - pos,
    {
        let end = line_end(&v, pos);
        let ghost line = v@.subrange(pos as int, end as int);
        let ghost rest = lines_incl(v@.skip(pos as int));
        assert(rest[0] == line && rest.drop_first() =~= lines_incl(v@.skip(end as int)));
        let ghost sec0 = section;
        let ghost acc0 = names_view(names);
        let (a, b) = trim_bounds(&v, pos, end);
        assert(trim(line) == v@.subrange(a as int, b as int));
        if range_starts_with(&v, a, b, "[") {
            section = section_exec(&v, a, b);
        } else if name_line_exec(&v, a, b) {
            match quote_bounds_exec(&v, pos, end) {
                Some((f, l)) => {
                    let value = chars_range_to_string(&v, pos + f + 1, pos + l);
                    assert(line.subrange(f + 1, l as int) =~= v@.subrange(pos + f + 1, pos + l));
                    match section {
                        ManifestSection::Package => {
                            names.package = Some(value);
                        },
                        ManifestSection::Lib => {
                            names.lib = Some(value);
                        },
                        ManifestSection::Bin => {
                            names.bins.push(value);
                            assert(crate::catalog::views(names.bins@) =~= acc0.2.push(
                                line.subrange(f + 1, l as int),
                            ));
                        },
                        ManifestSection::Other => {},
                    }
                },
                None => {},
            }
        }
        proof {
            let (next, acc2) = read_line(line, sec0, acc0);
            assert(section == next);
            assert(names_view(names) == acc2);
        }
        pos = end;
    }
    assert(v@.skip(pos as int) =~= Seq::<char>::empty());
    names
}

// ---------------------------------------------------------------------------
// Law: a renamed manifest declares the new names
// ---------------------------------------------------------------------------

/// A name that fits between the quotes of a manifest line: no `"` and no
/// line break.
pub open spec fn plain_name(x: Seq<char>) -> bool {
    !x.contains('"') && !x.contains('\n')
}

/// The names after a rename: each declared name becomes the new one (the
/// snake-case name for the library).
pub open spec fn renamed_names(
    n: (Option<Seq<char>>, Option<Seq<char>>, Seq<Seq<char>>),
    kebab: Seq<char>,
    snake: Seq<char>,
) -> (Option<Seq<char>>, Option<Seq<char>>, Seq<Seq<char>>) {
    (
        match n.0 {
            Some(_) => Some(kebab),
            None => None,
        },
        match n.1 {
            Some(_) => Some(snake),
            None => None,
        },
        n.2.map_values(|x: Seq<char>| kebab),
    )
}

/// A renamed `name = "..."` line is still a name line, and its quoted
/// value is the new name.
proof fn lemma_renamed_name_line(line: Seq<char>, f: int, l: int, rep: Seq<char>)
    requires
        is_name_line(trim(line)),
        quote_bounds(line) == Some((f, l)),
        plain_name(rep),
    ensures
        ({
            let nl = line.take(f + 1) + rep + line.skip(l);
            &&& !is_header(trim(nl))
            &&& is_name_line(trim(nl))
            &&& spec_quoted_value(nl) == Some(rep)
        }),
{
    reveal_strlit("name");
    reveal_strlit("=");
    reveal_strlit("[");
    let nl = line.take(f + 1) + rep + line.skip(l);
    let big_l = f + 1 + rep.len();
    lemma_find_char(line, '"');
    lemma_quote_bounds(line);
    assert(line[f] == '"' && line[l] == '"' && f < l);
    assert(forall|j: int| 0 <= j <= f ==> nl[j] == line[j]);
    assert(forall|j: int| big_l <= j < nl.len() ==> nl[j] == line[l + (j - big_l)]);
    // The trimmed line: `name`, whitespace, `=`, all before the first quote.
    let ts = trim_start(line);
    let a = line.len() - ts.len();
    crate::text::lemma_trim_start_shape(line);
    let t = trim(line);
    crate::text::lemma_trim_end_shape(ts);
    assert(t.len() >= 4 && t.subrange(0, 4) == "name"@);
    let u = t.skip(4);
    crate::text::lemma_trim_start_shape(u);
    let c = u.len() - trim_start(u).len();
    assert(trim_start(u).subrange(0, 1) == "="@);
    assert(trim_start(u).subrange(0, 1)[0] == trim_start(u)[0]);
    assert("="@[0] == '=');
    assert(trim_start(u)[0] == '=');
    assert(u[c] == '=');
    assert(forall|i: int| 0 <= i < t.len() ==> t[i] == line[a + i]);
    assert(f >= a) by {
        if f < a {
            assert(crate::text::is_whitespace(line[f]));
        }
    }
    assert(f > a + 4 + c) by {
        if f < a + 4 {
            assert(t[f - a] == "name"@[f - a]);
        } else if f < a + 4 + c {
            assert(u[f - a - 4] == t[f - a]);
            assert(crate::text::is_whitespace(u[f - a - 4]));
        } else if f == a + 4 + c {
            assert(u[c] == t[4 + c]);
        }
    }
    // The trimmed renamed line agrees with the trimmed line up to the quote.
    assert forall|j: int| 0 <= j < a implies crate::text::is_whitespace(#[trigger] nl[j]) by {
        assert(nl[j] == line[j]);
    }
    assert(nl[a] == line[a] && line[a] == t[0]);
    crate::text::lemma_trim_start_at(nl, a);
    let w = nl.skip(a);
    let tt = trim(nl);
    assert(tt == crate::text::trim_end(w));
    crate::text::lemma_trim_end_shape(w);
    assert(w[f - a] == '"');
    crate::text::lemma_trim_end_keeps(w, f - a);
    crate::text::lemma_trim_end_keeps(ts, f - a);
    assert(forall|i: int| 0 <= i <= f - a ==> tt[i] == t[i]) by {
        assert forall|i: int| 0 <= i <= f - a implies tt[i] == t[i] by {
            assert(tt[i] == w[i]);
            assert(w[i] == nl[a + i]);
            assert(nl[a + i] == line[a + i]);
        }
    }
    assert(tt.subrange(0, 4) =~= t.subrange(0, 4));
    assert(t.subrange(0, 4)[0] == t[0]);
    assert("name"@[0] == 'n');
    assert(tt[0] == 'n');
    assert(!is_header(tt)) by {
        if is_header(tt) {
            assert(tt.subrange(0, 1)[0] == '[');
        }
    }
    let v = tt.skip(4);
    assert forall|j: int| 0 <= j < c implies crate::text::is_whitespace(#[trigger] v[j]) by {
        assert(v[j] == tt[4 + j]);
        assert(tt[4 + j] == t[4 + j]);
        assert(u[j] == t[4 + j]);
    }
    assert(v[c] == tt[4 + c] && tt[4 + c] == t[4 + c]);
    crate::text::lemma_trim_start_at(v, c);
    assert(trim_start(v).subrange(0, 1) =~= "="@);
    assert(is_name_line(tt));
    // The quotes of the renamed line surround the new name.
    assert(nl[f] == '"' && nl[big_l] == '"');
    assert forall|j: int| 0 <= j < big_l && j != f implies nl[j] != '"' by {
        if j < f {
            assert(nl[j] == line[j]);
        } else {
            assert(nl[j] == rep[j - f - 1]);
            if rep[j - f - 1] == '"' {
                assert(rep.contains('"'));
            }
        }
    }
    lemma_quote_bounds_is(nl, f, big_l);
    assert(nl.subrange(f + 1, big_l) =~= rep);
}

/// Reading a renamed line records the new name where reading the line
/// records the old one.
proof fn lemma_rename_then_read_line(
    line: Seq<char>,
    sec: ManifestSection,
    acc: (Option<Seq<char>>, Option<Seq<char>>, Seq<Seq<char>>),
    kebab: Seq<char>,
    snake: Seq<char>,
)
    requires
        plain_name(kebab),
        plain_name(snake),
    ensures
        rename_line(line, sec, kebab, snake).0 == read_line(line, sec, acc).0,
        read_line(rename_line(line, sec, kebab, snake).1, sec, renamed_names(acc, kebab, snake))
            == (read_line(line, sec, acc).0, renamed_names(read_line(line, sec, acc).1, kebab, snake)),
{
    let t = trim(line);
    if !is_header(t) && is_name_line(t) && sec != ManifestSection::Other {
        if let Some((f, l)) = quote_bounds(line) {
            let rep = if sec == ManifestSection::Lib {
                snake
            } else {
                kebab
            };
            lemma_renamed_name_line(line, f, l, rep);
            let value = line.subrange(f + 1, l);
            if sec == ManifestSection::Bin {
                assert(acc.2.push(value).map_values(|x: Seq<char>| kebab) =~= acc.2.map_values(
                    |x: Seq<char>| kebab,
                ).push(kebab));
            }
        }
    }
}

/// Reading renamed lines records the new names where reading the lines
/// records the old ones.
proof fn lemma_rename_then_read_lines(
    lines: Seq<Seq<char>>,
    sec: ManifestSection,
    acc: (Option<Seq<char>>, Option<Seq<char>>, Seq<Seq<char>>),
    kebab: Seq<char>,
    snake: Seq<char>,
)
    requires
        plain_name(kebab),
        plain_name(snake),
    ensures
        read_lines(renamed_line_list(lines, sec, kebab, snake), sec, renamed_names(acc, kebab, snake))
            == renamed_names(read_lines(lines, sec, acc), kebab, snake),
    decreases lines.len(),
{
    if lines.len() > 0 {
        lemma_rename_then_read_line(lines[0], sec, acc, kebab, snake);
        let (next, _) = rename_line(lines[0], sec, kebab, snake);
        let acc2 = read_line(lines[0], sec, acc).1;
        lemma_rename_then_read_lines(lines.drop_first(), next, acc2, kebab, snake);
        let rl = renamed_line_list(lines, sec, kebab, snake);
        assert(rl[0] == rename_line(lines[0], sec, kebab, snake).1);
        assert(rl.drop_first() =~= renamed_line_list(lines.drop_first(), next, kebab, snake));
    }
}

/// The renamed lines, one by one.
pub open spec fn renamed_line_list(
    lines: Seq<Seq<char>>,
    section: ManifestSection,
    kebab: Seq<char>,
    snake: Seq<char>,
) -> Seq<Seq<char>>
    decreases lines.len(),
{
    if lines.len() == 0 {
        seq![]
    } else {
        let (next, out) = rename_line(lines[0], section, kebab, snake);
        seq![out] + renamed_line_list(lines.drop_first(), next, kebab, snake)
    }
}

/// Lines written one after the other.
pub open spec fn joined_lines(ls: Seq<Seq<char>>) -> Seq<char>
    decreases ls.len(),
{
    if ls.len() == 0 {
        seq![]
    } else {
        ls[0] + joined_lines(ls.drop_first())
    }
}

/// Whether `ls` are lines as `split_inclusive('\n')` gives them: none is
/// empty, a line break ends every line but the last, and none holds a line
/// break before its end.
pub open spec fn line_shaped(ls: Seq<Seq<char>>) -> bool {
    forall|i: int|
        0 <= i < ls.len() ==> {
            &&& (#[trigger] ls[i]).len() > 0
            &&& forall|j: int| 0 <= j < ls[i].len() - 1 ==> ls[i][j] != '\n'
            &&& i < ls.len() - 1 ==> ls[i].last() == '\n'
        }
}

proof fn lemma_lines_incl_shaped(s: Seq<char>)
    ensures
        line_shaped(lines_incl(s)),
    decreases s.len(),
{
    if s.len() > 0 {
        lemma_find_char(s, '\n');
        match find_char(s, '\n') {
            Some(k) => {
                lemma_lines_incl_shaped(s.skip(k + 1));
                let first = s.take(k + 1);
                let rest = lines_incl(s.skip(k + 1));
                let ls = lines_incl(s);
                assert(ls == seq![first] + rest);
                assert forall|i: int| 0 <= i < ls.len() implies {
                    &&& (#[trigger] ls[i]).len() > 0
                    &&& forall|j: int| 0 <= j < ls[i].len() - 1 ==> ls[i][j] != '\n'
                    &&& i < ls.len() - 1 ==> ls[i].last() == '\n'
                } by {
                    if i > 0 {
                        assert(ls[i] == rest[i - 1]);
                    } else {
                        assert(ls[0] == first);
                    }
                }
            },
            None => {
                let ls = lines_incl(s);
                assert(ls == seq![s]);
                assert forall|i: int| 0 <= i < ls.len() implies {
                    &&& (#[trigger] ls[i]).len() > 0
                    &&& forall|j: int| 0 <= j < ls[i].len() - 1 ==> ls[i][j] != '\n'
                    &&& i < ls.len() - 1 ==> ls[i].last() == '\n'
                } by {
                    assert(ls[i] == s);
                    assert forall|j: int| 0 <= j < s.len() - 1 implies s[j] != '\n' by {
                        if s[j] == '\n' {
                            assert(crate::text::has_char(s, '\n'));
                        }
                    }
                }
            },
        }
    }
}

/// `find_char` finds the first occurrence.
proof fn lemma_find_char_is(s: Seq<char>, c: char, k: int)
    requires
        0 <= k < s.len(),
        s[k] == c,
        forall|j: int| 0 <= j < k ==> s[j] != c,
    ensures
        find_char(s, c) == Some(k),
{
    lemma_find_char(s, c);
    assert(crate::text::has_char(s, c));
    let m = find_char(s, c)->0;
    if m > k {
        assert(s[k] == c);
    }
}

proof fn lemma_joined_lines_split(m: Seq<Seq<char>>)
    requires
        line_shaped(m),
    ensures
        lines_incl(joined_lines(m)) == m,
    decreases m.len(),
{
    if m.len() > 0 {
        let x = m[0];
        let tail = m.drop_first();
        assert(line_shaped(tail)) by {
            assert forall|i: int| 0 <= i < tail.len() implies {
                &&& (#[trigger] tail[i]).len() > 0
                &&& forall|j: int| 0 <= j < tail[i].len() - 1 ==> tail[i][j] != '\n'
                &&& i < tail.len() - 1 ==> tail[i].last() == '\n'
            } by {
                assert(tail[i] == m[i + 1]);
            }
        }
        lemma_joined_lines_split(tail);
        let rest = joined_lines(tail);
        let s = x + rest;
        assert(m[0].len() > 0);
        if m.len() == 1 {
            assert(rest =~= Seq::<char>::empty());
            assert(s =~= x);
            if x.last() == '\n' {
                lemma_find_char_is(s, '\n', x.len() - 1);
                assert(s.take(x.len() as int) =~= x);
                assert(s.skip(x.len() as int) =~= Seq::<char>::empty());
                assert(lines_incl(s) =~= m);
            } else {
                lemma_find_char(s, '\n');
                assert(!crate::text::has_char(s, '\n')) by {
                    if crate::text::has_char(s, '\n') {
                        let j = choose|j: int| 0 <= j < s.len() && s[j] == '\n';
                        assert(m[0][j] == '\n');
                    }
                }
                assert(lines_incl(s) =~= m);
            }
        } else {
            assert(x.last() == '\n');
            assert forall|j: int| 0 <= j < x.len() - 1 implies s[j] != '\n' by {
                assert(s[j] == x[j]);
            }
            lemma_find_char_is(s, '\n', x.len() - 1);
            assert(s.take(x.len() as int) =~= x);
            assert(s.skip(x.len() as int) =~= rest);
            assert(lines_incl(s) =~= m);
        }
    }
}

proof fn lemma_rename_lines_joined(lines: Seq<Seq<char>>, sec: ManifestSection, kebab: Seq<char>, snake: Seq<char>)
    ensures
        rename_lines(lines, sec, kebab, snake) == joined_lines(renamed_line_list(lines, sec, kebab, snake)),
    decreases lines.len(),
{
    if lines.len() > 0 {
        let (next, out) = rename_line(lines[0], sec, kebab, snake);
        lemma_rename_lines_joined(lines.drop_first(), next, kebab, snake);
        let rl = renamed_line_list(lines, sec, kebab, snake);
        assert(rl[0] == out);
        assert(rl.drop_first() =~= renamed_line_list(lines.drop_first(), next, kebab, snake));
    }
}

/// A renamed line keeps the shape of the line.
proof fn lemma_renamed_line_shape(
    line: Seq<char>,
    sec: ManifestSection,
    kebab: Seq<char>,
    snake: Seq<char>,
    ends: bool,
)
    requires
        plain_name(kebab),
        plain_name(snake),
        line.len() > 0,
        forall|j: int| 0 <= j < line.len() - 1 ==> line[j] != '\n',
        ends ==> line.last() == '\n',
    ensures
        ({
            let nl = rename_line(line, sec, kebab, snake).1;
            &&& nl.len() > 0
            &&& forall|j: int| 0 <= j < nl.len() - 1 ==> nl[j] != '\n'
            &&& ends ==> nl.last() == '\n'
        }),
{
    let t = trim(line);
    if !is_header(t) && is_name_line(t) && sec != ManifestSection::Other {
        if let Some((f, l)) = quote_bounds(line) {
            let rep = if sec == ManifestSection::Lib {
                snake
            } else {
                kebab
            };
            lemma_find_char(line, '"');
            lemma_quote_bounds(line);
            let nl = line.take(f + 1) + rep + line.skip(l);
            let big_l = f + 1 + rep.len();
            assert(l < line.len());
            assert forall|j: int| 0 <= j < nl.len() - 1 implies nl[j] != '\n' by {
                if j <= f {
                    assert(nl[j] == line[j]);
                } else if j < big_l {
                    assert(nl[j] == rep[j - f - 1]);
                    if rep[j - f - 1] == '\n' {
                        assert(rep.contains('\n'));
                    }
                } else {
                    assert(nl[j] == line[l + (j - big_l)]);
                }
            }
            if ends {
                assert(line[line.len() - 1] == '\n');
                assert(nl.last() == line[l + (nl.len() - 1 - big_l)]);
            }
        }
    }
}

proof fn lemma_renamed_list_shaped(lines: Seq<Seq<char>>, sec: ManifestSection, kebab: Seq<char>, snake: Seq<char>)
    requires
        plain_name(kebab),
        plain_name(snake),
        line_shaped(lines),
    ensures
        line_shaped(renamed_line_list(lines, sec, kebab, snake)),
        renamed_line_list(lines, sec, kebab, snake).len() == lines.len(),
    decreases lines.len(),
{
    if lines.len() > 0 {
        let (next, out) = rename_line(lines[0], sec, kebab, snake);
        let tail = lines.drop_first();
        assert(line_shaped(tail)) by {
            assert forall|i: int| 0 <= i < tail.len() implies {
                &&& (#[trigger] tail[i]).len() > 0
                &&& forall|j: int| 0 <= j < tail[i].len() - 1 ==> tail[i][j] != '\n'
                &&& i < tail.len() - 1 ==> tail[i].last() == '\n'
            } by {
                assert(tail[i] == lines[i + 1]);
            }
        }
        lemma_renamed_list_shaped(tail, next, kebab, snake);
        assert(lines[0].len() > 0);
        lemma_renamed_line_shape(lines[0], sec, kebab, snake, lines.len() > 1);
        let rl = renamed_line_list(lines, sec, kebab, snake);
        let rt = renamed_line_list(tail, next, kebab, snake);
        assert forall|i: int| 0 <= i < rl.len() implies {
            &&& (#[trigger] rl[i]).len() > 0
            &&& forall|j: int| 0 <= j < rl[i].len() - 1 ==> rl[i][j] != '\n'
            &&& i < rl.len() - 1 ==> rl[i].last() == '\n'
        } by {
            if i > 0 {
                assert(rl[i] == rt[i - 1]);
            } else {
                assert(rl[0] == out);
            }
        }
    }
}

/// A renamed manifest declares the new names: the package name (when the
/// manifest declares one) is the kebab-case name, the library name the
/// snake-case name, and every binary name the kebab-case name — provided
/// the names hold no `"` and no line break.
pub proof fn renamed_manifest_declares_new_names(raw: Seq<char>, kebab: Seq<char>, snake: Seq<char>)
    requires
        plain_name(kebab),
        plain_name(snake),
    ensures
        spec_manifest_names(spec_rename_manifest(raw, kebab, snake)) == renamed_names(
            spec_manifest_names(raw),
            kebab,
            snake,
        ),
{
    let lines = lines_incl(raw);
    lemma_lines_incl_shaped(raw);
    lemma_rename_lines_joined(lines, ManifestSection::Other, kebab, snake);
    lemma_renamed_list_shaped(lines, ManifestSection::Other, kebab, snake);
    let rl = renamed_line_list(lines, ManifestSection::Other, kebab, snake);
    lemma_joined_lines_split(rl);
    let init: (Option<Seq<char>>, Option<Seq<char>>, Seq<Seq<char>>) = (None, None, seq![]);
    assert(renamed_names(init, kebab, snake) =~= init);
    lemma_rename_then_read_lines(lines, ManifestSection::Other, init, kebab, snake);
}

// ---------------------------------------------------------------------------
// Rewriting references
// ---------------------------------------------------------------------------

/// Characters that may not touch a replaced name: ASCII letters and
/// digits, `_`, and any of `extra`.
pub open spec fn blocks(c: char, extra: Seq<char>) -> bool {
    is_ascii_alnum(c) || c == '_' || extra.contains(c)
}

/// Whether the character before a match, if there is one, blocks it.
pub open spec fn left_blocks(prev: Option<char>, extra: Seq<char>) -> bool {
    match prev {
        Some(c) => blocks(c, extra),
        None => false,
    }
}

/// The replacement of `from` by `to` in `rest`, match by match, where
/// `prev` is the character of the whole text just before `rest` (none at
/// its start): a match is replaced when neither the character before it in
/// the whole text nor the character after it blocks it.
#[verifier::opaque]
pub open spec fn replace_rest(
    rest: Seq<char>,
    prev: Option<char>,
    from: Seq<char>,
    to: Seq<char>,
    extra: Seq<char>,
) -> Seq<char>
    decreases rest.len(),
{
    if from.len() == 0 {
        rest
    } else {
        match find(rest, from) {
            Some(i) => if 0 <= i && i + from.len() <= rest.len() {
                let before = rest.take(i);
                let after = rest.skip(i + from.len());
                let left = if i > 0 {
                    Some(rest[i - 1])
                } else {
                    prev
                };
                let ok = !left_blocks(left, extra) && (after.len() == 0 || !blocks(
                    after[0],
                    extra,
                ));
                before + (if ok {
                    to
                } else {
                    from
                }) + replace_rest(after, Some(from.last()), from, to, extra)
            } else {
                rest
            },
            None => rest,
        }
    }
}

/// `replace_bounded` as a specification.
pub open spec fn spec_replace_bounded(
    text: Seq<char>,
    from: Seq<char>,
    to: Seq<char>,
    extra: Seq<char>,
) -> Seq<char> {
    if from.len() == 0 || from == to {
        text
    } else {
        replace_rest(text, None, from, to, extra)
    }
}

/// The character of `v` just before `pos`, if any.
pub open spec fn char_before(v: Seq<char>, pos: int) -> Option<char> {
    if pos > 0 {
        Some(v[pos - 1])
    } else {
        None
    }
}

/// `find_from` over `v` agrees with `find` over `v.skip(pos)`, shifted.
proof fn lemma_find_shift(v: Seq<char>, p: Seq<char>, pos: int, i: int)
    requires
        0 <= pos <= i,
        pos <= v.len(),
    ensures
        crate::text::find_from(v, p, i) == match crate::text::find_from(v.skip(pos), p, i - pos) {
            Some(k) => Some(k + pos),
            None => None,
        },
    decreases v.len() + 1 - i,
{
    let w = v.skip(pos);
    if i + p.len() > v.len() {
    } else {
        assert(crate::text::occurs_at(v, p, i) == crate::text::occurs_at(w, p, i - pos)) by {
            assert(v.subrange(i, i + p.len()) =~= w.subrange(i - pos, i - pos + p.len()));
        }
        if !crate::text::occurs_at(v, p, i) {
            lemma_find_shift(v, p, pos, i + 1);
        }
    }
}

/// One step of `replace_rest`: the text before the first match, the
/// match or its replacement, and the rest.
proof fn lemma_replace_step(
    rest: Seq<char>,
    prev: Option<char>,
    from: Seq<char>,
    to: Seq<char>,
    extra: Seq<char>,
    i: int,
)
    requires
        from.len() > 0,
        crate::text::find(rest, from) == Some(i),
        0 <= i,
        i + from.len() <= rest.len(),
    ensures
        replace_rest(rest, prev, from, to, extra) == rest.take(i) + (if !left_blocks(
            if i > 0 {
                Some(rest[i - 1])
            } else {
                prev
            },
            extra,
        ) && (i + from.len() == rest.len() || !blocks(rest[i + from.len()], extra)) {
            to
        } else {
            from
        }) + replace_rest(rest.skip(i + from.len()), Some(from.last()), from, to, extra),
{
    reveal(replace_rest);
    let after = rest.skip(i + from.len());
    if after.len() > 0 {
        assert(after[0] == rest[i + from.len()]);
    }
}

/// Whether `c` blocks a replacement.
fn blocks_exec(c: char, extra: &[char]) -> (r: bool)
    ensures
        r == blocks(c, extra@),
{
    if crate::text::ascii_alnum(c) || c == '_' {
        return true;
    }
    let mut i: usize = 0;
    while i < extra.len()
        invariant
            i <= extra.len(),
            forall|j: int| 0 <= j < i ==> extra@[j] != c,
        decreases extra.len() - i,
    {
        if extra[i] == c {
            assert(extra@.contains(c));
            return true;
        }
        i = i + 1;
    }
    false
}

/// Replace `from` with `to` only at identifier boundaries: the characters
/// around the match in the whole text must not be ASCII alphanumerics, `_`,
/// or any of `extra`
/// (used for `-` so kebab-case names never rewrite a longer hyphenated
/// name).
pub fn replace_bounded(text: &str, from: &str, to: &str, extra: &[char]) -> (r: String)
    ensures
        r@ == spec_replace_bounded(text@, from@, to@, extra@),
{
    let v = str_chars(text);
    let fv = str_chars(from);
    let tv = str_chars(to);
    if fv.len() == 0 || crate::text::chars_eq(&fv, &tv) {
        return crate::text::chars_to_string(&v);
    }
    let mut out: Vec<char> = Vec::new();
    let mut pos: usize = 0;
    assert(v@.skip(0) =~= v@);
    loop
        invariant
            pos <= v.len(),
            v@ == text@,
            fv@ == from@,
            tv@ == to@,
            fv.len() > 0,
            from@ != to@,
            out@ + replace_rest(v@.skip(pos as int), char_before(v@, pos as int), from@, to@, extra@)
                == replace_rest(text@, None, from@, to@, extra@),
        decreases v.len() - pos,
    {
        let ghost rest = v@.skip(pos as int);
        let ghost prev = out@;
        proof {
            lemma_find_shift(v@, fv@, pos as int, pos as int);
        }
        match crate::text::find_from_exec(&v, &fv, pos) {
            None => {
                push_range(&mut out, &v, pos, v.len());
                proof {
                    assert(v@.subrange(pos as int, v.len() as int) =~= rest);
                    assert(crate::text::find(rest, from@) is None);
                    reveal(replace_rest);
                    assert(replace_rest(rest, char_before(v@, pos as int), from@, to@, extra@)
                        == rest);
                }
                return crate::text::chars_to_string(&out);
            },
            Some(idx) => {
                proof {
                    crate::text::lemma_find_from(v@, fv@, pos as int);
                }
                let after_start = idx + fv.len();
                let before_ok = idx == 0 || !blocks_exec(v[idx - 1], extra);
                let after_ok = after_start == v.len() || !blocks_exec(v[after_start], extra);
                push_range(&mut out, &v, pos, idx);
                if before_ok && after_ok {
                    push_range(&mut out, &tv, 0, tv.len());
                } else {
                    push_range(&mut out, &fv, 0, fv.len());
                }
                proof {
                    let i = idx - pos;
                    assert(crate::text::find(rest, from@) == Some(i));
                    lemma_replace_step(rest, char_before(v@, pos as int), from@, to@, extra@, i as int);
                    assert(v@[after_start - 1] == fv@[fv.len() - 1]) by {
                        assert(v@.subrange(idx as int, idx + fv.len()) == fv@);
                        assert(v@.subrange(idx as int, idx + fv.len())[fv.len() - 1] == v@[after_start - 1]);
                    }
                    assert(tv@.subrange(0, tv.len() as int) =~= tv@);
                    assert(fv@.subrange(0, fv.len() as int) =~= fv@);
                    assert(rest.take(i as int) =~= v@.subrange(pos as int, idx as int));
                    assert(rest.skip(i + from@.len()) =~= v@.skip(after_start as int));
                    if i > 0 {
                        assert(rest[i - 1] == v@[idx - 1]);
                    }
                    assert(char_before(v@, after_start as int) == Some(from@.last()));
                    if after_start < v.len() {
                        assert(rest[i + from@.len()] == v@[after_start as int]);
                    }
                }
                pos = after_start;
            },
        }
    }
}

/// Whether the occurrence of `from` at `i` touches a blocking character on
/// either side.
pub open spec fn blocked_at(text: Seq<char>, from: Seq<char>, extra: Seq<char>, i: int) -> bool {
    (i > 0 && blocks(text[i - 1], extra)) || (i + from.len() < text.len() && blocks(
        text[i + from.len()],
        extra,
    ))
}

proof fn lemma_replace_rest_keeps(text: Seq<char>, from: Seq<char>, to: Seq<char>, extra: Seq<char>, p: int)
    requires
        from.len() > 0,
        0 <= p <= text.len(),
        forall|i: int| #[trigger] crate::text::occurs_at(text, from, i) ==> blocked_at(text, from, extra, i),
    ensures
        replace_rest(text.skip(p), char_before(text, p), from, to, extra) == text.skip(p),
    decreases text.len() - p,
{
    let rest = text.skip(p);
    crate::text::lemma_find_from(rest, from, 0);
    match find(rest, from) {
        None => {
            reveal(replace_rest);
        },
        Some(i) => {
            assert(rest.subrange(i, i + from.len()) =~= text.subrange(p + i, p + i + from.len()));
            assert(crate::text::occurs_at(text, from, p + i));
            lemma_replace_step(rest, char_before(text, p), from, to, extra, i);
            if i > 0 {
                assert(rest[i - 1] == text[p + i - 1]);
            }
            if i + from.len() < rest.len() {
                assert(rest[i + from.len()] == text[p + i + from.len()]);
            }
            let q = p + i + from.len();
            assert(text[q - 1] == from.last()) by {
                assert(text.subrange(p + i, q)[from.len() - 1] == text[q - 1]);
            }
            lemma_replace_rest_keeps(text, from, to, extra, q);
            assert(text.skip(q) =~= rest.skip(i + from.len()));
            assert(rest.take(i) + from + rest.skip(i + from.len()) =~= rest);
        },
    }
}

/// A name that occurs only inside longer identifiers — each occurrence
/// touches an ASCII letter, digit, `_` or a character of `extra` on one
/// side — is left alone, so a kebab-case name never rewrites a longer
/// hyphenated one.
pub proof fn bounded_replace_leaves_embedded_names(
    text: Seq<char>,
    from: Seq<char>,
    to: Seq<char>,
    extra: Seq<char>,
)
    requires
        forall|i: int| #[trigger] crate::text::occurs_at(text, from, i) ==> blocked_at(text, from, extra, i),
    ensures
        spec_replace_bounded(text, from, to, extra) == text,
{
    if from.len() > 0 && from != to {
        lemma_replace_rest_keeps(text, from, to, extra, 0);
        assert(text.skip(0) =~= text);
    }
}

/// The first occurrence of a non-empty name that differs from its
/// replacement is replaced when it is at an identifier boundary: when the
/// characters just before and just after it, where there are any, are
/// neither ASCII letters, digits or `_` nor characters of `extra`. The result
/// keeps the text before that occurrence and goes on with `to`.
pub proof fn first_bounded_occurrence_is_replaced(
    text: Seq<char>,
    from: Seq<char>,
    to: Seq<char>,
    extra: Seq<char>,
    i: int,
)
    requires
        from.len() > 0,
        from != to,
        crate::text::occurs_at(text, from, i),
        forall|j: int| 0 <= j < i ==> !crate::text::occurs_at(text, from, j),
        i > 0 ==> !(('0' <= text[i - 1] && text[i - 1] <= '9') || ('a' <= text[i - 1] && text[i - 1]
            <= 'z') || ('A' <= text[i - 1] && text[i - 1] <= 'Z') || text[i - 1] == '_'
            || extra.contains(text[i - 1])),
        i + from.len() < text.len() ==> !(('0' <= text[i + from.len()] && text[i + from.len()] <= '9')
            || ('a' <= text[i + from.len()] && text[i + from.len()] <= 'z') || ('A' <= text[i
            + from.len()] && text[i + from.len()] <= 'Z') || text[i + from.len()] == '_'
            || extra.contains(text[i + from.len()])),
    ensures
        spec_replace_bounded(text, from, to, extra).len() >= i + to.len(),
        spec_replace_bounded(text, from, to, extra).take(i) == text.take(i),
        spec_replace_bounded(text, from, to, extra).subrange(i, i + to.len()) == to,
{
    crate::text::lemma_find_from(text, from, 0);
    let k = find(text, from)->Some_0;
    assert(k == i);
    lemma_replace_step(text, None, from, to, extra, i);
    let r = spec_replace_bounded(text, from, to, extra);
    let tail = replace_rest(text.skip(i + from.len()), Some(from.last()), from, to, extra);
    assert(r == text.take(i) + to + tail);
    assert(r.take(i) =~= text.take(i));
    assert(r.subrange(i, i + to.len()) =~= to);
}

/// `name` with every `-` replaced by `_`.
pub open spec fn spec_snake_case(name: Seq<char>) -> Seq<char> {
    name.map_values(|c: char| if c == '-' { '_' } else { c })
}

/// The snake-case form is as long as the name and holds no `-`; every other
/// character stays, and taking the form again changes nothing.
pub proof fn snake_case_has_no_hyphen(name: Seq<char>)
    ensures
        spec_snake_case(name).len() == name.len(),
        forall|i: int| 0 <= i < name.len() ==> #[trigger] spec_snake_case(name)[i] != '-',
        forall|i: int| 0 <= i < name.len() && name[i] != '-' ==> #[trigger] spec_snake_case(name)[i]
            == name[i],
        spec_snake_case(spec_snake_case(name)) == spec_snake_case(name),
{
    assert(spec_snake_case(spec_snake_case(name)) =~= spec_snake_case(name));
}

/// The snake_case form of a kebab-case name.
pub fn snake_case(name: &str) -> (r: String)
    ensures
        r@ == spec_snake_case(name@),
{
    let v = str_chars(name);
    let mut out: Vec<char> = Vec::new();
    let mut i: usize = 0;
    while i < v.len()
        invariant
            i <= v.len(),
            out@ == spec_snake_case(v@.take(i as int)),
        decreases v.len() - i,
    {
        if v[i] == '-' {
            out.push('_');
        } else {
            out.push(v[i]);
        }
        assert(out@ =~= spec_snake_case(v@.take(i + 1)));
        i = i + 1;
    }
    assert(v@.take(v.len() as int) =~= v@);
    crate::text::chars_to_string(&out)
}

/// A rewrite of references to an old name.
#[derive(Debug, Clone)]
pub struct Rename {
    /// The old name.
    pub from: String,
    /// The new name.
    pub to: String,
    /// Further characters that may not touch a replaced name.
    pub extra: Vec<char>,
}

/// A rename as plain values.
pub open spec fn rename_view(r: Rename) -> (Seq<char>, Seq<char>, Seq<char>) {
    (r.from@, r.to@, r.extra@)
}

/// Renames as plain values.
pub open spec fn renames_view(rs: Seq<Rename>) -> Seq<(Seq<char>, Seq<char>, Seq<char>)> {
    rs.map_values(|r: Rename| rename_view(r))
}

/// The renames that change something: a non-empty old name that differs
/// from the new one.
pub open spec fn effective(rs: Seq<(Seq<char>, Seq<char>, Seq<char>)>) -> Seq<
    (Seq<char>, Seq<char>, Seq<char>),
>
    decreases rs.len(),
{
    if rs.len() == 0 {
        seq![]
    } else if rs.last().0.len() > 0 && rs.last().0 != rs.last().1 {
        effective(rs.drop_last()).push(rs.last())
    } else {
        effective(rs.drop_last())
    }
}

/// Every rename the old names call for: the package name and the binary
/// names become `package` (with `-` as a further boundary character), the
/// library name becomes `snake`.
pub open spec fn candidate_renames(
    old: (Option<Seq<char>>, Option<Seq<char>>, Seq<Seq<char>>),
    package: Seq<char>,
    snake: Seq<char>,
) -> Seq<(Seq<char>, Seq<char>, Seq<char>)> {
    let p = match old.0 {
        Some(x) => seq![(x, package, seq!['-'])],
        None => seq![],
    };
    let l = match old.1 {
        Some(x) => seq![(x, snake, Seq::<char>::empty())],
        None => seq![],
    };
    p + l + old.2.map_values(|x: Seq<char>| (x, package, seq!['-']))
}

/// The renames that point references to the template's names at the new
/// package and library names.
pub open spec fn spec_package_renames(
    old: (Option<Seq<char>>, Option<Seq<char>>, Seq<Seq<char>>),
    package: Seq<char>,
    snake: Seq<char>,
) -> Seq<(Seq<char>, Seq<char>, Seq<char>)> {
    effective(candidate_renames(old, package, snake))
}

proof fn lemma_effective_filter(rs: Seq<(Seq<char>, Seq<char>, Seq<char>)>)
    ensures
        effective(rs) == rs.filter(
            |r: (Seq<char>, Seq<char>, Seq<char>)| r.0.len() > 0 && r.0 != r.1,
        ),
    decreases rs.len(),
{
    reveal(Seq::filter);
    if rs.len() > 0 {
        lemma_effective_filter(rs.drop_last());
    }
}

/// The renames point the template's names at the new ones: the old
/// package name and every old binary name become `package` (with `-` as a
/// further boundary character) and the old library name becomes `snake`,
/// each unless it is empty or already the new name; and every rename
/// changes something.
pub proof fn renames_cover_every_old_name(
    old: (Option<Seq<char>>, Option<Seq<char>>, Seq<Seq<char>>),
    package: Seq<char>,
    snake: Seq<char>,
)
    ensures
        ({
            let rs = spec_package_renames(old, package, snake);
            &&& old.0 is Some && old.0->Some_0.len() > 0 && old.0->Some_0 != package ==> rs.contains(
                (old.0->Some_0, package, seq!['-']),
            )
            &&& old.1 is Some && old.1->Some_0.len() > 0 && old.1->Some_0 != snake ==> rs.contains(
                (old.1->Some_0, snake, Seq::<char>::empty()),
            )
            &&& forall|k: int|
                0 <= k < old.2.len() && (#[trigger] old.2[k]).len() > 0 && old.2[k] != package
                    ==> rs.contains((old.2[k], package, seq!['-']))
            &&& forall|k: int| 0 <= k < rs.len() ==> (#[trigger] rs[k]).0.len() > 0 && rs[k].0 != rs[k].1
        }),
{
    let c = candidate_renames(old, package, snake);
    let pred = |r: (Seq<char>, Seq<char>, Seq<char>)| r.0.len() > 0 && r.0 != r.1;
    lemma_effective_filter(c);
    let rs = spec_package_renames(old, package, snake);
    assert(rs == c.filter(pred));
    let pn: int = if old.0 is Some { 1 } else { 0 };
    let ln: int = if old.1 is Some { 1 } else { 0 };
    if old.0 is Some && old.0->Some_0.len() > 0 && old.0->Some_0 != package {
        assert(c[0] == (old.0->Some_0, package, seq!['-']));
        c.lemma_filter_contains(pred, 0);
    }
    if old.1 is Some && old.1->Some_0.len() > 0 && old.1->Some_0 != snake {
        assert(c[pn] == (old.1->Some_0, snake, Seq::<char>::empty()));
        c.lemma_filter_contains(pred, pn);
    }
    assert forall|k: int|
        0 <= k < old.2.len() && (#[trigger] old.2[k]).len() > 0 && old.2[k] != package implies rs.contains(
        (old.2[k], package, seq!['-']),
    ) by {
        assert(c[pn + ln + k] == (old.2[k], package, seq!['-']));
        c.lemma_filter_contains(pred, pn + ln + k);
    }
    assert forall|k: int| 0 <= k < rs.len() implies (#[trigger] rs[k]).0.len() > 0 && rs[k].0 != rs[k].1 by {
        c.lemma_filter_pred(pred, k);
    }
}

fn hyphen_only() -> (r: Vec<char>)
    ensures
        r@ == seq!['-'],
{
    let mut v: Vec<char> = Vec::new();
    v.push('-');
    assert(v@ =~= seq!['-']);
    v
}

fn copy_rename(r: &Rename) -> (c: Rename)
    ensures
        rename_view(c) == rename_view(*r),
{
    Rename { from: r.from.clone(), to: r.to.clone(), extra: r.extra.clone() }
}

/// The renames that point references to the template's package, library,
/// and binary names at the new names; renames that would change nothing
/// are left out.
pub fn package_renames(old: &ManifestNames, package: &str, snake: &str) -> (r: Vec<Rename>)
    ensures
        renames_view(r@) == spec_package_renames(names_view(*old), package@, snake@),
{
    let mut cands: Vec<Rename> = Vec::new();
    match &old.package {
        Some(x) => cands.push(
            Rename { from: x.clone(), to: package.to_owned(), extra: hyphen_only() },
        ),
        None => {},
    }
    match &old.lib {
        Some(x) => cands.push(Rename { from: x.clone(), to: snake.to_owned(), extra: Vec::new() }),
        None => {},
    }
    let ghost head = renames_view(cands@);
    let ghost hl = cands.len();
    let mut i: usize = 0;
    while i < old.bins.len()
        invariant
            i <= old.bins.len(),
            hl == head.len(),
            cands.len() == hl + i,
            forall|k: int| 0 <= k < hl ==> rename_view(#[trigger] cands@[k]) == head[k],
            forall|k: int|
                0 <= k < i ==> rename_view(#[trigger] cands@[hl + k]) == (
                    old.bins@[k]@,
                    package@,
                    seq!['-'],
                ),
        decreases old.bins.len() - i,
    {
        cands.push(Rename { from: old.bins[i].clone(), to: package.to_owned(), extra: hyphen_only() });
        i = i + 1;
    }
    proof {
        let n = names_view(*old);
        let p = match n.0 {
            Some(x) => seq![(x, package@, seq!['-'])],
            None => seq![],
        };
        let l = match n.1 {
            Some(x) => seq![(x, snake@, Seq::<char>::empty())],
            None => seq![],
        };
        assert(head =~= p + l);
        let c = candidate_renames(n, package@, snake@);
        assert forall|k: int| 0 <= k < c.len() implies renames_view(cands@)[k] == c[k] by {
            if k >= hl {
                assert(rename_view(cands@[hl + (k - hl)]) == c[k]);
            } else {
                assert(rename_view(cands@[k]) == head[k]);
            }
        }
        assert(renames_view(cands@) =~= candidate_renames(n, package@, snake@));
    }
    let ghost all = renames_view(cands@);
    let mut out: Vec<Rename> = Vec::new();
    let mut j: usize = 0;
    while j < cands.len()
        invariant
            j <= cands.len(),
            all == renames_view(cands@),
            renames_view(out@) == effective(all.take(j as int)),
        decreases cands.len() - j,
    {
        let c = &cands[j];
        assert(all.take(j + 1).drop_last() =~= all.take(j as int));
        assert(all.take(j + 1).last() == rename_view(*c));
        if !c.from.as_str().is_empty() && !str_eq_local(c.from.as_str(), c.to.as_str()) {
            out.push(copy_rename(c));
            assert(renames_view(out@) =~= effective(all.take(j as int)).push(rename_view(*c)));
        }
        j = j + 1;
    }
    assert(all.take(cands.len() as int) =~= all);
    out
}

fn str_eq_local(a: &str, b: &str) -> (r: bool)
    ensures
        r == (a@ == b@),
{
    crate::text::str_eq(a, b)
}

/// The text after applying `renames` in order.
pub open spec fn spec_rewrite(text: Seq<char>, renames: Seq<(Seq<char>, Seq<char>, Seq<char>)>) -> Seq<
    char,
>
    decreases renames.len(),
{
    if renames.len() == 0 {
        text
    } else {
        spec_rewrite(
            spec_replace_bounded(text, renames[0].0, renames[0].1, renames[0].2),
            renames.drop_first(),
        )
    }
}

/// Point references to old names at the new ones, rename by rename.
pub fn rewrite_references(text: &str, renames: &Vec<Rename>) -> (r: String)
    ensures
        r@ == spec_rewrite(text@, renames_view(renames@)),
{
    let ghost rs = renames_view(renames@);
    let mut current = text.to_owned();
    let mut i: usize = 0;
    assert(rs.skip(0) =~= rs);
    while i < renames.len()
        invariant
            i <= renames.len(),
            rs == renames_view(renames@),
            spec_rewrite(current@, rs.skip(i as int)) == spec_rewrite(text@, rs),
        decreases renames.len() - i,
    {
        let r = &renames[i];
        let next = replace_bounded(current.as_str(), r.from.as_str(), r.to.as_str(), r.extra.as_slice());
        assert(rs.skip(i as int)[0] == rename_view(*r));
        assert(rs.skip(i as int).drop_first() =~= rs.skip(i + 1));
        current = next;
        i = i + 1;
    }
    current
}


// ---------------------------------------------------------------------------
// Which project files are rewritten
// ---------------------------------------------------------------------------

/// Whether the rewrite descends into a directory named `name`: it skips
/// `.git` and `target`.
pub fn descends_into(name: &str) -> (r: bool)
    ensures
        r == (name@ != ".git"@ && name@ != "target"@),
{
    !(crate::text::str_eq(name, ".git") || crate::text::str_eq(name, "target"))
}

/// The characters that `bytes` encode as UTF-8, when they are valid UTF-8.
pub uninterp spec fn utf8_text(bytes: Seq<u8>) -> Option<Seq<char>>;

/// Decodes UTF-8 (`str::from_utf8`), `None` when the bytes are not valid
/// UTF-8.
#[verifier::external_body]
fn decode_utf8(bytes: &[u8]) -> (r: Option<String>)
    ensures
        match r {
            Some(s) => utf8_text(bytes@) == Some(s@),
            None => utf8_text(bytes@) is None,
        },
{
    std::str::from_utf8(bytes).ok().map(str::to_owned)
}

/// What the rewrite writes back into a project file with contents
/// `bytes`: nothing for a binary file (one holding a NUL byte) or one that
/// is not UTF-8, nothing when the renames change nothing, else the
/// rewritten text.
pub open spec fn spec_rewritten_file(bytes: Seq<u8>, renames: Seq<(Seq<char>, Seq<char>, Seq<char>)>) -> Option<
    Seq<char>,
> {
    if bytes.contains(0u8) {
        None
    } else {
        match utf8_text(bytes) {
            None => None,
            Some(t) => if spec_rewrite(t, renames) == t {
                None
            } else {
                Some(spec_rewrite(t, renames))
            },
        }
    }
}

/// The new contents of a project file after the renames, if it changes.
pub fn rewritten_file(bytes: &[u8], renames: &Vec<Rename>) -> (r: Option<String>)
    ensures
        match r {
            Some(s) => spec_rewritten_file(bytes@, renames_view(renames@)) == Some(s@),
            None => spec_rewritten_file(bytes@, renames_view(renames@)) is None,
        },
{
    let mut i: usize = 0;
    while i < bytes.len()
        invariant
            i <= bytes.len(),
            forall|j: int| 0 <= j < i ==> bytes@[j] != 0u8,
        decreases bytes.len() - i,
    {
        if bytes[i] == 0u8 {
            assert(bytes@.contains(0u8));
            return None;
        }
        i = i + 1;
    }
    assert(!bytes@.contains(0u8));
    match decode_utf8(bytes) {
        None => None,
        Some(text) => {
            let updated = rewrite_references(text.as_str(), renames);
            if crate::text::str_eq(updated.as_str(), text.as_str()) {
                None
            } else {
                Some(updated)
            }
        },
    }
}

} // verus!
