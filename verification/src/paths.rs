//! Path strings: the final component of a path and joining segments.

use vstd::prelude::*;

use crate::text::{chars_range_to_string, push_str, str_chars};

verus! {

/// The index of the last occurrence of `c` in `s`, or `-1`.
pub open spec fn last_index_of(s: Seq<char>, c: char) -> int
    decreases s.len(),
{
    if s.len() == 0 {
        -1
    } else if s.last() == c {
        s.len() - 1
    } else {
        last_index_of(s.drop_last(), c)
    }
}

proof fn lemma_last_slash_before(pre: Seq<char>, base: Seq<char>)
    requires
        pre.len() == 0 || pre.last() == '/',
        !base.contains('/'),
    ensures
        last_index_of(pre + base, '/') == pre.len() - 1,
    decreases base.len(),
{
    if base.len() == 0 {
        assert(pre + base =~= pre);
    } else {
        assert(base.last() == base[base.len() - 1]);
        assert((pre + base).last() == base.last());
        assert((pre + base).drop_last() =~= pre + base.drop_last());
        assert(!base.drop_last().contains('/')) by {
            if base.drop_last().contains('/') {
                let k = choose|k: int| 0 <= k < base.drop_last().len() && base.drop_last()[k] == '/';
                assert(base[k] == '/');
            }
        }
        lemma_last_slash_before(pre, base.drop_last());
    }
}

/// The final component of `pre + base`, where `pre` is empty or ends with
/// a separator and `base` is a non-empty name without one other than `.`
/// and `..`, is `base`.
pub(crate) proof fn lemma_file_name_of_last(pre: Seq<char>, base: Seq<char>)
    requires
        pre.len() == 0 || pre.last() == '/',
        base.len() > 0,
        !base.contains('/'),
        base != seq!['.'],
        base != seq!['.', '.'],
    ensures
        file_name(pre + base) == Some(base),
{
    lemma_last_slash_before(pre, base);
    let s = pre + base;
    assert(s.last() == base[base.len() - 1]);
    assert(s.subrange(pre.len() as int, s.len() as int) =~= base);
}

proof fn lemma_last_index_of(s: Seq<char>, c: char)
    ensures
        -1 <= last_index_of(s, c) < s.len(),
        last_index_of(s, c) >= 0 ==> s[last_index_of(s, c)] == c,
        forall|j: int| last_index_of(s, c) < j < s.len() ==> s[j] != c,
    decreases s.len(),
{
    if s.len() > 0 && s.last() != c {
        lemma_last_index_of(s.drop_last(), c);
        assert forall|j: int| last_index_of(s, c) < j < s.len() implies s[j] != c by {
            if j < s.len() - 1 {
                assert(s[j] == s.drop_last()[j]);
            }
        }
    }
}

/// The final component of a `/`-separated path, as `Path::file_name`
/// gives it on Unix: trailing separators and `.` components are skipped,
/// and a path that ends in `..`, is a root, or is empty has none.
pub open spec fn file_name(s: Seq<char>) -> Option<Seq<char>>
    decreases s.len(),
{
    if s.len() == 0 {
        None
    } else if s.last() == '/' {
        file_name(s.drop_last())
    } else {
        let k = last_index_of(s, '/') + 1;
        let seg = s.subrange(k, s.len() as int);
        if seg == seq!['.'] {
            if 0 <= k < s.len() {
                file_name(s.take(k))
            } else {
                None
            }
        } else if seg == seq!['.', '.'] {
            None
        } else {
            Some(seg)
        }
    }
}

/// Bounds `[start, end)` of the final component of `v`, if it has one.
pub fn file_name_bounds(v: &Vec<char>) -> (r: Option<(usize, usize)>)
    ensures
        r matches Some((a, b)) ==> a <= b <= v.len() && file_name(v@) == Some(
            v@.subrange(a as int, b as int),
        ),
        r is None ==> file_name(v@) is None,
{
    let mut end: usize = v.len();
    assert(v@.take(end as int) =~= v@);
    loop
        invariant
            end <= v.len(),
            file_name(v@) == file_name(v@.take(end as int)),
        decreases end,
    {
        let ghost s = v@.take(end as int);
        if end == 0 {
            return None;
        }
        if v[end - 1] == '/' {
            assert(s.drop_last() =~= v@.take(end - 1));
            end = end - 1;
            continue;
        }
        let mut k: usize = end;
        while k > 0 && v[k - 1] != '/'
            invariant
                k <= end <= v.len(),
                forall|j: int| k <= j < end ==> v@[j] != '/',
                k < end ==> v@[end - 1] != '/',
            decreases k,
        {
            k = k - 1;
        }
        proof {
            lemma_last_index_of(s, '/');
            if k > 0 {
                assert(s[k - 1] == '/');
            }
            let li = last_index_of(s, '/');
            if li >= k {
                assert(s[li] == v@[li]);
            }
            if li < k - 1 {
                assert(s[k - 1] == '/');
            }
            assert(li + 1 == k);
            assert(s.subrange(k as int, s.len() as int) =~= v@.subrange(k as int, end as int));
        }
        let len = end - k;
        if len == 1 && v[k] == '.' {
            assert(v@.subrange(k as int, end as int) =~= seq!['.']);
            if k == 0 {
                proof {
                    assert(s.take(0) =~= Seq::<char>::empty());
                    assert(file_name(Seq::<char>::empty()) is None);
                    assert(s.last() == v@[end - 1]);
                    assert(file_name(s) == file_name(s.take(0)));
                }
                return None;
            }
            assert(s.take(k as int) =~= v@.take(k as int));
            end = k;
            continue;
        }
        if len == 2 && v[k] == '.' && v[k + 1] == '.' {
            assert(v@.subrange(k as int, end as int) =~= seq!['.', '.']);
            return None;
        }
        proof {
            if v@.subrange(k as int, end as int) == seq!['.'] {
                assert(v@.subrange(k as int, end as int)[0] == v@[k as int]);
            }
            if v@.subrange(k as int, end as int) == seq!['.', '.'] {
                assert(v@.subrange(k as int, end as int)[1] == v@[k + 1]);
            }
        }
        return Some((k, end));
    }
}

/// `segment` appended to `base` as `Path::join` does on Unix: an absolute
/// segment replaces the base; otherwise a `/` separates the two unless
/// the base is empty or already ends with one.
pub open spec fn spec_join(base: Seq<char>, segment: Seq<char>) -> Seq<char> {
    if segment.len() > 0 && segment[0] == '/' {
        segment
    } else if base.len() == 0 || base.last() == '/' {
        base + segment
    } else {
        base + seq!['/'] + segment
    }
}

/// Joins a path segment onto a base path.
pub fn path_join(base: &str, segment: &str) -> (r: String)
    ensures
        r@ == spec_join(base@, segment@),
{
    let b = str_chars(base);
    let s = str_chars(segment);
    if s.len() > 0 && s[0] == '/' {
        return chars_range_to_string(&s, 0, s.len());
    }
    let mut out = chars_range_to_string(&b, 0, b.len());
    assert(b@.subrange(0, b@.len() as int) =~= b@);
    assert(s@.subrange(0, s@.len() as int) =~= s@);
    if !(b.len() == 0 || b[b.len() - 1] == '/') {
        push_str(&mut out, "/");
        proof {
            reveal_strlit("/");
        }
    }
    push_str(&mut out, segment);
    out
}

} // verus!
