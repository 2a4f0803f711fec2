//! Splitting a path into its segments.
//!
//! A path is cut at every `/`. The pieces between separators are its
//! segments; empty pieces are dropped, so a leading separator, a trailing
//! separator and a doubled separator add nothing. `/` alone has no segment
//! and addresses the root; `/foo`, `foo/` and `/foo/` all address the same
//! node.
use vstd::prelude::*;

verus! {

/// The number of characters from index `i` up to the next `/` or the end.
pub open spec fn run_len(s: Seq<char>, i: int) -> nat
    decreases s.len() - i,
{
    if 0 <= i < s.len() && s[i] != '/' {
        1 + run_len(s, i + 1)
    } else {
        0
    }
}

/// The segments of `s` that start at index `i` or later.
pub open spec fn segments_from(s: Seq<char>, i: int) -> Seq<Seq<char>>
    decreases s.len() - i,
{
    if i < 0 || i >= s.len() {
        Seq::empty()
    } else if s[i] == '/' {
        segments_from(s, i + 1)
    } else {
        let n = run_len(s, i);
        proof {
            lemma_run_len(s, i);
        }
        seq![s.subrange(i, i + n)] + segments_from(s, i + n)
    }
}

/// The segments of a path, in order.
pub open spec fn spec_segments(s: Seq<char>) -> Seq<Seq<char>> {
    segments_from(s, 0)
}

/// Whether a segment is written as a placeholder, `{name}`.
pub open spec fn spec_is_wildcard(seg: Seq<char>) -> bool {
    seg.len() >= 2 && seg[0] == '{' && seg[seg.len() - 1] == '}'
}

/// The name that a segment binds: what stands between the braces of a
/// placeholder, and the segment itself otherwise.
pub open spec fn spec_param_name(seg: Seq<char>) -> Seq<char> {
    if spec_is_wildcard(seg) {
        seg.subrange(1, seg.len() - 1)
    } else {
        seg
    }
}

/// A run never leaves the sequence, and no separator stands inside it.
pub proof fn lemma_run_len(s: Seq<char>, i: int)
    requires
        0 <= i <= s.len(),
    ensures
        i + run_len(s, i) <= s.len(),
        forall|k: int| i <= k < i + run_len(s, i) ==> s[k] != '/',
        i + run_len(s, i) < s.len() ==> s[i + run_len(s, i)] == '/',
    decreases s.len() - i,
{
    if i < s.len() && s[i] != '/' {
        lemma_run_len(s, i + 1);
    }
}

/// A run of `b` is the same run in `a + b`, shifted by the length of `a`.
pub proof fn lemma_run_len_shift(a: Seq<char>, b: Seq<char>, j: int)
    requires
        0 <= j <= b.len(),
    ensures
        run_len(a + b, a.len() + j) == run_len(b, j),
    decreases b.len() - j,
{
    if j < b.len() {
        assert((a + b)[a.len() + j] == b[j]);
        if b[j] != '/' {
            lemma_run_len_shift(a, b, j + 1);
        }
    }
}

/// The segments of `b` are the segments of `a + b` that start in `b`.
pub proof fn lemma_segments_shift(a: Seq<char>, b: Seq<char>, j: int)
    requires
        0 <= j <= b.len(),
    ensures
        segments_from(a + b, a.len() + j) == segments_from(b, j),
    decreases b.len() - j,
{
    if j < b.len() {
        assert((a + b)[a.len() + j] == b[j]);
        if b[j] == '/' {
            lemma_segments_shift(a, b, j + 1);
        } else {
            let n = run_len(b, j);
            lemma_run_len(b, j);
            lemma_run_len_shift(a, b, j);
            lemma_segments_shift(a, b, j + n);
            assert((a + b).subrange(a.len() + j, a.len() + j + n) =~= b.subrange(j, j + n));
        }
    }
}

/// A run of `a` is the same run in `a + b`, where `b` is empty or begins
/// with a separator.
pub proof fn lemma_run_len_prefix(a: Seq<char>, b: Seq<char>, i: int)
    requires
        0 <= i <= a.len(),
        b.len() == 0 || b[0] == '/',
    ensures
        run_len(a + b, i) == run_len(a, i),
    decreases a.len() - i,
{
    if i < a.len() {
        assert((a + b)[i] == a[i]);
        if a[i] != '/' {
            lemma_run_len_prefix(a, b, i + 1);
        }
    } else if b.len() > 0 {
        assert((a + b)[i] == b[0]);
    }
}

/// The segments of `a + b` from an index in `a` on are those of `a` from
/// there on, followed by those of `b`, where `b` is empty or begins with a
/// separator.
pub proof fn lemma_segments_from_concat(a: Seq<char>, b: Seq<char>, i: int)
    requires
        0 <= i <= a.len(),
        b.len() == 0 || b[0] == '/',
    ensures
        segments_from(a + b, i) == segments_from(a, i) + spec_segments(b),
    decreases a.len() - i,
{
    if i == a.len() {
        lemma_segments_shift(a, b, 0);
        assert(segments_from(a, i) + spec_segments(b) =~= spec_segments(b));
    } else {
        assert((a + b)[i] == a[i]);
        if a[i] == '/' {
            lemma_segments_from_concat(a, b, i + 1);
        } else {
            let n = run_len(a, i);
            lemma_run_len(a, i);
            lemma_run_len_prefix(a, b, i);
            lemma_segments_from_concat(a, b, i + n);
            assert((a + b).subrange(i, i + n) =~= a.subrange(i, i + n));
            assert(seq![a.subrange(i, i + n)] + (segments_from(a, i + n) + spec_segments(b))
                =~= (seq![a.subrange(i, i + n)] + segments_from(a, i + n)) + spec_segments(b));
        }
    }
}

/// The segments of a prefix followed by a path that begins with a
/// separator are the segments of the prefix followed by those of the path:
/// nothing runs across the joint.
pub proof fn lemma_segments_concat(prefix: Seq<char>, path: Seq<char>)
    requires
        path.len() == 0 || path[0] == '/',
    ensures
        spec_segments(prefix + path) == spec_segments(prefix) + spec_segments(path),
{
    lemma_segments_from_concat(prefix, path, 0);
}

/// Whether a segment is written as a placeholder, `{name}`.
pub fn is_wildcard(seg: &str) -> (r: bool)
    ensures
        r == spec_is_wildcard(seg@),
{
    let n: usize = seg.unicode_len();
    n >= 2 && seg.get_char(0) == '{' && seg.get_char(n - 1) == '}'
}

/// The name that a segment binds as a path parameter.
pub fn param_name(seg: &str) -> (name: String)
    ensures
        name@ == spec_param_name(seg@),
{
    if is_wildcard(seg) {
        let n: usize = seg.unicode_len();
        String::from_str(seg.substring_char(1, n - 1))
    } else {
        String::from_str(seg)
    }
}

/// Splits a path into its segments.
pub fn segments(path: &str) -> (segs: Vec<String>)
    ensures
        segs.deep_view() == spec_segments(path@),
{
    let ghost s = path@;
    let n: usize = path.unicode_len();
    let mut segs: Vec<String> = Vec::new();
    let mut start: usize = 0;
    let mut i: usize = 0;
    for c in it: path.chars()
        invariant
            s == path@,
            it.seq() == s,
            n == s.len(),
            i == it.index(),
            start <= i <= n,
            run_len(s, start as int) == (i - start) + run_len(s, i as int),
            segs.deep_view() + segments_from(s, start as int) == spec_segments(s),
    {
        let ghost before = segs.deep_view();
        if c == '/' {
            proof {
                assert(s[i as int] == '/');
                assert(run_len(s, i as int) == 0);
                assert(segments_from(s, i as int) == segments_from(s, i + 1));
            }
            if start < i {
                segs.push(String::from_str(path.substring_char(start, i)));
                proof {
                    assert(s[start as int] != '/');
                    assert(segments_from(s, start as int) == seq![
                        s.subrange(start as int, i as int),
                    ] + segments_from(s, i as int));
                    assert(segs.deep_view() =~= before.push(s.subrange(start as int, i as int)));
                    assert(before.push(s.subrange(start as int, i as int)) + segments_from(
                        s,
                        i + 1,
                    ) =~= before + segments_from(s, start as int));
                }
            }
            start = i + 1;
        }
        i += 1;
    }
    let ghost before = segs.deep_view();
    proof {
        assert(run_len(s, n as int) == 0);
        assert(segments_from(s, n as int) == Seq::<Seq<char>>::empty());
    }
    if start < n {
        segs.push(String::from_str(path.substring_char(start, n)));
        proof {
            assert(s[start as int] != '/');
            assert(segments_from(s, start as int) == seq![s.subrange(start as int, n as int)]
                + segments_from(s, n as int));
            assert(segs.deep_view() =~= before.push(s.subrange(start as int, n as int)));
            assert(before.push(s.subrange(start as int, n as int)) + Seq::<Seq<char>>::empty()
                =~= before + segments_from(s, start as int));
        }
    }
    proof {
        assert(segs.deep_view() + Seq::<Seq<char>>::empty() =~= segs.deep_view());
    }
    segs
}

} // verus!
