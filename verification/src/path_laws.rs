//! Facts about the path model: what the component search reads, and where
//! appending a name to a parent puts it.

use vstd::prelude::*;
use crate::path::{
    before_segment, body_components, body_start, components, Component, file_name, has_cur_dir, has_root, is_separator, is_skipped, join,
    last_kept, lemma_last_kept_bounds, lemma_segment_start_bounds, parent, prefix_len,
    segment_component, segment_start, separator, PathStyle,
};

verus! {

/// The segment search in `[lo, hi)` reads nothing at or past `hi`.
proof fn lemma_segment_start_reads_prefix(style: PathStyle, s: Seq<char>, t: Seq<char>, lo: int, hi: int)
    requires
        0 <= lo <= hi <= s.len(),
        hi <= t.len(),
        forall|k: int| 0 <= k < hi ==> s[k] == t[k],
    ensures
        segment_start(style, s, lo, hi) == segment_start(style, t, lo, hi),
    decreases hi - lo,
{
    if hi > lo && !is_separator(style, s[hi - 1]) {
        lemma_segment_start_reads_prefix(style, s, t, lo, hi - 1);
    }
}

/// The kept-segment search in `[lo, hi)` reads nothing at or past `hi`.
proof fn lemma_last_kept_reads_prefix(style: PathStyle, s: Seq<char>, t: Seq<char>, lo: int, hi: int)
    requires
        0 <= lo <= hi <= s.len(),
        hi <= t.len(),
        forall|k: int| 0 <= k < hi ==> s[k] == t[k],
    ensures
        last_kept(style, s, lo, hi) == last_kept(style, t, lo, hi),
    decreases hi - lo,
{
    if hi > lo {
        lemma_segment_start_reads_prefix(style, s, t, lo, hi);
        lemma_segment_start_bounds(style, s, lo, hi);
        let a = segment_start(style, s, lo, hi);
        assert(s.subrange(a, hi) =~= t.subrange(a, hi));
        if is_skipped(s.subrange(a, hi)) && a > lo {
            lemma_last_kept_reads_prefix(style, s, t, lo, a - 1);
        }
    }
}

/// A kept segment found in `[lo, hi)` is found again searching up to its end.
proof fn lemma_last_kept_at_its_end(style: PathStyle, s: Seq<char>, lo: int, hi: int)
    requires
        0 <= lo <= hi <= s.len(),
    ensures
        last_kept(style, s, lo, hi) matches Some((c, d)) ==> last_kept(style, s, lo, d) == Some((c, d)),
    decreases hi - lo,
{
    if hi > lo {
        lemma_segment_start_bounds(style, s, lo, hi);
        let a = segment_start(style, s, lo, hi);
        if is_skipped(s.subrange(a, hi)) && a > lo {
            lemma_last_kept_at_its_end(style, s, lo, a - 1);
        }
    }
}

/// In `u + w`, segments past the end of `u` are the segments of `w`, where a
/// separator ends `u` or `u` ends where the search starts.
proof fn lemma_segment_start_shift(style: PathStyle, u: Seq<char>, w: Seq<char>, lo: int, hi: int)
    requires
        0 <= lo <= u.len(),
        u.len() == lo || is_separator(style, u[u.len() - 1]),
        u.len() <= hi <= u.len() + w.len(),
    ensures
        segment_start(style, u + w, lo, hi) == u.len() + segment_start(style, w, 0, hi - u.len()),
    decreases hi,
{
    let t = u + w;
    let off = u.len() as int;
    if hi > off {
        assert(t[hi - 1] == w[hi - off - 1]);
        if !is_separator(style, t[hi - 1]) {
            lemma_segment_start_shift(style, u, w, lo, hi - 1);
        }
    } else if off > lo {
        assert(t[off - 1] == u[off - 1]);
    }
}

proof fn lemma_last_kept_shift(style: PathStyle, u: Seq<char>, w: Seq<char>, lo: int, hi: int)
    requires
        0 <= lo <= u.len(),
        u.len() == lo || is_separator(style, u[u.len() - 1]),
        u.len() <= hi <= u.len() + w.len(),
    ensures
        last_kept(style, u + w, lo, hi) == (match last_kept(style, w, 0, hi - u.len()) {
            Some((a, b)) => Some((a + u.len(), b + u.len())),
            None => if u.len() > lo {
                last_kept(style, u + w, lo, u.len() - 1)
            } else {
                None
            },
        }),
    decreases hi,
{
    let t = u + w;
    let off = u.len() as int;
    lemma_segment_start_shift(style, u, w, lo, hi);
    lemma_segment_start_bounds(style, w, 0, hi - off);
    let aw = segment_start(style, w, 0, hi - off);
    let at = segment_start(style, t, lo, hi);
    if hi > off {
        assert(t.subrange(at, hi) =~= w.subrange(aw, hi - off));
        if is_skipped(w.subrange(aw, hi - off)) && aw > 0 {
            lemma_last_kept_shift(style, u, w, lo, at - 1);
        }
    } else {
        if off > lo {
            assert(t[off - 1] == u[off - 1]);
            assert(t.subrange(off, off) =~= Seq::<char>::empty());
        }
    }
}

/// Prefix, root and current directory are read from the first characters, so
/// two paths that agree there and go on past them start their segments at the
/// same place.
proof fn lemma_header_reads_prefix(style: PathStyle, s: Seq<char>, t: Seq<char>, k: int)
    requires
        2 <= k,
        prefix_len(style, s) + 2 <= k,
        k <= s.len(),
        k <= t.len(),
        forall|i: int| 0 <= i < k ==> s[i] == t[i],
    ensures
        prefix_len(style, s) == prefix_len(style, t),
        has_root(style, s) == has_root(style, t),
        has_cur_dir(style, s) == has_cur_dir(style, t),
        body_start(style, s) == body_start(style, t),
{
    assert(s[0] == t[0] && s[1] == t[1]);
    let p = prefix_len(style, s);
    assert(s[p] == t[p] && s[p + 1] == t[p + 1]);
}

/// A name that adds exactly one ordinary component, starting at its first
/// character, to the path it is appended to.
pub open spec fn is_appendable_name(style: PathStyle, n: Seq<char>) -> bool {
    &&& prefix_len(style, n) == 0
    &&& !has_root(style, n)
    &&& !has_cur_dir(style, n)
    &&& last_kept(style, n, 0, n.len() as int) matches Some((a, b)) && a == 0 && n.subrange(a, b) != seq![
        '.',
        '.',
    ]
}

/// The name of an appendable name: its one kept segment.
pub open spec fn appended_component(style: PathStyle, n: Seq<char>) -> Seq<char> {
    n.subrange(0, (last_kept(style, n, 0, n.len() as int)->0).1)
}

/// The kept segment of an appendable name is not empty.
proof fn lemma_appendable_nonempty(style: PathStyle, n: Seq<char>)
    requires
        is_appendable_name(style, n),
    ensures
        (last_kept(style, n, 0, n.len() as int)->0).1 > 0,
        n.len() > 0,
        !is_separator(style, n[0]),
{
    lemma_last_kept_bounds(style, n, 0, n.len() as int);
    let k = (last_kept(style, n, 0, n.len() as int)->0).1;
    if k == 0 {
        assert(n.subrange(0, k) =~= Seq::<char>::empty());
    }
}

/// Appending to a parent that ends with a kept segment.
proof fn lemma_join_after_segment(style: PathStyle, s: Seq<char>, n: Seq<char>, c: int, d: int)
    requires
        is_appendable_name(style, n),
        body_start(style, s) <= c <= d <= s.len(),
        last_kept(style, s, body_start(style, s), d) == Some((c, d)),
        !is_skipped(s.subrange(c, d)),
        forall|i: int| c <= i < d ==> !is_separator(style, #[trigger] s[i]),
        c > body_start(style, s) ==> is_separator(style, s[c - 1]),
    ensures
        parent(style, join(style, s.subrange(0, d), n)) == Some(s.subrange(0, d)),
        file_name(style, join(style, s.subrange(0, d), n)) == Some(appended_component(style, n)),
{
    let lo = body_start(style, s);
    let pl = prefix_len(style, s);
    lemma_appendable_nonempty(style, n);
    lemma_last_kept_bounds(style, n, 0, n.len() as int);
    let k = (last_kept(style, n, 0, n.len() as int)->0).1;
    let p = s.subrange(0, d);
    assert(d >= lo + 1) by {
        if d == c {
            assert(s.subrange(c, d) =~= Seq::<char>::empty());
        }
    }
    assert(!is_separator(style, s[d - 1]));
    let u = p + seq![separator(style)];
    let t = u + n;
    assert(p.len() > 0 && p.last() == s[d - 1]);
    if d < pl + 2 {
        assert(c == pl && d == pl + 1 && lo == pl);
        assert(s.subrange(c, d) =~= seq![s[pl]]);
        assert(s[pl] != '.');
        assert(prefix_len(style, p) == pl) by {
            if pl == 2 {
                assert(p[0] == s[0] && p[1] == s[1]);
            }
        }
        assert(prefix_len(style, t) == pl) by {
            assert(t[0] == s[0]);
            if pl == 2 {
                assert(t[1] == s[1]);
            }
        }
        assert(t[pl] == s[pl]);
    } else {
        lemma_header_reads_prefix(style, s, p, d);
        lemma_header_reads_prefix(style, s, t, d);
    }
    assert(join(style, p, n) =~= t);
    assert(body_start(style, t) == lo);
    assert(u[u.len() - 1] == separator(style));
    lemma_last_kept_shift(style, u, n, lo, t.len() as int);
    assert(t.subrange(u.len() as int, u.len() + k) =~= n.subrange(0, k));
    lemma_last_kept_reads_prefix(style, s, t, lo, d);
    assert(t.subrange(0, d) =~= p);
}

/// Appending to a parent that is only the prefix, root or current directory.
proof fn lemma_join_after_header(style: PathStyle, s: Seq<char>, n: Seq<char>)
    requires
        is_appendable_name(style, n),
        last_kept(style, s, body_start(style, s), s.len() as int) is Some,
    ensures
        parent(style, join(style, s.subrange(0, body_start(style, s)), n)) == Some(s.subrange(0, body_start(style, s))),
        file_name(style, join(style, s.subrange(0, body_start(style, s)), n)) == Some(appended_component(style, n)),
{
    let lo = body_start(style, s);
    let pl = prefix_len(style, s);
    lemma_appendable_nonempty(style, n);
    lemma_last_kept_bounds(style, n, 0, n.len() as int);
    lemma_last_kept_bounds(style, s, lo, s.len() as int);
    let k = (last_kept(style, n, 0, n.len() as int)->0).1;
    let p = s.subrange(0, lo);
    let t = join(style, p, n);
    assert(lo < s.len());
    if p.len() == 0 {
        assert(t =~= n);
        assert(body_start(style, t) == 0);
        assert(t.subrange(0, 0) =~= p);
    } else if is_separator(style, p.last()) || (prefix_len(style, p) == 2 && p.len() == 2) {
        assert(t =~= p + n);
        assert(p.last() == s[lo - 1]);
        if is_separator(style, p.last()) {
            assert(has_root(style, s) && !has_cur_dir(style, s) && lo == pl + 1);
            assert(prefix_len(style, t) == pl) by {
                assert(t[0] == s[0]);
                if pl == 2 {
                    assert(t[1] == s[1]);
                }
            }
            assert(t[pl] == s[pl]);
        } else {
            assert(p[0] == s[0] && p[1] == s[1]);
            assert(pl == 2 && lo == 2 && !has_root(style, s) && !has_cur_dir(style, s));
            assert(t[0] == s[0] && t[1] == s[1] && t[2] == n[0]);
            if n.len() > 1 {
                assert(t[3] == n[1]);
            }
        }
        assert(body_start(style, t) == lo);
        lemma_last_kept_shift(style, p, n, lo, t.len() as int);
        assert(t.subrange(lo, lo + k) =~= n.subrange(0, k));
        assert(t.subrange(0, lo) =~= p);
    } else {
        let u = p + seq![separator(style)];
        assert(t =~= u + n);
        assert(p.last() == s[lo - 1]);
        assert(has_cur_dir(style, s)) by {
            if !has_cur_dir(style, s) {
                if pl == 2 && !has_root(style, s) {
                    assert(p[0] == s[0] && p[1] == s[1]);
                }
            }
        }
        assert(lo == pl + 1 && s[pl] == '.');
        assert(prefix_len(style, t) == pl) by {
            assert(t[0] == s[0]);
            if pl == 2 {
                assert(t[1] == s[1]);
            }
        }
        assert(t[pl] == '.' && t[pl + 1] == separator(style));
        assert(body_start(style, t) == lo);
        assert(u[u.len() - 1] == separator(style));
        lemma_last_kept_shift(style, u, n, lo, t.len() as int);
        assert(t.subrange(lo + 1, lo + 1 + k) =~= n.subrange(0, k));
        assert(t.subrange(0, lo) =~= p);
    }
}

/// Appending to an empty path or a bare drive prefix.
proof fn lemma_join_to_prefix(style: PathStyle, p: Seq<char>, n: Seq<char>)
    requires
        is_appendable_name(style, n),
        p.len() == 0 || (prefix_len(style, p) == 2 && p.len() == 2),
    ensures
        parent(style, join(style, p, n)) == Some(p),
        file_name(style, join(style, p, n)) == Some(appended_component(style, n)),
{
    lemma_appendable_nonempty(style, n);
    lemma_last_kept_bounds(style, n, 0, n.len() as int);
    let k = (last_kept(style, n, 0, n.len() as int)->0).1;
    let t = join(style, p, n);
    assert(t =~= p + n);
    if p.len() == 0 {
        assert(t =~= n);
        assert(body_start(style, t) == 0);
        assert(t.subrange(0, 0) =~= p);
    } else {
        assert(t[0] == p[0] && t[1] == p[1] && t[2] == n[0]);
        if n.len() > 1 {
            assert(t[3] == n[1]);
        }
        assert(body_start(style, t) == 2);
        lemma_last_kept_shift(style, p, n, 2, t.len() as int);
        assert(t.subrange(2, 2 + k) =~= n.subrange(0, k));
        assert(t.subrange(0, 2) =~= p);
    }
}

/// Appending a name to the parent of a path gives a path whose parent is that
/// same parent and whose file name is the name's component: the result sits
/// next to the original path.
pub proof fn lemma_join_parent_is_sibling(style: PathStyle, s: Seq<char>, n: Seq<char>)
    requires
        parent(style, s) is Some,
        is_appendable_name(style, n),
    ensures
        parent(style, join(style, parent(style, s)->0, n)) == parent(style, s),
        file_name(style, join(style, parent(style, s)->0, n)) == Some(appended_component(style, n)),
{
    let lo = body_start(style, s);
    lemma_last_kept_bounds(style, s, lo, s.len() as int);
    if last_kept(style, s, lo, s.len() as int) is None {
        let p = s.subrange(0, prefix_len(style, s));
        if prefix_len(style, s) == 2 {
            assert(p[0] == s[0] && p[1] == s[1]);
        }
        lemma_join_to_prefix(style, p, n);
    } else {
        let a = (last_kept(style, s, lo, s.len() as int)->0).0;
        let bef = before_segment(lo, a);
        lemma_last_kept_bounds(style, s, lo, bef);
        match last_kept(style, s, lo, bef) {
            Some((c, d)) => {
                lemma_last_kept_at_its_end(style, s, lo, bef);
                lemma_join_after_segment(style, s, n, c, d);
            },
            None => {
                lemma_join_after_header(style, s, n);
            },
        }
    }
}

/// A name with no separators, other than `.` and `..` and without a drive
/// prefix, is appendable, and its component is itself.
pub proof fn lemma_plain_name_is_appendable(style: PathStyle, n: Seq<char>)
    requires
        n.len() > 0,
        forall|i: int| 0 <= i < n.len() ==> !is_separator(style, #[trigger] n[i]),
        n != seq!['.'],
        n != seq!['.', '.'],
        prefix_len(style, n) == 0,
    ensures
        is_appendable_name(style, n),
        appended_component(style, n) == n,
{
    lemma_segment_start_bounds(style, n, 0, n.len() as int);
    assert(segment_start(style, n, 0, n.len() as int) == 0);
    assert(n.subrange(0, n.len() as int) =~= n);
    if n[0] == '.' && n.len() == 1 {
        assert(n =~= seq!['.']);
    }
}

/// Where the first segment of a path is kept, searching up to any point past
/// it finds a kept segment.
proof fn lemma_first_segment_found(style: PathStyle, n: Seq<char>, f: int, hi: int)
    requires
        0 < f <= hi <= n.len(),
        forall|i: int| 0 <= i < f ==> !is_separator(style, #[trigger] n[i]),
        f < n.len() ==> is_separator(style, n[f]),
        !is_skipped(n.subrange(0, f)),
    ensures
        last_kept(style, n, 0, hi) is Some,
    decreases hi,
{
    lemma_segment_start_bounds(style, n, 0, hi);
    let a = segment_start(style, n, 0, hi);
    if is_skipped(n.subrange(a, hi)) {
        if a > 0 {
            assert(a - 1 >= f) by {
                if a - 1 < f {
                    assert(!is_separator(style, n[a - 1]));
                }
            }
            lemma_first_segment_found(style, n, f, a - 1);
        } else {
            assert(hi == f) by {
                if hi > f {
                    assert(!is_separator(style, n[f]));
                }
            }
        }
    }
}

/// Index of the first separator in `n[i..]`, or the length.
spec fn first_separator_from(style: PathStyle, n: Seq<char>, i: int) -> int
    decreases n.len() - i,
{
    if i >= n.len() {
        n.len() as int
    } else if is_separator(style, n[i]) {
        i
    } else {
        first_separator_from(style, n, i + 1)
    }
}

proof fn lemma_first_separator_from(style: PathStyle, n: Seq<char>, i: int)
    requires
        0 <= i <= n.len(),
        forall|j: int| 0 <= j < i ==> !is_separator(style, #[trigger] n[j]),
    ensures
        i <= first_separator_from(style, n, i) <= n.len(),
        forall|j: int| 0 <= j < first_separator_from(style, n, i) ==> !is_separator(style, #[trigger] n[j]),
        first_separator_from(style, n, i) < n.len() ==> is_separator(style, n[first_separator_from(style, n, i)]),
    decreases n.len() - i,
{
    if i < n.len() && !is_separator(style, n[i]) {
        lemma_first_separator_from(style, n, i + 1);
    }
}

/// A path without prefix, root or current directory whose segments add
/// exactly one ordinary component is appendable.
pub proof fn lemma_single_component_is_appendable(style: PathStyle, n: Seq<char>)
    requires
        prefix_len(style, n) == 0,
        !has_root(style, n),
        !has_cur_dir(style, n),
        last_kept(style, n, 0, n.len() as int) matches Some((a, b)) && n.subrange(a, b) != seq!['.', '.']
            && last_kept(style, n, 0, before_segment(0, a)) is None,
    ensures
        is_appendable_name(style, n),
{
    lemma_last_kept_bounds(style, n, 0, n.len() as int);
    let a = (last_kept(style, n, 0, n.len() as int)->0).0;
    if a > 0 {
        lemma_first_separator_from(style, n, 0);
        let f = first_separator_from(style, n, 0);
        assert(n.len() > 0 && !is_separator(style, n[0]));
        assert(f > 0);
        assert(f <= a - 1) by {
            if f > a - 1 {
                assert(!is_separator(style, n[a - 1]));
            }
        }
        assert(!is_skipped(n.subrange(0, f))) by {
            if n.subrange(0, f) == seq!['.'] {
                assert(n.subrange(0, f).len() == 1);
                assert(n.subrange(0, f)[0] == n[0]);
                assert(has_cur_dir(style, n));
            }
        }
        lemma_first_segment_found(style, n, f, a - 1);
    }
}

/// The components of `[lo, hi)` read nothing at or past `hi`.
proof fn lemma_body_components_reads_prefix(style: PathStyle, s: Seq<char>, t: Seq<char>, lo: int, hi: int)
    requires
        0 <= lo <= hi <= s.len(),
        hi <= t.len(),
        forall|k: int| 0 <= k < hi ==> s[k] == t[k],
    ensures
        body_components(style, s, lo, hi) == body_components(style, t, lo, hi),
    decreases hi - lo,
{
    lemma_last_kept_reads_prefix(style, s, t, lo, hi);
    lemma_last_kept_bounds(style, s, lo, hi);
    if let Some((a, b)) = last_kept(style, s, lo, hi) {
        assert(s.subrange(a, b) =~= t.subrange(a, b));
        lemma_body_components_reads_prefix(style, s, t, lo, before_segment(lo, a));
    }
}

/// In `u + w`, the components past the end of `u` are those of `w`, where a
/// separator ends `u` or `u` ends where the search starts.
proof fn lemma_body_components_shift(style: PathStyle, u: Seq<char>, w: Seq<char>, lo: int, hi: int)
    requires
        0 <= lo <= u.len(),
        u.len() == lo || is_separator(style, u[u.len() - 1]),
        u.len() <= hi <= u.len() + w.len(),
    ensures
        body_components(style, u + w, lo, hi) == (if u.len() > lo {
            body_components(style, u + w, lo, u.len() - 1)
        } else {
            Seq::<Component>::empty()
        }) + body_components(style, w, 0, hi - u.len()),
    decreases hi,
{
    let t = u + w;
    let off = u.len() as int;
    lemma_last_kept_shift(style, u, w, lo, hi);
    lemma_last_kept_bounds(style, w, 0, hi - off);
    let head = if off > lo {
        body_components(style, t, lo, off - 1)
    } else {
        Seq::<Component>::empty()
    };
    match last_kept(style, w, 0, hi - off) {
        Some((a, b)) => {
            assert(t.subrange(a + off, b + off) =~= w.subrange(a, b));
            let c = segment_component(w.subrange(a, b));
            assert(body_components(style, t, lo, hi) == body_components(style, 
                t,
                lo,
                before_segment(lo, a + off),
            ).push(c));
            assert(body_components(style, w, 0, hi - off) == body_components(style, 
                w,
                0,
                before_segment(0, a),
            ).push(c));
            if a > 0 {
                lemma_body_components_shift(style, u, w, lo, a + off - 1);
            } else {
                if off == lo {
                    assert(body_components(style, t, lo, lo) =~= Seq::<Component>::empty());
                }
            }
            assert(body_components(style, t, lo, hi) =~= head + body_components(style, w, 0, hi - off));
        },
        None => {
            assert(body_components(style, w, 0, hi - off) =~= Seq::<Component>::empty());
            if off > lo {
                lemma_last_kept_bounds(style, t, lo, off - 1);
                lemma_last_kept_bounds(style, t, lo, hi);
                match last_kept(style, t, lo, off - 1) {
                    Some((c, d)) => {
                        assert(last_kept(style, t, lo, hi) == Some((c, d)));
                        assert(body_components(style, t, lo, hi) == body_components(style, 
                            t,
                            lo,
                            before_segment(lo, c),
                        ).push(segment_component(t.subrange(c, d))));
                        assert(body_components(style, t, lo, off - 1) == body_components(style, 
                            t,
                            lo,
                            before_segment(lo, c),
                        ).push(segment_component(t.subrange(c, d))));
                    },
                    None => {},
                }
            }
            assert(body_components(style, t, lo, hi) =~= head + body_components(style, w, 0, hi - off));
        },
    }
}

/// Starting the search before a leading `.` segment finds the same components.
pub proof fn lemma_body_components_skip_cur_dir(style: PathStyle, w: Seq<char>, hi: int)
    requires
        0 <= hi <= w.len(),
        w.len() > 0,
        w[0] == '.',
        w.len() == 1 || is_separator(style, w[1]),
    ensures
        body_components(style, w, 0, hi) == body_components(style, w, 1, hi),
    decreases hi,
{
    if hi == 0 {
    } else if hi == 1 {
        assert(segment_start(style, w, 0, 0) == 0);
        assert(w.subrange(0, 1) =~= seq!['.']);
        assert(body_components(style, w, 1, 1) =~= Seq::<Component>::empty());
    } else {
        lemma_segment_start_bounds(style, w, 0, hi);
        lemma_segment_start_bounds(style, w, 1, hi);
        assert(segment_start(style, w, 0, hi) == segment_start(style, w, 1, hi)) by {
            lemma_segment_start_from_one(style, w, hi);
        }
        let a = segment_start(style, w, 0, hi);
        assert(a >= 2) by {
            if a < 2 {
                assert(!is_separator(style, w[1]));
            }
        }
        if is_skipped(w.subrange(a, hi)) {
            lemma_body_components_skip_cur_dir(style, w, a - 1);
        } else {
            lemma_body_components_skip_cur_dir(style, w, a - 1);
        }
    }
}

proof fn lemma_segment_start_from_one(style: PathStyle, w: Seq<char>, hi: int)
    requires
        2 <= hi <= w.len(),
        is_separator(style, w[1]),
    ensures
        segment_start(style, w, 0, hi) == segment_start(style, w, 1, hi),
    decreases hi,
{
    if !is_separator(style, w[hi - 1]) {
        if hi - 1 >= 2 {
            lemma_segment_start_from_one(style, w, hi - 1);
        } else {
            assert(hi - 1 == 1);
        }
    }
}

/// Appending a path without prefix or root to a path with a kept segment
/// keeps the components of the first and adds the body components of the
/// second.
proof fn lemma_join_components_after_segment(style: PathStyle, base: Seq<char>, rel: Seq<char>)
    requires
        last_kept(style, base, body_start(style, base), base.len() as int) is Some,
        prefix_len(style, rel) == 0,
        !has_root(style, rel),
    ensures
        components(style, join(style, base, rel)) == components(style, base) + body_components(style, 
            rel,
            0,
            rel.len() as int,
        ),
{
    let lo = body_start(style, base);
    let pl = prefix_len(style, base);
    lemma_last_kept_bounds(style, base, lo, base.len() as int);
    let (a, b) = last_kept(style, base, lo, base.len() as int)->0;
    assert(b > a) by {
        if b == a {
            assert(base.subrange(a, b) =~= Seq::<char>::empty());
        }
    }
    assert(base.len() >= lo + 1);
    let ends_in_separator = is_separator(style, base.last());
    let u = if ends_in_separator {
        base
    } else {
        base + seq![separator(style)]
    };
    let t = join(style, base, rel);
    assert(!(prefix_len(style, base) == 2 && base.len() == 2)) by {
        if prefix_len(style, base) == 2 && base.len() == 2 {
            assert(lo >= 2);
        }
    }
    assert(t =~= u + rel);
    assert(forall|i: int| 0 <= i < base.len() ==> t[i] == base[i]);
    if base.len() >= pl + 2 {
        lemma_header_reads_prefix(style, base, t, base.len() as int);
    } else {
        assert(a == pl && b == pl + 1 && lo == pl);
        assert(base.subrange(a, b) =~= seq![base[pl]]);
        assert(base[pl] != '.');
        assert(!ends_in_separator);
        assert(t[pl + 1] == separator(style));
        assert(prefix_len(style, t) == pl) by {
            assert(t[0] == base[0]);
            if pl == 2 {
                assert(t[1] == base[1]);
            }
        }
    }
    assert(body_start(style, t) == lo);
    assert(u[u.len() - 1] == separator(style) || ends_in_separator);
    lemma_body_components_shift(style, u, rel, lo, t.len() as int);
    lemma_body_components_reads_prefix(style, base, t, lo, u.len() - 1);
    if ends_in_separator {
        assert(segment_start(style, base, lo, base.len() as int) == base.len());
        assert(base.subrange(base.len() as int, base.len() as int) =~= Seq::<char>::empty());
        lemma_last_kept_bounds(style, base, lo, base.len() - 1);
        assert(body_components(style, base, lo, base.len() as int) == body_components(style, 
            base,
            lo,
            base.len() - 1,
        ));
    }
    assert(t.len() - u.len() == rel.len());
    assert(components(style, t) =~= components(style, base) + body_components(style, rel, 0, rel.len() as int));
}


/// A path that is empty or only a drive prefix.
pub open spec fn is_bare_prefix(style: PathStyle, p: Seq<char>) -> bool {
    p.len() == 0 || (prefix_len(style, p) == 2 && p.len() == 2)
}

/// Appending a path without prefix or root to an empty path or a bare drive
/// keeps the prefix and adds the components of the appended path.
proof fn lemma_join_components_to_prefix(style: PathStyle, base: Seq<char>, rel: Seq<char>)
    requires
        is_bare_prefix(style, base),
        prefix_len(style, rel) == 0,
        !has_root(style, rel),
    ensures
        components(style, join(style, base, rel)) == components(style, base) + components(style, rel),
{
    let t = join(style, base, rel);
    assert(t =~= base + rel);
    if base.len() == 0 {
        assert(t =~= rel);
        assert(components(style, base) =~= Seq::<Component>::empty()) by {
            assert(body_components(style, base, 0, 0) =~= Seq::<Component>::empty());
        }
    } else {
        assert(t[0] == base[0] && t[1] == base[1]);
        if rel.len() > 0 {
            assert(t[2] == rel[0]);
        }
        if rel.len() > 1 {
            assert(t[3] == rel[1]);
        }
        assert(prefix_len(style, t) == 2);
        assert(has_root(style, t) == has_root(style, rel));
        assert(has_cur_dir(style, t) == has_cur_dir(style, rel));
        assert(body_components(style, base, 2, 2) =~= Seq::<Component>::empty());
        assert(components(style, base) =~= seq![Component::Prefix]);
        if has_cur_dir(style, rel) {
            let u = base + seq!['.'];
            let w = rel.subrange(1, rel.len() as int);
            assert(t =~= u + w);
            lemma_body_components_shift(style, u, w, 3, t.len() as int);
            assert(rel =~= seq!['.'] + w);
            lemma_body_components_shift(style, seq!['.'], w, 1, rel.len() as int);
            assert(components(style, t) =~= components(style, base) + components(style, rel));
        } else {
            lemma_body_components_shift(style, base, rel, 2, t.len() as int);
            assert(components(style, rel) =~= body_components(style, rel, 0, rel.len() as int));
            assert(components(style, t) =~= components(style, base) + components(style, rel));
        }
    }
}

/// Appending a path without prefix or root to a path with no kept segment that
/// is not a bare prefix: the appended body components follow the base's.
proof fn lemma_join_components_after_header(style: PathStyle, base: Seq<char>, rel: Seq<char>)
    requires
        !is_bare_prefix(style, base),
        last_kept(style, base, body_start(style, base), base.len() as int) is None,
        prefix_len(style, rel) == 0,
        !has_root(style, rel),
    ensures
        components(style, join(style, base, rel)) == components(style, base) + body_components(style, 
            rel,
            0,
            rel.len() as int,
        ),
{
    let lo = body_start(style, base);
    let pl = prefix_len(style, base);
    let n = base.len() as int;
    let ends_in_separator = is_separator(style, base.last());
    let u = if ends_in_separator {
        base
    } else {
        base + seq![separator(style)]
    };
    let t = join(style, base, rel);
    assert(t =~= u + rel);
    assert(forall|i: int| 0 <= i < n ==> t[i] == base[i]);
    assert(n >= pl + 1);
    if n >= pl + 2 {
        lemma_header_reads_prefix(style, base, t, n);
    } else {
        if ends_in_separator {
            assert(has_root(style, base));
        } else {
            assert(base[pl] == '.') by {
                if base[pl] != '.' {
                    assert(!has_cur_dir(style, base) && !has_root(style, base));
                    assert(segment_start(style, base, pl, pl) == pl);
                    assert(segment_start(style, base, pl, n) == pl);
                    assert(base.subrange(pl, n) =~= seq![base[pl]]);
                    assert(seq![base[pl]][0] != seq!['.'][0]);
                    assert(!is_skipped(base.subrange(pl, n)));
                    assert(lo == pl);
                    assert(last_kept(style, base, pl, n) is Some);
                }
            }
            assert(t[pl + 1] == separator(style));
        }
        assert(prefix_len(style, t) == pl) by {
            assert(t[0] == base[0]);
            if pl == 2 {
                assert(t[1] == base[1]);
            }
        }
    }
    assert(body_start(style, t) == lo);
    assert(body_components(style, base, lo, n) =~= Seq::<Component>::empty());
    lemma_body_components_shift(style, u, rel, lo, t.len() as int);
    if u.len() > lo {
        lemma_body_components_reads_prefix(style, base, t, lo, u.len() - 1);
        if ends_in_separator {
            lemma_segment_start_bounds(style, base, lo, n);
            assert(segment_start(style, base, lo, n) == n);
            assert(base.subrange(n, n) =~= Seq::<char>::empty());
            lemma_last_kept_bounds(style, base, lo, n - 1);
            assert(last_kept(style, base, lo, n - 1) is None);
            assert(body_components(style, base, lo, n - 1) =~= Seq::<Component>::empty());
        }
    }
    assert(t.len() - u.len() == rel.len());
    assert(components(style, t) =~= components(style, base) + body_components(style, rel, 0, rel.len() as int));
}

/// Appending a path without prefix or root to any path keeps the components of
/// the first, in front: for a bare prefix the appended path's own components
/// follow, otherwise its body components.
pub proof fn lemma_join_components(style: PathStyle, base: Seq<char>, rel: Seq<char>)
    requires
        prefix_len(style, rel) == 0,
        !has_root(style, rel),
    ensures
        components(style, join(style, base, rel)) == components(style, base) + (if is_bare_prefix(style, base) {
            components(style, rel)
        } else {
            body_components(style, rel, 0, rel.len() as int)
        }),
{
    if is_bare_prefix(style, base) {
        lemma_join_components_to_prefix(style, base, rel);
    } else if last_kept(style, base, body_start(style, base), base.len() as int) is Some {
        lemma_join_components_after_segment(style, base, rel);
    } else {
        lemma_join_components_after_header(style, base, rel);
    }
}

} // verus!
