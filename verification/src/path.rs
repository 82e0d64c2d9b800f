//! Paths as character strings, split into components by the rules of the
//! platform they belong to.
//!
//! In the Windows style both `/` and `\` separate components, a leading ASCII
//! letter followed by `:` is a drive prefix, and joining writes `\`. In the
//! Unix style only `/` separates, there is no prefix, and joining writes `/`.
//! In both, empty segments and `.` segments past the start add no component;
//! a leading `.` is the current directory and `..` the parent directory.

use vstd::prelude::*;
use crate::text::chars_of;

verus! {

/// The path rules of a platform.
#[derive(Debug, Clone, Copy, PartialEq, Eq, Structural)]
pub enum PathStyle {
    Windows,
    Unix,
}

/// A component of a path.
pub enum Component {
    Prefix,
    RootDir,
    CurDir,
    ParentDir,
    Normal(Seq<char>),
}

pub open spec fn is_separator(style: PathStyle, c: char) -> bool {
    c == '/' || (style == PathStyle::Windows && c == '\\')
}

/// The separator that joining writes.
pub open spec fn separator(style: PathStyle) -> char {
    if style == PathStyle::Windows {
        '\\'
    } else {
        '/'
    }
}

pub open spec fn is_ascii_letter(c: char) -> bool {
    ('a' <= c && c <= 'z') || ('A' <= c && c <= 'Z')
}

/// Length of the drive prefix, such as `C:`, that starts a Windows path: 2
/// or 0.
pub open spec fn prefix_len(style: PathStyle, s: Seq<char>) -> int {
    if style == PathStyle::Windows && s.len() >= 2 && s[1] == ':' && is_ascii_letter(s[0]) {
        2
    } else {
        0
    }
}

/// A separator follows the prefix.
pub open spec fn has_root(style: PathStyle, s: Seq<char>) -> bool {
    s.len() > prefix_len(style, s) && is_separator(style, s[prefix_len(style, s)])
}

/// The path starts, after its prefix, with a `.` segment.
pub open spec fn has_cur_dir(style: PathStyle, s: Seq<char>) -> bool {
    let p = prefix_len(style, s);
    &&& !has_root(style, s)
    &&& s.len() > p
    &&& s[p] == '.'
    &&& (s.len() == p + 1 || is_separator(style, s[p + 1]))
}

/// Where the segments after the prefix, root and current directory begin.
pub open spec fn body_start(style: PathStyle, s: Seq<char>) -> int {
    prefix_len(style, s) + (if has_root(style, s) {
        1int
    } else {
        0int
    }) + (if has_cur_dir(style, s) {
        1int
    } else {
        0int
    })
}

/// Start of the segment that ends at `hi`: just after the last separator
/// before `hi`, or `lo` where there is none at or after `lo`.
pub open spec fn segment_start(style: PathStyle, s: Seq<char>, lo: int, hi: int) -> int
    decreases hi - lo,
{
    if hi <= lo {
        lo
    } else if is_separator(style, s[hi - 1]) {
        hi
    } else {
        segment_start(style, s, lo, hi - 1)
    }
}

pub proof fn lemma_segment_start_bounds(style: PathStyle, s: Seq<char>, lo: int, hi: int)
    requires
        lo <= hi,
    ensures
        lo <= segment_start(style, s, lo, hi) <= hi,
        forall|k: int| segment_start(style, s, lo, hi) <= k < hi ==> !is_separator(style, #[trigger] s[k]),
        segment_start(style, s, lo, hi) > lo ==> is_separator(style, s[segment_start(style, s, lo, hi) - 1]),
    decreases hi - lo,
{
    if hi > lo && !is_separator(style, s[hi - 1]) {
        lemma_segment_start_bounds(style, s, lo, hi - 1);
    }
}

/// A segment that adds no component: empty or `.`.
pub open spec fn is_skipped(seg: Seq<char>) -> bool {
    seg.len() == 0 || seg == seq!['.']
}

/// Bounds of the last segment in `s[lo..hi)` that adds a component.
pub open spec fn last_kept(style: PathStyle, s: Seq<char>, lo: int, hi: int) -> Option<(int, int)>
    decreases hi - lo,
{
    if hi <= lo {
        None
    } else {
        let a = segment_start(style, s, lo, hi);
        if !is_skipped(s.subrange(a, hi)) {
            Some((a, hi))
        } else if a > lo {
            proof {
                lemma_segment_start_bounds(style, s, lo, hi);
            }
            last_kept(style, s, lo, a - 1)
        } else {
            None
        }
    }
}

pub proof fn lemma_last_kept_bounds(style: PathStyle, s: Seq<char>, lo: int, hi: int)
    requires
        lo <= hi,
    ensures
        last_kept(style, s, lo, hi) matches Some((a, b)) ==> lo <= a <= b <= hi && (a > lo ==> is_separator(style, s[a - 1]))
            && !is_skipped(s.subrange(a, b))
            && forall|k: int| a <= k < b ==> !is_separator(style, #[trigger] s[k]),
    decreases hi - lo,
{
    if hi > lo {
        lemma_segment_start_bounds(style, s, lo, hi);
        let a = segment_start(style, s, lo, hi);
        if is_skipped(s.subrange(a, hi)) && a > lo {
            lemma_last_kept_bounds(style, s, lo, a - 1);
        }
    }
}

/// Where the search for earlier segments goes on after a segment at `a`.
pub open spec fn before_segment(lo: int, a: int) -> int {
    if a > lo {
        a - 1
    } else {
        lo
    }
}

/// The component that a kept segment adds.
pub open spec fn segment_component(seg: Seq<char>) -> Component {
    if seg == seq!['.', '.'] {
        Component::ParentDir
    } else {
        Component::Normal(seg)
    }
}

/// The components of the segments in `s[lo..hi)`.
pub open spec fn body_components(style: PathStyle, s: Seq<char>, lo: int, hi: int) -> Seq<Component>
    decreases hi - lo,
{
    if lo > hi {
        seq![]
    } else {
        proof {
            lemma_last_kept_bounds(style, s, lo, hi);
        }
        match last_kept(style, s, lo, hi) {
            None => seq![],
            Some((a, b)) => body_components(style, s, lo, before_segment(lo, a)).push(
                segment_component(s.subrange(a, b)),
            ),
        }
    }
}

/// The components of a path, in order.
pub open spec fn components(style: PathStyle, s: Seq<char>) -> Seq<Component> {
    (if prefix_len(style, s) == 2 {
        seq![Component::Prefix]
    } else {
        seq![]
    }) + (if has_root(style, s) {
        seq![Component::RootDir]
    } else {
        seq![]
    }) + (if has_cur_dir(style, s) {
        seq![Component::CurDir]
    } else {
        seq![]
    }) + body_components(style, s, body_start(style, s), s.len() as int)
}

pub(crate) fn is_separator_char(style: PathStyle, c: char) -> (r: bool)
    ensures
        r == is_separator(style, c),
{
    c == '/' || (style == PathStyle::Windows && c == '\\')
}

pub(crate) fn prefix_len_of(style: PathStyle, cs: &Vec<char>) -> (r: usize)
    ensures
        r == prefix_len(style, cs@),
{
    if style == PathStyle::Windows && cs.len() >= 2 && cs[1] == ':' && (('a' <= cs[0] && cs[0] <= 'z') || ('A' <= cs[0] && cs[0]
        <= 'Z')) {
        2
    } else {
        0
    }
}

pub(crate) fn has_root_of(style: PathStyle, cs: &Vec<char>) -> (r: bool)
    ensures
        r == has_root(style, cs@),
{
    let p = prefix_len_of(style, cs);
    cs.len() > p && is_separator_char(style, cs[p])
}

pub(crate) fn has_cur_dir_of(style: PathStyle, cs: &Vec<char>) -> (r: bool)
    ensures
        r == has_cur_dir(style, cs@),
{
    let p = prefix_len_of(style, cs);
    !has_root_of(style, cs) && cs.len() > p && cs[p] == '.' && (cs.len() == p + 1 || is_separator_char(style, 
        cs[p + 1],
    ))
}

pub(crate) fn body_start_of(style: PathStyle, cs: &Vec<char>) -> (r: usize)
    ensures
        r == body_start(style, cs@),
        r <= cs@.len(),
{
    let mut r = prefix_len_of(style, cs);
    if has_root_of(style, cs) {
        r = r + 1;
    }
    if has_cur_dir_of(style, cs) {
        r = r + 1;
    }
    r
}

pub(crate) fn segment_start_of(style: PathStyle, cs: &Vec<char>, lo: usize, hi: usize) -> (r: usize)
    requires
        lo <= hi <= cs@.len(),
    ensures
        r == segment_start(style, cs@, lo as int, hi as int),
{
    let mut i = hi;
    while i > lo && !is_separator_char(style, cs[i - 1])
        invariant
            lo <= i <= hi <= cs@.len(),
            segment_start(style, cs@, lo as int, hi as int) == segment_start(style, cs@, lo as int, i as int),
        decreases i,
    {
        i = i - 1;
    }
    i
}

pub(crate) fn is_skipped_range(cs: &Vec<char>, a: usize, b: usize) -> (r: bool)
    requires
        a <= b <= cs@.len(),
    ensures
        r == is_skipped(cs@.subrange(a as int, b as int)),
{
    let r = a == b || (b == a + 1 && cs[a] == '.');
    proof {
        if b == a + 1 && cs[a as int] == '.' {
            assert(cs@.subrange(a as int, b as int) =~= seq!['.']);
        }
        let seg = cs@.subrange(a as int, b as int);
        if seg == seq!['.'] {
            assert(seg.len() == seq!['.'].len());
            assert(seg[0] == seq!['.'][0]);
            assert(seg[0] == cs@[a as int]);
        }
    }
    r
}

pub(crate) fn last_kept_of(style: PathStyle, cs: &Vec<char>, lo: usize, hi: usize) -> (r: Option<(usize, usize)>)
    requires
        lo <= hi <= cs@.len(),
    ensures
        match r {
            None => last_kept(style, cs@, lo as int, hi as int) is None,
            Some((a, b)) => last_kept(style, cs@, lo as int, hi as int) == Some((a as int, b as int)),
        },
{
    let mut h = hi;
    loop
        invariant
            lo <= h <= hi <= cs@.len(),
            last_kept(style, cs@, lo as int, hi as int) == last_kept(style, cs@, lo as int, h as int),
        decreases h,
    {
        if h <= lo {
            return None;
        }
        let a = segment_start_of(style, cs, lo, h);
        proof {
            lemma_segment_start_bounds(style, cs@, lo as int, h as int);
        }
        if !is_skipped_range(cs, a, h) {
            return Some((a, h));
        }
        if a > lo {
            h = a - 1;
        } else {
            return None;
        }
    }
}

/// The last component where it is an ordinary name, as `Path::file_name`.
pub open spec fn file_name(style: PathStyle, s: Seq<char>) -> Option<Seq<char>> {
    match last_kept(style, s, body_start(style, s), s.len() as int) {
        Some((a, b)) => if s.subrange(a, b) == seq!['.', '.'] {
            None
        } else {
            Some(s.subrange(a, b))
        },
        None => None,
    }
}

/// The path without its last component, as `Path::parent`: `None` where the
/// path ends in its prefix or root or is empty. Separators and `.` segments
/// that the cut leaves at the end are dropped.
pub open spec fn parent(style: PathStyle, s: Seq<char>) -> Option<Seq<char>> {
    let lo = body_start(style, s);
    match last_kept(style, s, lo, s.len() as int) {
        Some((a, b)) => match last_kept(style, s, lo, before_segment(lo, a)) {
            Some((c, d)) => Some(s.subrange(0, d)),
            None => Some(s.subrange(0, lo)),
        },
        None => if has_cur_dir(style, s) {
            Some(s.subrange(0, prefix_len(style, s)))
        } else {
            None
        },
    }
}

/// Index of the last `.` in `n[0..hi)`.
pub open spec fn last_dot(n: Seq<char>, hi: int) -> Option<int>
    decreases hi,
{
    if hi <= 0 {
        None
    } else if n[hi - 1] == '.' {
        Some(hi - 1)
    } else {
        last_dot(n, hi - 1)
    }
}

pub proof fn lemma_last_dot_bounds(n: Seq<char>, hi: int)
    requires
        hi <= n.len(),
    ensures
        last_dot(n, hi) matches Some(i) ==> 0 <= i < hi && n[i] == '.',
    decreases hi,
{
    if hi > 0 && n[hi - 1] != '.' {
        lemma_last_dot_bounds(n, hi - 1);
    }
}

/// A file name without its extension, as `Path::file_stem` takes it: up to
/// the last `.`, unless that `.` starts the name or there is none.
pub open spec fn name_stem(n: Seq<char>) -> Seq<char> {
    match last_dot(n, n.len() as int) {
        Some(i) => if i == 0 {
            n
        } else {
            n.subrange(0, i)
        },
        None => n,
    }
}

/// A file name's extension, as `Path::extension` takes it: after the last `.`,
/// unless that `.` starts the name or there is none.
pub open spec fn name_extension(n: Seq<char>) -> Option<Seq<char>> {
    match last_dot(n, n.len() as int) {
        Some(i) => if i == 0 {
            None
        } else {
            Some(n.subrange(i + 1, n.len() as int))
        },
        None => None,
    }
}

/// `base` with `name` appended, as `PathBuf::push` does it: a name with a
/// prefix replaces the base, a name with a root keeps only the base's prefix,
/// and otherwise the style's separator goes between them unless the base is empty, a bare
/// drive prefix or already ends in a separator.
pub open spec fn join(style: PathStyle, base: Seq<char>, name: Seq<char>) -> Seq<char> {
    if prefix_len(style, name) == 2 {
        name
    } else if has_root(style, name) {
        base.subrange(0, prefix_len(style, base)) + name
    } else if base.len() == 0 || is_separator(style, base.last()) || (prefix_len(style, base) == 2 && base.len()
        == 2) {
        base + name
    } else {
        base + seq![separator(style)] + name
    }
}

/// Bounds of the file name of a path.
pub(crate) fn file_name_bounds(style: PathStyle, cs: &Vec<char>) -> (r: Option<(usize, usize)>)
    ensures
        match r {
            Some((a, b)) => a <= b <= cs@.len() && file_name(style, cs@) == Some(
                cs@.subrange(a as int, b as int),
            ),
            None => file_name(style, cs@) is None,
        },
{
    let lo = body_start_of(style, cs);
    proof {
        lemma_last_kept_bounds(style, cs@, lo as int, cs@.len() as int);
    }
    match last_kept_of(style, cs, lo, cs.len()) {
        Some((a, b)) => {
            let dots = b - a == 2 && cs[a] == '.' && cs[a + 1] == '.';
            proof {
                let seg = cs@.subrange(a as int, b as int);
                if dots {
                    assert(seg =~= seq!['.', '.']);
                }
                if seg == seq!['.', '.'] {
                    assert(seg.len() == 2);
                    assert(seg[0] == cs@[a as int] && seg[1] == cs@[a + 1]);
                }
            }
            if dots {
                None
            } else {
                Some((a, b))
            }
        },
        None => None,
    }
}

/// The file name of a path.
pub fn file_name_of(style: PathStyle, path: &str) -> (r: Option<String>)
    ensures
        match r {
            Some(n) => file_name(style, path@) == Some(n@),
            None => file_name(style, path@) is None,
        },
{
    let cs = chars_of(path);
    match file_name_bounds(style, &cs) {
        Some((a, b)) => Some(String::from_str(path.substring_char(a, b))),
        None => None,
    }
}

/// The parent of a path.
pub fn parent_of(style: PathStyle, path: &str) -> (r: Option<String>)
    ensures
        match r {
            Some(p) => parent(style, path@) == Some(p@),
            None => parent(style, path@) is None,
        },
{
    let cs = chars_of(path);
    let lo = body_start_of(style, &cs);
    proof {
        lemma_last_kept_bounds(style, cs@, lo as int, cs@.len() as int);
    }
    match last_kept_of(style, &cs, lo, cs.len()) {
        Some((a, b)) => {
            let before = if a > lo {
                a - 1
            } else {
                lo
            };
            proof {
                lemma_last_kept_bounds(style, cs@, lo as int, before as int);
            }
            match last_kept_of(style, &cs, lo, before) {
                Some((c, d)) => Some(String::from_str(path.substring_char(0, d))),
                None => Some(String::from_str(path.substring_char(0, lo))),
            }
        },
        None => {
            if has_cur_dir_of(style, &cs) {
                let p = prefix_len_of(style, &cs);
                Some(String::from_str(path.substring_char(0, p)))
            } else {
                None
            }
        },
    }
}

/// Index of the last `.` in `cs[0..hi)`.
pub(crate) fn last_dot_of(cs: &Vec<char>, hi: usize) -> (r: Option<usize>)
    requires
        hi <= cs@.len(),
    ensures
        match r {
            Some(i) => last_dot(cs@, hi as int) == Some(i as int) && i < hi,
            None => last_dot(cs@, hi as int) is None,
        },
{
    let mut h = hi;
    while h > 0
        invariant
            h <= hi <= cs@.len(),
            last_dot(cs@, hi as int) == last_dot(cs@, h as int),
        decreases h,
    {
        if cs[h - 1] == '.' {
            return Some(h - 1);
        }
        h = h - 1;
    }
    None
}

/// `base` with `name` appended.
pub fn join_path(style: PathStyle, base: &str, name: &str) -> (r: String)
    ensures
        r@ == join(style, base@, name@),
{
    let bs = chars_of(base);
    let ns = chars_of(name);
    if prefix_len_of(style, &ns) == 2 {
        return String::from_str(name);
    }
    if has_root_of(style, &ns) {
        let p = prefix_len_of(style, &bs);
        let mut r = String::from_str(base.substring_char(0, p));
        r.append(name);
        return r;
    }
    let mut r = String::from_str(base);
    let n = bs.len();
    if !(n == 0 || is_separator_char(style, bs[n - 1]) || (prefix_len_of(style, &bs) == 2 && n == 2)) {
        if style == PathStyle::Windows {
            r.append("\\");
            proof {
                reveal_strlit("\\");
            }
        } else {
            r.append("/");
            proof {
                reveal_strlit("/");
            }
        }
    }
    r.append(name);
    r
}

} // verus!
