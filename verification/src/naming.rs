//! The rules for names: stored names, archive entry paths and the paths of
//! the files and folders that are written.

use vstd::prelude::*;
use crate::path::{
    PathStyle,
    before_segment, body_components, body_start, body_start_of, components, file_name,
    file_name_bounds, file_name_of, has_cur_dir, has_cur_dir_of, has_root, has_root_of,
    is_separator, join, join_path, last_dot, last_dot_of, last_kept, last_kept_of,
    lemma_last_dot_bounds, lemma_last_kept_bounds, name_extension, name_stem, parent, parent_of,
    prefix_len, prefix_len_of, segment_component, Component,
};
use crate::text::chars_of;
use crate::workflow::AppError;
use crate::path_laws::{
    is_appendable_name, is_bare_prefix, lemma_body_components_skip_cur_dir, lemma_join_components,
    lemma_join_parent_is_sibling, lemma_plain_name_is_appendable,
    lemma_single_component_is_appendable,
};

verus! {

/// Whether a character has the Unicode `White_Space` property, as
/// `char::is_whitespace` decides.
pub open spec fn is_whitespace(c: char) -> bool {
    let u = c as u32;
    (0x09 <= u && u <= 0x0d) || u == 0x20 || u == 0x85 || u == 0xa0 || u == 0x1680 || (0x2000 <= u
        && u <= 0x200a) || u == 0x2028 || u == 0x2029 || u == 0x202f || u == 0x205f || u == 0x3000
}

/// Whether trimming whitespace from `s` leaves nothing.
pub open spec fn is_blank(s: Seq<char>) -> bool {
    forall|i: int| 0 <= i < s.len() ==> is_whitespace(#[trigger] s[i])
}

/// The components are exactly one ordinary name.
pub open spec fn is_single_normal(c: Seq<Component>) -> bool {
    c.len() == 1 && c[0] is Normal
}

/// A name that can be restored next to the sealed file on any platform: not
/// blank, and a single ordinary path component by the Windows rules and by
/// the Unix rules alike.
pub open spec fn is_valid_name(s: Seq<char>) -> bool {
    &&& !is_blank(s)
    &&& is_single_normal(components(PathStyle::Windows, s))
    &&& is_single_normal(components(PathStyle::Unix, s))
}

fn is_whitespace_char(c: char) -> (r: bool)
    ensures
        r == is_whitespace(c),
{
    let u = c as u32;
    (0x09 <= u && u <= 0x0d) || u == 0x20 || u == 0x85 || u == 0xa0 || u == 0x1680 || (0x2000 <= u
        && u <= 0x200a) || u == 0x2028 || u == 0x2029 || u == 0x202f || u == 0x205f || u == 0x3000
}

fn is_blank_chars(cs: &Vec<char>) -> (r: bool)
    ensures
        r == is_blank(cs@),
{
    let mut i: usize = 0;
    while i < cs.len()
        invariant
            i <= cs@.len(),
            forall|j: int| 0 <= j < i ==> is_whitespace(#[trigger] cs@[j]),
        decreases cs@.len() - i,
    {
        if !is_whitespace_char(cs[i]) {
            return false;
        }
        i = i + 1;
    }
    true
}

/// The components of a body are empty exactly where no segment is kept.
pub proof fn lemma_body_components_empty(style: PathStyle, s: Seq<char>, lo: int, hi: int)
    requires
        lo <= hi,
    ensures
        (body_components(style, s, lo, hi).len() == 0) == (last_kept(style, s, lo, hi) is None),
{
}

/// Whether the characters make exactly one ordinary component in a style.
fn is_single_normal_chars(style: PathStyle, cs: &Vec<char>) -> (r: bool)
    ensures
        r == is_single_normal(components(style, cs@)),
{
    let n = cs.len();
    if prefix_len_of(style, cs) != 0 || has_root_of(style, cs) || has_cur_dir_of(style, cs) {
        return false;
    }
    proof {
        assert(components(style, cs@) =~= body_components(style, cs@, 0, n as int));
    }
    match last_kept_of(style, cs, 0, n) {
        None => {
            proof {
                lemma_body_components_empty(style, cs@, 0, n as int);
            }
            false
        },
        Some((a, b)) => {
            proof {
                lemma_last_kept_bounds(style, cs@, 0, n as int);
            }
            let before = if a > 0 {
                a - 1
            } else {
                0
            };
            let dots = b - a == 2 && cs[a] == '.' && cs[a + 1] == '.';
            proof {
                let seg = cs@.subrange(a as int, b as int);
                if dots {
                    assert(seg =~= seq!['.', '.']);
                }
                if seg == seq!['.', '.'] {
                    assert(seg.len() == 2);
                    assert(seg[0] == cs@[a as int] && seg[1] == cs@[a + 1]);
                }
            }
            if dots {
                return false;
            }
            match last_kept_of(style, cs, 0, before) {
                Some(_) => {
                    proof {
                        lemma_body_components_empty(style, cs@, 0, before as int);
                    }
                    false
                },
                None => {
                    proof {
                        lemma_body_components_empty(style, cs@, 0, before as int);
                    }
                    true
                },
            }
        },
    }
}

/// Checks that a stored name is a single ordinary path component, by the
/// Windows and the Unix rules, and not blank.
pub fn validated_name(name: &str) -> (r: Result<&str, AppError>)
    ensures
        match r {
            Ok(n) => n@ == name@ && is_valid_name(name@),
            Err(AppError::InvalidStoredName) => !is_valid_name(name@),
            Err(_) => false,
        },
{
    let cs = chars_of(name);
    if is_blank_chars(&cs) || !is_single_normal_chars(PathStyle::Windows, &cs)
        || !is_single_normal_chars(PathStyle::Unix, &cs) {
        return Err(AppError::InvalidStoredName);
    }
    Ok(name)
}

/// Every component is an ordinary name or the current directory.
pub open spec fn is_safe_relative(c: Seq<Component>) -> bool {
    forall|i: int| 0 <= i < c.len() ==> (#[trigger] c[i] is Normal || c[i] is CurDir)
}

/// Whether the characters of an archive entry path stay inside the folder
/// they are unpacked into, in a style.
fn is_safe_relative_chars(style: PathStyle, cs: &Vec<char>) -> (r: bool)
    ensures
        r == is_safe_relative(components(style, cs@)),
{
    let ghost s = cs@;
    if prefix_len_of(style, cs) != 0 {
        assert(components(style, s)[0] is Prefix);
        return false;
    }
    if has_root_of(style, cs) {
        assert(components(style, s)[0] is RootDir);
        return false;
    }
    let lo = body_start_of(style, cs);
    let ghost head = if has_cur_dir(style, s) {
        seq![Component::CurDir]
    } else {
        seq![]
    };
    assert(components(style, s) =~= head + body_components(style, s, lo as int, s.len() as int));
    let mut hi = cs.len();
    loop
        invariant
            lo <= hi <= s.len(),
            s == cs@,
            components(style, s) == head + body_components(style, s, lo as int, s.len() as int),
            is_safe_relative(components(style, s)) == is_safe_relative(
                head + body_components(style, s, lo as int, hi as int),
            ),
            is_safe_relative(head),
        decreases hi,
    {
        proof {
            lemma_last_kept_bounds(style, s, lo as int, hi as int);
        }
        match last_kept_of(style, cs, lo, hi) {
            None => {
                assert(body_components(style, s, lo as int, hi as int) =~= seq![]);
                assert(head + body_components(style, s, lo as int, hi as int) =~= head);
                return true;
            },
            Some((a, b)) => {
                let next = if a > lo {
                    a - 1
                } else {
                    lo
                };
                let dots = b - a == 2 && cs[a] == '.' && cs[a + 1] == '.';
                let ghost seg = s.subrange(a as int, b as int);
                let ghost rest = head + body_components(style, s, lo as int, next as int);
                proof {
                    if dots {
                        assert(seg =~= seq!['.', '.']);
                    }
                    if seg == seq!['.', '.'] {
                        assert(seg.len() == 2);
                        assert(seg[0] == s[a as int] && seg[1] == s[a + 1]);
                    }
                    assert(head + body_components(style, s, lo as int, hi as int) =~= rest.push(
                        segment_component(seg),
                    ));
                }
                if dots {
                    assert(!(rest.push(segment_component(seg))[rest.len() as int] is Normal));
                    return false;
                }
                proof {
                    let full = rest.push(segment_component(seg));
                    if is_safe_relative(rest) {
                        assert forall|i: int| 0 <= i < full.len() implies (#[trigger] full[i] is Normal
                            || full[i] is CurDir) by {
                            if i < rest.len() {
                                assert(full[i] == rest[i]);
                            }
                        }
                    }
                    if is_safe_relative(full) {
                        assert forall|i: int| 0 <= i < rest.len() implies (#[trigger] rest[i] is Normal
                            || rest[i] is CurDir) by {
                            assert(full[i] == rest[i]);
                        }
                    }
                }
                if a > lo {
                    hi = a - 1;
                } else {
                    assert(body_components(style, s, lo as int, lo as int) =~= seq![]) by {
                        reveal_with_fuel(body_components, 2);
                    }
                    return true;
                }
            },
        }
    }
}

/// An archive entry path that stays inside its folder by the Windows and the
/// Unix rules alike.
pub open spec fn is_safe_entry_path(s: Seq<char>) -> bool {
    is_safe_relative(components(PathStyle::Windows, s)) && is_safe_relative(
        components(PathStyle::Unix, s),
    )
}

/// Checks that an archive entry path stays inside the folder it is unpacked
/// into, by the Windows and the Unix rules: it has no prefix, no root and no
/// parent-directory component.
pub fn ensure_safe_archive_path(path: &str) -> (r: Result<(), AppError>)
    ensures
        match r {
            Ok(()) => is_safe_entry_path(path@),
            Err(AppError::UnsafeArchivePath) => !is_safe_entry_path(path@),
            Err(_) => false,
        },
{
    let cs = chars_of(path);
    if is_safe_relative_chars(PathStyle::Windows, &cs) && is_safe_relative_chars(
        PathStyle::Unix,
        &cs,
    ) {
        Ok(())
    } else {
        Err(AppError::UnsafeArchivePath)
    }
}

/// A valid name adds one ordinary component when appended to a path.
pub proof fn lemma_valid_name_is_appendable(style: PathStyle, n: Seq<char>)
    requires
        is_valid_name(n),
    ensures
        is_appendable_name(style, n),
{
    let c = components(style, n);
    if prefix_len(style, n) == 2 {
        assert(c[0] is Prefix);
    } else if has_root(style, n) {
        assert(c[0] is RootDir);
    } else if has_cur_dir(style, n) {
        assert(c[0] is CurDir);
    }
    assert(c =~= body_components(style, n, 0, n.len() as int));
    lemma_last_kept_bounds(style, n, 0, n.len() as int);
    let (a, b) = last_kept(style, n, 0, n.len() as int)->0;
    lemma_body_components_empty(style, n, 0, before_segment(0, a));
    assert(c.last() == segment_component(n.subrange(a, b)));
    lemma_single_component_is_appendable(style, n);
}

/// An archive entry path that passes [`ensure_safe_archive_path`], appended
/// by the rules of either style to any folder path, keeps the folder's components in front and adds only
/// ordinary names, or a current directory, after them: it cannot climb out of
/// the folder or replace it. Past a folder that is more than a bare drive
/// prefix, only ordinary names are added.
pub proof fn lemma_safe_entry_stays_inside(style: PathStyle, base: Seq<char>, rel: Seq<char>)
    requires
        is_safe_relative(components(style, rel)),
    ensures
        components(style, join(style, base, rel)).len() >= components(style, base).len(),
        components(style, join(style, base, rel)).subrange(0, components(style, base).len() as int) == components(style, base),
        is_safe_relative(
            components(style, join(style, base, rel)).subrange(
                components(style, base).len() as int,
                components(style, join(style, base, rel)).len() as int,
            ),
        ),
        !is_bare_prefix(style, base) ==> forall|i: int|
            components(style, base).len() <= i < components(style, join(style, base, rel)).len() ==> (
            #[trigger] components(style, join(style, base, rel))[i]) is Normal,
{
    let c = components(style, rel);
    if prefix_len(style, rel) == 2 {
        assert(c[0] is Prefix);
    }
    if has_root(style, rel) {
        assert(c[0] is RootDir);
    }
    let body = body_components(style, rel, 0, rel.len() as int);
    if has_cur_dir(style, rel) {
        lemma_body_components_skip_cur_dir(style, rel, rel.len() as int);
        assert(c =~= seq![Component::CurDir] + body);
    } else {
        assert(c =~= body);
    }
    lemma_body_components_are_kept(style, rel, 0, rel.len() as int);
    assert forall|i: int| 0 <= i < body.len() implies (#[trigger] body[i]) is Normal by {
        let j = c.len() - body.len() + i;
        assert(c[j] == body[i]);
    }
    lemma_join_components(style, base, rel);
    let t = components(style, join(style, base, rel));
    let k = components(style, base).len() as int;
    let tail = if is_bare_prefix(style, base) {
        c
    } else {
        body
    };
    assert(t =~= components(style, base) + tail);
    assert(t.subrange(0, k) =~= components(style, base));
    assert(t.subrange(k, t.len() as int) =~= tail);
    assert forall|i: int| k <= i < t.len() implies (#[trigger] t[i] is Normal || t[i] is CurDir) by {
        assert(t[i] == tail[i - k]);
    }
    if !is_bare_prefix(style, base) {
        assert forall|i: int| k <= i < t.len() implies (#[trigger] t[i]) is Normal by {
            assert(t[i] == body[i - k]);
        }
    }
}

/// Body components are never the current directory.
proof fn lemma_body_components_are_kept(style: PathStyle, s: Seq<char>, lo: int, hi: int)
    ensures
        forall|i: int|
            0 <= i < body_components(style, s, lo, hi).len() ==> !(#[trigger] body_components(style, s, lo, hi)[i] is CurDir),
    decreases hi - lo,
{
    if lo <= hi {
        lemma_last_kept_bounds(style, s, lo, hi);
        if let Some((a, b)) = last_kept(style, s, lo, hi) {
            lemma_body_components_are_kept(style, s, lo, before_segment(lo, a));
            let prev = body_components(style, s, lo, before_segment(lo, a));
            assert forall|i: int| 0 <= i < body_components(style, s, lo, hi).len() implies !(
            #[trigger] body_components(style, s, lo, hi)[i] is CurDir) by {
                if i < prev.len() {
                    assert(body_components(style, s, lo, hi)[i] == prev[i]);
                }
            }
        }
    }
}

/// The file name of a path, checked to be a valid stored name.
pub fn single_component_name(style: PathStyle, path: &str) -> (r: Result<String, AppError>)
    ensures
        match r {
            Ok(n) => file_name(style, path@) == Some(n@) && is_valid_name(n@),
            Err(AppError::MissingFileName) => file_name(style, path@) is None,
            Err(AppError::InvalidStoredName) => file_name(style, path@) matches Some(n) && !is_valid_name(n),
            Err(_) => false,
        },
{
    let name = match file_name_of(style, path) {
        Some(n) => n,
        None => return Err(AppError::MissingFileName),
    };
    match validated_name(name.as_str()) {
        Ok(_) => Ok(name),
        Err(e) => Err(e),
    }
}

/// The extension given to sealed files.
pub open spec fn encrypted_extension() -> Seq<char> {
    ".encryptallinator"@
}

/// A file name has a kept last segment, so the path has a parent.
pub proof fn lemma_file_name_has_parent(style: PathStyle, s: Seq<char>)
    ensures
        file_name(style, s) is Some ==> parent(style, s) is Some,
{
}

/// Where a path is sealed to, before a free name is searched: its file name
/// with `.encryptallinator` appended, next to it.
pub fn encrypted_output_path(style: PathStyle, input_path: &str) -> (r: Result<String, AppError>)
    ensures
        match r {
            Ok(out) => {
                &&& file_name(style, input_path@) is Some
                &&& is_valid_name(file_name(style, input_path@)->0)
                &&& parent(style, input_path@) is Some
                &&& out@ == join(style, 
                    parent(style, input_path@)->0,
                    file_name(style, input_path@)->0 + encrypted_extension(),
                )
                &&& parent(style, out@) == parent(style, input_path@)
                &&& file_name(style, out@) == Some(file_name(style, input_path@)->0 + encrypted_extension())
                &&& out@ != input_path@
            },
            Err(AppError::MissingFileName) => file_name(style, input_path@) is None,
            Err(AppError::InvalidStoredName) => file_name(style, input_path@) matches Some(n)
                && !is_valid_name(n),
            Err(_) => false,
        },
{
    let stored = single_component_name(style, input_path)?;
    let parent = match parent_of(style, input_path) {
        Some(p) => p,
        None => {
            proof {
                lemma_file_name_has_parent(style, input_path@);
            }
            return Err(AppError::MissingFileName);
        },
    };
    let mut name = stored;
    name.append(".encryptallinator");
    proof {
        let fname = file_name(style, input_path@)->0;
        let n = name@;
        reveal_strlit(".encryptallinator");
        lemma_valid_name_is_appendable(style, fname);
        lemma_last_kept_bounds(style, input_path@, body_start(style, input_path@), input_path@.len() as int);
        assert forall|i: int| 0 <= i < n.len() implies !is_separator(style, #[trigger] n[i]) by {
            if i < fname.len() {
                assert(n[i] == fname[i]);
                assert(fname[i] == input_path@[(last_kept(style, input_path@, body_start(style, input_path@), input_path@.len() as int)->0).0 + i]);
            }
        }
        assert(n.len() > 2);
        assert(prefix_len(style, n) == 0) by {
            if fname.len() >= 2 {
                assert(n[0] == fname[0] && n[1] == fname[1]);
            } else {
                assert(n[1] == '.');
            }
        }
        lemma_plain_name_is_appendable(style, n);
        lemma_join_parent_is_sibling(style, input_path@, n);
        assert(n.len() > fname.len());
    }
    Ok(join_path(style, parent.as_str(), name.as_str()))
}

/// The character of a decimal digit.
pub open spec fn digit_char(d: nat) -> char {
    if d == 0 {
        '0'
    } else if d == 1 {
        '1'
    } else if d == 2 {
        '2'
    } else if d == 3 {
        '3'
    } else if d == 4 {
        '4'
    } else if d == 5 {
        '5'
    } else if d == 6 {
        '6'
    } else if d == 7 {
        '7'
    } else if d == 8 {
        '8'
    } else {
        '9'
    }
}

/// The decimal digits of `n`, without leading zeros.
pub open spec fn decimal(n: nat) -> Seq<char>
    decreases n,
{
    if n < 10 {
        seq![digit_char(n)]
    } else {
        decimal(n / 10).push(digit_char(n % 10))
    }
}

fn digit_str(d: u32) -> (r: &'static str)
    requires
        d < 10,
    ensures
        r@ == seq![digit_char(d as nat)],
{
    proof {
        reveal_strlit("0");
        reveal_strlit("1");
        reveal_strlit("2");
        reveal_strlit("3");
        reveal_strlit("4");
        reveal_strlit("5");
        reveal_strlit("6");
        reveal_strlit("7");
        reveal_strlit("8");
        reveal_strlit("9");
    }
    if d == 0 {
        "0"
    } else if d == 1 {
        "1"
    } else if d == 2 {
        "2"
    } else if d == 3 {
        "3"
    } else if d == 4 {
        "4"
    } else if d == 5 {
        "5"
    } else if d == 6 {
        "6"
    } else if d == 7 {
        "7"
    } else if d == 8 {
        "8"
    } else {
        "9"
    }
}

/// Appends the decimal digits of `n`.
pub fn append_decimal(out: &mut String, n: u32)
    ensures
        final(out)@ == old(out)@ + decimal(n as nat),
    decreases n,
{
    if n >= 10 {
        append_decimal(out, n / 10);
    }
    out.append(digit_str(n % 10));
    assert(final(out)@ =~= old(out)@ + decimal(n as nat));
}

/// The stem used where a path has no file name.
pub open spec fn fallback_stem() -> Seq<char> {
    "encryptallinator"@
}

/// The name tried at a given attempt: the stem, ` (index)` and the extension.
pub open spec fn numbered_name(stem: Seq<char>, index: nat, extension: Option<Seq<char>>) -> Seq<char> {
    stem + " ("@ + decimal(index) + ")"@ + match extension {
        Some(e) => "."@ + e,
        None => seq![],
    }
}

/// The path tried at a given attempt: the path itself first, then the same
/// name numbered from 1 next to it.
pub open spec fn candidate(style: PathStyle, path: Seq<char>, index: nat) -> Seq<char> {
    if index == 0 {
        path
    } else {
        let base = match parent(style, path) {
            Some(p) => p,
            None => seq![],
        };
        let stem = match file_name(style, path) {
            Some(n) => name_stem(n),
            None => fallback_stem(),
        };
        let extension = match file_name(style, path) {
            Some(n) => name_extension(n),
            None => None,
        };
        join(style, base, numbered_name(stem, index, extension))
    }
}

/// Decimal digits are not separators.
proof fn lemma_decimal_has_no_separator(style: PathStyle, n: nat)
    ensures
        forall|i: int| 0 <= i < decimal(n).len() ==> !is_separator(style, #[trigger] decimal(n)[i]),
        decimal(n).len() > 0,
    decreases n,
{
    if n >= 10 {
        lemma_decimal_has_no_separator(style, n / 10);
    }
}

/// A numbered candidate sits next to the path it numbers, where the path has
/// a parent and any file name of it has a stem that does not start with a
/// drive prefix.
pub proof fn lemma_numbered_candidate_is_sibling(style: PathStyle, path: Seq<char>, index: nat)
    requires
        index > 0,
        parent(style, path) is Some,
        file_name(style, path) is Some ==> prefix_len(style, name_stem(file_name(style, path)->0)) == 0,
    ensures
        parent(style, candidate(style, path, index)) == parent(style, path),
        file_name(style, path) is Some ==> file_name(style, candidate(style, path, index)) == Some(
            numbered_name(
                name_stem(file_name(style, path)->0),
                index,
                name_extension(file_name(style, path)->0),
            ),
        ),
{
    reveal_strlit(" (");
    reveal_strlit(")");
    reveal_strlit(".");
    reveal_strlit("encryptallinator");
    lemma_decimal_has_no_separator(style, index);
    let digits = decimal(index);
    let (stem, ext) = match file_name(style, path) {
        Some(fname) => (name_stem(fname), name_extension(fname)),
        None => (fallback_stem(), None),
    };
    let n = numbered_name(stem, index, ext);
    if let Some(fname) = file_name(style, path) {
        lemma_last_kept_bounds(style, path, body_start(style, path), path.len() as int);
        let start = (last_kept(style, path, body_start(style, path), path.len() as int)->0).0;
        assert forall|i: int| 0 <= i < fname.len() implies !is_separator(style, #[trigger] fname[i]) by {
            assert(fname[i] == path[start + i]);
        }
        lemma_last_dot_bounds(fname, fname.len() as int);
        assert(fname.len() > 0) by {
            if fname.len() == 0 {
                assert(fname =~= Seq::<char>::empty());
            }
        }
    }
    assert forall|i: int| 0 <= i < stem.len() implies !is_separator(style, #[trigger] stem[i]) by {
        if let Some(fname) = file_name(style, path) {
            assert(stem[i] == fname[i]);
        }
    }
    assert forall|i: int| 0 <= i < n.len() implies !is_separator(style, #[trigger] n[i]) by {
        let a = stem.len() as int;
        let b = a + 2;
        let c = b + digits.len();
        let d = c + 1;
        if i < a {
            assert(n[i] == stem[i]);
        } else if i < b {
        } else if i < c {
            assert(n[i] == digits[i - b]);
        } else if i < d {
        } else {
            let fname = file_name(style, path)->0;
            let e = ext->0;
            if i == d {
            } else {
                assert(n[i] == e[i - d - 1]);
                assert(e[i - d - 1] == fname[last_dot(fname, fname.len() as int)->0 + 1 + (i - d - 1)]);
            }
        }
    }
    assert(stem.len() > 0);
    assert(prefix_len(style, n) == 0) by {
        if stem.len() >= 2 {
            assert(n[0] == stem[0] && n[1] == stem[1]);
        } else {
            assert(n[1] == ' ');
        }
    }
    assert(n.len() > 2);
    assert(n != seq!['.']);
    assert(n != seq!['.', '.']) by {
        if n == seq!['.', '.'] {
            assert(n.len() == 2);
        }
    }
    lemma_plain_name_is_appendable(style, n);
    lemma_join_parent_is_sibling(style, path, n);
}

/// The path to try at a given attempt.
pub fn candidate_path(style: PathStyle, path: &str, index: u32) -> (r: String)
    ensures
        r@ == candidate(style, path@, index as nat),
{
    if index == 0 {
        return String::from_str(path);
    }
    let base = match parent_of(style, path) {
        Some(p) => p,
        None => String::new(),
    };
    let mut name = String::new();
    let cs = chars_of(path);
    let ghost fname = file_name(style, path@);
    match file_name_bounds(style, &cs) {
        Some((a, b)) => {
            let fname_str = path.substring_char(a, b);
            let ns = chars_of(fname_str);
            let dot = last_dot_of(&ns, ns.len());
            let stem_end = match dot {
                Some(i) => if i == 0 { ns.len() } else { i },
                None => ns.len(),
            };
            name.append(fname_str.substring_char(0, stem_end));
            name.append(" (");
            append_decimal(&mut name, index);
            name.append(")");
            match dot {
                Some(i) => if i != 0 {
                    name.append(".");
                    name.append(fname_str.substring_char(i + 1, ns.len()));
                },
                None => {},
            }
            proof {
                let n = fname_str@;
                assert(fname == Some(n));
                if dot is Some && dot->0 == 0 {
                    assert(n.subrange(0, n.len() as int) =~= n);
                }
                if dot is None {
                    assert(n.subrange(0, n.len() as int) =~= n);
                }
                assert(name@ =~= numbered_name(name_stem(n), index as nat, name_extension(n)));
            }
        },
        None => {
            name.append("encryptallinator");
            name.append(" (");
            append_decimal(&mut name, index);
            name.append(")");
            assert(name@ =~= numbered_name(fallback_stem(), index as nat, None));
        },
    }
    join_path(style, base.as_str(), name.as_str())
}

/// What the search for a free output path does next.
pub enum PathSearch {
    /// The candidate is free: write here.
    Found(String),
    /// The candidate is taken: try this attempt next.
    Next(u32),
}

/// One step of the search for a free output path: given whether the candidate
/// of attempt `index` already exists, either settles on it or moves to the
/// next attempt.
pub fn next_available_path(style: PathStyle, path: &str, index: u32, candidate_exists: bool) -> (r: PathSearch)
    requires
        index < 0x7FFF_FFFF,
    ensures
        match r {
            PathSearch::Found(p) => !candidate_exists && p@ == candidate(style, path@, index as nat),
            PathSearch::Next(i) => candidate_exists && i == index + 1,
        },
{
    if candidate_exists {
        PathSearch::Next(index + 1)
    } else {
        PathSearch::Found(candidate_path(style, path, index))
    }
}

} // verus!
