//! Windows path text: drive prefixes, roots, joining, parents and file names, with
//! `\` and `/` both accepted as separators, and component-wise equality.

use vstd::prelude::*;
use crate::text::{
    concat, slice_copy, split_chars_by, keep_nonempty, seq_equal, split_on, nonempty_pieces,
    views_of,
};

verus! {

pub open spec fn is_sep(c: char) -> bool {
    c == '\\' || c == '/'
}

pub open spec fn is_ascii_letter(c: char) -> bool {
    ('a' <= c && c <= 'z') || ('A' <= c && c <= 'Z')
}

/// Length of a drive prefix such as `C:` (0 when there is none).
pub open spec fn prefix_len(s: Seq<char>) -> int {
    if s.len() >= 2 && is_ascii_letter(s[0]) && s[1] == ':' {
        2
    } else {
        0
    }
}

/// A separator right after the prefix.
pub open spec fn has_root(s: Seq<char>) -> bool {
    s.len() > prefix_len(s) && is_sep(s[prefix_len(s)])
}

/// End of the prefix and root part.
pub open spec fn root_end(s: Seq<char>) -> int {
    prefix_len(s) + if has_root(s) {
        1int
    } else {
        0int
    }
}

/// A drive prefix followed by a root, as `Path::is_absolute` requires on Windows.
pub open spec fn is_absolute_spec(s: Seq<char>) -> bool {
    prefix_len(s) == 2 && has_root(s)
}

/// `PathBuf::push` on Windows: a path with a prefix replaces the base; a rooted path
/// keeps only the base's prefix; a relative path is appended after a separator
/// unless the base is empty, ends in a separator or is a bare drive (`C:`).
pub open spec fn join_spec(base: Seq<char>, p: Seq<char>) -> Seq<char> {
    if prefix_len(p) > 0 {
        p
    } else if has_root(p) {
        base.subrange(0, prefix_len(base)) + p
    } else if base.len() == 0 || is_sep(base.last()) || (prefix_len(base) == 2 && base.len() == 2) {
        base + p
    } else {
        base + seq!['\\'] + p
    }
}

/// Drops trailing separators, never cutting into the prefix and root.
pub open spec fn trim_trailing(s: Seq<char>, floor: int) -> Seq<char>
    decreases s.len(),
{
    if s.len() > floor && s.len() > 0 && is_sep(s.last()) {
        trim_trailing(s.drop_last(), floor)
    } else {
        s
    }
}

/// Index of the last separator at or after `floor`, or -1.
pub open spec fn last_sep_from(s: Seq<char>, floor: int) -> int
    decreases s.len(),
{
    if s.len() <= floor || s.len() == 0 {
        -1
    } else if is_sep(s.last()) {
        s.len() - 1
    } else {
        last_sep_from(s.drop_last(), floor)
    }
}

/// `Path::parent`: the path without its last component, or `None` when nothing but
/// a prefix and root is left.
pub open spec fn parent_spec(s: Seq<char>) -> Option<Seq<char>> {
    let floor = root_end(s);
    let t = trim_trailing(s, floor);
    if t.len() <= floor {
        None
    } else {
        let j = last_sep_from(t, floor);
        if j < 0 {
            Some(t.subrange(0, floor))
        } else {
            Some(trim_trailing(t.subrange(0, j), floor))
        }
    }
}

/// The last component's text, when there is one.
pub open spec fn last_component(s: Seq<char>) -> Option<Seq<char>> {
    let floor = root_end(s);
    let t = trim_trailing(s, floor);
    if t.len() <= floor {
        None
    } else {
        let j = last_sep_from(t, floor);
        let from = if j < 0 {
            floor
        } else {
            j + 1
        };
        Some(t.subrange(from, t.len() as int))
    }
}

/// `Path::file_name`: the last component unless it is `.` or `..`.
pub open spec fn file_name_spec(s: Seq<char>) -> Option<Seq<char>> {
    match last_component(s) {
        Some(c) => if c == seq!['.'] || c == seq!['.', '.'] {
            None
        } else {
            Some(c)
        },
        None => None,
    }
}

/// The components after the prefix and root, without empty and `.` parts.
pub open spec fn normal_parts(s: Seq<char>) -> Seq<Seq<char>> {
    drop_dots(
        nonempty_pieces(
            split_on(s.subrange(root_end(s), s.len() as int), |c: char| c == '\\' || c == '/'),
        ),
    )
}

pub open spec fn drop_dots(ws: Seq<Seq<char>>) -> Seq<Seq<char>>
    decreases ws.len(),
{
    if ws.len() == 0 {
        Seq::empty()
    } else if ws.last() == seq!['.'] {
        drop_dots(ws.drop_last())
    } else {
        drop_dots(ws.drop_last()).push(ws.last())
    }
}

/// Component-wise equality, as `PathBuf`'s `==` compares paths.
pub open spec fn same_path(a: Seq<char>, b: Seq<char>) -> bool {
    &&& a.subrange(0, prefix_len(a)) == b.subrange(0, prefix_len(b))
    &&& has_root(a) == has_root(b)
    &&& normal_parts(a) == normal_parts(b)
}

fn is_sep_exec(c: char) -> (r: bool)
    ensures
        r == is_sep(c),
{
    c == '\\' || c == '/'
}

fn prefix_len_exec(s: &Vec<char>) -> (r: usize)
    ensures
        r == prefix_len(s@),
{
    if s.len() >= 2 && ((s[0] >= 'a' && s[0] <= 'z') || (s[0] >= 'A' && s[0] <= 'Z')) && s[1] == ':' {
        2
    } else {
        0
    }
}

fn has_root_exec(s: &Vec<char>) -> (r: bool)
    ensures
        r == has_root(s@),
{
    let p = prefix_len_exec(s);
    s.len() > p && is_sep_exec(s[p])
}

fn root_end_exec(s: &Vec<char>) -> (r: usize)
    ensures
        r == root_end(s@),
        r <= s@.len(),
{
    let p = prefix_len_exec(s);
    if has_root_exec(s) {
        p + 1
    } else {
        p
    }
}

/// `Path::is_absolute` for Windows paths.
pub fn is_absolute(s: &Vec<char>) -> (r: bool)
    ensures
        r == is_absolute_spec(s@),
{
    prefix_len_exec(s) == 2 && has_root_exec(s)
}

/// `base.join(p)` with Windows rules.
pub fn join(base: &Vec<char>, p: &Vec<char>) -> (r: Vec<char>)
    ensures
        r@ == join_spec(base@, p@),
{
    if prefix_len_exec(p) > 0 {
        slice_copy(p, 0, p.len())
    } else if has_root_exec(p) {
        let head = slice_copy(base, 0, prefix_len_exec(base));
        concat(&head, p)
    } else if base.len() == 0 || is_sep_exec(base[base.len() - 1]) || (prefix_len_exec(base) == 2
        && base.len() == 2) {
        concat(base, p)
    } else {
        let mut with_sep = slice_copy(base, 0, base.len());
        with_sep.push('\\');
        proof {
            assert(with_sep@ =~= base@ + seq!['\\']);
        }
        concat(&with_sep, p)
    }
}

proof fn lemma_trim_trailing_step(s: Seq<char>, floor: int, j: int)
    requires
        0 < j <= s.len(),
        j > floor,
        is_sep(s[j - 1]),
    ensures
        trim_trailing(s.subrange(0, j), floor) == trim_trailing(s.subrange(0, j - 1), floor),
{
    assert(s.subrange(0, j).drop_last() =~= s.subrange(0, j - 1));
}

/// Length of `trim_trailing(s, floor)`.
fn trim_trailing_len(s: &Vec<char>, floor: usize) -> (j: usize)
    requires
        floor <= s@.len(),
    ensures
        floor <= j <= s@.len(),
        trim_trailing(s@, floor as int) == s@.subrange(0, j as int),
{
    let mut j = s.len();
    assert(s@.subrange(0, j as int) =~= s@);
    while j > floor && is_sep_exec(s[j - 1])
        invariant
            floor <= j <= s@.len(),
            trim_trailing(s@, floor as int) == trim_trailing(s@.subrange(0, j as int), floor as int),
        decreases j,
    {
        proof {
            lemma_trim_trailing_step(s@, floor as int, j as int);
        }
        j -= 1;
    }
    j
}

proof fn lemma_last_sep_step(s: Seq<char>, floor: int, j: int)
    requires
        0 <= floor < j <= s.len(),
        !is_sep(s[j - 1]),
    ensures
        last_sep_from(s.subrange(0, j), floor) == last_sep_from(s.subrange(0, j - 1), floor),
{
    assert(s.subrange(0, j).drop_last() =~= s.subrange(0, j - 1));
}

/// `last_sep_from(t[..len], floor)` where `t = s[..len]`.
fn last_sep_index(s: &Vec<char>, len: usize, floor: usize) -> (r: Option<usize>)
    requires
        floor <= len <= s@.len(),
    ensures
        match r {
            Some(i) => last_sep_from(s@.subrange(0, len as int), floor as int) == i as int && floor
                <= i < len,
            None => last_sep_from(s@.subrange(0, len as int), floor as int) == -1,
        },
{
    let mut j = len;
    while j > floor
        invariant
            floor <= j <= len,
            len <= s@.len(),
            last_sep_from(s@.subrange(0, len as int), floor as int) == last_sep_from(
                s@.subrange(0, j as int),
                floor as int,
            ),
        decreases j,
    {
        if is_sep_exec(s[j - 1]) {
            proof {
                let t = s@.subrange(0, j as int);
                assert(t.last() == s@[j - 1]);
            }
            return Some(j - 1);
        }
        proof {
            lemma_last_sep_step(s@, floor as int, j as int);
        }
        j -= 1;
    }
    None
}

/// `Path::parent` for Windows paths.
pub fn parent(s: &Vec<char>) -> (r: Option<Vec<char>>)
    ensures
        match r {
            Some(p) => parent_spec(s@) == Some(p@),
            None => parent_spec(s@) is None,
        },
{
    let floor = root_end_exec(s);
    let tlen = trim_trailing_len(s, floor);
    if tlen <= floor {
        return None;
    }
    let t = slice_copy(s, 0, tlen);
    assert(t@ =~= s@.subrange(0, tlen as int));
    assert(t@.subrange(0, tlen as int) =~= t@);
    match last_sep_index(&t, tlen, floor) {
        None => {
            let head = slice_copy(&t, 0, floor);
            Some(head)
        },
        Some(j) => {
            let head = slice_copy(&t, 0, j);
            let k = trim_trailing_len(&head, floor);
            Some(slice_copy(&head, 0, k))
        },
    }
}

/// `Path::file_name` for Windows paths.
pub fn file_name(s: &Vec<char>) -> (r: Option<Vec<char>>)
    ensures
        match r {
            Some(p) => file_name_spec(s@) == Some(p@),
            None => file_name_spec(s@) is None,
        },
{
    let floor = root_end_exec(s);
    let tlen = trim_trailing_len(s, floor);
    if tlen <= floor {
        return None;
    }
    let t = slice_copy(s, 0, tlen);
    assert(t@ =~= s@.subrange(0, tlen as int));
    assert(t@.subrange(0, tlen as int) =~= t@);
    let from = match last_sep_index(&t, tlen, floor) {
        None => floor,
        Some(j) => j + 1,
    };
    let c = slice_copy(&t, from, tlen);
    let is_dot = c.len() == 1 && c[0] == '.';
    let is_dotdot = c.len() == 2 && c[0] == '.' && c[1] == '.';
    proof {
        if c@.len() == 1 && c@[0] == '.' {
            assert(c@ =~= seq!['.']);
        }
        if c@.len() == 2 && c@[0] == '.' && c@[1] == '.' {
            assert(c@ =~= seq!['.', '.']);
        }
        if c@ == seq!['.'] {
            assert(c@[0] == '.');
        }
        if c@ == seq!['.', '.'] {
            assert(c@[0] == '.' && c@[1] == '.');
        }
    }
    if is_dot || is_dotdot {
        None
    } else {
        Some(c)
    }
}

fn drop_dot_pieces(ws: Vec<Vec<char>>) -> (r: Vec<Vec<char>>)
    ensures
        views_of(r@) == drop_dots(views_of(ws@)),
{
    let mut out: Vec<Vec<char>> = Vec::new();
    let mut i: usize = 0;
    let n = ws.len();
    while i < n
        invariant
            i <= n,
            n == ws@.len(),
            views_of(out@) == drop_dots(views_of(ws@.subrange(0, i as int))),
        decreases n - i,
    {
        let w = ws[i].clone();
        proof {
            let pre = views_of(ws@.subrange(0, i as int));
            let next = views_of(ws@.subrange(0, i + 1));
            assert(next.drop_last() =~= pre);
            assert(next.last() == w@);
        }
        let is_dot = w.len() == 1 && w[0] == '.';
        proof {
            if w@.len() == 1 && w@[0] == '.' {
                assert(w@ =~= seq!['.']);
            }
            if w@ == seq!['.'] {
                assert(w@[0] == '.');
            }
        }
        if !is_dot {
            let ghost before = views_of(out@);
            out.push(w);
            proof {
                assert(views_of(out@) =~= before.push(ws@[i as int]@));
            }
        }
        i += 1;
    }
    proof {
        assert(ws@.subrange(0, n as int) =~= ws@);
    }
    out
}

fn normal_parts_exec(s: &Vec<char>) -> (r: Vec<Vec<char>>)
    ensures
        views_of(r@) == normal_parts(s@),
{
    let from = root_end_exec(s);
    let rest = slice_copy(s, from, s.len());
    let pieces = split_chars_by(&rest, '\\', '/');
    let kept = keep_nonempty(pieces);
    drop_dot_pieces(kept)
}

fn pieces_equal(a: &Vec<Vec<char>>, b: &Vec<Vec<char>>) -> (r: bool)
    ensures
        r == (views_of(a@) == views_of(b@)),
{
    if a.len() != b.len() {
        proof {
            assert(views_of(a@).len() != views_of(b@).len());
        }
        return false;
    }
    let mut i: usize = 0;
    while i < a.len()
        invariant
            i <= a@.len(),
            a@.len() == b@.len(),
            forall|k: int| 0 <= k < i ==> views_of(a@)[k] == views_of(b@)[k],
        decreases a@.len() - i,
    {
        if !seq_equal(&a[i], &b[i]) {
            proof {
                assert(views_of(a@)[i as int] != views_of(b@)[i as int]);
            }
            return false;
        }
        i += 1;
    }
    proof {
        assert(views_of(a@) =~= views_of(b@));
    }
    true
}

/// Component-wise path equality (`PathBuf == PathBuf`).
pub fn paths_equal(a: &Vec<char>, b: &Vec<char>) -> (r: bool)
    ensures
        r == same_path(a@, b@),
{
    let pa = slice_copy(a, 0, prefix_len_exec(a));
    let pb = slice_copy(b, 0, prefix_len_exec(b));
    if !seq_equal(&pa, &pb) {
        return false;
    }
    if has_root_exec(a) != has_root_exec(b) {
        return false;
    }
    let na = normal_parts_exec(a);
    let nb = normal_parts_exec(b);
    pieces_equal(&na, &nb)
}

} // verus!
