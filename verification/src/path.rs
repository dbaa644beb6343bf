//! File-name parts of a `/`-separated path, as `std::path::Path` defines them.
use vstd::prelude::*;

verus! {

/// Position just after the last `/` in the first `end` characters, or 0.
pub open spec fn seg_start(p: Seq<char>, end: int) -> int
    decreases end,
{
    if end <= 0 {
        0
    } else if p[end - 1] == '/' {
        end
    } else {
        seg_start(p, end - 1)
    }
}

pub proof fn lemma_seg_start_le(p: Seq<char>, end: int)
    ensures
        seg_start(p, end) <= end || end <= 0,
        seg_start(p, end) >= 0,
    decreases end,
{
    if end > 0 && p[end - 1] != '/' {
        lemma_seg_start_le(p, end - 1);
    }
}

pub proof fn lemma_seg_start(p: Seq<char>, end: int)
    requires
        0 <= end <= p.len(),
    ensures
        0 <= seg_start(p, end) <= end,
        seg_start(p, end) > 0 ==> p[seg_start(p, end) - 1] == '/',
        forall|k: int| seg_start(p, end) <= k < end ==> #[trigger] p[k] != '/',
    decreases end,
{
    if end > 0 && p[end - 1] != '/' {
        lemma_seg_start(p, end - 1);
    }
}

/// The file name of the path made of the first `end` characters: the last
/// component, skipping empty and `.` components; none when that component is
/// `..` or there is none (`Path::file_name`).
pub open spec fn file_name_upto(p: Seq<char>, end: int) -> Option<Seq<char>>
    decreases end,
{
    if end <= 0 {
        None
    } else {
        let s = seg_start(p, end);
        proof {
            lemma_seg_start_le(p, end);
        }
        let seg = p.subrange(s, end);
        if seg.len() == 0 || seg == seq!['.'] {
            if s == 0 {
                None
            } else {
                file_name_upto(p, s - 1)
            }
        } else if seg == seq!['.', '.'] {
            None
        } else {
            Some(seg)
        }
    }
}

pub open spec fn file_name(p: Seq<char>) -> Option<Seq<char>> {
    file_name_upto(p, p.len() as int)
}

/// Position of the last `.` in `f`, if any.
pub open spec fn last_dot(f: Seq<char>, end: int) -> Option<int>
    decreases end,
{
    if end <= 0 {
        None
    } else if f[end - 1] == '.' {
        Some(end - 1)
    } else {
        last_dot(f, end - 1)
    }
}

/// The extension of a file name: the part after the last `.`, unless there is
/// no `.` or the only `.` starts the name (`Path::extension`).
pub open spec fn extension_of_name(f: Seq<char>) -> Option<Seq<char>> {
    match last_dot(f, f.len() as int) {
        Some(k) => if k == 0 {
            None
        } else {
            Some(f.subrange(k + 1, f.len() as int))
        },
        None => None,
    }
}

/// The stem of a file name: the part before the last `.`, or the whole name
/// when there is no `.` or the only `.` starts the name (`Path::file_stem`).
pub open spec fn stem_of_name(f: Seq<char>) -> Seq<char> {
    match last_dot(f, f.len() as int) {
        Some(k) => if k == 0 {
            f
        } else {
            f.subrange(0, k)
        },
        None => f,
    }
}

pub open spec fn extension(p: Seq<char>) -> Option<Seq<char>> {
    match file_name(p) {
        Some(f) => extension_of_name(f),
        None => None,
    }
}

pub open spec fn file_stem(p: Seq<char>) -> Option<Seq<char>> {
    match file_name(p) {
        Some(f) => Some(stem_of_name(f)),
        None => None,
    }
}

fn seg_start_exec(p: &Vec<char>, end: usize) -> (res: usize)
    requires
        end <= p.len(),
    ensures
        res == seg_start(p@, end as int),
{
    let mut i = end;
    while i > 0 && p[i - 1] != '/'
        invariant
            i <= end <= p.len(),
            seg_start(p@, i as int) == seg_start(p@, end as int),
        decreases i,
    {
        i = i - 1;
    }
    i
}

fn is_dot_or_empty(p: &Vec<char>, s: usize, e: usize) -> (res: bool)
    requires
        s <= e <= p.len(),
    ensures
        res == (p@.subrange(s as int, e as int).len() == 0 || p@.subrange(s as int, e as int)
            == seq!['.']),
{
    if s == e {
        return true;
    }
    if e - s == 1 && p[s] == '.' {
        proof {
            assert(p@.subrange(s as int, e as int) =~= seq!['.']);
        }
        return true;
    }
    proof {
        let sub = p@.subrange(s as int, e as int);
        assert(sub.len() == e - s);
        assert(seq!['.'].len() == 1);
        if e - s == 1 {
            assert(sub[0] == p@[s as int]);
            assert(sub[0] != seq!['.'][0]);
        }
    }
    false
}

fn is_dot_dot(p: &Vec<char>, s: usize, e: usize) -> (res: bool)
    requires
        s <= e <= p.len(),
    ensures
        res == (p@.subrange(s as int, e as int) == seq!['.', '.']),
{
    if e - s == 2 && p[s] == '.' && p[s + 1] == '.' {
        proof {
            assert(p@.subrange(s as int, e as int) =~= seq!['.', '.']);
        }
        return true;
    }
    proof {
        let sub = p@.subrange(s as int, e as int);
        assert(sub.len() == e - s);
        assert(seq!['.', '.'].len() == 2);
        if e - s == 2 {
            assert(sub[0] == p@[s as int]);
            assert(sub[1] == p@[s + 1]);
            if p@[s as int] != '.' {
                assert(sub[0] != seq!['.', '.'][0]);
            } else {
                assert(sub[1] != seq!['.', '.'][1]);
            }
        }
    }
    false
}

/// The file name of a path (`Path::file_name`).
pub fn file_name_chars(p: &Vec<char>) -> (res: Option<Vec<char>>)
    ensures
        res matches Some(f) ==> file_name(p@) == Some(f@),
        res is None ==> file_name(p@) is None,
{
    let mut end = p.len();
    loop
        invariant
            end <= p.len(),
            file_name_upto(p@, end as int) == file_name(p@),
        decreases end,
    {
        if end == 0 {
            return None;
        }
        let s = seg_start_exec(p, end);
        proof {
            lemma_seg_start(p@, end as int);
        }
        if is_dot_or_empty(p, s, end) {
            if s == 0 {
                return None;
            }
            end = s - 1;
        } else if is_dot_dot(p, s, end) {
            return None;
        } else {
            let seg = crate::text::slice_chars(p, s, end);
            return Some(seg);
        }
    }
}

fn last_dot_exec(f: &Vec<char>) -> (res: Option<usize>)
    ensures
        res matches Some(k) ==> last_dot(f@, f.len() as int) == Some(k as int) && k < f.len(),
        res is None ==> last_dot(f@, f.len() as int) is None,
{
    let mut i = f.len();
    while i > 0 && f[i - 1] != '.'
        invariant
            i <= f.len(),
            last_dot(f@, i as int) == last_dot(f@, f.len() as int),
        decreases i,
    {
        i = i - 1;
    }
    if i == 0 {
        None
    } else {
        Some(i - 1)
    }
}

/// The extension of a file name (`Path::extension` applied to a name).
pub fn extension_of_name_chars(f: &Vec<char>) -> (res: Option<Vec<char>>)
    ensures
        res matches Some(e) ==> extension_of_name(f@) == Some(e@),
        res is None ==> extension_of_name(f@) is None,
{
    match last_dot_exec(f) {
        Some(k) => {
            if k == 0 {
                None
            } else {
                Some(crate::text::slice_chars(f, k + 1, f.len()))
            }
        },
        None => None,
    }
}

/// The stem of a file name (`Path::file_stem` applied to a name).
pub fn stem_of_name_chars(f: &Vec<char>) -> (res: Vec<char>)
    ensures
        res@ == stem_of_name(f@),
{
    match last_dot_exec(f) {
        Some(k) => {
            if k == 0 {
                f.clone()
            } else {
                crate::text::slice_chars(f, 0, k)
            }
        },
        None => f.clone(),
    }
}

} // verus!
