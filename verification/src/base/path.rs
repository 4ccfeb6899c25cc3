//! Host paths as byte strings: whether one is absolute, how two are joined,
//! and what the directory and the file name of one are.
//!
//! The operations look at the bytes of a path and never at the file system.
//! Components are separated by `/`. A run of separators counts as one, and a
//! component `.` counts as none, unless it stands at the start of a path that
//! is not absolute.

use crate::base::text::{
    back_run_len, back_run_start, lemma_back_run_len_holds, lemma_back_run_len_stops, SLASH,
};
use vstd::prelude::*;
use vstd::slice::*;

verus! {

/// The byte `.`.
pub const DOT: u8 = 46;

/// Whether a path starts at the root.
pub open spec fn spec_is_absolute(path: Seq<u8>) -> bool {
    path.len() > 0 && path[0] == SLASH
}

/// A path joined to a base. An absolute path replaces the base; any other is
/// put behind it, with a separator between the two unless the base is empty
/// or ends in one.
pub open spec fn spec_join(base: Seq<u8>, path: Seq<u8>) -> Seq<u8> {
    if spec_is_absolute(path) {
        path
    } else if base.len() == 0 || base.last() == SLASH {
        base + path
    } else {
        base + seq![SLASH] + path
    }
}

/// The length of what stands before the components of a path: the
/// separator of an absolute path, or the `.` of a path that starts in the
/// current directory.
pub open spec fn spec_root_len(path: Seq<u8>) -> nat {
    if path.len() >= 1 && (path[0] == SLASH || (path[0] == DOT && (path.len() == 1 || path[1]
        == SLASH))) {
        1
    } else {
        0
    }
}

/// The last component of a path: what stands behind its last separator.
pub open spec fn spec_last(path: Seq<u8>) -> Seq<u8> {
    path.skip(path.len() - back_run_len(path, |b: u8| (b == SLASH) == true))
}

/// A path without its last component and the separator before it.
pub open spec fn spec_without_last(path: Seq<u8>) -> Seq<u8> {
    let start = path.len() - back_run_len(path, |b: u8| (b == SLASH) == true);
    if start > spec_root_len(path) {
        path.take(start - 1)
    } else {
        path.take(start)
    }
}

/// Whether a component counts as none: the empty one, which a separator at
/// the end or behind another leaves, and `.`.
pub open spec fn spec_is_skipped(component: Seq<u8>) -> bool {
    component.len() == 0 || component == seq![DOT]
}

/// A path without the components at its end that count as none.
pub open spec fn spec_trim_right(path: Seq<u8>) -> Seq<u8>
    decreases path.len(),
    via spec_trim_right_decreases
{
    if path.len() > spec_root_len(path) && spec_is_skipped(spec_last(path)) {
        spec_trim_right(spec_without_last(path))
    } else {
        path
    }
}

#[via_fn]
proof fn spec_trim_right_decreases(path: Seq<u8>) {
    if path.len() > spec_root_len(path) {
        lemma_without_last(path);
    }
}

/// A path without its last component is shorter, and it keeps what stands
/// before the components.
proof fn lemma_without_last(path: Seq<u8>)
    requires
        path.len() > spec_root_len(path),
    ensures
        spec_without_last(path).len() < path.len(),
        spec_without_last(path).len() >= spec_root_len(path),
        spec_without_last(path) == path.take(spec_without_last(path).len() as int),
        spec_root_len(spec_without_last(path)) == spec_root_len(path),
{
    let is_slash = |b: u8| (b == SLASH) == true;
    lemma_back_run_len_holds(path, is_slash);
    let n = back_run_len(path, is_slash);
    let start = path.len() - n;
    let shorter = spec_without_last(path);
    if spec_root_len(path) == 1 {
        if path[0] == SLASH {
            lemma_back_run_len_stops(path, is_slash, 0);
        } else {
            lemma_back_run_len_stops(path, is_slash, 1);
        }
        if shorter.len() >= 2 {
            assert(shorter[1] == path[1]);
        }
        assert(shorter[0] == path[0]);
    } else if shorter.len() >= 1 {
        assert(shorter[0] == path[0]);
        if shorter.len() >= 2 {
            assert(shorter[1] == path[1]);
        } else if start > 0 {
            assert(is_slash(path[start - 1]));
        }
    }
}

/// The directory that holds a path: the path without its last component.
/// The root and the empty path have none; the directory of a single
/// component is the root, the current directory, or the empty path, as the
/// path starts.
pub open spec fn spec_parent(path: Seq<u8>) -> Option<Seq<u8>> {
    let named = spec_trim_right(path);
    if named.len() > spec_root_len(named) {
        Some(spec_trim_right(spec_without_last(named)))
    } else if named == seq![DOT] {
        Some(Seq::empty())
    } else {
        None
    }
}

/// The last component of a path. The root, the current directory and the
/// empty path have none, nor has a path whose last component is `..`.
pub open spec fn spec_file_name(path: Seq<u8>) -> Option<Seq<u8>> {
    let named = spec_trim_right(path);
    if named.len() > spec_root_len(named) && spec_last(named) != seq![DOT, DOT] {
        Some(spec_last(named))
    } else {
        None
    }
}

/// Whether a path starts at the root.
pub fn is_absolute(path: &[u8]) -> (r: bool)
    ensures
        r == spec_is_absolute(path@),
{
    path.len() > 0 && path[0] == SLASH
}

/// Joins a path to a base.
pub fn join(base: &[u8], path: &[u8]) -> (r: Vec<u8>)
    ensures
        r@ == spec_join(base@, path@),
{
    let mut r: Vec<u8> = Vec::new();
    if is_absolute(path) {
        r.extend_from_slice(path);
        assert(r@ =~= path@);
    } else {
        r.extend_from_slice(base);
        if base.len() > 0 && base[base.len() - 1] != SLASH {
            r.push(SLASH);
        }
        r.extend_from_slice(path);
        assert(r@ =~= spec_join(base@, path@));
    }
    r
}

fn root_len(path: &[u8], end: usize) -> (r: usize)
    requires
        end <= path.len(),
    ensures
        r == spec_root_len(path@.take(end as int)),
        r <= end,
{
    if end >= 1 && (path[0] == SLASH || (path[0] == DOT && (end == 1 || path[1] == SLASH))) {
        1
    } else {
        0
    }
}

/// The end of `path[..end]` without its last component, and where that
/// component starts.
fn without_last(path: &[u8], end: usize) -> (r: (usize, usize))
    requires
        end <= path.len(),
        end > spec_root_len(path@.take(end as int)),
    ensures
        r.0 <= r.1 <= end,
        r.0 < end,
        path@.take(r.0 as int) == spec_without_last(path@.take(end as int)),
        path@.subrange(r.1 as int, end as int) == spec_last(path@.take(end as int)),
{
    let ghost whole = path@.take(end as int);
    let start = back_run_start(path, end, true);
    let before = root_len(path, end);
    proof {
        lemma_without_last(whole);
        assert(whole.skip(start as int) =~= path@.subrange(start as int, end as int));
    }
    if start > before {
        assert(whole.take(start - 1) =~= path@.take(start - 1));
        (start - 1, start)
    } else {
        assert(whole.take(start as int) =~= path@.take(start as int));
        (start, start)
    }
}

/// The end of `path[..end]` without the components at its end that count
/// as none.
fn trim_right(path: &[u8], end: usize) -> (r: usize)
    requires
        end <= path.len(),
    ensures
        r <= end,
        path@.take(r as int) == spec_trim_right(path@.take(end as int)),
{
    let mut at: usize = end;
    loop
        invariant
            at <= end <= path.len(),
            spec_trim_right(path@.take(at as int)) == spec_trim_right(path@.take(end as int)),
        ensures
            at <= end,
            path@.take(at as int) == spec_trim_right(path@.take(end as int)),
        decreases at,
    {
        if at <= root_len(path, at) {
            break ;
        }
        let (shorter, start) = without_last(path, at);
        let skipped = start == at || (at - start == 1 && path[start] == DOT);
        proof {
            let last = path@.subrange(start as int, at as int);
            if at - start == 1 && path[start as int] == DOT {
                assert(last =~= seq![DOT]);
            }
            if last == seq![DOT] {
                assert(last.len() == 1);
                assert(last[0] == DOT);
            }
        }
        if !skipped {
            break ;
        }
        at = shorter;
    }
    at
}

/// The directory that holds a path.
pub fn parent(path: &[u8]) -> (r: Option<Vec<u8>>)
    ensures
        match r {
            Some(dir) => spec_parent(path@) == Some(dir@),
            None => spec_parent(path@) is None,
        },
{
    assert(path@.take(path.len() as int) =~= path@);
    let named = trim_right(path, path.len());
    if named > root_len(path, named) {
        let (shorter, _) = without_last(path, named);
        let end = trim_right(path, shorter);
        Some(slice_to_vec(slice_subrange(path, 0, end)))
    } else if named == 1 && path[0] == DOT {
        assert(path@.take(1) =~= seq![DOT]);
        Some(Vec::new())
    } else {
        proof {
            let t = path@.take(named as int);
            if t == seq![DOT] {
                assert(t.len() == 1);
                assert(t[0] == DOT);
            }
        }
        None
    }
}

/// The last component of a path.
pub fn file_name(path: &[u8]) -> (r: Option<Vec<u8>>)
    ensures
        match r {
            Some(name) => spec_file_name(path@) == Some(name@),
            None => spec_file_name(path@) is None,
        },
{
    assert(path@.take(path.len() as int) =~= path@);
    let named = trim_right(path, path.len());
    if named <= root_len(path, named) {
        return None;
    }
    let (_, start) = without_last(path, named);
    let name = slice_to_vec(slice_subrange(path, start, named));
    if name.len() == 2 && name[0] == DOT && name[1] == DOT {
        assert(name@ =~= seq![DOT, DOT]);
        None
    } else {
        proof {
            if name@ == seq![DOT, DOT] {
                assert(name@.len() == 2);
                assert(name@[0] == DOT && name@[1] == DOT);
            }
        }
        Some(name)
    }
}

/// Trimming keeps what stands before the components of a path.
proof fn lemma_trim_right_keeps_root(path: Seq<u8>)
    ensures
        spec_trim_right(path).len() <= path.len(),
        spec_trim_right(path) == path.take(spec_trim_right(path).len() as int),
        spec_trim_right(path).len() >= spec_root_len(path),
    decreases path.len(),
{
    if path.len() > spec_root_len(path) && spec_is_skipped(spec_last(path)) {
        lemma_without_last(path);
        let shorter = spec_without_last(path);
        lemma_trim_right_keeps_root(shorter);
        assert(shorter.take(spec_trim_right(shorter).len() as int) =~= path.take(
            spec_trim_right(shorter).len() as int,
        ));
    } else {
        assert(path.take(path.len() as int) =~= path);
    }
}

/// The directory of an absolute path is absolute.
pub proof fn lemma_parent_absolute(path: Seq<u8>)
    requires
        spec_is_absolute(path),
        spec_parent(path) is Some,
    ensures
        spec_is_absolute(spec_parent(path)->Some_0),
{
    lemma_trim_right_keeps_root(path);
    let named = spec_trim_right(path);
    assert(named[0] == path[0]);
    lemma_without_last(named);
    let shorter = spec_without_last(named);
    assert(shorter[0] == named[0]);
    lemma_trim_right_keeps_root(shorter);
    assert(spec_trim_right(shorter)[0] == shorter[0]);
}

} // verus!
