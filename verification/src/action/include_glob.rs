//! Adding the files that a glob pattern matches to a bundle.

use crate::action::exclude_glob::{check_pattern, glob_refusal};
use crate::base::path::spec_is_absolute;
use crate::base::text::views;
use crate::base::{Error, ErrorView};
use crate::domain::bundle::Bundle;
use crate::domain::bundle_path::BundlePath;
use crate::domain::resource::all_absolute;
use vstd::prelude::*;

verus! {

/// What a file that is an ELF object depends on: its interpreter, where it
/// has one, and the libraries that the walk through its libraries found.
#[derive(Debug, Clone, PartialEq, Eq)]
pub struct Dependencies {
    pub interpreter: Option<Vec<u8>>,
    pub libraries: Vec<Vec<u8>>,
}

/// A file that the pattern matched, with what it depends on where it is an
/// ELF object.
#[derive(Debug, Clone, PartialEq, Eq)]
pub struct Included {
    pub path: Vec<u8>,
    pub object: Option<Dependencies>,
}

/// The host paths that come with a file that the pattern matched: what the
/// file depends on, and then the file itself.
pub open spec fn spec_included(included: Included) -> Seq<Seq<u8>> {
    spec_included_dependencies(included).push(included.path@)
}

/// The host paths that come with the files that the pattern matched, in
/// order.
pub open spec fn spec_included_all(entries: Seq<Included>) -> Seq<Seq<u8>>
    decreases entries.len(),
{
    if entries.len() == 0 {
        Seq::empty()
    } else {
        spec_included_all(entries.drop_last()) + spec_included(entries.last())
    }
}

/// What a file that the pattern matched depends on.
pub open spec fn spec_included_dependencies(included: Included) -> Seq<Seq<u8>> {
    match included.object {
        Some(object) => match object.interpreter {
            Some(interpreter) => seq![interpreter@] + views(object.libraries@),
            None => views(object.libraries@),
        },
        None => Seq::empty(),
    }
}

fn add_included(bundle: &mut Bundle, included: &Included)
    requires
        all_absolute(spec_included(*included)),
    ensures
        final(bundle)@ == old(bundle)@.add_paths(spec_included(*included)),
        final(bundle)@.wf(),
{
    let ghost paths = spec_included(*included);
    let ghost deps = spec_included_dependencies(*included);
    let ghost start = bundle@;
    proof {
        assert(paths == deps.push(included.path@));
        assert forall|i: int| 0 <= i < deps.len() implies spec_is_absolute(#[trigger] deps[i]) by {
            assert(paths[i] == deps[i]);
        }
        assert(paths[paths.len() - 1] == included.path@);
    }
    match &included.object {
        Some(object) => {
            let ghost libraries = views(object.libraries@);
            match &object.interpreter {
                Some(interpreter) => {
                    proof {
                        assert(deps[0] == interpreter@);
                        assert forall|i: int| 0 <= i < libraries.len() implies spec_is_absolute(
                            #[trigger] libraries[i],
                        ) by {
                            assert(deps[i + 1] == libraries[i]);
                        }
                        crate::domain::resource::lemma_add_paths_single(start, interpreter@);
                        crate::domain::resource::lemma_add_paths_concat(
                            start,
                            seq![interpreter@],
                            libraries,
                        );
                    }
                    bundle.add_file_from(
                        BundlePath::projection(interpreter.as_slice()),
                        interpreter.as_slice(),
                    );
                },
                None => {
                    proof {
                        assert forall|i: int| 0 <= i < libraries.len() implies spec_is_absolute(
                            #[trigger] libraries[i],
                        ) by {
                            assert(deps[i] == libraries[i]);
                        }
                    }
                },
            }
            bundle.add_all(object.libraries.as_slice());
        },
        None => {
            assert(start.add_paths(Seq::<Seq<u8>>::empty()) == start);
        },
    }
    proof {
        assert(bundle@ == start.add_paths(deps));
        assert(paths.drop_last() =~= deps);
        assert(paths.last() == included.path@);
    }
    bundle.add_file_from(BundlePath::projection(included.path.as_slice()), included.path.as_slice());
}

fn include_glob_impl(bundle: &mut Bundle, pattern: &str, entries: &[Included]) -> (r: Result<
    (),
    Error,
>)
    requires
        all_absolute(spec_included_all(entries@)),
    ensures
        match glob_refusal(pattern@) {
            None => r is Ok && final(bundle)@ == old(bundle)@.add_paths(
                spec_included_all(entries@),
            ),
            Some(reason) => r is Err && r->Err_0@ == ErrorView::InvalidGlobPattern(reason)
                && final(bundle)@ == old(bundle)@,
        },
{
    if let Some(reason) = check_pattern(pattern) {
        return Err(Error::InvalidGlobPattern(reason));
    }
    let mut i: usize = 0;
    assert(entries@.take(0) =~= Seq::<Included>::empty());
    while i < entries.len()
        invariant
            i <= entries.len(),
            all_absolute(spec_included_all(entries@)),
            bundle@ == old(bundle)@.add_paths(spec_included_all(entries@.take(i as int))),
        decreases entries.len() - i,
    {
        proof {
            assert(entries@.take(i + 1).drop_last() =~= entries@.take(i as int));
            assert(entries@.take(i + 1).last() == entries@[i as int]);
            lemma_included_prefix(entries@, i + 1);
            let front = spec_included_all(entries@.take(i as int));
            let here = spec_included(entries@[i as int]);
            let all = spec_included_all(entries@);
            let upto = spec_included_all(entries@.take(i + 1));
            assert(upto == front + here);
            assert(upto == all.take(upto.len() as int));
            assert forall|k: int| 0 <= k < here.len() implies spec_is_absolute(
                #[trigger] here[k],
            ) by {
                assert(upto[front.len() + k] == here[k]);
                assert(all[front.len() + k] == upto[front.len() + k]);
            }
            crate::domain::resource::lemma_add_paths_concat(old(bundle)@, front, here);
        }
        add_included(bundle, &entries[i]);
        i += 1;
    }
    assert(entries@.take(i as int) =~= entries@);
    Ok(())
}

/// The paths of the first files are the first of the paths of all files.
proof fn lemma_included_prefix(entries: Seq<Included>, n: int)
    requires
        0 <= n <= entries.len(),
    ensures
        spec_included_all(entries.take(n)).len() <= spec_included_all(entries).len(),
        spec_included_all(entries.take(n)) == spec_included_all(entries).take(
            spec_included_all(entries.take(n)).len() as int,
        ),
    decreases entries.len() - n,
{
    if n == entries.len() {
        assert(entries.take(n) =~= entries);
        assert(spec_included_all(entries).take(spec_included_all(entries).len() as int)
            =~= spec_included_all(entries));
    } else {
        lemma_included_prefix(entries, n + 1);
        assert(entries.take(n + 1).drop_last() =~= entries.take(n));
        let more = spec_included_all(entries.take(n + 1));
        let less = spec_included_all(entries.take(n));
        assert(less =~= more.take(less.len() as int));
        assert(more.take(less.len() as int) =~= spec_included_all(entries).take(
            less.len() as int,
        ));
    }
}

/// Adds the files that a glob pattern matched, each with what it depends on
/// where it is an ELF object: first the interpreter, then the libraries,
/// then the file. A text that is no pattern is refused, and the bundle stays
/// as it is.
pub fn include_glob(bundle: &mut Bundle, pattern: &str, entries: &[Included]) -> (r: Result<
    (),
    Error,
>)
    requires
        all_absolute(spec_included_all(entries@)),
    ensures
        match glob_refusal(pattern@) {
            None => r is Ok && final(bundle)@ == old(bundle)@.add_paths(
                spec_included_all(entries@),
            ),
            Some(reason) => r is Err && r->Err_0@ == ErrorView::InvalidGlobPattern(reason)
                && final(bundle)@ == old(bundle)@,
        },
{
    include_glob_impl(bundle, pattern, entries)
}

/// Adds the files that a glob pattern matched, each with what it depends on
/// as the walk with a helper for each library found it.
pub fn include_glob_noload(bundle: &mut Bundle, pattern: &str, entries: &[Included]) -> (r: Result<
    (),
    Error,
>)
    requires
        all_absolute(spec_included_all(entries@)),
    ensures
        match glob_refusal(pattern@) {
            None => r is Ok && final(bundle)@ == old(bundle)@.add_paths(
                spec_included_all(entries@),
            ),
            Some(reason) => r is Err && r->Err_0@ == ErrorView::InvalidGlobPattern(reason)
                && final(bundle)@ == old(bundle)@,
        },
{
    include_glob_impl(bundle, pattern, entries)
}

} // verus!
