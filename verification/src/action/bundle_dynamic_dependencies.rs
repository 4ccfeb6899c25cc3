//! Adding the files that an executable opens when it runs to a bundle.

use crate::base::path::{is_absolute, spec_is_absolute};
use crate::base::trace::{dynamic_outcome, spec_dynamic_outcome, Exit};
use crate::base::{Error, ErrorView};
use crate::domain::bundle::{Bundle, BundleView};
use crate::domain::bundle_path::BundlePath;
use vstd::prelude::*;

verus! {

/// A path that the traced executable opened, and whether a file lies there.
#[derive(Debug, Clone, PartialEq, Eq)]
pub struct Opened {
    pub pathname: Vec<u8>,
    pub is_file: bool,
}

/// What an `Opened` holds.
pub struct OpenedView {
    pub pathname: Seq<u8>,
    pub is_file: bool,
}

impl View for Opened {
    type V = OpenedView;

    open spec fn view(&self) -> OpenedView {
        OpenedView { pathname: self.pathname@, is_file: self.is_file }
    }
}

/// What a list of opened paths holds.
pub open spec fn opened_views(opened: Seq<Opened>) -> Seq<OpenedView> {
    Seq::new(opened.len(), |i: int| opened[i]@)
}

/// The bundle after a path was opened: the path is added where a file lies
/// there and the path is absolute.
pub open spec fn spec_open(bundle: BundleView, opened: OpenedView) -> BundleView {
    if opened.is_file && spec_is_absolute(opened.pathname) {
        bundle.add_path(opened.pathname)
    } else {
        bundle
    }
}

/// The bundle after paths were opened, one after the other.
pub open spec fn spec_open_all(bundle: BundleView, opened: Seq<OpenedView>) -> BundleView
    decreases opened.len(),
{
    if opened.len() == 0 {
        bundle
    } else {
        spec_open(spec_open_all(bundle, opened.drop_last()), opened.last())
    }
}

/// Takes note of a path that the traced executable opened: the path is
/// added to the bundle where a file lies there. A path that is not absolute
/// is left out.
pub fn open_handler(bundle: &mut Bundle, pathname: &[u8], is_file: bool)
    ensures
        final(bundle)@ == spec_open(old(bundle)@, OpenedView { pathname: pathname@, is_file }),
{
    if is_file && is_absolute(pathname) {
        bundle.add_file_from(BundlePath::projection(pathname), pathname);
    }
}

/// Adds the files that the traced executable opened, in the order in which
/// it opened them, and says what the end of the executable comes to. The
/// files are added whatever that is.
pub fn bundle_dynamic_dependencies(bundle: &mut Bundle, opened: &[Opened], exit: Exit) -> (r: Result<
    (),
    Error,
>)
    ensures
        final(bundle)@ == spec_open_all(old(bundle)@, opened_views(opened@)),
        match r {
            Ok(_) => spec_dynamic_outcome(exit) is Ok,
            Err(e) => spec_dynamic_outcome(exit) == Err::<(), ErrorView>(e@),
        },
{
    let mut i: usize = 0;
    assert(opened_views(opened@).take(0) =~= Seq::<OpenedView>::empty());
    while i < opened.len()
        invariant
            i <= opened.len(),
            bundle@ == spec_open_all(old(bundle)@, opened_views(opened@).take(i as int)),
        decreases opened.len() - i,
    {
        proof {
            let all = opened_views(opened@);
            assert(all.take(i + 1).drop_last() =~= all.take(i as int));
            assert(all.take(i + 1).last() == opened@[i as int]@);
        }
        open_handler(bundle, opened[i].pathname.as_slice(), opened[i].is_file);
        i += 1;
    }
    assert(opened_views(opened@).take(i as int) =~= opened_views(opened@));
    dynamic_outcome(exit)
}

} // verus!
