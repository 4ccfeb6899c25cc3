//! Adding a directory to a bundle.

use crate::domain::bundle::{Bundle, SourceView};
use crate::domain::bundle_path::{spec_projection, BundlePath};
use vstd::prelude::*;

verus! {

/// Adds the directory at a path to the bundle: on emit the directory is
/// made, under the projection of the path.
pub fn make_directory(bundle: &mut Bundle, path: &[u8])
    ensures
        final(bundle)@ == old(bundle)@.insert(spec_projection(path@), SourceView::NewDirectory),
        final(bundle)@.wf(),
{
    bundle.mkdir(BundlePath::projection(path));
}

} // verus!
