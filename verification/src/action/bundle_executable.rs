//! Adding the executable itself to a bundle.

use crate::base::text::SLASH;
use crate::base::Error;
use crate::domain::bundle::{Bundle, SourceView};
use crate::domain::bundle_path::{spec_projection, BundlePath};
use crate::domain::executable::Executable;
use vstd::prelude::*;
use vstd::slice::*;

verus! {

/// The path under which an executable is installed: the path that was asked
/// for, with the name of the executable behind it where it ends in a
/// separator; or else the path at which the executable was given.
pub open spec fn spec_install_path(
    name: Seq<u8>,
    input_path: Seq<u8>,
    install_path: Option<Seq<u8>>,
) -> Seq<u8> {
    match install_path {
        Some(path) => if path.len() > 0 && path.last() == SLASH {
            path + name
        } else {
            path
        },
        None => input_path,
    }
}

/// Adds the executable to the bundle, as a copy from where it lies, under
/// the projection of the path under which it is installed.
pub fn bundle_executable(
    bundle: &mut Bundle,
    exe: &Executable,
    input_path: &[u8],
    install_path: Option<&[u8]>,
) -> (r: Result<(), Error>)
    ensures
        r is Ok,
        final(bundle)@ == old(bundle)@.insert(
            spec_projection(
                spec_install_path(exe@.name, input_path@, match install_path {
                    Some(path) => Some(path@),
                    None => None,
                }),
            ),
            SourceView::CopyFrom(exe@.path),
        ),
        final(bundle)@.wf(),
{
    match install_path {
        Some(asked) => {
            let mut path = slice_to_vec(asked);
            if asked.len() > 0 && asked[asked.len() - 1] == SLASH {
                path.extend_from_slice(exe.name().as_slice());
            }
            assert(path@ =~= spec_install_path(exe@.name, input_path@, Some(asked@)));
            bundle.add_file_from(BundlePath::projection(path.as_slice()), exe.path());
        },
        None => bundle.add_file_from(BundlePath::projection(input_path), exe.path()),
    }
    Ok(())
}

} // verus!
