//! Adding what an executable is linked against to a bundle.

use crate::base::path::spec_is_absolute;
use crate::base::text::views;
use crate::base::Error;
use crate::domain::bundle::Bundle;
use crate::domain::bundle_path::BundlePath;
use crate::domain::executable::{Executable, ExecutableView};
use crate::domain::resource::all_absolute;
use vstd::prelude::*;

verus! {

/// The host paths that an executable depends on: its interpreter, where it
/// has one, and behind it the libraries that the walk found.
pub open spec fn spec_dependencies(exe: ExecutableView, libraries: Seq<Seq<u8>>) -> Seq<Seq<u8>> {
    match exe.interpreter {
        Some(interpreter) => seq![interpreter] + libraries,
        None => libraries,
    }
}

fn bundle_shared_object_dependencies_impl(
    bundle: &mut Bundle,
    exe: &Executable,
    libraries: &[Vec<u8>],
) -> (r: Result<(), Error>)
    requires
        all_absolute(spec_dependencies(exe@, views(libraries@))),
    ensures
        r is Ok,
        final(bundle)@ == old(bundle)@.add_paths(spec_dependencies(exe@, views(libraries@))),
        final(bundle)@.wf(),
{
    let ghost deps = spec_dependencies(exe@, views(libraries@));
    match exe.interpreter() {
        Some(interpreter) => {
            proof {
                assert(deps[0] == interpreter@);
                assert forall|i: int| 0 <= i < libraries@.len() implies spec_is_absolute(
                    #[trigger] views(libraries@)[i],
                ) by {
                    assert(deps[i + 1] == views(libraries@)[i]);
                }
                crate::domain::resource::lemma_add_paths_single(bundle@, interpreter@);
                crate::domain::resource::lemma_add_paths_concat(
                    bundle@,
                    seq![interpreter@],
                    views(libraries@),
                );
            }
            bundle.add_file_from(
                BundlePath::projection(interpreter.as_slice()),
                interpreter.as_slice(),
            );
        },
        None => {},
    }
    bundle.add_all(libraries);
    Ok(())
}

/// Adds the interpreter of an executable and the libraries that the walk
/// through its libraries found, each as a copy under the projection of its
/// path.
pub fn bundle_shared_object_dependencies(
    bundle: &mut Bundle,
    exe: &Executable,
    libraries: &[Vec<u8>],
) -> (r: Result<(), Error>)
    requires
        all_absolute(spec_dependencies(exe@, views(libraries@))),
    ensures
        r is Ok,
        final(bundle)@ == old(bundle)@.add_paths(spec_dependencies(exe@, views(libraries@))),
        final(bundle)@.wf(),
{
    bundle_shared_object_dependencies_impl(bundle, exe, libraries)
}

/// Adds the interpreter of an executable and the libraries that the walk
/// with a helper for each library found.
pub fn bundle_shared_object_dependencies_noload(
    bundle: &mut Bundle,
    exe: &Executable,
    libraries: &[Vec<u8>],
) -> (r: Result<(), Error>)
    requires
        all_absolute(spec_dependencies(exe@, views(libraries@))),
    ensures
        r is Ok,
        final(bundle)@ == old(bundle)@.add_paths(spec_dependencies(exe@, views(libraries@))),
        final(bundle)@.wf(),
{
    bundle_shared_object_dependencies_impl(bundle, exe, libraries)
}

} // verus!
