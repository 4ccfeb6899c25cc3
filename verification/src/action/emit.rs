//! Emitting a bundle to its destination.

use crate::base::path::{is_absolute, spec_is_absolute};
use crate::base::{Error, ErrorView};
use crate::domain::bundle::{Bundle, EmitAction};
use vstd::prelude::*;
use vstd::slice::*;

verus! {

/// What lies at the destination before a bundle is emitted.
#[derive(Debug, Clone, Copy, PartialEq, Eq)]
pub enum Destination {
    /// Nothing.
    Missing,
    /// Something that is no directory.
    NotDirectory,
    /// A directory, which holds nothing or something.
    Directory { empty: bool },
}

/// Whether a bundle can be emitted to a destination, and if so, whether the
/// destination has to be made first. A destination that exists has to be a
/// directory, and it has to be empty.
pub open spec fn spec_preflight(dest: Seq<u8>, state: Destination) -> Result<bool, ErrorView> {
    match state {
        Destination::Missing => Ok(true),
        Destination::NotDirectory => Err(ErrorView::InvalidDestination(dest)),
        Destination::Directory { empty } => if empty {
            Ok(false)
        } else {
            Err(ErrorView::NonEmptyDestionation(dest))
        },
    }
}

/// Looks at the destination before a bundle is emitted: whether it has to
/// be made, or why nothing can be emitted to it.
pub fn preflight(dest: &[u8], state: Destination) -> (r: Result<bool, Error>)
    ensures
        match r {
            Ok(create) => spec_preflight(dest@, state) == Ok::<bool, ErrorView>(create),
            Err(e) => spec_preflight(dest@, state) == Err::<bool, ErrorView>(e@),
        },
{
    match state {
        Destination::Missing => Ok(true),
        Destination::NotDirectory => Err(Error::InvalidDestination(slice_to_vec(dest))),
        Destination::Directory { empty } => if empty {
            Ok(false)
        } else {
            Err(Error::NonEmptyDestionation(slice_to_vec(dest)))
        },
    }
}

/// The actions that put the bundle under the destination `dest`, which is
/// there and is given by its canonical path. A path that is not absolute is
/// no destination.
pub fn emit(bundle: &Bundle, dest: &[u8]) -> (r: Result<Vec<EmitAction>, Error>)
    ensures
        match r {
            Ok(actions) => spec_is_absolute(dest@) && actions@.len() == bundle@.order.len()
                && forall|i: int|
                0 <= i < actions@.len() ==> #[trigger] actions@[i]@ == bundle@.emit(dest@)[i],
            Err(e) => !spec_is_absolute(dest@) && e@ == ErrorView::InvalidDestination(dest@),
        },
{
    if !is_absolute(dest) {
        return Err(Error::InvalidDestination(slice_to_vec(dest)));
    }
    Ok(bundle.emit(dest))
}

} // verus!
