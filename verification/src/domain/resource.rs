//! Resources: what can be added to a bundle as host paths.
//!
//! A host path is a resource; so are an optional resource and a list of
//! resources. Each host path goes into the bundle as a copy from the path,
//! under the projection of the path.

use crate::base::path::spec_is_absolute;
use crate::domain::bundle::{Bundle, BundleView};
use crate::domain::bundle_path::BundlePath;
use vstd::prelude::*;

verus! {

/// Anything that stands for host paths that can be added to a bundle.
pub trait Resource: Sized {
    /// The host paths that the resource stands for, in order.
    spec fn host_paths(&self) -> Seq<Seq<u8>>;

    /// Adds each host path to the bundle, as a copy under the projection of
    /// the path.
    fn bundle_to(self, bundle: &mut Bundle)
        requires
            all_absolute(self.host_paths()),
        ensures
            final(bundle)@ == old(bundle)@.add_paths(self.host_paths()),
    ;
}

/// Whether every path of a list is absolute.
pub open spec fn all_absolute(paths: Seq<Seq<u8>>) -> bool {
    forall|i: int| 0 <= i < paths.len() ==> spec_is_absolute(#[trigger] paths[i])
}

/// Adding one list of host paths after another adds the two lists joined.
pub proof fn lemma_add_paths_concat(bundle: BundleView, a: Seq<Seq<u8>>, b: Seq<Seq<u8>>)
    ensures
        bundle.add_paths(a + b) == bundle.add_paths(a).add_paths(b),
    decreases b.len(),
{
    if b.len() == 0 {
        assert(a + b =~= a);
    } else {
        lemma_add_paths_concat(bundle, a, b.drop_last());
        assert((a + b).drop_last() =~= a + b.drop_last());
        assert((a + b).last() == b.last());
    }
}

/// Adding a single host path is adding the list that holds it alone.
pub proof fn lemma_add_paths_single(bundle: BundleView, host: Seq<u8>)
    ensures
        bundle.add_paths(seq![host]) == bundle.add_path(host),
{
    assert(seq![host].drop_last() =~= Seq::<Seq<u8>>::empty());
    assert(bundle.add_paths(Seq::<Seq<u8>>::empty()) == bundle);
}

/// The host paths of a list of resources: those of each resource, in the
/// order of the list.
pub open spec fn spec_all_paths<R: Resource>(items: Seq<R>) -> Seq<Seq<u8>>
    decreases items.len(),
{
    if items.len() == 0 {
        Seq::empty()
    } else {
        spec_all_paths(items.drop_last()) + items.last().host_paths()
    }
}

impl<'a> Resource for &'a [u8] {
    open spec fn host_paths(&self) -> Seq<Seq<u8>> {
        seq![self@]
    }

    fn bundle_to(self, bundle: &mut Bundle) {
        proof {
            lemma_add_paths_single(bundle@, self@);
            assert(self.host_paths()[0] == self@);
        }
        bundle.add_file_from(BundlePath::projection(self), self);
    }
}

impl Resource for Vec<u8> {
    open spec fn host_paths(&self) -> Seq<Seq<u8>> {
        seq![self@]
    }

    fn bundle_to(self, bundle: &mut Bundle) {
        proof {
            lemma_add_paths_single(bundle@, self@);
            assert(self.host_paths()[0] == self@);
        }
        bundle.add_file_from(BundlePath::projection(self.as_slice()), self.as_slice());
    }
}

impl<'a> Resource for &'a Vec<u8> {
    open spec fn host_paths(&self) -> Seq<Seq<u8>> {
        seq![self@]
    }

    fn bundle_to(self, bundle: &mut Bundle) {
        proof {
            lemma_add_paths_single(bundle@, self@);
            assert(self.host_paths()[0] == self@);
        }
        let path: &[u8] = self.as_slice();
        assert(spec_is_absolute(path@)) by {
            assert(self.host_paths()[0] == path@);
        }
        bundle.add_file_from(BundlePath::projection(path), path);
    }
}

impl<R: Resource> Resource for Option<R> {
    open spec fn host_paths(&self) -> Seq<Seq<u8>> {
        match *self {
            Some(resource) => resource.host_paths(),
            None => Seq::empty(),
        }
    }

    fn bundle_to(self, bundle: &mut Bundle) {
        if let Some(resource) = self {
            proof {
                assert forall|i: int| 0 <= i < resource.host_paths().len() implies spec_is_absolute(
                    #[trigger] resource.host_paths()[i],
                ) by {
                    assert(resource.host_paths()[i] == self.host_paths()[i]);
                }
                assert(all_absolute(resource.host_paths()));
            }
            resource.bundle_to(bundle);
        }
    }
}

fn bundle_all<R: Resource>(items: Vec<R>, bundle: &mut Bundle)
    requires
        all_absolute(spec_all_paths(items@)),
    ensures
        final(bundle)@ == old(bundle)@.add_paths(spec_all_paths(items@)),
    decreases items@.len(),
{
    let mut items = items;
    let ghost all = items@;
    match items.pop() {
        None => {},
        Some(last) => {
            proof {
                assert(items@ =~= all.drop_last());
                let front = spec_all_paths(all.drop_last());
                let paths = spec_all_paths(all);
                assert forall|i: int| 0 <= i < front.len() implies spec_is_absolute(
                    #[trigger] front[i],
                ) by {
                    assert(front[i] == paths[i]);
                }
                assert forall|i: int| 0 <= i < last.host_paths().len() implies spec_is_absolute(
                    #[trigger] last.host_paths()[i],
                ) by {
                    assert(last.host_paths()[i] == paths[front.len() + i]);
                }
                lemma_add_paths_concat(bundle@, front, last.host_paths());
                assert(all_absolute(last.host_paths()));
            }
            bundle_all(items, bundle);
            last.bundle_to(bundle);
        },
    }
}

impl<R: Resource> Resource for Vec<R> {
    open spec fn host_paths(&self) -> Seq<Seq<u8>> {
        spec_all_paths(self@)
    }

    fn bundle_to(self, bundle: &mut Bundle) {
        bundle_all(self, bundle);
    }
}

} // verus!
