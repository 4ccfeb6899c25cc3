//! Paths inside a bundle: the keys under which a bundle holds its entries.
//!
//! A bundle path is relative to the root of the bundle, whatever directory
//! that root is later given. It is made from an absolute host path by taking
//! off the leading separator, and it is turned into a host path again by
//! joining it to a destination.

use crate::base::path::spec_is_absolute;
use crate::base::text::{to_text_lossy, utf8_lossy, SLASH};
use vstd::prelude::*;
use vstd::slice::*;

verus! {

/// A borrowed bundle path.
#[derive(Clone, Copy, Debug)]
pub struct BundlePath<'a> {
    inner: &'a [u8],
}

/// An owned bundle path. Two are equal when their bytes are.
#[derive(Clone, Debug, PartialEq, Eq, Hash)]
pub struct BundlePathBuf {
    inner: Vec<u8>,
}

/// A host path without one leading separator. Separators behind the first
/// stay as they are; a path that starts with none is taken as it is.
pub open spec fn spec_projection(path: Seq<u8>) -> Seq<u8> {
    if spec_is_absolute(path) {
        path.skip(1)
    } else {
        path
    }
}

/// The host path of a bundle path under a destination: the destination, a
/// separator, and the bundle path. It lies under the destination whatever
/// the bundle path holds.
pub open spec fn spec_reify(dest: Seq<u8>, path: Seq<u8>) -> Seq<u8> {
    dest + seq![SLASH] + path
}

fn reify(dest: &[u8], path: &[u8]) -> (r: Vec<u8>)
    ensures
        r@ == spec_reify(dest@, path@),
{
    let mut r = slice_to_vec(dest);
    r.push(SLASH);
    r.extend_from_slice(path);
    r
}

impl<'a> View for BundlePath<'a> {
    type V = Seq<u8>;

    closed spec fn view(&self) -> Seq<u8> {
        self.inner@
    }
}

impl View for BundlePathBuf {
    type V = Seq<u8>;

    closed spec fn view(&self) -> Seq<u8> {
        self.inner@
    }
}

impl<'a> BundlePath<'a> {
    /// A bundle path from bytes that do not start with a separator.
    pub fn new(s: &'a [u8]) -> (r: BundlePath<'a>)
        requires
            !spec_is_absolute(s@),
        ensures
            r@ == s@,
    {
        BundlePath { inner: s }
    }

    /// The bundle path under which a host path is kept.
    pub fn projection(path: &'a [u8]) -> (r: BundlePath<'a>)
        ensures
            r@ == spec_projection(path@),
    {
        if path.len() > 0 && path[0] == SLASH {
            let rest = slice_subrange(path, 1, path.len());
            assert(rest@ =~= path@.skip(1));
            BundlePath { inner: rest }
        } else {
            BundlePath { inner: path }
        }
    }

    /// The bytes of the path.
    pub fn as_bytes(&self) -> (r: &'a [u8])
        ensures
            r@ == self@,
    {
        self.inner
    }

    /// An owned copy of the path.
    pub fn to_path_buf(&self) -> (r: BundlePathBuf)
        ensures
            r@ == self@,
    {
        BundlePathBuf { inner: slice_to_vec(self.inner) }
    }

    /// The path as text, with the replacement character in place of what is
    /// not UTF-8 in it.
    pub fn to_str_lossy(&self) -> (r: String)
        ensures
            r@ == utf8_lossy(self@),
            vstd::utf8::valid_utf8(self@) ==> r@ == vstd::utf8::decode_utf8(self@),
    {
        to_text_lossy(self.inner)
    }

    /// The path in square brackets, as text.
    pub fn display(&self) -> (r: String)
        ensures
            r@ == utf8_lossy(seq![91u8] + self@ + seq![93u8]),
    {
        let mut bytes: Vec<u8> = Vec::new();
        bytes.push(91);
        bytes.extend_from_slice(self.inner);
        bytes.push(93);
        assert(bytes@ =~= seq![91u8] + self@ + seq![93u8]);
        to_text_lossy(bytes.as_slice())
    }

    /// The host path of the bundle path under a destination.
    pub fn reify(&self, dest: &[u8]) -> (r: Vec<u8>)
        requires
            spec_is_absolute(dest@),
        ensures
            r@ == spec_reify(dest@, self@),
    {
        reify(dest, self.inner)
    }
}

impl BundlePathBuf {
    /// The bundle path with the given bytes.
    pub(crate) fn from_vec(inner: Vec<u8>) -> (r: BundlePathBuf)
        ensures
            r@ == inner@,
    {
        BundlePathBuf { inner }
    }

    /// The path, borrowed.
    pub fn as_path(&self) -> (r: BundlePath<'_>)
        ensures
            r@ == self@,
    {
        BundlePath { inner: self.inner.as_slice() }
    }

    /// The bytes of the path.
    pub fn as_bytes(&self) -> (r: &[u8])
        ensures
            r@ == self@,
    {
        self.inner.as_slice()
    }

    /// The path as text, with the replacement character in place of what is
    /// not UTF-8 in it.
    pub fn to_str_lossy(&self) -> (r: String)
        ensures
            r@ == utf8_lossy(self@),
            vstd::utf8::valid_utf8(self@) ==> r@ == vstd::utf8::decode_utf8(self@),
    {
        to_text_lossy(self.inner.as_slice())
    }

    /// The host path of the bundle path under a destination.
    pub fn reify(&self, dest: &[u8]) -> (r: Vec<u8>)
        requires
            spec_is_absolute(dest@),
        ensures
            r@ == spec_reify(dest@, self@),
    {
        reify(dest, self.inner.as_slice())
    }
}

/// Projection takes off what reification puts in: an absolute host path is
/// found under a destination at the destination followed by the path.
pub proof fn lemma_reify_projection(dest: Seq<u8>, path: Seq<u8>)
    requires
        spec_is_absolute(path),
    ensures
        spec_reify(dest, spec_projection(path)) == dest + path,
{
    assert(seq![SLASH] + path.skip(1) =~= path);
    assert(dest + seq![SLASH] + path.skip(1) =~= dest + path);
}

/// A projection starts with a separator only where the host path starts
/// with two.
pub proof fn lemma_projection_is_relative(path: Seq<u8>)
    ensures
        spec_is_absolute(spec_projection(path)) <==> path.len() >= 2 && path[0] == SLASH
            && path[1] == SLASH,
{
}

} // verus!
