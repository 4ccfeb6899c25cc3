//! Dropping the entries of a bundle that a glob pattern matches.

use crate::base::text::utf8_lossy;
use crate::base::{Error, ErrorView};
use crate::domain::bundle::Bundle;
use crate::domain::bundle_path::BundlePathBuf;
use vstd::prelude::*;
use vstd::string::*;

verus! {

/// A compiled pattern of `glob`. Nothing is known of what is inside one but
/// the text that it was made of.
#[verifier::external_type_specification]
#[verifier::external_body]
pub struct ExPattern(glob::Pattern);

/// The text that a compiled pattern was made of, which it holds.
pub uninterp spec fn pattern_text(pattern: glob::Pattern) -> Seq<char>;

/// The reason for which `glob` refuses a text as a pattern; nothing for a
/// text that is one.
pub uninterp spec fn glob_refusal(pattern: Seq<char>) -> Option<Seq<u8>>;

/// Whether a pattern of `glob` matches a text.
pub uninterp spec fn glob_matches(pattern: Seq<char>, text: Seq<char>) -> bool;

/// Compiles a pattern with `glob::Pattern::new`. A text that is refused
/// comes back as the message of the error. Whether a text is a pattern, and
/// if not why, depends on the text alone, and is named; the compiled pattern
/// holds the text.
#[verifier::external_body]
fn compile(pattern: &str) -> (r: Result<glob::Pattern, Vec<u8>>)
    ensures
        match r {
            Ok(compiled) => glob_refusal(pattern@) is None && pattern_text(compiled) == pattern@,
            Err(reason) => glob_refusal(pattern@) == Some(reason@),
        },
{
    glob::Pattern::new(pattern).map_err(|e| e.msg.as_bytes().to_vec())
}

/// Asks `glob::Pattern::matches` whether a pattern matches a text. The
/// answer depends on the text of the pattern and on the text alone, and is
/// named.
#[verifier::external_body]
fn matches(pattern: &glob::Pattern, text: &str) -> (r: bool)
    ensures
        r == glob_matches(pattern_text(*pattern), text@),
{
    pattern.matches(text)
}

/// The reason for which a text is no pattern; nothing for a text that is
/// one.
pub fn check_pattern(pattern: &str) -> (r: Option<Vec<u8>>)
    ensures
        match r {
            Some(reason) => glob_refusal(pattern@) == Some(reason@),
            None => glob_refusal(pattern@) is None,
        },
{
    match compile(pattern) {
        Ok(_) => None,
        Err(reason) => Some(reason),
    }
}

/// The text that a bundle path is matched as: the path as text, behind a
/// separator, as if the bundle lay at the root.
pub open spec fn spec_pseudo_path(path: Seq<u8>) -> Seq<char> {
    seq!['/'] + utf8_lossy(path)
}

/// Whether a pattern leaves the entry under a bundle path in a bundle: it
/// does where it does not match the path.
pub open spec fn spec_survives(pattern: Seq<char>, path: Seq<u8>) -> bool {
    !glob_matches(pattern, spec_pseudo_path(path))
}

/// Drops the entries whose paths the pattern matches. A text that is no
/// pattern is refused, and the bundle stays as it is.
pub fn exclude_glob(bundle: &mut Bundle, pattern: &str) -> (r: Result<(), Error>)
    ensures
        match r {
            Ok(_) => glob_refusal(pattern@) is None && final(bundle)@ == old(bundle)@.retain(
                |path: Seq<u8>| spec_survives(pattern@, path),
            ),
            Err(e) => glob_refusal(pattern@) is Some && e@ == ErrorView::InvalidGlobPattern(
                glob_refusal(pattern@)->Some_0,
            ) && final(bundle)@ == old(bundle)@,
        },
{
    let compiled = match compile(pattern) {
        Ok(compiled) => compiled,
        Err(reason) => {
            return Err(Error::InvalidGlobPattern(reason));
        },
    };
    let survives = |path: &BundlePathBuf| -> (keep: bool)
        ensures
            keep == spec_survives(pattern@, path@),
        {
            let mut pseudo_path = String::from_str("/");
            let lossy = path.to_str_lossy();
            pseudo_path.append(lossy.as_str());
            proof {
                reveal_strlit("/");
                assert("/"@ =~= seq!['/']);
            }
            !matches(&compiled, pseudo_path.as_str())
        };
    bundle.filter(survives);
    proof {
        let kept = |k: Seq<u8>| bundle@.contains(k);
        let wanted = |k: Seq<u8>| spec_survives(pattern@, k);
        assert forall|k: Seq<u8>| #[trigger] old(bundle)@.entries.dom().contains(k) implies kept(k)
            == wanted(k) by {
            assert(old(bundle)@.contains(k));
            let path = choose|path: BundlePathBuf|
                path@ == k && survives.ensures((&path,), bundle@.contains(k));
            assert(survives.ensures((&path,), bundle@.contains(k)));
        }
        crate::domain::bundle::lemma_retain_agree(old(bundle)@, kept, wanted);
    }
    Ok(())
}

} // verus!
