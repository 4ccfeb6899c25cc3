//! Trying a bundle out.

use crate::base::text::{spec_trim, text, to_text_lossy, trim, utf8_lossy, views, bytes_equal};
use crate::base::{Error, ErrorView};
use crate::domain::bundle::{Bundle, BundleView, SourceView};
use crate::domain::executable::{Executable, ExecutableView};
use vstd::prelude::*;
use vstd::slice::*;
use vstd::string::*;

verus! {

/// What is run to try a bundle out.
pub struct TestRun {
    /// The bundle that is emitted into the jail.
    pub bundle: Bundle,
    /// The command that is tried.
    pub command: Vec<u8>,
    /// The program that is run in the jail.
    pub shell: Vec<u8>,
    /// The arguments with which it is run.
    pub args: Vec<Vec<u8>>,
}

/// The command that is tried: the one that was asked for, or else the name
/// of the executable.
pub open spec fn spec_test_command(exe: ExecutableView, command: Option<Seq<u8>>) -> Seq<u8> {
    match command {
        Some(command) => command,
        None => exe.name,
    }
}

/// The bundle that is tried out: the bundle, with the executable under
/// `proc/self/exe`.
pub open spec fn spec_test_bundle(bundle: BundleView, exe: ExecutableView) -> BundleView {
    bundle.insert("proc/self/exe".spec_bytes(), SourceView::CopyFrom(exe.path))
}

/// What is run to try a bundle out: a copy of the bundle, with the
/// executable under `proc/self/exe`, is emitted into the jail, and there
/// the shell runs the command.
pub fn test(bundle: &Bundle, exe: &Executable, command: Option<&[u8]>) -> (r: TestRun)
    ensures
        r.bundle@ == spec_test_bundle(bundle@, exe@),
        r.command@ == spec_test_command(exe@, match command {
            Some(command) => Some(command@),
            None => None,
        }),
        r.shell@ == "/bin/sh".spec_bytes(),
        views(r.args@) == seq!["-c".spec_bytes(), r.command@],
{
    let command = match command {
        Some(command) => slice_to_vec(command),
        None => slice_to_vec(exe.name().as_slice()),
    };
    let mut test_bundle = bundle.clone();
    test_bundle.add_pseudo_proc(exe);
    let mut args: Vec<Vec<u8>> = Vec::new();
    args.push(text("-c"));
    args.push(slice_to_vec(command.as_slice()));
    assert(views(args@) =~= seq!["-c".spec_bytes(), command@]);
    TestRun { bundle: test_bundle, command, shell: text("/bin/sh"), args }
}

/// What a command printed, as it is compared: as text, with the replacement
/// character in place of what is not UTF-8, and without the blanks around
/// it.
pub open spec fn spec_printed(stdout: Seq<u8>) -> Seq<u8> {
    spec_trim(vstd::utf8::encode_utf8(utf8_lossy(stdout)))
}

/// What the run of the test command comes to. A command that did not
/// succeed has failed. Where an output was expected, what the command
/// printed has to be that output.
pub open spec fn spec_test_outcome(
    command: Seq<u8>,
    success: bool,
    stdout: Seq<u8>,
    expected: Option<Seq<u8>>,
) -> Result<(), ErrorView> {
    if !success {
        Err(ErrorView::TestFailed(command))
    } else {
        match expected {
            Some(expected) => if spec_printed(stdout) == expected {
                Ok(())
            } else {
                Err(ErrorView::TestStdoutMismatch { expected, got: spec_printed(stdout) })
            },
            None => Ok(()),
        }
    }
}

/// What the run of the test command comes to.
pub fn test_outcome(command: &[u8], success: bool, stdout: &[u8], expected: Option<&[u8]>) -> (r:
    Result<(), Error>)
    ensures
        match r {
            Ok(_) => spec_test_outcome(command@, success, stdout@, match expected {
                Some(expected) => Some(expected@),
                None => None,
            }) is Ok,
            Err(e) => spec_test_outcome(command@, success, stdout@, match expected {
                Some(expected) => Some(expected@),
                None => None,
            }) == Err::<(), ErrorView>(e@),
        },
        vstd::utf8::valid_utf8(stdout@) ==> spec_printed(stdout@) == spec_trim(stdout@),
{
    let printed = to_text_lossy(stdout);
    proof {
        if vstd::utf8::valid_utf8(stdout@) {
            lemma_printed_text(stdout@);
        }
    }
    if !success {
        return Err(Error::TestFailed(slice_to_vec(command)));
    }
    if let Some(expected) = expected {
        let got = trim(printed.as_str().as_bytes());
        if !bytes_equal(got, expected) {
            return Err(
                Error::TestStdoutMismatch {
                    expected: slice_to_vec(expected),
                    got: slice_to_vec(got),
                },
            );
        }
    }
    Ok(())
}

/// Of output that is UTF-8, what is compared is the output without the
/// blanks around it.
pub proof fn lemma_printed_text(stdout: Seq<u8>)
    requires
        vstd::utf8::valid_utf8(stdout),
        utf8_lossy(stdout) == vstd::utf8::decode_utf8(stdout),
    ensures
        spec_printed(stdout) == spec_trim(stdout),
{
    vstd::utf8::decode_utf8_encode_utf8(stdout);
}

} // verus!
