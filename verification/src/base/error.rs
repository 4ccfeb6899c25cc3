//! The ways in which bundling fails.

use crate::base::text::{
    decimal, push_text, signed_decimal, spec_decimal, spec_signed_decimal, to_text_lossy,
    utf8_lossy,
};
use vstd::prelude::*;
use vstd::string::*;

verus! {

/// A failure of the bundler. Paths and the output of other programs are kept
/// as the bytes they came in.
#[derive(Debug, Clone, PartialEq, Eq)]
pub enum Error {
    /// The destination exists and is no directory.
    InvalidDestination(Vec<u8>),
    /// The destination is a directory that holds something.
    NonEmptyDestionation(Vec<u8>),
    /// An include or exclude pattern is no glob pattern; the reason.
    InvalidGlobPattern(Vec<u8>),
    /// The loader did not find a shared library; what the helper said.
    SharedLibraryLookup(Vec<u8>),
    /// The compiler did not build the helper; what it said.
    ResolverCompilation(Vec<u8>),
    /// The file is no well-formed ELF object; the reason.
    MalformedExecutable(Vec<u8>),
    /// A dynamic entry points outside the dynamic string table.
    ValueNotFoundInStrtab { tag: u64, val: u64 },
    /// No interpreter could be found for the executable.
    InterpretorNotFound,
    /// BusyBox could not be installed in the jail; what it said.
    BusyBoxInstall(Vec<u8>),
    /// The test command did not succeed; the command.
    TestFailed(Vec<u8>),
    /// The test command printed something other than what was expected.
    TestStdoutMismatch { expected: Vec<u8>, got: Vec<u8> },
    /// A program was not found on the search path; its name and the cause.
    ExecutableLocateFailed(Vec<u8>, Vec<u8>),
    /// The compressor did not succeed; what it said.
    Upx(Vec<u8>),
    /// The traced executable ended with an exit status other than zero.
    DynamicFailed(i32),
    /// The traced executable was ended by a signal.
    DynamicSignaled(i32),
    /// Bytes that had to be UTF-8 are not.
    Encoding(Vec<u8>),
    /// A path that had to be UTF-8 is not.
    PathEncoding(Vec<u8>),
    /// A path that cannot name an ELF object.
    InvalidObjectPath(Vec<u8>),
    /// The platform of the process is not in its auxiliary vector.
    MissingAuxv,
    /// An operation on a file or a process failed; what the system said.
    IO(Vec<u8>),
}

/// What an `Error` holds.
pub enum ErrorView {
    InvalidDestination(Seq<u8>),
    NonEmptyDestionation(Seq<u8>),
    InvalidGlobPattern(Seq<u8>),
    SharedLibraryLookup(Seq<u8>),
    ResolverCompilation(Seq<u8>),
    MalformedExecutable(Seq<u8>),
    ValueNotFoundInStrtab { tag: u64, val: u64 },
    InterpretorNotFound,
    BusyBoxInstall(Seq<u8>),
    TestFailed(Seq<u8>),
    TestStdoutMismatch { expected: Seq<u8>, got: Seq<u8> },
    ExecutableLocateFailed(Seq<u8>, Seq<u8>),
    Upx(Seq<u8>),
    DynamicFailed(i32),
    DynamicSignaled(i32),
    Encoding(Seq<u8>),
    PathEncoding(Seq<u8>),
    InvalidObjectPath(Seq<u8>),
    MissingAuxv,
    IO(Seq<u8>),
}

impl View for Error {
    type V = ErrorView;

    open spec fn view(&self) -> ErrorView {
        match *self {
            Error::InvalidDestination(path) => ErrorView::InvalidDestination(path@),
            Error::NonEmptyDestionation(path) => ErrorView::NonEmptyDestionation(path@),
            Error::InvalidGlobPattern(e) => ErrorView::InvalidGlobPattern(e@),
            Error::SharedLibraryLookup(e) => ErrorView::SharedLibraryLookup(e@),
            Error::ResolverCompilation(e) => ErrorView::ResolverCompilation(e@),
            Error::MalformedExecutable(e) => ErrorView::MalformedExecutable(e@),
            Error::ValueNotFoundInStrtab { tag, val } => ErrorView::ValueNotFoundInStrtab {
                tag,
                val,
            },
            Error::InterpretorNotFound => ErrorView::InterpretorNotFound,
            Error::BusyBoxInstall(e) => ErrorView::BusyBoxInstall(e@),
            Error::TestFailed(command) => ErrorView::TestFailed(command@),
            Error::TestStdoutMismatch { expected, got } => ErrorView::TestStdoutMismatch {
                expected: expected@,
                got: got@,
            },
            Error::ExecutableLocateFailed(name, cause) => ErrorView::ExecutableLocateFailed(
                name@,
                cause@,
            ),
            Error::Upx(e) => ErrorView::Upx(e@),
            Error::DynamicFailed(status) => ErrorView::DynamicFailed(status),
            Error::DynamicSignaled(signal) => ErrorView::DynamicSignaled(signal),
            Error::Encoding(bytes) => ErrorView::Encoding(bytes@),
            Error::PathEncoding(path) => ErrorView::PathEncoding(path@),
            Error::InvalidObjectPath(path) => ErrorView::InvalidObjectPath(path@),
            Error::MissingAuxv => ErrorView::MissingAuxv,
            Error::IO(e) => ErrorView::IO(e@),
        }
    }
}

/// A text with bytes before it and a text behind them.
pub open spec fn spec_framed(before: &str, body: Seq<u8>, after: &str) -> Seq<u8> {
    before.spec_bytes() + body + after.spec_bytes()
}

fn framed(before: &str, body: &[u8], after: &str) -> (r: Vec<u8>)
    ensures
        r@ == spec_framed(before, body@, after),
{
    let mut r: Vec<u8> = Vec::new();
    push_text(&mut r, before);
    r.extend_from_slice(body);
    push_text(&mut r, after);
    assert(r@ =~= spec_framed(before, body@, after));
    r
}

impl Error {
    /// The message of the error, as bytes.
    pub open spec fn spec_message(&self) -> Seq<u8> {
        match *self {
            Error::InvalidDestination(path) => spec_framed("The destination is invalid: ", path@, ""),
            Error::NonEmptyDestionation(path) => spec_framed(
                "The destination is not empty: ",
                path@,
                "",
            ),
            Error::InvalidGlobPattern(e) => spec_framed("Invalid glob pattern: ", e@, ""),
            Error::SharedLibraryLookup(e) => spec_framed("Unable to lookup shared library: ", e@, ""),
            Error::ResolverCompilation(e) => spec_framed(
                "Error happend during the compilation of library resolver: ",
                e@,
                "",
            ),
            Error::MalformedExecutable(e) => spec_framed("The executable is malformed: ", e@, ""),
            Error::ValueNotFoundInStrtab { tag, val } => spec_framed(
                "The executable is malformed: Value ",
                spec_decimal(val as nat) + " with tag ".spec_bytes() + spec_decimal(tag as nat),
                " is not found on strtab",
            ),
            Error::InterpretorNotFound => spec_framed(
                "Could not find an interpreter for the executable",
                Seq::empty(),
                "",
            ),
            Error::BusyBoxInstall(e) => spec_framed(
                "Unable to install busybox to the temporary directory: ",
                e@,
                "",
            ),
            Error::TestFailed(command) => spec_framed(
                "Test failed: ",
                command@,
                " returned non-zero exit code",
            ),
            Error::TestStdoutMismatch { expected, got } => spec_framed(
                "Test failed: Test command stdout mismatch. expected: '",
                expected@ + "', but got '".spec_bytes() + got@,
                "'",
            ),
            Error::ExecutableLocateFailed(name, cause) => spec_framed(
                "Unable to locate executable '",
                name@ + "': ".spec_bytes() + cause@,
                "",
            ),
            Error::Upx(e) => spec_framed("upx failed with non-zero exit code: ", e@, ""),
            Error::DynamicFailed(status) => spec_framed(
                "Dynamic analysis subproecss failed: exit status: ",
                spec_signed_decimal(status as int),
                "",
            ),
            Error::DynamicSignaled(signal) => spec_framed(
                "Dynamic analysis subproecss failed: signal: ",
                spec_signed_decimal(signal as int),
                "",
            ),
            Error::Encoding(bytes) => spec_framed(
                "Encoding error: invalid utf-8 sequence in '",
                bytes@,
                "'",
            ),
            Error::PathEncoding(path) => spec_framed(
                "Unable to interpret the path as UTF-8: ",
                path@,
                "",
            ),
            Error::InvalidObjectPath(path) => spec_framed(
                "Invalid ELF object file path '",
                path@,
                "'",
            ),
            Error::MissingAuxv => spec_framed(
                "IO error: could not find AT_PLATFORM auxval",
                Seq::empty(),
                "",
            ),
            Error::IO(e) => spec_framed("IO error: ", e@, ""),
        }
    }

    /// The message of the error, as bytes.
    pub fn message_bytes(&self) -> (r: Vec<u8>)
        ensures
            r@ == self.spec_message(),
    {
        let none: Vec<u8> = Vec::new();
        match self {
            Error::InvalidDestination(path) => framed(
                "The destination is invalid: ",
                path.as_slice(),
                "",
            ),
            Error::NonEmptyDestionation(path) => framed(
                "The destination is not empty: ",
                path.as_slice(),
                "",
            ),
            Error::InvalidGlobPattern(e) => framed("Invalid glob pattern: ", e.as_slice(), ""),
            Error::SharedLibraryLookup(e) => framed(
                "Unable to lookup shared library: ",
                e.as_slice(),
                "",
            ),
            Error::ResolverCompilation(e) => framed(
                "Error happend during the compilation of library resolver: ",
                e.as_slice(),
                "",
            ),
            Error::MalformedExecutable(e) => framed(
                "The executable is malformed: ",
                e.as_slice(),
                "",
            ),
            Error::ValueNotFoundInStrtab { tag, val } => {
                let mut body = decimal(*val);
                push_text(&mut body, " with tag ");
                let digits = decimal(*tag);
                body.extend_from_slice(digits.as_slice());
                framed(
                    "The executable is malformed: Value ",
                    body.as_slice(),
                    " is not found on strtab",
                )
            },
            Error::InterpretorNotFound => framed(
                "Could not find an interpreter for the executable",
                none.as_slice(),
                "",
            ),
            Error::BusyBoxInstall(e) => framed(
                "Unable to install busybox to the temporary directory: ",
                e.as_slice(),
                "",
            ),
            Error::TestFailed(command) => framed(
                "Test failed: ",
                command.as_slice(),
                " returned non-zero exit code",
            ),
            Error::TestStdoutMismatch { expected, got } => {
                let mut body: Vec<u8> = Vec::new();
                body.extend_from_slice(expected.as_slice());
                push_text(&mut body, "', but got '");
                body.extend_from_slice(got.as_slice());
                assert(body@ =~= expected@ + "', but got '".spec_bytes() + got@);
                framed(
                    "Test failed: Test command stdout mismatch. expected: '",
                    body.as_slice(),
                    "'",
                )
            },
            Error::ExecutableLocateFailed(name, cause) => {
                let mut body: Vec<u8> = Vec::new();
                body.extend_from_slice(name.as_slice());
                push_text(&mut body, "': ");
                body.extend_from_slice(cause.as_slice());
                assert(body@ =~= name@ + "': ".spec_bytes() + cause@);
                framed("Unable to locate executable '", body.as_slice(), "")
            },
            Error::Upx(e) => framed("upx failed with non-zero exit code: ", e.as_slice(), ""),
            Error::DynamicFailed(status) => {
                let digits = signed_decimal(*status);
                framed(
                    "Dynamic analysis subproecss failed: exit status: ",
                    digits.as_slice(),
                    "",
                )
            },
            Error::DynamicSignaled(signal) => {
                let digits = signed_decimal(*signal);
                framed("Dynamic analysis subproecss failed: signal: ", digits.as_slice(), "")
            },
            Error::Encoding(bytes) => framed(
                "Encoding error: invalid utf-8 sequence in '",
                bytes.as_slice(),
                "'",
            ),
            Error::PathEncoding(path) => framed(
                "Unable to interpret the path as UTF-8: ",
                path.as_slice(),
                "",
            ),
            Error::InvalidObjectPath(path) => framed(
                "Invalid ELF object file path '",
                path.as_slice(),
                "'",
            ),
            Error::MissingAuxv => framed(
                "IO error: could not find AT_PLATFORM auxval",
                none.as_slice(),
                "",
            ),
            Error::IO(e) => framed("IO error: ", e.as_slice(), ""),
        }
    }

    /// The message of the error as text, with the replacement character in
    /// place of what is not UTF-8 in it.
    pub fn message(&self) -> (r: String)
        ensures
            r@ == utf8_lossy(self.spec_message()),
            vstd::utf8::valid_utf8(self.spec_message()) ==> r@ == vstd::utf8::decode_utf8(
                self.spec_message(),
            ),
    {
        let bytes = self.message_bytes();
        to_text_lossy(bytes.as_slice())
    }
}

} // verus!
