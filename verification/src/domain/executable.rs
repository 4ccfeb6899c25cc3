//! Executables and shared objects: what is read of an ELF object, and how
//! its search paths are put together.

pub mod elf;
pub mod resolver;
pub mod search_paths;
pub mod walk;

pub use search_paths::SearchPaths;

use crate::base::path::{
    file_name, is_absolute, parent, spec_file_name, spec_is_absolute, spec_parent,
};
use crate::base::text::{
    clone_list, decimal, is_utf8, lemma_run_len_is, run_len, spec_decimal, text, views,
};
use crate::base::{Error, ErrorView};
use crate::domain::executable::elf::{
    dyn_views, elf_parse, goblin_image, goblin_refusal, DynEntry, DynEntryView, ElfFault, ElfFaultView, ElfImage,
    ElfImageView,
};
use crate::domain::executable::search_paths::{
    auxv_platform, spec_append, spec_propagate, SearchPathsView,
};
use vstd::prelude::*;
use vstd::slice::*;
use vstd::string::*;

verus! {

/// The tag of a dynamic entry that holds an rpath.
pub const DT_RPATH: u64 = 15;

/// The tag of a dynamic entry that holds a runpath.
pub const DT_RUNPATH: u64 = 29;

/// The byte `:`.
pub const COLON: u8 = 58;

/// The byte `;`.
pub const SEMICOLON: u8 = 59;

/// The error that stands for a refusal of the ELF parser. A malformed part,
/// an unknown magic number and bytes that cannot be read make a malformed
/// executable; a failure to read stays one.
pub open spec fn spec_fault_error(fault: ElfFaultView) -> ErrorView {
    match fault {
        ElfFaultView::Malformed(reason) => ErrorView::MalformedExecutable(reason),
        ElfFaultView::BadMagic(magic) => ErrorView::MalformedExecutable(
            "unknown magic number: ".spec_bytes() + spec_decimal(magic as nat),
        ),
        ElfFaultView::Scroll(reason) => ErrorView::MalformedExecutable(spec_unreadable(reason)),
        ElfFaultView::IO(reason) => ErrorView::IO(reason),
    }
}

/// The reason given for bytes that cannot be read.
pub open spec fn spec_unreadable(reason: Seq<u8>) -> Seq<u8> {
    "unable to read bytes: ".spec_bytes() + reason
}

fn unreadable(reason: &[u8]) -> (r: Vec<u8>)
    ensures
        r@ == spec_unreadable(reason@),
{
    let mut r = text("unable to read bytes: ");
    r.extend_from_slice(reason);
    r
}

/// The error that stands for a refusal of the ELF parser.
pub fn fault_error(fault: ElfFault) -> (r: Error)
    ensures
        r@ == spec_fault_error(fault@),
{
    match fault {
        ElfFault::Malformed(reason) => Error::MalformedExecutable(reason),
        ElfFault::BadMagic(magic) => {
            let mut reason = text("unknown magic number: ");
            let digits = decimal(magic);
            reason.extend_from_slice(digits.as_slice());
            assert(reason@ =~= "unknown magic number: ".spec_bytes() + spec_decimal(magic as nat));
            Error::MalformedExecutable(reason)
        },
        ElfFault::Scroll(reason) => Error::MalformedExecutable(unreadable(reason.as_slice())),
        ElfFault::IO(reason) => Error::IO(reason),
    }
}

/// Whether a byte separates the paths of a list: `:` always, `;` too where
/// the list is not one of an ELF object.
pub open spec fn separates(b: u8, colon_only: bool) -> bool {
    b == COLON || (!colon_only && b == SEMICOLON)
}

/// The parts of a list of paths, in order. A list without separators has
/// one part, itself; between two separators, and behind the last, lies a
/// part that may be empty.
pub open spec fn spec_split(list: Seq<u8>, colon_only: bool) -> Seq<Seq<u8>>
    decreases list.len(),
{
    let n = run_len(list, |b: u8| separates(b, colon_only));
    if n >= list.len() {
        seq![list]
    } else {
        seq![list.take(n as int)] + spec_split(list.skip(n as int + 1), colon_only)
    }
}

/// Splits a list of paths at its separators.
pub fn split(list: &[u8], colon_only: bool) -> (r: Vec<Vec<u8>>)
    ensures
        views(r@) == spec_split(list@, colon_only),
{
    let len = list.len();
    let mut r: Vec<Vec<u8>> = Vec::new();
    let mut start: usize = 0;
    let mut i: usize = 0;
    proof {
        assert(list@.skip(0) =~= list@);
        assert(views(r@) =~= Seq::<Seq<u8>>::empty());
    }
    while i < len
        invariant
            len == list.len(),
            start <= i <= len,
            forall|k: int| start <= k < i ==> !separates(#[trigger] list@[k], colon_only),
            spec_split(list@, colon_only) == views(r@) + spec_split(
                list@.skip(start as int),
                colon_only,
            ),
        decreases len - i,
    {
        let b = list[i];
        if b == COLON || (!colon_only && b == SEMICOLON) {
            let ghost rest = list@.skip(start as int);
            let ghost before = views(r@);
            proof {
                assert forall|k: int| 0 <= k < i - start implies !(|b: u8|
                    separates(b, colon_only))(#[trigger] rest[k]) by {
                    assert(rest[k] == list@[start + k]);
                }
                lemma_run_len_is(rest, |b: u8| separates(b, colon_only), i - start);
                assert(rest.take(i - start) =~= list@.subrange(start as int, i as int));
                assert(rest.skip(i - start + 1) =~= list@.skip(i + 1));
            }
            r.push(slice_to_vec(slice_subrange(list, start, i)));
            proof {
                assert(views(r@) =~= before + seq![rest.take(i - start)]);
                assert(before + (seq![rest.take(i - start)] + spec_split(
                    list@.skip(i + 1),
                    colon_only,
                )) =~= views(r@) + spec_split(list@.skip(i + 1), colon_only));
            }
            start = i + 1;
        }
        i += 1;
    }
    let ghost rest = list@.skip(start as int);
    let ghost before = views(r@);
    proof {
        assert forall|k: int| 0 <= k < rest.len() implies !(|b: u8| separates(b, colon_only))(
            #[trigger] rest[k],
        ) by {
            assert(rest[k] == list@[start + k]);
        }
        lemma_run_len_is(rest, |b: u8| separates(b, colon_only), rest.len() as int);
        assert(rest =~= list@.subrange(start as int, len as int));
    }
    r.push(slice_to_vec(slice_subrange(list, start, len)));
    assert(views(r@) =~= before + seq![rest]);
    r
}

/// The text of a dynamic entry, or the error for an entry that has none: a
/// value that is not found in the string table, or bytes there that are no
/// text.
pub open spec fn spec_content_in_strtab(entry: DynEntryView) -> Result<Seq<u8>, ErrorView> {
    match entry.text {
        None => Err(ErrorView::ValueNotFoundInStrtab { tag: entry.tag, val: entry.val }),
        Some(Err(reason)) => Err(ErrorView::MalformedExecutable(spec_unreadable(reason))),
        Some(Ok(content)) => Ok(content),
    }
}

/// The text of a dynamic entry.
pub fn get_content_in_strtab(entry: &DynEntry) -> (r: Result<Vec<u8>, Error>)
    ensures
        match r {
            Ok(content) => spec_content_in_strtab(entry@) == Ok::<Seq<u8>, ErrorView>(content@),
            Err(e) => spec_content_in_strtab(entry@) == Err::<Seq<u8>, ErrorView>(e@),
        },
{
    match &entry.text {
        None => Err(Error::ValueNotFoundInStrtab { tag: entry.tag, val: entry.val }),
        Some(Err(reason)) => Err(Error::MalformedExecutable(unreadable(reason.as_slice()))),
        Some(Ok(content)) => Ok(slice_to_vec(content.as_slice())),
    }
}

/// The paths of a dynamic entry: its text, split at each `:`.
pub fn get_paths_in_strtab(entry: &DynEntry) -> (r: Result<Vec<Vec<u8>>, Error>)
    ensures
        match r {
            Ok(paths) => spec_content_in_strtab(entry@) is Ok && views(paths@) == spec_split(
                spec_content_in_strtab(entry@)->Ok_0,
                true,
            ),
            Err(e) => spec_content_in_strtab(entry@) == Err::<Seq<u8>, ErrorView>(e@),
        },
{
    match get_content_in_strtab(entry) {
        Ok(content) => Ok(split(content.as_slice(), true)),
        Err(e) => Err(e),
    }
}

/// The search paths after one more dynamic entry: the paths of a runpath
/// entry are appended to the runpath, those of an rpath entry to the rpath;
/// any other entry changes nothing.
pub open spec fn spec_collect_entry(paths: SearchPathsView, entry: DynEntryView) -> Result<
    SearchPathsView,
    ErrorView,
> {
    if entry.tag != DT_RUNPATH && entry.tag != DT_RPATH {
        Ok(paths)
    } else {
        match spec_content_in_strtab(entry) {
            Err(e) => Err(e),
            Ok(content) => if entry.tag == DT_RUNPATH {
                Ok(
                    SearchPathsView {
                        runpath: spec_append(
                            paths.runpath,
                            spec_split(content, true),
                            paths.origin,
                            paths.platform,
                        ),
                        ..paths
                    },
                )
            } else {
                Ok(
                    SearchPathsView {
                        rpath: spec_append(
                            paths.rpath,
                            spec_split(content, true),
                            paths.origin,
                            paths.platform,
                        ),
                        ..paths
                    },
                )
            },
        }
    }
}

/// The search paths after the dynamic entries of an object, taken in order;
/// the first entry that fails decides.
pub open spec fn spec_collect_entries(paths: SearchPathsView, dyns: Seq<DynEntryView>) -> Result<
    SearchPathsView,
    ErrorView,
>
    decreases dyns.len(),
{
    if dyns.len() == 0 {
        Ok(paths)
    } else {
        match spec_collect_entries(paths, dyns.drop_last()) {
            Err(e) => Err(e),
            Ok(collected) => spec_collect_entry(collected, dyns.last()),
        }
    }
}

/// The directory of an object: that of its path, which has to be absolute.
pub open spec fn spec_object_dir(executable_path: Seq<u8>) -> Option<Seq<u8>> {
    if spec_is_absolute(executable_path) {
        spec_parent(executable_path)
    } else {
        None
    }
}

/// The search paths of an object at `executable_path`: its origin is the
/// directory of the object; the rpath and the runpath come from its dynamic
/// entries; the third list comes from the value of `LD_LIBRARY_PATH`, where
/// it is set, split at each `:` and `;`.
pub open spec fn spec_collect_paths(
    image: ElfImageView,
    executable_path: Seq<u8>,
    platform: Option<Seq<u8>>,
    ld_library_path: Option<Seq<u8>>,
) -> Result<SearchPathsView, ErrorView> {
    match (spec_object_dir(executable_path), platform) {
        (None, _) => Err(ErrorView::InvalidObjectPath(executable_path)),
        (Some(_), None) => Err(ErrorView::MissingAuxv),
        (Some(origin), Some(platform)) => match spec_collect_entries(
            SearchPathsView {
                rpath: None,
                runpath: None,
                ld_library_path: None,
                platform,
                origin,
            },
            image.dyns,
        ) {
            Err(e) => Err(e),
            Ok(paths) => Ok(
                match ld_library_path {
                    Some(list) => SearchPathsView {
                        ld_library_path: spec_append(
                            paths.ld_library_path,
                            spec_split(list, false),
                            paths.origin,
                            paths.platform,
                        ),
                        ..paths
                    },
                    None => paths,
                },
            ),
        },
    }
}

/// Puts together the search paths of an object.
#[verifier::loop_isolation(false)]
pub fn collect_paths(
    image: &ElfImage,
    executable_path: &[u8],
    platform: Option<Vec<u8>>,
    ld_library_path: Option<&[u8]>,
) -> (r: Result<SearchPaths, Error>)
    ensures
        match r {
            Ok(paths) => spec_collect_paths(image@, executable_path@, option_view(platform), match ld_library_path {
                Some(list) => Some(list@),
                None => None,
            }) == Ok::<SearchPathsView, ErrorView>(paths@),
            Err(e) => spec_collect_paths(image@, executable_path@, option_view(platform), match ld_library_path {
                Some(list) => Some(list@),
                None => None,
            }) == Err::<SearchPathsView, ErrorView>(e@),
        },
{
    if !is_absolute(executable_path) {
        return Err(Error::InvalidObjectPath(slice_to_vec(executable_path)));
    }
    let origin = match parent(executable_path) {
        Some(origin) => origin,
        None => {
            return Err(Error::InvalidObjectPath(slice_to_vec(executable_path)));
        },
    };
    let mut paths = match SearchPaths::with_platform(origin, platform) {
        Ok(paths) => paths,
        Err(e) => {
            return Err(e);
        },
    };
    let ghost start = paths@;
    let mut i: usize = 0;
    assert(dyn_views(image.dyns@).take(0) =~= Seq::<DynEntryView>::empty());
    while i < image.dyns.len()
        invariant
            i <= image.dyns.len(),
            spec_collect_entries(start, dyn_views(image.dyns@).take(i as int)) == Ok::<
                SearchPathsView,
                ErrorView,
            >(paths@),
        decreases image.dyns.len() - i,
    {
        let entry = &image.dyns[i];
        proof {
            let all = dyn_views(image.dyns@);
            assert(all.take(i + 1).drop_last() =~= all.take(i as int));
            assert(all.take(i + 1).last() == entry@);
        }
        if entry.tag == DT_RUNPATH {
            match get_paths_in_strtab(entry) {
                Ok(list) => paths.append_runpath(list.as_slice()),
                Err(e) => {
                    proof {
                        lemma_collect_fails(start, dyn_views(image.dyns@), i + 1);
                    }
                    return Err(e);
                },
            }
        } else if entry.tag == DT_RPATH {
            match get_paths_in_strtab(entry) {
                Ok(list) => paths.append_rpath(list.as_slice()),
                Err(e) => {
                    proof {
                        lemma_collect_fails(start, dyn_views(image.dyns@), i + 1);
                    }
                    return Err(e);
                },
            }
        }
        i += 1;
    }
    assert(dyn_views(image.dyns@).take(i as int) =~= dyn_views(image.dyns@));
    if let Some(list) = ld_library_path {
        let parts = split(list, false);
        paths.append_ld_library_path(parts.as_slice());
    }
    Ok(paths)
}

/// What an optional byte string holds.
pub open spec fn option_view(value: Option<Vec<u8>>) -> Option<Seq<u8>> {
    match value {
        Some(bytes) => Some(bytes@),
        None => None,
    }
}

/// Where the first entries of a list fail, the list fails in the same way.
proof fn lemma_collect_fails(paths: SearchPathsView, dyns: Seq<DynEntryView>, n: int)
    requires
        0 <= n <= dyns.len(),
        spec_collect_entries(paths, dyns.take(n)) is Err,
    ensures
        spec_collect_entries(paths, dyns) == spec_collect_entries(paths, dyns.take(n)),
    decreases dyns.len() - n,
{
    if n == dyns.len() {
        assert(dyns.take(n) =~= dyns);
    } else {
        assert(dyns.take(n + 1).drop_last() =~= dyns.take(n));
        lemma_collect_fails(paths, dyns, n + 1);
    }
}

/// What the process knows of its host: its platform, and the value of
/// `LD_LIBRARY_PATH` in its environment, each of which may be missing.
#[derive(Debug, Clone, PartialEq, Eq)]
pub struct Host {
    pub platform: Option<Vec<u8>>,
    pub ld_library_path: Option<Vec<u8>>,
}

impl Host {
    /// The host of the running process: its platform is read from the
    /// auxiliary vector, the value of `LD_LIBRARY_PATH` is given.
    pub fn read(ld_library_path: Option<Vec<u8>>) -> (r: Host)
        ensures
            r.ld_library_path == ld_library_path,
    {
        Host { platform: auxv_platform(), ld_library_path }
    }
}

/// Where an executable lies.
#[derive(Debug, PartialEq, Eq)]
pub enum ExecutableLocation {
    /// At a path that the user gave.
    Fixed(Vec<u8>),
    /// At a temporary path that belongs to the executable.
    Temporary(Vec<u8>),
}

impl ExecutableLocation {
    /// The path of the location.
    pub open spec fn path(&self) -> Seq<u8> {
        match *self {
            ExecutableLocation::Fixed(path) => path@,
            ExecutableLocation::Temporary(path) => path@,
        }
    }

    /// The path of the location.
    pub fn as_ref(&self) -> (r: &[u8])
        ensures
            r@ == self.path(),
    {
        match self {
            ExecutableLocation::Fixed(path) => path.as_slice(),
            ExecutableLocation::Temporary(path) => path.as_slice(),
        }
    }
}

/// An ELF object of which the bundler knows what it needs at run time.
#[derive(Debug)]
pub struct Executable {
    location: ExecutableLocation,
    name: Vec<u8>,
    interpreter: Option<Vec<u8>>,
    libraries: Vec<Vec<u8>>,
    search_paths: SearchPaths,
}

/// What an `Executable` holds.
pub struct ExecutableView {
    pub path: Seq<u8>,
    pub temporary: bool,
    pub name: Seq<u8>,
    pub interpreter: Option<Seq<u8>>,
    pub libraries: Seq<Seq<u8>>,
    pub search_paths: SearchPathsView,
}

impl View for Executable {
    type V = ExecutableView;

    closed spec fn view(&self) -> ExecutableView {
        ExecutableView {
            path: self.location.path(),
            temporary: self.location is Temporary,
            name: self.name@,
            interpreter: option_view(self.interpreter),
            libraries: views(self.libraries@),
            search_paths: self.search_paths@,
        }
    }
}

/// The interpreter of an object: its own, or else the default one.
pub open spec fn spec_interpreter(
    own: Option<Seq<u8>>,
    default_interpreter: Option<Seq<u8>>,
) -> Option<Seq<u8>> {
    match own {
        Some(path) => Some(path),
        None => default_interpreter,
    }
}

/// The executable that is made of the image of an object at `path`. Its
/// search paths are collected from the image and the host; the rpath that
/// was handed down from the object for which it was loaded, if any, is
/// appended to its own.
pub open spec fn spec_load_impl(
    path: Seq<u8>,
    temporary: bool,
    name: Seq<u8>,
    image: ElfImageView,
    default_interpreter: Option<Seq<u8>>,
    platform: Option<Seq<u8>>,
    ld_library_path: Option<Seq<u8>>,
    propagated_rpaths: Option<Seq<Seq<u8>>>,
) -> Result<ExecutableView, ErrorView> {
    match spec_collect_paths(image, path, platform, ld_library_path) {
        Err(e) => Err(e),
        Ok(paths) => Ok(
            ExecutableView {
                path,
                temporary,
                name,
                interpreter: spec_interpreter(image.interpreter, default_interpreter),
                libraries: image.libraries,
                search_paths: spec_propagate(paths, propagated_rpaths),
            },
        ),
    }
}

/// The name of the executable at a path: the last component of the path,
/// which has to be UTF-8.
pub open spec fn spec_name(path: Seq<u8>) -> Result<Seq<u8>, ErrorView> {
    match spec_file_name(path) {
        None => Err(ErrorView::InvalidObjectPath(path)),
        Some(name) => if vstd::utf8::valid_utf8(name) {
            Ok(name)
        } else {
            Err(ErrorView::PathEncoding(name))
        },
    }
}

/// The executable that is made of the image of the object at the path
/// `exe_path` that the user gave.
pub open spec fn spec_load_with_rpaths(
    exe_path: Seq<u8>,
    image: ElfImageView,
    default_interpreter: Option<Seq<u8>>,
    platform: Option<Seq<u8>>,
    ld_library_path: Option<Seq<u8>>,
    propagated_rpaths: Option<Seq<Seq<u8>>>,
) -> Result<ExecutableView, ErrorView> {
    match spec_name(exe_path) {
        Err(e) => Err(e),
        Ok(name) => spec_load_impl(
            exe_path,
            false,
            name,
            image,
            default_interpreter,
            platform,
            ld_library_path,
            propagated_rpaths,
        ),
    }
}

/// The loaders that are tried, in order, for an object that names none.
pub open spec fn spec_rtld_list() -> Seq<Seq<u8>> {
    seq![
        "/usr/lib/ld-linux.so.2".spec_bytes(),
        "/usr/lib64/ld-linux-x86-64.so.2".spec_bytes(),
        "/usr/libx32/ld-linux-x32.so.2".spec_bytes(),
        "/lib/ld-linux.so.2".spec_bytes(),
        "/lib64/ld-linux-x86-64.so.2".spec_bytes(),
        "/libx32/ld-linux-x32.so.2".spec_bytes(),
    ]
}

/// Whether a loader takes an object as its own: it exists, and its run with
/// `--verify` on the object ended with the exit status 0 or 2.
pub open spec fn spec_verifies(verified: Option<Option<i32>>) -> bool {
    verified == Some(Some(0i32)) || verified == Some(Some(2i32))
}

/// The default interpreter of an object: the first loader of the list that
/// takes the object as its own, where `verified` says of each loader what
/// its run came to.
pub open spec fn spec_default_interpreter(verified: Seq<Option<Option<i32>>>) -> Option<Seq<u8>> {
    spec_first_verified(spec_rtld_list(), verified)
}

/// The first of a list of loaders that takes the object as its own.
pub open spec fn spec_first_verified(
    loaders: Seq<Seq<u8>>,
    verified: Seq<Option<Option<i32>>>,
) -> Option<Seq<u8>>
    decreases loaders.len(),
{
    if loaders.len() == 0 || verified.len() == 0 {
        None
    } else if spec_verifies(verified[0]) {
        Some(loaders[0])
    } else {
        spec_first_verified(loaders.drop_first(), verified.drop_first())
    }
}

/// The loaders that are tried, in order, for an object that names none.
pub fn rtld_list() -> (r: Vec<Vec<u8>>)
    ensures
        views(r@) == spec_rtld_list(),
{
    let mut r: Vec<Vec<u8>> = Vec::new();
    r.push(text("/usr/lib/ld-linux.so.2"));
    r.push(text("/usr/lib64/ld-linux-x86-64.so.2"));
    r.push(text("/usr/libx32/ld-linux-x32.so.2"));
    r.push(text("/lib/ld-linux.so.2"));
    r.push(text("/lib64/ld-linux-x86-64.so.2"));
    r.push(text("/libx32/ld-linux-x32.so.2"));
    assert(views(r@) =~= spec_rtld_list());
    r
}

/// The arguments with which a loader is run on an object to see whether it
/// takes it: `--verify` and the path of the object.
pub fn verify_args(exe: &[u8]) -> (r: Vec<Vec<u8>>)
    ensures
        views(r@) == seq!["--verify".spec_bytes(), exe@],
{
    let mut r: Vec<Vec<u8>> = Vec::new();
    r.push(text("--verify"));
    r.push(slice_to_vec(exe));
    assert(views(r@) =~= seq!["--verify".spec_bytes(), exe@]);
    r
}

/// The default interpreter of an object. `verified` holds, for each loader
/// of the list in order, nothing where the loader does not exist, and else
/// the exit status of its run with `--verify` on the object, if it has one.
/// Loaders of which `verified` says nothing do not count.
pub fn default_interpreter(verified: &[Option<Option<i32>>]) -> (r: Option<Vec<u8>>)
    ensures
        option_view(r) == spec_default_interpreter(verified@),
{
    let loaders = rtld_list();
    let mut i: usize = 0;
    proof {
        assert(views(loaders@).skip(0) =~= views(loaders@));
        assert(verified@.skip(0) =~= verified@);
    }
    while i < loaders.len() && i < verified.len()
        invariant
            i <= loaders.len(),
            i <= verified.len(),
            views(loaders@) == spec_rtld_list(),
            spec_default_interpreter(verified@) == spec_first_verified(
                views(loaders@).skip(i as int),
                verified@.skip(i as int),
            ),
        decreases loaders.len() - i,
    {
        let accepted = match verified[i] {
            Some(Some(code)) => code == 0 || code == 2,
            _ => false,
        };
        proof {
            assert(verified@.skip(i as int)[0] == verified@[i as int]);
            assert(views(loaders@).skip(i as int)[0] == loaders@[i as int]@);
        }
        if accepted {
            return Some(slice_to_vec(loaders[i].as_slice()));
        }
        proof {
            assert(views(loaders@).skip(i as int).drop_first() =~= views(loaders@).skip(i + 1));
            assert(verified@.skip(i as int).drop_first() =~= verified@.skip(i + 1));
        }
        i += 1;
    }
    None
}

/// The arguments with which the compressor is run: the options of the user,
/// `--no-progress`, the canonical path of the executable, `-o`, and the
/// path at which the result is to lie.
pub open spec fn spec_upx_args(
    upx_opts: Seq<Seq<u8>>,
    canonical_path: Seq<u8>,
    result_path: Seq<u8>,
) -> Seq<Seq<u8>> {
    upx_opts + seq![
        "--no-progress".spec_bytes(),
        canonical_path,
        "-o".spec_bytes(),
        result_path,
    ]
}

/// The arguments with which the compressor is run.
pub fn upx_args(upx_opts: &[Vec<u8>], canonical_path: &[u8], result_path: &[u8]) -> (r: Vec<
    Vec<u8>,
>)
    ensures
        views(r@) == spec_upx_args(views(upx_opts@), canonical_path@, result_path@),
{
    let mut r = clone_list(upx_opts);
    let ghost opts = views(r@);
    r.push(text("--no-progress"));
    r.push(slice_to_vec(canonical_path));
    r.push(text("-o"));
    r.push(slice_to_vec(result_path));
    proof {
        assert forall|k: int| 0 <= k < opts.len() implies r@[k]@ == opts[k] by {
            assert(opts[k] == views(upx_opts@)[k]);
        }
        assert(views(r@) =~= spec_upx_args(views(upx_opts@), canonical_path@, result_path@));
    }
    r
}

/// What the run of the compressor comes to: nothing where it succeeded, the
/// error with what the compressor said where it did not.
pub fn upx_outcome(success: bool, stderr: &[u8]) -> (r: Result<(), Error>)
    ensures
        match r {
            Ok(_) => success,
            Err(e) => !success && e@ == ErrorView::Upx(stderr@),
        },
{
    if success {
        Ok(())
    } else {
        Err(Error::Upx(slice_to_vec(stderr)))
    }
}

/// An executable lies at an absolute path.
pub proof fn lemma_loaded_at_absolute_path(
    path: Seq<u8>,
    temporary: bool,
    name: Seq<u8>,
    image: ElfImageView,
    default_interpreter: Option<Seq<u8>>,
    platform: Option<Seq<u8>>,
    ld_library_path: Option<Seq<u8>>,
    propagated_rpaths: Option<Seq<Seq<u8>>>,
)
    requires
        spec_load_impl(
            path,
            temporary,
            name,
            image,
            default_interpreter,
            platform,
            ld_library_path,
            propagated_rpaths,
        ) is Ok,
    ensures
        spec_is_absolute(path),
{
}

impl Executable {
    #[verifier::type_invariant]
    spec fn rooted(&self) -> bool {
        spec_is_absolute(self.location.path())
    }

    /// Reads the bytes of a file as an ELF object. The parser decides
    /// whether the bytes are one; its refusal becomes the error that stands
    /// for it.
    pub fn parse(bytes: &[u8]) -> (r: Result<ElfImage, Error>)
        ensures
            match elf_parse(bytes@) {
                Ok(image) => r is Ok && r->Ok_0@ == image,
                Err(fault) => r is Err && r->Err_0@ == spec_fault_error(fault),
            },
    {
        match goblin_image(bytes) {
            Some(image) => Ok(image),
            None => match goblin_refusal(bytes) {
                Some(fault) => Err(fault_error(fault)),
                None => Err(Error::MalformedExecutable(Vec::new())),
            },
        }
    }

    /// The name of the executable at a path.
    pub fn name_of(exe_path: &[u8]) -> (r: Result<Vec<u8>, Error>)
        ensures
            match r {
                Ok(name) => spec_name(exe_path@) == Ok::<Seq<u8>, ErrorView>(name@),
                Err(e) => spec_name(exe_path@) == Err::<Seq<u8>, ErrorView>(e@),
            },
    {
        let name = match file_name(exe_path) {
            Some(name) => name,
            None => {
                return Err(Error::InvalidObjectPath(slice_to_vec(exe_path)));
            },
        };
        if !is_utf8(name.as_slice()) {
            return Err(Error::PathEncoding(name));
        }
        Ok(name)
    }

    /// Makes an executable of the image of the object at `location`.
    pub fn load_impl(
        location: ExecutableLocation,
        name: Vec<u8>,
        image: ElfImage,
        default_interpreter: Option<Vec<u8>>,
        host: &Host,
        propagated_rpaths: Option<&[Vec<u8>]>,
    ) -> (r: Result<Executable, Error>)
        ensures
            match r {
                Ok(exe) => spec_load_impl(
                    location.path(),
                    location is Temporary,
                    name@,
                    image@,
                    option_view(default_interpreter),
                    option_view(host.platform),
                    option_view(host.ld_library_path),
                    option_list_view(propagated_rpaths),
                ) == Ok::<ExecutableView, ErrorView>(exe@),
                Err(e) => spec_load_impl(
                    location.path(),
                    location is Temporary,
                    name@,
                    image@,
                    option_view(default_interpreter),
                    option_view(host.platform),
                    option_view(host.ld_library_path),
                    option_list_view(propagated_rpaths),
                ) == Err::<ExecutableView, ErrorView>(e@),
            },
    {
        let platform = match &host.platform {
            Some(platform) => Some(slice_to_vec(platform.as_slice())),
            None => None,
        };
        let ld_library_path: Option<&[u8]> = match &host.ld_library_path {
            Some(list) => Some(list.as_slice()),
            None => None,
        };
        let mut search_paths = match collect_paths(
            &image,
            location.as_ref(),
            platform,
            ld_library_path,
        ) {
            Ok(paths) => paths,
            Err(e) => {
                return Err(e);
            },
        };
        if let Some(rpaths) = propagated_rpaths {
            search_paths.append_rpath(rpaths);
        }
        let interpreter = match image.interpreter {
            Some(path) => Some(path),
            None => default_interpreter,
        };
        Ok(Executable { location, name, interpreter, libraries: image.libraries, search_paths })
    }

    /// Makes an executable of the image of the object at the path that the
    /// user gave, with the rpath that was handed down to it.
    pub fn load_with_rpaths(
        exe_path: &[u8],
        image: ElfImage,
        default_interpreter: Option<Vec<u8>>,
        host: &Host,
        propagated_rpaths: Option<&[Vec<u8>]>,
    ) -> (r: Result<Executable, Error>)
        ensures
            match r {
                Ok(exe) => spec_load_with_rpaths(
                    exe_path@,
                    image@,
                    option_view(default_interpreter),
                    option_view(host.platform),
                    option_view(host.ld_library_path),
                    option_list_view(propagated_rpaths),
                ) == Ok::<ExecutableView, ErrorView>(exe@),
                Err(e) => spec_load_with_rpaths(
                    exe_path@,
                    image@,
                    option_view(default_interpreter),
                    option_view(host.platform),
                    option_view(host.ld_library_path),
                    option_list_view(propagated_rpaths),
                ) == Err::<ExecutableView, ErrorView>(e@),
            },
    {
        let name = match Executable::name_of(exe_path) {
            Ok(name) => name,
            Err(e) => {
                return Err(e);
            },
        };
        let location = ExecutableLocation::Fixed(slice_to_vec(exe_path));
        Executable::load_impl(location, name, image, default_interpreter, host, propagated_rpaths)
    }

    /// Makes an executable of the image of the object at the path that the
    /// user gave.
    pub fn load(
        exe_path: &[u8],
        image: ElfImage,
        default_interpreter: Option<Vec<u8>>,
        host: &Host,
    ) -> (r: Result<Executable, Error>)
        ensures
            match r {
                Ok(exe) => spec_load_with_rpaths(
                    exe_path@,
                    image@,
                    option_view(default_interpreter),
                    option_view(host.platform),
                    option_view(host.ld_library_path),
                    None,
                ) == Ok::<ExecutableView, ErrorView>(exe@),
                Err(e) => spec_load_with_rpaths(
                    exe_path@,
                    image@,
                    option_view(default_interpreter),
                    option_view(host.platform),
                    option_view(host.ld_library_path),
                    None,
                ) == Err::<ExecutableView, ErrorView>(e@),
            },
    {
        Executable::load_with_rpaths(exe_path, image, default_interpreter, host, None)
    }

    /// The executable that the compressor made of this one: the object at
    /// the temporary path `result_path`, under the name of this one, with
    /// no rpath handed down.
    pub fn compressed(
        &self,
        result_path: Vec<u8>,
        image: ElfImage,
        default_interpreter: Option<Vec<u8>>,
        host: &Host,
    ) -> (r: Result<Executable, Error>)
        ensures
            match r {
                Ok(exe) => spec_load_impl(
                    result_path@,
                    true,
                    self@.name,
                    image@,
                    option_view(default_interpreter),
                    option_view(host.platform),
                    option_view(host.ld_library_path),
                    None,
                ) == Ok::<ExecutableView, ErrorView>(exe@),
                Err(e) => spec_load_impl(
                    result_path@,
                    true,
                    self@.name,
                    image@,
                    option_view(default_interpreter),
                    option_view(host.platform),
                    option_view(host.ld_library_path),
                    None,
                ) == Err::<ExecutableView, ErrorView>(e@),
            },
    {
        Executable::load_impl(
            ExecutableLocation::Temporary(result_path),
            slice_to_vec(self.name.as_slice()),
            image,
            default_interpreter,
            host,
            None,
        )
    }

    /// The path at which the executable lies, which is absolute.
    pub fn path(&self) -> (r: &[u8])
        ensures
            r@ == self@.path,
            spec_is_absolute(r@),
    {
        proof {
            use_type_invariant(self);
        }
        self.location.as_ref()
    }

    /// Whether the executable lies at a temporary path of its own.
    pub fn is_temporary(&self) -> (r: bool)
        ensures
            r == self@.temporary,
    {
        match self.location {
            ExecutableLocation::Fixed(_) => false,
            ExecutableLocation::Temporary(_) => true,
        }
    }

    /// The name of the executable.
    pub fn name(&self) -> (r: &Vec<u8>)
        ensures
            r@ == self@.name,
    {
        &self.name
    }

    /// The interpreter of the executable, where it has one.
    pub fn interpreter(&self) -> (r: Option<&Vec<u8>>)
        ensures
            match r {
                Some(path) => self@.interpreter == Some(path@),
                None => self@.interpreter is None,
            },
    {
        self.interpreter.as_ref()
    }

    /// The names of the libraries that the executable needs.
    pub fn libraries(&self) -> (r: &Vec<Vec<u8>>)
        ensures
            views(r@) == self@.libraries,
    {
        &self.libraries
    }

    /// The search paths of the executable.
    pub fn search_paths(&self) -> (r: &SearchPaths)
        ensures
            r@ == self@.search_paths,
    {
        &self.search_paths
    }
}

impl Clone for Executable {
    fn clone(&self) -> (r: Executable)
        ensures
            r@ == self@,
    {
        proof {
            use_type_invariant(self);
        }
        Executable {
            location: match &self.location {
                ExecutableLocation::Fixed(path) => ExecutableLocation::Fixed(
                    slice_to_vec(path.as_slice()),
                ),
                ExecutableLocation::Temporary(path) => ExecutableLocation::Temporary(
                    slice_to_vec(path.as_slice()),
                ),
            },
            name: slice_to_vec(self.name.as_slice()),
            interpreter: match &self.interpreter {
                Some(path) => Some(slice_to_vec(path.as_slice())),
                None => None,
            },
            libraries: clone_list(self.libraries.as_slice()),
            search_paths: self.search_paths.clone(),
        }
    }
}

/// What an optional list of byte strings holds.
pub open spec fn option_list_view(list: Option<&[Vec<u8>]>) -> Option<Seq<Seq<u8>>> {
    match list {
        Some(entries) => Some(views(entries@)),
        None => None,
    }
}

} // verus!
