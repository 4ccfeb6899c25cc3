//! The search for a shared library, in the order of the dynamic loader:
//! rpath, `LD_LIBRARY_PATH`, runpath, and at last the loader itself, asked
//! through a small helper program.
//!
//! The resolver names the places to look at and decides from what was found
//! there. The caller looks: it says which of the places exist, and where none
//! does it runs the helper, building it first where it is not yet there.

use crate::base::path::{join, spec_join};
use crate::base::text::{
    decimal, is_utf8, push_text, spec_decimal, spec_trim, text, trim, views, DOLLAR,
};
use crate::base::{Error, ErrorView};
use crate::domain::executable::search_paths::{
    lemma_expand_without_token, spec_entries, spec_expand_all, spec_propagate, SearchPaths,
    SearchPathsView,
};
use std::collections::hash_map::DefaultHasher;
use std::hash::Hasher;
use vstd::prelude::*;
use vstd::slice::*;
use vstd::std_specs::hash::*;
use vstd::string::*;

verus! {

/// The source of the helper that asks the loader for a library by name.
pub const GENERIC_RESOLVER_SOURCE_CODE: &'static str = "
#define _GNU_SOURCE
#include <dlfcn.h>
#include <link.h>

#include <stdio.h>

int main(int argc, char** argv) {
  char* name = argv[1];
  void* handle = dlopen(name, RTLD_LAZY);
  if (handle == NULL) {
    fputs(dlerror(), stderr);
    return 1;
  }
  struct link_map* link_map;
  if (dlinfo(handle, RTLD_DI_LINKMAP, &link_map) != 0) {
    fputs(dlerror(), stderr);
    return 2;
  }
  puts(link_map->l_name);
  dlclose(handle);
}";

/// The source of the helper that is linked against the library itself and
/// asks the loader where it was loaded from, without loading anything.
pub const NOLOAD_RESOLVER_SOURCE_CODE: &'static str = "
#define _GNU_SOURCE
#include <dlfcn.h>
#include <link.h>

#include <stdio.h>

int main(int argc, char** argv) {
  char* name = argv[1];
  void* handle = dlopen(name, RTLD_LAZY | RTLD_NOLOAD);
  if (handle == NULL) {
    fputs(dlerror(), stderr);
    return 1;
  }
  struct link_map* link_map;
  if (dlinfo(handle, RTLD_DI_LINKMAP, &link_map) != 0) {
    fputs(dlerror(), stderr);
    return 2;
  }
  puts(link_map->l_name);
  dlclose(handle);
}";

/// The hash of a path: what the default hasher of the standard library makes
/// of the bytes of the path, written to it at once.
pub open spec fn spec_path_hash(path: Seq<u8>) -> u64 {
    DefaultHasher::spec_finish(seq![path])
}

/// The hash of a path.
pub fn path_hash(path: &[u8]) -> (r: u64)
    ensures
        r == spec_path_hash(path@),
{
    let mut hasher = DefaultHasher::new();
    hasher.write(path);
    assert(hasher@ =~= seq![path@]);
    hasher.finish()
}

/// The file name of a helper: `magicpak_resolver_`, the name of the variant,
/// and the hashes of the interpreter and of the compiler in decimal, with
/// `_` between them.
pub open spec fn spec_resolver_program_name(
    interp: Seq<u8>,
    cc_path: Seq<u8>,
    name: Seq<u8>,
) -> Seq<u8> {
    "magicpak_resolver_".spec_bytes() + name + "_".spec_bytes() + spec_decimal(
        spec_path_hash(interp) as nat,
    ) + "_".spec_bytes() + spec_decimal(spec_path_hash(cc_path) as nat)
}

/// The path of a helper: its file name in the directory for temporary files.
pub open spec fn spec_resolver_program_path(
    temp_dir: Seq<u8>,
    interp: Seq<u8>,
    cc_path: Seq<u8>,
    name: Seq<u8>,
) -> Seq<u8> {
    spec_join(temp_dir, spec_resolver_program_name(interp, cc_path, name))
}

/// The path under which the helper for an interpreter and a compiler is
/// kept. The same interpreter, compiler and variant give the same path, so a
/// helper that was built once is found again.
pub fn calc_resolver_program_path(temp_dir: &[u8], interp: &[u8], cc_path: &[u8], name: &[u8]) -> (r:
    Vec<u8>)
    ensures
        r@ == spec_resolver_program_path(temp_dir@, interp@, cc_path@, name@),
{
    let mut file: Vec<u8> = Vec::new();
    push_text(&mut file, "magicpak_resolver_");
    file.extend_from_slice(name);
    push_text(&mut file, "_");
    let interp_hash = decimal(path_hash(interp));
    file.extend_from_slice(interp_hash.as_slice());
    push_text(&mut file, "_");
    let cc_path_hash = decimal(path_hash(cc_path));
    file.extend_from_slice(cc_path_hash.as_slice());
    assert(file@ =~= spec_resolver_program_name(interp@, cc_path@, name@));
    join(temp_dir, file.as_slice())
}

/// A text with bytes behind it.
pub open spec fn spec_option(flag: &str, value: Seq<u8>) -> Seq<u8> {
    flag.spec_bytes() + value
}

fn option(flag: &str, value: &[u8]) -> (r: Vec<u8>)
    ensures
        r@ == spec_option(flag, value@),
{
    let mut r = text(flag);
    r.extend_from_slice(value);
    r
}

/// The arguments with which the compiler builds the helper that asks the
/// loader: the source as C, the interpreter as the dynamic linker of the
/// helper, the library of the loader, and the path of the helper.
pub open spec fn spec_generic_build_args(
    program_path: Seq<u8>,
    interp: Seq<u8>,
    source_path: Seq<u8>,
) -> Seq<Seq<u8>> {
    seq![
        "-xc".spec_bytes(),
        source_path,
        spec_option("-Wl,-dynamic-linker,", interp),
        "-ldl".spec_bytes(),
        "-o".spec_bytes(),
        program_path,
    ]
}

/// The arguments with which the compiler builds the helper that is linked
/// against the library `name` itself.
pub open spec fn spec_noload_build_args(
    program_path: Seq<u8>,
    interp: Seq<u8>,
    source_path: Seq<u8>,
    name: Seq<u8>,
) -> Seq<Seq<u8>> {
    seq![
        "-xc".spec_bytes(),
        source_path,
        spec_option("-Wl,-dynamic-linker,", interp),
        "-ldl".spec_bytes(),
        "-Wl,--no-as-needed".spec_bytes(),
        spec_option("-l:", name),
        "-o".spec_bytes(),
        program_path,
    ]
}

/// The arguments for the compiler that builds the helper at `program_path`
/// from the source at `source_path`. The interpreter goes into an option of
/// the compiler as text: one that is not UTF-8 is refused.
pub fn build_generic_resolver_program(program_path: &[u8], interp: &[u8], source_path: &[u8]) -> (r:
    Result<Vec<Vec<u8>>, Error>)
    ensures
        match r {
            Ok(args) => vstd::utf8::valid_utf8(interp@) && views(args@) == spec_generic_build_args(
                program_path@,
                interp@,
                source_path@,
            ),
            Err(e) => !vstd::utf8::valid_utf8(interp@) && e@ == ErrorView::PathEncoding(interp@),
        },
{
    if !is_utf8(interp) {
        return Err(Error::PathEncoding(slice_to_vec(interp)));
    }
    let mut args: Vec<Vec<u8>> = Vec::new();
    args.push(text("-xc"));
    args.push(slice_to_vec(source_path));
    args.push(option("-Wl,-dynamic-linker,", interp));
    args.push(text("-ldl"));
    args.push(text("-o"));
    args.push(slice_to_vec(program_path));
    assert(views(args@) =~= spec_generic_build_args(program_path@, interp@, source_path@));
    Ok(args)
}

/// The arguments for the compiler that builds, at `program_path`, the helper
/// that is linked against the library `name`.
pub fn build_noload_resolver_program(
    program_path: &[u8],
    interp: &[u8],
    source_path: &[u8],
    name: &[u8],
) -> (r: Result<Vec<Vec<u8>>, Error>)
    ensures
        match r {
            Ok(args) => vstd::utf8::valid_utf8(interp@) && views(args@) == spec_noload_build_args(
                program_path@,
                interp@,
                source_path@,
                name@,
            ),
            Err(e) => !vstd::utf8::valid_utf8(interp@) && e@ == ErrorView::PathEncoding(interp@),
        },
{
    if !is_utf8(interp) {
        return Err(Error::PathEncoding(slice_to_vec(interp)));
    }
    let mut args: Vec<Vec<u8>> = Vec::new();
    args.push(text("-xc"));
    args.push(slice_to_vec(source_path));
    args.push(option("-Wl,-dynamic-linker,", interp));
    args.push(text("-ldl"));
    args.push(text("-Wl,--no-as-needed"));
    args.push(option("-l:", name));
    args.push(text("-o"));
    args.push(slice_to_vec(program_path));
    assert(views(args@) =~= spec_noload_build_args(program_path@, interp@, source_path@, name@));
    Ok(args)
}

/// What the compiler is run with before a helper is run: nothing where the
/// helper is there already, the arguments that build it where it is not.
/// The helper that asks the loader is built unless a library is named; for
/// a library that is named, the helper that is linked against it is built.
pub open spec fn spec_prepare(
    exists: bool,
    program_path: Seq<u8>,
    interp: Seq<u8>,
    source_path: Seq<u8>,
    name: Option<Seq<u8>>,
) -> Result<Option<Seq<Seq<u8>>>, ErrorView> {
    if exists {
        Ok(None)
    } else if !vstd::utf8::valid_utf8(interp) {
        Err(ErrorView::PathEncoding(interp))
    } else {
        Ok(
            Some(
                match name {
                    Some(name) => spec_noload_build_args(program_path, interp, source_path, name),
                    None => spec_generic_build_args(program_path, interp, source_path),
                },
            ),
        )
    }
}

/// Says what the compiler is run with before the helper at `program_path`
/// is run, where `exists` tells whether the helper is there. A helper that
/// was built once is used again, and the compiler is not run for it.
pub fn prepare(
    exists: bool,
    program_path: &[u8],
    interp: &[u8],
    source_path: &[u8],
    name: Option<&[u8]>,
) -> (r: Result<Option<Vec<Vec<u8>>>, Error>)
    ensures
        match r {
            Ok(Some(args)) => spec_prepare(exists, program_path@, interp@, source_path@, match name {
                Some(name) => Some(name@),
                None => None,
            }) == Ok::<Option<Seq<Seq<u8>>>, ErrorView>(Some(views(args@))),
            Ok(None) => spec_prepare(exists, program_path@, interp@, source_path@, match name {
                Some(name) => Some(name@),
                None => None,
            }) == Ok::<Option<Seq<Seq<u8>>>, ErrorView>(None),
            Err(e) => spec_prepare(exists, program_path@, interp@, source_path@, match name {
                Some(name) => Some(name@),
                None => None,
            }) == Err::<Option<Seq<Seq<u8>>>, ErrorView>(e@),
        },
{
    if exists {
        return Ok(None);
    }
    let built = match name {
        Some(name) => build_noload_resolver_program(program_path, interp, source_path, name),
        None => build_generic_resolver_program(program_path, interp, source_path),
    };
    match built {
        Ok(args) => Ok(Some(args)),
        Err(e) => Err(e),
    }
}

/// What the run of a compiler on a helper comes to: nothing where it
/// succeeded, the error with what the compiler said where it did not.
pub fn resolver_compilation(success: bool, stderr: &[u8]) -> (r: Result<(), Error>)
    ensures
        match r {
            Ok(_) => success,
            Err(e) => !success && e@ == ErrorView::ResolverCompilation(stderr@),
        },
{
    if success {
        Ok(())
    } else {
        Err(Error::ResolverCompilation(slice_to_vec(stderr)))
    }
}

/// The helper that is to be run for a resolver.
#[derive(Debug)]
pub enum ResolverProgram {
    /// A helper for each library, built for the interpreter `interp` by the
    /// compiler `cc_path` and kept in `temp_dir`.
    NoLoad { interp: Vec<u8>, cc_path: Vec<u8>, temp_dir: Vec<u8> },
    /// One helper for every library.
    Generic { program_path: Vec<u8> },
}

/// What a `ResolverProgram` holds.
pub enum ResolverProgramView {
    NoLoad { interp: Seq<u8>, cc_path: Seq<u8>, temp_dir: Seq<u8> },
    Generic { program_path: Seq<u8> },
}

impl View for ResolverProgram {
    type V = ResolverProgramView;

    open spec fn view(&self) -> ResolverProgramView {
        match *self {
            ResolverProgram::NoLoad { interp, cc_path, temp_dir } => ResolverProgramView::NoLoad {
                interp: interp@,
                cc_path: cc_path@,
                temp_dir: temp_dir@,
            },
            ResolverProgram::Generic { program_path } => ResolverProgramView::Generic {
                program_path: program_path@,
            },
        }
    }
}

/// The path of the helper that a resolver program runs for a library.
pub open spec fn spec_setup_for(program: ResolverProgramView, name: Seq<u8>) -> Seq<u8> {
    match program {
        ResolverProgramView::NoLoad { interp, cc_path, temp_dir } => spec_resolver_program_path(
            temp_dir,
            interp,
            cc_path,
            name,
        ),
        ResolverProgramView::Generic { program_path } => program_path,
    }
}

impl ResolverProgram {
    /// The helper for every library, for an interpreter and a compiler: the
    /// one kept in `temp_dir` under the name of the variant `generic`.
    pub fn new(interp: &[u8], cc_path: &[u8], temp_dir: &[u8]) -> (r: ResolverProgram)
        ensures
            r@ == (ResolverProgramView::Generic {
                program_path: spec_resolver_program_path(
                    temp_dir@,
                    interp@,
                    cc_path@,
                    "generic".spec_bytes(),
                ),
            }),
    {
        let generic = text("generic");
        ResolverProgram::Generic {
            program_path: calc_resolver_program_path(temp_dir, interp, cc_path, generic.as_slice()),
        }
    }

    /// Helpers for each library, for an interpreter and a compiler.
    pub fn new_noload(interp: &[u8], cc_path: &[u8], temp_dir: &[u8]) -> (r: ResolverProgram)
        ensures
            r@ == (ResolverProgramView::NoLoad {
                interp: interp@,
                cc_path: cc_path@,
                temp_dir: temp_dir@,
            }),
    {
        ResolverProgram::NoLoad {
            interp: slice_to_vec(interp),
            cc_path: slice_to_vec(cc_path),
            temp_dir: slice_to_vec(temp_dir),
        }
    }

    /// The path of the helper to run for the library `name`. Where no file
    /// is there yet, the helper has to be built first.
    pub fn setup_for(&self, name: &[u8]) -> (r: Vec<u8>)
        ensures
            r@ == spec_setup_for(self@, name@),
    {
        match self {
            ResolverProgram::NoLoad { interp, cc_path, temp_dir } => calc_resolver_program_path(
                temp_dir.as_slice(),
                interp.as_slice(),
                cc_path.as_slice(),
                name,
            ),
            ResolverProgram::Generic { program_path } => slice_to_vec(program_path.as_slice()),
        }
    }
}

/// The places at which a library is looked for before the loader is asked,
/// in order: the library in each directory of the rpath, unless a runpath is
/// set; in each directory of `LD_LIBRARY_PATH`; in each directory of the
/// runpath.
pub open spec fn spec_candidates(paths: SearchPathsView, name: Seq<u8>) -> Seq<Seq<u8>> {
    spec_joined_all(spec_rpath_in_use(paths), name) + spec_joined_all(
        spec_entries(paths.ld_library_path),
        name,
    ) + spec_joined_all(spec_entries(paths.runpath), name)
}

/// The directories of the rpath that are searched: all of them where no
/// runpath is set, none where one is.
pub open spec fn spec_rpath_in_use(paths: SearchPathsView) -> Seq<Seq<u8>> {
    if paths.runpath is None {
        spec_entries(paths.rpath)
    } else {
        Seq::empty()
    }
}

/// A name joined to each directory of a list.
pub open spec fn spec_joined_all(dirs: Seq<Seq<u8>>, name: Seq<u8>) -> Seq<Seq<u8>> {
    Seq::new(dirs.len(), |i: int| spec_join(dirs[i], name))
}

/// The first of a list of places that exists.
pub open spec fn spec_first_present(places: Seq<Seq<u8>>, present: Seq<bool>) -> Option<Seq<u8>>
    decreases places.len(),
{
    if places.len() == 0 || present.len() == 0 {
        None
    } else if present[0] {
        Some(places[0])
    } else {
        spec_first_present(places.drop_first(), present.drop_first())
    }
}

/// Where a library is found before the loader is asked: the first of its
/// places that exists.
pub open spec fn spec_lookup(paths: SearchPathsView, name: Seq<u8>, present: Seq<bool>) -> Option<
    Seq<u8>,
> {
    spec_first_present(spec_candidates(paths, name), present)
}

/// Whether each of a list of places exists, where `files` are the files that
/// exist.
pub open spec fn spec_present(places: Seq<Seq<u8>>, files: Set<Seq<u8>>) -> Seq<bool> {
    Seq::new(places.len(), |i: int| files.contains(places[i]))
}

/// The outcome of the search in the lists.
#[derive(Debug, PartialEq, Eq)]
pub enum Lookup {
    /// The library lies at this path.
    Found(Vec<u8>),
    /// The library is in none of the lists: the loader is to be asked, by a
    /// run of the helper at this path with the name as its argument.
    AskLoader(Vec<u8>),
}

/// The joined path, where it exists.
pub fn try_joined(path1: &[u8], path2: &[u8], exists: bool) -> (r: Option<Vec<u8>>)
    ensures
        match r {
            Some(joined) => exists && joined@ == spec_join(path1@, path2@),
            None => !exists,
        },
{
    if exists {
        Some(join(path1, path2))
    } else {
        None
    }
}

fn push_joined(out: &mut Vec<Vec<u8>>, dirs: &[Vec<u8>], name: &[u8])
    ensures
        views(final(out)@) == views(old(out)@) + spec_joined_all(views(dirs@), name@),
{
    let ghost before = views(out@);
    let mut i: usize = 0;
    while i < dirs.len()
        invariant
            i <= dirs.len(),
            out@.len() == before.len() + i,
            forall|k: int| 0 <= k < before.len() ==> out@[k]@ == before[k],
            forall|k: int| 0 <= k < i ==> out@[before.len() + k]@ == spec_join(dirs@[k]@, name@),
        decreases dirs.len() - i,
    {
        out.push(join(dirs[i].as_slice(), name));
        i += 1;
    }
    assert(views(out@) =~= before + spec_joined_all(views(dirs@), name@));
}

/// The search for the libraries of one object.
#[derive(Debug)]
pub struct Resolver<'a> {
    search_paths: &'a SearchPaths,
    program: ResolverProgram,
}

impl<'a> Resolver<'a> {
    /// The search paths of the resolver.
    pub closed spec fn paths(&self) -> SearchPathsView {
        self.search_paths@
    }

    /// The helper of the resolver.
    pub closed spec fn program(&self) -> ResolverProgramView {
        self.program@
    }

    /// A resolver for an interpreter, with one helper for every library.
    pub fn new(interp: &[u8], search_paths: &'a SearchPaths, cc_path: &[u8], temp_dir: &[u8]) -> (r:
        Resolver<'a>)
        ensures
            r.paths() == search_paths@,
            r.program() == (ResolverProgramView::Generic {
                program_path: spec_resolver_program_path(
                    temp_dir@,
                    interp@,
                    cc_path@,
                    "generic".spec_bytes(),
                ),
            }),
    {
        Resolver { search_paths, program: ResolverProgram::new(interp, cc_path, temp_dir) }
    }

    /// A resolver for an interpreter, with a helper for each library.
    pub fn new_noload(
        interp: &[u8],
        search_paths: &'a SearchPaths,
        cc_path: &[u8],
        temp_dir: &[u8],
    ) -> (r: Resolver<'a>)
        ensures
            r.paths() == search_paths@,
            r.program() == (ResolverProgramView::NoLoad {
                interp: interp@,
                cc_path: cc_path@,
                temp_dir: temp_dir@,
            }),
    {
        Resolver { search_paths, program: ResolverProgram::new_noload(interp, cc_path, temp_dir) }
    }

    /// The helper of the resolver.
    pub fn resolver_program(&self) -> (r: &ResolverProgram)
        ensures
            r@ == self.program(),
    {
        &self.program
    }

    /// The places at which the library `name` is looked for, in order.
    pub fn candidates(&self, name: &[u8]) -> (r: Vec<Vec<u8>>)
        ensures
            views(r@) == spec_candidates(self.paths(), name@),
    {
        let mut r: Vec<Vec<u8>> = Vec::new();
        assert(views(r@) =~= Seq::<Seq<u8>>::empty());
        if self.search_paths.runpath().is_none() {
            let dirs = self.search_paths.iter_rpaths();
            push_joined(&mut r, dirs.as_slice(), name);
        }
        assert(views(r@) =~= spec_joined_all(spec_rpath_in_use(self.paths()), name@));
        let dirs = self.search_paths.iter_ld_library_paths();
        push_joined(&mut r, dirs.as_slice(), name);
        let dirs = self.search_paths.iter_runpaths();
        push_joined(&mut r, dirs.as_slice(), name);
        r
    }

    /// Looks the library `name` up, where `present` says of each of its
    /// places whether it exists: the first place that exists, or else the
    /// helper by which the loader is asked.
    pub fn lookup(&self, name: &[u8], present: &[bool]) -> (r: Lookup)
        ensures
            match r {
                Lookup::Found(path) => spec_lookup(self.paths(), name@, present@) == Some(path@),
                Lookup::AskLoader(program_path) => spec_lookup(self.paths(), name@, present@)
                    is None && program_path@ == spec_setup_for(self.program(), name@),
            },
    {
        let places = self.candidates(name);
        let mut i: usize = 0;
        assert(views(places@).skip(0) =~= views(places@));
        assert(present@.skip(0) =~= present@);
        while i < places.len() && i < present.len()
            invariant
                i <= places.len(),
                i <= present.len(),
                views(places@) == spec_candidates(self.paths(), name@),
                spec_first_present(views(places@), present@) == spec_first_present(
                    views(places@).skip(i as int),
                    present@.skip(i as int),
                ),
            decreases places.len() - i,
        {
            if present[i] {
                proof {
                    assert(present@.skip(i as int)[0] == present@[i as int]);
                    assert(views(places@).skip(i as int)[0] == places@[i as int]@);
                }
                return Lookup::Found(slice_to_vec(places[i].as_slice()));
            }
            proof {
                assert(views(places@).skip(i as int).drop_first() =~= views(places@).skip(i + 1));
                assert(present@.skip(i as int).drop_first() =~= present@.skip(i + 1));
            }
            i += 1;
        }
        Lookup::AskLoader(self.program.setup_for(name))
    }

    /// What the run of the helper comes to. Where the helper succeeded, the
    /// library lies at the path that it printed, without the blanks around
    /// it; what it printed has to be UTF-8. Where it did not, the library was
    /// not found, and the error holds what the helper said.
    pub fn lookup_rest(success: bool, stdout: &[u8], stderr: &[u8]) -> (r: Result<Vec<u8>, Error>)
        ensures
            r is Ok <==> success && vstd::utf8::valid_utf8(stdout@),
            match r {
                Ok(path) => path@ == spec_trim(stdout@),
                Err(e) => e@ == (if success {
                    ErrorView::Encoding(stdout@)
                } else {
                    ErrorView::SharedLibraryLookup(stderr@)
                }),
            },
    {
        if !success {
            return Err(Error::SharedLibraryLookup(slice_to_vec(stderr)));
        }
        if !is_utf8(stdout) {
            return Err(Error::Encoding(slice_to_vec(stdout)));
        }
        Ok(slice_to_vec(trim(stdout)))
    }
}

/// Where none of the first places exists, the first place that exists is
/// found among the others.
pub proof fn lemma_first_present_skips(places: Seq<Seq<u8>>, present: Seq<bool>, n: int)
    requires
        0 <= n <= places.len(),
        n <= present.len(),
        forall|j: int| 0 <= j < n ==> !present[j],
    ensures
        spec_first_present(places, present) == spec_first_present(
            places.skip(n),
            present.skip(n),
        ),
    decreases n,
{
    if n == 0 {
        assert(places.skip(0) =~= places);
        assert(present.skip(0) =~= present);
    } else {
        lemma_first_present_skips(places.drop_first(), present.drop_first(), n - 1);
        assert(places.drop_first().skip(n - 1) =~= places.skip(n));
        assert(present.drop_first().skip(n - 1) =~= present.skip(n));
    }
}

/// The loader's order, first half: a runpath switches the rpath off. Where
/// a runpath is set and the library is in no directory of `LD_LIBRARY_PATH`
/// and of the runpath, the search in the lists finds nothing, whatever the
/// rpath holds, and the loader is asked.
pub proof fn lemma_runpath_disables_rpath(
    paths: SearchPathsView,
    name: Seq<u8>,
    files: Set<Seq<u8>>,
)
    requires
        paths.runpath is Some,
        forall|i: int|
            0 <= i < spec_entries(paths.ld_library_path).len() ==> !files.contains(
                spec_join(#[trigger] spec_entries(paths.ld_library_path)[i], name),
            ),
        forall|i: int|
            0 <= i < spec_entries(paths.runpath).len() ==> !files.contains(
                spec_join(#[trigger] spec_entries(paths.runpath)[i], name),
            ),
    ensures
        spec_lookup(paths, name, spec_present(spec_candidates(paths, name), files)) is None,
{
    let places = spec_candidates(paths, name);
    let present = spec_present(places, files);
    let env = spec_entries(paths.ld_library_path);
    let run = spec_entries(paths.runpath);
    assert forall|j: int| 0 <= j < places.len() implies !present[j] by {
        if j < env.len() {
            assert(places[j] == spec_join(env[j], name));
        } else {
            assert(places[j] == spec_join(run[j - env.len()], name));
        }
    }
    lemma_first_present_skips(places, present, places.len() as int);
}

/// The loader's order, second half: without a runpath the rpath comes
/// first. Where no runpath is set, the library is found in the first
/// directory of the rpath that holds it, whatever the other lists hold.
pub proof fn lemma_rpath_comes_first(
    paths: SearchPathsView,
    name: Seq<u8>,
    files: Set<Seq<u8>>,
    i: int,
)
    requires
        paths.runpath is None,
        0 <= i < spec_entries(paths.rpath).len(),
        files.contains(spec_join(spec_entries(paths.rpath)[i], name)),
        forall|j: int|
            0 <= j < i ==> !files.contains(spec_join(#[trigger] spec_entries(paths.rpath)[j], name)),
    ensures
        spec_lookup(paths, name, spec_present(spec_candidates(paths, name), files)) == Some(
            spec_join(spec_entries(paths.rpath)[i], name),
        ),
{
    let places = spec_candidates(paths, name);
    let present = spec_present(places, files);
    let rpath = spec_entries(paths.rpath);
    assert forall|j: int| 0 <= j < i implies !present[j] by {
        assert(places[j] == spec_join(rpath[j], name));
    }
    lemma_first_present_skips(places, present, i);
    assert(places.skip(i)[0] == spec_join(rpath[i], name));
    assert(present.skip(i)[0] == present[i]);
}

/// The search paths of an object that was loaded for another.
pub open spec fn spec_inherit(own: SearchPathsView, parent: SearchPathsView) -> SearchPathsView {
    spec_propagate(own, parent.rpath)
}

/// The rpath is inherited. A directory of the rpath of an executable that
/// holds no `$` is searched for the libraries of a library of one of its
/// libraries too, where that one has no runpath of its own.
pub proof fn lemma_rpath_inherited(
    root: SearchPathsView,
    child: SearchPathsView,
    grandchild: SearchPathsView,
    dir: Seq<u8>,
    name: Seq<u8>,
)
    requires
        spec_entries(root.rpath).contains(dir),
        forall|k: int| 0 <= k < dir.len() ==> dir[k] != DOLLAR,
        grandchild.runpath is None,
    ensures
        spec_candidates(
            spec_inherit(grandchild, spec_inherit(child, root)),
            name,
        ).contains(spec_join(dir, name)),
{
    let first = spec_inherit(child, root);
    let second = spec_inherit(grandchild, first);
    lemma_expand_without_token(dir, child.origin, child.platform);
    lemma_expand_without_token(dir, grandchild.origin, grandchild.platform);
    let i = choose|i: int| 0 <= i < spec_entries(root.rpath).len() && spec_entries(root.rpath)[i]
        == dir;
    let own = spec_entries(child.rpath);
    let inherited = spec_expand_all(spec_entries(root.rpath), child.origin, child.platform);
    assert(inherited[i] == dir);
    assert(spec_entries(first.rpath) == own + inherited);
    let j = own.len() + i;
    assert(spec_entries(first.rpath)[j] == dir);
    let own2 = spec_entries(grandchild.rpath);
    let inherited2 = spec_expand_all(
        spec_entries(first.rpath),
        grandchild.origin,
        grandchild.platform,
    );
    assert(inherited2[j] == dir);
    assert(spec_entries(second.rpath)[own2.len() + j] == dir);
    let places = spec_candidates(second, name);
    assert(places[own2.len() + j] == spec_join(dir, name));
}

} // verus!
