//! The directory lists that the dynamic loader searches, and the expansion of
//! the dynamic string tokens `$ORIGIN`, `$LIB` and `$PLATFORM` in them.

use crate::base::text::{
    ascii, ascii_bytes, clone_list, is_text, lemma_run_len_all, lemma_run_len_bound,
    lemma_run_len_is, run_len, views, CLOSE_BRACE, DOLLAR, OPEN_BRACE, SLASH,
};
use crate::base::{Error, ErrorView};
use vstd::prelude::*;
use vstd::slice::*;
use vstd::string::*;

verus! {

/// Whether a platform has 64-bit library directories: `Some(true)` for the
/// 64-bit platforms, `Some(false)` for the 32-bit ones, `None` for a platform
/// that is not known.
pub open spec fn spec_is_64bit(platform: Seq<u8>) -> Option<bool> {
    if platform == ascii_bytes("x86_64"@) || platform == ascii_bytes("amd64"@) || platform
        == ascii_bytes("aarch64"@) {
        Some(true)
    } else if platform == ascii_bytes("i386"@) || platform == ascii_bytes("i686"@) || platform
        == ascii_bytes("x86"@) || platform == ascii_bytes("arm"@) {
        Some(false)
    } else {
        None
    }
}

/// The name of the library directory on a platform: `lib64` on a 64-bit
/// platform, `lib` on a 32-bit or an unknown one.
pub open spec fn spec_lib_directory(platform: Seq<u8>) -> Seq<u8> {
    if spec_is_64bit(platform) == Some(true) {
        ascii_bytes("lib64"@)
    } else {
        ascii_bytes("lib"@)
    }
}

/// What a token stands for. `ORIGIN`, `LIB` and `PLATFORM` are replaced; any
/// other token stays as it was written, behind its `$`.
pub open spec fn spec_substitute(token: Seq<u8>, origin: Seq<u8>, platform: Seq<u8>) -> Seq<u8> {
    if token == ascii_bytes("ORIGIN"@) {
        origin
    } else if token == ascii_bytes("LIB"@) {
        spec_lib_directory(platform)
    } else if token == ascii_bytes("PLATFORM"@) {
        platform
    } else {
        seq![DOLLAR] + token
    }
}

/// Whether a byte ends a token that is written without braces.
pub open spec fn ends_token(b: u8) -> bool {
    b == DOLLAR || b == SLASH
}

/// Whether a byte closes a token that is written in braces.
pub open spec fn closes_brace(b: u8) -> bool {
    b == CLOSE_BRACE
}

/// The expansion of a search path.
///
/// A byte other than `$` stands for itself. `$` starts a token. Behind `${`
/// the token runs to the next `}`; where no `}` follows, the rest of the path
/// stands for itself. Otherwise the token runs to the next `$` or `/`, or to
/// the end of the path. The token is replaced by what it stands for.
pub open spec fn spec_expand_tokens(input: Seq<u8>, origin: Seq<u8>, platform: Seq<u8>) -> Seq<u8>
    decreases input.len(),
    via spec_expand_tokens_decreases
{
    if input.len() == 0 {
        input
    } else if input[0] != DOLLAR {
        seq![input[0]] + spec_expand_tokens(input.drop_first(), origin, platform)
    } else if input.len() >= 2 && input[1] == OPEN_BRACE {
        let body = input.skip(2);
        let n = run_len(body, |b: u8| closes_brace(b));
        if n < body.len() {
            spec_substitute(body.take(n as int), origin, platform) + spec_expand_tokens(
                body.skip(n as int + 1),
                origin,
                platform,
            )
        } else {
            input
        }
    } else {
        let rest = input.skip(1);
        let n = run_len(rest, |b: u8| ends_token(b));
        spec_substitute(rest.take(n as int), origin, platform) + spec_expand_tokens(
            rest.skip(n as int),
            origin,
            platform,
        )
    }
}

#[via_fn]
proof fn spec_expand_tokens_decreases(input: Seq<u8>, origin: Seq<u8>, platform: Seq<u8>) {
    if input.len() != 0 && input[0] == DOLLAR {
        lemma_run_len_bound(input.skip(1), |b: u8| ends_token(b));
        lemma_run_len_bound(input.skip(2), |b: u8| closes_brace(b));
    }
}

/// Whether a platform has 64-bit library directories.
pub fn is_64bit(platform: &[u8]) -> (r: Option<bool>)
    ensures
        r == spec_is_64bit(platform@),
{
    proof {
        reveal_strlit("x86_64");
        reveal_strlit("amd64");
        reveal_strlit("aarch64");
        reveal_strlit("i386");
        reveal_strlit("i686");
        reveal_strlit("x86");
        reveal_strlit("arm");
    }
    if is_text(platform, "x86_64") || is_text(platform, "amd64") || is_text(platform, "aarch64") {
        Some(true)
    } else if is_text(platform, "i386") || is_text(platform, "i686") || is_text(platform, "x86")
        || is_text(platform, "arm") {
        Some(false)
    } else {
        None
    }
}

/// Replaces one token by what it stands for.
pub fn substitute(token: &[u8], origin: &[u8], platform: &[u8]) -> (r: Vec<u8>)
    ensures
        r@ == spec_substitute(token@, origin@, platform@),
{
    proof {
        reveal_strlit("ORIGIN");
        reveal_strlit("LIB");
        reveal_strlit("PLATFORM");
        reveal_strlit("lib64");
        reveal_strlit("lib");
    }
    if is_text(token, "ORIGIN") {
        slice_to_vec(origin)
    } else if is_text(token, "LIB") {
        match is_64bit(platform) {
            Some(true) => ascii("lib64"),
            _ => ascii("lib"),
        }
    } else if is_text(token, "PLATFORM") {
        slice_to_vec(platform)
    } else {
        let mut r: Vec<u8> = Vec::new();
        r.push(DOLLAR);
        r.extend_from_slice(token);
        assert(r@ =~= seq![DOLLAR] + token@);
        r
    }
}

/// Expands the dynamic string tokens of a search path.
pub fn expand_tokens(input: &[u8], origin: &[u8], platform: &[u8]) -> (r: Vec<u8>)
    ensures
        r@ == spec_expand_tokens(input@, origin@, platform@),
{
    let len = input.len();
    let mut out: Vec<u8> = Vec::new();
    let mut i: usize = 0;
    assert(input@.skip(0) =~= input@);
    while i < len
        invariant
            len == input.len(),
            i <= len,
            spec_expand_tokens(input@, origin@, platform@) == out@ + spec_expand_tokens(
                input@.skip(i as int),
                origin@,
                platform@,
            ),
        decreases len - i,
    {
        let ghost here = input@.skip(i as int);
        let ghost before = out@;
        let b = input[i];
        if b != DOLLAR {
            out.push(b);
            proof {
                assert(here.drop_first() =~= input@.skip(i + 1));
                assert(out@ =~= before + seq![here[0]]);
                assert(before + (seq![here[0]] + spec_expand_tokens(
                    here.drop_first(),
                    origin@,
                    platform@,
                )) =~= out@ + spec_expand_tokens(input@.skip(i + 1), origin@, platform@));
            }
            i += 1;
        } else if i + 1 < len && input[i + 1] == OPEN_BRACE {
            let start = i + 2;
            let mut j = start;
            while j < len && input[j] != CLOSE_BRACE
                invariant
                    len == input.len(),
                    start <= j <= len,
                    forall|k: int| start <= k < j ==> !closes_brace(#[trigger] input@[k]),
                decreases len - j,
            {
                j += 1;
            }
            let ghost body = here.skip(2);
            proof {
                assert(body =~= input@.skip(start as int));
                assert forall|k: int| 0 <= k < j - start implies !(|b: u8| closes_brace(b))(
                    #[trigger] body[k],
                ) by {
                    assert(body[k] == input@[start + k]);
                }
                lemma_run_len_is(body, |b: u8| closes_brace(b), j - start);
            }
            if j < len {
                let piece = substitute(slice_subrange(input, start, j), origin, platform);
                out.extend_from_slice(piece.as_slice());
                proof {
                    assert(body.take(j - start) =~= input@.subrange(start as int, j as int));
                    assert(body.skip(j - start + 1) =~= input@.skip(j + 1));
                    assert(before + (piece@ + spec_expand_tokens(
                        input@.skip(j + 1),
                        origin@,
                        platform@,
                    )) =~= out@ + spec_expand_tokens(input@.skip(j + 1), origin@, platform@));
                }
                i = j + 1;
            } else {
                out.extend_from_slice(slice_subrange(input, i, len));
                proof {
                    assert(input@.subrange(i as int, len as int) =~= here);
                    assert(input@.skip(len as int) =~= Seq::<u8>::empty());
                    assert(before + here =~= out@ + spec_expand_tokens(
                        input@.skip(len as int),
                        origin@,
                        platform@,
                    ));
                }
                i = len;
            }
        } else {
            let start = i + 1;
            let mut j = start;
            while j < len && input[j] != DOLLAR && input[j] != SLASH
                invariant
                    len == input.len(),
                    start <= j <= len,
                    forall|k: int| start <= k < j ==> !ends_token(#[trigger] input@[k]),
                decreases len - j,
            {
                j += 1;
            }
            let ghost rest = here.skip(1);
            proof {
                assert(rest =~= input@.skip(start as int));
                assert forall|k: int| 0 <= k < j - start implies !(|b: u8| ends_token(b))(
                    #[trigger] rest[k],
                ) by {
                    assert(rest[k] == input@[start + k]);
                }
                lemma_run_len_is(rest, |b: u8| ends_token(b), j - start);
            }
            let piece = substitute(slice_subrange(input, start, j), origin, platform);
            out.extend_from_slice(piece.as_slice());
            proof {
                assert(rest.take(j - start) =~= input@.subrange(start as int, j as int));
                assert(rest.skip(j - start) =~= input@.skip(j as int));
                assert(before + (piece@ + spec_expand_tokens(
                    input@.skip(j as int),
                    origin@,
                    platform@,
                )) =~= out@ + spec_expand_tokens(input@.skip(j as int), origin@, platform@));
            }
            i = j;
        }
    }
    proof {
        assert(input@.skip(len as int) =~= Seq::<u8>::empty());
        assert(out@ + Seq::<u8>::empty() =~= out@);
    }
    out
}

/// A path without `$` expands to itself.
pub proof fn lemma_expand_without_token(input: Seq<u8>, origin: Seq<u8>, platform: Seq<u8>)
    requires
        forall|k: int| 0 <= k < input.len() ==> input[k] != DOLLAR,
    ensures
        spec_expand_tokens(input, origin, platform) == input,
    decreases input.len(),
{
    if input.len() != 0 {
        let rest = input.drop_first();
        assert forall|k: int| 0 <= k < rest.len() implies rest[k] != DOLLAR by {
            assert(rest[k] == input[k + 1]);
        }
        lemma_expand_without_token(rest, origin, platform);
        assert(seq![input[0]] + rest =~= input);
    }
}

/// A token written as `$NAME` at the end of a path expands to what the name
/// stands for.
pub proof fn lemma_expand_plain_token(token: Seq<u8>, origin: Seq<u8>, platform: Seq<u8>)
    requires
        forall|k: int| 0 <= k < token.len() ==> !ends_token(#[trigger] token[k]),
        token.len() == 0 || token[0] != OPEN_BRACE,
    ensures
        spec_expand_tokens(seq![DOLLAR] + token, origin, platform) == spec_substitute(
            token,
            origin,
            platform,
        ),
{
    let input = seq![DOLLAR] + token;
    let rest = input.skip(1);
    assert(rest =~= token);
    assert forall|k: int| 0 <= k < rest.len() implies !(|b: u8| ends_token(b))(
        #[trigger] rest[k],
    ) by {}
    lemma_run_len_all(rest, |b: u8| ends_token(b));
    assert(rest.take(rest.len() as int) =~= token);
    assert(rest.skip(rest.len() as int) =~= Seq::<u8>::empty());
    assert(input[0] == DOLLAR);
    assert(input.len() >= 2 ==> input[1] == token[0]);
    assert(spec_expand_tokens(Seq::<u8>::empty(), origin, platform) =~= Seq::<u8>::empty());
    assert(spec_substitute(token, origin, platform) + Seq::<u8>::empty() =~= spec_substitute(
        token,
        origin,
        platform,
    ));
}

/// A token written as `${NAME}` at the end of a path expands to what the
/// name stands for.
pub proof fn lemma_expand_braced_token(token: Seq<u8>, origin: Seq<u8>, platform: Seq<u8>)
    requires
        forall|k: int| 0 <= k < token.len() ==> !closes_brace(#[trigger] token[k]),
    ensures
        spec_expand_tokens(
            seq![DOLLAR, OPEN_BRACE] + token + seq![CLOSE_BRACE],
            origin,
            platform,
        ) == spec_substitute(token, origin, platform),
{
    let input = seq![DOLLAR, OPEN_BRACE] + token + seq![CLOSE_BRACE];
    let body = input.skip(2);
    assert(body =~= token + seq![CLOSE_BRACE]);
    assert forall|k: int| 0 <= k < token.len() implies !(|b: u8| closes_brace(b))(
        #[trigger] body[k],
    ) by {
        assert(body[k] == token[k]);
    }
    lemma_run_len_is(body, |b: u8| closes_brace(b), token.len() as int);
    assert(body.take(token.len() as int) =~= token);
    assert(body.skip(token.len() as int + 1) =~= Seq::<u8>::empty());
    assert(input[0] == DOLLAR && input[1] == OPEN_BRACE);
    assert(spec_expand_tokens(Seq::<u8>::empty(), origin, platform) =~= Seq::<u8>::empty());
    assert(spec_substitute(token, origin, platform) + Seq::<u8>::empty() =~= spec_substitute(
        token,
        origin,
        platform,
    ));
}

/// A token whose name is none of `ORIGIN`, `LIB` and `PLATFORM` stays as it
/// was written.
pub proof fn lemma_expand_unknown_token(token: Seq<u8>, origin: Seq<u8>, platform: Seq<u8>)
    requires
        forall|k: int| 0 <= k < token.len() ==> !ends_token(#[trigger] token[k]),
        token.len() == 0 || token[0] != OPEN_BRACE,
        token != ascii_bytes("ORIGIN"@),
        token != ascii_bytes("LIB"@),
        token != ascii_bytes("PLATFORM"@),
    ensures
        spec_expand_tokens(seq![DOLLAR] + token, origin, platform) == seq![DOLLAR] + token,
{
    lemma_expand_plain_token(token, origin, platform);
}

/// The three tokens, plain and in braces, expand as the loader has them:
/// `ORIGIN` to the origin, `PLATFORM` to the platform, `LIB` to the library
/// directory of the platform.
pub proof fn lemma_expand_known_tokens(origin: Seq<u8>, platform: Seq<u8>)
    ensures
        spec_expand_tokens(ascii_bytes("$ORIGIN"@), origin, platform) == origin,
        spec_expand_tokens(ascii_bytes("${ORIGIN}"@), origin, platform) == origin,
        spec_expand_tokens(ascii_bytes("$PLATFORM"@), origin, platform) == platform,
        spec_expand_tokens(ascii_bytes("${PLATFORM}"@), origin, platform) == platform,
        spec_expand_tokens(ascii_bytes("$LIB"@), origin, platform) == spec_lib_directory(platform),
        spec_expand_tokens(ascii_bytes("${LIB}"@), origin, platform) == spec_lib_directory(
            platform,
        ),
{
    reveal_strlit("ORIGIN");
    reveal_strlit("$ORIGIN");
    reveal_strlit("${ORIGIN}");
    reveal_strlit("PLATFORM");
    reveal_strlit("$PLATFORM");
    reveal_strlit("${PLATFORM}");
    reveal_strlit("LIB");
    reveal_strlit("$LIB");
    reveal_strlit("${LIB}");
    let o = ascii_bytes("ORIGIN"@);
    let p = ascii_bytes("PLATFORM"@);
    let l = ascii_bytes("LIB"@);
    assert(ascii_bytes("$ORIGIN"@) =~= seq![DOLLAR] + o);
    assert(ascii_bytes("${ORIGIN}"@) =~= seq![DOLLAR, OPEN_BRACE] + o + seq![CLOSE_BRACE]);
    assert(ascii_bytes("$PLATFORM"@) =~= seq![DOLLAR] + p);
    assert(ascii_bytes("${PLATFORM}"@) =~= seq![DOLLAR, OPEN_BRACE] + p + seq![CLOSE_BRACE]);
    assert(ascii_bytes("$LIB"@) =~= seq![DOLLAR] + l);
    assert(ascii_bytes("${LIB}"@) =~= seq![DOLLAR, OPEN_BRACE] + l + seq![CLOSE_BRACE]);
    lemma_expand_plain_token(o, origin, platform);
    lemma_expand_braced_token(o, origin, platform);
    lemma_expand_plain_token(p, origin, platform);
    lemma_expand_braced_token(p, origin, platform);
    lemma_expand_plain_token(l, origin, platform);
    lemma_expand_braced_token(l, origin, platform);
    assert(o != l && o != p && l != p) by {
        assert(o.len() == 6 && l.len() == 3 && p.len() == 8);
    }
}

/// The expansion of every path of a list.
pub open spec fn spec_expand_all(paths: Seq<Seq<u8>>, origin: Seq<u8>, platform: Seq<u8>) -> Seq<
    Seq<u8>,
> {
    Seq::new(paths.len(), |i: int| spec_expand_tokens(paths[i], origin, platform))
}

/// A search list after more paths were appended to it: the list as it was,
/// or an empty one where it was not set, followed by the expansions of the
/// new paths. The list is set from then on.
pub open spec fn spec_append(
    list: Option<Seq<Seq<u8>>>,
    other: Seq<Seq<u8>>,
    origin: Seq<u8>,
    platform: Seq<u8>,
) -> Option<Seq<Seq<u8>>> {
    Some(spec_entries(list) + spec_expand_all(other, origin, platform))
}

/// The entries of a search list; a list that is not set has none.
pub open spec fn spec_entries(list: Option<Seq<Seq<u8>>>) -> Seq<Seq<u8>> {
    match list {
        Some(entries) => entries,
        None => Seq::empty(),
    }
}

/// What a search list holds, which may be unset.
pub open spec fn option_views(list: Option<Vec<Vec<u8>>>) -> Option<Seq<Seq<u8>>> {
    match list {
        Some(entries) => Some(views(entries@)),
        None => None,
    }
}

/// The search lists of one ELF object.
#[derive(Debug)]
pub struct SearchPaths {
    rpath: Option<Vec<Vec<u8>>>,
    runpath: Option<Vec<Vec<u8>>>,
    ld_library_path: Option<Vec<Vec<u8>>>,
    platform: Vec<u8>,
    origin: Vec<u8>,
}

/// What a `SearchPaths` holds: the three lists, each of which may be unset,
/// and the two values that tokens expand to.
pub struct SearchPathsView {
    pub rpath: Option<Seq<Seq<u8>>>,
    pub runpath: Option<Seq<Seq<u8>>>,
    pub ld_library_path: Option<Seq<Seq<u8>>>,
    pub platform: Seq<u8>,
    pub origin: Seq<u8>,
}

impl View for SearchPaths {
    type V = SearchPathsView;

    closed spec fn view(&self) -> SearchPathsView {
        SearchPathsView {
            rpath: option_views(self.rpath),
            runpath: option_views(self.runpath),
            ld_library_path: option_views(self.ld_library_path),
            platform: self.platform@,
            origin: self.origin@,
        }
    }
}

/// Reads the platform of the running process from its auxiliary vector, with
/// `crt0stack::Reader`: the text of the first `Platform` entry, or nothing
/// where the vector has none. What comes back depends on the machine, so
/// nothing is claimed of it.
#[verifier::external_body]
pub(crate) fn auxv_platform() -> Option<Vec<u8>> {
    crt0stack::Reader::from_environ().done().find_map(
        |entry| match entry {
            crt0stack::Entry::Platform(platform) => Some(platform.as_bytes().to_vec()),
            _ => None,
        },
    )
}

fn append(paths: &mut Option<Vec<Vec<u8>>>, other: &[Vec<u8>], origin: &[u8], platform: &[u8])
    ensures
        option_views(*final(paths)) == spec_append(
            option_views(*old(paths)),
            views(other@),
            origin@,
            platform@,
        ),
{
    let mut inner: Vec<Vec<u8>> = match paths.take() {
        Some(entries) => entries,
        None => Vec::new(),
    };
    let ghost before = views(inner@);
    assert(before == spec_entries(option_views(*old(paths))));
    let mut i: usize = 0;
    while i < other.len()
        invariant
            i <= other.len(),
            inner.len() == before.len() + i,
            forall|k: int| 0 <= k < before.len() ==> inner@[k]@ == before[k],
            forall|k: int|
                0 <= k < i ==> inner@[before.len() + k]@ == spec_expand_tokens(
                    other@[k]@,
                    origin@,
                    platform@,
                ),
        decreases other.len() - i,
    {
        inner.push(expand_tokens(other[i].as_slice(), origin, platform));
        i += 1;
    }
    assert(views(inner@) =~= before + spec_expand_all(views(other@), origin@, platform@));
    *paths = Some(inner);
}

impl SearchPaths {
    /// The search paths of an object in the directory `origin`, with no list
    /// set, on the platform of the running process. Fails where the
    /// platform cannot be read.
    pub fn new(origin: Vec<u8>) -> (r: Result<SearchPaths, Error>)
        ensures
            match r {
                Ok(paths) => paths@.origin == origin@ && paths@.rpath is None && paths@.runpath
                    is None && paths@.ld_library_path is None,
                Err(e) => e@ == ErrorView::MissingAuxv,
            },
    {
        SearchPaths::with_platform(origin, auxv_platform())
    }

    /// The search paths of an object in the directory `origin`, with no list
    /// set, on the given platform. Fails where no platform is given.
    pub fn with_platform(origin: Vec<u8>, platform: Option<Vec<u8>>) -> (r: Result<
        SearchPaths,
        Error,
    >)
        ensures
            match platform {
                Some(platform) => r is Ok && r->Ok_0@ == (SearchPathsView {
                    rpath: None,
                    runpath: None,
                    ld_library_path: None,
                    platform: platform@,
                    origin: origin@,
                }),
                None => r is Err && r->Err_0@ == ErrorView::MissingAuxv,
            },
    {
        match platform {
            Some(platform) => Ok(
                SearchPaths { rpath: None, runpath: None, ld_library_path: None, platform, origin },
            ),
            None => Err(Error::MissingAuxv),
        }
    }

    /// The rpath list, where it is set.
    pub fn rpath(&self) -> (r: Option<&Vec<Vec<u8>>>)
        ensures
            option_views(match r {
                Some(entries) => Some(*entries),
                None => None,
            }) == self@.rpath,
    {
        self.rpath.as_ref()
    }

    /// The runpath list, where it is set.
    pub fn runpath(&self) -> (r: Option<&Vec<Vec<u8>>>)
        ensures
            option_views(match r {
                Some(entries) => Some(*entries),
                None => None,
            }) == self@.runpath,
    {
        self.runpath.as_ref()
    }

    /// The directory of the object, which `$ORIGIN` expands to.
    pub fn origin(&self) -> (r: &[u8])
        ensures
            r@ == self@.origin,
    {
        self.origin.as_slice()
    }

    /// The platform, which `$PLATFORM` expands to.
    pub fn platform(&self) -> (r: &[u8])
        ensures
            r@ == self@.platform,
    {
        self.platform.as_slice()
    }

    /// The entries of the rpath list, in search order; none where it is not
    /// set.
    pub fn iter_rpaths(&self) -> (r: Vec<Vec<u8>>)
        ensures
            views(r@) == spec_entries(self@.rpath),
    {
        match &self.rpath {
            Some(entries) => clone_list(entries.as_slice()),
            None => {
                let r: Vec<Vec<u8>> = Vec::new();
                assert(views(r@) =~= Seq::<Seq<u8>>::empty());
                r
            },
        }
    }

    /// The entries of the runpath list, in search order; none where it is
    /// not set.
    pub fn iter_runpaths(&self) -> (r: Vec<Vec<u8>>)
        ensures
            views(r@) == spec_entries(self@.runpath),
    {
        match &self.runpath {
            Some(entries) => clone_list(entries.as_slice()),
            None => {
                let r: Vec<Vec<u8>> = Vec::new();
                assert(views(r@) =~= Seq::<Seq<u8>>::empty());
                r
            },
        }
    }

    /// The entries of the list taken from `LD_LIBRARY_PATH`, in search
    /// order; none where it is not set.
    pub fn iter_ld_library_paths(&self) -> (r: Vec<Vec<u8>>)
        ensures
            views(r@) == spec_entries(self@.ld_library_path),
    {
        match &self.ld_library_path {
            Some(entries) => clone_list(entries.as_slice()),
            None => {
                let r: Vec<Vec<u8>> = Vec::new();
                assert(views(r@) =~= Seq::<Seq<u8>>::empty());
                r
            },
        }
    }

    /// Appends paths to the rpath list, each with its tokens expanded.
    pub fn append_rpath(&mut self, rpath: &[Vec<u8>])
        ensures
            final(self)@ == (SearchPathsView {
                rpath: spec_append(
                    old(self)@.rpath,
                    views(rpath@),
                    old(self)@.origin,
                    old(self)@.platform,
                ),
                ..old(self)@
            }),
    {
        append(&mut self.rpath, rpath, self.origin.as_slice(), self.platform.as_slice());
    }

    /// Appends paths to the runpath list, each with its tokens expanded.
    pub fn append_runpath(&mut self, runpath: &[Vec<u8>])
        ensures
            final(self)@ == (SearchPathsView {
                runpath: spec_append(
                    old(self)@.runpath,
                    views(runpath@),
                    old(self)@.origin,
                    old(self)@.platform,
                ),
                ..old(self)@
            }),
    {
        append(&mut self.runpath, runpath, self.origin.as_slice(), self.platform.as_slice());
    }

    /// Appends paths to the list taken from `LD_LIBRARY_PATH`, each with its
    /// tokens expanded.
    pub fn append_ld_library_path(&mut self, ld_library_path: &[Vec<u8>])
        ensures
            final(self)@ == (SearchPathsView {
                ld_library_path: spec_append(
                    old(self)@.ld_library_path,
                    views(ld_library_path@),
                    old(self)@.origin,
                    old(self)@.platform,
                ),
                ..old(self)@
            }),
    {
        append(
            &mut self.ld_library_path,
            ld_library_path,
            self.origin.as_slice(),
            self.platform.as_slice(),
        );
    }
}

/// The search paths of an object that was loaded for another: its own, with
/// the rpath of the other, where that has one, appended to its rpath.
pub open spec fn spec_propagate(
    own: SearchPathsView,
    rpaths: Option<Seq<Seq<u8>>>,
) -> SearchPathsView {
    match rpaths {
        Some(entries) => SearchPathsView {
            rpath: spec_append(own.rpath, entries, own.origin, own.platform),
            ..own
        },
        None => own,
    }
}

fn clone_option_list(list: &Option<Vec<Vec<u8>>>) -> (r: Option<Vec<Vec<u8>>>)
    ensures
        option_views(r) == option_views(*list),
{
    match list {
        Some(entries) => Some(clone_list(entries.as_slice())),
        None => None,
    }
}

impl Clone for SearchPaths {
    fn clone(&self) -> (r: SearchPaths)
        ensures
            r@ == self@,
    {
        SearchPaths {
            rpath: clone_option_list(&self.rpath),
            runpath: clone_option_list(&self.runpath),
            ld_library_path: clone_option_list(&self.ld_library_path),
            platform: slice_to_vec(self.platform.as_slice()),
            origin: slice_to_vec(self.origin.as_slice()),
        }
    }
}

} // verus!
