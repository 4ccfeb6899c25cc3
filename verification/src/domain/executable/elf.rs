//! What the bundler reads of an ELF object, and the parser that reads it.

use crate::base::text::views;
use vstd::prelude::*;

verus! {

/// The tag of a dynamic entry that holds an rpath.
pub const DT_RPATH: u64 = 15;

/// The tag of a dynamic entry that holds a runpath.
pub const DT_RUNPATH: u64 = 29;

/// An entry of the dynamic section, with what the dynamic string table
/// holds at its value.
#[derive(Debug, Clone, PartialEq, Eq)]
pub struct DynEntry {
    pub tag: u64,
    pub val: u64,
    /// `None` where the value lies outside the table; the text at the
    /// value, or the reason for which the bytes there are no text.
    pub text: Option<Result<Vec<u8>, Vec<u8>>>,
}

/// What a `DynEntry` holds.
pub struct DynEntryView {
    pub tag: u64,
    pub val: u64,
    pub text: Option<Result<Seq<u8>, Seq<u8>>>,
}

impl View for DynEntry {
    type V = DynEntryView;

    open spec fn view(&self) -> DynEntryView {
        DynEntryView {
            tag: self.tag,
            val: self.val,
            text: match self.text {
                None => None,
                Some(Ok(content)) => Some(Ok(content@)),
                Some(Err(reason)) => Some(Err(reason@)),
            },
        }
    }
}

/// What the bundler reads of an ELF object: its interpreter, the names of
/// the libraries it needs, and the entries of its dynamic section.
#[derive(Debug, Clone, PartialEq, Eq)]
pub struct ElfImage {
    pub interpreter: Option<Vec<u8>>,
    pub libraries: Vec<Vec<u8>>,
    pub dyns: Vec<DynEntry>,
}

/// What an `ElfImage` holds.
pub struct ElfImageView {
    pub interpreter: Option<Seq<u8>>,
    pub libraries: Seq<Seq<u8>>,
    pub dyns: Seq<DynEntryView>,
}

/// What a list of dynamic entries holds.
pub open spec fn dyn_views(dyns: Seq<DynEntry>) -> Seq<DynEntryView> {
    Seq::new(dyns.len(), |i: int| dyns[i]@)
}

impl View for ElfImage {
    type V = ElfImageView;

    open spec fn view(&self) -> ElfImageView {
        ElfImageView {
            interpreter: match self.interpreter {
                Some(path) => Some(path@),
                None => None,
            },
            libraries: views(self.libraries@),
            dyns: dyn_views(self.dyns@),
        }
    }
}

/// Why a file is no ELF object that can be read.
#[derive(Debug, Clone, PartialEq, Eq)]
pub enum ElfFault {
    /// A part of the object is malformed; the reason.
    Malformed(Vec<u8>),
    /// The file starts with a number that no object format has.
    BadMagic(u64),
    /// Bytes of the object could not be read; the reason.
    Scroll(Vec<u8>),
    /// The file could not be read; the reason.
    IO(Vec<u8>),
}

/// What an `ElfFault` holds.
pub enum ElfFaultView {
    Malformed(Seq<u8>),
    BadMagic(u64),
    Scroll(Seq<u8>),
    IO(Seq<u8>),
}

impl View for ElfFault {
    type V = ElfFaultView;

    open spec fn view(&self) -> ElfFaultView {
        match *self {
            ElfFault::Malformed(reason) => ElfFaultView::Malformed(reason@),
            ElfFault::BadMagic(magic) => ElfFaultView::BadMagic(magic),
            ElfFault::Scroll(reason) => ElfFaultView::Scroll(reason@),
            ElfFault::IO(reason) => ElfFaultView::IO(reason@),
        }
    }
}

/// What `goblin` makes of the bytes of a file: the image of the ELF object
/// that they hold, or the reason for which it does not accept them.
pub uninterp spec fn elf_parse(bytes: Seq<u8>) -> Result<ElfImageView, ElfFaultView>;

/// Parses an ELF object with `goblin::elf::Elf::parse` and takes from the
/// result its interpreter, its libraries and its dynamic entries, each entry
/// with what `Strtab::get` of the dynamic string table gives at the entry's
/// value. Nothing comes back where the parser refuses the bytes. On the same
/// bytes the parser gives the same result, which is named.
#[verifier::external_body]
#[allow(deprecated)]
pub(crate) fn goblin_image(bytes: &[u8]) -> (r: Option<ElfImage>)
    ensures
        match r {
            Some(image) => elf_parse(bytes@) == Ok::<ElfImageView, ElfFaultView>(image@),
            None => elf_parse(bytes@) is Err,
        },
{
    let owned = |s: &str| s.as_bytes().to_vec();
    goblin::elf::Elf::parse(bytes).ok().map(|elf| ElfImage {
        interpreter: elf.interpreter.map(owned),
        libraries: elf.libraries.iter().map(|s| owned(s)).collect(),
        dyns: elf.dynamic.iter().flat_map(|d| &d.dyns).map(|d| DynEntry {
            tag: d.d_tag,
            val: d.d_val,
            text: elf.dynstrtab.get(d.d_val as usize).map(|r| r.map(owned).map_err(|e| e.to_string().into_bytes())),
        }).collect(),
    })
}

/// Parses an ELF object with `goblin::elf::Elf::parse` and, where the parser
/// refuses the bytes, tells the variants of its error apart and takes what
/// each holds, as text where it is none. Nothing comes back where the parser
/// accepts the bytes. The result is the one that is named.
#[verifier::external_body]
pub(crate) fn goblin_refusal(bytes: &[u8]) -> (r: Option<ElfFault>)
    ensures
        match r {
            Some(fault) => elf_parse(bytes@) == Err::<ElfImageView, ElfFaultView>(fault@),
            None => elf_parse(bytes@) is Ok,
        },
{
    goblin::elf::Elf::parse(bytes).err().map(|e| match e {
        goblin::error::Error::Malformed(reason) => ElfFault::Malformed(reason.into_bytes()),
        goblin::error::Error::BadMagic(magic) => ElfFault::BadMagic(magic),
        goblin::error::Error::Scroll(e) => ElfFault::Scroll(e.to_string().into_bytes()),
        goblin::error::Error::IO(e) => ElfFault::IO(e.to_string().into_bytes()),
    })
}

} // verus!
