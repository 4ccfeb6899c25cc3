//! The jail: a directory of its own in which a bundle is tried out.
//!
//! The bundle is emitted into the jail, a BusyBox is installed there, and
//! the test command is run with the jail as its root. The directory is made
//! and removed by the caller; where things go in it is decided here.

use crate::base::path::{join, spec_join};
use crate::base::text::{text, views};
use crate::base::{Error, ErrorView};
use vstd::prelude::*;
use vstd::slice::*;
use vstd::string::*;

verus! {

/// The permissions of the BusyBox in a jail: read and run for all, write
/// for the owner.
pub const BUSYBOX_MODE: u32 = 0o755;

/// A directory in which a bundle is tried out.
#[derive(Debug, PartialEq, Eq)]
pub struct Jail {
    dir: Vec<u8>,
}

impl View for Jail {
    type V = Seq<u8>;

    closed spec fn view(&self) -> Seq<u8> {
        self.dir@
    }
}

/// How a BusyBox gets into a jail.
#[derive(Debug, PartialEq, Eq)]
pub struct BusyBoxInstall {
    /// The directory of the jail for programs, which is made where it does
    /// not exist.
    pub bindir: Vec<u8>,
    /// The host path from which the BusyBox is copied.
    pub from: Vec<u8>,
    /// The path in the jail to which the BusyBox is copied, and at which it
    /// is then run.
    pub busybox_jail_path: Vec<u8>,
    /// The permissions that the copy is given.
    pub mode: u32,
    /// The arguments with which the copy is run, so that it installs its
    /// programs.
    pub args: Vec<Vec<u8>>,
}

/// What a `BusyBoxInstall` holds.
pub struct BusyBoxInstallView {
    pub bindir: Seq<u8>,
    pub from: Seq<u8>,
    pub busybox_jail_path: Seq<u8>,
    pub mode: u32,
    pub args: Seq<Seq<u8>>,
}

impl View for BusyBoxInstall {
    type V = BusyBoxInstallView;

    open spec fn view(&self) -> BusyBoxInstallView {
        BusyBoxInstallView {
            bindir: self.bindir@,
            from: self.from@,
            busybox_jail_path: self.busybox_jail_path@,
            mode: self.mode,
            args: views(self.args@),
        }
    }
}

/// The directory for programs in a jail: `bin/` under the jail.
pub open spec fn spec_bindir(jail: Seq<u8>) -> Seq<u8> {
    spec_join(jail, "bin/".spec_bytes())
}

/// How the BusyBox at a host path gets into a jail: it is copied to
/// `busybox` in the directory for programs, made runnable, and run with
/// `--install` and that directory.
pub open spec fn spec_install_busybox(jail: Seq<u8>, busybox_path: Seq<u8>) -> BusyBoxInstallView {
    BusyBoxInstallView {
        bindir: spec_bindir(jail),
        from: busybox_path,
        busybox_jail_path: spec_join(spec_bindir(jail), "busybox".spec_bytes()),
        mode: BUSYBOX_MODE,
        args: seq!["--install".spec_bytes(), spec_bindir(jail)],
    }
}

impl Jail {
    /// The jail in the directory `dir`.
    pub fn new(dir: Vec<u8>) -> (r: Jail)
        ensures
            r@ == dir@,
    {
        Jail { dir }
    }

    /// The directory of the jail.
    pub fn path(&self) -> (r: &[u8])
        ensures
            r@ == self@,
    {
        self.dir.as_slice()
    }

    /// How the BusyBox at `busybox_path` gets into the jail.
    pub fn install_busybox(&self, busybox_path: &[u8]) -> (r: BusyBoxInstall)
        ensures
            r@ == spec_install_busybox(self@, busybox_path@),
    {
        let bin = text("bin/");
        let bindir = join(self.dir.as_slice(), bin.as_slice());
        let busybox = text("busybox");
        let busybox_jail_path = join(bindir.as_slice(), busybox.as_slice());
        let mut args: Vec<Vec<u8>> = Vec::new();
        args.push(text("--install"));
        args.push(slice_to_vec(bindir.as_slice()));
        assert(views(args@) =~= seq!["--install".spec_bytes(), spec_bindir(self@)]);
        BusyBoxInstall {
            bindir,
            from: slice_to_vec(busybox_path),
            busybox_jail_path,
            mode: BUSYBOX_MODE,
            args,
        }
    }

    /// What the run of the BusyBox in the jail comes to: nothing where it
    /// succeeded, the error with what it said where it did not.
    pub fn busybox_installed(success: bool, stderr: &[u8]) -> (r: Result<(), Error>)
        ensures
            match r {
                Ok(_) => success,
                Err(e) => !success && e@ == ErrorView::BusyBoxInstall(stderr@),
            },
    {
        if success {
            Ok(())
        } else {
            Err(Error::BusyBoxInstall(slice_to_vec(stderr)))
        }
    }
}

} // verus!
