//! Putting the compressed executable in the place of the executable.

use crate::base::Error;
use crate::domain::executable::elf::ElfImage;
use crate::domain::executable::{option_view, spec_load_impl, Executable, Host};
use vstd::prelude::*;

verus! {

/// Puts in the place of an executable the one that the compressor made of
/// it, which lies at the temporary path `result_path`. Where that cannot be
/// loaded, the executable stays as it is.
pub fn compress_exexcutable(
    exe: &mut Executable,
    result_path: Vec<u8>,
    image: ElfImage,
    default_interpreter: Option<Vec<u8>>,
    host: &Host,
) -> (r: Result<(), Error>)
    ensures
        match spec_load_impl(
            result_path@,
            true,
            old(exe)@.name,
            image@,
            option_view(default_interpreter),
            option_view(host.platform),
            option_view(host.ld_library_path),
            None,
        ) {
            Ok(compressed) => r is Ok && final(exe)@ == compressed,
            Err(e) => r is Err && r->Err_0@ == e && final(exe)@ == old(exe)@,
        },
{
    match exe.compressed(result_path, image, default_interpreter, host) {
        Ok(compressed) => {
            *exe = compressed;
            Ok(())
        },
        Err(e) => Err(e),
    }
}

} // verus!
