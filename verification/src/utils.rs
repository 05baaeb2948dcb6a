//! Input-path validation.

use vstd::prelude::*;
use vstd::string::StringExecFns;
use vstd::string::StringSliceAdditionalSpecFns;

verus! {

/// Relies on `std::path::Path::is_file`: whether the path points at an
/// existing regular file.  The answer depends on the machine's filesystem,
/// so nothing is promised about it.
#[verifier::external_body]
fn path_points_to_file(pathname: &str) -> (r: bool) {
    std::path::PathBuf::from(pathname).is_file()
}

/// Accepts a pathname when it is `-` (read from standard input) or names
/// an existing regular file; otherwise reports the offending path.  Only
/// the `-` case is independent of the filesystem, so only it is promised.
pub fn is_file(pathname: &str) -> (r: Result<(), String>)
    ensures
        pathname.spec_bytes() =~= seq![45u8] ==> r is Ok,
        r is Err ==> r->Err_0@ == "Input file "@ + pathname@ + " is invalid"@,
{
    let bytes = pathname.as_bytes();
    if bytes.len() == 1 && bytes[0] == 45 {
        proof {
            assert(pathname.spec_bytes() =~= seq![45u8]);
        }
        return Ok(());
    }
    if path_points_to_file(pathname) {
        Ok(())
    } else {
        Err(String::from_str("Input file ").concat(pathname).concat(" is invalid"))
    }
}

} // verus!
