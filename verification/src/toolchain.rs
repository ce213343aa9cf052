//! Locating a toolchain installation from configuration values: the pure
//! path composition behind sysroot discovery. Reading the environment and
//! invoking external tools stay outside the library.

use vstd::prelude::*;
use vstd::string::StringExecFns;

verus! {

/// The composed toolchain path, when both parts are known.
pub open spec fn spec_toolchain_path(home: Option<Seq<char>>, toolchain: Option<Seq<char>>) -> Option<
    Seq<char>,
> {
    if home is Some && toolchain is Some {
        Some(home->0 + "/toolchains/"@ + toolchain->0)
    } else {
        None
    }
}

/// Composes the path of a toolchain below an installation home: the home,
/// the `toolchains` directory, and the toolchain's name. Yields a path
/// exactly when both the home and the toolchain name are known.
pub fn toolchain_path(home: Option<String>, toolchain: Option<String>) -> (r: Option<String>)
    ensures
        r is Some <==> (home is Some && toolchain is Some),
        r is Some ==> r->0@ == spec_toolchain_path(
            Some(home->0@),
            Some(toolchain->0@),
        )->0,
{
    match (home, toolchain) {
        (Some(home), Some(toolchain)) => {
            let mut path = home;
            path.append("/toolchains/");
            path.append(toolchain.as_str());
            Some(path)
        },
        _ => None,
    }
}

} // verus!
