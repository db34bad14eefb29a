//! Browsing Left 4 Dead 2 `.vpk` addon files: the VPK v1 directory reader,
//! the KeyValues reader for mission files, and the state and decisions of the
//! terminal interfaces.
pub mod app;
pub mod mission;
pub mod search;
pub mod text;
pub mod vpk;

use vstd::prelude::*;
use vstd::string::StrSliceExecFns;

verus! {

/// Whether a file name has the extension `vpk`: it ends with `.vpk` after at
/// least one other character (a name that is only `.vpk` has no extension).
pub open spec fn is_vpk_name(name: Seq<char>) -> bool {
    let n = name.len() as int;
    &&& n > 4
    &&& name[n - 4] == '.'
    &&& name[n - 3] == 'v'
    &&& name[n - 2] == 'p'
    &&& name[n - 1] == 'k'
}

/// Whether the file `name` is listed as an addon (see [`is_vpk_name`]).
pub fn is_vpk_file_name(name: &str) -> (r: bool)
    ensures
        r == is_vpk_name(name@),
{
    let n = name.unicode_len();
    n > 4 && name.get_char(n - 4) == '.' && name.get_char(n - 3) == 'v' && name.get_char(n - 2)
        == 'p' && name.get_char(n - 1) == 'k'
}

} // verus!
