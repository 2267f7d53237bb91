//! The usage line of the command-line front end. Reading the actual
//! arguments is the front end's work; limiting a name to three bytes
//! is shared with the packet formats.

use vstd::prelude::*;

verus! {

/// The usage text printed when the arguments are missing.
pub fn help() -> (r: String)
    ensures
        r@ == "Usage: ./routingtable <port> <name (max 3 chars)>"@,
{
    "Usage: ./routingtable <port> <name (max 3 chars)>".to_owned()
}

} // verus!
