//! Reading the command line of the host program.

use vstd::prelude::*;
use crate::error::{Error, Result, INVALID};

verus! {

/// What a missing argument is answered with.
pub open spec fn missing_argument_message() -> Seq<char> {
    "missing argument; use ribosome --help"@
}

/// The command-line argument at `index`.
pub fn argument(args: &[String], index: usize) -> (r: Result<&str>)
    ensures
        index < args@.len() ==> (r matches Ok(a) && a@ == args@[index as int]@),
        index >= args@.len() ==> (r matches Err(e) && e.code == INVALID && e.message@ == missing_argument_message()),
{
    proof {
        reveal_strlit("missing argument; use ribosome --help");
    }
    if index < args.len() {
        Ok(args[index].as_str())
    } else {
        Err(Error::invalid("missing argument; use ribosome --help"))
    }
}

} // verus!
