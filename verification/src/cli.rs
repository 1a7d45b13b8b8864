//! The command line surface, as plain data.

use vstd::prelude::*;

verus! {

/// What the server is started with: which database engine to use.
pub struct Args {
    pub database: String,
}

} // verus!
