use vstd::prelude::*;

verus! {

/// The options of the `test` command: none.
pub struct Args {}

} // verus!
