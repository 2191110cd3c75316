use vstd::prelude::*;

use crate::globals::with_leading_dot;

verus! {

/// Compress a manga into a CBZ file.
pub struct Args {
    /// Force overwrite of existing files.
    pub force: bool,
    /// Format of the output file (cbz, zip, etc.).
    pub format: String,
}

/// The options that the compression runs with: the same `force`, and the
/// format with a leading `.`.
pub fn command(args: &Args) -> (r: (bool, String))
    ensures
        r.0 == args.force,
        r.1@ == with_leading_dot(args.format@),
{
    crate::utils::compress::compress_options(args.force, args.format.as_str())
}

} // verus!
