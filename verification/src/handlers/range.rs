use vstd::prelude::*;

use super::flags::{range_choice, range_flag_ok};

verus! {

/// Keeps the chapters that `-r`/`--range` selects, when given.
pub fn range<'a>(urls: Vec<&'a str>, args: &Vec<String>) -> (r: Vec<&'a str>)
    requires
        range_flag_ok(args@, urls@.len()),
    ensures
        r@ == match range_choice(args@) {
            (Some(a), Some(b)) => urls@.subrange(a as int, b as int),
            (Some(a), None) => urls@.skip(a as int),
            _ => urls@,
        },
{
    super::flags::range(urls, args)
}

} // verus!
