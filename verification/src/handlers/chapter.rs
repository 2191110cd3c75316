use vstd::prelude::*;

use super::flags::{chapter_choice, chapter_flag_ok};

verus! {

/// Keeps only the chapter that `-c`/`--chapter` selects, when given.
pub fn chapter<'a>(urls: Vec<&'a str>, args: &Vec<String>) -> (r: Vec<&'a str>)
    requires
        chapter_flag_ok(args@, urls@.len()),
    ensures
        r@ == match chapter_choice(args@) {
            Some(n) => seq![urls@[n as int]],
            None => urls@,
        },
{
    super::flags::chapter(urls, args)
}

} // verus!
