use vstd::prelude::*;

use crate::listing::{layout, listing_matches, part_lengths, part_measures, parts_fit, ListEntry};

verus! {

/// Lays out the listing of chapters on a terminal `width` columns wide: each
/// chapter is shown by its last `/`-part, and counts the bytes of its
/// `/`-part number `name_index` plus 5 columns when working out how many
/// chapters fit on a line.
pub fn list(urls: Vec<&str>, name_index: usize, width: usize) -> (r: Vec<ListEntry>)
    requires
        urls@.len() > 0,
        parts_fit(urls@, name_index as int, 5),
    ensures
        listing_matches(r@, urls@, part_measures(urls@, name_index as int), 5, width as nat),
{
    let ms = part_lengths(&urls, name_index);
    layout(&urls, &ms, 5, width)
}

} // verus!
