use vstd::prelude::*;

use crate::listing::{last_part_lengths, last_part_measures, last_parts_fit, layout, listing_matches, ListEntry};

verus! {

/// Lays out the listing of chapters on a terminal `width` columns wide: each
/// chapter is shown by its last `/`-part, and counts its bytes plus 3 columns
/// when working out how many chapters fit on a line.
pub fn list(urls: Vec<&str>, width: usize) -> (r: Vec<ListEntry>)
    requires
        urls@.len() > 0,
        last_parts_fit(urls@, 3),
    ensures
        listing_matches(r@, urls@, last_part_measures(urls@), 3, width as nat),
{
    let ms = last_part_lengths(&urls);
    layout(&urls, &ms, 3, width)
}

} // verus!
