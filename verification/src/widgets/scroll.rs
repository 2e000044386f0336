//! Scroll arithmetic of the list views.
use vstd::prelude::*;

verus! {

/// The largest first-visible index: no offset when everything fits.
pub fn max_offset(total_items: usize, visible_items: usize) -> (r: usize)
    ensures
        r == (if total_items > visible_items {
            total_items - visible_items
        } else {
            0
        }),
{
    total_items.saturating_sub(visible_items)
}

/// The number of scrollbar positions: one per possible offset, so that the
/// last offset is the last position.
pub fn position_count(total_items: usize, visible_items: usize) -> (r: usize)
    requires
        max_offset_of(total_items, visible_items) < usize::MAX,
    ensures
        r == max_offset_of(total_items, visible_items) + 1,
{
    max_offset(total_items, visible_items) + 1
}

pub open spec fn max_offset_of(total_items: usize, visible_items: usize) -> int {
    if total_items > visible_items {
        total_items - visible_items
    } else {
        0
    }
}

} // verus!
