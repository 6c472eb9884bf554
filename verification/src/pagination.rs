use vstd::prelude::*;

verus! {

/// A page number as requested by the caller, clamped to be 1-based:
/// any page at or below 0 is treated as page 1.
pub open spec fn spec_clamp_page(page: i64) -> u64 {
    if page <= 0 {
        1u64
    } else {
        page as u64
    }
}

/// Clamps a 1-based page number: page <= 0 becomes 1.
pub fn clamp_page(page: i64) -> (r: u64)
    ensures
        r == spec_clamp_page(page),
{
    if page <= 0 {
        1
    } else {
        page as u64
    }
}

/// Offset of the first item of a page: `(page - 1) * page_size`,
/// after clamping the page to be 1-based.
pub fn page_offset(page: i64, page_size: u64) -> (r: u64)
    requires
        (spec_clamp_page(page) - 1) * page_size <= u64::MAX,
    ensures
        r == (spec_clamp_page(page) - 1) * page_size,
{
    let p = clamp_page(page);
    (p - 1) * page_size
}

/// Total number of pages shown for `count` items: `count / page_size + 1`.
///
/// For counts that divide evenly this over-counts by one full page
/// (20 items at 10 per page yield 3); that integer-division formula is
/// the tool's documented behaviour and is kept exactly.
pub fn total_pages(count: u64, page_size: u64) -> (r: u64)
    requires
        page_size > 0,
        count / page_size < u64::MAX,
    ensures
        r == count / page_size + 1,
{
    count / page_size + 1
}

} // verus!
