//! Progress of a page-by-page database copy.

use vstd::prelude::*;

verus! {

/// Share of the copy that is done, in percent, as a mathematical value:
/// `100 - remaining * 100 / pagecount`, with the quotient rounded toward
/// zero, and 0 while the page count is not positive.
pub open spec fn percent_done(remaining: int, pagecount: int) -> int {
    if pagecount > 0 {
        if remaining >= 0 {
            100 - (remaining * 100) / pagecount
        } else {
            100 + ((-remaining) * 100) / pagecount
        }
    } else {
        0
    }
}

/// Percentage of a backup that has been copied, from the number of pages
/// still to copy and the total number of pages.
pub fn backup_percentage(remaining: i32, pagecount: i32) -> (percentage: i64)
    ensures
        percentage == percent_done(remaining as int, pagecount as int),
{
    if pagecount > 0 {
        let left: i64 = remaining as i64;
        let total: i64 = pagecount as i64;
        100 - (left * 100) / total
    } else {
        0
    }
}

} // verus!
