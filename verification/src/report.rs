//! What is shown of the search of one file.

use crate::scan::{LineBudget, Occurrence};
use crate::search::ScanResult;
use vstd::prelude::*;

verus! {

/// What is shown of the search of one file in which something was found.
#[derive(Debug)]
pub struct Report {
    /// The number of occurrences found.
    pub count: usize,
    /// The occurrences to list one by one; none where only the count is
    /// asked for.
    pub listing: Vec<Occurrence>,
    /// The lines that may still be scanned, or `None` where there is no
    /// limit.
    pub lines_left: Option<usize>,
}

/// Makes the report of the search of one file. A file without an occurrence
/// gets none. Otherwise the report holds the number of occurrences, the
/// occurrences themselves unless only the count is asked for, and what is
/// left of the budget.
pub fn report(result: ScanResult, only_count: bool, budget: &LineBudget) -> (shown: Option<Report>)
    ensures
        result.occurrences@.len() == 0 <==> shown is None,
        shown matches Some(made) ==> {
            &&& made.count == result.occurrences@.len()
            &&& made.lines_left == budget.remaining
            &&& made.listing@ == if only_count {
                Seq::<Occurrence>::empty()
            } else {
                result.occurrences@
            }
        },
{
    let count: usize = result.occurrences.len();
    if count == 0 {
        return None;
    }
    let listing: Vec<Occurrence> = if only_count {
        Vec::new()
    } else {
        result.occurrences
    };
    Some(Report { count, listing, lines_left: budget.remaining })
}

} // verus!
