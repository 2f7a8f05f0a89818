//! Counts and percentages shown as insights.

use vstd::prelude::*;

verus! {

/// A label with its number of job applications and two percentages.
#[derive(Clone, Debug)]
pub struct CountAndPercentage {
    /// The status or sprint name.
    pub label: String,
    /// The number of job applications.
    pub count: i64,
    /// The count against the current sprint's total, e.g. "50.00%".
    pub sprint_percentage: String,
    /// The count against all job applications, e.g. "40.00%".
    pub overall_percentage: String,
}

} // verus!
