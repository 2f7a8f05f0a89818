//! Application statuses.

use vstd::prelude::*;

verus! {

/// A new status row.
#[derive(Debug)]
pub struct NewStatus<'a> {
    /// The status label.
    pub name: &'a str,
}

/// A status row of the store.
#[derive(Clone, Debug)]
pub struct QueriedStatus {
    /// The row identifier.
    pub id: i32,
    /// The status label.
    pub name: String,
}

impl QueriedStatus {
    /// A copy of this row.
    pub fn duplicate(&self) -> (r: QueriedStatus)
        ensures
            r == *self,
    {
        QueriedStatus { id: self.id, name: self.name.clone() }
    }
}

} // verus!
