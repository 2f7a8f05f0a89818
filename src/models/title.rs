//! Job titles.

use vstd::prelude::*;

verus! {

/// A new title row.
#[derive(Debug)]
pub struct NewTitle<'a> {
    /// The title's name.
    pub name: &'a str,
}

/// A title row of the store.
#[derive(Clone, Debug)]
pub struct QueriedTitle {
    /// The row identifier.
    pub id: i32,
    /// The title's name.
    pub name: String,
}

impl QueriedTitle {
    /// A copy of this row.
    pub fn duplicate(&self) -> (r: QueriedTitle)
        ensures
            r == *self,
    {
        QueriedTitle { id: self.id, name: self.name.clone() }
    }
}

} // verus!
