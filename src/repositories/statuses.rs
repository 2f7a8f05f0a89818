//! The status repository.

use vstd::prelude::*;

use crate::errors::FettersError;
use crate::models::status::QueriedStatus;
use crate::store::{seed_post, Database};

verus! {

/// Reads and writes the `statuses` table.
pub struct StatusRepository<'a> {
    /// The store.
    pub connection: &'a mut Database,
}

impl<'a> StatusRepository<'a> {
    /// All statuses.
    pub fn get_all_statuses(&mut self) -> (r: Result<Vec<QueriedStatus>, FettersError>)
        ensures
            r matches Ok(v) && v@ == old(self).connection@.statuses,
            final(self).connection@ == old(self).connection@,
    {
        Ok(self.connection.all_statuses())
    }

    /// Stores each of the seven default statuses unless it exists.
    pub fn seed_statuses(&mut self) -> (r: Result<(), FettersError>)
        requires
            old(self).connection.well_formed(),
        ensures
            final(self).connection.well_formed(),
            seed_post(old(self).connection@, final(self).connection@, r),
    {
        self.connection.seed_statuses()
    }
}

} // verus!
