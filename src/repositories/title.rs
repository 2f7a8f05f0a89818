//! The title repository.

use vstd::prelude::*;

use crate::errors::{FettersError, QueryFailure};
use crate::models::title::{NewTitle, QueriedTitle};
use crate::store::{has_title, title_intern_post, Database};

verus! {

/// Reads and writes the `titles` table.
pub struct TitleRepository<'a> {
    /// The store.
    pub connection: &'a mut Database,
}

impl<'a> TitleRepository<'a> {
    /// Adds a title, or returns the one of that name when it exists.
    pub fn add_title(&mut self, new_title: NewTitle) -> (r: Result<QueriedTitle, FettersError>)
        requires
            old(self).connection.well_formed(),
        ensures
            final(self).connection.well_formed(),
            title_intern_post(old(self).connection@, final(self).connection@, new_title.name, r),
    {
        self.connection.intern_title(new_title.name)
    }

    /// The title with this identifier; `NotFound` when there is none.
    pub fn get_title(&mut self, title_id: i32) -> (r: Result<QueriedTitle, FettersError>)
        ensures
            final(self).connection@ == old(self).connection@,
            has_title(old(self).connection@, title_id) <==> r is Ok,
            r matches Ok(row) ==> old(self).connection@.titles.contains(row) && row.id == title_id,
            r is Err ==> r matches Err(FettersError::QueryError(QueryFailure::NotFound)),
    {
        self.connection.title_by_id(title_id)
    }

    /// All titles.
    pub fn get_all_titles(&mut self) -> (r: Result<Vec<QueriedTitle>, FettersError>)
        ensures
            r matches Ok(v) && v@ == old(self).connection@.titles,
            final(self).connection@ == old(self).connection@,
    {
        Ok(self.connection.all_titles())
    }
}

} // verus!
