//! The rows of the five tables and the records that create or change them.

pub mod insight;
pub mod job;
pub mod sprint;
pub mod stage;
pub mod status;
pub mod title;
