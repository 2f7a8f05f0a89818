//! One repository per table; each borrows the store and owns write access to its
//! table. The sprint counters change only through the job repository.

pub mod job;
pub mod sprint;
pub mod stage;
pub mod statuses;
pub mod title;
