//! A local tracker for job applications: sprints, jobs, statuses, titles and
//! interview stages held in a relational store whose invariants are proved.

pub mod cli;
pub mod errors;
pub mod export;
pub mod insights;
pub mod laws;
pub mod models;
pub mod query;
pub mod repositories;
pub mod store;
pub mod style;
pub mod text;
