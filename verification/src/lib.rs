//! Chronological ordering and reporting of recorded workout routes.

pub mod batch;
pub mod error;
pub mod fault;
pub mod instant;
pub mod order;
pub mod report;
pub mod run;
pub mod schedule;
pub mod track;
pub mod vecs;
