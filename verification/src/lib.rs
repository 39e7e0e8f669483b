//! Job-control core of an interactive shell: tracks pipelines of OS
//! processes as jobs, applies asynchronous status notifications, and
//! answers the lookup and reporting queries behind `jobs`, `fg`, `bg`
//! and `kill`.

pub mod job;
pub mod table;
pub mod report;
pub mod laws;
