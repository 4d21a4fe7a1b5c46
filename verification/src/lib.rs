//! A job-assignment core: clients are grouped into priority tiers, the
//! scheduler picks the least-loaded eligible client of the lowest tier,
//! a configured default client serves as fallback, and submissions are
//! committed to a store at most once per job path.

pub mod client;
pub mod snapshot;
pub mod job;
pub mod tiers;
pub mod select;
pub mod store;
pub mod submit;
pub mod laws;
