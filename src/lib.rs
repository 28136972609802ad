//! A read-copy-update hash table: readers look values up inside read
//! sessions that never block, one writer at a time mutates the table, and
//! entries that a writer unlinks are reclaimed only once every read session
//! that could still reference them has ended.

pub mod bench;
pub mod error;
pub mod hashing;
pub mod laws;
pub mod outcome;
pub mod params;
pub mod registration;
pub mod table;

pub use bench::ThreadData;
pub use error::RcuError;
pub use outcome::delete_outcome;
pub use params::{power_of_two, validate_params};
pub use registration::ThreadRegistration;
pub use table::{RcuHt, RcuHtRead, RcuHtThread, RcuHtWriter, RcuHtWriterGuard};
