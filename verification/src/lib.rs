//! A fixed-size bit vector served as a shared resource: bits can be flipped
//! one at a time or in all-or-nothing batches, and the whole vector can be
//! read as a consistent snapshot.

mod bits;
pub mod config;
pub mod state;
pub mod store;
