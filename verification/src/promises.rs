//! What the module promises, in terms of what goes in and what comes out: nonces, entries, queued
//! messages, payments and events.
pub mod batches;
pub mod calls;
pub mod lanes;
pub mod payments;
pub mod receival;
