//! A catalog of named flag records, loaded once from a directory and queried
//! before, during and after that load.
//!
//! The library holds the decisions: which name is loaded by whom, what a
//! query answers on each poll, and which waiters are woken after each step.
//! Reading files, suspending tasks and waking them is left to the caller,
//! which hands the library plain values and performs the actions it returns.

pub mod names;
pub mod progress;
pub mod store;
pub mod registry;
pub mod manager;
pub mod laws;
