//! The decisions behind the launcher's commands: library records, Steam account
//! detection, Store caching and launching.
pub mod steam;
pub mod library;
pub mod stats;
pub mod store;
pub mod launcher;
