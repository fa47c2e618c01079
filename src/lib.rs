//! Ingestion core of a bot that polls a ranked image listing, resolves
//! parent/child image groups, deduplicates them against a persistent store
//! and plans their delivery to a chat destination.
pub mod config;
pub mod cycle;
pub mod delivery;
pub mod dom;
pub mod forward;
pub mod group;
pub mod number;
pub mod page;
pub mod store;
pub mod text;
