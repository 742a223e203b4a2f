//! Permanent, human-readable identities for coding-agent sessions.

pub mod activity;
pub mod annotation;
pub mod assignment;
pub mod commands;
pub mod concurrency;
pub mod discovery;
pub mod error;
pub mod guarantees;
pub mod herdr;
pub mod host;
pub mod identity;
pub mod json;
pub mod laws;
pub mod lookup;
pub mod manual;
pub mod order;
pub mod outcomes;
pub mod prime;
pub mod pruning;
pub mod realm;
pub mod registration;
pub mod registry;
pub mod text;
pub mod text_map;
pub mod timestamp;
pub mod validation;
pub mod world;
