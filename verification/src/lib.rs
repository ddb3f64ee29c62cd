//! Verified core of the web (npm) ecosystem adapter: registry URL policy,
//! integrity checking, cache bookkeeping, lockfile scoping and the small
//! parsers and policies that decide what an install may do.

pub mod adapter;
pub mod assoc;
pub mod advisory;
pub mod audit;
pub mod audit_range;
pub mod cache;
pub mod cache_metadata;
pub mod cache_prune;
pub mod cache_daemon;
pub mod env_config;
pub mod install;
pub mod lifecycle;
pub mod lockfile;
pub mod manifest;
pub mod metadata_cache;
pub mod native;
pub mod order;
pub mod paths;
pub mod profile;
pub mod provider;
pub mod registry_config;
pub mod resolution_cache;
pub mod stubs;
pub mod supply_chain;
pub mod text;
pub mod types;
pub mod update;
pub mod wasm;
