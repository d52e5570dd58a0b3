//! A permission-gated hierarchical asset store.
//!
//! Folders and files form a tree. Each node is gated by per-user
//! read / modify / edit capabilities. Metadata lives in a relational
//! database and content in a plain directory tree; the functions of this
//! crate decide, step by step, what has to happen to both so that they
//! never drift apart.
//!
//! The crate does no input or output of its own. A mutation is a saga
//! ([`saga`]): a step function ([`assets`]) that is handed the answer to its
//! last request and hands out the next one. Whoever drives it talks to the
//! database and the disk. [`store`] is such a driver over rows and a disk in
//! memory ([`tables`], [`disk`]), with faults that can be planted.
//!
//! What is proved:
//!
//! - every step function does exactly what its table says ([`assets`]);
//! - the validator, the permission gate, the path resolver and the listings
//!   compute what their definitions say ([`names`], [`perms`], [`paths`],
//!   [`listing`]);
//! - run against the store in memory, every mutation changes exactly what
//!   it is meant to change ([`effects`]), fails without a trace where it
//!   fails early ([`laws`]), and leaves rows and disk in agreement unless it
//!   ends in a partial failure ([`mirror`], [`soundness`]).
pub mod assets;
pub mod auth;
pub mod cors;
pub mod disk;
pub mod effects;
pub mod kept;
pub mod laws;
pub mod listing;
pub mod mirror;
pub mod models;
pub mod names;
pub mod owed;
pub mod paths;
pub mod perms;
pub mod saga;
pub mod soundness;
pub mod store;
pub mod tables;
pub mod tree;
