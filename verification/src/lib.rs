//! Route mounting and API document composition.
//!
//! Feature modules declare their endpoints independently, as route groups.
//! This crate merges the groups into one dispatch table and, from the same
//! groups, composes one document that describes the table:
//!
//! - [`registry`] builds the dispatch table, refuses a method and path that
//!   is mounted already, and resolves requests: literal segments outrank
//!   parameters, and among equals the first registered wins.
//! - [`composer`] merges the documentation of the groups under the
//!   configured metadata and tag taxonomy.
//! - [`publisher`] holds the composed document at a fixed path.
//! - [`service`] runs the three in order, and [`mount`] does all of it in
//!   one call.
//! - [`config`] holds the static configuration of the Revolt API.
//!
//! Every function is verified against its contract; the contracts are
//! stated over the views of the data in [`model`], [`path`] and
//! [`document`].

pub mod composer;
pub mod config;
pub mod document;
pub mod error;
pub mod model;
pub mod path;
pub mod publisher;
pub mod registry;
pub mod service;
pub mod text;

pub use crate::config::custom_openapi_spec;
pub use crate::service::mount;
