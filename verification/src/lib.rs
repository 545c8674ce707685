//! A small library for storing, searching and displaying "scriptlets":
//! named, described command-line invocations.
//!
//! The core is an explicitly constructed [`store::Store`] value holding the
//! scriptlet table, the tool table, the many-to-many links between them and
//! a full-text index kept in lockstep with the scriptlet table. A normalizer
//! turns a raw invocation into searchable, storable form.

pub mod color;
pub mod config;
pub mod data_types;
pub mod display;
pub mod error;
pub mod laws;
pub mod normalize;
pub mod search;
pub mod store;
pub mod theme;
pub mod text;

pub use error::DocuError;
