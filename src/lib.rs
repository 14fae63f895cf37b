//! Extraction of an entity's interface (name, generics, ports) from HDL source
//! text, and rendering of a test harness from it.
//!
//! - `normalize`: line comments removed, white space collapsed.
//! - `scan`: sections located by keyword and balanced parentheses; their
//!   interiors split into clauses.
//! - `decl`: clauses read as ports and generics; the entity's name.
//! - `entity`: the whole declaration assembled into a `VhdlEntity`.
//! - `resolve`, `harness`: generic values substituted into ranges; the harness
//!   fragments rendered and placed into a template.
//! - `baseline`: a starting configuration, and a skeleton declaration.
//! - `laws`, `split_laws`: properties of the parser proved over its specifications.

pub mod baseline;
pub mod config;
pub mod decl;
pub mod entity;
pub mod harness;
pub mod laws;
pub mod model;
pub mod normalize;
pub mod resolve;
pub mod scan;
pub mod split_laws;
pub mod text;
