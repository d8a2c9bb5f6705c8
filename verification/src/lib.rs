//! A scope-controlled structural diff engine for knowledge-base entities.
//!
//! The crate compares two snapshots of an entity (labels, descriptions,
//! aliases, statements and site-links), gates every difference through a
//! caller-supplied permission scope, and renders the resulting patch in the
//! wire form that a generic "edit entity" write action consumes.

pub mod apply;
pub mod compare;
pub mod entity_diff;
pub mod laws;
pub mod model;
pub mod text;
pub mod patch;
pub mod render;
pub mod scope;
