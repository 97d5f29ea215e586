//! Extraction of a project's development-time dependency declarations from
//! its manifest: a polymorphic declaration type that accepts either a bare
//! version string or a table of attributes, preserving unrecognized keys
//! verbatim, plus the routine that filters the table and anchors relative
//! paths at the manifest's directory.

pub mod decl;
pub mod dependencies;
pub mod order;
pub mod shape;
pub mod text;

pub use decl::{Dependency, Error};
pub use dependencies::{get, try_get, DepMap};
