//! Extraction and classification of the named types that appear in function
//! signatures of a resolved compilation unit.
//!
//! A semantic front end (outside this library) resolves a unit and hands over,
//! for every top-level function, its parameter types, return type and generic
//! trait bounds as type-node trees. This library walks those trees,
//! canonicalizes each included definition reference to a stable string label,
//! classifies labels as native or foreign-ABI, and aggregates per-function
//! label sets into corpus-wide counts and a label histogram.

pub mod aggregate;
pub mod canon;
pub mod classify;
pub mod labels;
pub mod model;
pub mod text;
pub mod toolchain;
pub mod visit;
