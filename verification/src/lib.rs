//! Conversion of editor colour themes from the VS Code JSON schema to the
//! Helix key-value schema.
//!
//! The crate holds the schema-mapping engine: the source model, the target
//! model and the rules that carry one into the other. Reading and writing
//! documents is left to the caller.

pub mod converter;
pub mod paths;
