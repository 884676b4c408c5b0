//! The source model, the target model and the mapping between them.

pub mod helix;
pub mod laws;
pub mod ordmap;
pub mod rules;
pub mod sorted;
pub mod text;
pub mod vscode;
