//! Name resolution, type checking and effect inference over parsed modules.

pub mod declaration_indexer;
pub mod diagnostics;
pub mod effect_propagation;
pub mod module_validation;
pub mod resolution;
pub mod resolver;
