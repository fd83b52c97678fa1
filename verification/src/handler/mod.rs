//! Handler metadata and the dependency graph between handlers.

pub mod graph;

use vstd::prelude::*;

pub use graph::HandlerCallGraph;

verus! {

/// Handler metadata for build-time validation.
#[derive(Debug, Clone, PartialEq)]
pub struct HandlerSignature {
    /// Handler name.
    pub name: String,
    /// Parameter type, if the handler takes a value.
    pub param_type: Option<String>,
    /// Whether the handler returns a command.
    pub returns_command: bool,
}

} // verus!
