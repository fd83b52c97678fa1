//! Includes between documents.

use crate::parser::error::ParseError;
use vstd::prelude::*;

verus! {

#[verifier::external_type_specification]
#[verifier::external_body]
pub struct ExPathBuf(std::path::PathBuf);

/// Checks the chain of documents included from `file_path` for cycles.
/// Documents cannot include others yet, so every file passes.
pub fn validate_no_circular_dependencies(
    file_path: &std::path::PathBuf,
    visited: &mut std::collections::HashSet<std::path::PathBuf>,
) -> (res: Result<(), ParseError>)
    ensures
        res is Ok,
        *final(visited) == *old(visited),
{
    Ok(())
}

} // verus!
