//! Errors of locating the project's root directory.
use vstd::prelude::*;

verus! {

#[derive(Debug)]
pub enum PathError {
    ExecutingCargo(String),
    LocatingWorkspaceRoot,
    InvalidPath,
    CurrentDir,
}

} // verus!
