//! The decision part of argument handling: which runs are allowed to start.
//!
//! The caller reads the command line and the file system and hands over
//! plain facts; this module decides whether the run may proceed, and with
//! which error it must stop otherwise. A run never starts when the input
//! path is missing or is not an existing font-source directory, or when the
//! output path is missing or already exists: nothing may be overwritten.

use vstd::prelude::*;

verus! {

/// Why a run's arguments are rejected before any work is done.
#[derive(Clone, Copy, Debug, PartialEq, Eq, Structural)]
pub enum ArgError {
    /// No input path was given.
    MissingInputPath,
    /// The input path does not point at an existing font-source directory.
    InputNotFontSource,
    /// No output path was given.
    MissingOutputPath,
    /// The output path already exists and must not be overwritten.
    OutputExists,
}

/// What `check_args` decides, for every combination of the facts.
pub open spec fn spec_check_args(
    has_input: bool,
    input_exists: bool,
    input_has_marker: bool,
    has_output: bool,
    output_exists: bool,
) -> Result<(), ArgError> {
    if !has_input {
        Err(ArgError::MissingInputPath)
    } else if !(input_exists && input_has_marker) {
        Err(ArgError::InputNotFontSource)
    } else if has_output && output_exists {
        Err(ArgError::OutputExists)
    } else if !has_output {
        Err(ArgError::MissingOutputPath)
    } else {
        Ok(())
    }
}

/// Decides whether a run may start. `has_input` and `has_output` say
/// whether the two positional arguments were given; `input_exists` and
/// `output_exists` whether the paths point at existing content; and
/// `input_has_marker` whether the input path carries the expected
/// font-source extension. The facts about a missing argument's path are
/// ignored.
pub fn check_args(
    has_input: bool,
    input_exists: bool,
    input_has_marker: bool,
    has_output: bool,
    output_exists: bool,
) -> (r: Result<(), ArgError>)
    ensures
        r == spec_check_args(has_input, input_exists, input_has_marker, has_output, output_exists),
{
    if !has_input {
        Err(ArgError::MissingInputPath)
    } else if !(input_exists && input_has_marker) {
        Err(ArgError::InputNotFontSource)
    } else if has_output && output_exists {
        Err(ArgError::OutputExists)
    } else if !has_output {
        Err(ArgError::MissingOutputPath)
    } else {
        Ok(())
    }
}

} // verus!
