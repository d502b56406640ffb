//! The decision on whether a run may start.

use ufo_subset::args::{check_args, ArgError};

#[test]
fn existing_output_path_stops_the_run() {
    // An output path that already exists aborts before any mutation.
    assert_eq!(check_args(true, true, true, true, true), Err(ArgError::OutputExists));
}

#[test]
fn missing_input_path_stops_the_run() {
    assert_eq!(check_args(false, false, false, true, false), Err(ArgError::MissingInputPath));
    assert_eq!(check_args(false, true, true, true, false), Err(ArgError::MissingInputPath));
}

#[test]
fn input_must_exist_and_carry_the_marker() {
    assert_eq!(check_args(true, false, true, true, false), Err(ArgError::InputNotFontSource));
    assert_eq!(check_args(true, true, false, true, false), Err(ArgError::InputNotFontSource));
    assert_eq!(check_args(true, false, false, true, false), Err(ArgError::InputNotFontSource));
}

#[test]
fn missing_output_path_stops_the_run() {
    assert_eq!(check_args(true, true, true, false, false), Err(ArgError::MissingOutputPath));
}

#[test]
fn valid_arguments_let_the_run_start() {
    assert_eq!(check_args(true, true, true, true, false), Ok(()));
}

#[test]
fn input_errors_come_before_output_errors() {
    // The input path is validated first, as the run reads it first.
    assert_eq!(check_args(false, false, false, false, true), Err(ArgError::MissingInputPath));
    assert_eq!(check_args(true, false, false, true, true), Err(ArgError::InputNotFontSource));
}
