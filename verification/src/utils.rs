//! Checks on what the command line was given.
pub mod validator;
