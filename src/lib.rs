//! Runs a toolchain's environment-configuration script and works out which
//! environment variables it set: where the script is installed, how to call
//! it, how to read the captured output, and what to export from it.

pub mod command;
pub mod envdiff;
pub mod error;
pub mod locator;
pub mod pathlist;
pub mod text;
