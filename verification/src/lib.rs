//! Launching an interpreter that lives beside a script.
//!
//! A script names this tool on its first line; the tool finds the file the
//! script really is (following symbolic links), takes the directory of that
//! file, and runs the interpreter named relative to it, handing over the
//! script as it was given and the remaining arguments.
//!
//! Paths and arguments are byte strings: a file name need not be valid text.
//! The library decides; reading links and replacing the process image are left
//! to the caller, who hands the library what it read.

pub mod bytes;
pub mod cli;
pub mod launch;
pub mod links;
pub mod path;
pub mod program;
pub mod resolve;
