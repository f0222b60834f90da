//! Library behind a command-line launcher for shell scripts.
//!
//! The launcher discovers script files in a module directory and runs one of
//! them, either by name or through an interactive lettered menu.  Everything
//! that decides something lives here, verified: filtering and sorting the
//! catalog of module files, mapping menu letters to entries, classifying
//! interactive input, resolving the module directory, locating a requested
//! script, and turning a child process outcome into an exit code.  The thin
//! shell around it performs the actual I/O (directory listing, reading from
//! standard input, spawning the interpreter) and hands plain values in.

pub mod catalog;
pub mod cli;
pub mod paths;
pub mod runners;
pub mod text;
