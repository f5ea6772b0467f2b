//! Helpers for running a compiler as a child process: the rules that turn
//! the child's error stream into warning lines, the classification of how
//! the child ended, and the builder that assembles its command line.

pub mod lines;
pub mod forwarder;
pub mod error;
pub mod output;
pub mod runner;
pub mod builder;
