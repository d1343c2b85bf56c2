//! A small interactive password generator library: an option parser that
//! turns a line of `key=value` tokens into a generation request, a random
//! password generator driven by a configurable character set, and formatters
//! for console and file output.

pub mod generator;
pub mod interact;
pub mod options;
pub mod output;
pub mod text;
