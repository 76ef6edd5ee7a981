//! Command-line argument definitions: declaring flags and options with a
//! configurable textual syntax, rendering a definition and a value into
//! tokens, and extracting the values of a batch of definitions from a token
//! sequence in one scan.

pub mod arg;
pub mod laws;
pub mod matching;
pub mod opts;
pub mod parse_args;
pub mod remainder;
pub mod scan_lemmas;
pub mod text;

pub use arg::{Arg, ArgDef, ArgSpec, FormattedArg};
pub use opts::ArgOpts;
pub use parse_args::{Args, ParseFrom};
