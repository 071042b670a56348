//! Quark: a small, type-safe command system.
//!
//! A command line such as `spawn goblin 5` is parsed into a command name and
//! its arguments; commands are registered in a [`Quark`] registry under their
//! names and executed from such lines. The `#[command(...)]` attribute front
//! end relies on [`command_macro`] for its decisions.

pub mod command;
pub mod command_macro;
pub mod error;
pub mod metadata;
pub mod parser;
pub mod parser_laws;
pub mod registry;
pub mod text;

pub use command::Command;
pub use error::{CommandError, Result};
pub use metadata::CommandMetadata;
pub use parser::parse_command_string;
pub use registry::Quark;
