//! A minimal interactive command shell core.
//!
//! A [`Shell`] owns an ordered registry of [`Command`]s. One call of
//! [`Shell::process`] takes one line of input, splits it into tokens, takes
//! the last token as the name of the command to run, and runs the handler of
//! the last registered command of that name on the remaining tokens and the
//! whole registry.

pub mod command;
pub mod error;
pub mod shell;
pub mod tokens;

pub use crate::command::{Command, CommandView, Handler};
pub use crate::error::CommandError;
pub use crate::shell::{Shell, ShellView};
pub use crate::tokens::tokenize;
