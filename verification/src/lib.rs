//! Turns a task file, a short declarative description of tasks and what they
//! depend on, into the text of a Makefile.
//!
//! A task file holds include directives and task blocks. [`parse`] reads both,
//! each with a scan of its own over the same text, and [`render`] writes them
//! out, in the order in which they were read, behind a banner that carries the
//! date and a block of helpers that is handed in and passed through as it is.

use crate::block::{commands_in, commands_of};
use crate::command::command_views;
use crate::directive::{include_targets, includes_of};
use crate::text::{chars_of, texts};
use vstd::prelude::*;

pub mod block;
pub mod cli;
pub mod command;
pub mod date;
pub mod directive;
pub mod laws;
pub mod render;
pub mod text;

pub use crate::command::Command;
pub use crate::date::Date;
pub use crate::render::{render, render_today};

verus! {

/// The includes and the commands of `content`, each in the order in which they
/// stand there. Nothing is an error: what is neither a directive nor a whole
/// block is passed over.
pub fn parse(content: String) -> (parsed: (Vec<String>, Vec<Command>))
    ensures
        texts(parsed.0@) == include_targets(content@),
        parsed.0@.len() == include_targets(content@).len(),
        command_views(parsed.1@) == commands_in(content@),
        parsed.1@.len() == commands_in(content@).len(),
{
    let chars = chars_of(content.as_str());
    let includes = includes_of(content.as_str(), &chars);
    let commands = commands_of(content.as_str(), &chars);
    (includes, commands)
}

} // verus!
