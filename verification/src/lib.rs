//! A parser for a line-oriented task-list markup.
//!
//! Each line of a file that holds more than spaces is one task: an optional
//! priority (`*`, `**` or `***`), a status (`[TODO]`, `[DOING]` or
//! `[DONE]`) and a description made of free text, `+tags`, `@YYYY-MM-DD`
//! due dates and `^YYYY-MM-DD` start dates.
//!
//! Parsing has two layers. The grammar engine ([`grammar`]) turns text into
//! a parse tree; the task builder ([`builder`]) walks such a tree and makes
//! the tasks. What both owe is said in [`syntax`] and [`meaning`].

pub mod builder;
pub mod grammar;
pub mod laws;
pub mod meaning;
pub mod model;
pub mod nesting;
pub mod order;
pub mod render;
pub mod scan;
pub mod syntax;
pub mod text;

pub use crate::grammar::Grammar;
pub use crate::model::{
    DescriptionPart, Node, ParseError, Priority, Rule, Status, SyntaxError, Task,
};

use vstd::prelude::*;

verus! {

/// Parses the text of a task list.
///
/// The result is what [`meaning::meaning`] says of the text: the tasks of
/// its lines in their order, or the syntax error of the first line that
/// holds more than spaces and is no task. A text without any task, the
/// empty one among them, gives an empty list, and no text gives another
/// error than a syntax error.
pub fn parse_file(file_content: &str) -> (r: Result<Vec<Task>, ParseError>)
    ensures
        builder::tasks_result_view(r) == meaning::meaning(file_content@),
        r matches Err(e) ==> e is Syntax,
{
    proof {
        meaning::lemma_file_meaning(file_content@);
        laws::law_only_syntax_errors(file_content@, 0);
    }
    match Grammar::parse(Rule::File, file_content) {
        Err(e) => Err(ParseError::Syntax(e)),
        Ok(root) => builder::build_file(Some(&root)),
    }
}

} // verus!
