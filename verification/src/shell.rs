//! What the interactive shell does with a line that it has read.

use crate::env::Scope;
use crate::evaluator::{DEFAULT_DEPTH, Evaluator};
use crate::parser::{Object, Value, render};
use crate::semantics::eval_text;
use crate::text::same_text;
use vstd::prelude::*;

verus! {

/// What the shell does after a line.
#[derive(Debug, PartialEq)]
pub enum Reply {
    /// The session ends.
    Exit,
    /// Nothing is printed.
    Nothing,
    /// The text is printed on a line of its own.
    Print(String),
}

/// The model of a reply.
pub enum ReplyView {
    Exit,
    Nothing,
    Print(Seq<char>),
}

impl View for Reply {
    type V = ReplyView;

    open spec fn view(&self) -> ReplyView {
        match self {
            Reply::Exit => ReplyView::Exit,
            Reply::Nothing => ReplyView::Nothing,
            Reply::Print(text) => ReplyView::Print(text@),
        }
    }
}

/// Whether a line is skipped without being evaluated.
pub open spec fn is_blank(line: Seq<char>) -> bool {
    line == ""@ || line == "\n"@
}

/// What the shell answers to a line: the line `exit` ends the session, a blank
/// line is skipped; any other line is evaluated, and what it gave is printed,
/// unless it gave nothing, or else the text of its error.
pub open spec fn reply_spec(env: Seq<Scope>, line: Seq<char>) -> ReplyView {
    if line == "exit"@ {
        ReplyView::Exit
    } else if is_blank(line) {
        ReplyView::Nothing
    } else {
        match eval_text(env, line, DEFAULT_DEPTH as nat).result {
            Ok(Value::Void) => ReplyView::Nothing,
            Ok(v) => ReplyView::Print(render(v)),
            Err(e) => ReplyView::Print(e),
        }
    }
}

/// The environment after the shell has dealt with a line.
pub open spec fn env_after(env: Seq<Scope>, line: Seq<char>) -> Seq<Scope> {
    if line == "exit"@ || is_blank(line) {
        env
    } else {
        eval_text(env, line, DEFAULT_DEPTH as nat).env
    }
}

/// Deals with one line of input.
pub fn respond(evaluator: &mut Evaluator, line: &str) -> (reply: Reply)
    ensures
        reply@ == reply_spec(old(evaluator).env@, line@),
        final(evaluator).env@ == env_after(old(evaluator).env@, line@),
{
    if same_text(line, "exit") {
        return Reply::Exit;
    }
    if same_text(line, "") || same_text(line, "\n") {
        return Reply::Nothing;
    }
    match evaluator.eval(line) {
        Ok(Object::Void) => Reply::Nothing,
        Ok(value) => Reply::Print(value.to_string()),
        Err(message) => Reply::Print(message),
    }
}

} // verus!
