//! The read loop's decisions: what to do with what reading a line gave.

use crate::ast::NodeView;
use crate::executor::{statement_effect, Action, ExecutionError, Executor};
use crate::lexer::{lemma_lex_token_progress, tokens, whitespace_chars};
use crate::parser::{parse_statement, Parser};
use crate::text::{chars_of, lemma_run_len_unique, run_len, same_text, string_of, white_space};
use vstd::prelude::*;

verus! {

/// Whether `s` holds nothing but white space.
pub open spec fn blank(s: Seq<char>) -> bool {
    run_len(s, whitespace_chars()) == s.len()
}

/// `s` without the white space at its two ends.
pub open spec fn trimmed(s: Seq<char>) -> Seq<char> {
    if blank(s) {
        Seq::empty()
    } else {
        s.subrange(
            run_len(s, whitespace_chars()) as int,
            s.len() - run_len(s.reverse(), whitespace_chars()),
        )
    }
}

/// `line` without the white space at its two ends.
pub fn trim(line: &str) -> (text: String)
    ensures
        text@ == trimmed(line@),
{
    let chars = chars_of(line);
    let mut from: usize = 0;
    while from < chars.len() && chars[from].is_whitespace()
        invariant
            from <= chars.len(),
            forall|k: int| 0 <= k < from ==> white_space(#[trigger] chars@[k]),
        decreases chars.len() - from,
    {
        from += 1;
    }
    proof {
        assert forall|k: int| 0 <= k < from implies whitespace_chars()(#[trigger] chars@[k]) by {}
        lemma_run_len_unique(chars@, whitespace_chars(), from as nat);
    }
    if from == chars.len() {
        return String::new();
    }
    let mut to: usize = chars.len();
    while to > from && chars[to - 1].is_whitespace()
        invariant
            from <= to <= chars.len(),
            from < chars.len(),
            !white_space(chars@[from as int]),
            forall|k: int| to <= k < chars.len() ==> white_space(#[trigger] chars@[k]),
        decreases to,
    {
        to -= 1;
    }
    proof {
        let r = chars@.reverse();
        let n = (chars.len() - to) as nat;
        assert forall|k: int| 0 <= k < n implies whitespace_chars()(#[trigger] r[k]) by {
            assert(r[k] == chars@[chars.len() - 1 - k]);
        }
        assert(to > from);
        assert(r[n as int] == chars@[to - 1]);
        lemma_run_len_unique(r, whitespace_chars(), n);
    }
    string_of(&chars, from, to)
}

/// What reading a line gave.
#[derive(Debug)]
pub enum ReadEvent {
    Line(String),
    /// The input is at its end.
    Eof,
    /// The user pressed the interrupt key.
    Interrupted,
    /// Reading failed for another reason.
    Failed,
}

/// What became of one line.
#[derive(Debug)]
pub enum LineOutcome {
    /// The line was blank: nothing was done, and it is not remembered.
    Blank,
    /// The line did not parse; the message says why.
    ParseFailed(String),
    /// The line was parsed and carried out, with this result.
    Executed(Result<Action, ExecutionError>),
}

/// What the read loop does next.
#[derive(Debug)]
pub enum LoopStep {
    /// The user typed `exit`: say goodbye and end the process, status 0.
    Exit,
    /// The input is at its end: say so and leave the loop.
    Leave,
    /// Say that the read was interrupted and read again.
    Interrupted,
    /// Say that the read failed and read again.
    ReadFailed,
    /// A line was dealt with; show its outcome and read again.
    Handled(LineOutcome),
}

/// What a line does to the shell: a blank line nothing, a line that does
/// not parse nothing but its message, and any other what its statement does.
pub open spec fn line_effect(
    line: Seq<char>,
    before: Executor,
    outcome: LineOutcome,
    after: Executor,
) -> bool {
    if blank(line) {
        outcome is Blank && after.same_state(before)
    } else {
        match parse_statement(tokens(line)).0 {
            Err(message) => {
                &&& outcome matches LineOutcome::ParseFailed(text)
                &&& text@ == message
                &&& after.same_state(before)
            },
            Ok(node) => {
                &&& outcome matches LineOutcome::Executed(result)
                &&& statement_effect(node, before, result, after)
            },
        }
    }
}

/// Deals with one line of input: parses it and carries out its statement.
pub fn handle_input(executor: &mut Executor, line: &str) -> (outcome: LineOutcome)
    ensures
        line_effect(line@, *old(executor), outcome, *final(executor)),
{
    let mut parser = Parser::new(line);
    proof {
        lemma_lex_token_progress(line@);
    }
    if parser.is_at_end() {
        return LineOutcome::Blank;
    }
    match parser.parse_command() {
        Ok(node) => LineOutcome::Executed(executor.execute(node)),
        Err(message) => LineOutcome::ParseFailed(message),
    }
}

/// What an event at the prompt does to the shell and to the loop.
pub open spec fn event_effect(
    event: ReadEvent,
    before: Executor,
    step: LoopStep,
    after: Executor,
) -> bool {
    match event {
        ReadEvent::Eof => step is Leave && after.same_state(before),
        ReadEvent::Interrupted => step is Interrupted && after.same_state(before),
        ReadEvent::Failed => step is ReadFailed && after.same_state(before),
        ReadEvent::Line(line) => if trimmed(line@) == "exit"@ {
            step is Exit && after.same_state(before)
        } else {
            step matches LoopStep::Handled(outcome) && line_effect(line@, before, outcome, after)
        },
    }
}

/// One turn of the read loop: decides what follows from `event`, and deals
/// with the line if there is one.
pub fn run_loop(executor: &mut Executor, event: ReadEvent) -> (step: LoopStep)
    ensures
        event_effect(event, *old(executor), step, *final(executor)),
{
    match event {
        ReadEvent::Eof => LoopStep::Leave,
        ReadEvent::Interrupted => LoopStep::Interrupted,
        ReadEvent::Failed => LoopStep::ReadFailed,
        ReadEvent::Line(line) => {
            let text = trim(line.as_str());
            if same_text(text.as_str(), "exit") {
                LoopStep::Exit
            } else {
                LoopStep::Handled(handle_input(executor, line.as_str()))
            }
        },
    }
}

} // verus!
