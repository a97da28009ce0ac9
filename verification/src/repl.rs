//! The terminal REPL's reading rules: input lines gather in a buffer until
//! the buffer parses as complete (or as invalid), and lines that start with
//! `.` are commands.

use crate::input::{classification, code_syntax_errors, InputClass, InputStatus};
use crate::repl_session::{classify_input, lemma_repl_incomplete_prefixes, repl_incomplete_message};
use crate::text::{
    chars_of, has_prefix, is_blank, join_newline, push_char, push_str, starts_with, str_eq, trim,
};
use vstd::prelude::*;

verus! {

/// What the REPL does after a line.
#[derive(Debug, PartialEq, Eq)]
pub enum ReplAction {
    /// Read the next line.
    Continue,
    /// Leave the REPL.
    Exit,
    /// Run this source.
    Execute(String),
    /// Print the list of commands.
    ShowHelp,
    /// Report an unknown command.
    UnknownCommand(String),
}

/// `ReplAction` over character sequences.
pub enum ReplStep {
    Continue,
    Exit,
    Execute(Seq<char>),
    ShowHelp,
    UnknownCommand(Seq<char>),
}

impl View for ReplAction {
    type V = ReplStep;

    open spec fn view(&self) -> ReplStep {
        match self {
            ReplAction::Continue => ReplStep::Continue,
            ReplAction::Exit => ReplStep::Exit,
            ReplAction::Execute(s) => ReplStep::Execute(s@),
            ReplAction::ShowHelp => ReplStep::ShowHelp,
            ReplAction::UnknownCommand(c) => ReplStep::UnknownCommand(c@),
        }
    }
}

/// The step a command takes and the buffer it leaves.
pub open spec fn command_step(command: Seq<char>, buffer: Seq<char>) -> (ReplStep, Seq<char>) {
    if command == ".exit"@ || command == ".quit"@ {
        (ReplStep::Exit, buffer)
    } else if command == ".clear"@ {
        (ReplStep::Continue, Seq::empty())
    } else if command == ".help"@ {
        (ReplStep::ShowHelp, buffer)
    } else if command == ".run"@ {
        if trim(buffer).len() > 0 {
            (ReplStep::Execute(buffer), Seq::empty())
        } else {
            (ReplStep::Continue, buffer)
        }
    } else {
        (ReplStep::UnknownCommand(command), buffer)
    }
}

/// The step a buffer whose input has status `c` takes, and the buffer it
/// leaves: an unfinished input waits for more lines, any other runs.
pub open spec fn settle_step(buffer: Seq<char>, c: InputClass) -> (ReplStep, Seq<char>) {
    match c {
        InputClass::Incomplete(_) => (ReplStep::Continue, buffer),
        _ => (ReplStep::Execute(buffer), Seq::empty()),
    }
}

/// The step a line takes and the buffer it leaves.
pub open spec fn line_step(buffer: Seq<char>, line: Seq<char>) -> (ReplStep, Seq<char>) {
    if starts_with(line, "."@) {
        command_step(line, buffer)
    } else {
        let b = buffer + line + seq!['\n'];
        settle_step(
            b,
            classification(code_syntax_errors(b), |m: Seq<char>| repl_incomplete_message(m)),
        )
    }
}

/// A line that is no command joins the buffer, with a line break after it.
/// If the joined code has no syntax error, it runs and the buffer empties.
/// If its errors, joined by lines and trimmed, start with `unclosed `,
/// `expected expression`, `expected block`, `expected argument list`,
/// `expected identifier`, `expected pattern` or `expected colon`, the input
/// is unfinished: the REPL reads on and keeps the joined buffer. Any other
/// error runs it too, and the buffer empties.
pub proof fn lemma_line_joins_buffer(buffer: Seq<char>, line: Seq<char>)
    requires
        !starts_with(line, "."@),
    ensures
        ({
            let b = buffer + line + seq!['\n'];
            let errors = code_syntax_errors(b);
            let t = trim(join_newline(errors));
            &&& errors.len() == 0 ==> line_step(buffer, line) == (ReplStep::Execute(b), Seq::<char>::empty())
            &&& errors.len() > 0 && (starts_with(t, "unclosed "@) || starts_with(t, "expected expression"@) || starts_with(t, "expected block"@) || starts_with(t, "expected argument list"@) || starts_with(t, "expected identifier"@) || starts_with(t, "expected pattern"@) || starts_with(t, "expected colon"@)) ==> line_step(buffer, line) == (ReplStep::Continue, b)
            &&& errors.len() > 0 && !(starts_with(t, "unclosed "@) || starts_with(t, "expected expression"@) || starts_with(t, "expected block"@) || starts_with(t, "expected argument list"@) || starts_with(t, "expected identifier"@) || starts_with(t, "expected pattern"@) || starts_with(t, "expected colon"@)) ==> line_step(buffer, line) == (
                ReplStep::Execute(b),
                Seq::<char>::empty(),
            )
        }),
{
    let b = buffer + line + seq!['\n'];
    lemma_repl_incomplete_prefixes(join_newline(code_syntax_errors(b)));
}

/// Runs a REPL command against the buffer.
pub fn handle_command(command: &str, buffer: &mut String) -> (a: ReplAction)
    ensures
        (a@, final(buffer)@) == command_step(command@, old(buffer)@),
{
    if str_eq(command, ".exit") || str_eq(command, ".quit") {
        ReplAction::Exit
    } else if str_eq(command, ".clear") {
        *buffer = String::new();
        ReplAction::Continue
    } else if str_eq(command, ".help") {
        ReplAction::ShowHelp
    } else if str_eq(command, ".run") {
        let cs = chars_of(buffer.as_str());
        assert(cs@.subrange(0, cs.len() as int) =~= cs@);
        if !is_blank(&cs, 0, cs.len()) {
            let mut run = String::new();
            std::mem::swap(buffer, &mut run);
            ReplAction::Execute(run)
        } else {
            ReplAction::Continue
        }
    } else {
        ReplAction::UnknownCommand(command.to_owned())
    }
}

/// Runs the buffer when its input is not unfinished, emptying it; keeps it
/// otherwise.
pub fn settle_buffer(buffer: &mut String, status: &InputStatus) -> (a: ReplAction)
    ensures
        (a@, final(buffer)@) == settle_step(old(buffer)@, status@),
{
    match status {
        InputStatus::Incomplete(_) => ReplAction::Continue,
        _ => {
            let mut run = String::new();
            std::mem::swap(buffer, &mut run);
            ReplAction::Execute(run)
        },
    }
}

/// Takes one input line: a command when it starts with `.`, else it joins
/// the buffer, which runs once it parses as code without an unfinished end
/// (the REPL's judgement, under which a missing expression is unfinished too).
pub fn handle_line(buffer: &mut String, line: &str) -> (a: ReplAction)
    ensures
        (a@, final(buffer)@) == line_step(old(buffer)@, line@),
        !starts_with(line@, "."@) && code_syntax_errors(old(buffer)@ + line@ + seq!['\n']).len() > 0
            && starts_with(
            trim(join_newline(code_syntax_errors(old(buffer)@ + line@ + seq!['\n']))),
            "expected expression"@,
        ) ==> a@ == ReplStep::Continue && final(buffer)@ == old(buffer)@ + line@ + seq!['\n'],
{
    let cs = chars_of(line);
    assert(cs@.subrange(0, cs.len() as int) =~= cs@);
    if has_prefix(&cs, 0, cs.len(), &chars_of(".")) {
        return handle_command(line, buffer);
    }
    push_str(buffer, line);
    push_char(buffer, '\n');
    assert(buffer@ =~= old(buffer)@ + line@ + seq!['\n']);
    let status = classify_input(buffer.as_str());
    settle_buffer(buffer, &status)
}

/// The prompt: `typst> ` for a new input, `....> ` while one continues.
pub fn prompt(continuation: bool) -> (p: &'static str)
    ensures
        p@ == (if continuation {
            "....> "@
        } else {
            "typst> "@
        }),
{
    if continuation {
        "....> "
    } else {
        "typst> "
    }
}

/// The lines `.help` prints.
pub fn help_lines() -> (v: Vec<&'static str>)
    ensures
        v@.len() == 4,
        v@[0]@ == ".exit/.quit  exit the REPL"@,
        v@[1]@ == ".clear       clear the current input buffer"@,
        v@[2]@ == ".run         execute the current input buffer"@,
        v@[3]@ == ".help        show this help"@,
{
    vec![
        ".exit/.quit  exit the REPL",
        ".clear       clear the current input buffer",
        ".run         execute the current input buffer",
        ".help        show this help",
    ]
}

/// The message for an unknown command.
pub fn unknown_command_message(command: &str) -> (m: String)
    ensures
        m@ == "unknown command `"@ + command@ + "`"@,
{
    let mut m = String::new();
    push_str(&mut m, "unknown command `");
    push_str(&mut m, command);
    push_str(&mut m, "`");
    m
}

} // verus!
