//! The kernel's answers to Jupyter's requests, decided apart from the sockets
//! that carry them: which reply each shell request gets, what the kernel says
//! about its language, and how a failed cell is reported.

use crate::input::{classification, classify_input, incomplete_message, syntax_errors, InputClass, InputStatus};
use crate::modes::SourceMode;
use crate::text::{lines, lines_of, push_char, push_str};
use vstd::prelude::*;

verus! {

pub const JUPYTER_PROTOCOL_VERSION: &'static str = "5.3";

/// The name under which a failed cell's error is reported.
pub const ERROR_NAME: &'static str = "TypstError";

/// The lines a traceback shows for `message`: its lines, or the message
/// itself when it has none.
pub open spec fn traceback(message: Seq<char>) -> Seq<Seq<char>> {
    if lines(message).len() == 0 {
        seq![message]
    } else {
        lines(message)
    }
}

/// The traceback lines for an error message.
pub fn traceback_lines(message: &str) -> (t: Vec<String>)
    ensures
        t.deep_view() == traceback(message@),
{
    let lines = lines_of(message);
    if lines.len() == 0 {
        let t = vec![message.to_owned()];
        assert(t.deep_view() =~= seq![message@]);
        t
    } else {
        lines
    }
}

/// A traceback always has a line to show.
pub proof fn lemma_traceback_nonempty(message: Seq<char>)
    ensures
        traceback(message).len() >= 1,
{
}

/// What the kernel tells Jupyter about the language of its cells.
pub struct LanguageMetadata {
    pub name: &'static str,
    pub display_name: &'static str,
    pub mimetype: &'static str,
    pub file_extension: &'static str,
}

pub open spec fn metadata_spec(mode: SourceMode) -> (Seq<char>, Seq<char>, Seq<char>, Seq<char>) {
    match mode {
        SourceMode::Code => ("typst-code"@, "Typst (Code Mode)"@, "text/x-typst-code"@, ".typc"@),
        SourceMode::Markup => ("typst"@, "Typst"@, "text/x-typst"@, ".typ"@),
    }
}

/// The language name, display name, MIME type and file extension for cells
/// read in `source_mode`.
pub fn language_metadata(source_mode: SourceMode) -> (m: LanguageMetadata)
    ensures
        (m.name@, m.display_name@, m.mimetype@, m.file_extension@) == metadata_spec(source_mode),
{
    match source_mode {
        SourceMode::Code => LanguageMetadata {
            name: "typst-code",
            display_name: crate::CODE_DISPLAY_NAME,
            mimetype: "text/x-typst-code",
            file_extension: ".typc",
        },
        SourceMode::Markup => LanguageMetadata {
            name: "typst",
            display_name: crate::MARKUP_DISPLAY_NAME,
            mimetype: "text/x-typst",
            file_extension: ".typ",
        },
    }
}

/// A request on the shell channel, with what the kernel reads from it.
pub enum ShellRequest {
    KernelInfo,
    Execute(String),
    /// A completion request at this cursor position.
    Complete(usize),
    Inspect,
    /// Asks whether this code is ready to run.
    IsComplete(String),
    History,
    CommInfo,
    /// A shutdown request; `true` asks for a restart.
    Shutdown(bool),
    /// Any other request, which gets no reply.
    Other,
}

/// The answer to an is-complete request.
#[derive(Debug, Clone, Copy, PartialEq, Eq, Structural)]
pub enum IsCompleteStatus {
    Complete,
    Incomplete,
    Invalid,
}

/// The reply to a shell request.
pub enum ShellReply {
    /// The kernel info: protocol version and the language of `source_mode`.
    KernelInfo(SourceMode),
    /// The cell is run; its reply comes from the run.
    Execute(String),
    /// No completions, for the empty span at the cursor.
    Complete { cursor_start: usize, cursor_end: usize },
    /// Nothing is found.
    Inspect,
    IsComplete(IsCompleteStatus),
    /// An empty history.
    History,
    /// No comms.
    CommInfo,
    Shutdown(bool),
    NoReply,
}

pub open spec fn status_of(c: InputClass) -> IsCompleteStatus {
    match c {
        InputClass::Complete => IsCompleteStatus::Complete,
        InputClass::Incomplete(_) => IsCompleteStatus::Incomplete,
        InputClass::Invalid(_) => IsCompleteStatus::Invalid,
    }
}

/// The is-complete answer for the status of an input.
pub fn is_complete_status(status: &InputStatus) -> (s: IsCompleteStatus)
    ensures
        s == status_of(status@),
{
    match status {
        InputStatus::Complete => IsCompleteStatus::Complete,
        InputStatus::Incomplete(_) => IsCompleteStatus::Incomplete,
        InputStatus::Invalid(_) => IsCompleteStatus::Invalid,
    }
}

/// The reply the kernel sends for `request`, between its busy and idle status.
pub open spec fn reply_for(request: ShellRequest, source_mode: SourceMode) -> ShellReply {
    match request {
        ShellRequest::KernelInfo => ShellReply::KernelInfo(source_mode),
        ShellRequest::Execute(code) => ShellReply::Execute(code),
        ShellRequest::Complete(c) => ShellReply::Complete { cursor_start: c, cursor_end: c },
        ShellRequest::Inspect => ShellReply::Inspect,
        ShellRequest::IsComplete(code) => ShellReply::IsComplete(
            status_of(
                classification(
                    syntax_errors(code@, source_mode),
                    |m: Seq<char>| incomplete_message(m),
                ),
            ),
        ),
        ShellRequest::History => ShellReply::History,
        ShellRequest::CommInfo => ShellReply::CommInfo,
        ShellRequest::Shutdown(restart) => ShellReply::Shutdown(restart),
        ShellRequest::Other => ShellReply::NoReply,
    }
}

/// Decides the reply to a shell request; is-complete requests are judged by
/// the syntax errors of their code, read in `source_mode`.
pub fn shell_reply(request: ShellRequest, source_mode: SourceMode) -> (r: ShellReply)
    ensures
        r == reply_for(request, source_mode),
{
    match request {
        ShellRequest::KernelInfo => ShellReply::KernelInfo(source_mode),
        ShellRequest::Execute(code) => ShellReply::Execute(code),
        ShellRequest::Complete(c) => ShellReply::Complete { cursor_start: c, cursor_end: c },
        ShellRequest::Inspect => ShellReply::Inspect,
        ShellRequest::IsComplete(code) => {
            let status = classify_input(code.as_str(), source_mode);
            ShellReply::IsComplete(is_complete_status(&status))
        },
        ShellRequest::History => ShellReply::History,
        ShellRequest::CommInfo => ShellReply::CommInfo,
        ShellRequest::Shutdown(restart) => ShellReply::Shutdown(restart),
        ShellRequest::Other => ShellReply::NoReply,
    }
}

/// The execution count of the next executed cell.
pub fn next_execution_count(count: usize) -> (n: usize)
    requires
        count < usize::MAX,
    ensures
        n == count + 1,
{
    count + 1
}

/// How a failed cell is reported: the error's name, its text, and the
/// traceback lines.
pub struct ErrorReport {
    pub ename: String,
    pub evalue: String,
    pub traceback: Vec<String>,
}

/// The report for a cell that failed with `message`.
pub fn error_report(message: &str) -> (r: ErrorReport)
    ensures
        r.ename@ == ERROR_NAME@,
        r.evalue@ == message@,
        r.traceback.deep_view() == traceback(message@),
{
    ErrorReport {
        ename: ERROR_NAME.to_owned(),
        evalue: message.to_owned(),
        traceback: traceback_lines(message),
    }
}

/// The stderr text for a warning: its message and a line break.
pub fn warning_text(message: &str) -> (s: String)
    ensures
        s@ == message@.push('\n'),
{
    let mut s = String::new();
    push_str(&mut s, message);
    push_char(&mut s, '\n');
    s
}

} // verus!
