//! Whether an input is ready to run: complete, still open (more lines are
//! expected), or invalid, judged from the parser's syntax errors.

use crate::modes::SourceMode;
use crate::text::{chars_of, has_prefix, join_lines, join_newline, starts_with, trim, trim_bounds};
use vstd::prelude::*;

verus! {

/// The messages of the syntax errors that Typst's code parser reports on `source`.
pub uninterp spec fn code_syntax_errors(source: Seq<char>) -> Seq<Seq<char>>;

/// The messages of the syntax errors that Typst's markup parser reports on `source`.
pub uninterp spec fn markup_syntax_errors(source: Seq<char>) -> Seq<Seq<char>>;

/// Calls `typst::syntax::parse_code` and collects the messages of the
/// tree's errors, in the order `SyntaxNode::errors` gives them. Claims only
/// that the result depends on the source text alone.
#[verifier::external_body]
pub(crate) fn parse_code_errors(source: &str) -> (r: Vec<String>)
    ensures
        r.deep_view() == code_syntax_errors(source@),
{
    typst::syntax::parse_code(source).errors().into_iter().map(|e| e.message.to_string()).collect()
}

/// Builds `typst::syntax::Source::detached` (which parses `source` as markup)
/// and collects the messages of its root's errors. Claims only that the result
/// depends on the source text alone.
#[verifier::external_body]
fn parse_markup_errors(source: &str) -> (r: Vec<String>)
    ensures
        r.deep_view() == markup_syntax_errors(source@),
{
    typst::syntax::Source::detached(source).root().errors().into_iter().map(
        |e| e.message.to_string(),
    ).collect()
}

pub open spec fn syntax_errors(source: Seq<char>, mode: SourceMode) -> Seq<Seq<char>> {
    match mode {
        SourceMode::Code => code_syntax_errors(source),
        SourceMode::Markup => markup_syntax_errors(source),
    }
}

/// Whether an input can run, and if not, the parser's messages joined by lines.
#[derive(Debug, Clone, PartialEq, Eq)]
pub enum InputStatus {
    Complete,
    Incomplete(String),
    Invalid(String),
}

/// `InputStatus` over character sequences.
pub enum InputClass {
    Complete,
    Incomplete(Seq<char>),
    Invalid(Seq<char>),
}

impl View for InputStatus {
    type V = InputClass;

    open spec fn view(&self) -> InputClass {
        match self {
            InputStatus::Complete => InputClass::Complete,
            InputStatus::Incomplete(m) => InputClass::Incomplete(m@),
            InputStatus::Invalid(m) => InputClass::Invalid(m@),
        }
    }
}

/// A message whose trimmed text begins with one of these says that the input
/// stopped early rather than went wrong.
pub open spec fn incomplete_message(m: Seq<char>) -> bool {
    let t = trim(m);
    ||| starts_with(t, "unclosed "@)
    ||| starts_with(t, "expected block"@)
    ||| starts_with(t, "expected argument list"@)
    ||| starts_with(t, "expected identifier"@)
    ||| starts_with(t, "expected pattern"@)
    ||| starts_with(t, "expected colon"@)
}

/// A message marks an unfinished input exactly when, once trimmed, it
/// starts with `unclosed `, `expected block`, `expected argument list`,
/// `expected identifier`, `expected pattern` or `expected colon`.
pub proof fn lemma_incomplete_prefixes(m: Seq<char>)
    ensures
        starts_with(trim(m), "unclosed "@) ==> incomplete_message(m),
        starts_with(trim(m), "expected block"@) ==> incomplete_message(m),
        starts_with(trim(m), "expected argument list"@) ==> incomplete_message(m),
        starts_with(trim(m), "expected identifier"@) ==> incomplete_message(m),
        starts_with(trim(m), "expected pattern"@) ==> incomplete_message(m),
        starts_with(trim(m), "expected colon"@) ==> incomplete_message(m),
        incomplete_message(m) ==> (starts_with(trim(m), "unclosed "@) || starts_with(trim(m), "expected block"@) || starts_with(trim(m), "expected argument list"@) || starts_with(trim(m), "expected identifier"@) || starts_with(trim(m), "expected pattern"@) || starts_with(trim(m), "expected colon"@)),
{
}

/// The status that a list of syntax-error messages gives.
pub open spec fn classification(
    messages: Seq<Seq<char>>,
    incomplete: spec_fn(Seq<char>) -> bool,
) -> InputClass {
    if messages.len() == 0 {
        InputClass::Complete
    } else {
        let m = join_newline(messages);
        if incomplete(m) {
            InputClass::Incomplete(m)
        } else {
            InputClass::Invalid(m)
        }
    }
}

/// Whether `message` begins, once trimmed, with a prefix in `prefixes`.
pub fn has_any_prefix(message: &str, prefixes: &Vec<&str>) -> (b: bool)
    ensures
        b == exists|i: int|
            0 <= i < prefixes.len() && starts_with(trim(message@), #[trigger] prefixes@[i]@),
{
    let cs = chars_of(message);
    let (a, z) = trim_bounds(&cs, 0, cs.len());
    assert(cs@.subrange(0, cs.len() as int) =~= message@);
    let mut i: usize = 0;
    while i < prefixes.len()
        invariant
            i <= prefixes.len(),
            cs@ == message@,
            a <= z <= cs.len(),
            cs@.subrange(a as int, z as int) == trim(message@),
            forall|j: int| 0 <= j < i ==> !starts_with(trim(message@), #[trigger] prefixes@[j]@),
        decreases prefixes.len() - i,
    {
        let p = chars_of(prefixes[i]);
        if has_prefix(&cs, a, z, &p) {
            return true;
        }
        i += 1;
    }
    false
}

/// Whether a joined error message says the input is unfinished.
pub fn is_incomplete_input(message: &str) -> (b: bool)
    ensures
        b == incomplete_message(message@),
        starts_with(trim(message@), "unclosed "@) ==> b,
        starts_with(trim(message@), "expected block"@) ==> b,
        starts_with(trim(message@), "expected argument list"@) ==> b,
        starts_with(trim(message@), "expected identifier"@) ==> b,
        starts_with(trim(message@), "expected pattern"@) ==> b,
        starts_with(trim(message@), "expected colon"@) ==> b,
        b ==> (starts_with(trim(message@), "unclosed "@) || starts_with(trim(message@), "expected block"@) || starts_with(trim(message@), "expected argument list"@) || starts_with(trim(message@), "expected identifier"@) || starts_with(trim(message@), "expected pattern"@) || starts_with(trim(message@), "expected colon"@)),
{
    let prefixes = vec![
        "unclosed ",
        "expected block",
        "expected argument list",
        "expected identifier",
        "expected pattern",
        "expected colon",
    ];
    let b = has_any_prefix(message, &prefixes);
    proof {
        let t = trim(message@);
        if incomplete_message(message@) {
            if starts_with(t, "unclosed "@) {
                assert(starts_with(t, prefixes@[0]@));
            } else if starts_with(t, "expected block"@) {
                assert(starts_with(t, prefixes@[1]@));
            } else if starts_with(t, "expected argument list"@) {
                assert(starts_with(t, prefixes@[2]@));
            } else if starts_with(t, "expected identifier"@) {
                assert(starts_with(t, prefixes@[3]@));
            } else if starts_with(t, "expected pattern"@) {
                assert(starts_with(t, prefixes@[4]@));
            } else {
                assert(starts_with(t, prefixes@[5]@));
            }
        }
    }
    b
}

/// The status that the syntax-error messages `messages` give.
pub fn classify_messages(messages: &Vec<String>) -> (s: InputStatus)
    ensures
        s@ == classification(messages.deep_view(), |m: Seq<char>| incomplete_message(m)),
{
    if messages.len() == 0 {
        return InputStatus::Complete;
    }
    let message = join_lines(messages);
    if is_incomplete_input(message.as_str()) {
        InputStatus::Incomplete(message)
    } else {
        InputStatus::Invalid(message)
    }
}

/// Classifies `source`, read in `mode`, by the syntax errors Typst reports on it.
pub fn classify_input(source: &str, mode: SourceMode) -> (s: InputStatus)
    ensures
        s@ == classification(syntax_errors(source@, mode), |m: Seq<char>| incomplete_message(m)),
{
    let errors = match mode {
        SourceMode::Code => parse_code_errors(source),
        SourceMode::Markup => parse_markup_errors(source),
    };
    classify_messages(&errors)
}

} // verus!
