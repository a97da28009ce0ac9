//! The terminal REPL's session rules: how the `--page-setup` option is read,
//! what page setup code runs first, when an input is ready, and which rules
//! of a cell persist into later cells.

use crate::input::{classification, code_syntax_errors, parse_code_errors};
use crate::text::{
    chars_of, join_lines, push_char, push_str, starts_with, string_of, trim, trim_bounds,
};
use vstd::prelude::*;

verus! {

pub use crate::input::InputStatus;
pub use crate::modes::RenderMode;

/// The page setup that a session starts from.
#[derive(Debug, Clone, PartialEq, Eq)]
pub enum PageSetup {
    /// `set page(width: auto, height: auto, margin: 16pt)`.
    Default,
    /// No page setup.
    Disabled,
    /// The given Typst code.
    Custom(String),
}

/// `PageSetup` over character sequences.
pub enum PageSetupV {
    Default,
    Disabled,
    Custom(Seq<char>),
}

impl View for PageSetup {
    type V = PageSetupV;

    open spec fn view(&self) -> PageSetupV {
        match self {
            PageSetup::Default => PageSetupV::Default,
            PageSetup::Disabled => PageSetupV::Disabled,
            PageSetup::Custom(c) => PageSetupV::Custom(c@),
        }
    }
}

/// A page setup option that is empty once trimmed.
#[derive(Debug, Clone, PartialEq, Eq)]
pub struct EmptyPageSetup;

impl EmptyPageSetup {
    /// The error's text.
    pub fn message(&self) -> (m: String)
        ensures
            m@ == "page setup cannot be empty"@,
    {
        "page setup cannot be empty".to_owned()
    }
}

pub open spec fn default_page_setup_code() -> Seq<char> {
    "set page(width: auto, height: auto, margin: 16pt)"@
}

/// What `PageSetup::parse` reads from `value`.
pub open spec fn page_setup_of(value: Seq<char>) -> Result<PageSetupV, EmptyPageSetup> {
    let t = trim(value);
    if t == "default"@ {
        Ok(PageSetupV::Default)
    } else if t == "none"@ {
        Ok(PageSetupV::Disabled)
    } else if t.len() == 0 {
        Err(EmptyPageSetup)
    } else {
        Ok(PageSetupV::Custom(t))
    }
}

/// The code a page setup runs, if any.
pub open spec fn setup_code(p: PageSetupV) -> Option<Seq<char>> {
    match p {
        PageSetupV::Default => Some(default_page_setup_code()),
        PageSetupV::Disabled => None,
        PageSetupV::Custom(c) => Some(c),
    }
}

impl PageSetup {
    /// Reads a page setup option: `default`, `none`, or Typst code; the value
    /// is trimmed first, and an empty value is refused.
    pub fn parse(value: &str) -> (r: Result<Self, EmptyPageSetup>)
        ensures
            match (r, page_setup_of(value@)) {
                (Ok(p), Ok(q)) => p@ == q,
                (Err(_), Err(_)) => true,
                _ => false,
            },
    {
        let cs = chars_of(value);
        let (a, b) = trim_bounds(&cs, 0, cs.len());
        assert(cs@.subrange(0, cs.len() as int) =~= value@);
        if crate::text::equals(&cs, a, b, &chars_of("default")) {
            Ok(PageSetup::Default)
        } else if crate::text::equals(&cs, a, b, &chars_of("none")) {
            Ok(PageSetup::Disabled)
        } else if a == b {
            Err(EmptyPageSetup)
        } else {
            Ok(PageSetup::Custom(string_of(&cs, a, b)))
        }
    }

    /// The code this setup runs before a session's first cell.
    pub fn code(&self) -> (r: Option<&str>)
        ensures
            match (r, setup_code(self@)) {
                (Some(c), Some(d)) => c@ == d,
                (None, None) => true,
                _ => false,
            },
    {
        match self {
            PageSetup::Default => Some("set page(width: auto, height: auto, margin: 16pt)"),
            PageSetup::Disabled => None,
            PageSetup::Custom(code) => Some(code.as_str()),
        }
    }
}

/// Reads the `--page-setup` option, `default` when it is not given.
pub fn parse_page_setup(page_setup: Option<&str>) -> (r: Result<PageSetup, EmptyPageSetup>)
    ensures
        match (r, page_setup_of(
            match page_setup {
                Some(v) => v@,
                None => "default"@,
            },
        )) {
            (Ok(p), Ok(q)) => p@ == q,
            (Err(_), Err(_)) => true,
            _ => false,
        },
{
    match page_setup {
        Some(v) => PageSetup::parse(v),
        None => PageSetup::parse("default"),
    }
}

/// `s` without the `'#'` characters it begins with.
pub open spec fn strip_hashes(s: Seq<char>) -> Seq<char>
    decreases s.len(),
{
    if s.len() > 0 && s[0] == '#' {
        strip_hashes(s.drop_first())
    } else {
        s
    }
}

/// A setup statement as code: leading `'#'`s dropped, then leading whitespace.
pub open spec fn code_statement(s: Seq<char>) -> Seq<char> {
    crate::text::trim_start(strip_hashes(s))
}

/// Drops the leading `'#'`s of a statement and the whitespace after them, so
/// that a markup-style `#set ...` runs as code.
pub fn normalize_code_statement(code: &str) -> (r: String)
    ensures
        r@ == code_statement(code@),
{
    let cs = chars_of(code);
    let mut i: usize = 0;
    assert(cs@.subrange(0, cs.len() as int) =~= cs@);
    while i < cs.len() && cs[i] == '#'
        invariant
            i <= cs.len(),
            cs@ == code@,
            strip_hashes(code@) == strip_hashes(cs@.subrange(i as int, cs.len() as int)),
        decreases cs.len() - i,
    {
        assert(cs@.subrange(i as int, cs.len() as int).drop_first() =~= cs@.subrange(
            i + 1,
            cs.len() as int,
        ));
        i += 1;
    }
    let ghost h = cs@.subrange(i as int, cs.len() as int);
    assert(strip_hashes(h) == h);
    let mut j = i;
    while j < cs.len() && crate::text::is_whitespace(cs[j])
        invariant
            i <= j <= cs.len(),
            cs@ == code@,
            h == cs@.subrange(i as int, cs.len() as int),
            crate::text::trim_start(h) == crate::text::trim_start(
                cs@.subrange(j as int, cs.len() as int),
            ),
        decreases cs.len() - j,
    {
        assert(cs@.subrange(j as int, cs.len() as int).drop_first() =~= cs@.subrange(
            j + 1,
            cs.len() as int,
        ));
        j += 1;
    }
    string_of(&cs, j, cs.len())
}

/// The source a cell runs as once its page setup is put before it.
pub open spec fn cell_source_text(p: PageSetupV, code: Seq<char>) -> Seq<char> {
    match setup_code(p) {
        Some(s) => code_statement(s) + seq!['\n'] + code,
        None => code,
    }
}

/// The source that a cell runs as: the setup statement, a line break, then
/// the cell; the cell alone when there is no setup.
pub fn cell_source(page_setup: &PageSetup, code: &str) -> (s: String)
    ensures
        s@ == cell_source_text(page_setup@, code@),
{
    let mut s = String::new();
    if let Some(setup) = page_setup.code() {
        let stmt = normalize_code_statement(setup);
        push_str(&mut s, stmt.as_str());
        push_char(&mut s, '\n');
    }
    push_str(&mut s, code);
    assert(s@ =~= cell_source_text(page_setup@, code@));
    s
}

/// The REPL's test for an unfinished input: the notebook's prefixes, and
/// `expected expression`.
pub open spec fn repl_incomplete_message(m: Seq<char>) -> bool {
    let t = trim(m);
    ||| starts_with(t, "unclosed "@)
    ||| starts_with(t, "expected expression"@)
    ||| starts_with(t, "expected block"@)
    ||| starts_with(t, "expected argument list"@)
    ||| starts_with(t, "expected identifier"@)
    ||| starts_with(t, "expected pattern"@)
    ||| starts_with(t, "expected colon"@)
}

/// For the REPL, a message marks an unfinished input exactly when, once
/// trimmed, it starts with `unclosed `, `expected expression`, `expected
/// block`, `expected argument list`, `expected identifier`, `expected
/// pattern` or `expected colon`.
pub proof fn lemma_repl_incomplete_prefixes(m: Seq<char>)
    ensures
        starts_with(trim(m), "unclosed "@) ==> repl_incomplete_message(m),
        starts_with(trim(m), "expected expression"@) ==> repl_incomplete_message(m),
        starts_with(trim(m), "expected block"@) ==> repl_incomplete_message(m),
        starts_with(trim(m), "expected argument list"@) ==> repl_incomplete_message(m),
        starts_with(trim(m), "expected identifier"@) ==> repl_incomplete_message(m),
        starts_with(trim(m), "expected pattern"@) ==> repl_incomplete_message(m),
        starts_with(trim(m), "expected colon"@) ==> repl_incomplete_message(m),
        repl_incomplete_message(m) ==> (starts_with(trim(m), "unclosed "@) || starts_with(trim(m), "expected expression"@) || starts_with(trim(m), "expected block"@) || starts_with(trim(m), "expected argument list"@) || starts_with(trim(m), "expected identifier"@) || starts_with(trim(m), "expected pattern"@) || starts_with(trim(m), "expected colon"@)),
{
}

/// Whether a joined error message says the REPL input is unfinished.
pub fn is_incomplete_input(message: &str) -> (b: bool)
    ensures
        b == repl_incomplete_message(message@),
        starts_with(trim(message@), "unclosed "@) ==> b,
        starts_with(trim(message@), "expected expression"@) ==> b,
        starts_with(trim(message@), "expected block"@) ==> b,
        starts_with(trim(message@), "expected argument list"@) ==> b,
        starts_with(trim(message@), "expected identifier"@) ==> b,
        starts_with(trim(message@), "expected pattern"@) ==> b,
        starts_with(trim(message@), "expected colon"@) ==> b,
        b ==> (starts_with(trim(message@), "unclosed "@) || starts_with(trim(message@), "expected expression"@) || starts_with(trim(message@), "expected block"@) || starts_with(trim(message@), "expected argument list"@) || starts_with(trim(message@), "expected identifier"@) || starts_with(trim(message@), "expected pattern"@) || starts_with(trim(message@), "expected colon"@)),
{
    let prefixes = vec![
        "unclosed ",
        "expected expression",
        "expected block",
        "expected argument list",
        "expected identifier",
        "expected pattern",
        "expected colon",
    ];
    let b = crate::input::has_any_prefix(message, &prefixes);
    proof {
        let t = trim(message@);
        if repl_incomplete_message(message@) {
            if starts_with(t, "unclosed "@) {
                assert(starts_with(t, prefixes@[0]@));
            } else if starts_with(t, "expected expression"@) {
                assert(starts_with(t, prefixes@[1]@));
            } else if starts_with(t, "expected block"@) {
                assert(starts_with(t, prefixes@[2]@));
            } else if starts_with(t, "expected argument list"@) {
                assert(starts_with(t, prefixes@[3]@));
            } else if starts_with(t, "expected identifier"@) {
                assert(starts_with(t, prefixes@[4]@));
            } else if starts_with(t, "expected pattern"@) {
                assert(starts_with(t, prefixes@[5]@));
            } else {
                assert(starts_with(t, prefixes@[6]@));
            }
        }
    }
    b
}

/// The status that the REPL gives to the syntax-error messages `messages`.
pub fn classify_messages(messages: &Vec<String>) -> (s: InputStatus)
    ensures
        s@ == classification(messages.deep_view(), |m: Seq<char>| repl_incomplete_message(m)),
{
    if messages.len() == 0 {
        return InputStatus::Complete;
    }
    let message = join_lines(messages);
    if is_incomplete_input(message.as_str()) {
        InputStatus::Incomplete(message)
    } else {
        InputStatus::Invalid(message)
    }
}

/// Classifies a REPL input, read as Typst code, by the syntax errors Typst
/// reports on it.
pub fn classify_input(source: &str) -> (s: InputStatus)
    ensures
        s@ == classification(code_syntax_errors(source@), |m: Seq<char>| repl_incomplete_message(m)),
{
    let errors = parse_code_errors(source);
    classify_messages(&errors)
}

} // verus!
