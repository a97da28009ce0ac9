//! Reading a notebook cell: leading blank lines and `// jupytypst:` directive
//! lines are consumed, a `format=` directive picks the render mode, and the
//! rest of the cell is its body.

use crate::modes::RenderMode;
use crate::text::{
    first_line_len, is_ws, trim_end, trim_start, chars_of, equals, has_prefix, lemma_split_lines_unfold, line_len, push_str, split_lines,
    starts_with, string_of, trim, trim_bounds,
};
use vstd::prelude::*;

verus! {

/// A cell split into the mode it renders in and the Typst source it runs.
#[derive(Debug, PartialEq, Eq)]
pub struct ParsedCell {
    pub mode: RenderMode,
    pub body: String,
}

/// Why a cell's directive was refused.
#[derive(Debug, PartialEq, Eq)]
pub enum CellError {
    /// A directive other than `format=...`; holds the directive, trimmed.
    UnsupportedDirective(String),
    /// A `format=` directive with a value other than `svg` or `html`.
    UnsupportedFormat(String),
    /// A `mode=eval` directive, which `mode=` directives refuse.
    EvalModeRemoved,
    /// A `mode=` directive with a value other than `svg`, `html` or `eval`.
    UnsupportedMode(String),
}

/// `CellError` over character sequences.
pub enum CellFault {
    Directive(Seq<char>),
    Format(Seq<char>),
    EvalMode,
    Mode(Seq<char>),
}

impl View for CellError {
    type V = CellFault;

    open spec fn view(&self) -> CellFault {
        match self {
            CellError::UnsupportedDirective(d) => CellFault::Directive(d@),
            CellError::UnsupportedFormat(f) => CellFault::Format(f@),
            CellError::EvalModeRemoved => CellFault::EvalMode,
            CellError::UnsupportedMode(m) => CellFault::Mode(m@),
        }
    }
}

pub open spec fn fault_message(f: CellFault) -> Seq<char> {
    match f {
        CellFault::Directive(d) => "unsupported jupytypst directive `"@ + d + "`"@,
        CellFault::Format(v) => "unsupported jupytypst format `"@ + v + "`"@,
        CellFault::EvalMode => "jupytypst no longer supports mode=eval; use mode=svg or mode=html"@,
        CellFault::Mode(v) => "unsupported jupytypst mode `"@ + v + "`"@,
    }
}

impl CellError {
    /// The error's text, as it is shown to the user.
    pub fn message(&self) -> (m: String)
        ensures
            m@ == fault_message(self@),
    {
        let mut m = String::new();
        match self {
            CellError::UnsupportedDirective(d) => {
                push_str(&mut m, "unsupported jupytypst directive `");
                push_str(&mut m, d.as_str());
            },
            CellError::UnsupportedFormat(v) => {
                push_str(&mut m, "unsupported jupytypst format `");
                push_str(&mut m, v.as_str());
            },
            CellError::EvalModeRemoved => {
                return "jupytypst no longer supports mode=eval; use mode=svg or mode=html".to_owned();
            },
            CellError::UnsupportedMode(v) => {
                push_str(&mut m, "unsupported jupytypst mode `");
                push_str(&mut m, v.as_str());
            },
        }
        push_str(&mut m, "`");
        m
    }
}

pub open spec fn directive_prefix() -> Seq<char> {
    "// jupytypst:"@
}

pub open spec fn format_key() -> Seq<char> {
    "format="@
}

/// The directives a cell understands.
#[derive(Clone, Copy, PartialEq, Eq, Structural)]
pub enum Dialect {
    /// `// jupytypst: format=svg|html`.
    Format,
    /// `// jupytypst: mode=svg|html`, which refuses `mode=eval`.
    Mode,
}

pub open spec fn mode_key() -> Seq<char> {
    "mode="@
}

/// The mode that the text after `// jupytypst:` selects in the `mode=` dialect.
pub open spec fn mode_directive_mode(rest: Seq<char>) -> Result<RenderMode, CellFault> {
    let r = trim(rest);
    if starts_with(r, mode_key()) {
        let value = trim(r.skip(mode_key().len() as int));
        if value == "eval"@ {
            Err(CellFault::EvalMode)
        } else if value == "svg"@ {
            Ok(RenderMode::Svg)
        } else if value == "html"@ {
            Ok(RenderMode::Html)
        } else {
            Err(CellFault::Mode(value))
        }
    } else {
        Err(CellFault::Directive(r))
    }
}

pub open spec fn dialect_mode(d: Dialect, rest: Seq<char>) -> Result<RenderMode, CellFault> {
    match d {
        Dialect::Format => directive_mode(rest),
        Dialect::Mode => mode_directive_mode(rest),
    }
}

/// The mode that the text after `// jupytypst:` selects.
pub open spec fn directive_mode(rest: Seq<char>) -> Result<RenderMode, CellFault> {
    let r = trim(rest);
    if starts_with(r, format_key()) {
        let value = trim(r.skip(format_key().len() as int));
        if value == "svg"@ {
            Ok(RenderMode::Svg)
        } else if value == "html"@ {
            Ok(RenderMode::Html)
        } else {
            Err(CellFault::Format(value))
        }
    } else {
        Err(CellFault::Directive(r))
    }
}

pub open spec fn shift(r: Result<(RenderMode, nat), CellFault>, n: nat) -> Result<
    (RenderMode, nat),
    CellFault,
> {
    match r {
        Ok((m, k)) => Ok((m, k + n)),
        Err(e) => Err(e),
    }
}

/// Reads the cell's leading lines: the mode they leave in force and how many
/// characters they take, or the first directive that is refused.
pub open spec fn cell_header(lines: Seq<Seq<char>>, mode: RenderMode, d: Dialect) -> Result<
    (RenderMode, nat),
    CellFault,
>
    decreases lines.len(),
{
    if lines.len() == 0 {
        Ok((mode, 0))
    } else {
        let line = lines[0];
        let t = trim(line);
        if t.len() == 0 {
            shift(cell_header(lines.drop_first(), mode, d), line.len())
        } else if starts_with(t, directive_prefix()) {
            match dialect_mode(d, t.skip(directive_prefix().len() as int)) {
                Ok(m) => shift(cell_header(lines.drop_first(), m, d), line.len()),
                Err(e) => Err(e),
            }
        } else {
            Ok((mode, 0))
        }
    }
}

/// What `parse_cell` gives for `source`: the mode and the body, or the refusal.
pub open spec fn parsed_cell(source: Seq<char>, default_mode: RenderMode, d: Dialect) -> Result<
    (RenderMode, Seq<char>),
    CellFault,
> {
    match cell_header(split_lines(source), default_mode, d) {
        Ok((m, k)) => Ok((m, source.skip(k as int))),
        Err(e) => Err(e),
    }
}

/// A cell whose first line holds neither blanks only nor a directive runs as
/// it is, in the default mode.
pub proof fn lemma_plain_cell_runs_whole(source: Seq<char>, default_mode: RenderMode, d: Dialect)
    requires
        source.len() > 0,
        trim(source.take(first_line_len(source) as int)).len() > 0,
        !starts_with(trim(source.take(first_line_len(source) as int)), directive_prefix()),
    ensures
        parsed_cell(source, default_mode, d) == Ok::<(RenderMode, Seq<char>), CellFault>(
            (default_mode, source),
        ),
{
    lemma_split_lines_unfold(source);
    assert(split_lines(source)[0] == source.take(first_line_len(source) as int));
    assert(source.skip(0) =~= source);
}

proof fn lemma_header_leaves_plain_rest(s: Seq<char>, mode: RenderMode, d: Dialect)
    requires
        cell_header(split_lines(s), mode, d) is Ok,
    ensures
        ({
            let (m, k) = cell_header(split_lines(s), mode, d)->Ok_0;
            &&& k <= s.len()
            &&& cell_header(split_lines(s.skip(k as int)), m, d) == Ok::<
                (RenderMode, nat),
                CellFault,
            >((m, 0))
        }),
    decreases s.len(),
{
    if s.len() == 0 {
        assert(s.skip(0) =~= s);
    } else {
        lemma_split_lines_unfold(s);
        let l = first_line_len(s);
        let rest = s.skip(l as int);
        assert(split_lines(s)[0] == s.take(l as int));
        assert(split_lines(s).drop_first() =~= split_lines(rest));
        let t = trim(s.take(l as int));
        if t.len() == 0 {
            lemma_header_leaves_plain_rest(rest, mode, d);
            let k2 = cell_header(split_lines(rest), mode, d)->Ok_0.1;
            assert(s.skip((k2 + l) as int) =~= rest.skip(k2 as int));
        } else if starts_with(t, directive_prefix()) {
            let m1 = dialect_mode(d, t.skip(directive_prefix().len() as int))->Ok_0;
            lemma_header_leaves_plain_rest(rest, m1, d);
            let k2 = cell_header(split_lines(rest), m1, d)->Ok_0.1;
            assert(s.skip((k2 + l) as int) =~= rest.skip(k2 as int));
        } else {
            assert(s.skip(0) =~= s);
        }
    }
}

/// Reading a cell's body again, in the mode the cell selected, gives the
/// same cell back; and the body is what ends the source.
pub proof fn lemma_reparse_body(source: Seq<char>, default_mode: RenderMode, d: Dialect)
    requires
        parsed_cell(source, default_mode, d) is Ok,
    ensures
        ({
            let (m, body) = parsed_cell(source, default_mode, d)->Ok_0;
            &&& body.len() <= source.len()
            &&& source.skip(source.len() - body.len()) == body
            &&& parsed_cell(body, m, d) == Ok::<(RenderMode, Seq<char>), CellFault>((m, body))
        }),
{
    lemma_header_leaves_plain_rest(source, default_mode, d);
    let (m, k) = cell_header(split_lines(source), default_mode, d)->Ok_0;
    let body = source.skip(k as int);
    assert(body.skip(0) =~= body);
    assert(source.skip(source.len() - body.len()) =~= body);
}

/// The name a `format=` directive gives a mode.
pub open spec fn format_name(m: RenderMode) -> Seq<char> {
    match m {
        RenderMode::Svg => "svg"@,
        RenderMode::Html => "html"@,
    }
}

/// The directive line that selects `m`: `// jupytypst: format=<name>` and a
/// line break.
pub open spec fn format_directive_line(m: RenderMode) -> Seq<char> {
    directive_prefix() + " format="@ + format_name(m) + seq!['\n']
}

proof fn lemma_first_line_of_concat(l: Seq<char>, rest: Seq<char>)
    requires
        l.len() > 0,
        l.last() == '\n',
        forall|i: int| 0 <= i < l.len() - 1 ==> l[i] != '\n',
    ensures
        first_line_len(l + rest) == l.len(),
    decreases l.len(),
{
    if l.len() > 1 {
        let t = l.drop_first();
        assert((l + rest).drop_first() =~= t + rest);
        assert forall|i: int| 0 <= i < t.len() - 1 implies t[i] != '\n' by {
            assert(t[i] == l[i + 1]);
        }
        lemma_first_line_of_concat(t, rest);
    }
}

proof fn lemma_trim_plain_ends(s: Seq<char>)
    requires
        s.len() > 0,
        !is_ws(s[0]),
        !is_ws(s.last()),
    ensures
        trim(s) == s,
{
}

/// A cell that begins with a `format=` directive line runs the rest of the
/// cell in the mode the directive names, whatever the default mode, as long
/// as the rest begins with a line of code.
pub proof fn lemma_format_directive_selects_mode(m: RenderMode, body: Seq<char>, default_mode: RenderMode)
    requires
        body.len() > 0,
        trim(body.take(first_line_len(body) as int)).len() > 0,
        !starts_with(trim(body.take(first_line_len(body) as int)), directive_prefix()),
    ensures
        parsed_cell(format_directive_line(m) + body, default_mode, Dialect::Format) == Ok::<
            (RenderMode, Seq<char>),
            CellFault,
        >((m, body)),
{
    reveal_strlit("// jupytypst:");
    reveal_strlit(" format=");
    reveal_strlit("format=");
    reveal_strlit("svg");
    reveal_strlit("html");
    let line = format_directive_line(m);
    let source = line + body;
    let name = format_name(m);
    assert(name.len() >= 3);
    assert(!is_ws(name[0]) && !is_ws(name.last()));
    assert forall|i: int| 0 <= i < line.len() - 1 implies line[i] != '\n' by {
        if i < 13 {
            assert(line[i] == directive_prefix()[i]);
        } else if i < 21 {
            assert(line[i] == " format="@[i - 13]);
        } else {
            assert(line[i] == name[i - 21]);
        }
    }
    lemma_first_line_of_concat(line, body);
    lemma_split_lines_unfold(source);
    assert(source.take(line.len() as int) =~= line);
    assert(source.skip(line.len() as int) =~= body);
    let t = directive_prefix() + " format="@ + name;
    assert(line.drop_last() =~= t);
    assert(trim_start(line) == line);
    assert(trim_end(line) == trim_end(t));
    lemma_trim_plain_ends(t);
    assert(trim(line) == t);
    assert(t.take(13) =~= directive_prefix());
    let after = t.skip(13);
    assert(after =~= " format="@ + name);
    assert(after.drop_first() =~= "format="@ + name);
    lemma_trim_plain_ends("format="@ + name);
    assert(trim(after) == "format="@ + name);
    assert(("format="@ + name).take(7) =~= "format="@);
    assert(("format="@ + name).skip(7) =~= name);
    lemma_trim_plain_ends(name);
    assert(directive_mode(after) == Ok::<RenderMode, CellFault>(m));
    lemma_plain_cell_runs_whole(body, m, Dialect::Format);
    lemma_split_lines_unfold(body);
    assert(split_lines(source).drop_first() =~= split_lines(body));
}

/// In the `mode=` dialect, a cell that begins with `// jupytypst: mode=eval`
/// is refused, whatever follows.
pub proof fn lemma_eval_mode_refused(rest: Seq<char>, default_mode: RenderMode)
    ensures
        parsed_cell(
            directive_prefix() + " mode=eval\n"@ + rest,
            default_mode,
            Dialect::Mode,
        ) == Err::<(RenderMode, Seq<char>), CellFault>(CellFault::EvalMode),
{
    reveal_strlit("// jupytypst:");
    reveal_strlit(" mode=eval\n");
    reveal_strlit(" mode=eval");
    reveal_strlit("mode=eval");
    reveal_strlit("mode=");
    reveal_strlit("eval");
    let line = directive_prefix() + " mode=eval\n"@;
    let source = line + rest;
    assert(source =~= line + rest);
    assert forall|i: int| 0 <= i < line.len() - 1 implies line[i] != '\n' by {
        if i < 13 {
            assert(line[i] == directive_prefix()[i]);
        } else {
            assert(line[i] == " mode=eval\n"@[i - 13]);
        }
    }
    lemma_first_line_of_concat(line, rest);
    lemma_split_lines_unfold(source);
    assert(source.take(line.len() as int) =~= line);
    let t = directive_prefix() + " mode=eval"@;
    assert(line.drop_last() =~= t);
    assert(trim_start(line) == line);
    assert(trim_end(line) == trim_end(t));
    lemma_trim_plain_ends(t);
    assert(trim(line) == t);
    assert(t.take(13) =~= directive_prefix());
    let after = t.skip(13);
    assert(after =~= " mode=eval"@);
    assert(after.drop_first() =~= "mode=eval"@);
    lemma_trim_plain_ends("mode=eval"@);
    assert(trim(after) == "mode=eval"@);
    assert("mode=eval"@.take(5) =~= "mode="@);
    assert("mode=eval"@.skip(5) =~= "eval"@);
    lemma_trim_plain_ends("eval"@);
}

/// Reads the `mode=` directive text in `v[lo..hi]`.
fn parse_mode_directive(v: &Vec<char>, lo: usize, hi: usize) -> (r: Result<RenderMode, CellError>)
    requires
        lo <= hi <= v.len(),
    ensures
        match (r, mode_directive_mode(v@.subrange(lo as int, hi as int))) {
            (Ok(m), Ok(n)) => m == n,
            (Err(e), Err(f)) => e@ == f,
            _ => false,
        },
{
    let (a, b) = trim_bounds(v, lo, hi);
    let key = chars_of("mode=");
    let ghost r = v@.subrange(a as int, b as int);
    if has_prefix(v, a, b, &key) {
        let (c, d) = trim_bounds(v, a + key.len(), b);
        assert(r.skip(key@.len() as int) =~= v@.subrange(a + key.len(), b as int));
        if equals(v, c, d, &chars_of("eval")) {
            Err(CellError::EvalModeRemoved)
        } else if equals(v, c, d, &chars_of("svg")) {
            Ok(RenderMode::Svg)
        } else if equals(v, c, d, &chars_of("html")) {
            Ok(RenderMode::Html)
        } else {
            Err(CellError::UnsupportedMode(string_of(v, c, d)))
        }
    } else {
        Err(CellError::UnsupportedDirective(string_of(v, a, b)))
    }
}

/// Reads the directive text in `v[lo..hi]`.
fn parse_directive(v: &Vec<char>, lo: usize, hi: usize) -> (r: Result<RenderMode, CellError>)
    requires
        lo <= hi <= v.len(),
    ensures
        match (r, directive_mode(v@.subrange(lo as int, hi as int))) {
            (Ok(m), Ok(n)) => m == n,
            (Err(e), Err(f)) => e@ == f,
            _ => false,
        },
{
    let (a, b) = trim_bounds(v, lo, hi);
    let key = chars_of("format=");
    let ghost r = v@.subrange(a as int, b as int);
    if has_prefix(v, a, b, &key) {
        let (c, d) = trim_bounds(v, a + key.len(), b);
        assert(r.skip(key@.len() as int) =~= v@.subrange(a + key.len(), b as int));
        if equals(v, c, d, &chars_of("svg")) {
            Ok(RenderMode::Svg)
        } else if equals(v, c, d, &chars_of("html")) {
            Ok(RenderMode::Html)
        } else {
            Err(CellError::UnsupportedFormat(string_of(v, c, d)))
        }
    } else {
        Err(CellError::UnsupportedDirective(string_of(v, a, b)))
    }
}

/// Splits a cell into its render mode and body. Blank lines and
/// `// jupytypst:` directive lines at the top are consumed; the last
/// `format=` directive decides the mode, `default_mode` applies without one.
pub fn parse_cell(source: &str, default_mode: RenderMode) -> (r: Result<ParsedCell, CellError>)
    ensures
        match (r, parsed_cell(source@, default_mode, Dialect::Format)) {
            (Ok(c), Ok((m, b))) => c.mode == m && c.body@ == b,
            (Err(e), Err(f)) => e@ == f,
            _ => false,
        },
{
    parse_cell_in(source, default_mode, Dialect::Format)
}

/// `parse_cell` for the directives of `dialect`.
pub fn parse_cell_in(source: &str, default_mode: RenderMode, dialect: Dialect) -> (r: Result<
    ParsedCell,
    CellError,
>)
    ensures
        match (r, parsed_cell(source@, default_mode, dialect)) {
            (Ok(c), Ok((m, b))) => c.mode == m && c.body@ == b,
            (Err(e), Err(f)) => e@ == f,
            _ => false,
        },
{
    let cs = chars_of(source);
    let prefix = chars_of("// jupytypst:");
    let mut mode = default_mode;
    let mut pos: usize = 0;
    assert(cs@.skip(0) =~= cs@);
    while pos < cs.len()
        invariant
            pos <= cs.len(),
            cs@ == source@,
            prefix@ == directive_prefix(),
            cell_header(split_lines(cs@), default_mode, dialect) == shift(
                cell_header(split_lines(cs@.skip(pos as int)), mode, dialect),
                pos as nat,
            ),
        decreases cs.len() - pos,
    {
        let ghost rest = cs@.skip(pos as int);
        let k = line_len(&cs, pos, cs.len());
        assert(cs@.subrange(pos as int, cs.len() as int) =~= rest);
        proof {
            lemma_split_lines_unfold(rest);
        }
        let ghost line = rest.take(k as int);
        assert(line =~= cs@.subrange(pos as int, pos + k));
        assert(rest.skip(k as int) =~= cs@.skip(pos + k));
        assert(split_lines(rest)[0] == line);
        assert(split_lines(rest).drop_first() =~= split_lines(cs@.skip(pos + k)));
        let (a, b) = trim_bounds(&cs, pos, pos + k);
        if a == b {
            pos = pos + k;
        } else if has_prefix(&cs, a, b, &prefix) {
            assert(cs@.subrange(a as int, b as int).skip(prefix@.len() as int) =~= cs@.subrange(
                a + prefix.len(),
                b as int,
            ));
            let parsed = match dialect {
                Dialect::Format => parse_directive(&cs, a + prefix.len(), b),
                Dialect::Mode => parse_mode_directive(&cs, a + prefix.len(), b),
            };
            match parsed {
                Ok(m) => {
                    mode = m;
                    pos = pos + k;
                },
                Err(e) => {
                    return Err(e);
                },
            }
        } else {
            let body = string_of(&cs, pos, cs.len());
            assert(cs@.subrange(pos as int, cs.len() as int) =~= cs@.skip(pos as int));
            return Ok(ParsedCell { mode, body });
        }
    }
    assert(cs@.skip(pos as int) =~= Seq::<char>::empty());
    let body = String::new();
    assert(body@ =~= cs@.skip(pos as int));
    Ok(ParsedCell { mode, body })
}

} // verus!
