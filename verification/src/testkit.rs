//! Snapshot cases for the kernel: a case is a kernel configuration, files
//! to place in the world's root, and requests; its snapshot is a text that
//! records each request and its outcome, with machine-specific paths and
//! workspace package versions made uniform.

use crate::cell::{fault_message, parse_cell, parsed_cell, Dialect, ParsedCell};
use crate::modes::{RenderMode, SourceMode, WorldOptions};
use crate::output::OutputKind;
use crate::text::{
    chars_of, ends_with, has_prefix, lines, lines_of, push_char, push_chars, push_decimal,
    push_str, replace_all, replaced, starts_with, decimal,
};
use vstd::prelude::*;

verus! {

/// A kernel configuration, the files a case places in the world's root,
/// and the requests it sends.
pub struct KernelCase<'a> {
    pub init: KernelInit,
    pub fixtures: Vec<Fixture<'a>>,
    pub requests: Vec<Request<'a>>,
}

/// How the kernel of a case starts.
pub struct KernelInit {
    pub default_format: RenderMode,
    pub source_mode: SourceMode,
    pub page_setup: String,
    pub world_options: WorldOptions,
}

/// A file placed at `path` under the world's root.
pub struct Fixture<'a> {
    pub path: &'a str,
    pub contents: &'a str,
}

/// A request of a case.
pub enum Request<'a> {
    /// Executes a cell, directives included.
    Execute { input: &'a str },
    /// Runs a source in `format`, without reading directives.
    ExecuteRaw { input: &'a str, format: RenderMode },
}

impl Default for KernelInit {
    /// SVG output, markup cells, the default page setup and default world options.
    fn default() -> (k: Self)
        ensures
            k.default_format == RenderMode::Svg,
            k.source_mode == SourceMode::Markup,
            k.page_setup@ == crate::DEFAULT_PAGE_SETUP@,
            k.world_options.is_default(),
    {
        KernelInit {
            default_format: RenderMode::Svg,
            source_mode: SourceMode::Markup,
            page_setup: crate::DEFAULT_PAGE_SETUP.to_owned(),
            world_options: WorldOptions::default(),
        }
    }
}

impl KernelInit {
    /// The default configuration with the given output format and source mode.
    pub fn new(default_format: RenderMode, source_mode: SourceMode) -> (k: Self)
        ensures
            k.default_format == default_format,
            k.source_mode == source_mode,
            k.page_setup@ == crate::DEFAULT_PAGE_SETUP@,
            k.world_options.is_default(),
    {
        let base = Self::default();
        KernelInit {
            default_format,
            source_mode,
            page_setup: base.page_setup,
            world_options: base.world_options,
        }
    }

    /// The configuration with `page_setup` as its page setup code.
    pub fn with_page_setup(self, page_setup: String) -> (k: Self)
        ensures
            k.default_format == self.default_format,
            k.source_mode == self.source_mode,
            k.page_setup == page_setup,
            k.world_options == self.world_options,
    {
        KernelInit { page_setup, ..self }
    }

    /// The configuration with `world_options` for its world.
    pub fn with_world_options(self, world_options: WorldOptions) -> (k: Self)
        ensures
            k.default_format == self.default_format,
            k.source_mode == self.source_mode,
            k.page_setup == self.page_setup,
            k.world_options == world_options,
    {
        KernelInit { world_options, ..self }
    }
}

/// `"  "` before each line and a line break after it.
pub open spec fn indented(ls: Seq<Seq<char>>) -> Seq<char>
    decreases ls.len(),
{
    if ls.len() == 0 {
        Seq::empty()
    } else {
        indented(ls.drop_last()) + "  "@ + ls.last() + seq!['\n']
    }
}

/// A labelled, fenced block holding `content`, indented by two spaces; a
/// content that ends with a line break leaves an empty line before the fence.
pub open spec fn block_text(label: Seq<char>, info: Seq<char>, content: Seq<char>) -> Seq<char> {
    label + ": |\n"@ + "  ```"@ + info + seq!['\n'] + indented(lines(content)) + (if ends_with(
        content,
        seq!['\n'],
    ) {
        seq!['\n']
    } else {
        Seq::empty()
    }) + "  ```\n"@
}

/// Appends `content` as a fenced block under `label`.
pub fn write_block(snapshot: &mut String, label: &str, info: &str, content: &str)
    ensures
        final(snapshot)@ == old(snapshot)@ + block_text(label@, info@, content@),
{
    push_str(snapshot, label);
    push_str(snapshot, ": |\n");
    push_str(snapshot, "  ```");
    push_str(snapshot, info);
    push_char(snapshot, '\n');
    let ghost head = snapshot@;
    let ls = lines_of(content);
    let ghost dv = ls.deep_view();
    let mut i: usize = 0;
    assert(dv.take(0) =~= Seq::<Seq<char>>::empty());
    while i < ls.len()
        invariant
            i <= ls.len(),
            dv == ls.deep_view(),
            dv.len() == ls.len(),
            snapshot@ == head + indented(dv.take(i as int)),
        decreases ls.len() - i,
    {
        assert(dv.take(i + 1).drop_last() =~= dv.take(i as int));
        assert(dv[i as int] == ls[i as int]@);
        push_str(snapshot, "  ");
        push_str(snapshot, ls[i].as_str());
        push_char(snapshot, '\n');
        assert(snapshot@ =~= head + indented(dv.take(i + 1)));
        i += 1;
    }
    assert(dv.take(ls.len() as int) =~= dv);
    let cs = chars_of(content);
    let ends = cs.len() > 0 && cs[cs.len() - 1] == '\n';
    assert(ends == ends_with(content@, seq!['\n'])) by {
        if cs.len() > 0 {
            let t = content@.skip(content@.len() - 1);
            assert(t =~= seq![content@.last()]);
            assert(t[0] == content@.last());
            if content@.last() == '\n' {
                assert(t =~= seq!['\n']);
            }
        }
    }
    if ends {
        push_char(snapshot, '\n');
    }
    push_str(snapshot, "  ```\n");
    assert(snapshot@ =~= old(snapshot)@ + block_text(label@, info@, content@));
}

/// The `{:?}` text of the world's inputs.
pub uninterp spec fn debug_pairs(pairs: Seq<(Seq<char>, Seq<char>)>) -> Seq<char>;

/// Formats `inputs` with `{:?}` (std's `Debug` for a vector of string pairs).
/// Claims only that the text depends on the pairs alone.
#[verifier::external_body]
fn debug_inputs(inputs: &Vec<(String, String)>) -> (s: String)
    ensures
        s@ == debug_pairs(inputs.deep_view()),
{
    format!("{:?}", inputs)
}

/// The fixture lines of a snapshot's header.
pub open spec fn fixtures_text(fs: Seq<(Seq<char>, Seq<char>)>) -> Seq<char>
    decreases fs.len(),
{
    if fs.len() == 0 {
        Seq::empty()
    } else {
        fixtures_text(fs.drop_last()) + "  - path: "@ + fs.last().0 + seq!['\n'] + block_text(
            "    contents"@,
            "typ"@,
            fs.last().1,
        )
    }
}

pub open spec fn fixture_views<'a>(fs: Seq<Fixture<'a>>) -> Seq<(Seq<char>, Seq<char>)> {
    fs.map_values(|f: Fixture<'a>| (f.path@, f.contents@))
}

/// A snapshot's header: the configuration, and the fixtures when there are any.
pub open spec fn init_text<'a>(case: KernelCase<'a>) -> Seq<char> {
    "init:\n"@ + "  default_format: "@ + case.init.default_format.debug_spec() + seq!['\n']
        + "  source_mode: "@ + case.init.source_mode.debug_spec() + seq!['\n'] + block_text(
        "  page_setup"@,
        "typc"@,
        case.init.page_setup@,
    ) + "  inputs: "@ + debug_pairs(case.init.world_options.inputs.deep_view()) + seq!['\n'] + (
    if case.fixtures.len() == 0 {
        Seq::empty()
    } else {
        "fixtures:\n"@ + fixtures_text(fixture_views(case.fixtures@))
    })
}

/// Appends the header of a case's snapshot.
pub fn write_init(snapshot: &mut String, case: &KernelCase)
    ensures
        final(snapshot)@ == old(snapshot)@ + init_text(*case),
{
    push_str(snapshot, "init:\n");
    push_str(snapshot, "  default_format: ");
    push_str(snapshot, case.init.default_format.debug_name().as_str());
    push_char(snapshot, '\n');
    push_str(snapshot, "  source_mode: ");
    push_str(snapshot, case.init.source_mode.debug_name().as_str());
    push_char(snapshot, '\n');
    write_block(snapshot, "  page_setup", "typc", case.init.page_setup.as_str());
    push_str(snapshot, "  inputs: ");
    push_str(snapshot, debug_inputs(&case.init.world_options.inputs).as_str());
    push_char(snapshot, '\n');
    let ghost head = snapshot@;
    if case.fixtures.len() > 0 {
        push_str(snapshot, "fixtures:\n");
        let ghost start = snapshot@;
        let ghost fv = fixture_views(case.fixtures@);
        let mut i: usize = 0;
        assert(fv.take(0) =~= Seq::<(Seq<char>, Seq<char>)>::empty());
        while i < case.fixtures.len()
            invariant
                i <= case.fixtures.len(),
                fv == fixture_views(case.fixtures@),
                fv.len() == case.fixtures.len(),
                snapshot@ == start + fixtures_text(fv.take(i as int)),
            decreases case.fixtures.len() - i,
        {
            assert(fv.take(i + 1).drop_last() =~= fv.take(i as int));
            assert(fv[i as int] == (case.fixtures@[i as int].path@, case.fixtures@[i as int].contents@));
            push_str(snapshot, "  - path: ");
            push_str(snapshot, case.fixtures[i].path);
            push_char(snapshot, '\n');
            write_block(snapshot, "    contents", "typ", case.fixtures[i].contents);
            assert(snapshot@ =~= start + fixtures_text(fv.take(i + 1)));
            i += 1;
        }
        assert(fv.take(case.fixtures.len() as int) =~= fv);
    }
    assert(snapshot@ =~= old(snapshot)@ + init_text(*case));
}

/// The line that opens the record of the request at `index` (from zero).
pub open spec fn request_header(index: nat) -> Seq<char> {
    "\n--- request "@ + decimal(index + 1) + " ---\n"@
}

/// Appends the line that opens the record of the request at `index`.
pub fn write_request_header(snapshot: &mut String, index: usize)
    requires
        index < usize::MAX,
    ensures
        final(snapshot)@ == old(snapshot)@ + request_header(index as nat),
{
    push_str(snapshot, "\n--- request ");
    push_decimal(snapshot, index + 1);
    push_str(snapshot, " ---\n");
    assert(snapshot@ =~= old(snapshot)@ + request_header(index as nat));
}

/// The record of an executed cell up to its run: the input, then the mode
/// it runs in, or the refused directive.
pub open spec fn execute_text(default_format: RenderMode, input: Seq<char>) -> Seq<char> {
    "kind: execute\n"@ + block_text("input"@, "typ"@, input) + match parsed_cell(
        input,
        default_format,
        Dialect::Format,
    ) {
        Ok((m, _)) => "effective_format: "@ + m.debug_spec() + seq!['\n'],
        Err(f) => "status: error\n"@ + block_text("traceback"@, "text"@, fault_message(f)),
    }
}

/// Appends the record of an executed cell up to its run, and returns the
/// cell to run when its directives are accepted.
pub fn write_execute(snapshot: &mut String, default_format: RenderMode, input: &str) -> (cell:
    Option<ParsedCell>)
    ensures
        final(snapshot)@ == old(snapshot)@ + execute_text(default_format, input@),
        match (cell, parsed_cell(input@, default_format, Dialect::Format)) {
            (Some(c), Ok((m, b))) => c.mode == m && c.body@ == b,
            (None, Err(_)) => true,
            _ => false,
        },
{
    push_str(snapshot, "kind: execute\n");
    write_block(snapshot, "input", "typ", input);
    match parse_cell(input, default_format) {
        Ok(cell) => {
            push_str(snapshot, "effective_format: ");
            push_str(snapshot, cell.mode.debug_name().as_str());
            push_char(snapshot, '\n');
            assert(snapshot@ =~= old(snapshot)@ + execute_text(default_format, input@));
            Some(cell)
        },
        Err(error) => {
            push_str(snapshot, "status: error\n");
            let message = error.message();
            write_block(snapshot, "traceback", "text", message.as_str());
            assert(snapshot@ =~= old(snapshot)@ + execute_text(default_format, input@));
            None
        },
    }
}

/// The record of a raw run up to the run itself.
pub open spec fn execute_raw_text(input: Seq<char>, format: RenderMode) -> Seq<char> {
    "kind: execute_raw\n"@ + "format: "@ + format.debug_spec() + seq!['\n'] + block_text(
        "input"@,
        "typ"@,
        input,
    )
}

/// Appends the record of a raw run up to the run itself.
pub fn write_execute_raw(snapshot: &mut String, input: &str, format: RenderMode)
    ensures
        final(snapshot)@ == old(snapshot)@ + execute_raw_text(input@, format),
{
    push_str(snapshot, "kind: execute_raw\n");
    push_str(snapshot, "format: ");
    push_str(snapshot, format.debug_name().as_str());
    push_char(snapshot, '\n');
    write_block(snapshot, "input", "typ", input);
    assert(snapshot@ =~= old(snapshot)@ + execute_raw_text(input@, format));
}

/// What a run gave, as the snapshot records it.
pub enum ExecutionSnapshot {
    /// The run succeeded with these warnings and this kind of output; the
    /// output's HTML, or the traceback of its failed conversion.
    Ran { warnings: Vec<String>, kind: OutputKind, rendered: Result<String, String> },
    /// The run failed with this traceback.
    Failed { traceback: String },
}

pub open spec fn warning_items(ws: Seq<Seq<char>>) -> Seq<char>
    decreases ws.len(),
{
    if ws.len() == 0 {
        Seq::empty()
    } else {
        warning_items(ws.drop_last()) + "  - "@ + ws.last() + seq!['\n']
    }
}

pub open spec fn kind_name(k: OutputKind) -> Seq<char> {
    match k {
        OutputKind::Paged => "svg"@,
        OutputKind::Html => "html"@,
    }
}

/// The record of a run's outcome.
pub open spec fn outcome_text(o: ExecutionSnapshot) -> Seq<char> {
    match o {
        ExecutionSnapshot::Ran { warnings, kind, rendered } => "status: ok\n"@ + warnings_text(
            warnings.deep_view(),
        ) + "output_kind: "@ + kind_name(kind) + seq!['\n'] + match rendered {
            Ok(html) => block_text("output"@, "html"@, html@),
            Err(tb) => block_text("traceback"@, "text"@, tb@),
        },
        ExecutionSnapshot::Failed { traceback } => "status: error\n"@ + block_text(
            "traceback"@,
            "text"@,
            traceback@,
        ),
    }
}

pub open spec fn warnings_text(ws: Seq<Seq<char>>) -> Seq<char> {
    if ws.len() == 0 {
        "warnings: []\n"@
    } else {
        "warnings:\n"@ + warning_items(ws)
    }
}

fn write_warnings(snapshot: &mut String, warnings: &Vec<String>)
    ensures
        final(snapshot)@ == old(snapshot)@ + warnings_text(warnings.deep_view()),
{
    if warnings.len() == 0 {
        push_str(snapshot, "warnings: []\n");
        return;
    }
    push_str(snapshot, "warnings:\n");
    let ghost start = snapshot@;
    let ghost dv = warnings.deep_view();
    let mut i: usize = 0;
    assert(dv.take(0) =~= Seq::<Seq<char>>::empty());
    while i < warnings.len()
        invariant
            i <= warnings.len(),
            dv == warnings.deep_view(),
            dv.len() == warnings.len(),
            snapshot@ == start + warning_items(dv.take(i as int)),
        decreases warnings.len() - i,
    {
        assert(dv.take(i + 1).drop_last() =~= dv.take(i as int));
        assert(dv[i as int] == warnings[i as int]@);
        push_str(snapshot, "  - ");
        push_str(snapshot, warnings[i].as_str());
        push_char(snapshot, '\n');
        assert(snapshot@ =~= start + warning_items(dv.take(i + 1)));
        i += 1;
    }
    assert(dv.take(warnings.len() as int) =~= dv);
    assert(snapshot@ =~= old(snapshot)@ + warnings_text(warnings.deep_view()));
}

/// Appends the record of a run's outcome.
pub fn write_execution_result(snapshot: &mut String, outcome: &ExecutionSnapshot)
    ensures
        final(snapshot)@ == old(snapshot)@ + outcome_text(*outcome),
{
    match outcome {
        ExecutionSnapshot::Ran { warnings, kind, rendered } => {
            push_str(snapshot, "status: ok\n");
            write_warnings(snapshot, warnings);
            push_str(snapshot, "output_kind: ");
            match kind {
                OutputKind::Paged => push_str(snapshot, "svg"),
                OutputKind::Html => push_str(snapshot, "html"),
            }
            push_char(snapshot, '\n');
            match rendered {
                Ok(html) => write_block(snapshot, "output", "html", html.as_str()),
                Err(tb) => write_block(snapshot, "traceback", "text", tb.as_str()),
            }
            assert(snapshot@ =~= old(snapshot)@ + outcome_text(*outcome));
        },
        ExecutionSnapshot::Failed { traceback } => {
            push_str(snapshot, "status: error\n");
            write_block(snapshot, "traceback", "text", traceback.as_str());
            assert(snapshot@ =~= old(snapshot)@ + outcome_text(*outcome));
        },
    }
}

/// The index of the first match of `p` in `s`.
pub open spec fn find_index(s: Seq<char>, p: Seq<char>) -> Option<nat>
    decreases s.len(),
{
    if s.len() < p.len() || s.len() == 0 {
        if starts_with(s, p) {
            Some(0)
        } else {
            None
        }
    } else if starts_with(s, p) {
        Some(0)
    } else {
        match find_index(s.drop_first(), p) {
            Some(i) => Some(i + 1),
            None => None,
        }
    }
}

/// How many ASCII digits `s` starts with.
pub open spec fn digit_run(s: Seq<char>) -> nat
    decreases s.len(),
{
    if s.len() > 0 && '0' <= s[0] <= '9' {
        1 + digit_run(s.drop_first())
    } else {
        0
    }
}

pub proof fn lemma_find_index_bounds(s: Seq<char>, p: Seq<char>)
    ensures
        find_index(s, p) matches Some(i) ==> i + p.len() <= s.len() && starts_with(
            s.skip(i as int),
            p,
        ),
    decreases s.len(),
{
    if s.len() < p.len() || s.len() == 0 {
        if starts_with(s, p) {
            assert(s.skip(0) =~= s);
        }
    } else if starts_with(s, p) {
        assert(s.skip(0) =~= s);
    } else {
        lemma_find_index_bounds(s.drop_first(), p);
        if let Some(i) = find_index(s.drop_first(), p) {
            assert(s.drop_first().skip(i as int) =~= s.skip((i + 1) as int));
        }
    }
}

pub proof fn lemma_digit_run_bounds(s: Seq<char>)
    ensures
        digit_run(s) <= s.len(),
    decreases s.len(),
{
    if s.len() > 0 && '0' <= s[0] <= '9' {
        lemma_digit_run_bounds(s.drop_first());
    }
}

pub open spec fn ws_prefix() -> Seq<char> {
    "@ws/p"@
}

/// `s` with each `@ws/p<digits>` that is followed by `:0.0.0` written as
/// `@ws/root`, from the start up to the first `@ws/p` that is not.
pub open spec fn ws_normalized(s: Seq<char>) -> Seq<char>
    decreases s.len(),
{
    match find_index(s, ws_prefix()) {
        None => s,
        Some(start) => {
            let ds = start + ws_prefix().len();
            let n = digit_run(s.skip(ds as int));
            let vs = ds + n;
            if n == 0 || !starts_with(s.skip(vs as int), ":0.0.0"@) {
                s
            } else {
                proof {
                    lemma_find_index_bounds(s, ws_prefix());
                    lemma_digit_run_bounds(s.skip(ds as int));
                }
                s.take(start as int) + "@ws/root"@ + ws_normalized(s.skip(vs as int))
            }
        },
    }
}

/// The first match of `p` in `v[pos..]`, as an index into `v`.
fn find_from(v: &Vec<char>, pos: usize, p: &Vec<char>) -> (r: Option<usize>)
    requires
        pos <= v.len(),
        p.len() > 0,
    ensures
        match (r, find_index(v@.skip(pos as int), p@)) {
            (Some(i), Some(j)) => i == pos + j,
            (None, None) => true,
            _ => false,
        },
{
    let mut i = pos;
    while i < v.len()
        invariant
            pos <= i <= v.len(),
            p.len() > 0,
            match (find_index(v@.skip(pos as int), p@), find_index(v@.skip(i as int), p@)) {
                (Some(a), Some(b)) => a == (i - pos) + b,
                (None, None) => true,
                _ => false,
            },
        decreases v.len() - i,
    {
        assert(v@.subrange(i as int, v.len() as int) =~= v@.skip(i as int));
        if has_prefix(v, i, v.len(), p) {
            return Some(i);
        }
        if v.len() - i < p.len() {
            return None;
        }
        assert(v@.skip(i as int).drop_first() =~= v@.skip(i + 1));
        i += 1;
    }
    assert(v@.skip(i as int) =~= Seq::<char>::empty());
    None
}

/// Writes each workspace package `@ws/p<digits>:0.0.0` as `@ws/root:0.0.0`,
/// from the start up to the first `@ws/p` that is not of that form.
pub fn normalize_workspace_packages(snapshot: String) -> (out: String)
    ensures
        out@ == ws_normalized(snapshot@),
{
    let cs = chars_of(snapshot.as_str());
    let prefix = chars_of("@ws/p");
    let version = chars_of(":0.0.0");
    let mut out = String::new();
    let mut pos: usize = 0;
    assert(cs@.skip(0) =~= cs@);
    loop
        invariant
            pos <= cs.len(),
            cs@ == snapshot@,
            prefix@ == ws_prefix(),
            version@ == ":0.0.0"@,
            ws_normalized(snapshot@) == out@ + ws_normalized(cs@.skip(pos as int)),
        decreases cs.len() - pos,
    {
        let ghost rest = cs@.skip(pos as int);
        proof {
            reveal_strlit("@ws/p");
        }
        match find_from(&cs, pos, &prefix) {
            None => {
                push_chars(&mut out, &cs, pos, cs.len());
                assert(cs@.subrange(pos as int, cs.len() as int) =~= rest);
                return out;
            },
            Some(start) => {
                proof {
                    lemma_find_index_bounds(rest, ws_prefix());
                }
                let ds = start + prefix.len();
                let mut d = ds;
                assert(cs@.skip(ds as int) =~= rest.skip((ds - pos) as int));
                while d < cs.len() && '0' <= cs[d] && cs[d] <= '9'
                    invariant
                        ds <= d <= cs.len(),
                        digit_run(cs@.skip(ds as int)) == (d - ds) + digit_run(cs@.skip(d as int)),
                    decreases cs.len() - d,
                {
                    assert(cs@.skip(d as int).drop_first() =~= cs@.skip(d + 1));
                    d += 1;
                }
                assert(d < cs.len() ==> cs@.skip(d as int)[0] == cs@[d as int]);
                let n = d - ds;
                assert(cs@.skip(d as int) =~= rest.skip((d - pos) as int));
                assert(cs@.subrange(d as int, cs.len() as int) =~= cs@.skip(d as int));
                if n == 0 || !has_prefix(&cs, d, cs.len(), &version) {
                    push_chars(&mut out, &cs, pos, cs.len());
                    assert(cs@.subrange(pos as int, cs.len() as int) =~= rest);
                    return out;
                }
                push_chars(&mut out, &cs, pos, start);
                assert(cs@.subrange(pos as int, start as int) =~= rest.take((start - pos) as int));
                push_str(&mut out, "@ws/root");
                pos = d;
            },
        }
    }
}

/// A snapshot made independent of the machine: Windows line endings become
/// `\n`, the world's root (with `/` and as given) becomes `<ROOT>`, and
/// workspace package versions become `@ws/root`.
pub open spec fn normalized_snapshot(snapshot: Seq<char>, root: Option<Seq<char>>) -> Seq<char> {
    let s = replaced(snapshot, "\r\n"@, "\n"@);
    let s = match root {
        Some(r) => replaced(replaced(s, replaced(r, "\\"@, "/"@), "<ROOT>"@), r, "<ROOT>"@),
        None => s,
    };
    ws_normalized(s)
}

/// Makes a snapshot independent of the machine it was taken on.
pub fn normalize_snapshot(snapshot: String, root: Option<&str>) -> (out: String)
    ensures
        out@ == normalized_snapshot(
            snapshot@,
            match root {
                Some(r) => Some(r@),
                None => None,
            },
        ),
{
    let mut s = replace_all(snapshot.as_str(), "\r\n", "\n");
    if let Some(root) = root {
        let slashed = replace_all(root, "\\", "/");
        s = replace_all(s.as_str(), slashed.as_str(), "<ROOT>");
        s = replace_all(s.as_str(), root, "<ROOT>");
    }
    normalize_workspace_packages(s)
}

} // verus!
