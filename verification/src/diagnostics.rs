//! Where diagnostics point: every input a session runs is registered as a
//! source of its own, and a span found in Typst's parsed text is moved back
//! onto the user's input (or onto an imported file) before it is shown.

use crate::eval::{offset_of, span_offset};
use crate::modes::SourceMode;
use crate::text::{decimal, lemma_decimal_injective, push_decimal, push_str};
use vstd::prelude::*;
use vstd::string::StringSliceAdditionalSpecFns;

verus! {

/// A text that diagnostics can point into: a user's input or a file of the
/// world, under the file id that spans carry (Typst's raw `FileId`).
#[derive(Debug, Clone)]
pub struct DiagnosticSource {
    pub id: u16,
    pub name: String,
    pub source: String,
}

/// How spans of one parsed text map to the text shown to the user: the
/// user's text starts `offset` bytes in and is `source_len` bytes long, and
/// remapped spans carry `display_id`.
#[derive(Debug, Clone, Copy, PartialEq, Eq, Structural)]
pub struct DiagnosticSourceMap {
    pub display_id: u16,
    pub offset: usize,
    pub source_len: usize,
}

/// A byte range that Typst resolved a span to, with its start before its end.
pub open spec fn range_ok(range: Option<(usize, usize)>) -> bool {
    match range {
        Some((s, e)) => s <= e,
        None => true,
    }
}

/// The span for `range`, found in the text that `map` describes, once moved
/// onto the user's text; `None` when it lies outside the user's text.
pub open spec fn remap_in(range: Option<(usize, usize)>, map: DiagnosticSourceMap) -> Option<
    (u16, usize, usize),
> {
    match range {
        Some((s, e)) => {
            if s < map.offset || e > map.offset + map.source_len {
                None
            } else {
                Some((map.display_id, (s - map.offset) as usize, (e - map.offset) as usize))
            }
        },
        None => None,
    }
}

/// The first map from index `i` on, other than `primary`, that moves its
/// range onto a user's text, and what it moves it to.
pub open spec fn first_other_remap(
    ranges: Seq<Option<(usize, usize)>>,
    maps: Seq<DiagnosticSourceMap>,
    primary: int,
    i: int,
) -> Option<(u16, usize, usize)>
    decreases maps.len() - i,
{
    if i < 0 || i >= maps.len() {
        None
    } else if i != primary && remap_in(ranges[i], maps[i]) is Some {
        remap_in(ranges[i], maps[i])
    } else {
        first_other_remap(ranges, maps, primary, i + 1)
    }
}

/// Where a span goes: the primary map's answer when it has one, else the
/// first other map's, else nowhere (the span stays as it is).
pub open spec fn remapped(
    ranges: Seq<Option<(usize, usize)>>,
    maps: Seq<DiagnosticSourceMap>,
    primary: int,
) -> Option<(u16, usize, usize)> {
    if 0 <= primary < maps.len() && remap_in(ranges[primary], maps[primary]) is Some {
        remap_in(ranges[primary], maps[primary])
    } else {
        first_other_remap(ranges, maps, primary, 0)
    }
}

/// Moves `range`, found in the text that `map` describes, onto the user's text.
pub fn remap_span_for_source(range: Option<(usize, usize)>, map: &DiagnosticSourceMap) -> (r:
    Option<(u16, usize, usize)>)
    requires
        range_ok(range),
    ensures
        r == remap_in(range, *map),
{
    match range {
        Some((s, e)) => {
            if s < map.offset || (e >= map.offset && e - map.offset > map.source_len) {
                None
            } else {
                Some((map.display_id, s - map.offset, e - map.offset))
            }
        },
        None => None,
    }
}

/// Moves a span onto a user's text. `ranges[i]` is what the span resolves to
/// in the text of `maps[i]`; the map of the input being run, `primary`, is
/// asked first, the others in order after it. `None`: the span stays.
pub fn remap_span(ranges: &Vec<Option<(usize, usize)>>, maps: &Vec<DiagnosticSourceMap>, primary: usize) -> (r:
    Option<(u16, usize, usize)>)
    requires
        ranges.len() == maps.len(),
        forall|i: int| 0 <= i < ranges.len() ==> range_ok(#[trigger] ranges@[i]),
    ensures
        r == remapped(ranges@, maps@, primary as int),
{
    if primary < maps.len() {
        let r = remap_span_for_source(ranges[primary], &maps[primary]);
        if r.is_some() {
            return r;
        }
    }
    let mut i: usize = 0;
    while i < maps.len()
        invariant
            i <= maps.len(),
            ranges.len() == maps.len(),
            forall|j: int| 0 <= j < ranges.len() ==> range_ok(#[trigger] ranges@[j]),
            remapped(ranges@, maps@, primary as int) == first_other_remap(
                ranges@,
                maps@,
                primary as int,
                i as int,
            ),
        decreases maps.len() - i,
    {
        if i != primary {
            let r = remap_span_for_source(ranges[i], &maps[i]);
            if r.is_some() {
                return r;
            }
        }
        i += 1;
    }
    None
}

/// A remapped span lies inside the user's text it was moved onto: the map
/// that answered carries its id, and the range fits in that text's length.
pub proof fn lemma_remapped_span_fits(
    ranges: Seq<Option<(usize, usize)>>,
    maps: Seq<DiagnosticSourceMap>,
    primary: int,
)
    requires
        ranges.len() == maps.len(),
        forall|i: int| 0 <= i < ranges.len() ==> range_ok(#[trigger] ranges[i]),
    ensures
        remapped(ranges, maps, primary) matches Some((id, s, e)) ==> exists|k: int|
            0 <= k < maps.len() && maps[k].display_id == id && s <= e <= #[trigger] maps[k].source_len,
{
    if 0 <= primary < maps.len() && remap_in(ranges[primary], maps[primary]) is Some {
        assert(maps[primary].source_len == maps[primary].source_len);
    } else {
        lemma_first_other_fits(ranges, maps, primary, 0);
    }
}

proof fn lemma_first_other_fits(
    ranges: Seq<Option<(usize, usize)>>,
    maps: Seq<DiagnosticSourceMap>,
    primary: int,
    i: int,
)
    requires
        ranges.len() == maps.len(),
        forall|j: int| 0 <= j < ranges.len() ==> range_ok(#[trigger] ranges[j]),
    ensures
        first_other_remap(ranges, maps, primary, i) matches Some((id, s, e)) ==> exists|k: int|
            0 <= k < maps.len() && maps[k].display_id == id && s <= e <= #[trigger] maps[k].source_len,
    decreases maps.len() - i,
{
    if 0 <= i < maps.len() {
        if i != primary && remap_in(ranges[i], maps[i]) is Some {
            assert(range_ok(ranges[i]));
            assert(maps[i].source_len == maps[i].source_len);
        } else {
            lemma_first_other_fits(ranges, maps, primary, i + 1);
        }
    }
}

/// The name a file of the world is shown under: its package, if any,
/// followed by its rooted path.
pub fn diagnostic_source_name(package: Option<&str>, rooted_path: &str) -> (s: String)
    ensures
        s@ == match package {
            Some(p) => p@ + rooted_path@,
            None => rooted_path@,
        },
{
    let mut s = String::new();
    if let Some(p) = package {
        push_str(&mut s, p);
    }
    push_str(&mut s, rooted_path);
    s
}

/// The file the `index`th input is written to, relative to the world's root.
pub open spec fn input_file_name(index: nat) -> Seq<char> {
    ".jupytypst-input-"@ + decimal(index) + ".typ"@
}

/// The path the `index`th input is shown under.
pub open spec fn input_display_path(index: nat) -> Seq<char> {
    "/jupytypst-input-"@ + decimal(index) + ".typ"@
}

/// The name the `index`th input is shown under: `<stdin:n>`, counted from one.
pub open spec fn input_name(index: nat) -> Seq<char> {
    "<stdin:"@ + decimal(index + 1) + ">"@
}

/// Where the next input of a session goes.
pub struct InputSlot {
    pub index: usize,
    /// The file the input is written to, relative to the world's root.
    pub source_path: String,
    /// The path the input is shown under.
    pub display_path: String,
}

/// The sources and source maps of a session, one pair per input run and per
/// world file that a diagnostic reached, and the index of the next input.
pub struct SourceRegistry {
    pub sources: Vec<DiagnosticSource>,
    pub maps: Vec<DiagnosticSourceMap>,
    pub next_source_index: usize,
}

/// The id, name and text of a registered source.
pub open spec fn source_view(s: DiagnosticSource) -> (u16, Seq<char>, Seq<char>) {
    (s.id, s.name@, s.source@)
}

impl SourceRegistry {
    /// Sources and maps come in pairs, each map under its source's id.
    pub open spec fn wf(&self) -> bool {
        &&& self.sources.len() == self.maps.len()
        &&& forall|i: int|
            0 <= i < self.maps.len() ==> #[trigger] self.maps@[i].display_id == self.sources@[i].id
    }

    pub open spec fn has_id(&self, id: u16) -> bool {
        exists|i: int| 0 <= i < self.sources.len() && #[trigger] self.sources@[i].id == id
    }

    /// An empty registry whose first input is numbered zero.
    pub fn new() -> (r: Self)
        ensures
            r.wf(),
            r.sources.len() == 0,
            r.next_source_index == 0,
    {
        SourceRegistry { sources: Vec::new(), maps: Vec::new(), next_source_index: 0 }
    }

    /// Takes the next input index and the paths the input is written to and
    /// shown under.
    pub fn begin_input(&mut self) -> (slot: InputSlot)
        requires
            old(self).next_source_index < usize::MAX,
        ensures
            slot.index == old(self).next_source_index,
            final(self).next_source_index == old(self).next_source_index + 1,
            final(self).sources == old(self).sources,
            final(self).maps == old(self).maps,
            slot.source_path@ == input_file_name(slot.index as nat),
            slot.display_path@ == input_display_path(slot.index as nat),
    {
        let index = self.next_source_index;
        self.next_source_index = index + 1;
        let mut source_path = String::new();
        push_str(&mut source_path, ".jupytypst-input-");
        push_decimal(&mut source_path, index);
        push_str(&mut source_path, ".typ");
        let mut display_path = String::new();
        push_str(&mut display_path, "/jupytypst-input-");
        push_decimal(&mut display_path, index);
        push_str(&mut display_path, ".typ");
        InputSlot { index, source_path, display_path }
    }

    /// Registers the `index`th input under `display_id`, read in `mode`;
    /// returns the index of its map.
    pub fn record_input(&mut self, index: usize, display_id: u16, source: &str, mode: SourceMode) -> (map_index: usize)
        requires
            old(self).wf(),
            index < usize::MAX,
        ensures
            final(self).wf(),
            final(self).next_source_index == old(self).next_source_index,
            final(self).sources@.len() == old(self).sources@.len() + 1,
            final(self).sources@.drop_last() == old(self).sources@,
            source_view(final(self).sources@.last()) == (display_id, input_name(index as nat), source@),
            final(self).maps@ == old(self).maps@.push(
                DiagnosticSourceMap {
                    display_id,
                    offset: offset_of(mode) as usize,
                    source_len: source.spec_bytes().len() as usize,
                },
            ),
            map_index == old(self).maps.len(),
    {
        let mut name = String::new();
        push_str(&mut name, "<stdin:");
        push_decimal(&mut name, index + 1);
        push_str(&mut name, ">");
        self.sources.push(DiagnosticSource { id: display_id, name, source: source.to_owned() });
        self.maps.push(
            DiagnosticSourceMap {
                display_id,
                offset: span_offset(mode),
                source_len: source.len(),
            },
        );
        assert(self.sources@.drop_last() =~= old(self).sources@);
        self.maps.len() - 1
    }

    /// Whether a source with file id `id` is registered.
    pub fn has_source(&self, id: u16) -> (b: bool)
        ensures
            b == self.has_id(id),
    {
        let mut i: usize = 0;
        while i < self.sources.len()
            invariant
                i <= self.sources.len(),
                forall|j: int| 0 <= j < i ==> #[trigger] self.sources@[j].id != id,
            decreases self.sources.len() - i,
        {
            if self.sources[i].id == id {
                return true;
            }
            i += 1;
        }
        false
    }

    /// Registers a file of the world that a diagnostic points into, unless a
    /// source with its id is registered already; returns whether it was added.
    pub fn record_world_source(&mut self, id: u16, name: String, text: &str) -> (added: bool)
        requires
            old(self).wf(),
        ensures
            final(self).wf(),
            added == !old(self).has_id(id),
            final(self).has_id(id),
            final(self).next_source_index == old(self).next_source_index,
            world_source_recorded(*old(self), *final(self), id, name@, text@, text.spec_bytes().len()),
    {
        if self.has_source(id) {
            return false;
        }
        let ghost n = name@;
        self.sources.push(DiagnosticSource { id, name, source: text.to_owned() });
        self.maps.push(DiagnosticSourceMap { display_id: id, offset: 0, source_len: text.len() });
        assert(self.sources@[self.sources.len() - 1].id == id);
        assert(self.sources@.drop_last() =~= old(self).sources@);
        true
    }
}

/// `after` is `before` with the world file `id` registered: unchanged when a
/// source with that id was there, else with the file's source and map added.
pub open spec fn world_source_recorded(
    before: SourceRegistry,
    after: SourceRegistry,
    id: u16,
    name: Seq<char>,
    text: Seq<char>,
    text_len: nat,
) -> bool {
    if before.has_id(id) {
        after.sources@ == before.sources@ && after.maps@ == before.maps@
    } else {
        &&& after.sources@.len() == before.sources@.len() + 1
        &&& after.sources@.drop_last() == before.sources@
        &&& source_view(after.sources@.last()) == (id, name, text)
        &&& after.maps@ == before.maps@.push(
            DiagnosticSourceMap { display_id: id, offset: 0, source_len: text_len as usize },
        )
    }
}

/// Registering a world file a second time changes nothing.
pub proof fn lemma_world_source_idempotent(
    r0: SourceRegistry,
    r1: SourceRegistry,
    r2: SourceRegistry,
    id: u16,
    name: Seq<char>,
    text: Seq<char>,
    text_len: nat,
)
    requires
        world_source_recorded(r0, r1, id, name, text, text_len),
        r1.has_id(id),
        world_source_recorded(r1, r2, id, name, text, text_len),
    ensures
        r2.sources@ == r1.sources@,
        r2.maps@ == r1.maps@,
{
}

/// Inputs with different indices are written to different files and shown
/// under different paths and names.
pub proof fn lemma_input_paths_distinct(i: nat, j: nat)
    requires
        i != j,
    ensures
        input_file_name(i) != input_file_name(j),
        input_display_path(i) != input_display_path(j),
        input_name(i) != input_name(j),
{
    lemma_framed_distinct(".jupytypst-input-"@, ".typ"@, i, j);
    lemma_framed_distinct("/jupytypst-input-"@, ".typ"@, i, j);
    lemma_framed_distinct("<stdin:"@, ">"@, i + 1, j + 1);
}

proof fn lemma_framed_distinct(p: Seq<char>, q: Seq<char>, i: nat, j: nat)
    requires
        i != j,
    ensures
        p + decimal(i) + q != p + decimal(j) + q,
{
    if p + decimal(i) + q == p + decimal(j) + q {
        let a = p + decimal(i) + q;
        let b = p + decimal(j) + q;
        assert(a.len() == b.len());
        assert(decimal(i).len() == decimal(j).len());
        assert(decimal(i) =~= a.subrange(p.len() as int, (p.len() + decimal(i).len()) as int));
        assert(decimal(j) =~= b.subrange(p.len() as int, (p.len() + decimal(j).len()) as int));
        assert(a.subrange(p.len() as int, (p.len() + decimal(i).len()) as int) == b.subrange(
            p.len() as int,
            (p.len() + decimal(j).len()) as int,
        ));
        lemma_decimal_injective(i, j);
    }
}

} // verus!
