//! How an input is put before Typst's parser: code is wrapped in a code
//! block, markup runs as it is, and the wrapper's length is the offset at
//! which the user's text starts.

use crate::modes::SourceMode;
use crate::text::push_str;
use vstd::prelude::*;

verus! {

pub const CODE_WRAPPER_PREFIX: &'static str = "#{\n";

pub const CODE_WRAPPER_SUFFIX: &'static str = "\n}";

pub open spec fn code_prefix() -> Seq<char> {
    seq!['#', '{', '\n']
}

pub open spec fn code_suffix() -> Seq<char> {
    seq!['\n', '}']
}

/// The text Typst parses for an input read in `mode`.
pub open spec fn wrapped_text(source: Seq<char>, mode: SourceMode) -> Seq<char> {
    match mode {
        SourceMode::Code => code_prefix() + source + code_suffix(),
        SourceMode::Markup => source,
    }
}

pub open spec fn offset_of(mode: SourceMode) -> nat {
    match mode {
        SourceMode::Code => 3,
        SourceMode::Markup => 0,
    }
}

/// Where the user's text starts in the parsed text, in bytes.
pub fn span_offset(mode: SourceMode) -> (n: usize)
    ensures
        n == offset_of(mode),
{
    match mode {
        SourceMode::Code => 3,
        SourceMode::Markup => 0,
    }
}

/// The text Typst parses for `source`: wrapped in `#{` and `}` on lines of
/// their own when it is code, unchanged when it is markup.
pub fn wrapped_source(source: &str, mode: SourceMode) -> (t: String)
    ensures
        t@ == wrapped_text(source@, mode),
{
    match mode {
        SourceMode::Code => {
            let mut t = String::new();
            proof {
                reveal_strlit("#{\n");
                reveal_strlit("\n}");
            }
            push_str(&mut t, CODE_WRAPPER_PREFIX);
            push_str(&mut t, source);
            push_str(&mut t, CODE_WRAPPER_SUFFIX);
            assert(CODE_WRAPPER_PREFIX@ =~= code_prefix());
            assert(CODE_WRAPPER_SUFFIX@ =~= code_suffix());
            t
        },
        SourceMode::Markup => source.to_owned(),
    }
}

/// The user's text is found in the parsed text exactly at the offset the
/// spans are shifted by, whatever the mode.
pub proof fn lemma_input_sits_at_offset(source: Seq<char>, mode: SourceMode)
    ensures
        wrapped_text(source, mode).subrange(
            offset_of(mode) as int,
            (offset_of(mode) + source.len()) as int,
        ) == source,
{
    assert(wrapped_text(source, mode).subrange(
        offset_of(mode) as int,
        (offset_of(mode) + source.len()) as int,
    ) =~= source);
}

} // verus!
