//! The mode-directive notebook's rules: cells select their render mode
//! with a `// jupytypst: mode=...` directive, and each cell runs
//! after the session's page setup.

use crate::cell::{parse_cell_in, parsed_cell, CellError, Dialect};
use vstd::prelude::*;

verus! {

pub use crate::cell::ParsedCell;
pub use crate::repl_session::{cell_source, normalize_code_statement, PageSetup};

/// The render mode of a notebook cell.
pub type Mode = crate::modes::RenderMode;

/// Splits a cell into its render mode and body, with `mode=` directives:
/// `mode=svg` and `mode=html` select a mode, `mode=eval` is refused.
pub fn parse_cell(source: &str, default_mode: Mode) -> (r: Result<ParsedCell, CellError>)
    ensures
        match (r, parsed_cell(source@, default_mode, Dialect::Mode)) {
            (Ok(c), Ok((m, b))) => c.mode == m && c.body@ == b,
            (Err(e), Err(f)) => e@ == f,
            _ => false,
        },
{
    parse_cell_in(source, default_mode, Dialect::Mode)
}

} // verus!
