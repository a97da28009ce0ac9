//! A Typst kernel for Jupyter and a terminal REPL: the logic that decides
//! how cells are read, how inputs are classified, how diagnostics are mapped
//! back to the user's inputs, and how output and snapshots are assembled.

use vstd::prelude::*;

pub mod text;
pub mod modes;
pub mod cell;
pub mod input;
pub mod repl_session;
pub mod notebook;
pub mod output;
pub mod persist;
pub mod eval;
pub mod diagnostics;
pub mod kernel;

verus! {

/// The display name of the kernel whose cells are Typst code.
pub const CODE_DISPLAY_NAME: &'static str = "Typst (Code Mode)";

/// The display name of the kernel whose cells are Typst markup.
pub const MARKUP_DISPLAY_NAME: &'static str = "Typst";

/// The page setup a kernel starts from unless told otherwise.
pub const DEFAULT_PAGE_SETUP: &'static str = "set page(width: auto, height: auto, margin: 16pt)";

} // verus!
pub mod repl;
pub mod layout;
pub mod testkit;
pub mod capture;
pub mod introspection;
