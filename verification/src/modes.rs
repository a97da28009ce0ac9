//! The modes a session renders in and reads its sources in, and the options
//! of the Typst world it runs against.

use std::path::PathBuf;
use vstd::prelude::*;

verus! {

/// A path of the file system, carried through unchanged.
#[verifier::external_type_specification]
#[verifier::external_body]
pub struct ExPathBuf(PathBuf);

/// How a cell's result is rendered.
#[derive(Debug, Clone, Copy, PartialEq, Eq, Structural)]
pub enum RenderMode {
    Svg,
    Html,
}

/// How a cell's source is read: as Typst code or as Typst markup.
#[derive(Debug, Clone, Copy, PartialEq, Eq, Structural)]
pub enum SourceMode {
    Code,
    Markup,
}

impl RenderMode {
    pub open spec fn debug_spec(self) -> Seq<char> {
        match self {
            RenderMode::Svg => "Svg"@,
            RenderMode::Html => "Html"@,
        }
    }

    /// The name that `{:?}` prints for this mode.
    pub fn debug_name(&self) -> (s: String)
        ensures
            s@ == self.debug_spec(),
    {
        match self {
            RenderMode::Svg => "Svg".to_owned(),
            RenderMode::Html => "Html".to_owned(),
        }
    }
}

impl SourceMode {
    pub open spec fn debug_spec(self) -> Seq<char> {
        match self {
            SourceMode::Code => "Code"@,
            SourceMode::Markup => "Markup"@,
        }
    }

    /// The name that `{:?}` prints for this mode.
    pub fn debug_name(&self) -> (s: String)
        ensures
            s@ == self.debug_spec(),
    {
        match self {
            SourceMode::Code => "Code".to_owned(),
            SourceMode::Markup => "Markup".to_owned(),
        }
    }
}

/// Where the Typst world finds its files, fonts, packages and inputs.
#[derive(Debug, Clone)]
pub struct WorldOptions {
    pub root: Option<PathBuf>,
    pub inputs: Vec<(String, String)>,
    pub font_paths: Vec<PathBuf>,
    pub ignore_system_fonts: bool,
    pub ignore_embedded_fonts: bool,
    pub package_path: Option<PathBuf>,
    pub package_cache_path: Option<PathBuf>,
}

impl WorldOptions {
    /// The options of a world rooted at the current directory, with no
    /// inputs, the system's and the embedded fonts, and no package paths.
    pub open spec fn is_default(&self) -> bool {
        &&& self.root is None
        &&& self.inputs@.len() == 0
        &&& self.font_paths@.len() == 0
        &&& !self.ignore_system_fonts
        &&& !self.ignore_embedded_fonts
        &&& self.package_path is None
        &&& self.package_cache_path is None
    }
}

impl Default for WorldOptions {
    fn default() -> (w: Self)
        ensures
            w.is_default(),
    {
        WorldOptions {
            root: None,
            inputs: Vec::new(),
            font_paths: Vec::new(),
            ignore_system_fonts: false,
            ignore_embedded_fonts: false,
            package_path: None,
            package_cache_path: None,
        }
    }
}

} // verus!
