use vstd::prelude::*;

verus! {

/// Whether to use a kitty feature: when the terminal is kitty, always, or never.
#[derive(Debug, Clone, Copy, PartialEq, Eq, Structural)]
pub enum FeatureMode {
    Auto,
    Always,
    Never,
}

/// The command line: the file to read (standard input without one) and how to render it.
#[derive(Debug)]
pub struct Cli {
    pub file: Option<String>,
    pub width: Option<usize>,
    pub theme: String,
    pub kitty: FeatureMode,
    pub images: FeatureMode,
    pub no_highlight: bool,
    pub plain: bool,
    pub list_themes: bool,
}

} // verus!
