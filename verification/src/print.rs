//! Options for showing symbols.

use vstd::prelude::*;

verus! {

/// How symbols are shown.
#[derive(Debug, PartialEq, Eq)]
pub struct PrintOptions {
    /// How many levels of a symbol tree are shown.
    pub depth: u32,
    /// The tree path to which the output is restricted, if any.
    pub filter: Option<String>,
    /// Whether the mangled name stands beside the demangled one.
    pub include_mangled: bool,
    /// Whether scope and kind stand behind the name.
    pub show_metadata: bool,
}

} // verus!
