//! Conversion of ANSI/VT escape-coded byte streams (SGR color and attribute
//! sequences) into a structured document of styled text lines.

use vstd::prelude::*;

pub mod ansi;
pub mod laws;
pub mod sgr;
pub mod style;
pub mod text;

pub use ansi::ansi_to_text;

verus! {

/// A fatal conversion failure.
#[derive(Clone, Copy, Debug, PartialEq, Eq, Structural)]
pub enum Error {
    /// Accumulated text bytes were not valid UTF-8 when a run was finalized.
    Decode,
    /// A numeric parameter overflowed `usize`, or an extended-color sequence
    /// was missing its required sub-parameters.
    Parse,
}

} // verus!
