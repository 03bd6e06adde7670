//! The selection of figures to compute, fixed once before any source is read.

use vstd::prelude::*;

verus! {

/// Which figures a run is asked for, and in which unit characters are counted.
///
/// A value is built once and then only read; it is `Copy`, so every scan can
/// hold its own.
#[derive(Clone, Copy, Debug, PartialEq, Eq, Structural)]
pub struct Mode {
    /// Count bytes.
    pub bytes: bool,
    /// Count characters.
    pub chars: bool,
    /// Count words.
    pub words: bool,
    /// Count lines.
    pub lines: bool,
    /// Find the widest line.
    pub max_line_len: bool,
    /// Measure characters in grapheme clusters instead of scalar values.
    pub graphemes: bool,
}

impl Mode {
    /// None of bytes, characters, words and lines is selected.
    pub open spec fn unselected(self) -> bool {
        !self.bytes && !self.chars && !self.words && !self.lines
    }

    /// The selection that is in force: where none of bytes, characters, words
    /// and lines is selected, bytes, words and lines are, and characters are
    /// not. The other two settings stay as they are.
    pub open spec fn resolved(self) -> Mode {
        if self.unselected() {
            Mode { bytes: true, chars: false, words: true, lines: true, ..self }
        } else {
            self
        }
    }

    /// Some selected figure can only be had from the content of a source.
    pub open spec fn reads(self) -> bool {
        self.chars || self.words || self.lines || self.max_line_len
    }

    /// The length of each line in characters is needed.
    pub open spec fn measures(self) -> bool {
        self.chars || self.max_line_len
    }

    /// Applies the default selection where nothing was selected.
    pub fn resolve(self) -> (m: Mode)
        ensures
            m == self.resolved(),
    {
        if !self.bytes && !self.chars && !self.words && !self.lines {
            Mode {
                bytes: true,
                chars: false,
                words: true,
                lines: true,
                max_line_len: self.max_line_len,
                graphemes: self.graphemes,
            }
        } else {
            self
        }
    }

    /// Whether a source has to be read even when its size is known.
    pub fn needs_read(&self) -> (b: bool)
        ensures
            b == self.reads(),
    {
        self.chars || self.words || self.lines || self.max_line_len
    }
}

/// Resolving a selection a second time changes nothing, and the result always
/// selects at least one of bytes, characters, words and lines.
pub proof fn law_resolve_settles(m: Mode)
    ensures
        m.resolved().resolved() == m.resolved(),
        !m.resolved().unselected(),
{
}

} // verus!
