//! The ways in which taking a source, or a list of sources, can fail.

use vstd::prelude::*;

verus! {

/// Why a source or a list of names could not be taken.
#[derive(Clone, Copy, Debug, PartialEq, Eq, Structural)]
pub enum Failure {
    /// A source could not be opened, read or sized.
    Io,
    /// A source holds bytes that are no text.
    Decoding,
    /// A list of names holds a name that is no text.
    Manifest,
}

impl Failure {
    /// What went wrong, in words, as a report of the failure shows it.
    pub open spec fn reason(self) -> Seq<char> {
        match self {
            Failure::Io => "input or output failed"@,
            Failure::Decoding => "stream did not contain valid UTF-8"@,
            Failure::Manifest => "list of names did not contain valid UTF-8"@,
        }
    }

    /// What went wrong, in words.
    pub fn describe(&self) -> (text: &'static str)
        ensures
            text@ == self.reason(),
    {
        match self {
            Failure::Io => "input or output failed",
            Failure::Decoding => "stream did not contain valid UTF-8",
            Failure::Manifest => "list of names did not contain valid UTF-8",
        }
    }
}

} // verus!
