//! What a parse reports without failing: a description and where it applies.
use crate::text::TextRange;
use vstd::prelude::*;

verus! {

/// A diagnostic: what went wrong and over which bytes of the source.
#[derive(Debug)]
pub struct Error {
    desc: String,
    loc: TextRange,
}

impl Error {
    /// What went wrong.
    pub closed spec fn text(&self) -> Seq<char> {
        self.desc@
    }

    /// The bytes of the source that the error is about.
    pub closed spec fn at(&self) -> TextRange {
        self.loc
    }

    /// The error that says `desc` about the bytes `loc`.
    pub fn new(desc: &str, loc: TextRange) -> (error: Error)
        ensures
            error.text() == desc@,
            error.at() == loc,
    {
        Error { desc: desc.to_owned(), loc }
    }

    /// What went wrong.
    pub fn description(&self) -> (desc: &str)
        ensures
            desc@ == self.text(),
    {
        self.desc.as_str()
    }

    /// The bytes of the source that the error is about.
    pub fn range(&self) -> (range: TextRange)
        ensures
            range == self.at(),
    {
        self.loc
    }
}

} // verus!
