//! Tokenising a whole line in one call.
use vstd::prelude::*;
use crate::tokeniser::{result_view, trim, Error, Tokeniser};

verus! {

/// Tokenising one line of text in one call.
pub trait LineTokeniser: Sized {
    /// Whether this value can take a line.
    spec fn ready(&self) -> bool;

    /// What tokenising the line `ln` yields.
    spec fn tokenised(&self, ln: Seq<char>) -> Result<Seq<Seq<char>>, Error>;

    /// Feeds the line `ln` and finishes, yielding its words or an error.
    fn line(self, ln: &str) -> (r: Result<Vec<String>, Error>)
        requires
            self.ready(),
        ensures
            result_view(r) == self.tokenised(ln@),
    ;
}

impl LineTokeniser for Tokeniser {
    open spec fn ready(&self) -> bool {
        self@.well_formed()
    }

    open spec fn tokenised(&self, ln: Seq<char>) -> Result<Seq<Seq<char>>, Error> {
        self@.run(trim(ln)).finish()
    }

    fn line(self, ln: &str) -> (r: Result<Vec<String>, Error>) {
        self.add_line(ln).into_strings()
    }
}

} // verus!
