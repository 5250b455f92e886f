//! Why a search could not be carried out.

use vstd::prelude::*;

verus! {

/// A failure that ends a search before any line is looked at. Each variant
/// carries the message to show.
#[derive(Debug)]
pub enum SearchError {
    /// The composed pattern is not a regular expression the engine accepts.
    InvalidPattern(String),
    /// The text to search could not be read.
    InputUnavailable(String),
}

impl SearchError {
    /// The text of the message that the error carries.
    pub open spec fn text(&self) -> Seq<char> {
        match self {
            SearchError::InvalidPattern(why) => why@,
            SearchError::InputUnavailable(why) => why@,
        }
    }

    /// The message to show for this error.
    pub fn message(&self) -> (r: String)
        ensures
            r@ == self.text(),
    {
        match self {
            SearchError::InvalidPattern(why) => why.clone(),
            SearchError::InputUnavailable(why) => why.clone(),
        }
    }
}

} // verus!
