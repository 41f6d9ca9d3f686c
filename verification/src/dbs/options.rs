//! What a statement is run as.

use crate::iam::auth::{Level, LevelView};
use vstd::prelude::*;

verus! {

#[derive(Debug, PartialEq, Eq)]
pub struct Options {
    /// The level of the session that runs the statement.
    pub auth: Level,
}

impl View for Options {
    type V = LevelView;

    open spec fn view(&self) -> LevelView {
        self.auth@
    }
}

impl Options {
    pub fn new(auth: Level) -> (r: Options)
        ensures
            r@ == auth@,
    {
        Options { auth }
    }
}

} // verus!
