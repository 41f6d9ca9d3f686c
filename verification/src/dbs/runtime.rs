//! What a statement runs with: the parameters that are bound.

use crate::sql::value::{field_of, Object, Value, ValueView};
use vstd::prelude::*;

verus! {

#[derive(Debug, PartialEq, Eq)]
pub struct Runtime {
    pub vars: Object,
}

impl View for Runtime {
    type V = Seq<(Seq<char>, ValueView)>;

    open spec fn view(&self) -> Seq<(Seq<char>, ValueView)> {
        self.vars@
    }
}

impl Runtime {
    pub fn new(vars: Object) -> (r: Runtime)
        ensures
            r@ == vars@,
    {
        Runtime { vars }
    }

    /// What a parameter is bound to.
    pub fn value(&self, name: &str) -> (r: Option<&Value>)
        ensures
            match r {
                Some(v) => field_of(self@, name@) == Some(v@),
                None => field_of(self@, name@) is None,
            },
    {
        self.vars.get(name)
    }
}

} // verus!
