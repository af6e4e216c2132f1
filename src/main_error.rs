use vstd::prelude::*;

use crate::error::Error;
use crate::render::{expanded_text, render_expanded};

verus! {

/// An error meant to be returned from a program's entry point: it shows the
/// whole causal chain in expanded form.
pub struct MainError {
    error: Error,
}

impl MainError {
    /// The messages of the wrapped error's chain, outermost first.
    pub closed spec fn chain(&self) -> Seq<Seq<char>> {
        self.error.chain()
    }

    /// The expanded rendering of the wrapped error's chain.
    pub fn to_string(&self) -> (r: String)
        requires
            self.chain().len() <= usize::MAX,
        ensures
            r@ == expanded_text(self.chain()),
    {
        render_expanded(&self.error)
    }
}

impl From<Error> for MainError {
    fn from(error: Error) -> (r: MainError)
        ensures
            r.chain() == error.chain(),
    {
        MainError { error }
    }
}

impl vstd::std_specs::convert::FromSpecImpl<Error> for MainError {
    open spec fn obeys_from_spec() -> bool {
        true
    }

    closed spec fn from_spec(error: Error) -> MainError {
        MainError { error }
    }
}

} // verus!
