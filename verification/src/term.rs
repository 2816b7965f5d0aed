//! Glossary terms: a name and its definition.
use vstd::prelude::*;

verus! {

/// One glossary entry.
pub struct Term {
    pub name: String,
    pub definition: String,
}

/// The mathematical content of a term.
pub ghost struct TermView {
    pub name: Seq<char>,
    pub definition: Seq<char>,
}

impl View for Term {
    type V = TermView;

    open spec fn view(&self) -> TermView {
        TermView { name: self.name@, definition: self.definition@ }
    }
}

impl Clone for Term {
    fn clone(&self) -> (r: Self)
        ensures
            r@ == self@,
    {
        Term { name: self.name.clone(), definition: self.definition.clone() }
    }
}

} // verus!
