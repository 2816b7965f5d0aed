//! Known gaps: open issues recorded against a requirement id kept as plain
//! text, and sorted as text when rendered.
use vstd::prelude::*;

verus! {

/// One recorded gap, tied to a requirement id kept in string form.
pub struct KnownGap {
    pub requirement_id: String,
    pub description: String,
}

/// The mathematical content of a known gap.
pub ghost struct KnownGapView {
    pub requirement_id: Seq<char>,
    pub description: Seq<char>,
}

impl View for KnownGap {
    type V = KnownGapView;

    open spec fn view(&self) -> KnownGapView {
        KnownGapView { requirement_id: self.requirement_id@, description: self.description@ }
    }
}

impl Clone for KnownGap {
    fn clone(&self) -> (r: Self)
        ensures
            r@ == self@,
    {
        KnownGap {
            requirement_id: self.requirement_id.clone(),
            description: self.description.clone(),
        }
    }
}

} // verus!
