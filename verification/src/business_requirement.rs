//! Business requirements: the numbered entries that the rendered document is
//! organised around.
use crate::business_requirement_id::BusinessRequirementId;
use crate::date::RecordDate;
use vstd::prelude::*;

verus! {

/// A numbered requirement with optional date, note and references to a
/// contact (its owner) and a persona.
pub struct BusinessRequirement {
    pub id: BusinessRequirementId,
    pub name: String,
    pub date: Option<RecordDate>,
    pub note: Option<String>,
    pub owner_id: Option<u8>,
    pub persona_id: Option<u8>,
}

/// The mathematical content of a business requirement.
pub ghost struct BusinessRequirementView {
    pub id: Seq<u8>,
    pub name: Seq<char>,
    pub date: Option<RecordDate>,
    pub note: Option<Seq<char>>,
    pub owner_id: Option<u8>,
    pub persona_id: Option<u8>,
}

impl View for BusinessRequirement {
    type V = BusinessRequirementView;

    open spec fn view(&self) -> BusinessRequirementView {
        BusinessRequirementView {
            id: self.id@,
            name: self.name@,
            date: self.date,
            note: match self.note {
                Some(n) => Some(n@),
                None => None,
            },
            owner_id: self.owner_id,
            persona_id: self.persona_id,
        }
    }
}

impl Clone for BusinessRequirement {
    fn clone(&self) -> (r: Self)
        ensures
            r@ == self@,
    {
        BusinessRequirement {
            id: self.id.clone(),
            name: self.name.clone(),
            date: self.date,
            note: match &self.note {
                Some(n) => Some(n.clone()),
                None => None,
            },
            owner_id: self.owner_id,
            persona_id: self.persona_id,
        }
    }
}

impl BusinessRequirement {
    /// The heading depth of this requirement in the rendered document:
    /// three more than the id's segment count.
    pub fn markdown_level(&self) -> (r: usize)
        requires
            self@.id.len() + 3 <= usize::MAX,
        ensures
            r == self@.id.len() + 3,
    {
        self.id.elements_len() + 3
    }
}

} // verus!
