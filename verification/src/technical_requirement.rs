//! Technical requirements: implementation notes attached to exactly one
//! business requirement by its hierarchical id.
use crate::business_requirement_id::BusinessRequirementId;
use vstd::prelude::*;

verus! {

/// A technical note belonging to the business requirement whose id equals
/// `requirement_id`.
pub struct TechnicalRequirement {
    pub requirement_id: BusinessRequirementId,
    pub author_id: Option<u8>,
    pub description: String,
    pub code_url: Option<String>,
    pub test_url: Option<String>,
}

/// The mathematical content of a technical requirement.
pub ghost struct TechnicalRequirementView {
    pub requirement_id: Seq<u8>,
    pub author_id: Option<u8>,
    pub description: Seq<char>,
    pub code_url: Option<Seq<char>>,
    pub test_url: Option<Seq<char>>,
}

impl View for TechnicalRequirement {
    type V = TechnicalRequirementView;

    open spec fn view(&self) -> TechnicalRequirementView {
        TechnicalRequirementView {
            requirement_id: self.requirement_id@,
            author_id: self.author_id,
            description: self.description@,
            code_url: match self.code_url {
                Some(u) => Some(u@),
                None => None,
            },
            test_url: match self.test_url {
                Some(u) => Some(u@),
                None => None,
            },
        }
    }
}

impl Clone for TechnicalRequirement {
    fn clone(&self) -> (r: Self)
        ensures
            r@ == self@,
    {
        TechnicalRequirement {
            requirement_id: self.requirement_id.clone(),
            author_id: self.author_id,
            description: self.description.clone(),
            code_url: match &self.code_url {
                Some(u) => Some(u.clone()),
                None => None,
            },
            test_url: match &self.test_url {
                Some(u) => Some(u.clone()),
                None => None,
            },
        }
    }
}

} // verus!
