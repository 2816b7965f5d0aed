//! Personas: named roles that business requirements may point at.
use vstd::prelude::*;

verus! {

/// A persona with a numeric id, referenced optionally by requirements.
pub struct Persona {
    pub id: u8,
    pub name: String,
    pub description: String,
}

/// The mathematical content of a persona.
pub ghost struct PersonaView {
    pub id: u8,
    pub name: Seq<char>,
    pub description: Seq<char>,
}

impl View for Persona {
    type V = PersonaView;

    open spec fn view(&self) -> PersonaView {
        PersonaView { id: self.id, name: self.name@, description: self.description@ }
    }
}

impl Clone for Persona {
    fn clone(&self) -> (r: Self)
        ensures
            r@ == self@,
    {
        Persona { id: self.id, name: self.name.clone(), description: self.description.clone() }
    }
}

} // verus!
