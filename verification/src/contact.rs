//! Contacts: people referenced by owner and author fields and grouped by
//! role in the document metadata.
use vstd::prelude::*;

verus! {

/// A person that requirements and metadata refer to by numeric id.
pub struct Contact {
    pub id: u8,
    pub name: String,
    pub email: Option<String>,
}

/// The mathematical content of a contact.
pub ghost struct ContactView {
    pub id: u8,
    pub name: Seq<char>,
    pub email: Option<Seq<char>>,
}

impl View for Contact {
    type V = ContactView;

    open spec fn view(&self) -> ContactView {
        ContactView {
            id: self.id,
            name: self.name@,
            email: match self.email {
                Some(e) => Some(e@),
                None => None,
            },
        }
    }
}

impl Clone for Contact {
    fn clone(&self) -> (r: Self)
        ensures
            r@ == self@,
    {
        Contact {
            id: self.id,
            name: self.name.clone(),
            email: match &self.email {
                Some(e) => Some(e.clone()),
                None => None,
            },
        }
    }
}

/// How a contact appears in rendered text: a mail link when an address is
/// known, otherwise the bare name.
pub open spec fn contact_text(c: ContactView) -> Seq<char> {
    match c.email {
        Some(e) => "["@ + c.name + "](mailto:"@ + e + ")"@,
        None => c.name,
    }
}

impl Contact {
    /// Render the contact as it appears in the document.
    pub fn to_display_string(&self) -> (r: String)
        ensures
            r@ == contact_text(self@),
    {
        match &self.email {
            Some(email) => {
                let mut s = String::new();
                s.append("[");
                s.append(self.name.as_str());
                s.append("](mailto:");
                s.append(email.as_str());
                s.append(")");
                proof {
                    assert(s@ =~= contact_text(self@));
                }
                s
            },
            None => self.name.clone(),
        }
    }
}

} // verus!
