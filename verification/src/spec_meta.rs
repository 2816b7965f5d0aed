//! Document-level metadata: version, date, owner, description and the
//! contact groups, an ordered mapping from group name to member ids.
use crate::date::RecordDate;
use vstd::prelude::*;

verus! {

/// One named group of contacts, members listed by id in a fixed order.
pub struct ContactGroup {
    pub name: String,
    pub member_ids: Vec<u8>,
}

/// The mathematical content of a contact group.
pub ghost struct ContactGroupView {
    pub name: Seq<char>,
    pub member_ids: Seq<u8>,
}

impl View for ContactGroup {
    type V = ContactGroupView;

    open spec fn view(&self) -> ContactGroupView {
        ContactGroupView { name: self.name@, member_ids: self.member_ids@ }
    }
}

/// Metadata loaded once from the specification's single metadata file.
pub struct SpecMeta {
    pub version: u8,
    pub date: RecordDate,
    pub owner_id: u8,
    pub description: String,
    pub contacts: Vec<ContactGroup>,
}

/// The mathematical content of the metadata.
pub ghost struct SpecMetaView {
    pub version: u8,
    pub date: RecordDate,
    pub owner_id: u8,
    pub description: Seq<char>,
    pub contacts: Seq<ContactGroupView>,
}

impl View for SpecMeta {
    type V = SpecMetaView;

    open spec fn view(&self) -> SpecMetaView {
        SpecMetaView {
            version: self.version,
            date: self.date,
            owner_id: self.owner_id,
            description: self.description@,
            contacts: self.contacts@.map_values(|g: ContactGroup| g@),
        }
    }
}

} // verus!
