//! The loaded specification: every record collection, the metadata and the
//! service-level text, with lookups and aggregate statistics over them.
use crate::business_requirement::{BusinessRequirement, BusinessRequirementView};
use crate::contact::{Contact, ContactView};
use crate::known_gap::KnownGap;
use crate::persona::{Persona, PersonaView};
use crate::sort::views_of;
use crate::spec_meta::SpecMeta;
use crate::technical_requirement::{TechnicalRequirement, TechnicalRequirementView};
use crate::term::Term;
use crate::SpecError;
use vstd::prelude::*;

verus! {

/// The first contact in load order carrying the given id, if any.
pub open spec fn first_contact_match(contacts: Seq<ContactView>, id: u8) -> Option<ContactView>
    decreases contacts.len(),
{
    if contacts.len() == 0 {
        None
    } else if contacts[0].id == id {
        Some(contacts[0])
    } else {
        first_contact_match(contacts.drop_first(), id)
    }
}

/// The lookup succeeds exactly when some contact carries the id, and then
/// yields a contact carrying it.
pub proof fn lemma_first_contact_match(contacts: Seq<ContactView>, id: u8)
    ensures
        (first_contact_match(contacts, id) is Some) <==> exists|q: int|
            0 <= q < contacts.len() && (#[trigger] contacts[q]).id == id,
        first_contact_match(contacts, id) matches Some(c) ==> c.id == id,
    decreases contacts.len(),
{
    if contacts.len() > 0 && contacts[0].id != id {
        lemma_first_contact_match(contacts.drop_first(), id);
        if first_contact_match(contacts.drop_first(), id) is Some {
            let q = choose|q: int|
                0 <= q < contacts.drop_first().len() && (#[trigger] contacts.drop_first()[q]).id
                    == id;
            assert(contacts[q + 1].id == id);
        }
        if exists|q: int| 0 <= q < contacts.len() && (#[trigger] contacts[q]).id == id {
            let q = choose|q: int| 0 <= q < contacts.len() && (#[trigger] contacts[q]).id == id;
            assert(contacts.drop_first()[q - 1].id == id);
        }
    }
}

/// The first persona in load order carrying the given id, if any.
pub open spec fn first_persona_match(personas: Seq<PersonaView>, id: u8) -> Option<PersonaView>
    decreases personas.len(),
{
    if personas.len() == 0 {
        None
    } else if personas[0].id == id {
        Some(personas[0])
    } else {
        first_persona_match(personas.drop_first(), id)
    }
}

/// The lookup succeeds exactly when some persona carries the id, and then
/// yields a persona carrying it.
pub proof fn lemma_first_persona_match(personas: Seq<PersonaView>, id: u8)
    ensures
        (first_persona_match(personas, id) is Some) <==> exists|q: int|
            0 <= q < personas.len() && (#[trigger] personas[q]).id == id,
        first_persona_match(personas, id) matches Some(p) ==> p.id == id,
    decreases personas.len(),
{
    if personas.len() > 0 && personas[0].id != id {
        lemma_first_persona_match(personas.drop_first(), id);
        if first_persona_match(personas.drop_first(), id) is Some {
            let q = choose|q: int|
                0 <= q < personas.drop_first().len() && (#[trigger] personas.drop_first()[q]).id
                    == id;
            assert(personas[q + 1].id == id);
        }
        if exists|q: int| 0 <= q < personas.len() && (#[trigger] personas[q]).id == id {
            let q = choose|q: int| 0 <= q < personas.len() && (#[trigger] personas[q]).id == id;
            assert(personas.drop_first()[q - 1].id == id);
        }
    }
}

/// The technical requirements attached to the business requirement with the
/// given id, in load order.
pub open spec fn trs_for(trs: Seq<TechnicalRequirementView>, id: Seq<u8>) -> Seq<
    TechnicalRequirementView,
> {
    trs.filter(|t: TechnicalRequirementView| t.requirement_id == id)
}

/// Some technical requirement points at the given id.
pub open spec fn is_covered(id: Seq<u8>, trs: Seq<TechnicalRequirementView>) -> bool {
    exists|q: int| 0 <= q < trs.len() && (#[trigger] trs[q]).requirement_id == id
}

/// How many of the business requirements, position by position, have at
/// least one technical requirement attached. With unique requirement ids
/// this is the number of distinct ids that technical requirements cover.
pub open spec fn covered_requirement_count(
    brs: Seq<BusinessRequirementView>,
    trs: Seq<TechnicalRequirementView>,
) -> nat
    decreases brs.len(),
{
    if brs.len() == 0 {
        0
    } else {
        covered_requirement_count(brs.drop_last(), trs) + if is_covered(brs.last().id, trs) {
            1 as nat
        } else {
            0 as nat
        }
    }
}

/// The whole loaded specification, read-only once constructed.
pub struct Spec {
    pub terms: Vec<Term>,
    pub contacts: Vec<Contact>,
    pub technical_requirements: Vec<TechnicalRequirement>,
    pub known_gaps: Vec<KnownGap>,
    pub personas: Vec<Persona>,
    pub business_requirements: Vec<BusinessRequirement>,
    pub meta: SpecMeta,
    pub sla: String,
}

/// Aggregate counts over a specification.
pub struct SpecStats {
    pub business_count: usize,
    pub technical_count: usize,
    pub covered_count: usize,
}

impl Spec {
    /// Assemble a specification from its already loaded parts.
    pub fn new(
        terms: Vec<Term>,
        contacts: Vec<Contact>,
        technical_requirements: Vec<TechnicalRequirement>,
        known_gaps: Vec<KnownGap>,
        personas: Vec<Persona>,
        business_requirements: Vec<BusinessRequirement>,
        meta: SpecMeta,
        sla: String,
    ) -> (r: Spec)
        ensures
            r.terms == terms,
            r.contacts == contacts,
            r.technical_requirements == technical_requirements,
            r.known_gaps == known_gaps,
            r.personas == personas,
            r.business_requirements == business_requirements,
            r.meta == meta,
            r.sla == sla,
    {
        Spec {
            terms,
            contacts,
            technical_requirements,
            known_gaps,
            personas,
            business_requirements,
            meta,
            sla,
        }
    }

    /// Find the first contact with the given id; an error carrying that id
    /// exactly when no contact has it.
    #[verifier::loop_isolation(false)]
    pub fn find_contact(&self, contact_id: u8) -> (r: Result<&Contact, SpecError>)
        ensures
            match r {
                Ok(c) => first_contact_match(views_of(self.contacts@), contact_id) == Some(c@)
                    && c@.id == contact_id,
                Err(e) => first_contact_match(views_of(self.contacts@), contact_id)
                    is None && e == SpecError::NotFound(contact_id),
            },
            (r is Ok) <==> exists|q: int|
                0 <= q < self.contacts@.len() && (#[trigger] views_of(self.contacts@)[q]).id
                    == contact_id,
    {
        proof {
            lemma_first_contact_match(views_of(self.contacts@), contact_id);
        }
        let ghost cs = views_of(self.contacts@);
        let mut i: usize = 0;
        proof {
            assert(cs.skip(0) =~= cs);
        }
        while i < self.contacts.len()
            invariant
                i <= self.contacts.len(),
                first_contact_match(cs, contact_id) == first_contact_match(
                    cs.skip(i as int),
                    contact_id,
                ),
            decreases self.contacts.len() - i,
        {
            proof {
                assert(cs.skip(i as int)[0] == cs[i as int]);
            }
            if self.contacts[i].id == contact_id {
                return Ok(&self.contacts[i]);
            }
            proof {
                assert(cs.skip(i as int).drop_first() =~= cs.skip(i + 1));
            }
            i = i + 1;
        }
        Err(SpecError::NotFound(contact_id))
    }

    /// Find the first persona with the given id; an error carrying that id
    /// exactly when no persona has it.
    #[verifier::loop_isolation(false)]
    pub fn find_persona(&self, persona_id: u8) -> (r: Result<&Persona, SpecError>)
        ensures
            match r {
                Ok(p) => first_persona_match(views_of(self.personas@), persona_id) == Some(p@)
                    && p@.id == persona_id,
                Err(e) => first_persona_match(views_of(self.personas@), persona_id)
                    is None && e == SpecError::NotFound(persona_id),
            },
            (r is Ok) <==> exists|q: int|
                0 <= q < self.personas@.len() && (#[trigger] views_of(self.personas@)[q]).id
                    == persona_id,
    {
        proof {
            lemma_first_persona_match(views_of(self.personas@), persona_id);
        }
        let ghost ps = views_of(self.personas@);
        let mut i: usize = 0;
        proof {
            assert(ps.skip(0) =~= ps);
        }
        while i < self.personas.len()
            invariant
                i <= self.personas.len(),
                first_persona_match(ps, persona_id) == first_persona_match(
                    ps.skip(i as int),
                    persona_id,
                ),
            decreases self.personas.len() - i,
        {
            proof {
                assert(ps.skip(i as int)[0] == ps[i as int]);
            }
            if self.personas[i].id == persona_id {
                return Ok(&self.personas[i]);
            }
            proof {
                assert(ps.skip(i as int).drop_first() =~= ps.skip(i + 1));
            }
            i = i + 1;
        }
        Err(SpecError::NotFound(persona_id))
    }

    /// All technical requirements whose requirement id equals the given id,
    /// in load order.
    #[verifier::loop_isolation(false)]
    pub fn find_technical_requirements_for(
        &self,
        requirement_id: &crate::business_requirement_id::BusinessRequirementId,
    ) -> (r: Vec<&TechnicalRequirement>)
        ensures
            r@.map_values(|t: &TechnicalRequirement| t@) == trs_for(
                views_of(self.technical_requirements@),
                requirement_id@,
            ),
    {
        let ghost ts = views_of(self.technical_requirements@);
        let ghost pred = |t: TechnicalRequirementView| t.requirement_id == requirement_id@;
        let mut out: Vec<&TechnicalRequirement> = Vec::new();
        let mut i: usize = 0;
        proof {
            reveal(Seq::filter);
            assert(ts.take(0) =~= Seq::<TechnicalRequirementView>::empty());
            assert(out@.map_values(|t: &TechnicalRequirement| t@) =~= ts.take(0).filter(pred));
        }
        while i < self.technical_requirements.len()
            invariant
                i <= self.technical_requirements.len(),
                out@.map_values(|t: &TechnicalRequirement| t@) == ts.take(i as int).filter(pred),
            decreases self.technical_requirements.len() - i,
        {
            let ghost prev = out@.map_values(|t: &TechnicalRequirement| t@);
            let matched = self.technical_requirements[i].requirement_id == *requirement_id;
            proof {
                assert(ts[i as int] == self.technical_requirements@[i as int]@);
                assert(matched == pred(ts[i as int]));
            }
            if matched {
                out.push(&self.technical_requirements[i]);
            }
            proof {
                reveal(Seq::filter);
                assert(ts.take(i + 1).drop_last() =~= ts.take(i as int));
                assert(ts.take(i + 1).last() == ts[i as int]);
                let cur = out@.map_values(|t: &TechnicalRequirement| t@);
                if matched {
                    assert(cur =~= prev.push(ts[i as int]));
                }
                assert(cur =~= ts.take(i + 1).filter(pred));
            }
            i = i + 1;
        }
        proof {
            assert(ts.take(self.technical_requirements.len() as int) =~= ts);
        }
        out
    }

    /// Count the records and how many business requirements are covered by
    /// at least one technical requirement.
    #[verifier::loop_isolation(false)]
    pub fn coverage_stats(&self) -> (r: SpecStats)
        ensures
            r.business_count == self.business_requirements@.len(),
            r.technical_count == self.technical_requirements@.len(),
            r.covered_count == covered_requirement_count(
                views_of(self.business_requirements@),
                views_of(self.technical_requirements@),
            ),
            r.covered_count <= r.business_count,
    {
        let ghost brs = views_of(self.business_requirements@);
        let ghost ts = views_of(self.technical_requirements@);
        let mut covered: usize = 0;
        let mut i: usize = 0;
        proof {
            assert(brs.take(0) =~= Seq::<BusinessRequirementView>::empty());
        }
        while i < self.business_requirements.len()
            invariant
                i <= self.business_requirements.len(),
                covered <= i,
                covered == covered_requirement_count(brs.take(i as int), ts),
            decreases self.business_requirements.len() - i,
        {
            let found = self.has_technical_requirement_for(i);
            if found {
                covered = covered + 1;
            }
            proof {
                assert(brs.take(i + 1).drop_last() =~= brs.take(i as int));
                assert(brs.take(i + 1).last() == brs[i as int]);
            }
            i = i + 1;
        }
        proof {
            assert(brs.take(self.business_requirements.len() as int) =~= brs);
        }
        SpecStats {
            business_count: self.business_requirements.len(),
            technical_count: self.technical_requirements.len(),
            covered_count: covered,
        }
    }

    /// Whether any technical requirement points at the id of the business
    /// requirement at the given position.
    #[verifier::loop_isolation(false)]
    fn has_technical_requirement_for(&self, b: usize) -> (r: bool)
        requires
            b < self.business_requirements@.len(),
        ensures
            r == is_covered(
                views_of(self.business_requirements@)[b as int].id,
                views_of(self.technical_requirements@),
            ),
    {
        let ghost ts = views_of(self.technical_requirements@);
        let ghost id = views_of(self.business_requirements@)[b as int].id;
        let mut i: usize = 0;
        while i < self.technical_requirements.len()
            invariant
                i <= self.technical_requirements.len(),
                forall|q: int| 0 <= q < i ==> (#[trigger] ts[q]).requirement_id != id,
            decreases self.technical_requirements.len() - i,
        {
            proof {
                assert(ts[i as int] == self.technical_requirements@[i as int]@);
            }
            if self.technical_requirements[i].requirement_id == self.business_requirements[b].id {
                proof {
                    assert(ts[i as int].requirement_id == id);
                }
                return true;
            }
            i = i + 1;
        }
        false
    }
}

impl SpecStats {
    /// Coverage as hundredths of a percent, truncated; `None` exactly when
    /// there are no business requirements, so that the undefined ratio is
    /// never passed off as a number.
    pub fn coverage_percent_hundredths(&self) -> (r: Option<u64>)
        requires
            self.covered_count <= self.business_count,
        ensures
            match r {
                Some(p) => self.business_count > 0 && p == self.covered_count * 10000
                    / self.business_count as int,
                None => self.business_count == 0,
            },
    {
        if self.business_count == 0 {
            None
        } else {
            let q = (self.covered_count as u128 * 10000) / self.business_count as u128;
            proof {
                assert(q <= 10000) by {
                    vstd::arithmetic::div_mod::lemma_div_is_ordered(
                        self.covered_count as int * 10000,
                        self.business_count as int * 10000,
                        self.business_count as int,
                    );
                    vstd::arithmetic::div_mod::lemma_div_by_multiple(
                        10000,
                        self.business_count as int,
                    );
                }
            }
            Some(q as u64)
        }
    }
}

} // verus!
