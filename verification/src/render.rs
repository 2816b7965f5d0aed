//! Rendering: the loaded specification turned into an ordered document, one
//! text chunk per printed line, with every section's content pinned down by a
//! spec function.
use crate::business_requirement::{BusinessRequirement, BusinessRequirementView};
use crate::business_requirement_id::display_of;
use crate::contact::{contact_text, Contact, ContactView};
use crate::date::date_text;
use crate::digits::dec_of;
use crate::known_gap::{KnownGap, KnownGapView};
use crate::persona::{Persona, PersonaView};
use crate::repository::{first_contact_match, first_persona_match, trs_for, Spec};
use crate::sort::{sort_records, sorted_by_key, views_of, Sortable};
use crate::spec_meta::{ContactGroupView, SpecMetaView};
use crate::technical_requirement::TechnicalRequirementView;
use crate::term::{Term, TermView};
use crate::SpecError;
use vstd::prelude::*;

verus! {

/// The text of each line in a sequence of rendered lines.
pub open spec fn texts_of(lines: Seq<String>) -> Seq<Seq<char>> {
    lines.map_values(|s: String| s@)
}

/// An empty line.
pub open spec fn blank() -> Seq<char> {
    Seq::<char>::empty()
}

/// `n` repetitions of the heading marker.
pub open spec fn hashes(n: nat) -> Seq<char> {
    Seq::new(n, |i: int| '#')
}

/// The id has a contact: rendering resolves it.
pub open spec fn contact_resolves(contacts: Seq<ContactView>, id: u8) -> bool {
    first_contact_match(contacts, id) is Some
}

/// The id has a persona: rendering resolves it.
pub open spec fn persona_resolves(personas: Seq<PersonaView>, id: u8) -> bool {
    first_persona_match(personas, id) is Some
}

/// The rendered text of the contact with the given id.
pub open spec fn resolved_contact_text(contacts: Seq<ContactView>, id: u8) -> Seq<char> {
    match first_contact_match(contacts, id) {
        Some(c) => contact_text(c),
        None => blank(),
    }
}

/// The name of the persona with the given id.
pub open spec fn resolved_persona_name(personas: Seq<PersonaView>, id: u8) -> Seq<char> {
    match first_persona_match(personas, id) {
        Some(p) => p.name,
        None => blank(),
    }
}

/// The document head: title, version, date, owner and description.
pub open spec fn head_chunks(m: SpecMetaView, contacts: Seq<ContactView>) -> Seq<Seq<char>> {
    seq![
        "# Specification"@,
        "Version: "@ + dec_of(m.version as nat),
        blank(),
        "Date: "@ + date_text(m.date),
        blank(),
        "Owner: "@ + resolved_contact_text(contacts, m.owner_id),
        blank(),
        blank(),
        "## Description"@,
        m.description,
        blank(),
    ]
}

/// The lines of one known gap.
pub open spec fn gap_chunks(g: KnownGapView) -> Seq<Seq<char>> {
    seq!["### "@ + g.requirement_id, g.description, blank()]
}

/// The lines of a run of known gaps, in the given order.
pub open spec fn gaps_chunks(gaps: Seq<KnownGapView>) -> Seq<Seq<char>>
    decreases gaps.len(),
{
    if gaps.len() == 0 {
        Seq::empty()
    } else {
        gaps_chunks(gaps.drop_last()) + gap_chunks(gaps.last())
    }
}

/// The known-gaps section: present only when there are gaps.
pub open spec fn gaps_section(gaps: Seq<KnownGapView>) -> Seq<Seq<char>> {
    if gaps.len() == 0 {
        Seq::empty()
    } else {
        seq!["## Known Gaps"@] + gaps_chunks(gaps)
    }
}

/// The lines of one persona.
pub open spec fn persona_chunks(p: PersonaView) -> Seq<Seq<char>> {
    seq!["### "@ + p.name, p.description, blank()]
}

/// The lines of a run of personas, in the given order.
pub open spec fn personas_chunks(ps: Seq<PersonaView>) -> Seq<Seq<char>>
    decreases ps.len(),
{
    if ps.len() == 0 {
        Seq::empty()
    } else {
        personas_chunks(ps.drop_last()) + persona_chunks(ps.last())
    }
}

/// The personas section: present only when there are personas.
pub open spec fn personas_section(ps: Seq<PersonaView>) -> Seq<Seq<char>> {
    if ps.len() == 0 {
        Seq::empty()
    } else {
        seq!["## Personas"@] + personas_chunks(ps) + seq![blank()]
    }
}

/// The lines of one glossary term.
pub open spec fn term_chunks(t: TermView) -> Seq<Seq<char>> {
    seq!["### "@ + t.name, t.definition, blank()]
}

/// The lines of a run of terms, in the given order.
pub open spec fn terms_chunks(ts: Seq<TermView>) -> Seq<Seq<char>>
    decreases ts.len(),
{
    if ts.len() == 0 {
        Seq::empty()
    } else {
        terms_chunks(ts.drop_last()) + term_chunks(ts.last())
    }
}

/// The glossary section: present only when there are terms.
pub open spec fn glossary_section(ts: Seq<TermView>) -> Seq<Seq<char>> {
    if ts.len() == 0 {
        Seq::empty()
    } else {
        seq!["## Glossary"@] + terms_chunks(ts)
    }
}

/// The service-level section, the text included verbatim.
pub open spec fn sla_section(sla: Seq<char>) -> Seq<Seq<char>> {
    seq!["## SLA"@, sla, blank()]
}

/// The lines listing a group's members, in the group's order.
pub open spec fn member_chunks(ids: Seq<u8>, contacts: Seq<ContactView>) -> Seq<Seq<char>>
    decreases ids.len(),
{
    if ids.len() == 0 {
        Seq::empty()
    } else {
        member_chunks(ids.drop_last(), contacts) + seq![
            "- "@ + resolved_contact_text(contacts, ids.last()),
        ]
    }
}

/// The lines of one contact group.
pub open spec fn group_chunks(g: ContactGroupView, contacts: Seq<ContactView>) -> Seq<Seq<char>> {
    seq!["### "@ + g.name] + member_chunks(g.member_ids, contacts) + seq![blank()]
}

/// The lines of all contact groups, in metadata order.
pub open spec fn groups_chunks(gs: Seq<ContactGroupView>, contacts: Seq<ContactView>) -> Seq<
    Seq<char>,
>
    decreases gs.len(),
{
    if gs.len() == 0 {
        Seq::empty()
    } else {
        groups_chunks(gs.drop_last(), contacts) + group_chunks(gs.last(), contacts)
    }
}

/// The contacts section.
pub open spec fn contacts_section(gs: Seq<ContactGroupView>, contacts: Seq<ContactView>) -> Seq<
    Seq<char>,
> {
    seq!["## Contacts"@] + groups_chunks(gs, contacts)
}


/// The lines of one technical requirement.
pub open spec fn tr_chunks(t: TechnicalRequirementView, contacts: Seq<ContactView>) -> Seq<
    Seq<char>,
> {
    seq![t.description, blank()] + (match t.author_id {
        Some(a) => seq!["Author: "@ + resolved_contact_text(contacts, a), blank()],
        None => Seq::<Seq<char>>::empty(),
    }) + (match t.code_url {
        Some(u) => seq!["[Code]("@ + u + ")"@, blank()],
        None => Seq::<Seq<char>>::empty(),
    }) + (match t.test_url {
        Some(u) => seq!["[Tests]("@ + u + ")"@, blank()],
        None => Seq::<Seq<char>>::empty(),
    }) + seq![blank()]
}

/// The lines of a run of technical requirements, in the given order.
pub open spec fn trs_chunks(ts: Seq<TechnicalRequirementView>, contacts: Seq<ContactView>) -> Seq<
    Seq<char>,
>
    decreases ts.len(),
{
    if ts.len() == 0 {
        Seq::empty()
    } else {
        trs_chunks(ts.drop_last(), contacts) + tr_chunks(ts.last(), contacts)
    }
}

/// The heading line of one business requirement: markers to its depth, then
/// its dotted id and name.
pub open spec fn br_heading(b: BusinessRequirementView) -> Seq<char> {
    hashes((b.id.len() + 3) as nat) + " "@ + display_of(b.id) + ". "@ + b.name
}

/// The technical-requirements block under one business requirement: present
/// only when the requirement has technical requirements attached.
pub open spec fn tr_block(
    b: BusinessRequirementView,
    contacts: Seq<ContactView>,
    all_trs: Seq<TechnicalRequirementView>,
) -> Seq<Seq<char>> {
    let ts = trs_for(all_trs, b.id);
    if ts.len() == 0 {
        Seq::empty()
    } else {
        seq![hashes((b.id.len() + 4) as nat) + " Technical Requirements"@] + trs_chunks(
            ts,
            contacts,
        )
    }
}

/// The lines of one business requirement with its technical requirements.
pub open spec fn br_chunks(
    b: BusinessRequirementView,
    contacts: Seq<ContactView>,
    personas: Seq<PersonaView>,
    all_trs: Seq<TechnicalRequirementView>,
) -> Seq<Seq<char>> {
    seq![br_heading(b)] + (match b.date {
        Some(d) => seq!["Date: "@ + date_text(d), blank()],
        None => Seq::<Seq<char>>::empty(),
    }) + (match b.owner_id {
        Some(o) => seq!["Owner: "@ + resolved_contact_text(contacts, o), blank()],
        None => Seq::<Seq<char>>::empty(),
    }) + (match b.persona_id {
        Some(p) => seq!["Persona: "@ + resolved_persona_name(personas, p), blank()],
        None => Seq::<Seq<char>>::empty(),
    }) + (match b.note {
        Some(n) => seq![n],
        None => Seq::<Seq<char>>::empty(),
    }) + seq![blank()] + tr_block(b, contacts, all_trs)
}

/// The lines of a run of business requirements, in the given order.
pub open spec fn brs_chunks(
    brs: Seq<BusinessRequirementView>,
    contacts: Seq<ContactView>,
    personas: Seq<PersonaView>,
    all_trs: Seq<TechnicalRequirementView>,
) -> Seq<Seq<char>>
    decreases brs.len(),
{
    if brs.len() == 0 {
        Seq::empty()
    } else {
        brs_chunks(brs.drop_last(), contacts, personas, all_trs) + br_chunks(
            brs.last(),
            contacts,
            personas,
            all_trs,
        )
    }
}

/// The requirements section.
pub open spec fn requirements_section(
    brs: Seq<BusinessRequirementView>,
    contacts: Seq<ContactView>,
    personas: Seq<PersonaView>,
    all_trs: Seq<TechnicalRequirementView>,
) -> Seq<Seq<char>> {
    seq!["## Requirements"@] + brs_chunks(brs, contacts, personas, all_trs)
}

/// The technical requirement's author reference, if any, resolves.
pub open spec fn tr_refs_ok(t: TechnicalRequirementView, contacts: Seq<ContactView>) -> bool {
    match t.author_id {
        Some(a) => contact_resolves(contacts, a),
        None => true,
    }
}

/// The business requirement's owner and persona references, if any, resolve.
pub open spec fn br_refs_ok(
    b: BusinessRequirementView,
    contacts: Seq<ContactView>,
    personas: Seq<PersonaView>,
) -> bool {
    &&& match b.owner_id {
        Some(o) => contact_resolves(contacts, o),
        None => true,
    }
    &&& match b.persona_id {
        Some(p) => persona_resolves(personas, p),
        None => true,
    }
}

/// Everything rendering looks up for this business requirement resolves:
/// its own references and the author of each attached technical requirement.
pub open spec fn br_fully_resolved(
    b: BusinessRequirementView,
    contacts: Seq<ContactView>,
    personas: Seq<PersonaView>,
    all_trs: Seq<TechnicalRequirementView>,
) -> bool {
    &&& br_refs_ok(b, contacts, personas)
    &&& forall|q: int|
        0 <= q < trs_for(all_trs, b.id).len() ==> tr_refs_ok(
            #[trigger] trs_for(all_trs, b.id)[q],
            contacts,
        )
}

/// The id is referenced somewhere that rendering looks it up, and it does
/// not resolve there.
pub open spec fn br_missing_ref(
    b: BusinessRequirementView,
    contacts: Seq<ContactView>,
    personas: Seq<PersonaView>,
    all_trs: Seq<TechnicalRequirementView>,
    id: u8,
) -> bool {
    ||| (b.owner_id == Some(id) && !contact_resolves(contacts, id))
    ||| (b.persona_id == Some(id) && !persona_resolves(personas, id))
    ||| (exists|q: int|
        #![auto]
        0 <= q < trs_for(all_trs, b.id).len() && trs_for(all_trs, b.id)[q].author_id == Some(id)
            && !contact_resolves(contacts, id))
}

/// Every reference that rendering follows resolves: the metadata owner, each
/// requirement's owner and persona, the author of each attached technical
/// requirement, and every contact-group member.
pub open spec fn all_refs_resolve(
    m: SpecMetaView,
    contacts: Seq<ContactView>,
    personas: Seq<PersonaView>,
    brs: Seq<BusinessRequirementView>,
    all_trs: Seq<TechnicalRequirementView>,
) -> bool {
    &&& contact_resolves(contacts, m.owner_id)
    &&& forall|i: int|
        0 <= i < brs.len() ==> br_fully_resolved(#[trigger] brs[i], contacts, personas, all_trs)
    &&& forall|gi: int, k: int|
        0 <= gi < m.contacts.len() && 0 <= k < m.contacts[gi].member_ids.len()
            ==> contact_resolves(contacts, #[trigger] m.contacts[gi].member_ids[k])
}

/// The id is a reference that rendering follows and cannot resolve.
pub open spec fn missing_reference(
    m: SpecMetaView,
    contacts: Seq<ContactView>,
    personas: Seq<PersonaView>,
    brs: Seq<BusinessRequirementView>,
    all_trs: Seq<TechnicalRequirementView>,
    id: u8,
) -> bool {
    ||| (m.owner_id == id && !contact_resolves(contacts, id))
    ||| (exists|i: int|
        0 <= i < brs.len() && br_missing_ref(#[trigger] brs[i], contacts, personas, all_trs, id))
    ||| (exists|gi: int, k: int|
        #![auto]
        0 <= gi < m.contacts.len() && 0 <= k < m.contacts[gi].member_ids.len()
            && m.contacts[gi].member_ids[k] == id && !contact_resolves(contacts, id))
}

/// The lines are the whole document for the given record collections: the
/// fixed section order, each sortable collection rendered in some ordered
/// arrangement of exactly its records.
pub open spec fn rendered_document(
    m: SpecMetaView,
    contacts: Seq<ContactView>,
    personas: Seq<PersonaView>,
    gaps: Seq<KnownGapView>,
    brs: Seq<BusinessRequirementView>,
    all_trs: Seq<TechnicalRequirementView>,
    sla: Seq<char>,
    terms: Seq<TermView>,
    lines: Seq<Seq<char>>,
) -> bool {
    exists|gaps2: Seq<KnownGapView>, personas2: Seq<PersonaView>, brs2: Seq<
        BusinessRequirementView,
    >, terms2: Seq<TermView>|
        {
            &&& gaps2.to_multiset() == gaps.to_multiset()
            &&& #[trigger] sorted_by_key::<KnownGap>(gaps2)
            &&& personas2.to_multiset() == personas.to_multiset()
            &&& #[trigger] sorted_by_key::<Persona>(personas2)
            &&& brs2.to_multiset() == brs.to_multiset()
            &&& #[trigger] sorted_by_key::<BusinessRequirement>(brs2)
            &&& terms2.to_multiset() == terms.to_multiset()
            &&& #[trigger] sorted_by_key::<Term>(terms2)
            &&& lines == head_chunks(m, contacts) + gaps_section(gaps2) + personas_section(
                personas2,
            ) + requirements_section(brs2, contacts, personas, all_trs) + sla_section(sla)
                + glossary_section(terms2) + contacts_section(m.contacts, contacts)
        }
}


/// Every requirement id is short enough that its heading depth fits the
/// machine's word size.
pub open spec fn ids_fit(brs: Seq<BusinessRequirementView>) -> bool {
    forall|i: int| 0 <= i < brs.len() ==> (#[trigger] brs[i]).id.len() + 4 <= usize::MAX
}

/// Sequences with equal multisets hold the same elements.
proof fn lemma_multiset_member_transfer<A>(s1: Seq<A>, s2: Seq<A>, x: A)
    requires
        s1.to_multiset() == s2.to_multiset(),
        s1.contains(x),
    ensures
        s2.contains(x),
{
    broadcast use vstd::seq_lib::group_to_multiset_ensures;

    assert(s1.to_multiset().count(x) > 0);
    assert(s2.to_multiset().count(x) > 0);
}


/// `n` spaces.
pub open spec fn spaces(n: nat) -> Seq<char> {
    Seq::new(n, |i: int| ' ')
}

/// The text padded with spaces on the right up to width `w`; text at least
/// that wide is kept as it is.
pub open spec fn pad_right(s: Seq<char>, w: nat) -> Seq<char> {
    if s.len() >= w {
        s
    } else {
        s + spaces((w - s.len()) as nat)
    }
}

/// The length of the longest contact name.
pub open spec fn max_name_len(cs: Seq<ContactView>) -> nat
    decreases cs.len(),
{
    if cs.len() == 0 {
        0
    } else if cs.last().name.len() > max_name_len(cs.drop_last()) {
        cs.last().name.len()
    } else {
        max_name_len(cs.drop_last())
    }
}

/// One row of the contact listing: id and name in fixed-width columns, then
/// the email when there is one.
pub open spec fn contact_row(c: ContactView, w: nat) -> Seq<char> {
    pad_right(dec_of(c.id as nat), 3) + " "@ + pad_right(c.name, w + 1) + " "@ + (match c.email {
        Some(e) => e,
        None => blank(),
    })
}

/// The rows for a run of contacts, in the given order.
pub open spec fn listing_chunks(cs: Seq<ContactView>, w: nat) -> Seq<Seq<char>>
    decreases cs.len(),
{
    if cs.len() == 0 {
        Seq::empty()
    } else {
        listing_chunks(cs.drop_last(), w) + seq![contact_row(cs.last(), w)]
    }
}

/// Pad a string with spaces on the right up to width `w`.
#[verifier::loop_isolation(false)]
fn pad_right_string(s: String, w: usize) -> (r: String)
    ensures
        r@ == pad_right(s@, w as nat),
{
    proof {
        reveal_strlit(" ");
    }
    let ghost orig = s@;
    let mut r = s;
    let mut n = r.unicode_len();
    proof {
        assert(orig + spaces(0) =~= orig);
    }
    while n < w
        invariant
            n == r@.len(),
            n >= orig.len(),
            n <= w || n == orig.len(),
            r@ == orig + spaces((n - orig.len()) as nat),
        decreases w - n,
    {
        r.append(" ");
        proof {
            assert((" ")@ =~= seq![' ']);
            assert(orig + spaces((n - orig.len()) as nat) + seq![' '] =~= orig + spaces(
                (n + 1 - orig.len()) as nat,
            ));
        }
        n = n + 1;
    }
    proof {
        if orig.len() >= w as nat {
            assert(r@ =~= orig);
        }
    }
    r
}

/// Appending one element is the same as adding a one-element sequence.
proof fn lemma_push_is_add<A>(s: Seq<A>, x: A)
    ensures
        s.push(x) == s + seq![x],
{
    assert(s.push(x) =~= s + seq![x]);
}

/// Sequence concatenation is associative.
proof fn lemma_add_assoc<A>(a: Seq<A>, b: Seq<A>, c: Seq<A>)
    ensures
        (a + b) + c == a + (b + c),
{
    assert((a + b) + c =~= a + (b + c));
}

/// Join a literal and a string.
fn concat2(lit: &str, rest: &str) -> (r: String)
    ensures
        r@ == lit@ + rest@,
{
    let mut s = lit.to_owned();
    s.append(rest);
    s
}

/// Join a literal, a string and a closing literal.
fn concat3(lit: &str, mid: &str, lit2: &str) -> (r: String)
    ensures
        r@ == lit@ + mid@ + lit2@,
{
    let mut s = lit.to_owned();
    s.append(mid);
    s.append(lit2);
    s
}

/// A string of `n` heading markers.
#[verifier::loop_isolation(false)]
pub fn repeat_hashes(n: usize) -> (r: String)
    ensures
        r@ == hashes(n as nat),
{
    proof {
        reveal_strlit("#");
    }
    let mut s = String::new();
    let mut i: usize = 0;
    while i < n
        invariant
            i <= n,
            s@ == hashes(i as nat),
        decreases n - i,
    {
        s.append("#");
        proof {
            assert(("#")@ =~= seq!['#']);
            assert(s@ =~= hashes((i + 1) as nat));
        }
        i = i + 1;
    }
    s
}

/// A copy of the records, sorted by the kind's key.
pub fn sorted_copy<T: Sortable>(v: &Vec<T>) -> (r: Vec<T>)
    ensures
        views_of(r@).to_multiset() == views_of(v@).to_multiset(),
        sorted_by_key::<T>(views_of(r@)),
        r@.len() == v@.len(),
{
    let mut c: Vec<T> = Vec::new();
    let mut i: usize = 0;
    proof {
        assert(views_of(c@) =~= views_of(v@).take(0));
    }
    while i < v.len()
        invariant
            i <= v.len(),
            c@.len() == i,
            views_of(c@) == views_of(v@).take(i as int),
        decreases v.len() - i,
    {
        c.push(v[i].duplicate());
        proof {
            assert(views_of(c@) =~= views_of(v@).take(i + 1));
        }
        i = i + 1;
    }
    proof {
        assert(views_of(v@).take(v@.len() as int) =~= views_of(v@));
    }
    sort_records(&mut c);
    c
}

impl Spec {
    /// Append the document head; fails with the owner's id exactly when the
    /// metadata's owner is not among the contacts.
    fn render_head(&self, out: &mut Vec<String>) -> (r: Result<(), SpecError>)
        ensures
            match r {
                Ok(_) => contact_resolves(views_of(self.contacts@), self.meta@.owner_id)
                    && texts_of(final(out)@) == texts_of(old(out)@) + head_chunks(
                    self.meta@,
                    views_of(self.contacts@),
                ),
                Err(e) => !contact_resolves(views_of(self.contacts@), self.meta@.owner_id) && e
                    == SpecError::NotFound(self.meta@.owner_id),
            },
    {
        let ghost base = texts_of(old(out)@);
        out.push("# Specification".to_owned());
        let version = crate::digits::u64_to_dec_string(self.meta.version as u64);
        out.push(concat2("Version: ", version.as_str()));
        out.push(String::new());
        let date = self.meta.date.to_display_string();
        out.push(concat2("Date: ", date.as_str()));
        out.push(String::new());
        let owner = match self.find_contact(self.meta.owner_id) {
            Ok(c) => c.to_display_string(),
            Err(e) => {
                return Err(e);
            },
        };
        out.push(concat2("Owner: ", owner.as_str()));
        out.push(String::new());
        out.push(String::new());
        out.push("## Description".to_owned());
        out.push(self.meta.description.clone());
        out.push(String::new());
        proof {
            assert(texts_of(out@) =~~= base + head_chunks(self.meta@, views_of(self.contacts@)));
        }
        Ok(())
    }

    /// Append the known-gaps section for gaps already in render order.
    #[verifier::loop_isolation(false)]
    fn render_gaps(&self, out: &mut Vec<String>, gaps: &Vec<KnownGap>)
        ensures
            texts_of(final(out)@) == texts_of(old(out)@) + gaps_section(views_of(gaps@)),
    {
        let ghost base = texts_of(old(out)@);
        let ghost gv = views_of(gaps@);
        if gaps.len() == 0 {
            proof {
                assert(texts_of(out@) =~~= base + gaps_section(gv));
            }
            return ;
        }
        out.push("## Known Gaps".to_owned());
        let mut i: usize = 0;
        proof {
            assert(texts_of(out@) =~~= base + seq!["## Known Gaps"@] + gaps_chunks(gv.take(0)));
        }
        while i < gaps.len()
            invariant
                i <= gaps.len(),
                texts_of(out@) == base + seq!["## Known Gaps"@] + gaps_chunks(gv.take(i as int)),
            decreases gaps.len() - i,
        {
            let ghost t0 = texts_of(out@);
            let ghost la = "### "@ + gv[i as int].requirement_id;
            let ghost lb = gv[i as int].description;
            proof {
                assert(gv[i as int] == gaps@[i as int]@);
            }
            out.push(concat2("### ", gaps[i].requirement_id.as_str()));
            proof {
                assert(texts_of(out@) =~~= t0.push(la));
            }
            out.push(gaps[i].description.clone());
            proof {
                assert(texts_of(out@) =~~= t0.push(la).push(lb));
            }
            out.push(String::new());
            proof {
                assert(texts_of(out@) =~~= t0.push(la).push(lb).push(blank()));
                assert(t0.push(la).push(lb).push(blank()) =~= t0 + seq![la, lb, blank()]);
                assert(seq![la, lb, blank()] == gap_chunks(gv[i as int]));
                assert(gv.take(i + 1).drop_last() =~= gv.take(i as int));
                assert(gv.take(i + 1).last() == gv[i as int]);
                assert(gaps_chunks(gv.take(i + 1)) == gaps_chunks(gv.take(i as int)) + gap_chunks(
                    gv[i as int],
                ));
                lemma_add_assoc(
                    base + seq!["## Known Gaps"@],
                    gaps_chunks(gv.take(i as int)),
                    gap_chunks(gv[i as int]),
                );
                assert(texts_of(out@) == base + seq!["## Known Gaps"@] + gaps_chunks(gv.take(i + 1)));
            }
            i = i + 1;
        }
        proof {
            assert(gv.take(gaps@.len() as int) =~= gv);
            lemma_add_assoc(base, seq!["## Known Gaps"@], gaps_chunks(gv));
            assert(texts_of(out@) == base + gaps_section(gv));
        }
    }

    /// Append the personas section for personas already in render order.
    #[verifier::loop_isolation(false)]
    fn render_personas(&self, out: &mut Vec<String>, personas: &Vec<Persona>)
        ensures
            texts_of(final(out)@) == texts_of(old(out)@) + personas_section(views_of(personas@)),
    {
        let ghost base = texts_of(old(out)@);
        let ghost pv = views_of(personas@);
        if personas.len() == 0 {
            proof {
                assert(texts_of(out@) =~~= base + personas_section(pv));
            }
            return ;
        }
        out.push("## Personas".to_owned());
        let mut i: usize = 0;
        proof {
            assert(texts_of(out@) =~~= base + seq!["## Personas"@] + personas_chunks(pv.take(0)));
        }
        while i < personas.len()
            invariant
                i <= personas.len(),
                texts_of(out@) == base + seq!["## Personas"@] + personas_chunks(pv.take(i as int)),
            decreases personas.len() - i,
        {
            let ghost t0 = texts_of(out@);
            let ghost la = "### "@ + pv[i as int].name;
            let ghost lb = pv[i as int].description;
            proof {
                assert(pv[i as int] == personas@[i as int]@);
            }
            out.push(concat2("### ", personas[i].name.as_str()));
            proof {
                assert(texts_of(out@) =~~= t0.push(la));
            }
            out.push(personas[i].description.clone());
            proof {
                assert(texts_of(out@) =~~= t0.push(la).push(lb));
            }
            out.push(String::new());
            proof {
                assert(texts_of(out@) =~~= t0.push(la).push(lb).push(blank()));
                assert(t0.push(la).push(lb).push(blank()) =~= t0 + seq![la, lb, blank()]);
                assert(seq![la, lb, blank()] == persona_chunks(pv[i as int]));
                assert(pv.take(i + 1).drop_last() =~= pv.take(i as int));
                assert(pv.take(i + 1).last() == pv[i as int]);
                assert(personas_chunks(pv.take(i + 1)) == personas_chunks(pv.take(i as int)) + persona_chunks(
                    pv[i as int],
                ));
                lemma_add_assoc(
                    base + seq!["## Personas"@],
                    personas_chunks(pv.take(i as int)),
                    persona_chunks(pv[i as int]),
                );
                assert(texts_of(out@) == base + seq!["## Personas"@] + personas_chunks(pv.take(i + 1)));
            }
            i = i + 1;
        }
        proof {
            assert(pv.take(personas@.len() as int) =~= pv);
        }
        let ghost t1 = texts_of(out@);
        out.push(String::new());
        proof {
            assert(texts_of(out@) =~~= t1.push(blank()));
            lemma_push_is_add(t1, blank());
            lemma_add_assoc(base + seq!["## Personas"@], personas_chunks(pv), seq![blank()]);
            lemma_add_assoc(base, seq!["## Personas"@], personas_chunks(pv) + seq![blank()]);
            lemma_add_assoc(seq!["## Personas"@], personas_chunks(pv), seq![blank()]);
            assert(texts_of(out@) == base + personas_section(pv));
        }
    }

    /// Append the glossary section for terms already in render order.
    #[verifier::loop_isolation(false)]
    fn render_glossary(&self, out: &mut Vec<String>, terms: &Vec<Term>)
        ensures
            texts_of(final(out)@) == texts_of(old(out)@) + glossary_section(views_of(terms@)),
    {
        let ghost base = texts_of(old(out)@);
        let ghost tv = views_of(terms@);
        if terms.len() == 0 {
            proof {
                assert(texts_of(out@) =~~= base + glossary_section(tv));
            }
            return ;
        }
        out.push("## Glossary".to_owned());
        let mut i: usize = 0;
        proof {
            assert(texts_of(out@) =~~= base + seq!["## Glossary"@] + terms_chunks(tv.take(0)));
        }
        while i < terms.len()
            invariant
                i <= terms.len(),
                texts_of(out@) == base + seq!["## Glossary"@] + terms_chunks(tv.take(i as int)),
            decreases terms.len() - i,
        {
            let ghost t0 = texts_of(out@);
            let ghost la = "### "@ + tv[i as int].name;
            let ghost lb = tv[i as int].definition;
            proof {
                assert(tv[i as int] == terms@[i as int]@);
            }
            out.push(concat2("### ", terms[i].name.as_str()));
            proof {
                assert(texts_of(out@) =~~= t0.push(la));
            }
            out.push(terms[i].definition.clone());
            proof {
                assert(texts_of(out@) =~~= t0.push(la).push(lb));
            }
            out.push(String::new());
            proof {
                assert(texts_of(out@) =~~= t0.push(la).push(lb).push(blank()));
                assert(t0.push(la).push(lb).push(blank()) =~= t0 + seq![la, lb, blank()]);
                assert(seq![la, lb, blank()] == term_chunks(tv[i as int]));
                assert(tv.take(i + 1).drop_last() =~= tv.take(i as int));
                assert(tv.take(i + 1).last() == tv[i as int]);
                assert(terms_chunks(tv.take(i + 1)) == terms_chunks(tv.take(i as int)) + term_chunks(
                    tv[i as int],
                ));
                lemma_add_assoc(
                    base + seq!["## Glossary"@],
                    terms_chunks(tv.take(i as int)),
                    term_chunks(tv[i as int]),
                );
                assert(texts_of(out@) == base + seq!["## Glossary"@] + terms_chunks(tv.take(i + 1)));
            }
            i = i + 1;
        }
        proof {
            assert(tv.take(terms@.len() as int) =~= tv);
            lemma_add_assoc(base, seq!["## Glossary"@], terms_chunks(tv));
            assert(texts_of(out@) == base + glossary_section(tv));
        }
    }

    /// Append the service-level section.
    fn render_sla(&self, out: &mut Vec<String>)
        ensures
            texts_of(final(out)@) == texts_of(old(out)@) + sla_section(self.sla@),
    {
        let ghost base = texts_of(old(out)@);
        out.push("## SLA".to_owned());
        out.push(self.sla.clone());
        out.push(String::new());
        proof {
            assert(texts_of(out@) =~~= base + sla_section(self.sla@));
        }
    }


    /// Append the lines of one technical requirement; fails with the author's
    /// id exactly when the author reference does not resolve.
    fn render_technical(
        &self,
        out: &mut Vec<String>,
        t: &crate::technical_requirement::TechnicalRequirement,
    ) -> (r: Result<(), SpecError>)
        ensures
            match r {
                Ok(_) => texts_of(final(out)@) == texts_of(old(out)@) + tr_chunks(
                    t@,
                    views_of(self.contacts@),
                ) && tr_refs_ok(t@, views_of(self.contacts@)),
                Err(e) => e matches SpecError::NotFound(a) && t@.author_id == Some(a)
                    && !contact_resolves(views_of(self.contacts@), a),
            },
    {
        let ghost cv = views_of(self.contacts@);
        let ghost t0 = texts_of(old(out)@);
        out.push(t.description.clone());
        out.push(String::new());
        let ghost part1 = seq![t@.description, blank()];
        proof {
            assert(texts_of(out@) =~~= t0 + part1);
        }
        match &t.author_id {
            Some(author_id) => {
                let c = match self.find_contact(*author_id) {
                    Ok(c) => c,
                    Err(e) => {
                        return Err(e);
                    },
                };
                let line = c.to_display_string();
                out.push(concat2("Author: ", line.as_str()));
                out.push(String::new());
            },
            None => {},
        }
        let ghost part2 = part1 + (match t@.author_id {
            Some(a) => seq!["Author: "@ + resolved_contact_text(cv, a), blank()],
            None => Seq::<Seq<char>>::empty(),
        });
        proof {
            assert(texts_of(out@) =~~= t0 + part2);
        }
        match &t.code_url {
            Some(url) => {
                out.push(concat3("[Code](", url.as_str(), ")"));
                out.push(String::new());
            },
            None => {},
        }
        let ghost part3 = part2 + (match t@.code_url {
            Some(u) => seq!["[Code]("@ + u + ")"@, blank()],
            None => Seq::<Seq<char>>::empty(),
        });
        proof {
            assert(texts_of(out@) =~~= t0 + part3);
        }
        match &t.test_url {
            Some(url) => {
                out.push(concat3("[Tests](", url.as_str(), ")"));
                out.push(String::new());
            },
            None => {},
        }
        let ghost part4 = part3 + (match t@.test_url {
            Some(u) => seq!["[Tests]("@ + u + ")"@, blank()],
            None => Seq::<Seq<char>>::empty(),
        });
        proof {
            assert(texts_of(out@) =~~= t0 + part4);
        }
        out.push(String::new());
        proof {
            assert(texts_of(out@) =~~= t0 + (part4 + seq![blank()]));
            assert(part4 + seq![blank()] == tr_chunks(t@, cv));
        }
        Ok(())
    }

    /// Append the lines of one business requirement and its technical
    /// requirements; fails with the first reference id that does not resolve.
    #[verifier::loop_isolation(false)]
    #[verifier::rlimit(60)]
    fn render_requirement(
        &self,
        out: &mut Vec<String>,
        br: &BusinessRequirement,
    ) -> (r: Result<(), SpecError>)
        requires
            br@.id.len() + 4 <= usize::MAX,
        ensures
            match r {
                Ok(_) => texts_of(final(out)@) == texts_of(old(out)@) + br_chunks(
                    br@,
                    views_of(self.contacts@),
                    views_of(self.personas@),
                    views_of(self.technical_requirements@),
                ) && br_fully_resolved(
                    br@,
                    views_of(self.contacts@),
                    views_of(self.personas@),
                    views_of(self.technical_requirements@),
                ),
                Err(e) => e matches SpecError::NotFound(id) && br_missing_ref(
                    br@,
                    views_of(self.contacts@),
                    views_of(self.personas@),
                    views_of(self.technical_requirements@),
                    id,
                ),
            },
    {
        let ghost cv = views_of(self.contacts@);
        let ghost pv = views_of(self.personas@);
        let ghost tv = views_of(self.technical_requirements@);
        let ghost t0 = texts_of(old(out)@);
        let level = br.markdown_level();
        let mut heading = repeat_hashes(level);
        heading.append(" ");
        let ds = br.id.to_display_string();
        heading.append(ds.as_str());
        heading.append(". ");
        heading.append(br.name.as_str());
        proof {
            assert(heading@ == br_heading(br@));
        }
        out.push(heading);
        let ghost part1 = seq![br_heading(br@)];
        proof {
            assert(texts_of(out@) =~~= t0 + part1);
        }
        match &br.date {
            Some(d) => {
                let dt = d.to_display_string();
                out.push(concat2("Date: ", dt.as_str()));
                out.push(String::new());
            },
            None => {},
        }
        let ghost part2 = part1 + (match br@.date {
            Some(d) => seq!["Date: "@ + date_text(d), blank()],
            None => Seq::<Seq<char>>::empty(),
        });
        proof {
            assert(texts_of(out@) =~~= t0 + part2);
        }
        match &br.owner_id {
            Some(owner_id) => {
                let c = match self.find_contact(*owner_id) {
                    Ok(c) => c,
                    Err(e) => {
                        return Err(e);
                    },
                };
                let line = c.to_display_string();
                out.push(concat2("Owner: ", line.as_str()));
                out.push(String::new());
            },
            None => {},
        }
        let ghost part3 = part2 + (match br@.owner_id {
            Some(o) => seq!["Owner: "@ + resolved_contact_text(cv, o), blank()],
            None => Seq::<Seq<char>>::empty(),
        });
        proof {
            assert(texts_of(out@) =~~= t0 + part3);
        }
        match &br.persona_id {
            Some(persona_id) => {
                let p = match self.find_persona(*persona_id) {
                    Ok(p) => p,
                    Err(e) => {
                        return Err(e);
                    },
                };
                out.push(concat2("Persona: ", p.name.as_str()));
                out.push(String::new());
            },
            None => {},
        }
        let ghost part4 = part3 + (match br@.persona_id {
            Some(p) => seq!["Persona: "@ + resolved_persona_name(pv, p), blank()],
            None => Seq::<Seq<char>>::empty(),
        });
        proof {
            assert(texts_of(out@) =~~= t0 + part4);
        }
        match &br.note {
            Some(n) => {
                out.push(n.clone());
            },
            None => {},
        }
        let ghost part5 = part4 + (match br@.note {
            Some(n) => seq![n],
            None => Seq::<Seq<char>>::empty(),
        });
        proof {
            assert(texts_of(out@) =~~= t0 + part5);
        }
        out.push(String::new());
        let ghost part6 = part5 + seq![blank()];
        proof {
            assert(texts_of(out@) =~~= t0 + part6);
        }
        let trs = self.find_technical_requirements_for(&br.id);
        let ghost ts = trs_for(tv, br@.id);
        proof {
            assert(trs@.map_values(|t: &crate::technical_requirement::TechnicalRequirement| t@)
                == ts);
            assert(trs@.len() == ts.len());
        }
        if trs.len() > 0 {
            let mut h2 = repeat_hashes(level + 1);
            h2.append(" Technical Requirements");
            out.push(h2);
            let ghost tbase = t0 + part6 + seq![
                hashes((br@.id.len() + 4) as nat) + " Technical Requirements"@,
            ];
            proof {
                lemma_add_assoc(
                    t0,
                    part6,
                    seq![hashes((br@.id.len() + 4) as nat) + " Technical Requirements"@],
                );
                assert(texts_of(out@) =~~= tbase);
            }
            let mut j: usize = 0;
            proof {
                assert(texts_of(out@) =~~= tbase + trs_chunks(ts.take(0), cv));
            }
            while j < trs.len()
                invariant
                    j <= trs.len(),
                    texts_of(out@) == tbase + trs_chunks(ts.take(j as int), cv),
                    forall|q: int| 0 <= q < j ==> tr_refs_ok(#[trigger] ts[q], cv),
                decreases trs.len() - j,
            {
                proof {
                    assert(ts[j as int] == trs@.map_values(
                        |t: &crate::technical_requirement::TechnicalRequirement| t@,
                    )[j as int]);
                }
                match self.render_technical(out, trs[j]) {
                    Ok(_) => {},
                    Err(e) => {
                        return Err(e);
                    },
                }
                proof {
                    assert(ts.take(j + 1).drop_last() =~= ts.take(j as int));
                    assert(ts.take(j + 1).last() == ts[j as int]);
                    assert(trs_chunks(ts.take(j + 1), cv) == trs_chunks(ts.take(j as int), cv)
                        + tr_chunks(ts[j as int], cv));
                    lemma_add_assoc(tbase, trs_chunks(ts.take(j as int), cv), tr_chunks(
                        ts[j as int],
                        cv,
                    ));
                    assert(texts_of(out@) == tbase + trs_chunks(ts.take(j + 1), cv));
                }
                j = j + 1;
            }
            proof {
                assert(ts.take(ts.len() as int) =~= ts);
                assert(tr_block(br@, cv, tv) == seq![
                    hashes((br@.id.len() + 4) as nat) + " Technical Requirements"@,
                ] + trs_chunks(ts, cv));
                lemma_add_assoc(
                    t0 + part6,
                    seq![hashes((br@.id.len() + 4) as nat) + " Technical Requirements"@],
                    trs_chunks(ts, cv),
                );
                lemma_add_assoc(t0, part6, tr_block(br@, cv, tv));
                assert(texts_of(out@) == t0 + (part6 + tr_block(br@, cv, tv)));
                assert(part6 + tr_block(br@, cv, tv) == br_chunks(br@, cv, pv, tv));
            }
        } else {
            proof {
                assert(tr_block(br@, cv, tv) == Seq::<Seq<char>>::empty());
                assert(part6 + tr_block(br@, cv, tv) =~~= part6);
                assert(part6 == br_chunks(br@, cv, pv, tv));
            }
        }
        Ok(())
    }

    /// Append the requirements section for requirements already in render
    /// order; fails with the first reference id that does not resolve.
    #[verifier::loop_isolation(false)]
    fn render_requirements(
        &self,
        out: &mut Vec<String>,
        brs: &Vec<BusinessRequirement>,
    ) -> (r: Result<(), SpecError>)
        requires
            forall|i: int|
                0 <= i < brs@.len() ==> (#[trigger] views_of(brs@)[i]).id.len() + 4 <= usize::MAX,
        ensures
            match r {
                Ok(_) => texts_of(final(out)@) == texts_of(old(out)@) + requirements_section(
                    views_of(brs@),
                    views_of(self.contacts@),
                    views_of(self.personas@),
                    views_of(self.technical_requirements@),
                ) && forall|i: int|
                    0 <= i < brs@.len() ==> br_fully_resolved(
                        #[trigger] views_of(brs@)[i],
                        views_of(self.contacts@),
                        views_of(self.personas@),
                        views_of(self.technical_requirements@),
                    ),
                Err(e) => e matches SpecError::NotFound(id) && exists|i: int|
                    0 <= i < brs@.len() && br_missing_ref(
                        #[trigger] views_of(brs@)[i],
                        views_of(self.contacts@),
                        views_of(self.personas@),
                        views_of(self.technical_requirements@),
                        id,
                    ),
            },
    {
        let ghost cv = views_of(self.contacts@);
        let ghost pv = views_of(self.personas@);
        let ghost tv = views_of(self.technical_requirements@);
        let ghost bv = views_of(brs@);
        let ghost base = texts_of(old(out)@);
        out.push("## Requirements".to_owned());
        let mut i: usize = 0;
        proof {
            assert(texts_of(out@) =~~= base + seq!["## Requirements"@] + brs_chunks(
                bv.take(0),
                cv,
                pv,
                tv,
            ));
        }
        while i < brs.len()
            invariant
                i <= brs.len(),
                texts_of(out@) == base + seq!["## Requirements"@] + brs_chunks(
                    bv.take(i as int),
                    cv,
                    pv,
                    tv,
                ),
                forall|q: int| 0 <= q < i ==> br_fully_resolved(#[trigger] bv[q], cv, pv, tv),
            decreases brs.len() - i,
        {
            proof {
                assert(bv[i as int] == brs@[i as int]@);
            }
            match self.render_requirement(out, &brs[i]) {
                Ok(_) => {},
                Err(e) => {
                    return Err(e);
                },
            }
            proof {
                assert(bv.take(i + 1).drop_last() =~= bv.take(i as int));
                assert(bv.take(i + 1).last() == bv[i as int]);
                assert(brs_chunks(bv.take(i + 1), cv, pv, tv) == brs_chunks(
                    bv.take(i as int),
                    cv,
                    pv,
                    tv,
                ) + br_chunks(bv[i as int], cv, pv, tv));
                lemma_add_assoc(
                    base + seq!["## Requirements"@],
                    brs_chunks(bv.take(i as int), cv, pv, tv),
                    br_chunks(bv[i as int], cv, pv, tv),
                );
                assert(texts_of(out@) == base + seq!["## Requirements"@] + brs_chunks(
                    bv.take(i + 1),
                    cv,
                    pv,
                    tv,
                ));
            }
            i = i + 1;
        }
        proof {
            assert(bv.take(brs@.len() as int) =~= bv);
            lemma_add_assoc(base, seq!["## Requirements"@], brs_chunks(bv, cv, pv, tv));
            assert(texts_of(out@) == base + requirements_section(bv, cv, pv, tv));
        }
        Ok(())
    }


    /// Render the whole document: the fixed section order, the sortable
    /// collections each sorted by their key, every reference resolved against
    /// the loaded contacts and personas. Succeeds exactly when every
    /// reference that rendering follows resolves; otherwise the error carries
    /// the id of a reference that does not.
    pub fn render(&self) -> (r: Result<Vec<String>, SpecError>)
        requires
            ids_fit(views_of(self.business_requirements@)),
        ensures
            match r {
                Ok(lines) => all_refs_resolve(
                    self.meta@,
                    views_of(self.contacts@),
                    views_of(self.personas@),
                    views_of(self.business_requirements@),
                    views_of(self.technical_requirements@),
                ) && rendered_document(
                    self.meta@,
                    views_of(self.contacts@),
                    views_of(self.personas@),
                    views_of(self.known_gaps@),
                    views_of(self.business_requirements@),
                    views_of(self.technical_requirements@),
                    self.sla@,
                    views_of(self.terms@),
                    texts_of(lines@),
                ),
                Err(e) => !all_refs_resolve(
                    self.meta@,
                    views_of(self.contacts@),
                    views_of(self.personas@),
                    views_of(self.business_requirements@),
                    views_of(self.technical_requirements@),
                ) && (e matches SpecError::NotFound(id) && missing_reference(
                    self.meta@,
                    views_of(self.contacts@),
                    views_of(self.personas@),
                    views_of(self.business_requirements@),
                    views_of(self.technical_requirements@),
                    id,
                )),
            },
    {
        let ghost m = self.meta@;
        let ghost cv = views_of(self.contacts@);
        let ghost pv = views_of(self.personas@);
        let ghost bv = views_of(self.business_requirements@);
        let ghost tv = views_of(self.technical_requirements@);
        let ghost gv = views_of(self.known_gaps@);
        let ghost tmv = views_of(self.terms@);
        let gaps = sorted_copy(&self.known_gaps);
        let personas = sorted_copy(&self.personas);
        let brs = sorted_copy(&self.business_requirements);
        let terms = sorted_copy(&self.terms);
        let ghost bv2 = views_of(brs@);
        proof {
            assert forall|i: int| 0 <= i < bv2.len() implies (#[trigger] bv2[i]).id.len() + 4
                <= usize::MAX by {
                assert(bv2.contains(bv2[i]));
                lemma_multiset_member_transfer(bv2, bv, bv2[i]);
                let j = choose|j: int| 0 <= j < bv.len() && bv[j] == bv2[i];
                assert(bv[j].id.len() + 4 <= usize::MAX);
            }
        }
        let mut out: Vec<String> = Vec::new();
        proof {
            assert(texts_of(out@) =~~= Seq::<Seq<char>>::empty());
        }
        match self.render_head(&mut out) {
            Ok(_) => {},
            Err(e) => {
                proof {
                    assert(missing_reference(m, cv, pv, bv, tv, m.owner_id));
                    assert(!all_refs_resolve(m, cv, pv, bv, tv));
                }
                return Err(e);
            },
        }
        let ghost l1 = head_chunks(m, cv);
        proof {
            assert(Seq::<Seq<char>>::empty() + l1 =~~= l1);
            assert(texts_of(out@) == l1);
        }
        self.render_gaps(&mut out, &gaps);
        let ghost l2 = l1 + gaps_section(views_of(gaps@));
        self.render_personas(&mut out, &personas);
        let ghost l3 = l2 + personas_section(views_of(personas@));
        match self.render_requirements(&mut out, &brs) {
            Ok(_) => {},
            Err(e) => {
                proof {
                    let id = e->NotFound_0;
                    let i = choose|i: int|
                        0 <= i < bv2.len() && br_missing_ref(#[trigger] bv2[i], cv, pv, tv, id);
                    assert(bv2.contains(bv2[i]));
                    lemma_multiset_member_transfer(bv2, bv, bv2[i]);
                    let j = choose|j: int| 0 <= j < bv.len() && bv[j] == bv2[i];
                    assert(br_missing_ref(bv[j], cv, pv, tv, id));
                    assert(missing_reference(m, cv, pv, bv, tv, id));
                    assert(!all_refs_resolve(m, cv, pv, bv, tv)) by {
                        if all_refs_resolve(m, cv, pv, bv, tv) {
                            assert(br_fully_resolved(bv[j], cv, pv, tv));
                            if !(bv[j].owner_id == Some(id) && !contact_resolves(cv, id)) && !(
                            bv[j].persona_id == Some(id) && !persona_resolves(pv, id)) {
                                let q = choose|q: int|
                                    #![auto]
                                    0 <= q < trs_for(tv, bv[j].id).len() && trs_for(
                                        tv,
                                        bv[j].id,
                                    )[q].author_id == Some(id) && !contact_resolves(cv, id);
                                assert(tr_refs_ok(trs_for(tv, bv[j].id)[q], cv));
                            }
                        }
                    }
                }
                return Err(e);
            },
        }
        let ghost l4 = l3 + requirements_section(bv2, cv, pv, tv);
        self.render_sla(&mut out);
        let ghost l5 = l4 + sla_section(self.sla@);
        self.render_glossary(&mut out, &terms);
        let ghost l6 = l5 + glossary_section(views_of(terms@));
        match self.render_contact_groups(&mut out) {
            Ok(_) => {},
            Err(e) => {
                proof {
                    assert(!all_refs_resolve(m, cv, pv, bv, tv));
                }
                return Err(e);
            },
        }
        proof {
            assert(texts_of(out@) == l6 + contacts_section(m.contacts, cv));
            assert forall|i: int| 0 <= i < bv.len() implies br_fully_resolved(
                #[trigger] bv[i],
                cv,
                pv,
                tv,
            ) by {
                assert(bv.contains(bv[i]));
                lemma_multiset_member_transfer(bv, bv2, bv[i]);
                let j = choose|j: int| 0 <= j < bv2.len() && bv2[j] == bv[i];
                assert(br_fully_resolved(bv2[j], cv, pv, tv));
            }
            assert(all_refs_resolve(m, cv, pv, bv, tv));
            assert(sorted_by_key::<KnownGap>(views_of(gaps@)));
            assert(sorted_by_key::<Persona>(views_of(personas@)));
            assert(sorted_by_key::<BusinessRequirement>(bv2));
            assert(sorted_by_key::<Term>(views_of(terms@)));
            assert(rendered_document(m, cv, pv, gv, bv, tv, self.sla@, tmv, texts_of(out@)));
        }
        Ok(out)
    }


    /// The contact listing: every contact on one row, sorted by id, the id
    /// and name columns padded for alignment.
    #[verifier::loop_isolation(false)]
    pub fn list_contacts(&self) -> (r: Vec<String>)
        requires
            max_name_len(views_of(self.contacts@)) + 1 <= usize::MAX,
        ensures
            exists|cs2: Seq<ContactView>|
                {
                    &&& cs2.to_multiset() == views_of(self.contacts@).to_multiset()
                    &&& #[trigger] sorted_by_key::<Contact>(cs2)
                    &&& texts_of(r@) == listing_chunks(cs2, max_name_len(views_of(self.contacts@)))
                },
    {
        let ghost cv = views_of(self.contacts@);
        let w = self.max_contact_name_len();
        let sorted = sorted_copy(&self.contacts);
        let ghost cs2 = views_of(sorted@);
        let mut out: Vec<String> = Vec::new();
        let mut i: usize = 0;
        proof {
            assert(texts_of(out@) =~~= listing_chunks(cs2.take(0), w as nat));
        }
        while i < sorted.len()
            invariant
                i <= sorted.len(),
                texts_of(out@) == listing_chunks(cs2.take(i as int), w as nat),
            decreases sorted.len() - i,
        {
            let c = &sorted[i];
            proof {
                assert(cs2[i as int] == sorted@[i as int]@);
            }
            let ds = crate::digits::u64_to_dec_string(c.id as u64);
            let mut row = pad_right_string(ds, 3);
            row.append(" ");
            let padded_name = pad_right_string(c.name.clone(), w + 1);
            row.append(padded_name.as_str());
            row.append(" ");
            match &c.email {
                Some(e) => {
                    row.append(e.as_str());
                },
                None => {},
            }
            proof {
                assert(row@ == contact_row(cs2[i as int], w as nat));
            }
            let ghost t0 = texts_of(out@);
            out.push(row);
            proof {
                assert(texts_of(out@) =~~= t0.push(contact_row(cs2[i as int], w as nat)));
                lemma_push_is_add(t0, contact_row(cs2[i as int], w as nat));
                assert(cs2.take(i + 1).drop_last() =~= cs2.take(i as int));
                assert(cs2.take(i + 1).last() == cs2[i as int]);
                assert(listing_chunks(cs2.take(i + 1), w as nat) == listing_chunks(
                    cs2.take(i as int),
                    w as nat,
                ) + seq![contact_row(cs2[i as int], w as nat)]);
                assert(texts_of(out@) == listing_chunks(cs2.take(i + 1), w as nat));
            }
            i = i + 1;
        }
        proof {
            assert(cs2.take(sorted@.len() as int) =~= cs2);
        }
        out
    }

    /// The length of the longest contact name, in characters.
    #[verifier::loop_isolation(false)]
    fn max_contact_name_len(&self) -> (r: usize)
        ensures
            r == max_name_len(views_of(self.contacts@)),
    {
        let ghost cv = views_of(self.contacts@);
        let mut w: usize = 0;
        let mut i: usize = 0;
        proof {
            assert(cv.take(0) =~= Seq::<ContactView>::empty());
        }
        while i < self.contacts.len()
            invariant
                i <= self.contacts.len(),
                w == max_name_len(cv.take(i as int)),
            decreases self.contacts.len() - i,
        {
            let n = self.contacts[i].name.as_str().unicode_len();
            proof {
                assert(cv[i as int] == self.contacts@[i as int]@);
                assert(cv.take(i + 1).drop_last() =~= cv.take(i as int));
                assert(cv.take(i + 1).last() == cv[i as int]);
            }
            if n > w {
                w = n;
            }
            i = i + 1;
        }
        proof {
            assert(cv.take(self.contacts@.len() as int) =~= cv);
        }
        w
    }

    /// Append the contacts section: each metadata group with its resolved
    /// members. An error carries a member id with no matching contact.
    #[verifier::loop_isolation(false)]
    fn render_contact_groups(&self, out: &mut Vec<String>) -> (r: Result<(), SpecError>)
        ensures
            match r {
                Ok(_) => texts_of(final(out)@) == texts_of(old(out)@) + contacts_section(
                    self.meta@.contacts,
                    views_of(self.contacts@),
                ) && forall|gi: int, k: int|
                    0 <= gi < self.meta@.contacts.len() && 0 <= k
                        < self.meta@.contacts[gi].member_ids.len() ==> contact_resolves(
                        views_of(self.contacts@),
                        #[trigger] self.meta@.contacts[gi].member_ids[k],
                    ),
                Err(e) => exists|gi: int, k: int|
                    0 <= gi < self.meta@.contacts.len() && 0 <= k
                        < self.meta@.contacts[gi].member_ids.len() && !contact_resolves(
                        views_of(self.contacts@),
                        #[trigger] self.meta@.contacts[gi].member_ids[k],
                    ) && e == SpecError::NotFound(self.meta@.contacts[gi].member_ids[k]),
            },
    {
        let ghost base = texts_of(old(out)@);
        let ghost gs = self.meta@.contacts;
        let ghost cv = views_of(self.contacts@);
        out.push("## Contacts".to_owned());
        let mut gi: usize = 0;
        proof {
            assert(texts_of(out@) =~~= base + seq!["## Contacts"@] + groups_chunks(
                gs.take(0),
                cv,
            ));
        }
        while gi < self.meta.contacts.len()
            invariant
                gi <= self.meta.contacts.len(),
                texts_of(out@) == base + seq!["## Contacts"@] + groups_chunks(
                    gs.take(gi as int),
                    cv,
                ),
                forall|q: int, k: int|
                    0 <= q < gi && 0 <= k < gs[q].member_ids.len() ==> contact_resolves(
                        cv,
                        #[trigger] gs[q].member_ids[k],
                    ),
            decreases self.meta.contacts.len() - gi,
        {
            let group = &self.meta.contacts[gi];
            let ghost g0 = texts_of(out@);
            let ghost hdrp = "### "@ + gs[gi as int].name;
            proof {
                assert(gs[gi as int] == self.meta.contacts@[gi as int]@);
            }
            out.push(concat2("### ", group.name.as_str()));
            proof {
                assert(texts_of(out@) =~~= g0.push(hdrp));
            }
            let ghost gbase = texts_of(out@);
            let mut k: usize = 0;
            proof {
                assert(texts_of(out@) =~~= gbase + member_chunks(
                    gs[gi as int].member_ids.take(0),
                    cv,
                ));
            }
            while k < group.member_ids.len()
                invariant
                    k <= group.member_ids.len(),
                    texts_of(out@) == gbase + member_chunks(
                        gs[gi as int].member_ids.take(k as int),
                        cv,
                    ),
                    forall|q: int|
                        0 <= q < k ==> contact_resolves(
                            cv,
                            #[trigger] gs[gi as int].member_ids[q],
                        ),
                decreases group.member_ids.len() - k,
            {
                let member_id = group.member_ids[k];
                let c = match self.find_contact(member_id) {
                    Ok(c) => c,
                    Err(e) => {
                        proof {
                            assert(gs[gi as int].member_ids[k as int] == member_id);
                        }
                        return Err(e);
                    },
                };
                let line = c.to_display_string();
                let ghost t0 = texts_of(out@);
                let ghost lx = "- "@ + resolved_contact_text(cv, gs[gi as int].member_ids[k as int]);
                proof {
                    assert(line@ == resolved_contact_text(cv, member_id));
                }
                out.push(concat2("- ", line.as_str()));
                proof {
                    let ids = gs[gi as int].member_ids;
                    assert(texts_of(out@) =~~= t0.push(lx));
                    lemma_push_is_add(t0, lx);
                    assert(ids.take(k + 1).drop_last() =~= ids.take(k as int));
                    assert(ids.take(k + 1).last() == ids[k as int]);
                    assert(member_chunks(ids.take(k + 1), cv) == member_chunks(
                        ids.take(k as int),
                        cv,
                    ) + seq![lx]);
                    lemma_add_assoc(gbase, member_chunks(ids.take(k as int), cv), seq![lx]);
                    assert(texts_of(out@) == gbase + member_chunks(ids.take(k + 1), cv));
                }
                k = k + 1;
            }
            proof {
                let ids = gs[gi as int].member_ids;
                assert(ids.take(ids.len() as int) =~= ids);
            }
            let ghost t2 = texts_of(out@);
            out.push(String::new());
            proof {
                let ids = gs[gi as int].member_ids;
                assert(texts_of(out@) =~~= t2.push(blank()));
                lemma_push_is_add(t2, blank());
                lemma_push_is_add(g0, hdrp);
                assert(group_chunks(gs[gi as int], cv) == seq![hdrp] + member_chunks(ids, cv)
                    + seq![blank()]);
                lemma_add_assoc(g0, seq![hdrp], member_chunks(ids, cv));
                lemma_add_assoc(g0, seq![hdrp] + member_chunks(ids, cv), seq![blank()]);
                assert(texts_of(out@) == g0 + group_chunks(gs[gi as int], cv));
                assert(gs.take(gi + 1).drop_last() =~= gs.take(gi as int));
                assert(gs.take(gi + 1).last() == gs[gi as int]);
                assert(groups_chunks(gs.take(gi + 1), cv) == groups_chunks(gs.take(gi as int), cv)
                    + group_chunks(gs[gi as int], cv));
                lemma_add_assoc(
                    base + seq!["## Contacts"@],
                    groups_chunks(gs.take(gi as int), cv),
                    group_chunks(gs[gi as int], cv),
                );
                assert(texts_of(out@) == base + seq!["## Contacts"@] + groups_chunks(
                    gs.take(gi + 1),
                    cv,
                ));
            }
            gi = gi + 1;
        }
        proof {
            assert(gs.take(gs.len() as int) =~= gs);
            lemma_add_assoc(base, seq!["## Contacts"@], groups_chunks(gs, cv));
            assert(texts_of(out@) == base + contacts_section(gs, cv));
        }
        Ok(())
    }
}

} // verus!

