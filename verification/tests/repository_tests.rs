use specdoc::business_requirement::BusinessRequirement;
use specdoc::business_requirement_id::BusinessRequirementId;
use specdoc::contact::Contact;
use specdoc::date::RecordDate;
use specdoc::known_gap::KnownGap;
use specdoc::persona::Persona;
use specdoc::repository::Spec;
use specdoc::spec_meta::{ContactGroup, SpecMeta};
use specdoc::technical_requirement::TechnicalRequirement;
use specdoc::term::Term;
use specdoc::SpecError;

fn id(s: &str) -> BusinessRequirementId {
    BusinessRequirementId::new(s).unwrap()
}

fn br(s: &str) -> BusinessRequirement {
    BusinessRequirement {
        id: id(s),
        name: format!("req {}", s),
        date: None,
        note: None,
        owner_id: None,
        persona_id: None,
    }
}

fn tr(s: &str) -> TechnicalRequirement {
    TechnicalRequirement {
        requirement_id: id(s),
        author_id: None,
        description: format!("note for {}", s),
        code_url: None,
        test_url: None,
    }
}

fn meta() -> SpecMeta {
    SpecMeta {
        version: 1,
        date: RecordDate {
            year: 2024,
            month: 5,
            day: 7,
        },
        owner_id: 1,
        description: String::from("a specification"),
        contacts: Vec::new(),
    }
}

fn owner() -> Contact {
    Contact {
        id: 1,
        name: String::from("Alice"),
        email: None,
    }
}

fn spec_with(
    contacts: Vec<Contact>,
    technical_requirements: Vec<TechnicalRequirement>,
    business_requirements: Vec<BusinessRequirement>,
) -> Spec {
    Spec::new(
        Vec::new(),
        contacts,
        technical_requirements,
        Vec::new(),
        Vec::new(),
        business_requirements,
        meta(),
        String::from("best effort"),
    )
}

#[test]
fn find_contact_by_id() {
    let spec = Spec::new(
        Vec::new(),
        vec![
            Contact {
                id: 3,
                name: String::from("Bo"),
                email: Some(String::from("bo@example.com")),
            },
            owner(),
        ],
        Vec::new(),
        Vec::new(),
        Vec::new(),
        Vec::new(),
        meta(),
        String::new(),
    );
    assert_eq!(spec.find_contact(3).unwrap().name, "Bo");
    assert_eq!(spec.find_contact(1).unwrap().name, "Alice");
    assert!(matches!(spec.find_contact(9), Err(SpecError::NotFound(9))));
}

#[test]
fn find_persona_by_id() {
    let spec = Spec::new(
        Vec::new(),
        Vec::new(),
        Vec::new(),
        Vec::new(),
        vec![Persona {
            id: 2,
            name: String::from("Admin"),
            description: String::from("keeps things running"),
        }],
        Vec::new(),
        meta(),
        String::new(),
    );
    assert_eq!(spec.find_persona(2).unwrap().name, "Admin");
    assert!(matches!(spec.find_persona(1), Err(SpecError::NotFound(1))));
}

#[test]
fn technical_requirements_for_id_in_load_order() {
    let spec = spec_with(
        Vec::new(),
        vec![tr("1"), tr("2"), tr("1")],
        vec![br("1"), br("2")],
    );
    let found = spec.find_technical_requirements_for(&id("1"));
    assert_eq!(found.len(), 2);
    assert_eq!(found[0].description, "note for 1");
    let none = spec.find_technical_requirements_for(&id("3"));
    assert!(none.is_empty());
}

#[test]
fn coverage_counts_distinct_covered_requirements() {
    // four business requirements; technical requirements reference three
    // distinct ids, one of them twice, and one points at an id that does not
    // exist, which is simply uncounted
    let spec = spec_with(
        Vec::new(),
        vec![tr("1"), tr("1"), tr("2"), tr("3"), tr("9")],
        vec![br("1"), br("2"), br("3"), br("4")],
    );
    let stats = spec.coverage_stats();
    assert_eq!(stats.business_count, 4);
    assert_eq!(stats.technical_count, 5);
    assert_eq!(stats.covered_count, 3);
    let percentage = stats.covered_count as f32 / stats.business_count as f32 * 100.0;
    assert_eq!(percentage, 75.0);
    assert_eq!(stats.coverage_percent_hundredths(), Some(7500));
}

#[test]
fn coverage_hundredths_truncate() {
    // one of three requirements covered: 33.33% after truncation
    let spec = spec_with(Vec::new(), vec![tr("1")], vec![br("1"), br("2"), br("3")]);
    let stats = spec.coverage_stats();
    assert_eq!(stats.coverage_percent_hundredths(), Some(3333));
}

#[test]
fn coverage_with_no_business_requirements_is_undefined() {
    let spec = spec_with(Vec::new(), vec![tr("1")], Vec::new());
    let stats = spec.coverage_stats();
    assert_eq!(stats.business_count, 0);
    assert_eq!(stats.coverage_percent_hundredths(), None);
}

#[test]
fn empty_technical_requirement_collection_is_fine() {
    let spec = spec_with(vec![owner()], Vec::new(), vec![br("1")]);
    let stats = spec.coverage_stats();
    assert_eq!(stats.business_count, 1);
    assert_eq!(stats.technical_count, 0);
    assert_eq!(stats.covered_count, 0);
    assert!(spec.render().is_ok());
}

#[test]
fn unresolved_owner_fails_render_with_not_found() {
    let mut b = br("1");
    b.owner_id = Some(5);
    let spec = spec_with(vec![owner()], Vec::new(), vec![b]);
    match spec.render() {
        Err(SpecError::NotFound(missing)) => assert_eq!(missing, 5),
        other => panic!("expected a missing contact, got ok={}", other.is_ok()),
    }
}

#[test]
fn unresolved_meta_owner_fails_render() {
    let spec = spec_with(Vec::new(), Vec::new(), Vec::new());
    assert!(matches!(spec.render(), Err(SpecError::NotFound(1))));
}

#[test]
fn contact_listing_sorted_and_aligned() {
    let spec = Spec::new(
        Vec::new(),
        vec![
            Contact {
                id: 2,
                name: String::from("Bo"),
                email: None,
            },
            Contact {
                id: 1,
                name: String::from("Alice"),
                email: Some(String::from("alice@example.com")),
            },
        ],
        Vec::new(),
        Vec::new(),
        Vec::new(),
        Vec::new(),
        meta(),
        String::new(),
    );
    let rows = spec.list_contacts();
    assert_eq!(rows.len(), 2);
    assert_eq!(rows[0], "1   Alice  alice@example.com");
    assert_eq!(rows[1], "2   Bo     ");
}

#[test]
fn terms_and_gaps_exist_as_records() {
    let gap = KnownGap {
        requirement_id: String::from("2.1"),
        description: String::from("unresolved"),
    };
    let term = Term {
        name: String::from("SLA"),
        definition: String::from("service level agreement"),
    };
    let spec = Spec::new(
        vec![term],
        vec![owner()],
        Vec::new(),
        vec![gap],
        Vec::new(),
        Vec::new(),
        meta(),
        String::from("text"),
    );
    assert_eq!(spec.terms[0].name, "SLA");
    assert_eq!(spec.known_gaps[0].requirement_id, "2.1");
}

#[test]
fn contact_groups_resolve_members() {
    let mut m = meta();
    m.contacts = vec![ContactGroup {
        name: String::from("owners"),
        member_ids: vec![1, 9],
    }];
    let spec = Spec::new(
        Vec::new(),
        vec![owner()],
        Vec::new(),
        Vec::new(),
        Vec::new(),
        Vec::new(),
        m,
        String::new(),
    );
    assert!(matches!(spec.render(), Err(SpecError::NotFound(9))));
}
