use specdoc::business_requirement::BusinessRequirement;
use specdoc::business_requirement_id::BusinessRequirementId;
use specdoc::contact::Contact;
use specdoc::date::RecordDate;
use specdoc::known_gap::KnownGap;
use specdoc::persona::Persona;
use specdoc::repository::Spec;
use specdoc::spec_meta::{ContactGroup, SpecMeta};
use specdoc::technical_requirement::TechnicalRequirement;
use specdoc::term::Term;

fn id(s: &str) -> BusinessRequirementId {
    BusinessRequirementId::new(s).unwrap()
}

fn full_spec() -> Spec {
    let meta = SpecMeta {
        version: 2,
        date: RecordDate {
            year: 2024,
            month: 5,
            day: 7,
        },
        owner_id: 1,
        description: String::from("All the things."),
        contacts: vec![ContactGroup {
            name: String::from("team"),
            member_ids: vec![1, 2],
        }],
    };
    let contacts = vec![
        Contact {
            id: 1,
            name: String::from("Alice"),
            email: Some(String::from("alice@example.com")),
        },
        Contact {
            id: 2,
            name: String::from("Bo"),
            email: None,
        },
    ];
    let personas = vec![
        Persona {
            id: 1,
            name: String::from("Zed"),
            description: String::from("z"),
        },
        Persona {
            id: 2,
            name: String::from("Ann"),
            description: String::from("a"),
        },
    ];
    let gaps = vec![
        KnownGap {
            requirement_id: String::from("2.1"),
            description: String::from("two"),
        },
        KnownGap {
            requirement_id: String::from("10.1"),
            description: String::from("ten"),
        },
    ];
    let brs = vec![
        BusinessRequirement {
            id: id("2"),
            name: String::from("second"),
            date: None,
            note: None,
            owner_id: None,
            persona_id: None,
        },
        BusinessRequirement {
            id: id("1.1"),
            name: String::from("child"),
            date: Some(RecordDate {
                year: 2023,
                month: 1,
                day: 2,
            }),
            note: Some(String::from("a note")),
            owner_id: Some(2),
            persona_id: Some(2),
        },
    ];
    let trs = vec![
        TechnicalRequirement {
            requirement_id: id("1.1"),
            author_id: Some(1),
            description: String::from("impl"),
            code_url: Some(String::from("http://c")),
            test_url: Some(String::from("http://t")),
        },
        // points at no business requirement: never rendered, and its author
        // id is never looked up
        TechnicalRequirement {
            requirement_id: id("9"),
            author_id: Some(99),
            description: String::from("dangling"),
            code_url: None,
            test_url: None,
        },
    ];
    let terms = vec![
        Term {
            name: String::from("Beta"),
            definition: String::from("b"),
        },
        Term {
            name: String::from("Alpha"),
            definition: String::from("a"),
        },
    ];
    Spec::new(
        terms,
        contacts,
        trs,
        gaps,
        personas,
        brs,
        meta,
        String::from("Always on."),
    )
}

#[test]
fn render_whole_document() {
    let spec = full_spec();
    let lines = spec.render().unwrap();
    let expected: Vec<&str> = vec![
        "# Specification",
        "Version: 2",
        "",
        "Date: 2024-5-7",
        "",
        "Owner: [Alice](mailto:alice@example.com)",
        "",
        "",
        "## Description",
        "All the things.",
        "",
        "## Known Gaps",
        "### 10.1",
        "ten",
        "",
        "### 2.1",
        "two",
        "",
        "## Personas",
        "### Ann",
        "a",
        "",
        "### Zed",
        "z",
        "",
        "",
        "## Requirements",
        "##### 1.1. child",
        "Date: 2023-1-2",
        "",
        "Owner: Bo",
        "",
        "Persona: Ann",
        "",
        "a note",
        "",
        "###### Technical Requirements",
        "impl",
        "",
        "Author: [Alice](mailto:alice@example.com)",
        "",
        "[Code](http://c)",
        "",
        "[Tests](http://t)",
        "",
        "",
        "#### 2. second",
        "",
        "## SLA",
        "Always on.",
        "",
        "## Glossary",
        "### Alpha",
        "a",
        "",
        "### Beta",
        "b",
        "",
        "## Contacts",
        "### team",
        "- [Alice](mailto:alice@example.com)",
        "- Bo",
        "",
    ];
    assert_eq!(lines.len(), expected.len());
    for (i, want) in expected.iter().enumerate() {
        assert_eq!(&lines[i], want, "line {}", i);
    }
}

#[test]
fn known_gaps_sort_as_strings_not_ids() {
    // "10.1" sorts before "2.1" as a string, though the hierarchical order
    // would put 2.1 first
    let spec = full_spec();
    let lines = spec.render().unwrap();
    let ten = lines.iter().position(|l| l == "### 10.1").unwrap();
    let two = lines.iter().position(|l| l == "### 2.1").unwrap();
    assert!(ten < two);
}

#[test]
fn dangling_author_reference_is_not_an_error() {
    // the technical requirement attached to no business requirement carries
    // an unknown author id, and rendering still succeeds
    let spec = full_spec();
    assert!(spec.render().is_ok());
}
