use requirements_core::model::{
    Cardinality, IdConfiguration, RelationshipDefinition, RelationshipType, RequirementTypeDefinition,
};
use requirements_core::navigation::next_selection;
use requirements_core::requirement::Requirement;
use requirements_core::settings::{lookup_icon_lowered, window_title, StatusIconConfig};
use requirements_core::text::trim_str;
use requirements_core::store::RequirementsStore;
use requirements_core::model::first_text_index;

#[test]
fn new_store_has_the_built_in_definitions() {
    let s = RequirementsStore::new();
    let names: Vec<&str> = s.relationship_definitions.iter().map(|d| d.name.as_str()).collect();
    assert_eq!(names[0], "parent");
    assert_eq!(s.relationship_definitions[0].cardinality, Cardinality::ManyToOne);
    assert_eq!(s.relationship_definitions.len(), RelationshipDefinition::defaults().len());
    let labels: Vec<&str> = s.reaction_definitions.iter().map(|d| d.label.as_str()).collect();
    assert_eq!(labels, vec!["Resolved", "Rejected", "Thumbs Up", "Thumbs Down", "Question", "Important"]);
    assert!(s.reaction_definitions.iter().all(|d| d.built_in && d.description.is_some()));
    assert_eq!(s.type_definitions[3].display_name, "User Story");
    assert_eq!(s.type_definitions[4].custom_fields[0].options.len(), 4);
    assert_eq!(s.id_config.requirement_types[2].prefix, "SR");
}

#[test]
fn cycles_are_errors_and_cardinality_clashes_warnings() {
    let mut s = RequirementsStore::new();
    let (a, b, c) = (
        Requirement::new("A".into(), "".into()),
        Requirement::new("B".into(), "".into()),
        Requirement::new("C".into(), "".into()),
    );
    let (ia, ib, ic) = (a.id, b.id, c.id);
    s.add_requirement(a);
    s.add_requirement(b);
    s.add_requirement(c);
    s.add_relationship(&ia, RelationshipType::Parent, &ib, false).unwrap();
    let w = s.validate_relationship(&ia, &RelationshipType::Parent, &ic);
    assert!(w.valid && w.errors.is_empty() && w.warnings.len() == 1);
    assert!(w.warnings[0].contains("cardinality is N:1"));
    s.add_relationship(&ib, RelationshipType::Parent, &ic, false).unwrap();
    let r = s.validate_relationship(&ic, &RelationshipType::Parent, &ia);
    assert!(!r.valid);
    assert_eq!(r.errors, vec!["This relationship would create a cycle in the hierarchy".to_string()]);
    assert!(r.warnings.is_empty());
}

#[test]
fn kinds_and_cardinalities_read_back() {
    for t in [
        RelationshipType::Parent,
        RelationshipType::Child,
        RelationshipType::Duplicate,
        RelationshipType::Verifies,
        RelationshipType::VerifiedBy,
        RelationshipType::References,
    ] {
        assert_eq!(RelationshipType::from_str(&t.name()), t);
        assert_eq!(RelationshipType::from_str(&t.display_text()), t);
        assert_eq!(RelationshipType::from_str(&t.name().to_uppercase()), t);
    }
    assert_eq!(RelationshipType::from_lowercased("verifiedby", "VerifiedBy"), RelationshipType::VerifiedBy);
    assert_eq!(
        RelationshipType::from_lowercased("implements", "Implements"),
        RelationshipType::Custom("Implements".to_string())
    );
    for c in [Cardinality::OneToOne, Cardinality::OneToMany, Cardinality::ManyToOne, Cardinality::ManyToMany] {
        assert_eq!(Cardinality::from_str(&c.display_text()), c);
    }
    assert_eq!(Cardinality::from_str("One To Many"), Cardinality::OneToMany);
    assert_eq!(Cardinality::from_lowercased("many to one"), Cardinality::ManyToOne);
    assert_eq!(Cardinality::from_lowercased("sometimes"), Cardinality::ManyToMany);
}

#[test]
fn lookups_by_normalised_text() {
    let cfg = IdConfiguration::default_config();
    assert!(cfg.is_upper_prefix_reserved("NFR"));
    assert!(!cfg.is_upper_prefix_reserved("nfr"));
    assert!(cfg.is_prefix_reserved("nfr"));
    assert_eq!(first_text_index(&vec!["a".to_string(), "b".to_string(), "b".to_string()], "b"), Some(1));
    assert_eq!(first_text_index(&vec![], "b"), None);
    let t: Option<&RequirementTypeDefinition> = cfg.get_type_by_name("non-functional");
    assert_eq!(t.map(|t| t.prefix.clone()), Some("NFR".to_string()));
    let icons = StatusIconConfig::default();
    assert_eq!(lookup_icon_lowered(&icons.icons, &icons.default_icon, "in progress"), "[~]");
    assert_eq!(lookup_icon_lowered(&icons.icons, &icons.default_icon, "Draft"), "[*]");
    assert_eq!(lookup_icon_lowered(&icons.icons, &icons.default_icon, "draft"), "[ ]");
}

#[test]
fn navigation_moves_within_the_list() {
    let f = vec![4, 2, 7, 9];
    assert_eq!(next_selection(&vec![], Some(1), 1, false, false), None);
    assert_eq!(next_selection(&f, Some(2), 0, false, false), None);
    assert_eq!(next_selection(&f, Some(2), 1, false, false), Some(7));
    assert_eq!(next_selection(&f, Some(2), -1, false, false), Some(4));
    assert_eq!(next_selection(&f, Some(2), 10, false, false), Some(9));
    assert_eq!(next_selection(&f, Some(2), -10, false, false), Some(4));
    assert_eq!(next_selection(&f, Some(5), 1, false, false), Some(4));
    assert_eq!(next_selection(&f, None, -1, false, false), Some(9));
    assert_eq!(next_selection(&f, Some(7), 0, true, false), Some(4));
    assert_eq!(next_selection(&f, Some(7), 0, false, true), Some(9));
}

#[test]
fn identifiers_are_version_four_and_printed_hyphenated() {
    let r = Requirement::new("A".into(), "".into());
    assert_eq!((r.id >> 76) & 0xf, 4);
    assert_eq!((r.id >> 62) & 0x3, 2);
}

#[test]
fn duplicate_relationship_names_the_target_hyphenated() {
    let mut s = RequirementsStore::new();
    let a = Requirement::new("A".into(), "".into());
    let b = Requirement::new("B".into(), "".into());
    let (ia, ib) = (a.id, b.id);
    s.add_requirement(a);
    s.add_requirement(b);
    s.add_relationship(&ia, RelationshipType::References, &ib, false).unwrap();
    let r = s.validate_relationship(&ia, &RelationshipType::References, &ib);
    let text = uuid::Uuid::from_u128(ib).to_string();
    assert_eq!(text.len(), 36);
    assert_eq!(r.errors, vec![format!("Relationship 'references' to {} already exists", text)]);
}

#[test]
fn default_id_configuration_reserves_the_type_prefixes() {
    let c = IdConfiguration::default();
    assert!(c.is_prefix_reserved("fr") && c.is_prefix_reserved("Nfr") && c.is_prefix_reserved("CR"));
    assert!(!c.is_prefix_reserved("SYS") && !c.is_prefix_reserved("US") && !c.is_prefix_reserved("AUTH"));
    assert_eq!(c.get_type_by_name("non-functional").map(|t| t.prefix.as_str()), Some("NFR"));
    assert_eq!(c.get_type_by_name("CHANGE REQUEST").map(|t| t.prefix.as_str()), Some("CR"));
    assert!(c.get_type_by_name("NonFunctional").is_none());
}

#[test]
fn window_titles_and_trimming() {
    assert_eq!(window_title("", ""), "Requirements Manager");
    assert_eq!(window_title("", "Spec"), "Spec");
    assert_eq!(window_title("aida", ""), "aida");
    assert_eq!(window_title("aida", "Spec"), "aida - Spec");
    assert_eq!(trim_str(" \t a b \u{3000}\n"), "a b");
    assert_eq!(trim_str("   "), "");
    assert_eq!(trim_str("x"), "x");
}
