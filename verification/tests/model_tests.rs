use requirements_core::model::{Cardinality, RelationshipDefinition, RelationshipType, RequirementType};
use requirements_core::requirement::Requirement;
use requirements_core::store::{RequirementsStore, StoreError};

#[test]
fn inverse_of_inverse_is_the_kind_itself() {
    for t in [RelationshipType::Parent, RelationshipType::Child, RelationshipType::Verifies, RelationshipType::VerifiedBy, RelationshipType::Duplicate] {
        assert_eq!(t.inverse().unwrap().inverse(), Some(t));
    }
}

#[test]
fn from_str_accepts_other_spellings() {
    assert_eq!(RelationshipType::from_str("Verified_By"), RelationshipType::VerifiedBy);
    assert_eq!(RelationshipType::from_str("VERIFIEDBY"), RelationshipType::VerifiedBy);
    assert_eq!(RelationshipType::from_str("Parent"), RelationshipType::Parent);
    assert_eq!(RelationshipType::VerifiedBy.name(), "verified_by");
    assert_eq!(RelationshipType::Custom("x".to_string()).name(), "x");
}

#[test]
fn cardinality_from_str() {
    assert_eq!(Cardinality::from_str("1:1"), Cardinality::OneToOne);
    assert_eq!(Cardinality::from_str("One_To_Many"), Cardinality::OneToMany);
    assert_eq!(Cardinality::from_str("1 : N"), Cardinality::OneToMany);
    assert_eq!(Cardinality::from_str("whatever"), Cardinality::ManyToMany);
}

#[test]
fn prefix_validation_trims_and_uppercases() {
    assert_eq!(Requirement::validate_prefix("  sec "), Some("SEC".to_string()));
    assert_eq!(Requirement::validate_prefix("se1"), None);
    assert_eq!(Requirement::validate_prefix("   "), None);
    let mut r = Requirement::new("T".to_string(), String::new());
    assert!(r.set_prefix_override("perf").is_ok());
    assert_eq!(r.prefix_override.as_deref(), Some("PERF"));
    assert!(r.set_prefix_override("x-1").is_err());
    assert!(r.set_prefix_override("").is_ok());
    assert_eq!(r.prefix_override, None);
}

#[test]
fn new_requirements_get_fresh_ids_and_times() {
    let a = Requirement::new("A".to_string(), String::new());
    let b = Requirement::new("B".to_string(), String::new());
    assert_ne!(a.id, b.id);
    assert!(a.created_at.secs > 1_600_000_000);
    assert_eq!(a.feature, "Uncategorized");
}

#[test]
fn error_messages_name_the_identifier() {
    assert_eq!(
        StoreError::SourceNotFound(0).message(),
        "Source requirement not found: 00000000-0000-0000-0000-000000000000"
    );
    assert_eq!(
        StoreError::RelationshipExists(RelationshipType::VerifiedBy, 0x1234).message(),
        "Relationship 'verified-by' to 00000000-0000-0000-0000-000000001234 already exists"
    );
    assert_eq!(StoreError::DuplicateSpecId("FR-001".to_string()).message(), "Duplicate SPEC-ID found: FR-001");
}

#[test]
fn missing_requirements_are_refused() {
    let mut store = RequirementsStore::new();
    let r = Requirement::new("A".to_string(), String::new());
    let id = r.id;
    store.add_requirement(r);
    let e = store.add_relationship(&id, RelationshipType::Parent, &(id ^ 7), false);
    assert!(matches!(e, Err(StoreError::TargetNotFound(x)) if x == id ^ 7));
    let e2 = store.add_relationship(&(id ^ 7), RelationshipType::Parent, &id, false);
    assert!(matches!(e2, Err(StoreError::SourceNotFound(_))));
    let e3 = store.remove_relationship(&id, &RelationshipType::Parent, &id, false);
    assert!(matches!(e3, Err(StoreError::RelationshipNotFound(_, _))));
}

#[test]
fn validation_lists_allowed_types() {
    let mut store = RequirementsStore::new();
    let a = Requirement::new("A".to_string(), String::new());
    let mut b = Requirement::new("B".to_string(), String::new());
    b.req_type = RequirementType::System;
    let (ia, ib) = (a.id, b.id);
    store.add_requirement(a);
    store.add_requirement(b);
    let def = RelationshipDefinition::new("audits", "Audits").with_source_types(vec!["System".to_string()]);
    assert!(store.add_relationship_definition(def).is_ok());
    let v = store.validate_relationship(&ia, &RelationshipType::Custom("audits".to_string()), &ib);
    assert!(!v.valid);
    assert_eq!(
        v.errors,
        vec!["Source requirement type 'Functional' is not allowed for 'Audits' relationships. Allowed: [\"System\"]".to_string()]
    );
    let ok = store.validate_relationship(&ib, &RelationshipType::Custom("audits".to_string()), &ia);
    assert!(ok.valid);
}

#[test]
fn validation_finds_cycles_and_unknown_kinds() {
    let mut store = RequirementsStore::new();
    let a = Requirement::new("A".to_string(), String::new());
    let b = Requirement::new("B".to_string(), String::new());
    let (ia, ib) = (a.id, b.id);
    store.add_requirement(a);
    store.add_requirement(b);
    store.add_relationship(&ia, RelationshipType::Parent, &ib, false).unwrap();
    assert!(store.would_create_cycle(&ib, &ia, &RelationshipType::Parent));
    let v = store.validate_relationship(&ib, &RelationshipType::Parent, &ia);
    assert!(v.errors.contains(&"This relationship would create a cycle in the hierarchy".to_string()));
    let self_rel = store.validate_relationship(&ia, &RelationshipType::Parent, &ia);
    assert_eq!(self_rel.errors, vec!["Cannot create relationship to self".to_string()]);
    let unknown = store.validate_relationship(&ia, &RelationshipType::Custom("blocks".to_string()), &ib);
    assert!(unknown.valid);
    assert_eq!(
        unknown.warnings,
        vec!["No definition found for relationship type 'blocks'. Consider creating one.".to_string()]
    );
}

#[test]
fn relationship_definitions_management() {
    let mut store = RequirementsStore::new();
    let n = store.relationship_definitions.len();
    assert!(matches!(
        store.add_relationship_definition(RelationshipDefinition::new("Parent", "P")),
        Err(StoreError::DefinitionExists(_))
    ));
    assert!(store.add_relationship_definition(RelationshipDefinition::new("Blocks", "Blocks")).is_ok());
    assert_eq!(store.relationship_definitions[n].name, "blocks");
    assert!(store.update_relationship_definition("BLOCKS", RelationshipDefinition::new("x", "Blocks!")).is_ok());
    assert_eq!(store.relationship_definitions[n].name, "blocks");
    assert_eq!(store.relationship_definitions[n].display_name, "Blocks!");
    assert!(matches!(store.remove_relationship_definition("parent"), Err(StoreError::BuiltInDefinition(_))));
    assert!(store.remove_relationship_definition("blocks").is_ok());
    assert_eq!(store.relationship_definitions.len(), n);
    assert!(matches!(store.remove_relationship_definition("blocks"), Err(StoreError::DefinitionNotFound(_))));
    store.relationship_definitions.truncate(3);
    store.ensure_builtin_relationships();
    assert_eq!(store.relationship_definitions.len(), n);
}
