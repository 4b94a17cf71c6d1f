use requirements_core::model::RelationshipType;
use requirements_core::requirement::Requirement;
use requirements_core::store::RequirementsStore;

#[test]
fn test_add_requirement_with_spec_id() {
    let mut store = RequirementsStore::new();
    let req = Requirement::new("Test".into(), "Description".into());

    assert_eq!(store.next_spec_number, 1);
    assert!(req.spec_id.is_none());

    store.add_requirement_with_spec_id(req);

    assert_eq!(store.requirements.len(), 1);
    assert_eq!(store.requirements[0].spec_id, Some("SPEC-001".into()));
    assert_eq!(store.next_spec_number, 2);
}

#[test]
fn test_get_requirement_by_spec_id() {
    let mut store = RequirementsStore::new();
    let req = Requirement::new("Test".into(), "Description".into());
    store.add_requirement_with_spec_id(req);

    let found = store.get_requirement_by_spec_id("SPEC-001");
    assert!(found.is_some());
    assert_eq!(found.unwrap().title, "Test");

    let not_found = store.get_requirement_by_spec_id("SPEC-999");
    assert!(not_found.is_none());
}

#[test]
fn test_assign_spec_ids() {
    let mut store = RequirementsStore::new();

    let mut req1 = Requirement::new("R1".into(), "D1".into());
    let mut req2 = Requirement::new("R2".into(), "D2".into());

    // Manually add without SPEC-IDs
    store.requirements.push(req1);
    store.requirements.push(req2);

    assert!(store.requirements[0].spec_id.is_none());
    assert!(store.requirements[1].spec_id.is_none());

    store.assign_spec_ids();

    assert_eq!(store.requirements[0].spec_id, Some("SPEC-001".into()));
    assert_eq!(store.requirements[1].spec_id, Some("SPEC-002".into()));
    assert_eq!(store.next_spec_number, 3);
}

#[test]
fn test_assign_spec_ids_skips_existing() {
    let mut store = RequirementsStore::new();

    let mut req1 = Requirement::new("R1".into(), "D1".into());
    req1.spec_id = Some("SPEC-001".into());
    let mut req2 = Requirement::new("R2".into(), "D2".into());

    store.requirements.push(req1);
    store.requirements.push(req2);
    store.next_spec_number = 2; // Start at 2 since SPEC-001 exists

    store.assign_spec_ids();

    assert_eq!(store.requirements[0].spec_id, Some("SPEC-001".into()));
    assert_eq!(store.requirements[1].spec_id, Some("SPEC-002".into()));
    assert_eq!(store.next_spec_number, 3);
}

#[test]
fn test_validate_unique_spec_ids_success() {
    let mut store = RequirementsStore::new();
    let req1 = Requirement::new("R1".into(), "D1".into());
    let req2 = Requirement::new("R2".into(), "D2".into());

    store.add_requirement_with_spec_id(req1);
    store.add_requirement_with_spec_id(req2);

    assert!(store.validate_unique_spec_ids().is_ok());
}

#[test]
fn test_validate_unique_spec_ids_duplicate() {
    let mut store = RequirementsStore::new();

    let mut req1 = Requirement::new("R1".into(), "D1".into());
    req1.spec_id = Some("SPEC-001".into());
    let mut req2 = Requirement::new("R2".into(), "D2".into());
    req2.spec_id = Some("SPEC-001".into()); // Duplicate!

    store.requirements.push(req1);
    store.requirements.push(req2);

    let result = store.validate_unique_spec_ids();
    assert!(result.is_err());
    assert!(result
        .unwrap_err()
        .message()
        .contains("Duplicate SPEC-ID"));
}

#[test]
fn test_peek_next_spec_id() {
    let store = RequirementsStore::new();
    assert_eq!(store.peek_next_spec_id(), "SPEC-001");

    let mut store2 = RequirementsStore::new();
    store2.next_spec_number = 42;
    assert_eq!(store2.peek_next_spec_id(), "SPEC-042");
}

#[test]
fn test_add_relationship() {
    let mut store = RequirementsStore::new();
    let req1 = Requirement::new("Req1".into(), "Description 1".into());
    let req2 = Requirement::new("Req2".into(), "Description 2".into());

    let id1 = req1.id;
    let id2 = req2.id;

    store.add_requirement_with_spec_id(req1);
    store.add_requirement_with_spec_id(req2);

    // Add parent relationship
    let result = store.add_relationship(&id1, RelationshipType::Parent, &id2, false);
    assert!(result.is_ok());

    // Verify relationship was added
    let req1_updated = store.get_requirement_by_id(&id1).unwrap();
    assert_eq!(req1_updated.relationships.len(), 1);
    assert_eq!(
        req1_updated.relationships[0].rel_type,
        RelationshipType::Parent
    );
    assert_eq!(req1_updated.relationships[0].target_id, id2);
}

#[test]
fn test_add_relationship_bidirectional() {
    let mut store = RequirementsStore::new();
    let req1 = Requirement::new("Req1".into(), "Description 1".into());
    let req2 = Requirement::new("Req2".into(), "Description 2".into());

    let id1 = req1.id;
    let id2 = req2.id;

    store.add_requirement_with_spec_id(req1);
    store.add_requirement_with_spec_id(req2);

    // Add bidirectional parent-child relationship
    let result = store.add_relationship(&id1, RelationshipType::Parent, &id2, true);
    assert!(result.is_ok());

    // Verify forward relationship
    let req1_updated = store.get_requirement_by_id(&id1).unwrap();
    assert_eq!(req1_updated.relationships.len(), 1);
    assert_eq!(
        req1_updated.relationships[0].rel_type,
        RelationshipType::Parent
    );

    // Verify inverse relationship
    let req2_updated = store.get_requirement_by_id(&id2).unwrap();
    assert_eq!(req2_updated.relationships.len(), 1);
    assert_eq!(
        req2_updated.relationships[0].rel_type,
        RelationshipType::Child
    );
    assert_eq!(req2_updated.relationships[0].target_id, id1);
}

#[test]
fn test_add_relationship_self_error() {
    let mut store = RequirementsStore::new();
    let req = Requirement::new("Req".into(), "Description".into());
    let id = req.id;

    store.add_requirement_with_spec_id(req);

    // Try to add self-relationship
    let result = store.add_relationship(&id, RelationshipType::Parent, &id, false);
    assert!(result.is_err());
    assert!(result
        .unwrap_err()
        .message()
        .contains("Cannot create relationship to self"));
}

#[test]
fn test_add_relationship_duplicate_error() {
    let mut store = RequirementsStore::new();
    let req1 = Requirement::new("Req1".into(), "Description 1".into());
    let req2 = Requirement::new("Req2".into(), "Description 2".into());

    let id1 = req1.id;
    let id2 = req2.id;

    store.add_requirement_with_spec_id(req1);
    store.add_requirement_with_spec_id(req2);

    // Add relationship
    store
        .add_relationship(&id1, RelationshipType::Parent, &id2, false)
        .unwrap();

    // Try to add duplicate
    let result = store.add_relationship(&id1, RelationshipType::Parent, &id2, false);
    assert!(result.is_err());
    assert!(result.unwrap_err().message().contains("already exists"));
}

#[test]
fn test_remove_relationship() {
    let mut store = RequirementsStore::new();
    let req1 = Requirement::new("Req1".into(), "Description 1".into());
    let req2 = Requirement::new("Req2".into(), "Description 2".into());

    let id1 = req1.id;
    let id2 = req2.id;

    store.add_requirement_with_spec_id(req1);
    store.add_requirement_with_spec_id(req2);
    store
        .add_relationship(&id1, RelationshipType::Parent, &id2, false)
        .unwrap();

    // Remove relationship
    let result = store.remove_relationship(&id1, &RelationshipType::Parent, &id2, false);
    assert!(result.is_ok());

    // Verify it was removed
    let req1_updated = store.get_requirement_by_id(&id1).unwrap();
    assert_eq!(req1_updated.relationships.len(), 0);
}

#[test]
fn test_remove_relationship_bidirectional() {
    let mut store = RequirementsStore::new();
    let req1 = Requirement::new("Req1".into(), "Description 1".into());
    let req2 = Requirement::new("Req2".into(), "Description 2".into());

    let id1 = req1.id;
    let id2 = req2.id;

    store.add_requirement_with_spec_id(req1);
    store.add_requirement_with_spec_id(req2);
    store
        .add_relationship(&id1, RelationshipType::Parent, &id2, true)
        .unwrap();

    // Remove bidirectional relationship
    let result = store.remove_relationship(&id1, &RelationshipType::Parent, &id2, true);
    assert!(result.is_ok());

    // Verify both sides were removed
    let req1_updated = store.get_requirement_by_id(&id1).unwrap();
    assert_eq!(req1_updated.relationships.len(), 0);

    let req2_updated = store.get_requirement_by_id(&id2).unwrap();
    assert_eq!(req2_updated.relationships.len(), 0);
}

#[test]
fn test_relationship_type_from_str() {
    assert_eq!(
        RelationshipType::from_str("parent"),
        RelationshipType::Parent
    );
    assert_eq!(RelationshipType::from_str("child"), RelationshipType::Child);
    assert_eq!(
        RelationshipType::from_str("duplicate"),
        RelationshipType::Duplicate
    );
    assert_eq!(
        RelationshipType::from_str("verifies"),
        RelationshipType::Verifies
    );
    assert_eq!(
        RelationshipType::from_str("verified-by"),
        RelationshipType::VerifiedBy
    );
    assert_eq!(
        RelationshipType::from_str("references"),
        RelationshipType::References
    );

    // Test custom type
    if let RelationshipType::Custom(name) = RelationshipType::from_str("implements") {
        assert_eq!(name, "implements");
    } else {
        panic!("Expected Custom variant");
    }
}

#[test]
fn test_relationship_type_inverse() {
    assert_eq!(
        RelationshipType::Parent.inverse(),
        Some(RelationshipType::Child)
    );
    assert_eq!(
        RelationshipType::Child.inverse(),
        Some(RelationshipType::Parent)
    );
    assert_eq!(
        RelationshipType::Verifies.inverse(),
        Some(RelationshipType::VerifiedBy)
    );
    assert_eq!(
        RelationshipType::VerifiedBy.inverse(),
        Some(RelationshipType::Verifies)
    );
    assert_eq!(
        RelationshipType::Duplicate.inverse(),
        Some(RelationshipType::Duplicate)
    );
    assert_eq!(RelationshipType::References.inverse(), None);
    assert_eq!(RelationshipType::Custom("test".to_string()).inverse(), None);
}
