use requirements_core::model::RelationshipType;
use requirements_core::requirement::{Relationship, Requirement};
use requirements_core::store::RequirementsStore;

fn display(store: &RequirementsStore, k: &RelationshipType) -> String {
    store.get_definition_for_type(k).map(|d| d.display_name.clone()).unwrap_or_else(|| k.display_text())
}

#[test]
fn relationship_tree_rows() {
    let mut store = RequirementsStore::new();
    for t in ["Root", "Kid", "Mid"] {
        store.add_requirement_with_spec_id(Requirement::new(t.to_string(), String::new()));
    }
    let ids: Vec<u128> = store.requirements.iter().map(|r| r.id).collect();
    store.add_relationship(&ids[0], RelationshipType::Parent, &ids[1], false).unwrap();
    store.add_relationship(&ids[0], RelationshipType::Parent, &ids[2], false).unwrap();
    store.add_relationship(&ids[2], RelationshipType::Parent, &ids[1], false).unwrap();
    store.add_relationship(&ids[1], RelationshipType::References, &ids[0], false).unwrap();
    store.requirements[0].relationships.push(Relationship { rel_type: RelationshipType::References, target_id: 999 });

    let rows = store.relationship_rows(ids[0], &vec![], None);
    assert_eq!(rows.len(), 3);
    assert_eq!(rows[0].target_id, ids[1]);
    assert_eq!(rows[0].target_idx, Some(1));
    assert_eq!(rows[0].target_label, store.requirements[1].spec_id.clone().unwrap());
    assert_eq!(rows[0].target_title, "Kid");
    assert_eq!(rows[0].display_name, display(&store, &RelationshipType::Parent));
    assert_eq!(rows[0].expandable_children, 0);
    assert!(rows[0].is_shared);
    assert_eq!(rows[0].cross_relationship, Some(RelationshipType::References));
    assert!(!rows[0].on_path);
    assert_eq!(rows[1].target_id, ids[2]);
    assert_eq!(rows[1].expandable_children, 1);
    assert!(!rows[1].is_shared);
    assert_eq!(rows[1].cross_relationship, None);
    assert_eq!(rows[2].target_idx, None);
    assert_eq!(rows[2].target_label, "Unknown");
    assert_eq!(rows[2].target_title, "(not found)");
    assert_eq!(rows[2].expandable_children, 0);
    assert!(!rows[2].is_shared);

    let below = store.relationship_rows(ids[2], &vec![ids[0]], Some(&RelationshipType::Parent));
    assert_eq!(below.len(), 1);
    assert_eq!(below[0].target_id, ids[1]);
    assert_eq!(below[0].expandable_children, 0);
    assert_eq!(below[0].cross_relationship, Some(RelationshipType::References));

    let back = store.relationship_rows(ids[1], &vec![ids[0]], Some(&RelationshipType::References));
    assert_eq!(back.len(), 1);
    assert!(back[0].on_path);
    assert_eq!(back[0].cross_relationship, None);

    assert!(store.relationship_rows(12345, &vec![], None).is_empty());
}
