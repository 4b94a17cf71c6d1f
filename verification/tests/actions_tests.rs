use requirements_core::comment::Comment;
use requirements_core::forms::{
    CustomFieldForm, ReactionDefinitionForm, RelationshipDefinitionForm, TypeDefinitionForm, UrlForm,
};
use requirements_core::listing::ListFilters;
use requirements_core::model::{
    default_type_definitions, Cardinality, CustomFieldType, RelationshipType, RequirementPriority, RequirementStatus,
};
use requirements_core::registry::backup_file_name;
use requirements_core::requirement::Requirement;
use requirements_core::settings::{Perspective, PerspectiveDirection, SearchScope};
use requirements_core::store::{RequirementsStore, StoreError};

fn filters(perspective: Perspective, direction: PerspectiveDirection) -> ListFilters {
    ListFilters {
        perspective,
        perspective_direction: direction,
        filter_text: String::new(),
        search_scope: SearchScope::all(),
        filter_types: vec![],
        filter_features: vec![],
        filter_prefixes: vec![],
        filter_statuses: vec![],
        filter_priorities: vec![],
        child_filter_types: vec![],
        child_filter_features: vec![],
        child_filter_prefixes: vec![],
        child_filter_statuses: vec![],
        child_filter_priorities: vec![],
        children_same_as_root: true,
        show_archived: false,
        tree_collapsed: vec![],
    }
}

fn store_of(titles: &[&str]) -> RequirementsStore {
    let mut store = RequirementsStore::new();
    for t in titles {
        store.add_requirement_with_spec_id(Requirement::new(t.to_string(), String::new()));
    }
    store
}

#[test]
fn archive_toggles_and_records() {
    let mut store = store_of(&["A"]);
    assert_eq!(store.toggle_archive(0, "ann".to_string()), Some(true));
    assert!(store.requirements[0].archived);
    let h = &store.requirements[0].history[0];
    assert_eq!(h.author, "ann");
    assert_eq!(h.changes[0].field_name, "archived");
    assert_eq!(h.changes[0].old_value, "false");
    assert_eq!(h.changes[0].new_value, "true");
    assert_eq!(store.toggle_archive(0, "ann".to_string()), Some(false));
    assert!(!store.requirements[0].archived);
    assert_eq!(store.toggle_archive(3, "ann".to_string()), None);
}

#[test]
fn delete_requirement_by_position() {
    let mut store = store_of(&["A", "B"]);
    assert!(store.delete_requirement(0));
    assert_eq!(store.requirements.len(), 1);
    assert_eq!(store.requirements[0].title, "B");
    assert!(!store.delete_requirement(4));
}

#[test]
fn comments_replies_and_reactions() {
    let mut store = store_of(&["A"]);
    assert!(matches!(store.add_comment_to_requirement(0, "ann".to_string(), "hello".to_string(), None), Some(Ok(()))));
    let top = store.requirements[0].comments[0].id;
    assert!(matches!(store.add_comment_to_requirement(0, "bob".to_string(), "hi".to_string(), Some(top)), Some(Ok(()))));
    assert_eq!(store.requirements[0].comments[0].replies.len(), 1);
    assert_eq!(store.requirements[0].comments[0].replies[0].parent_id, Some(top));
    assert!(matches!(
        store.add_comment_to_requirement(0, "bob".to_string(), "x".to_string(), Some(top ^ 1)),
        Some(Err(StoreError::ParentCommentNotFound))
    ));
    assert!(store.add_comment_to_requirement(2, "bob".to_string(), "x".to_string(), None).is_none());
    let reply = store.requirements[0].comments[0].replies[0].id;
    assert!(store.toggle_comment_reaction(0, reply, "thumbsup", "ann"));
    assert_eq!(store.requirements[0].comments[0].replies[0].reactions.len(), 1);
    assert!(store.toggle_comment_reaction(0, reply, "thumbsup", "ann"));
    assert!(store.requirements[0].comments[0].replies[0].reactions.is_empty());
    assert!(!store.toggle_comment_reaction(0, reply ^ 1, "thumbsup", "ann"));
    assert!(matches!(store.delete_comment_from_requirement(0, reply), Some(Ok(()))));
    assert!(store.requirements[0].comments[0].replies.is_empty());
    assert!(matches!(store.delete_comment_from_requirement(0, reply), Some(Err(StoreError::CommentNotFound))));
    let _ = Comment::new("x".to_string(), "y".to_string());
}

#[test]
fn users_are_added_and_edited() {
    let mut store = store_of(&[]);
    assert_eq!(store.add_new_user(String::new(), "a@b".to_string(), "a".to_string()), None);
    assert_eq!(store.add_new_user("Ann".to_string(), "a@b".to_string(), "ann".to_string()), Some("$USER-001".to_string()));
    let id = store.users[0].id;
    assert!(store.save_edited_user(id, "Anne".to_string(), "anne@b".to_string(), "anne".to_string()));
    assert_eq!(store.users[0].name, "Anne");
    assert_eq!(store.users[0].handle, "anne");
    assert!(!store.save_edited_user(id ^ 1, "X".to_string(), String::new(), String::new()));
}

#[test]
fn dropping_makes_a_relationship() {
    let mut store = store_of(&["Parent", "Child"]);
    let f = filters(Perspective::ParentChild, PerspectiveDirection::TopDown);
    let msg = store.create_relationship_from_drop(&f, 1, 0);
    assert!(matches!(msg, Some(Ok(_))));
    let (cid, pid) = (store.requirements[1].id, store.requirements[0].id);
    assert!(store.requirements[1].relationships.iter().any(|r| r.rel_type == RelationshipType::Parent && r.target_id == pid));
    assert!(store.requirements[0].relationships.iter().any(|r| r.rel_type == RelationshipType::Child && r.target_id == cid));
    assert_eq!(store.create_relationship_from_drop(&f, 1, 1), None);
    let flat = filters(Perspective::Flat, PerspectiveDirection::TopDown);
    assert_eq!(store.create_relationship_from_drop(&flat, 1, 0), None);
    assert_eq!(store.create_relationship_from_drop(&f, 1, 9), None);
    match store.create_relationship_from_drop(&f, 1, 0) {
        Some(Err(m)) => assert!(m.starts_with("Cannot create relationship: ")),
        other => panic!("unexpected {:?}", other),
    }
}

#[test]
fn relationship_definition_form_saves() {
    let mut store = store_of(&[]);
    let mut form = RelationshipDefinitionForm::cleared();
    assert_eq!(store.save_rel_def_form(None, &form), Err("Name is required".to_string()));
    form.name = " Blocks ".to_string();
    form.source_types = "Functional, ,System".to_string();
    form.color = " #ff0000 ".to_string();
    form.cardinality = Cardinality::OneToMany;
    assert_eq!(store.save_rel_def_form(None, &form), Ok(()));
    let d = store.relationship_definitions.last().unwrap();
    assert_eq!(d.name, "blocks");
    assert_eq!(d.display_name, " Blocks ");
    assert_eq!(d.source_types, vec!["Functional".to_string(), "System".to_string()]);
    assert_eq!(d.color.as_deref(), Some("#ff0000"));
    assert_eq!(d.cardinality, Cardinality::OneToMany);
    assert_eq!(
        store.save_rel_def_form(None, &form),
        Err("Failed to add: Relationship definition 'blocks' already exists".to_string())
    );
    let mut edit = RelationshipDefinitionForm::from_definition(store.get_relationship_definition("parent").unwrap());
    edit.display_name = "Parent of".to_string();
    edit.symmetric = true;
    assert_eq!(store.save_rel_def_form(Some("parent"), &edit), Ok(()));
    let p = store.get_relationship_definition("parent").unwrap();
    assert_eq!(p.display_name, "Parent of");
    assert!(p.built_in && !p.symmetric);
    assert_eq!(
        store.save_rel_def_form(Some("nothing"), &edit),
        Err("Failed to update: Relationship definition 'nothing' not found".to_string())
    );
}

#[test]
fn type_definition_form_saves() {
    let mut store = store_of(&[]);
    let n = store.type_definitions.len();
    let form = TypeDefinitionForm {
        name: "Risk".to_string(),
        display_name: "Risk".to_string(),
        description: String::new(),
        prefix: "rsk".to_string(),
        statuses: vec!["Open".to_string()],
        custom_fields: vec![],
    };
    store.save_type_definition(None, form);
    assert_eq!(store.type_definitions.len(), n + 1);
    let t = store.type_definitions.last().unwrap();
    assert_eq!(t.prefix.as_deref(), Some("RSK"));
    assert!(t.description.is_none() && !t.built_in);
    let edit = TypeDefinitionForm {
        name: "Risk".to_string(),
        display_name: "Risks".to_string(),
        description: "d".to_string(),
        prefix: String::new(),
        statuses: vec![],
        custom_fields: vec![],
    };
    store.save_type_definition(Some("Risk"), edit);
    let t = store.type_definitions.last().unwrap();
    assert_eq!(t.display_name, "Risks");
    assert!(t.prefix.is_none());
    assert_eq!(t.description.as_deref(), Some("d"));
}

#[test]
fn url_form_saves_links() {
    let mut store = store_of(&["A"]);
    let id = store.requirements[0].id;
    let form = UrlForm { url: "https://x".to_string(), title: "X".to_string(), description: String::new() };
    assert!(!store.save_url_link(None, id, None, &form, None, ""));
    assert!(!store.save_url_link(Some(0), id ^ 1, None, &form, None, ""));
    assert!(store.save_url_link(Some(0), id, None, &form, Some(true), ""));
    let link = &store.requirements[0].urls[0];
    assert_eq!(link.added_by, "Unknown");
    assert_eq!(link.last_verified_ok, Some(true));
    assert!(link.description.is_none());
    let link_id = link.id;
    let edit = UrlForm { url: "https://y".to_string(), title: "Y".to_string(), description: "why".to_string() };
    assert!(store.save_url_link(Some(0), id, Some(link_id), &edit, None, "ann"));
    let link = &store.requirements[0].urls[0];
    assert_eq!(link.url, "https://y");
    assert_eq!(link.description.as_deref(), Some("why"));
    assert_eq!(link.last_verified_ok, Some(true));
    assert_eq!(store.requirements[0].status, RequirementStatus::Draft);
}

#[test]
fn filtered_indices_follow_the_perspective() {
    let mut store = store_of(&["P", "C", "O"]);
    let (pid, cid) = (store.requirements[0].id, store.requirements[1].id);
    store.add_relationship(&cid, RelationshipType::Parent, &pid, false).unwrap();
    let flat = filters(Perspective::Flat, PerspectiveDirection::TopDown);
    assert_eq!(flat.get_filtered_indices(&store.requirements), vec![0, 1, 2]);
    let down = filters(Perspective::ParentChild, PerspectiveDirection::BottomUp);
    assert_eq!(down.get_filtered_indices(&store.requirements), vec![1, 0, 2]);
    let up = filters(Perspective::ParentChild, PerspectiveDirection::TopDown);
    assert_eq!(up.get_filtered_indices(&store.requirements), vec![0, 1, 2]);
    let mut collapsed = filters(Perspective::ParentChild, PerspectiveDirection::TopDown);
    collapsed.tree_collapsed = vec![pid];
    assert_eq!(collapsed.get_filtered_indices(&store.requirements), vec![0, 2]);
}

#[test]
fn tree_lists_depth_first() {
    let mut store = store_of(&["P", "G", "C1", "C2"]);
    let ids: Vec<u128> = store.requirements.iter().map(|r| r.id).collect();
    store.add_relationship(&ids[1], RelationshipType::Parent, &ids[2], false).unwrap();
    store.add_relationship(&ids[2], RelationshipType::Parent, &ids[0], false).unwrap();
    store.add_relationship(&ids[3], RelationshipType::Parent, &ids[0], false).unwrap();
    let down = filters(Perspective::ParentChild, PerspectiveDirection::TopDown);
    assert_eq!(down.get_filtered_indices(&store.requirements), vec![0, 2, 1, 3]);
    let mut collapsed = filters(Perspective::ParentChild, PerspectiveDirection::TopDown);
    collapsed.tree_collapsed = vec![ids[2]];
    assert_eq!(collapsed.get_filtered_indices(&store.requirements), vec![0, 2, 3]);
}

#[test]
fn project_template_keeps_configuration_only() {
    let mut store = store_of(&["A", "B"]);
    store.add_new_user("Ann".to_string(), "ann@x".to_string(), "ann".to_string());
    store.add_new_user("Bob".to_string(), "bob@x".to_string(), "bob".to_string());
    let defs = store.relationship_definitions.len();
    let t = store.into_project_template(false, "bob", "nobody@x");
    assert!(t.requirements.is_empty());
    assert_eq!(t.next_spec_number, 1);
    assert!(t.prefix_counters.is_empty());
    assert_eq!(t.users.len(), 1);
    assert_eq!(t.users[0].name, "Bob");
    assert_eq!(t.relationship_definitions.len(), defs);
    let t2 = t.into_project_template(false, "zed", "zed@x");
    assert!(t2.users.is_empty());
}

#[test]
fn backup_names() {
    assert_eq!(backup_file_name(Some("reqs"), Some("yml"), "20240101_120000"), "reqs_20240101_120000.yml");
    assert_eq!(backup_file_name(Some("reqs"), None, "T"), "reqs_T.yaml");
    assert_eq!(backup_file_name(None, None, "T"), "requirements_backup_T.yaml");
}

#[test]
fn reaction_definitions_are_saved_and_deleted() {
    let mut store = store_of(&[]);
    let n = store.reaction_definitions.len();
    let mut form = ReactionDefinitionForm {
        name: "wow".to_string(),
        emoji: String::new(),
        label: "Wow".to_string(),
        description: String::new(),
    };
    assert!(!store.save_reaction_definition(None, &form));
    form.emoji = "!".to_string();
    assert!(store.save_reaction_definition(None, &form));
    assert_eq!(store.reaction_definitions.len(), n + 1);
    assert!(store.reaction_definitions[n].description.is_none());
    form.label = "WOW".to_string();
    form.description = "big".to_string();
    assert!(store.save_reaction_definition(Some("wow"), &form));
    assert_eq!(store.reaction_definitions[n].label, "WOW");
    assert_eq!(store.reaction_definitions[n].description.as_deref(), Some("big"));
    store.delete_reaction_definition("wow");
    assert_eq!(store.reaction_definitions.len(), n);
}

#[test]
fn type_definitions_in_use_are_kept() {
    let mut store = store_of(&["A"]);
    let n = store.type_definitions.len();
    assert_eq!(
        store.delete_type_definition("Functional"),
        Err("Cannot delete 'Functional': type is in use by existing requirements".to_string())
    );
    assert_eq!(store.type_definitions.len(), n);
    assert_eq!(store.delete_type_definition("System"), Ok(()));
    assert_eq!(store.type_definitions.len(), n - 1);
    assert!(store.type_definitions.iter().all(|t| t.name != "System"));
}

#[test]
fn quick_priority_and_status_changes_are_recorded() {
    let mut store = store_of(&["A"]);
    assert!(store.change_priority(0, RequirementPriority::High, "ann".to_string()));
    assert!(store.change_status(0, RequirementStatus::Completed, "bob".to_string()));
    let req = &store.requirements[0];
    assert_eq!(req.priority, RequirementPriority::High);
    assert_eq!(req.status, RequirementStatus::Completed);
    assert_eq!(req.history.len(), 2);
    assert_eq!(req.history[0].changes[0].old_value, "Medium");
    assert_eq!(req.history[0].changes[0].new_value, "High");
    assert_eq!(req.history[1].author, "bob");
    assert_eq!(req.history[1].changes[0].new_value, "Completed");
    assert!(!store.change_priority(7, RequirementPriority::Low, "ann".to_string()));
}

#[test]
fn links_are_removed_by_identifier() {
    let mut store = store_of(&["A"]);
    let id = store.requirements[0].id;
    let form = UrlForm { url: "u".to_string(), title: "t".to_string(), description: String::new() };
    store.save_url_link(Some(0), id, None, &form, None, "ann");
    store.save_url_link(Some(0), id, None, &form, None, "ann");
    let first = store.requirements[0].urls[0].id;
    assert!(store.remove_url_link(Some(0), first));
    assert_eq!(store.requirements[0].urls.len(), 1);
    assert!(store.requirements[0].urls[0].id != first);
    assert!(!store.remove_url_link(None, first));
}

#[test]
fn custom_field_form_saves_into_the_type_fields() {
    let mut fields = vec![];
    let mut form = CustomFieldForm {
        name: "risk".to_string(),
        label: String::new(),
        field_type: CustomFieldType::Select,
        required: true,
        options: "low, high,".to_string(),
        default_value: String::new(),
    };
    assert!(!form.save_into(&mut fields, None));
    form.label = "Risk".to_string();
    assert!(form.save_into(&mut fields, None));
    assert_eq!(fields[0].options, vec!["low".to_string(), "high".to_string()]);
    assert!(fields[0].default_value.is_none());
    form.field_type = CustomFieldType::Text;
    form.default_value = "n/a".to_string();
    assert!(form.save_into(&mut fields, Some(0)));
    assert_eq!(fields.len(), 1);
    assert!(fields[0].options.is_empty());
    assert_eq!(fields[0].default_value.as_deref(), Some("n/a"));
}

#[test]
fn users_are_archived_and_relationships_removed_both_ways() {
    let mut store = store_of(&["P", "C"]);
    store.add_new_user("Ann".to_string(), String::new(), "ann".to_string());
    let uid = store.users[0].id;
    assert!(store.toggle_user_archive(uid));
    assert!(store.users[0].archived);
    assert!(!store.toggle_user_archive(uid ^ 1));
    let (pid, cid) = (store.requirements[0].id, store.requirements[1].id);
    store.add_relationship(&cid, RelationshipType::Parent, &pid, true).unwrap();
    assert_eq!(store.requirements[0].relationships.len(), 1);
    assert_eq!(store.remove_relationship_with_inverse(&cid, &RelationshipType::Parent, &pid), Ok(()));
    assert!(store.requirements[0].relationships.is_empty());
    assert!(store.requirements[1].relationships.is_empty());
    match store.remove_relationship_with_inverse(&cid, &RelationshipType::Parent, &pid) {
        Err(m) => assert!(m.starts_with("Failed to remove relationship: Relationship 'parent' to ")),
        Ok(()) => panic!("removed twice"),
    }
}

#[test]
fn type_definitions_restore_and_fill_the_form() {
    let mut store = RequirementsStore::new();
    store.type_definitions[0].display_name = "Changed".to_string();
    store.type_definitions[0].prefix = None;
    assert!(store.restore_type_definition("Functional", default_type_definitions()));
    assert_eq!(store.type_definitions[0].display_name, "Functional");
    assert_eq!(store.type_definitions[0].prefix, Some("FR".to_string()));
    assert!(!store.restore_type_definition("Nope", default_type_definitions()));
    let form = TypeDefinitionForm::from_definition(&store.type_definitions[4]);
    assert_eq!(form.name, "ChangeRequest");
    assert_eq!(form.prefix, "CR");
    assert_eq!(form.statuses.len(), 9);
    assert_eq!(form.custom_fields.len(), 4);
    assert_eq!(form.custom_fields[0].name, "impact");
    let mut bare = store.type_definitions[0].clone();
    bare.description = None;
    bare.prefix = None;
    let f = TypeDefinitionForm::from_definition(&bare);
    assert_eq!(f.description, "");
    assert_eq!(f.prefix, "");
}

#[test]
fn type_form_statuses_and_fields_in_use_are_kept() {
    let mut store = RequirementsStore::new();
    let mut req = Requirement::new("CR".to_string(), String::new());
    req.req_type = requirements_core::model::RequirementType::ChangeRequest;
    req.custom_status = Some("Submitted".to_string());
    req.custom_fields = vec![("impact".to_string(), "High".to_string())];
    store.add_requirement_with_spec_id(req);
    let mut form = TypeDefinitionForm::from_definition(&store.type_definitions[4]);
    assert!(!form.add_status(""));
    assert!(!form.add_status("Draft"));
    assert!(form.add_status("Parked"));
    assert_eq!(form.statuses.len(), 10);
    assert_eq!(form.statuses[1], "Submitted");
    assert_eq!(
        form.remove_status(&store, Some("ChangeRequest"), 1),
        Err("Cannot remove 'Submitted': status is in use".to_string())
    );
    assert_eq!(form.statuses.len(), 10);
    assert_eq!(form.remove_status(&store, Some("ChangeRequest"), 2), Ok(()));
    assert_eq!(form.remove_status(&store, None, 1), Ok(()));
    assert_eq!(form.statuses.len(), 8);
    assert_eq!(
        form.remove_field(&store, Some("ChangeRequest"), 0),
        Err("Cannot remove 'impact': field is in use".to_string())
    );
    assert_eq!(form.remove_field(&store, Some("ChangeRequest"), 1), Ok(()));
    assert_eq!(form.custom_fields.len(), 3);
    assert_eq!(form.remove_field(&store, Some("System"), 0), Ok(()));
    assert_eq!(form.custom_fields[0].name, "target_release");
}
