use requirements_core::editing::RequirementForm;
use requirements_core::model::{RequirementPriority, RequirementStatus, RequirementType};
use requirements_core::requirement::Requirement;
use requirements_core::store::RequirementsStore;
use requirements_core::text::{join_texts, split_list};

fn store_with(title: &str) -> RequirementsStore {
    let mut store = RequirementsStore::new();
    store.add_requirement_with_spec_id(Requirement::new(title.to_string(), "Desc".to_string()));
    store
}

fn change_triples(req: &Requirement) -> Vec<(String, String, String)> {
    req.history
        .last()
        .map(|h| {
            h.changes
                .iter()
                .map(|c| (c.field_name.clone(), c.old_value.clone(), c.new_value.clone()))
                .collect()
        })
        .unwrap_or_default()
}

#[test]
fn comma_lists_split_trim_and_join() {
    assert_eq!(split_list(" a, b ,,c ,"), vec!["a".to_string(), "b".to_string(), "c".to_string()]);
    assert!(split_list("  ").is_empty());
    assert_eq!(join_texts(&vec!["x".to_string(), "y".to_string()], ", "), "x, y");
    assert_eq!(join_texts(&vec![], ", "), "");
}

#[test]
fn cleared_form_has_defaults() {
    let f = RequirementForm::cleared();
    assert_eq!(f.status_string, "Draft");
    assert_eq!(f.feature, "Uncategorized");
    assert_eq!(f.priority, RequirementPriority::Medium);
    assert_eq!(f.req_type, RequirementType::Functional);
    assert!(f.title.is_empty() && f.tags.is_empty() && f.prefix.is_empty());
}

#[test]
fn form_from_requirement_and_change_detection() {
    let mut req = Requirement::new("T".to_string(), "D".to_string());
    req.tags = vec!["ui".to_string(), "auth".to_string()];
    req.custom_status = Some("In Review".to_string());
    req.prefix_override = Some("SEC".to_string());
    req.custom_fields = vec![("risk".to_string(), "high".to_string())];
    let f = RequirementForm::from_requirement(&req);
    assert_eq!(f.tags, "ui, auth");
    assert_eq!(f.status_string, "In Review");
    assert_eq!(f.prefix, "SEC");
    let original = RequirementForm::from_requirement(&req);
    assert!(!f.has_changes(&original));
    let mut g = RequirementForm::from_requirement(&req);
    g.custom_fields = vec![("risk".to_string(), "low".to_string())];
    assert!(g.has_changes(&original));
    let mut h = RequirementForm::from_requirement(&req);
    h.owner = "bob".to_string();
    assert!(h.has_changes(&original));
}

#[test]
fn update_records_each_changed_field() {
    let mut store = store_with("Test");
    let mut form = RequirementForm::from_requirement(&store.requirements[0]);
    form.title = "New title".to_string();
    form.status_string = "Approved".to_string();
    form.tags = "b, a, b ,,".to_string();
    form.priority = RequirementPriority::High;
    assert_eq!(store.update_requirement(0, &form, "ann".to_string()), Some(Ok(())));
    let req = &store.requirements[0];
    assert_eq!(req.title, "New title");
    assert_eq!(req.status, RequirementStatus::Approved);
    assert_eq!(req.tags, vec!["b".to_string(), "a".to_string()]);
    assert_eq!(req.priority, RequirementPriority::High);
    assert_eq!(req.spec_id.as_deref(), Some("SPEC-001"));
    assert_eq!(req.history.len(), 1);
    assert_eq!(req.history[0].author, "ann");
    assert_eq!(
        change_triples(req),
        vec![
            ("title".to_string(), "Test".to_string(), "New title".to_string()),
            ("status".to_string(), "Draft".to_string(), "Approved".to_string()),
            ("priority".to_string(), "Medium".to_string(), "High".to_string()),
            ("tags".to_string(), "".to_string(), "b, a".to_string()),
        ]
    );
}

#[test]
fn update_without_changes_records_nothing() {
    let mut store = store_with("Same");
    let form = RequirementForm::from_requirement(&store.requirements[0]);
    assert_eq!(store.update_requirement(0, &form, "ann".to_string()), Some(Ok(())));
    assert!(store.requirements[0].history.is_empty());
    assert_eq!(store.update_requirement(5, &form, "ann".to_string()), None);
}

#[test]
fn update_with_prefix_regenerates_the_identifier() {
    let mut store = store_with("Secure");
    let mut form = RequirementForm::from_requirement(&store.requirements[0]);
    form.prefix = " sec ".to_string();
    assert_eq!(store.update_requirement(0, &form, "ann".to_string()), Some(Ok(())));
    let req = &store.requirements[0];
    assert_eq!(req.prefix_override.as_deref(), Some("SEC"));
    assert_eq!(req.spec_id.as_deref(), Some("SEC-002"));
    assert!(store.allowed_prefixes.contains(&"SEC".to_string()));
    assert_eq!(
        change_triples(req),
        vec![
            ("prefix_override".to_string(), "".to_string(), "SEC".to_string()),
            ("spec_id".to_string(), "SPEC-001".to_string(), "SEC-002".to_string()),
        ]
    );
}

#[test]
fn update_refuses_an_identifier_in_use() {
    let mut store = store_with("First");
    let mut other = Requirement::new("Other".to_string(), String::new());
    other.spec_id = Some("SEC-002".to_string());
    store.requirements.push(other);
    let mut form = RequirementForm::from_requirement(&store.requirements[0]);
    form.prefix = "SEC".to_string();
    form.title = "Changed".to_string();
    assert_eq!(
        store.update_requirement(0, &form, "ann".to_string()),
        Some(Err("ID 'SEC-002' is already in use by another requirement".to_string()))
    );
    assert_eq!(store.requirements[0].title, "First");
    assert_eq!(store.next_spec_number, 3);
}

#[test]
fn update_with_new_type_takes_the_type_prefix() {
    let mut store = store_with("Typed");
    let mut form = RequirementForm::from_requirement(&store.requirements[0]);
    form.req_type = RequirementType::NonFunctional;
    assert_eq!(store.update_requirement(0, &form, "ann".to_string()), Some(Ok(())));
    let req = &store.requirements[0];
    assert_eq!(req.spec_id.as_deref(), Some("NFR-002"));
    assert_eq!(
        change_triples(req),
        vec![
            ("type".to_string(), "Functional".to_string(), "NonFunctional".to_string()),
            ("spec_id".to_string(), "SPEC-001".to_string(), "NFR-002".to_string()),
        ]
    );
}

#[test]
fn add_from_form_numbers_and_links_to_parent() {
    let mut store = RequirementsStore::new();
    let mut form = RequirementForm::cleared();
    form.title = "Parent".to_string();
    let pid = store.add_requirement_from_form(&form, None).unwrap();
    assert_eq!(store.requirements[0].spec_id.as_deref(), Some("FR-001"));
    form.title = "Child".to_string();
    form.tags = "x, y, x".to_string();
    form.status_string = "In Review".to_string();
    let cid = store.add_requirement_from_form(&form, Some(pid)).unwrap();
    let child = &store.requirements[1];
    assert_eq!(child.id, cid);
    assert_eq!(child.spec_id.as_deref(), Some("FR-002"));
    assert_eq!(child.tags, vec!["x".to_string(), "y".to_string()]);
    assert_eq!(child.custom_status.as_deref(), Some("In Review"));
    assert_eq!(child.status, RequirementStatus::Draft);
    assert!(child.relationships.iter().any(|r| r.target_id == pid));
    assert!(store.requirements[0].relationships.iter().any(|r| r.target_id == cid));
}

#[test]
fn add_from_form_refuses_a_bad_prefix() {
    let mut store = RequirementsStore::new();
    let mut form = RequirementForm::cleared();
    form.prefix = "a1".to_string();
    assert_eq!(
        store.add_requirement_from_form(&form, None),
        Err("Prefix must contain only uppercase letters (A-Z)".to_string())
    );
    assert!(store.requirements.is_empty());
    form.prefix = " perf ".to_string();
    store.add_requirement_from_form(&form, None).unwrap();
    assert_eq!(store.requirements[0].prefix_override.as_deref(), Some("PERF"));
    assert_eq!(store.requirements[0].spec_id.as_deref(), Some("PERF-001"));
    assert!(store.allowed_prefixes.contains(&"PERF".to_string()));
}

#[test]
fn changing_the_type_keeps_or_resets_the_status() {
    let store = RequirementsStore::new();
    let mut form = RequirementForm::cleared();
    form.custom_fields = vec![("impact".to_string(), "High".to_string())];
    form.change_type(&store, RequirementType::Functional);
    assert_eq!(form.custom_fields.len(), 1);
    form.change_type(&store, RequirementType::ChangeRequest);
    assert_eq!(form.req_type, RequirementType::ChangeRequest);
    assert_eq!(form.status_string, "Draft");
    assert!(form.custom_fields.is_empty());
    form.status_string = "Submitted".to_string();
    form.change_type(&store, RequirementType::System);
    assert_eq!(form.status_string, "Draft");
    form.status_string = "Completed".to_string();
    form.change_type(&store, RequirementType::User);
    assert_eq!(form.status_string, "Completed");
    form.change_type(&store, RequirementType::ChangeRequest);
    assert_eq!(form.status_string, "Draft");
}
