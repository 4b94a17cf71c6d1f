use requirements_core::model::{CustomFieldDefinition, CustomTypeDefinition, IdFormat, RequirementType};
use requirements_core::numbering::example_id_texts;
use requirements_core::requirement::Requirement;
use requirements_core::store::RequirementsStore;

fn req_in(feature: &str) -> Requirement {
    Requirement::new_in_feature("T".to_string(), String::new(), feature.to_string())
}

fn with_spec(spec: &str) -> Requirement {
    let mut r = Requirement::new("T".to_string(), String::new());
    r.spec_id = Some(spec.to_string());
    r
}

#[test]
fn feature_names_sorted_by_number_then_text() {
    let mut store = RequirementsStore::new();
    for f in ["10-Zeta", "2-Beta", "Misc", "2-Beta", "1-Alpha", "Core"] {
        store.add_requirement(req_in(f));
    }
    assert_eq!(
        store.get_feature_names(),
        vec!["1-Alpha".to_string(), "2-Beta".to_string(), "10-Zeta".to_string(), "Core".to_string(), "Misc".to_string()]
    );
}

#[test]
fn feature_names_keep_first_occurrence_among_equal_numbers() {
    let mut store = RequirementsStore::new();
    for f in ["3-B", "03-A", "1-Z"] {
        store.add_requirement(req_in(f));
    }
    assert_eq!(store.get_feature_names(), vec!["1-Z".to_string(), "3-B".to_string(), "03-A".to_string()]);
}

#[test]
fn update_feature_name_renames_matching_requirements() {
    let mut store = RequirementsStore::new();
    store.add_requirement(req_in("Auth"));
    store.add_requirement(req_in("UI"));
    store.add_requirement(req_in("Auth"));
    store.update_feature_name("Auth", "Security");
    let names: Vec<&str> = store.requirements.iter().map(|r| r.feature.as_str()).collect();
    assert_eq!(names, vec!["Security", "UI", "Security"]);
}

#[test]
fn migrate_features_numbers_the_unnumbered() {
    let mut store = RequirementsStore::new();
    store.add_requirement(req_in("Auth"));
    store.add_requirement(req_in("7-Done"));
    store.add_requirement(req_in("UI"));
    store.add_requirement(req_in("Auth"));
    store.next_feature_number = 5;
    store.migrate_features();
    let names: Vec<&str> = store.requirements.iter().map(|r| r.feature.as_str()).collect();
    assert_eq!(names, vec!["5-Auth", "7-Done", "6-UI", "5-Auth"]);
    assert_eq!(store.next_feature_number, 7);
}

#[test]
fn used_and_all_prefixes() {
    let mut store = RequirementsStore::new();
    for s in ["SR-002", "FR-001", "$USER-001", "FR-003", "AUTH-FR-004"] {
        store.add_requirement(with_spec(s));
    }
    store.add_requirement(Requirement::new("x".to_string(), String::new()));
    assert_eq!(store.get_used_prefixes(), vec!["AUTH".to_string(), "FR".to_string(), "SR".to_string()]);
    store.allowed_prefixes = vec!["ZED".to_string(), "FR".to_string(), "ABC".to_string()];
    assert_eq!(
        store.get_all_prefixes(),
        vec!["ABC".to_string(), "AUTH".to_string(), "FR".to_string(), "SR".to_string(), "ZED".to_string()]
    );
}

#[test]
fn allowed_prefixes_are_kept_sorted() {
    let mut store = RequirementsStore::new();
    store.add_allowed_prefix("perf");
    store.add_allowed_prefix("api");
    store.add_allowed_prefix("PERF");
    assert_eq!(store.allowed_prefixes, vec!["API".to_string(), "PERF".to_string()]);
    store.remove_allowed_prefix("API");
    assert_eq!(store.allowed_prefixes, vec!["PERF".to_string()]);
    store.remove_allowed_prefix("perf");
    assert_eq!(store.allowed_prefixes, vec!["PERF".to_string()]);
}

#[test]
fn prefix_allowed_only_when_restricted() {
    let mut store = RequirementsStore::new();
    assert!(store.is_prefix_allowed("ANY"));
    store.restrict_prefixes = true;
    assert!(!store.is_prefix_allowed("ANY"));
    store.add_allowed_prefix("sec");
    assert!(store.is_prefix_allowed("Sec"));
}

#[test]
fn type_definitions_give_statuses_and_fields() {
    let mut store = RequirementsStore::new();
    let cr = store.get_type_definition(&RequirementType::ChangeRequest).unwrap();
    assert_eq!(cr.name, "ChangeRequest");
    let statuses = store.get_statuses_for_type(&RequirementType::ChangeRequest);
    assert_eq!(statuses.len(), 9);
    assert_eq!(statuses[1], "Submitted");
    assert_eq!(
        store.get_statuses_for_type(&RequirementType::Functional),
        vec!["Draft".to_string(), "Approved".to_string(), "Completed".to_string(), "Rejected".to_string()]
    );
    store.type_definitions.clear();
    assert!(store.get_type_definition(&RequirementType::User).is_none());
    assert_eq!(store.get_statuses_for_type(&RequirementType::User).len(), 4);
    assert!(store.get_custom_fields_for_type(&RequirementType::User).is_empty());
}

#[test]
fn custom_fields_are_sorted_stably_by_order() {
    let mut store = RequirementsStore::new();
    let t = CustomTypeDefinition::new("User", "User story")
        .with_field(CustomFieldDefinition::text("c", "C").with_order(2))
        .with_field(CustomFieldDefinition::text("a", "A").with_order(1))
        .with_field(CustomFieldDefinition::text("d", "D").with_order(2))
        .with_field(CustomFieldDefinition::text("b", "B").with_order(-1));
    store.type_definitions = vec![t];
    let names: Vec<String> =
        store.get_custom_fields_for_type(&RequirementType::User).into_iter().map(|f| f.name).collect();
    assert_eq!(names, vec!["b", "a", "c", "d"]);
}

#[test]
fn typed_prefixes_must_be_capital_letters() {
    let mut store = RequirementsStore::new();
    assert!(!store.add_prefix_from_input(""));
    assert!(!store.add_prefix_from_input("se1"));
    assert!(!store.add_prefix_from_input("a b"));
    assert!(store.allowed_prefixes.is_empty());
    assert!(store.add_prefix_from_input("sec"));
    assert!(store.add_prefix_from_input("API"));
    assert!(store.add_prefix_from_input("Sec"));
    assert_eq!(store.allowed_prefixes, vec!["API".to_string(), "SEC".to_string()]);
}

#[test]
fn example_identifiers_follow_the_format() {
    assert_eq!(
        example_id_texts(IdFormat::SingleLevel, 3),
        vec!["AUTH-001".to_string(), "FR-002".to_string(), "PAY-003".to_string()]
    );
    assert_eq!(
        example_id_texts(IdFormat::TwoLevel, 1),
        vec!["AUTH-FR-1".to_string(), "AUTH-NFR-2".to_string(), "PAY-FR-3".to_string()]
    );
}
