use requirements_core::model::{IdFormat, NumberingStrategy, RequirementType};
use requirements_core::requirement::Requirement;
use requirements_core::store::RequirementsStore;

fn with_spec(title: &str, spec: &str) -> Requirement {
    let mut r = Requirement::new(title.to_string(), String::new());
    r.spec_id = Some(spec.to_string());
    r
}

#[test]
fn generate_single_level_global_prefers_type_prefix() {
    let mut store = RequirementsStore::new();
    assert_eq!(store.generate_requirement_id(Some("auth"), Some("fr")), "FR-001");
    assert_eq!(store.generate_requirement_id(Some("auth"), None), "AUTH-002");
    assert_eq!(store.generate_requirement_id(None, None), "REQ-003");
    assert_eq!(store.next_spec_number, 4);
}

#[test]
fn generate_per_prefix_counts_each_prefix() {
    let mut store = RequirementsStore::new();
    store.id_config.numbering = NumberingStrategy::PerPrefix;
    assert_eq!(store.generate_requirement_id(None, Some("fr")), "FR-001");
    assert_eq!(store.generate_requirement_id(None, Some("FR")), "FR-002");
    assert_eq!(store.generate_requirement_id(Some("auth"), None), "AUTH-001");
    assert_eq!(store.next_spec_number, 1);
}

#[test]
fn generate_two_level_per_feature_type() {
    let mut store = RequirementsStore::new();
    store.id_config.format = IdFormat::TwoLevel;
    store.id_config.numbering = NumberingStrategy::PerFeatureType;
    assert_eq!(store.generate_requirement_id(Some("auth"), Some("fr")), "AUTH-FR-001");
    assert_eq!(store.generate_requirement_id(Some("auth"), Some("nfr")), "AUTH-NFR-001");
    assert_eq!(store.generate_requirement_id(Some("auth"), Some("fr")), "AUTH-FR-002");
    assert_eq!(store.generate_requirement_id(None, None), "GEN-REQ-001");
}

#[test]
fn generate_two_level_global_and_digits() {
    let mut store = RequirementsStore::new();
    store.id_config.format = IdFormat::TwoLevel;
    store.id_config.digits = 5;
    assert_eq!(store.generate_requirement_id(Some("ui"), None), "UI-REQ-00001");
    assert_eq!(store.id_config.format_number(42), "00042");
}

#[test]
fn next_counter_starts_at_one_per_uppercase_prefix() {
    let mut store = RequirementsStore::new();
    assert_eq!(store.get_next_counter_for_prefix("abc"), 1);
    assert_eq!(store.get_next_counter_for_prefix("ABC"), 2);
    assert_eq!(store.get_next_counter_for_prefix("xyz"), 1);
}

#[test]
fn override_prefix_is_uppercased() {
    let mut store = RequirementsStore::new();
    assert_eq!(store.generate_requirement_id_with_override("sec"), "SEC-001");
    store.id_config.numbering = NumberingStrategy::PerPrefix;
    assert_eq!(store.generate_requirement_id_with_override("sec"), "SEC-001");
    assert_eq!(store.generate_requirement_id_with_override("sec"), "SEC-002");
}

#[test]
fn add_requirement_with_id_uses_override_or_prefixes() {
    let mut store = RequirementsStore::new();
    let mut a = Requirement::new("A".to_string(), String::new());
    a.prefix_override = Some("perf".to_string());
    store.add_requirement_with_id(a, Some("auth"), Some("fr"));
    let b = Requirement::new("B".to_string(), String::new());
    store.add_requirement_with_id(b, Some("auth"), Some("fr"));
    let c = with_spec("C", "KEEP-9");
    store.add_requirement_with_id(c, Some("auth"), Some("fr"));
    assert_eq!(store.requirements[0].spec_id.as_deref(), Some("PERF-001"));
    assert_eq!(store.requirements[1].spec_id.as_deref(), Some("FR-002"));
    assert_eq!(store.requirements[2].spec_id.as_deref(), Some("KEEP-9"));
    assert_eq!(store.next_spec_number, 3);
}

#[test]
fn type_prefix_and_type_change() {
    let store = RequirementsStore::new();
    assert_eq!(store.get_type_prefix(&RequirementType::NonFunctional).as_deref(), Some("NFR"));
    assert_eq!(store.get_type_prefix(&RequirementType::ChangeRequest).as_deref(), Some("CR"));
    assert_eq!(
        store.update_spec_id_for_type_change(Some("FR-007"), &RequirementType::System).as_deref(),
        Some("SR-007")
    );
    assert_eq!(store.update_spec_id_for_type_change(Some("FR"), &RequirementType::System), None);
    assert_eq!(store.update_spec_id_for_type_change(None, &RequirementType::System), None);
    let mut two = RequirementsStore::new();
    two.id_config.format = IdFormat::TwoLevel;
    assert_eq!(
        two.update_spec_id_for_type_change(Some("AUTH-FR-012"), &RequirementType::User).as_deref(),
        Some("AUTH-UR-012")
    );
    assert_eq!(two.update_spec_id_for_type_change(Some("FR-012"), &RequirementType::User), None);
}

#[test]
fn spec_id_availability() {
    let mut store = RequirementsStore::new();
    let r = with_spec("A", "FR-001");
    let id = r.id;
    store.add_requirement(r);
    assert!(!store.is_spec_id_available("FR-001", None));
    assert!(store.is_spec_id_available("FR-001", Some(&id)));
    assert!(store.is_spec_id_available("FR-002", None));
}

#[test]
fn regenerate_refuses_a_taken_identifier() {
    let mut store = RequirementsStore::new();
    store.add_requirement(with_spec("A", "SEC-001"));
    let other = Requirement::new("B".to_string(), String::new());
    let other_id = other.id;
    store.add_requirement(other);
    let r = store.regenerate_spec_id_for_prefix_change(&other_id, Some("sec"), None, None);
    assert_eq!(r, Err("ID 'SEC-001' is already in use by another requirement".to_string()));
    let r2 = store.regenerate_spec_id_for_prefix_change(&other_id, None, None, Some("fr"));
    assert_eq!(r2, Ok("FR-002".to_string()));
}

#[test]
fn max_digits_and_count() {
    let mut store = RequirementsStore::new();
    assert_eq!(store.get_max_digits_in_use(), 0);
    store.add_requirement(with_spec("A", "FR-0001"));
    store.add_requirement(with_spec("B", "X-12"));
    store.add_requirement(with_spec("C", "ABC"));
    store.add_requirement(Requirement::new("D".to_string(), String::new()));
    assert_eq!(store.get_max_digits_in_use(), 4);
    assert_eq!(store.count_spec_ids(), 3);
}

#[test]
fn validate_config_unchanged_has_nothing_to_migrate() {
    let store = RequirementsStore::new();
    let v = store.validate_id_config_change(&IdFormat::SingleLevel, &NumberingStrategy::Global, 3);
    assert!(v.valid);
    assert!(!v.can_migrate);
    assert_eq!(v.error, None);
    assert_eq!(v.warning, None);
    assert_eq!(v.affected_count, 0);
}

#[test]
fn validate_config_refuses_fewer_digits_than_in_use() {
    let mut store = RequirementsStore::new();
    store.add_requirement(with_spec("A", "FR-0001"));
    let v = store.validate_id_config_change(&IdFormat::SingleLevel, &NumberingStrategy::Global, 2);
    assert!(!v.valid);
    assert!(!v.can_migrate);
    assert_eq!(
        v.error.as_deref(),
        Some("Cannot reduce digits to 2 - existing requirements use up to 4 digits")
    );
}

#[test]
fn validate_config_format_change_needs_global_numbering() {
    let mut store = RequirementsStore::new();
    store.id_config.numbering = NumberingStrategy::PerPrefix;
    let v = store.validate_id_config_change(&IdFormat::TwoLevel, &NumberingStrategy::PerFeatureType, 3);
    assert!(!v.valid);
    assert_eq!(
        v.error.as_deref(),
        Some("Format changes require Global numbering strategy. Please switch to Global numbering first.")
    );
    let ok = store.validate_id_config_change(&IdFormat::TwoLevel, &NumberingStrategy::Global, 3);
    assert!(ok.valid);
    assert!(ok.can_migrate);
}

#[test]
fn validate_config_warnings_count_identifiers() {
    let mut store = RequirementsStore::new();
    store.add_requirement(with_spec("A", "FR-001"));
    store.add_requirement(with_spec("B", "FR-002"));
    store.add_requirement(Requirement::new("C".to_string(), String::new()));
    let f = store.validate_id_config_change(&IdFormat::TwoLevel, &NumberingStrategy::Global, 3);
    assert!(f.valid && f.can_migrate);
    assert_eq!(f.affected_count, 2);
    assert_eq!(f.warning.as_deref(), Some("2 requirement(s) will have their IDs updated to the new format."));
    let d = store.validate_id_config_change(&IdFormat::SingleLevel, &NumberingStrategy::Global, 4);
    assert_eq!(d.warning.as_deref(), Some("2 requirement(s) will have their ID numbers reformatted."));
    let n = store.validate_id_config_change(&IdFormat::SingleLevel, &NumberingStrategy::PerPrefix, 3);
    assert_eq!(n.warning, None);
    assert_eq!(n.affected_count, 2);
}

#[test]
fn migrate_ids_to_config_renumbers_everything() {
    let mut store = RequirementsStore::new();
    let mut a = Requirement::new("A".to_string(), String::new());
    a.req_type = RequirementType::System;
    a.spec_id = Some("SPEC-010".to_string());
    let mut b = Requirement::new("B".to_string(), String::new());
    b.prefix_override = Some("SEC".to_string());
    store.add_requirement(a);
    store.add_requirement(b);
    let n = store.migrate_ids_to_config(IdFormat::SingleLevel, NumberingStrategy::PerPrefix, 4);
    assert_eq!(n, 2);
    assert_eq!(store.requirements[0].spec_id.as_deref(), Some("SR-0001"));
    assert_eq!(store.requirements[1].spec_id.as_deref(), Some("SEC-0001"));
    assert_eq!(store.id_config.digits, 4);
}
