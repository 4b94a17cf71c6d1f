use requirements_core::comment::Comment;
use requirements_core::listing::{field_type_display, get_all_features, is_inactive_status, search_comments_recursive, ListFilters};
use requirements_core::model::{CustomFieldType, RelationshipType, RequirementPriority, RequirementStatus, RequirementType};
use requirements_core::requirement::Requirement;
use requirements_core::settings::{Perspective, PerspectiveDirection, SearchScope};
use requirements_core::store::RequirementsStore;

fn no_filters() -> ListFilters {
    ListFilters {
        perspective: Perspective::ParentChild,
        perspective_direction: PerspectiveDirection::TopDown,
        filter_text: String::new(),
        search_scope: SearchScope::all(),
        filter_types: vec![],
        filter_features: vec![],
        filter_prefixes: vec![],
        filter_statuses: vec![],
        filter_priorities: vec![],
        child_filter_types: vec![],
        child_filter_features: vec![],
        child_filter_prefixes: vec![],
        child_filter_statuses: vec![],
        child_filter_priorities: vec![],
        children_same_as_root: true,
        show_archived: false,
        tree_collapsed: vec![],
    }
}

fn req(title: &str, spec: &str) -> Requirement {
    let mut r = Requirement::new(title.to_string(), String::new());
    r.spec_id = Some(spec.to_string());
    r
}

#[test]
fn search_looks_at_selected_fields_in_lowercase() {
    let mut f = no_filters();
    let r = req("Login Screen", "SEC-001");
    assert!(f.passes_filters(&r, true));
    f.filter_text = "LOGIN".to_string();
    assert!(f.passes_filters(&r, true));
    f.filter_text = "sec-0".to_string();
    assert!(f.passes_filters(&r, true));
    f.search_scope.spec_id = false;
    assert!(!f.passes_filters(&r, true));
    f.search_scope = SearchScope::default();
    assert!(f.passes_filters(&r, true));
}

#[test]
fn search_reaches_nested_comments() {
    let mut top = Comment::new("ann".to_string(), "first".to_string());
    top.replies.push(Comment::new("Bob".to_string(), "Needs a Review".to_string()));
    let comments = vec![top];
    assert!(search_comments_recursive(&comments, "review"));
    assert!(search_comments_recursive(&comments, "bob"));
    assert!(!search_comments_recursive(&comments, "carol"));
    let mut f = no_filters();
    let mut r = req("T", "FR-001");
    r.comments = comments;
    f.filter_text = "Review".to_string();
    f.search_scope = SearchScope { title: false, description: false, comments: true, spec_id: false };
    assert!(f.passes_filters(&r, true));
}

#[test]
fn filters_use_root_or_child_sets() {
    let mut f = no_filters();
    let mut r = req("T", "SEC-001");
    r.req_type = RequirementType::System;
    r.status = RequirementStatus::Approved;
    r.priority = RequirementPriority::Low;
    f.filter_prefixes = vec!["SEC".to_string()];
    f.filter_types = vec![RequirementType::System];
    assert!(f.passes_filters(&r, true));
    f.filter_statuses = vec![RequirementStatus::Draft];
    assert!(!f.passes_filters(&r, true));
    f.children_same_as_root = false;
    assert!(f.passes_filters(&r, false));
    f.child_filter_priorities = vec![RequirementPriority::High];
    assert!(!f.passes_filters(&r, false));
    r.archived = true;
    f.filter_statuses.clear();
    assert!(!f.passes_filters(&r, true));
    f.show_archived = true;
    assert!(f.passes_filters(&r, true));
}

#[test]
fn tree_queries() {
    let f = no_filters();
    let mut store = RequirementsStore::new();
    let parent = req("P", "FR-001");
    let child = req("C", "FR-002");
    let other = req("O", "FR-003");
    let (pid, cid) = (parent.id, child.id);
    store.add_requirement(parent);
    store.add_requirement(child);
    store.add_requirement(other);
    store.add_relationship(&cid, RelationshipType::Parent, &pid, false).unwrap();
    let reqs = &store.requirements;
    let parent_kind = RelationshipType::Parent;
    assert_eq!(f.find_tree_leaves(reqs, &parent_kind), vec![0, 2]);
    assert_eq!(f.find_tree_roots(reqs, &parent_kind), vec![1, 2]);
    assert_eq!(f.get_parents(reqs, &pid, &parent_kind), vec![1]);
    assert_eq!(f.get_children(reqs, &cid, &parent_kind), vec![0]);
    assert!(f.get_children(reqs, &(pid ^ cid ^ 1), &parent_kind).is_empty());
    assert_eq!(f.find_tree_roots_with_ancestors(reqs, &parent_kind, &vec![]), vec![1, 2]);
    assert_eq!(f.get_relationship_for_drop(0, 2), Some((0, 2, RelationshipType::Parent)));
    assert_eq!(f.get_relationship_for_drop(1, 1), None);
    let mut bottom_up = no_filters();
    bottom_up.perspective = Perspective::Verification;
    bottom_up.perspective_direction = PerspectiveDirection::BottomUp;
    assert_eq!(bottom_up.get_relationship_for_drop(0, 2), Some((2, 0, RelationshipType::Verifies)));
    bottom_up.perspective = Perspective::Flat;
    assert_eq!(bottom_up.get_relationship_for_drop(0, 2), None);
}

#[test]
fn display_helpers() {
    assert!(is_inactive_status("Done"));
    assert!(is_inactive_status("Partially Verified"));
    assert!(!is_inactive_status("In Progress"));
    assert_eq!(field_type_display(&CustomFieldType::Requirement), "Requirement Reference");
    let reqs = vec![
        Requirement::new_in_feature("a".to_string(), String::new(), "UI".to_string()),
        Requirement::new_in_feature("b".to_string(), String::new(), "Auth".to_string()),
        Requirement::new_in_feature("c".to_string(), String::new(), "UI".to_string()),
    ];
    assert_eq!(get_all_features(&reqs), vec!["Auth".to_string(), "UI".to_string()]);
}

#[test]
fn ancestors_of_matching_requirements_are_shown() {
    let mut f = no_filters();
    let mut store = RequirementsStore::new();
    let grand = req("G", "FR-001");
    let parent = req("P", "FR-002");
    let mut child = req("C", "FR-003");
    let other = req("O", "FR-004");
    child.status = RequirementStatus::Approved;
    let (gid, pid, cid) = (grand.id, parent.id, child.id);
    store.add_requirement(grand);
    store.add_requirement(parent);
    store.add_requirement(child);
    store.add_requirement(other);
    store.add_relationship(&cid, RelationshipType::Parent, &pid, false).unwrap();
    store.add_relationship(&pid, RelationshipType::Parent, &gid, false).unwrap();
    f.filter_statuses = vec![RequirementStatus::Approved];
    let mut shown = f.compute_ancestor_ids_to_show(&store.requirements, &RelationshipType::Parent);
    shown.sort();
    let mut expected = vec![gid, pid];
    expected.sort();
    assert_eq!(shown, expected);
    assert!(f.compute_ancestor_ids_to_show(&store.requirements, &RelationshipType::Verifies).is_empty());
    f.filter_statuses = vec![];
    let all = f.compute_ancestor_ids_to_show(&store.requirements, &RelationshipType::Parent);
    assert!(all.is_empty());
}
