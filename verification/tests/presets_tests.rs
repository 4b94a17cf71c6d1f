use requirements_core::listing::ListFilters;
use requirements_core::model::RequirementType;
use requirements_core::presets::delete_preset;
use requirements_core::settings::{Perspective, PerspectiveDirection, SearchScope, ViewPreset};

fn default_filters() -> ListFilters {
    ListFilters {
        perspective: Perspective::Flat,
        perspective_direction: PerspectiveDirection::TopDown,
        filter_text: String::new(),
        search_scope: SearchScope::all(),
        filter_types: vec![],
        filter_features: vec![],
        filter_prefixes: vec![],
        filter_statuses: vec![],
        filter_priorities: vec![],
        child_filter_types: vec![],
        child_filter_features: vec![],
        child_filter_prefixes: vec![],
        child_filter_statuses: vec![],
        child_filter_priorities: vec![],
        children_same_as_root: true,
        show_archived: false,
        tree_collapsed: vec![],
    }
}

#[test]
fn saved_view_matches_until_changed() {
    let mut f = default_filters();
    let mut presets: Vec<ViewPreset> = vec![];
    assert!(!f.has_unsaved_view(&None, &presets));
    f.perspective = Perspective::ParentChild;
    f.filter_types = vec![RequirementType::System, RequirementType::User];
    f.filter_features = vec!["UI".to_string()];
    assert!(f.has_unsaved_view(&None, &presets));
    f.save_current_view_as_preset(&mut presets, "mine".to_string());
    assert_eq!(presets.len(), 1);
    let active = Some("mine".to_string());
    assert!(f.current_view_matches_active_preset(&active, &presets));
    assert!(!f.has_unsaved_view(&active, &presets));
    f.filter_types = vec![RequirementType::User, RequirementType::System];
    assert!(f.current_view_matches_active_preset(&active, &presets));
    f.filter_features = vec![];
    assert!(f.has_unsaved_view(&active, &presets));
    f.save_current_view_as_preset(&mut presets, "mine".to_string());
    assert_eq!(presets.len(), 1);
    assert!(presets[0].filter_features.is_empty());
    assert!(!f.current_view_matches_active_preset(&Some("other".to_string()), &presets));
}

#[test]
fn applying_and_deleting_presets() {
    let mut f = default_filters();
    f.perspective = Perspective::Verification;
    f.child_filter_prefixes = vec!["SEC".to_string()];
    let mut presets: Vec<ViewPreset> = vec![];
    f.save_current_view_as_preset(&mut presets, "v".to_string());
    let mut g = default_filters();
    g.filter_text = "kept".to_string();
    let active = g.apply_preset(&presets[0]);
    assert_eq!(active, "v");
    assert_eq!(g.perspective, Perspective::Verification);
    assert_eq!(g.child_filter_prefixes, vec!["SEC".to_string()]);
    assert_eq!(g.filter_text, "kept");
    let mut active_preset = Some("v".to_string());
    delete_preset(&mut presets, &mut active_preset, "v");
    assert!(presets.is_empty());
    assert!(active_preset.is_none());
    g.reset_to_default_view(Perspective::References);
    assert_eq!(g.perspective, Perspective::References);
    assert!(g.filter_text.is_empty());
    assert_eq!(g.child_filter_prefixes, vec!["SEC".to_string()]);
}

#[test]
fn view_selector_label_and_reset() {
    let mut f = default_filters();
    let mut presets: Vec<ViewPreset> = vec![];
    assert_eq!(f.view_label(&None, &presets), "Flat List");
    assert!(!f.can_reset_view());
    f.perspective = Perspective::References;
    assert_eq!(f.view_label(&None, &presets), "References");
    assert!(f.can_reset_view());
    f.save_current_view_as_preset(&mut presets, "refs".to_string());
    let active = Some("refs".to_string());
    assert_eq!(f.view_label(&active, &presets), "refs");
    f.perspective_direction = PerspectiveDirection::BottomUp;
    assert_eq!(f.view_label(&active, &presets), "refs*");
    let mut g = default_filters();
    g.filter_features = vec!["UI".to_string()];
    assert!(g.can_reset_view());
}
