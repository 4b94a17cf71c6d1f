use requirements_core::model::{RelationshipType, RequirementType};
use requirements_core::settings::{
    default_true, default_ui_heading_level, display_name, key_context_for, parse_hex_color, remove_icon_entry,
    set_icon_entry, sorted_keywords, BaseTheme, BuiltInTheme,
    MainView, ThemeName, ThemePick, KeyAction, KeyBinding, KeyBindings,
    KeyContext, Perspective, PerspectiveDirection, PriorityIconConfig, SearchScope, StatusIconConfig,
    ThemeColor, ThemeEditorCategory, ViewPreset,
};

#[test]
fn theme_colors() {
    assert_eq!(ThemeColor::new(1, 2, 3), ThemeColor { r: 1, g: 2, b: 3, a: 255 });
    assert_eq!(ThemeColor::with_alpha(1, 2, 3, 4).a, 4);
    assert_eq!(ThemeColor::default(), ThemeColor { r: 128, g: 128, b: 128, a: 255 });
}

#[test]
fn labels() {
    assert_eq!(BaseTheme::Light.label(), "Light");
    assert_eq!(BaseTheme::default(), BaseTheme::Dark);
    assert_eq!(ThemeEditorCategory::Borders.label(), "Borders & Rounding");
    assert_eq!(ThemeEditorCategory::all().len(), 6);
    assert_eq!(ThemeEditorCategory::all()[5], ThemeEditorCategory::Spacing);
    assert_eq!(KeyContext::DetailView.label(), "Detail View");
    assert_eq!(KeyContext::all(), &[KeyContext::Global, KeyContext::RequirementsList, KeyContext::DetailView, KeyContext::Form]);
    assert_eq!(KeyAction::ToggleExpand.label(), "Toggle Expand/Collapse");
    assert_eq!(KeyAction::all().len(), 10);
    assert_eq!(Perspective::ParentChild.label(), "Parent/Child");
    assert_eq!(Perspective::default(), Perspective::ParentChild);
    assert_eq!(PerspectiveDirection::BottomUp.label(), "Bottom-up");
}

#[test]
fn action_contexts() {
    assert_eq!(KeyAction::Save.default_context(), KeyContext::Form);
    assert_eq!(KeyAction::Edit.default_context(), KeyContext::RequirementsList);
    assert_eq!(KeyAction::CycleTheme.default_context(), KeyContext::Global);
}

#[test]
fn key_binding_display_and_context() {
    let b = KeyBinding::new("Plus", KeyContext::Global).with_ctrl().with_shift();
    assert_eq!(b.display(), "Ctrl+Shift+Plus");
    assert_eq!(KeyBinding::new("Up", KeyContext::Form).display(), "Up");
    let list = KeyBinding::new("Up", KeyContext::RequirementsList);
    assert!(list.applies_in(KeyContext::RequirementsList));
    assert!(list.applies_in(KeyContext::DetailView));
    assert!(!list.applies_in(KeyContext::Form));
    assert!(b.applies_in(KeyContext::Form));
}

#[test]
fn default_key_bindings() {
    let kb = KeyBindings::default();
    assert_eq!(kb.bindings.len(), 10);
    assert_eq!(kb.get(KeyAction::Save).unwrap().display(), "Ctrl+S");
    assert_eq!(kb.get(KeyAction::ZoomIn).unwrap().display(), "Ctrl+Shift+Plus");
    assert_eq!(kb.get(KeyAction::NavigateUp).unwrap().display(), "Up");
    assert_eq!(kb.get(KeyAction::ZoomReset).unwrap().key_name, "0");
    assert_eq!(kb.get(KeyAction::Save).unwrap().context, KeyContext::Form);
    let empty = KeyBindings { bindings: Vec::new() };
    assert!(empty.get(KeyAction::Save).is_none());
}

#[test]
fn status_icons() {
    let c = StatusIconConfig::default();
    assert_eq!(c.get_icon("Completed"), "[x]");
    assert_eq!(c.get_icon("DRAFT"), "[ ]");
    assert_eq!(c.get_icon("In Progress"), "[~]");
    assert_eq!(c.get_icon("Something else"), "[*]");
}

#[test]
fn priority_icons() {
    let c = PriorityIconConfig::default();
    assert_eq!(c.get_icon("High"), "!!!");
    assert_eq!(c.get_icon("very low"), "!");
    assert_eq!(c.get_icon("none"), "");
}

#[test]
fn defaults_and_names() {
    assert_eq!(default_ui_heading_level(), 3);
    assert!(default_true());
    assert_eq!(display_name("bob", "Robert"), "bob");
    assert_eq!(display_name("", "Robert"), "Robert");
    assert_eq!(display_name("", ""), "Unknown User");
}

#[test]
fn search_scope() {
    assert!(SearchScope::all().is_all());
    assert!(!SearchScope::all().is_none());
    assert!(SearchScope::default().is_none());
    let s = SearchScope { title: true, description: false, comments: false, spec_id: false };
    assert!(!s.is_all() && !s.is_none());
}

#[test]
fn perspective_relationships() {
    assert_eq!(Perspective::Flat.relationship_types(), None);
    assert_eq!(
        Perspective::Verification.relationship_types(),
        Some((RelationshipType::Verifies, RelationshipType::VerifiedBy))
    );
}

#[test]
fn view_preset_filters() {
    let p = ViewPreset::new(
        "mine".to_string(),
        Perspective::Flat,
        PerspectiveDirection::TopDown,
        &vec![RequirementType::System, RequirementType::User],
        &vec!["A".to_string(), "B".to_string(), "A".to_string()],
        &vec![],
        &vec![],
        &vec![],
        &vec!["X".to_string()],
        false,
    );
    assert_eq!(p.filter_types, vec!["System".to_string(), "User".to_string()]);
    let mut feats = p.get_filter_features();
    feats.sort();
    assert_eq!(feats, vec!["A".to_string(), "B".to_string()]);
    assert_eq!(p.get_child_filter_prefixes(), vec!["X".to_string()]);
    assert!(p.get_filter_prefixes().is_empty());
    assert!(p.get_child_filter_features().is_empty());
    let types = p.get_filter_types();
    assert_eq!(types.len(), 2);
    assert!(types.contains(&RequirementType::System) && types.contains(&RequirementType::User));
    let parsed = ViewPreset::parse_types(&vec!["User".to_string(), "Bogus".to_string(), "User".to_string()]);
    assert_eq!(parsed, vec![RequirementType::User]);
    assert!(p.get_child_filter_types().is_empty());
}

#[test]
fn hex_colors() {
    assert_eq!(parse_hex_color("#ff6b6b"), Some(ThemeColor::new(255, 107, 107)));
    assert_eq!(parse_hex_color("  ##00FF0a "), Some(ThemeColor::new(0, 255, 10)));
    assert_eq!(parse_hex_color("+f+f+f"), Some(ThemeColor::new(15, 15, 15)));
    assert_eq!(parse_hex_color("12345"), None);
    assert_eq!(parse_hex_color("gg0000"), None);
    assert_eq!(parse_hex_color("\u{e9}1234"), None);
    assert_eq!(parse_hex_color("#ff6b6b00"), None);
}

#[test]
fn themes_cycle_through_builtins_then_custom() {
    let none: Vec<String> = vec![];
    let customs = vec!["Ocean".to_string(), "Forest".to_string()];
    assert_eq!(ThemeName::BuiltIn(BuiltInTheme::Dark).cycle_theme(&none), ThemePick::BuiltIn(BuiltInTheme::Light));
    assert_eq!(ThemeName::BuiltIn(BuiltInTheme::Nord).cycle_theme(&none), ThemePick::BuiltIn(BuiltInTheme::Dark));
    assert_eq!(ThemeName::BuiltIn(BuiltInTheme::Nord).cycle_theme(&customs), ThemePick::Custom(0));
    assert_eq!(ThemeName::Custom("Ocean".to_string()).cycle_theme(&customs), ThemePick::Custom(1));
    assert_eq!(ThemeName::Custom("Forest".to_string()).cycle_theme(&customs), ThemePick::BuiltIn(BuiltInTheme::Dark));
    assert_eq!(ThemeName::Custom("Gone".to_string()).cycle_theme(&customs), ThemePick::BuiltIn(BuiltInTheme::Dark));
    assert_eq!(ThemeName::BuiltIn(BuiltInTheme::SolarizedDark).next(), BuiltInTheme::Nord);
    assert_eq!(ThemeName::Custom("x".to_string()).next(), BuiltInTheme::Dark);
    assert_eq!(ThemeName::Custom("Ocean".to_string()).label(), "Custom: Ocean");
    assert_eq!(ThemeName::BuiltIn(BuiltInTheme::HighContrastDark).label(), "High Contrast Dark");
}

#[test]
fn key_context_follows_the_view() {
    assert_eq!(key_context_for(MainView::List, false, false), KeyContext::RequirementsList);
    assert_eq!(key_context_for(MainView::Detail, false, false), KeyContext::DetailView);
    assert_eq!(key_context_for(MainView::Detail, true, false), KeyContext::Form);
    assert_eq!(key_context_for(MainView::List, false, true), KeyContext::Form);
    assert_eq!(key_context_for(MainView::Edit, false, false), KeyContext::Form);
}

#[test]
fn icon_tables_are_edited_like_maps() {
    let mut cfg = StatusIconConfig { icons: vec![], default_icon: "[*]".to_string() };
    assert!(!cfg.add_status_icon("", "X"));
    assert!(cfg.add_status_icon("Blocked", ""));
    assert!(cfg.add_status_icon("waiting", "[w]"));
    assert!(cfg.add_status_icon("BLOCKED", "[b]"));
    assert_eq!(
        cfg.icons,
        vec![("blocked".to_string(), "[b]".to_string()), ("waiting".to_string(), "[w]".to_string())]
    );
    assert_eq!(sorted_keywords(&StatusIconConfig::default().icons)[0], "approved");
    remove_icon_entry(&mut cfg.icons, "blocked");
    assert_eq!(cfg.icons, vec![("waiting".to_string(), "[w]".to_string())]);
    let mut table = vec![("b".to_string(), "1".to_string()), ("a".to_string(), "2".to_string())];
    set_icon_entry(&mut table, "c".to_string(), "3".to_string());
    assert_eq!(sorted_keywords(&table), vec!["a".to_string(), "b".to_string(), "c".to_string()]);
}
