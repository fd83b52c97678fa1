use dampen_core::ir::theme::{FontWeight, StateSelector, WidgetState};

#[test]
fn test_widget_state_from_prefix_hover() {
    assert_eq!(WidgetState::from_prefix("hover"), Some(WidgetState::Hover));
}

#[test]
fn test_widget_state_from_prefix_focus() {
    assert_eq!(WidgetState::from_prefix("focus"), Some(WidgetState::Focus));
}

#[test]
fn test_widget_state_from_prefix_active() {
    assert_eq!(WidgetState::from_prefix("active"), Some(WidgetState::Active));
}

#[test]
fn test_widget_state_from_prefix_disabled() {
    assert_eq!(WidgetState::from_prefix("disabled"), Some(WidgetState::Disabled));
}

#[test]
fn test_widget_state_from_prefix_case_insensitive() {
    assert_eq!(WidgetState::from_prefix("HOVER"), Some(WidgetState::Hover));
    assert_eq!(WidgetState::from_prefix("Focus"), Some(WidgetState::Focus));
    assert_eq!(WidgetState::from_prefix("AcTiVe"), Some(WidgetState::Active));
}

#[test]
fn test_widget_state_from_prefix_invalid() {
    assert_eq!(WidgetState::from_prefix("unknown"), None);
    assert_eq!(WidgetState::from_prefix("pressed"), None);
    assert_eq!(WidgetState::from_prefix(""), None);
}

#[test]
fn test_widget_state_from_prefix_with_whitespace() {
    assert_eq!(WidgetState::from_prefix("  hover  "), Some(WidgetState::Hover));
}

#[test]
fn font_weight_parse_and_css() {
    assert_eq!(FontWeight::parse("bold").map(|w| w.to_css()), Ok(700));
    assert_eq!(FontWeight::parse(" Normal ").map(|w| w.to_css()), Ok(400));
    assert!(FontWeight::parse("heavy").is_err());
}

#[test]
fn state_selector_combined_matches_and_specificity() {
    let sel = StateSelector::combined(vec![WidgetState::Focus, WidgetState::Hover, WidgetState::Hover]);
    assert_eq!(sel.specificity(), 2);
    assert!(sel.matches(&[WidgetState::Hover, WidgetState::Focus]));
    assert!(!sel.matches(&[WidgetState::Hover]));
    let single = StateSelector::single(WidgetState::Disabled);
    assert_eq!(single.specificity(), 1);
    assert!(single.matches(&[WidgetState::Disabled, WidgetState::Hover]));
    assert!(!single.matches(&[]));
}

use dampen_core::ir::name_map::NameMap;
use dampen_core::ir::theme::{join_strings, Theme, ThemeDocument, ThemeErrorKind};

fn theme(name: &str, extends: Option<&str>) -> Theme {
    Theme { name: name.to_string(), extends: extends.map(|s| s.to_string()) }
}

fn document(list: Vec<Theme>) -> ThemeDocument {
    let mut themes = NameMap::new();
    for t in list {
        themes.insert(t.name.clone(), t);
    }
    ThemeDocument { themes, default_theme: None, follow_system: false }
}

#[test]
fn join_strings_puts_separator_between() {
    let parts = vec!["a".to_string(), "b".to_string(), "c".to_string()];
    assert_eq!(join_strings(&parts, " → "), "a → b → c");
    assert_eq!(join_strings(&Vec::new(), ", "), "");
    assert_eq!(join_strings(&vec!["x".to_string()], ", "), "x");
}

#[test]
fn inheritance_chain_within_depth_validates() {
    let doc = document(vec![
        theme("base", None),
        theme("a", Some("base")),
        theme("b", Some("a")),
    ]);
    assert!(doc.validate_inheritance().is_ok());
    assert!(doc.inheritance_ends());
    let mut visited = Vec::new();
    assert!(doc.themes.get("b").unwrap().validate_inheritance(&doc.themes, &mut visited).is_ok());
    assert!(visited.is_empty());
}

#[test]
fn inheritance_missing_parent_is_reported() {
    let doc = document(vec![theme("a", Some("ghost"))]);
    let err = doc.validate_inheritance().unwrap_err();
    assert_eq!(err.kind, ThemeErrorKind::ThemeNotFound);
    assert_eq!(err.message, "THEME_006: Parent theme 'ghost' not found for theme 'a'");
    assert!(doc.inheritance_ends());
    let resolved = doc.resolve_inheritance();
    assert_eq!(resolved, vec![("a".to_string(), vec!["a".to_string()])]);
}

#[test]
fn inheritance_cycle_is_reported() {
    let doc = document(vec![theme("a", Some("b")), theme("b", Some("a"))]);
    let err = doc.validate_inheritance().unwrap_err();
    assert_eq!(err.kind, ThemeErrorKind::CircularInheritance);
    assert!(err.message.starts_with("THEME_007: Circular theme inheritance detected: "));
    assert!(!doc.inheritance_ends());

    let mut visited = Vec::new();
    let err = doc.themes.get("a").unwrap().validate_inheritance(&doc.themes, &mut visited).unwrap_err();
    assert_eq!(err.message, "THEME_007: Circular theme inheritance detected: a → a");
    assert_eq!(visited, vec!["a".to_string()]);
}

#[test]
fn inheritance_too_deep_is_reported() {
    let doc = document(vec![
        theme("t0", None),
        theme("t1", Some("t0")),
        theme("t2", Some("t1")),
        theme("t3", Some("t2")),
        theme("t4", Some("t3")),
        theme("t5", Some("t4")),
        theme("t6", Some("t5")),
    ]);
    let mut visited = Vec::new();
    let err = doc.themes.get("t6").unwrap().validate_inheritance(&doc.themes, &mut visited).unwrap_err();
    assert_eq!(err.kind, ThemeErrorKind::ExceedsMaxDepth);
    assert_eq!(err.message, "THEME_008: Theme inheritance depth exceeds 5 levels for 't1'");
    let mut visited = Vec::new();
    assert!(doc.themes.get("t5").unwrap().validate_inheritance(&doc.themes, &mut visited).is_ok());
    assert!(doc.inheritance_ends());
}

#[test]
fn effective_default_priorities() {
    let mut doc = document(vec![theme("light", None), theme("dark", None)]);
    assert_eq!(doc.effective_default(Some("dark")), "light");
    doc.follow_system = true;
    assert_eq!(doc.effective_default(Some("dark")), "dark");
    assert_eq!(doc.effective_default(Some("sepia")), "light");
    doc.default_theme = Some("dark".to_string());
    assert_eq!(doc.effective_default(None), "dark");
}

#[test]
fn validate_names_rules() {
    let empty = document(vec![]);
    let err = empty.validate_names().unwrap_err();
    assert_eq!(err.kind, ThemeErrorKind::NoThemesDefined);
    assert_eq!(err.message, "THEME_001: At least one theme must be defined in theme.dampen");

    let mut doc = document(vec![theme("light", None)]);
    assert!(doc.validate_names().is_ok());
    doc.default_theme = Some("dark".to_string());
    let err = doc.validate_names().unwrap_err();
    assert_eq!(err.kind, ThemeErrorKind::InvalidDefaultTheme);
    assert_eq!(err.message, "THEME_002: Default theme 'dark' not found. Available: light");
}

use dampen_core::ir::theme::StyleClass;

fn class(name: &str, extends: &[&str]) -> StyleClass {
    StyleClass { name: name.to_string(), extends: extends.iter().map(|s| s.to_string()).collect() }
}

fn classes(list: Vec<StyleClass>) -> NameMap<StyleClass> {
    let mut m = NameMap::new();
    for c in list {
        m.insert(c.name.clone(), c);
    }
    m
}

#[test]
fn style_class_cycle_is_reported_with_path() {
    let all = classes(vec![class("a", &["b"]), class("b", &["c"]), class("c", &["a"])]);
    let err = all.get("a").unwrap().check_circular_dependency(&all).unwrap_err();
    assert_eq!(err, "Circular style class dependency detected: a → b → c → a");
    let acyclic = classes(vec![class("a", &["b", "c"]), class("b", &["c"]), class("c", &[])]);
    assert!(acyclic.get("a").unwrap().check_circular_dependency(&acyclic).is_ok());
}

#[test]
fn style_class_depth_limit() {
    let all = classes(vec![
        class("c0", &[]),
        class("c1", &["c0"]),
        class("c2", &["c1"]),
        class("c3", &["c2"]),
        class("c4", &["c3"]),
        class("c5", &["c4"]),
        class("c6", &["c5"]),
    ]);
    assert!(all.get("c5").unwrap().check_inheritance_depth(&all, 0).is_ok());
    let err = all.get("c6").unwrap().check_inheritance_depth(&all, 0).unwrap_err();
    assert_eq!(err, "Style class inheritance depth exceeds 5 levels (class: c0)");
}

#[test]
fn style_class_missing_parent() {
    let all = classes(vec![class("a", &["b", "ghost", "other"]), class("b", &[])]);
    let err = all.get("a").unwrap().check_parents_exist(&all).unwrap_err();
    assert_eq!(err, "Parent class 'ghost' not found");
    assert!(all.get("b").unwrap().check_parents_exist(&all).is_ok());
}
