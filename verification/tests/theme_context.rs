use dampen_core::ir::name_map::NameMap;
use dampen_core::ir::theme::{Theme, ThemeDocument, ThemeErrorKind};
use dampen_core::state::ThemeContext;

fn create_test_theme(name: &str) -> Theme {
    Theme { name: name.to_string(), extends: None }
}

fn themes_of(list: Vec<Theme>) -> NameMap<Theme> {
    let mut themes = NameMap::new();
    for t in list {
        themes.insert(t.name.clone(), t);
    }
    themes
}

fn create_test_document() -> ThemeDocument {
    ThemeDocument {
        themes: themes_of(vec![create_test_theme("light"), create_test_theme("dark")]),
        default_theme: Some("light".to_string()),
        follow_system: true,
    }
}

#[test]
fn test_from_document_with_system_preference() {
    let doc = create_test_document();
    let ctx = ThemeContext::from_document(doc, Some("dark")).unwrap();

    assert_eq!(ctx.active_name(), "dark");
}

#[test]
fn test_from_document_without_system_preference() {
    let doc = create_test_document();
    let ctx = ThemeContext::from_document(doc, None).unwrap();

    assert_eq!(ctx.active_name(), "light");
}

#[test]
fn test_set_theme() {
    let doc = create_test_document();
    let mut ctx = ThemeContext::from_document(doc, None).unwrap();

    assert_eq!(ctx.active_name(), "light");

    ctx.set_theme("dark").unwrap();
    assert_eq!(ctx.active_name(), "dark");

    assert!(ctx.set_theme("nonexistent").is_err());
}

#[test]
fn test_update_system_preference() {
    let doc = create_test_document();
    let mut ctx = ThemeContext::from_document(doc, None).unwrap();

    assert_eq!(ctx.active_name(), "light");

    ctx.update_system_preference("dark");
    assert_eq!(ctx.active_name(), "dark");

    ctx.update_system_preference("light");
    assert_eq!(ctx.active_name(), "light");

    ctx.set_follow_system(false);
    ctx.update_system_preference("dark");
    assert_eq!(ctx.active_name(), "light");
}

#[test]
fn test_reload() {
    let doc = create_test_document();
    let mut ctx = ThemeContext::from_document(doc, None).unwrap();

    assert_eq!(ctx.active_name(), "light");

    let mut new_doc = create_test_document();
    new_doc.default_theme = Some("dark".to_string());
    new_doc.themes.remove("light");

    ctx.reload(new_doc);
    assert_eq!(ctx.active_name(), "dark");
}

#[test]
fn test_inheritance_resolution() {
    let base = create_test_theme("base");
    let mut derived = create_test_theme("derived");
    derived.extends = Some("base".to_string());

    let doc = ThemeDocument {
        themes: themes_of(vec![base, derived]),
        default_theme: Some("derived".to_string()),
        follow_system: false,
    };

    assert!(doc.inheritance_ends());
    let resolved = doc.resolve_inheritance();
    let derived_lineage = resolved.iter().find(|(k, _)| k == "derived").unwrap();
    assert_eq!(derived_lineage.1, vec!["derived".to_string(), "base".to_string()]);
    let base_lineage = resolved.iter().find(|(k, _)| k == "base").unwrap();
    assert_eq!(base_lineage.1, vec!["base".to_string()]);

    let ctx = ThemeContext::from_document(doc, None).unwrap();
    let active = ctx.active();
    assert_eq!(active.name, "derived");
    assert_eq!(active.extends.as_deref(), Some("base"));
}

#[test]
fn from_document_without_themes_fails() {
    let doc = ThemeDocument { themes: NameMap::new(), default_theme: None, follow_system: false };
    let err = ThemeContext::from_document(doc, None).unwrap_err();
    assert_eq!(err.kind, ThemeErrorKind::NoThemesDefined);
    assert_eq!(err.message, "THEME_001: Cannot create ThemeContext with no themes");
}

#[test]
fn from_document_with_missing_default_fails() {
    let mut doc = create_test_document();
    doc.default_theme = Some("sepia".to_string());
    doc.follow_system = false;
    let err = ThemeContext::from_document(doc, Some("dark")).unwrap_err();
    assert_eq!(err.kind, ThemeErrorKind::ThemeNotFound);
    assert_eq!(err.message, "THEME_006: Active theme 'sepia' not found in document");
}

#[test]
fn from_document_prefers_stored_user_preference() {
    let mut doc = create_test_document();
    doc.themes.insert("user_preference".to_string(), create_test_theme("dark"));
    let ctx = ThemeContext::from_document(doc, Some("light")).unwrap();
    assert_eq!(ctx.active_name(), "dark");
}

#[test]
fn user_choice_outlasts_system_preference() {
    let mut ctx = ThemeContext::from_document(create_test_document(), None).unwrap();
    ctx.set_theme("dark").unwrap();
    ctx.update_system_preference("light");
    assert_eq!(ctx.active_name(), "dark");
    let err = ctx.set_theme("sepia").unwrap_err();
    assert_eq!(err.kind, ThemeErrorKind::ThemeNotFound);
    assert_eq!(err.message, "THEME_006: Theme 'sepia' not found");
    assert_eq!(ctx.active_name(), "dark");
}

#[test]
fn turning_on_system_following_applies_known_preference() {
    let mut doc = create_test_document();
    doc.follow_system = false;
    let mut ctx = ThemeContext::from_document(doc, None).unwrap();
    ctx.update_system_preference("dark");
    assert_eq!(ctx.active_name(), "light");
    assert!(!ctx.follow_system());
    ctx.set_follow_system(true);
    assert!(ctx.follow_system());
    assert_eq!(ctx.active_name(), "dark");
}

#[test]
fn available_themes_and_has_theme() {
    let ctx = ThemeContext::from_document(create_test_document(), None).unwrap();
    let mut names = ctx.available_themes();
    names.sort();
    assert_eq!(names, vec!["dark", "light"]);
    assert!(ctx.has_theme("dark"));
    assert!(!ctx.has_theme("sepia"));
}

#[test]
fn reload_keeps_active_theme_when_present() {
    let mut ctx = ThemeContext::from_document(create_test_document(), None).unwrap();
    ctx.set_theme("dark").unwrap();
    let mut new_doc = create_test_document();
    new_doc.themes.insert("sepia".to_string(), create_test_theme("sepia"));
    ctx.reload(new_doc);
    assert_eq!(ctx.active_name(), "dark");
    assert!(ctx.has_theme("sepia"));
}
