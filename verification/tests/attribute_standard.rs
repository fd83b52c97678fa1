use dampen_core::ir::node::{AttributeMap, AttributeValue, WidgetKind};
use dampen_core::ir::Span;
use dampen_core::parser::attribute_standard::{normalize_attributes, validate_attributes};
use dampen_core::parser::ParseErrorKind;

#[test]
fn test_normalize_image_path_to_src() {
    let mut attributes = AttributeMap::new();
    attributes.insert("path".to_string(), AttributeValue::Static("icon.png".to_string()));

    let warnings = normalize_attributes(&WidgetKind::Image, &mut attributes);

    assert_eq!(warnings.len(), 1);
    assert_eq!(warnings[0], ("path".to_string(), "src".to_string()));
    assert!(attributes.contains_key("src"));
    assert!(!attributes.contains_key("path"));
}

#[test]
fn test_normalize_toggler_active_to_toggled() {
    let mut attributes = AttributeMap::new();
    attributes.insert("active".to_string(), AttributeValue::Static("true".to_string()));

    let warnings = normalize_attributes(&WidgetKind::Toggler, &mut attributes);

    assert_eq!(warnings.len(), 1);
    assert_eq!(warnings[0], ("active".to_string(), "toggled".to_string()));
    assert!(attributes.contains_key("toggled"));
    assert!(!attributes.contains_key("active"));
}

#[test]
fn test_normalize_textinput_secure_to_password() {
    let mut attributes = AttributeMap::new();
    attributes.insert("secure".to_string(), AttributeValue::Static("true".to_string()));

    let warnings = normalize_attributes(&WidgetKind::TextInput, &mut attributes);

    assert_eq!(warnings.len(), 1);
    assert_eq!(warnings[0], ("secure".to_string(), "password".to_string()));
    assert!(attributes.contains_key("password"));
    assert!(!attributes.contains_key("secure"));
}

#[test]
fn test_normalize_no_change_for_standard_attributes() {
    let mut attributes = AttributeMap::new();
    attributes.insert("src".to_string(), AttributeValue::Static("icon.png".to_string()));

    let warnings = normalize_attributes(&WidgetKind::Image, &mut attributes);

    assert_eq!(warnings.len(), 0);
    assert!(attributes.contains_key("src"));
}

#[test]
fn test_normalize_ignores_deprecated_on_wrong_widget() {
    let mut attributes = AttributeMap::new();
    attributes.insert("path".to_string(), AttributeValue::Static("some_path".to_string()));

    let warnings = normalize_attributes(&WidgetKind::Button, &mut attributes);

    assert_eq!(warnings.len(), 0);
    assert!(attributes.contains_key("path"));
}

#[test]
fn normalize_keeps_the_value_under_the_new_name() {
    let mut attributes = AttributeMap::new();
    attributes.insert("is_toggled".to_string(), AttributeValue::Static("yes".to_string()));
    attributes.insert("label".to_string(), AttributeValue::Static("L".to_string()));
    let warnings = normalize_attributes(&WidgetKind::Toggler, &mut attributes);
    assert_eq!(warnings, vec![("is_toggled".to_string(), "toggled".to_string())]);
    assert_eq!(attributes.get("toggled"), Some(&AttributeValue::Static("yes".to_string())));
    assert_eq!(attributes.len(), 2);
}

#[test]
fn validate_attributes_reports_deprecated_name() {
    let mut attributes = AttributeMap::new();
    attributes.insert("secure".to_string(), AttributeValue::Static("true".to_string()));
    let span = Span::new(3, 9, 1, 4);
    let err = validate_attributes(&WidgetKind::TextInput, &attributes, span).unwrap_err();
    assert_eq!(err.kind, ParseErrorKind::DeprecatedAttribute);
    assert_eq!(err.message, "Attribute 'secure' is deprecated for TextInput widgets");
    assert_eq!(err.suggestion, Some("Use 'password' instead: password=\"...\"".to_string()));
    assert_eq!(err.span, span);
    assert!(validate_attributes(&WidgetKind::Button, &attributes, span).is_ok());
}

#[test]
fn attribute_map_insert_get_remove() {
    let mut m = AttributeMap::new();
    assert!(m.is_empty());
    m.insert("a".to_string(), AttributeValue::Static("1".to_string()));
    m.insert("b".to_string(), AttributeValue::Static("2".to_string()));
    m.insert("a".to_string(), AttributeValue::Static("3".to_string()));
    assert_eq!(m.len(), 2);
    assert_eq!(m.get("a"), Some(&AttributeValue::Static("3".to_string())));
    assert_eq!(m.remove("a"), Some(AttributeValue::Static("3".to_string())));
    assert_eq!(m.remove("a"), None);
    assert_eq!(m.len(), 1);
    assert!(!m.contains_key("a"));
    assert!(m.contains_key("b"));
}

#[test]
fn normalized_attributes_pass_validation() {
    let mut attributes = AttributeMap::new();
    attributes.insert("active".to_string(), AttributeValue::Static("true".to_string()));
    attributes.insert("is_toggled".to_string(), AttributeValue::Static("false".to_string()));
    assert!(validate_attributes(&WidgetKind::Toggler, &attributes, Span::default()).is_err());

    let warnings = normalize_attributes(&WidgetKind::Toggler, &mut attributes);
    assert_eq!(warnings.len(), 2);
    assert!(validate_attributes(&WidgetKind::Toggler, &attributes, Span::default()).is_ok());
    assert_eq!(attributes.len(), 1);
    assert!(attributes.contains_key("toggled"));

    let again = normalize_attributes(&WidgetKind::Toggler, &mut attributes);
    assert!(again.is_empty());
    assert_eq!(attributes.len(), 1);
    assert_eq!(attributes.get("toggled"), Some(&AttributeValue::Static("false".to_string())));
}
