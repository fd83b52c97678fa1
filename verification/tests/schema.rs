use dampen_core::ir::node::WidgetKind;
use dampen_core::schema::get_widget_schema;

#[test]
fn test_button_schema_contains_expected_attributes() {
    let schema = WidgetKind::Button.schema();
    let valid = schema.all_valid();

    assert!(valid.contains(&"on_click"));
    assert!(valid.contains(&"label"));
    assert!(valid.contains(&"width"));
    assert!(valid.contains(&"background"));
}

#[test]
fn test_container_schema_includes_layout_attributes() {
    let schema = WidgetKind::Container.schema();
    let valid = schema.all_valid();

    assert!(valid.contains(&"padding"));
    assert!(valid.contains(&"align_x"));
    assert!(valid.contains(&"width"));
}

#[test]
fn test_textinput_schema_includes_size() {
    let schema = WidgetKind::TextInput.schema();
    let valid = schema.all_valid();

    assert!(valid.contains(&"size"));
    assert!(valid.contains(&"placeholder"));
}

#[test]
fn test_custom_widget_returns_permissive_schema() {
    let schema = WidgetKind::Custom("MyWidget".to_string()).schema();
    assert!(schema.required.is_empty());
}

#[test]
fn test_all_widget_kinds_have_schema() {
    let kinds = [
        WidgetKind::Column,
        WidgetKind::Row,
        WidgetKind::Text,
        WidgetKind::Button,
        WidgetKind::Image,
    ];

    for kind in kinds {
        let _ = kind.schema();
    }
}

#[test]
fn schema_lists_and_names() {
    let text = get_widget_schema(&WidgetKind::Text);
    assert_eq!(text.required, vec!["value"]);
    assert!(text.events.contains(&"on_click"));
    let names = text.all_valid_names();
    assert_eq!(names.len(), 1 + 3 + 9 + 14 + 24);
    assert_eq!(names[0], "value");
    let set = text.all_valid();
    // "color" is both an optional and a style attribute: listed once.
    assert_eq!(set.len(), names.len() - 1);
    let tooltip = get_widget_schema(&WidgetKind::Tooltip);
    assert!(tooltip.layout_attributes.is_empty());
}

#[test]
fn widget_kind_metadata() {
    assert_eq!(WidgetKind::all_standard().len(), 25);
    assert_eq!(WidgetKind::all_standard()[0], "column");
    assert!(WidgetKind::Custom("x".to_string()).is_custom());
    assert!(!WidgetKind::Row.is_custom());
    assert_eq!(WidgetKind::Canvas.minimum_version().minor, 1);
    assert_eq!(WidgetKind::Text.minimum_version().minor, 0);
}
