use dampen_core::ir::node::{AttributeValue, EventKind, InterpolatedPart, WidgetKind};
use dampen_core::ir::theme::WidgetState;
use dampen_core::ir::{Breakpoint, SchemaVersion, Span};
use dampen_core::parser::document::{parse, validate_widget_versions};
use dampen_core::parser::includes::validate_no_circular_dependencies;
use dampen_core::parser::values::{
    calculate_line_col, checked_line_col, parse_attribute_value, parse_comma_separated,
};
use dampen_core::parser::version::{
    parse_version_string, validate_version_supported, validate_widget_versions_strict,
};
use dampen_core::parser::ParseErrorKind;
use std::collections::HashSet;
use std::path::PathBuf;

#[test]
fn test_no_circular_dependencies_without_includes() {
    let file_path = PathBuf::from("test.dampen");
    let mut visited = HashSet::new();

    let result = validate_no_circular_dependencies(&file_path, &mut visited);
    assert!(result.is_ok(), "Single file should have no circular dependencies");
}

#[test]
fn test_parse_single_state_attribute() {
    let xml = r##"
            <dampen version="1.0" xmlns:hover="urn:dampen:state:hover">
                <button label="Click" hover:background="#ff0000" />
            </dampen>
        "##;

    let result = parse(xml);
    assert!(result.is_ok(), "Should parse valid XML with hover state");

    let doc = result.unwrap();
    let button = &doc.root;

    let hover = button.inline_state_attributes.get(WidgetState::Hover);
    assert!(!hover.is_empty(), "Should have hover state variant");
    assert!(hover.contains_key("background"), "Hover state should have background");
}

#[test]
fn test_parse_multiple_state_attributes() {
    let xml = r##"
            <dampen version="1.0"
                xmlns:hover="urn:dampen:state:hover"
                xmlns:active="urn:dampen:state:active"
                xmlns:disabled="urn:dampen:state:disabled">
                <button
                    label="Click"
                    hover:background="#ff0000"
                    active:background="#00ff00"
                    disabled:opacity="0.5"
                />
            </dampen>
        "##;

    let result = parse(xml);
    assert!(result.is_ok(), "Should parse valid XML with multiple states");

    let doc = result.unwrap();
    let button = &doc.root;
    let states = &button.inline_state_attributes;

    assert!(!states.get(WidgetState::Hover).is_empty(), "Should have hover state");
    assert!(!states.get(WidgetState::Active).is_empty(), "Should have active state");
    assert!(!states.get(WidgetState::Disabled).is_empty(), "Should have disabled state");
    assert!(states.get(WidgetState::Hover).contains_key("background"));
    assert!(states.get(WidgetState::Active).contains_key("background"));
    assert!(states.get(WidgetState::Disabled).contains_key("opacity"));
}

#[test]
fn test_parse_invalid_state_prefix() {
    let xml = r##"
            <dampen version="1.0" xmlns:unknown="urn:dampen:state:unknown">
                <button label="Click" unknown:background="#ff0000" />
            </dampen>
        "##;

    let result = parse(xml);
    assert!(result.is_ok(), "Should parse with warning for invalid state");

    let doc = result.unwrap();
    let button = &doc.root;
    let states = &button.inline_state_attributes;

    assert!(states.get(WidgetState::Hover).is_empty());
    assert!(states.get(WidgetState::Focus).is_empty());
    assert!(states.get(WidgetState::Active).is_empty());
    assert!(states.get(WidgetState::Disabled).is_empty());
    assert!(button.attributes.contains_key("unknown:background"));
}

#[test]
fn test_widget_node_default_has_empty_inline_state_variants() {
    let node = dampen_core::ir::node::WidgetNode::default();
    for st in [WidgetState::Hover, WidgetState::Focus, WidgetState::Active, WidgetState::Disabled] {
        assert!(node.inline_state_attributes.get(st).is_empty());
    }
}

#[test]
fn test_widget_node_inline_state_variants_multiple_states() {

    let mut node = dampen_core::ir::node::WidgetNode::default();
    node.inline_state_attributes.insert(WidgetState::Hover, "opacity".to_string(), AttributeValue::Static("0.9".to_string()));
    node.inline_state_attributes.insert(WidgetState::Active, "opacity".to_string(), AttributeValue::Static("0.7".to_string()));
    node.inline_state_attributes.insert(WidgetState::Disabled, "opacity".to_string(), AttributeValue::Static("0.5".to_string()));

    let set = [WidgetState::Hover, WidgetState::Focus, WidgetState::Active, WidgetState::Disabled]
        .iter()
        .filter(|st| !node.inline_state_attributes.get(**st).is_empty())
        .count();
    assert_eq!(set, 3);
    assert!(node.inline_state_attributes.get(WidgetState::Hover).contains_key("opacity"));
    assert!(node.inline_state_attributes.get(WidgetState::Active).contains_key("opacity"));
    assert!(node.inline_state_attributes.get(WidgetState::Disabled).contains_key("opacity"));
}

#[test]
fn parse_simple_document() {
    let xml = r#"<dampen><column><text value="Hello" /></column></dampen>"#;
    let doc = parse(xml).unwrap();
    assert_eq!(doc.root.kind, WidgetKind::Column);
    assert_eq!(doc.root.children.len(), 1);
    assert_eq!(doc.root.children[0].kind, WidgetKind::Text);
    assert_eq!(doc.version, SchemaVersion { major: 1, minor: 0 });
    assert!(doc.follow_system);
}

#[test]
fn parse_widget_without_wrapper() {
    let xml = r#"<row id="r1" class="a  b"><button label="{count}" on_click="inc" /></row>"#;
    let doc = parse(xml).unwrap();
    assert_eq!(doc.root.kind, WidgetKind::Row);
    assert_eq!(doc.root.id, Some("r1".to_string()));
    assert_eq!(doc.root.classes, vec!["a".to_string(), "b".to_string()]);
    let button = &doc.root.children[0];
    assert!(matches!(button.attributes.get("label"), Some(AttributeValue::Binding(_))));
    assert_eq!(button.events.len(), 1);
    assert_eq!(button.events[0].event, EventKind::Click);
    assert_eq!(button.events[0].handler, "inc");
    assert!(button.events[0].param.is_none());
}

#[test]
fn parse_event_parameters() {
    let xml = r#"<column><button on_click="delete:{item.id}" /><button on_click="pick:'red'" /></column>"#;
    let doc = parse(xml).unwrap();
    let b0 = &doc.root.children[0].events[0];
    assert_eq!(b0.handler, "delete");
    assert!(b0.param.is_some());
    let b1 = &doc.root.children[1].events[0];
    assert_eq!(b1.handler, "pick");
    let p = b1.param.as_ref().unwrap();
    assert_eq!(p.span, Span::new(5, 10, 1, 5));
}

#[test]
fn parse_canvas_click_event_kind() {
    let xml = r#"<dampen version="1.1"><canvas on_click="tap" /></dampen>"#;
    let doc = parse(xml).unwrap();
    assert_eq!(doc.root.events[0].event, EventKind::CanvasClick);
}

#[test]
fn parse_breakpoint_attributes() {
    let xml = r#"<column mobile-spacing="4" spacing="8" />"#;
    let doc = parse(xml).unwrap();
    assert!(doc.root.breakpoint_attributes.get(Breakpoint::Mobile).contains_key("spacing"));
    assert!(doc.root.attributes.contains_key("spacing"));
    assert!(!doc.root.attributes.contains_key("mobile-spacing"));
}

#[test]
fn parse_errors() {
    let err = parse(r#"<unknown_widget />"#).unwrap_err();
    assert_eq!(err.kind, ParseErrorKind::UnknownWidget);
    assert_eq!(err.message, "Unknown widget: unknown_widget");

    let err = parse(r#"<column"#).unwrap_err();
    assert_eq!(err.kind, ParseErrorKind::XmlSyntax);

    let err = parse(r#"<dampen><column/><row/></dampen>"#).unwrap_err();
    assert_eq!(err.kind, ParseErrorKind::XmlSyntax);
    assert_eq!(err.message, "Multiple root widgets found in <dampen>");

    let err = parse(r#"<dampen></dampen>"#).unwrap_err();
    assert_eq!(err.message, "No root widget found in <dampen>");

    let err = parse(r#"<tooltip message="m"></tooltip>"#).unwrap_err();
    assert_eq!(err.message, "Tooltip widget must have exactly one child widget");

    let err = parse(r#"<grid columns="30" />"#).unwrap_err();
    assert_eq!(err.message, "columns for Grid columns must be between 1 and 20, found 30");

    let err = parse(r#"<for each="x" />"#).unwrap_err();
    assert_eq!(err.kind, ParseErrorKind::MissingAttribute);
    assert_eq!(err.message, "For widget requires 'in' attribute");

    let err = parse(r#"<pick_list options="  " />"#).unwrap_err();
    assert_eq!(err.message, "PickList widget requires 'options' attribute to be non-empty");

    let err = parse(r#"<text value="{1 +}" />"#).unwrap_err();
    assert_eq!(err.kind, ParseErrorKind::InvalidExpression);
}

#[test]
fn parse_canvas_rules() {
    let err = parse(r#"<dampen version="1.1"><canvas program="{p}"><rect/></canvas></dampen>"#).unwrap_err();
    assert_eq!(err.message, "Canvas cannot have both a 'program' attribute and child shapes");
    let err = parse(r#"<dampen version="1.1"><canvas><text value="x"/></canvas></dampen>"#).unwrap_err();
    assert_eq!(err.kind, ParseErrorKind::InvalidChild);
    assert_eq!(
        err.message,
        "Invalid child for Canvas: Text. Only shapes (rect, circle, line, text, group) are allowed."
    );
    assert!(parse(r#"<dampen version="1.1"><canvas><group><rect/></group></canvas></dampen>"#).is_ok());
}

#[test]
fn parse_version_rules() {
    let doc = parse(r#"<dampen version="1.0"><canvas /></dampen>"#).unwrap();
    assert_eq!(validate_widget_versions(&doc).len(), 1);
    let err = parse(r#"<dampen version="2.0"><column /></dampen>"#).unwrap_err();
    assert_eq!(err.message, "Schema version 2.0 is not supported. Maximum supported version: 1.1");
}

#[test]
fn parse_themes_only_document() {
    let xml = r#"<dampen><themes><theme name="dark"/><theme name="dark"/><theme/></themes><global_theme name="dark"/><follow_system enabled="false"/></dampen>"#;
    let doc = parse(xml).unwrap();
    assert_eq!(doc.themes, vec!["dark".to_string(), "default".to_string()]);
    assert_eq!(doc.global_theme, Some("dark".to_string()));
    assert!(!doc.follow_system);
    assert_eq!(doc.root.kind, WidgetKind::Column);
    assert!(doc.root.children.is_empty());
}

#[test]
fn version_strings() {
    let span = Span::new(0, 0, 1, 1);
    assert_eq!(parse_version_string(" 1.0 ", span).unwrap(), SchemaVersion { major: 1, minor: 0 });
    assert_eq!(parse_version_string("2.15", span).unwrap(), SchemaVersion { major: 2, minor: 15 });
    let err = parse_version_string("", span).unwrap_err();
    assert_eq!(err.message, "Version attribute cannot be empty");
    let err = parse_version_string("1.0.0", span).unwrap_err();
    assert_eq!(err.message, "Invalid version format '1.0.0'. Expected 'major.minor' (e.g., '1.0')");
    assert!(parse_version_string("1.x", span).is_err());
    assert!(parse_version_string("70000.1", span).is_err());
    assert!(validate_version_supported(&SchemaVersion { major: 1, minor: 1 }, span).is_ok());
    let err = validate_version_supported(&SchemaVersion { major: 1, minor: 2 }, span).unwrap_err();
    assert_eq!(err.suggestion, Some("Upgrade dampen-core to support v1.2, or use version=\"1.1\"".to_string()));
}

#[test]
fn widget_version_warnings() {
    let doc = parse(r#"<dampen version="1.1"><column><canvas/></column></dampen>"#).unwrap();
    assert!(validate_widget_versions(&doc).is_empty());
    let mut older = doc;
    older.version = SchemaVersion { major: 1, minor: 0 };
    let warnings = validate_widget_versions(&older);
    assert_eq!(warnings.len(), 1);
    assert_eq!(warnings[0].widget_kind, WidgetKind::Canvas);
    assert_eq!(warnings[0].format_message(), "Widget 'canvas' requires schema v1.1 but document declares v1.0");
    assert_eq!(warnings[0].suggestion(), "Update to <dampen version=\"1.1\"> or remove this widget");
}

#[test]
fn attribute_values() {
    let span = Span::new(10, 20, 2, 3);
    assert_eq!(parse_attribute_value("plain", span).unwrap(), AttributeValue::Static("plain".to_string()));
    match parse_attribute_value("{count}", span).unwrap() {
        AttributeValue::Binding(b) => assert_eq!(b.span, Span::new(11, 16, 2, 4)),
        other => panic!("unexpected {:?}", other),
    }
    match parse_attribute_value("Total: {n} items", span).unwrap() {
        AttributeValue::Interpolated(parts) => {
            assert_eq!(parts.len(), 3);
            assert_eq!(parts[0], InterpolatedPart::Literal("Total: ".to_string()));
            assert_eq!(parts[2], InterpolatedPart::Literal(" items".to_string()));
        },
        other => panic!("unexpected {:?}", other),
    }
    // An unclosed brace after a binding leaves the rest as a literal, twice.
    match parse_attribute_value("{a}{b", span).unwrap() {
        AttributeValue::Interpolated(parts) => {
            assert_eq!(parts.len(), 3);
            assert_eq!(parts[1], InterpolatedPart::Literal("{b".to_string()));
            assert_eq!(parts[2], InterpolatedPart::Literal("{b".to_string()));
        },
        other => panic!("unexpected {:?}", other),
    }
    let err = parse_attribute_value("{1 +}", span).unwrap_err();
    assert_eq!(err.kind, ParseErrorKind::InvalidExpression);
    assert_eq!(err.span, Span::new(11, 14, 2, 4));
}

#[test]
fn comma_lists_and_positions() {
    assert_eq!(parse_comma_separated(" a, b ,,c "), vec!["a".to_string(), "b".to_string(), "c".to_string()]);
    assert!(parse_comma_separated("").is_empty());
    assert_eq!(calculate_line_col("ab\ncd", 0), (1, 1));
    assert_eq!(calculate_line_col("ab\ncd", 4), (2, 2));
    assert_eq!(calculate_line_col("ab\ncd", 100), (2, 3));
    assert_eq!(checked_line_col("ab\ncd", 4), Some((2, 2)));
    assert_eq!(checked_line_col("ab\ncd", 100), Some((2, 3)));
}

#[test]
fn newer_widget_parses_and_warns() {
    let xml = r#"<dampen version="1.0"><canvas width="400" height="200" program="{chart}" /></dampen>"#;
    let doc = parse(xml).unwrap();
    let warnings = validate_widget_versions(&doc);
    assert_eq!(warnings.len(), 1);
    assert_eq!(warnings[0].format_message(), "Widget 'canvas' requires schema v1.1 but document declares v1.0");
}

#[test]
fn strict_check_rejects_newer_widget() {
    let xml = r#"<dampen version="1.0"><column><text value="a" /><canvas width="400" height="200" program="{chart}" /></column></dampen>"#;
    let doc = parse(xml).unwrap();
    let err = validate_widget_versions_strict(&doc.root, doc.version).unwrap_err();
    assert_eq!(err.kind, ParseErrorKind::UnsupportedVersion);
    assert_eq!(err.message, "Widget 'canvas' requires schema v1.1 but document declares v1.0");
    let v11 = SchemaVersion { major: 1, minor: 1 };
    assert!(validate_widget_versions_strict(&doc.root, v11).is_ok());
}

#[test]
fn version_text_round_trips() {
    let span = Span::new(0, 0, 1, 1);
    let v = parse_version_string("12.345", span).unwrap();
    assert_eq!((v.major, v.minor), (12, 345));
    let text = format!("{}.{}", v.major, v.minor);
    let back = parse_version_string(&text, span).unwrap();
    assert_eq!((back.major, back.minor), (12, 345));
}

#[test]
fn standard_tags_are_never_unknown_widgets() {
    for name in WidgetKind::all_standard() {
        let xml = format!("<dampen version=\"1.1\"><{} /></dampen>", name);
        if let Err(e) = parse(&xml) {
            assert_ne!(e.kind, ParseErrorKind::UnknownWidget, "{}", name);
        }
    }
    let err = parse("<dampen version=\"1.1\"><blink /></dampen>").unwrap_err();
    assert_eq!(err.kind, ParseErrorKind::UnknownWidget);
}
