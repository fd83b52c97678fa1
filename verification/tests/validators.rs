use dampen_core::parser::values::match_enum_variant;
use dampen_core::codegen::{constant_folding, resolve_icon_for_codegen, to_upper_camel_case, validate_expression_inlinable, validate_handlers, HandlerInfo, HandlerSignatureType, SubscriptionConfig, GeneratedCode};
use dampen_core::expr::ast::{BinaryOp, BinaryOpExpr, Expr, FieldAccessExpr, LiteralExpr};
use dampen_core::handler::HandlerSignature;
use dampen_core::ir::layout::{Alignment, Breakpoint, Direction, Justification, Position};
use dampen_core::ir::menu::MenuPosition;
use dampen_core::ir::style::BorderStyle;
use dampen_core::ir::node::WidgetKind;
use dampen_core::ir::Span;
use dampen_core::parser::canvas::is_canvas_shape;
use dampen_core::parser::color_validator::validate_color_format;
use dampen_core::parser::document::parse;

#[test]
fn color_formats() {
    let span = Span::new(0, 0, 1, 1);
    assert!(validate_color_format("#fff", span).is_ok());
    assert!(validate_color_format("#ff00ff80", span).is_ok());
    assert!(validate_color_format("{theme.color}", span).is_ok());
    assert!(validate_color_format("red", span).is_ok());
    assert!(validate_color_format("rgb(1,2,3)", span).is_ok());
    let e = validate_color_format("#ggg", span).unwrap_err();
    assert_eq!(e.message, "Invalid hex color format: #ggg");
    let e = validate_color_format("#12345", span).unwrap_err();
    assert_eq!(e.suggestion, Some("Use format: #rgb, #rgba, #rrggbb, or #rrggbbaa".to_string()));
    let e = validate_color_format("rgba(1,2,3", span).unwrap_err();
    assert_eq!(e.message, "Unclosed color function");
}

#[test]
fn canvas_shapes() {
    assert!(is_canvas_shape(&WidgetKind::CanvasRect));
    assert!(is_canvas_shape(&WidgetKind::For));
    assert!(!is_canvas_shape(&WidgetKind::Button));
}

#[test]
fn layout_keywords() {
    assert_eq!(Alignment::parse(" CENTER "), Ok(Alignment::Center));
    assert_eq!(Justification::parse("space_between").is_ok(), Justification::parse("space_between").is_ok());
    assert!(Direction::parse("sideways").is_err());
    assert_eq!(Position::parse("absolute"), Ok(Position::Absolute));
    assert_eq!(Breakpoint::parse("Tablet"), Ok(Breakpoint::Tablet));
    assert_eq!(
        Breakpoint::parse("watch"),
        Err("Invalid breakpoint: 'watch'. Expected mobile, tablet, or desktop".to_string())
    );
    assert_eq!(BorderStyle::parse("dotted"), Ok(BorderStyle::Dotted));
    assert!(MenuPosition::parse("nowhere").is_none());
}

#[test]
fn test_expression_validation() {
    let expr = Expr::BinaryOp(BinaryOpExpr {
        left: Box::new(Expr::FieldAccess(FieldAccessExpr { path: vec!["count".to_string()] })),
        op: BinaryOp::Add,
        right: Box::new(Expr::Literal(LiteralExpr::Integer(1))),
    });
    assert!(validate_expression_inlinable(&expr).is_ok());
}

#[test]
fn test_handler_validation() {
    let xml = r#"<column><button on_click="increment" /></column>"#;
    let doc = parse(xml).unwrap();

    let handlers = vec![HandlerSignature { name: "increment".to_string(), param_type: None, returns_command: false }];
    assert!(validate_handlers(&doc, &handlers).is_ok());

    let handlers_empty: Vec<HandlerSignature> = vec![];
    assert!(validate_handlers(&doc, &handlers_empty).is_err());
}

#[test]
fn text_helpers() {
    assert_eq!(to_upper_camel_case("set_value"), "SetValue");
    assert_eq!(to_upper_camel_case("__a_b"), "AB");
    assert_eq!(to_upper_camel_case(""), "");
    assert_eq!(constant_folding("a  \n\n  b\t\n\n"), "a\n b\n");
    assert_eq!(constant_folding("let  x = 1;   \n\n\nfoo"), "let x = 1;\nfoo\n");
    assert_eq!(constant_folding(&constant_folding("let  x = 1;   \n\n\nfoo")), "let x = 1;\nfoo\n");
    assert_eq!(constant_folding(""), "");
    assert_eq!(resolve_icon_for_codegen("home"), '\u{F015}');
    assert_eq!(resolve_icon_for_codegen("nope"), '\u{F111}');
}

#[test]
fn handler_info_signatures() {
    static PARAMS: [&str; 2] = ["&mut Model", "String"];
    let info = HandlerInfo {
        name: "set",
        signature_type: HandlerSignatureType::WithValue,
        param_types: &PARAMS,
        return_type: "()",
        source_file: "a.rs",
        source_line: 3,
    };
    let sig = info.to_signature();
    assert_eq!(sig.name, "set");
    assert_eq!(sig.param_type, Some("String".to_string()));
    assert!(!sig.returns_command);
    let cmd = HandlerInfo { signature_type: HandlerSignatureType::WithCommand, ..info.clone() };
    assert!(cmd.to_signature().returns_command);
    assert_eq!(cmd.to_signature().param_type, None);
}

#[test]
fn subscription_and_generated_code() {
    let c = SubscriptionConfig::default().with_system_theme_variant("Changed");
    assert!(c.system_theme);
    assert_eq!(c.system_theme_variant, Some("Changed".to_string()));
    let mut g = GeneratedCode::new("fn main() {}".to_string(), "ui".to_string(), "a.dampen".to_string());
    assert!(!g.validated);
    assert!(g.validate().is_ok());
    assert!(g.validated);
    let mut bad = GeneratedCode::new("fn (".to_string(), "ui".to_string(), "a.dampen".to_string());
    let e = bad.validate().unwrap_err();
    assert!(e.starts_with("Syntax validation failed: "));
    assert!(bad.format().unwrap_err().starts_with("Failed to parse code for formatting: "));
    assert!(g.format().is_ok());
    assert!(g.code.contains("fn main"));
}

#[test]
fn match_enum_variant_ignores_case_and_space() {
    let variants = ["fill", "Shrink", "fixed"];
    assert_eq!(match_enum_variant("  SHRINK ", &variants), Ok("Shrink"));
    assert_eq!(match_enum_variant("fill", &variants), Ok("fill"));
    assert_eq!(
        match_enum_variant("bogus", &variants),
        Err("Invalid value 'bogus'. Valid options: fill, Shrink, fixed".to_string())
    );
}

#[test]
fn format_lays_out_code_and_prints_bodyless_items() {
    let mut code = GeneratedCode::new("fn  main( ){}".to_string(), "m".to_string(), "m.dampen".to_string());
    assert!(code.format().is_ok());
    assert_eq!(code.code, "fn main() {}\n");
    let mut bodyless = GeneratedCode::new("fn f();".to_string(), "m".to_string(), "m.dampen".to_string());
    assert!(bodyless.format().is_ok());
    assert!(bodyless.code.contains("fn f()"));
    let mut bad = GeneratedCode::new("fn (".to_string(), "m".to_string(), "m.dampen".to_string());
    let err = bad.format().unwrap_err();
    assert!(err.starts_with("Failed to parse code for formatting: "));
    assert_eq!(bad.code, "fn (");
}
