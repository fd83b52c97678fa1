use dampen_core::codegen::SubscriptionConfig;
use dampen_core::ir::name_map::NameMap;
use dampen_core::ir::theme::ThemeDocument;
use dampen_core::codegen::{is_valid_identifier, CodegenConfig};

#[test]
fn test_valid_identifiers() {
    assert!(is_valid_identifier("Model"));
    assert!(is_valid_identifier("MyModel"));
    assert!(is_valid_identifier("Model123"));
    assert!(is_valid_identifier("My_Model"));
    assert!(is_valid_identifier("M"));
}

#[test]
fn test_invalid_identifiers() {
    assert!(!is_valid_identifier(""));
    assert!(!is_valid_identifier("model"));
    assert!(!is_valid_identifier("123Model"));
    assert!(!is_valid_identifier("My-Model"));
    assert!(!is_valid_identifier("My Model"));
    assert!(!is_valid_identifier("_Model"));
}

#[test]
fn test_config_validation() {
    let config = CodegenConfig::default();
    assert!(config.validate().is_ok());

    let config = CodegenConfig::new(String::from("")).with_model_type("Model");
    assert!(config.validate().is_err());

    let config = CodegenConfig::new(String::from("target")).with_model_type("invalid");
    assert!(config.validate().is_err());

    let config = CodegenConfig::new(String::from("target")).with_message_type("invalid");
    assert!(config.validate().is_err());
}

#[test]
fn config_error_messages() {
    let config = CodegenConfig::new(String::from(""));
    assert_eq!(config.validate(), Err("Output directory cannot be empty".to_string()));
    let config = CodegenConfig::new(String::from("out")).with_model_type("bad");
    assert_eq!(
        config.validate(),
        Err("Model type 'bad' is not a valid Rust identifier".to_string())
    );
    let config = CodegenConfig::new(String::from("out")).with_message_type("msg");
    assert_eq!(
        config.validate(),
        Err("Message type 'msg' is not a valid Rust identifier".to_string())
    );
}

#[test]
fn config_builders_keep_other_fields() {
    let config = CodegenConfig::new(String::from("out"))
        .with_formatting(false)
        .with_validation(false)
        .with_model_type("App");
    assert_eq!(config.output_dir, "out");
    assert!(!config.format_output);
    assert!(!config.validate_syntax);
    assert_eq!(config.model_type, "App");
    assert_eq!(config.message_type, "Message");
}

#[test]
fn subscription_config_from_theme_document() {
    let none = SubscriptionConfig::from_theme_document(None, "Msg");
    assert!(!none.system_theme);
    assert_eq!(none.message_name, "Msg");
    assert_eq!(none.system_theme_variant, None);
    let doc = ThemeDocument { themes: NameMap::new(), default_theme: None, follow_system: true };
    let follows = SubscriptionConfig::from_theme_document(Some(&doc), "Message");
    assert!(follows.system_theme);
    assert_eq!(follows.system_theme_variant.as_deref(), Some("SystemThemeChanged"));
    let doc = ThemeDocument { themes: NameMap::new(), default_theme: None, follow_system: false };
    assert!(!SubscriptionConfig::from_theme_document(Some(&doc), "Message").system_theme);
}

fn create_test_theme_document(follow_system: bool) -> ThemeDocument {
    let mut themes = NameMap::new();
    themes.insert(
        "light".to_string(),
        dampen_core::ir::theme::Theme { name: "light".to_string(), extends: None },
    );
    ThemeDocument { themes, default_theme: Some("light".to_string()), follow_system }
}

#[test]
fn test_subscription_config_from_theme_document() {
    let doc = create_test_theme_document(true);
    let config = SubscriptionConfig::from_theme_document(Some(&doc), "Message");

    assert!(config.system_theme);
    assert_eq!(config.system_theme_variant, Some("SystemThemeChanged".to_string()));
}

#[test]
fn test_subscription_config_no_follow_system() {
    let doc = create_test_theme_document(false);
    let config = SubscriptionConfig::from_theme_document(Some(&doc), "Message");

    assert!(!config.system_theme);
    assert_eq!(config.system_theme_variant, None);
}
