use dampen_core::codegen::inventory::{
    extract_handler_names_from_source, handler_names_from_items, handler_signatures_from_names,
    MacroItem,
};

#[test]
fn test_extract_handler_names() {
    let source = r#"
            use dampen_macros::{ui_handler, inventory_handlers};

            #[ui_handler]
            fn increment(model: &mut Model) {
                model.count += 1;
            }

            #[ui_handler]
            fn decrement(model: &mut Model) {
                model.count -= 1;
            }

            inventory_handlers! {
                increment,
                decrement
            }
        "#;

    let handlers = extract_handler_names_from_source(source);
    assert_eq!(handlers, vec!["increment", "decrement"]);
}

#[test]
fn test_extract_empty_inventory() {
    let source = r#"
            use dampen_macros::ui_handler;

            #[ui_handler]
            fn my_handler(model: &mut Model) {}
        "#;

    let handlers = extract_handler_names_from_source(source);
    assert!(handlers.is_empty());
}

#[test]
fn test_extract_single_handler() {
    let source = r#"
            inventory_handlers! { greet }
        "#;

    let handlers = extract_handler_names_from_source(source);
    assert_eq!(handlers, vec!["greet"]);
}

#[test]
fn unparsable_source_has_no_handlers() {
    assert!(extract_handler_names_from_source("fn (").is_empty());
}

#[test]
fn first_inventory_item_wins() {
    let items = vec![
        None,
        Some(MacroItem { name: Some("println".to_string()), tokens: "a , b".to_string() }),
        Some(MacroItem { name: Some("inventory_handlers".to_string()), tokens: " save ,, load ".to_string() }),
        Some(MacroItem { name: Some("inventory_handlers".to_string()), tokens: "other".to_string() }),
    ];
    assert_eq!(handler_names_from_items(&items), vec!["save", "load"]);
    assert!(handler_names_from_items(&vec![None]).is_empty());
}

#[test]
fn signatures_from_names_have_no_parameter() {
    let sigs = handler_signatures_from_names(&vec!["a".to_string(), "b".to_string()]);
    assert_eq!(sigs.len(), 2);
    assert_eq!(sigs[1].name, "b");
    assert_eq!(sigs[0].param_type, None);
    assert!(!sigs[0].returns_command);
}
