use dampen_core::expr::ast::{BinaryOp, Expr, LiteralExpr, UnaryOp};
use dampen_core::expr::tokenizer::tokenize_binding_expr;
use dampen_core::ir::Span;

#[test]
fn field_access_and_span() {
    let b = tokenize_binding_expr("user.name", 5, 2, 7).unwrap();
    match &b.expr {
        Expr::FieldAccess(f) => assert_eq!(f.path, vec!["user".to_string(), "name".to_string()]),
        other => panic!("unexpected {:?}", other),
    }
    assert_eq!(b.span, Span::new(5, 14, 2, 7));
}

#[test]
fn precedence_of_operators() {
    let b = tokenize_binding_expr("1 + 2 * 3 == 7 && !done", 0, 1, 1).unwrap();
    match &b.expr {
        Expr::BinaryOp(and) => {
            assert_eq!(and.op, BinaryOp::And);
            match &*and.left {
                Expr::BinaryOp(eq) => {
                    assert_eq!(eq.op, BinaryOp::Eq);
                    match &*eq.left {
                        Expr::BinaryOp(add) => {
                            assert_eq!(add.op, BinaryOp::Add);
                            assert!(matches!(&*add.right, Expr::BinaryOp(m) if m.op == BinaryOp::Mul));
                        },
                        other => panic!("unexpected {:?}", other),
                    }
                },
                other => panic!("unexpected {:?}", other),
            }
            assert!(matches!(&*and.right, Expr::UnaryOp(u) if u.op == UnaryOp::Not));
        },
        other => panic!("unexpected {:?}", other),
    }
}

#[test]
fn method_calls_literals_and_conditionals() {
    let b = tokenize_binding_expr("items.len()", 0, 1, 1).unwrap();
    match &b.expr {
        Expr::MethodCall(m) => {
            assert_eq!(m.method, "len");
            assert!(m.args.is_empty());
            assert!(matches!(&*m.receiver, Expr::FieldAccess(f) if f.path == vec!["items".to_string()]));
        },
        other => panic!("unexpected {:?}", other),
    }
    let b = tokenize_binding_expr("if done then 'yes' else \"no\"", 0, 1, 1).unwrap();
    assert!(matches!(&b.expr, Expr::Conditional(_)));
    let b = tokenize_binding_expr("-42", 0, 1, 1).unwrap();
    assert!(matches!(&b.expr, Expr::Literal(LiteralExpr::Integer(-42)) | Expr::UnaryOp(_)));
    let b = tokenize_binding_expr("3.25", 0, 1, 1).unwrap();
    assert!(matches!(&b.expr, Expr::Literal(LiteralExpr::Float(s)) if s == "3.25"));
    let b = tokenize_binding_expr("shared.theme", 0, 1, 1).unwrap();
    assert!(matches!(&b.expr, Expr::SharedFieldAccess(s) if s.path == vec!["theme".to_string()]));
    let b = tokenize_binding_expr("format(a, 1)", 0, 1, 1).unwrap();
    match &b.expr {
        Expr::MethodCall(m) => {
            assert_eq!(m.method, "format");
            assert_eq!(m.args.len(), 2);
            assert!(matches!(&*m.receiver, Expr::Literal(LiteralExpr::String(s)) if s == "self"));
        },
        other => panic!("unexpected {:?}", other),
    }
}

#[test]
fn error_messages() {
    assert_eq!(tokenize_binding_expr("", 0, 1, 1).unwrap_err(), "Unexpected character at position 0");
    assert_eq!(tokenize_binding_expr("(a", 0, 1, 1).unwrap_err(), "Expected ')'");
    assert_eq!(tokenize_binding_expr("if a b", 0, 1, 1).unwrap_err(), "Expected keyword 'then'");
    assert_eq!(tokenize_binding_expr("a.1", 0, 1, 1).unwrap_err(), "Expected identifier, got '1'");
    assert!(tokenize_binding_expr("99999999999999999999", 0, 1, 1).unwrap_err().starts_with("Invalid integer: "));
}

#[test]
fn uses_shared_and_model() {
    let local = tokenize_binding_expr("count + 1", 0, 1, 1).unwrap();
    assert!(local.uses_model());
    assert!(!local.uses_shared());

    let shared = tokenize_binding_expr("shared.user.name", 0, 1, 1).unwrap();
    assert!(shared.uses_shared());
    assert!(!shared.uses_model());

    let both = tokenize_binding_expr("if shared.dark then theme else 'x'", 0, 1, 1).unwrap();
    assert!(both.uses_shared());
    assert!(both.uses_model());

    let in_args = tokenize_binding_expr("items.join(shared.sep)", 0, 1, 1).unwrap();
    assert!(matches!(&in_args.expr, Expr::MethodCall(_)));
    assert!(in_args.expr.uses_shared());
    assert!(in_args.expr.uses_model());

    let literal = tokenize_binding_expr("42", 0, 1, 1).unwrap();
    assert!(!literal.uses_shared());
    assert!(!literal.uses_model());
}
