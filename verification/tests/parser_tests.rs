use tom_lang::ast::{Ast, Expr, ExprKind, Item, ItemId, Stmt, Ty, TyId};
use tom_lang::lexer::Lexer;
use tom_lang::parser::{Parser, SyntaxOrResolutionError};

fn parse(src: &[u8]) -> Result<Ast, SyntaxOrResolutionError> {
    let tokens = Lexer::lex(src).unwrap();
    Parser::new(tokens, src.to_vec()).run()
}

fn func_of(ast: &Ast, index: u32) -> &tom_lang::ast::Func {
    ast.func(ItemId(index))
}

#[test]
fn parse_call_resolves_to_earlier_item() {
    let ast = parse(b"fn f() {} fn g() { f(); }").unwrap();
    assert_eq!(ast.items.len(), 2);
    let g = func_of(&ast, 1);
    assert_eq!(g.name, b"g".to_vec());
    let stmts = g.stmts.as_ref().unwrap();
    assert_eq!(stmts.len(), 1);
    match &stmts[0] {
        Stmt::Expr(e) => {
            match &e.kind {
                ExprKind::FuncCall(fc) => {
                    assert_eq!(fc.func, ItemId(0));
                    assert_eq!(fc.args.len(), 0);
                }
                other => panic!("expected a call, got {:?}", other),
            }
            // the call committed to the callee's declared return type: void
            assert_eq!(e.ty, TyId(0));
        }
        other => panic!("expected an expression statement, got {:?}", other),
    }
}

#[test]
fn parse_forward_reference_fails() {
    let err = parse(b"fn g() { h(); } fn h() {}").unwrap_err();
    assert!(matches!(
        err,
        SyntaxOrResolutionError::UndeclaredCallee { .. }
    ));
}

#[test]
fn parse_number_literal_commits_to_i64() {
    let ast = parse(b"fn f() -> i64 { return 42; }").unwrap();
    let f = func_of(&ast, 0);
    assert_eq!(f.return_ty, TyId(1));
    let stmts = f.stmts.as_ref().unwrap();
    match &stmts[0] {
        Stmt::Return(r) => {
            let e = r.value.as_ref().unwrap();
            assert_eq!(e.ty, TyId(1));
            assert!(matches!(e.kind, ExprKind::NumberLit(42)));
        }
        other => panic!("expected a return, got {:?}", other),
    }
}

#[test]
fn parse_i64_boundary_value() {
    let ast = parse(b"fn f() -> i64 { return 9223372036854775807; }").unwrap();
    let f = func_of(&ast, 0);
    match &f.stmts.as_ref().unwrap()[0] {
        Stmt::Return(r) => {
            assert!(matches!(
                r.value.as_ref().unwrap().kind,
                ExprKind::NumberLit(9223372036854775807)
            ));
        }
        other => panic!("expected a return, got {:?}", other),
    }
}

#[test]
fn parse_number_too_large_fails() {
    let err = parse(b"fn f() -> i64 { return 9223372036854775808; }").unwrap_err();
    assert!(matches!(
        err,
        SyntaxOrResolutionError::NumberTooLarge { .. }
    ));
}

#[test]
fn parse_string_literal_strips_quotes() {
    let ast = parse(b"fn g() {} fn f() { let s = \"hi\"; }").unwrap();
    let f = func_of(&ast, 1);
    match &f.stmts.as_ref().unwrap()[0] {
        Stmt::Local(l) => {
            assert_eq!(l.name, b"s".to_vec());
            assert_eq!(l.init.ty, TyId(2));
            match &l.init.kind {
                ExprKind::StringLit(s) => assert_eq!(s, &b"hi".to_vec()),
                other => panic!("expected a string literal, got {:?}", other),
            }
        }
        other => panic!("expected a local binding, got {:?}", other),
    }
}

#[test]
fn parse_unknown_type_name_fails() {
    let err = parse(b"fn f(a: foo) {}").unwrap_err();
    assert!(matches!(
        err,
        SyntaxOrResolutionError::UnknownTypeName { .. }
    ));
}

#[test]
fn parse_unexpected_token_reports_expected_and_actual() {
    let err = parse(b"fn f { }").unwrap_err();
    match err {
        SyntaxOrResolutionError::UnexpectedToken {
            expected, actual, ..
        } => {
            assert_eq!(expected, tom_lang::lexer::TokenKind::OpenParen);
            assert_eq!(actual, tom_lang::lexer::TokenKind::OpenBrace);
        }
        other => panic!("expected an unexpected-token error, got {:?}", other),
    }
}

#[test]
fn parse_unexpected_expr_start_fails() {
    let err = parse(b"fn f() { let x = ); }").unwrap_err();
    assert!(matches!(
        err,
        SyntaxOrResolutionError::UnexpectedExprStart { .. }
    ));
}

#[test]
fn parse_item_must_start_with_fn() {
    let err = parse(b"let x = 1;").unwrap_err();
    assert!(matches!(
        err,
        SyntaxOrResolutionError::UnexpectedItemStart { .. }
    ));
}

#[test]
fn parse_duplicate_name_shadows_earlier_item() {
    // last-write-wins: the call resolves to the second declaration of f
    let ast = parse(b"fn f() {} fn f() -> i64; fn g() { let x = f(); }").unwrap();
    assert_eq!(ast.items.len(), 3);
    let g = func_of(&ast, 2);
    match &g.stmts.as_ref().unwrap()[0] {
        Stmt::Local(l) => {
            assert_eq!(l.init.ty, TyId(1));
            match &l.init.kind {
                ExprKind::FuncCall(fc) => assert_eq!(fc.func, ItemId(1)),
                other => panic!("expected a call, got {:?}", other),
            }
        }
        other => panic!("expected a local binding, got {:?}", other),
    }
}

#[test]
fn parse_declaration_without_body() {
    let ast = parse(b"fn f(a: i64, b: str) -> bool;").unwrap();
    let f = func_of(&ast, 0);
    assert!(f.stmts.is_none());
    assert_eq!(f.return_ty, TyId(3));
    assert_eq!(f.args.len(), 2);
    assert_eq!(f.args[0], (b"a".to_vec(), TyId(1)));
    assert_eq!(f.args[1], (b"b".to_vec(), TyId(2)));
}

#[test]
fn parse_omitted_return_type_is_void() {
    let ast = parse(b"fn f() {}").unwrap();
    assert_eq!(func_of(&ast, 0).return_ty, TyId(0));
}

#[test]
fn parse_empty_program() {
    let ast = parse(b"").unwrap();
    assert_eq!(ast.items.len(), 0);
}

#[test]
fn parse_call_arguments_in_order() {
    let ast = parse(b"fn f() {} fn g() { f(1, 2, 3); }").unwrap();
    let g = func_of(&ast, 1);
    match &g.stmts.as_ref().unwrap()[0] {
        Stmt::Expr(Expr {
            kind: ExprKind::FuncCall(fc),
            ..
        }) => {
            let vals: Vec<i64> = fc
                .args
                .iter()
                .map(|a| match a.kind {
                    ExprKind::NumberLit(v) => v,
                    _ => panic!("expected number literals"),
                })
                .collect();
            assert_eq!(vals, vec![1, 2, 3]);
        }
        other => panic!("expected a call statement, got {:?}", other),
    }
}

#[test]
fn ast_new_reserves_builtin_types() {
    let ast = Ast::new();
    assert_eq!(ast.tys.len(), 4);
    assert!(matches!(
        ast.ty(TyId(0)),
        Ty::Builtin(tom_lang::ast::BuiltinTy::Void)
    ));
    assert!(matches!(
        ast.ty(TyId(1)),
        Ty::Builtin(tom_lang::ast::BuiltinTy::I64)
    ));
    assert!(matches!(
        ast.ty(TyId(2)),
        Ty::Builtin(tom_lang::ast::BuiltinTy::Str)
    ));
    assert!(matches!(
        ast.ty(TyId(3)),
        Ty::Builtin(tom_lang::ast::BuiltinTy::Bool)
    ));
}

#[test]
fn ast_push_hands_out_dense_ids() {
    let mut ast = Ast::new();
    let f = tom_lang::ast::Func {
        name: b"f".to_vec(),
        return_ty: TyId(0),
        args: Vec::new(),
        stmts: None,
    };
    let id = ast.push(Item::Func(f));
    assert_eq!(id, ItemId(0));
    assert_eq!(ast.items.len(), 1);
    assert_eq!(ast.func(id).name, b"f".to_vec());
}

#[test]
fn ast_symbol_lookup_prefers_latest_binding() {
    let mut ast = Ast::new();
    ast.insert_symbol(b"f".to_vec(), ItemId(0));
    ast.insert_symbol(b"g".to_vec(), ItemId(1));
    ast.insert_symbol(b"f".to_vec(), ItemId(2));
    assert_eq!(ast.lookup_symbol(&b"f".to_vec()), Some(ItemId(2)));
    assert_eq!(ast.lookup_symbol(&b"g".to_vec()), Some(ItemId(1)));
    assert_eq!(ast.lookup_symbol(&b"h".to_vec()), None);
}

#[test]
fn expr_new_keeps_kind_and_type() {
    let e = Expr::new(ExprKind::BoolLit(true), TyId(3));
    assert_eq!(e.ty, TyId(3));
    assert!(matches!(e.kind, ExprKind::BoolLit(true)));
}
