use tom_lang::ast::Ast;
use tom_lang::compile;
use tom_lang::ir::{Constant, ConstantInt, FuncRef, IntegerType, Module, Type, Value};
use tom_lang::lexer::{Lexer, LexicalError};
use tom_lang::lower::Gen;
use tom_lang::parser::{Parser, SyntaxOrResolutionError};
use tom_lang::CompileError;

fn build(src: &[u8]) -> (Ast, Module) {
    compile(src).unwrap()
}

#[test]
fn lower_main_emits_alloca_store_ret_void_in_order() {
    let (_ast, m) = build(b"fn main() { let x = 42; return; }");

    assert_eq!(m.functions.len(), 1);
    assert_eq!(m.functions[0].name, Some(b"main".to_vec()));

    assert_eq!(m.basic_blocks.len(), 1);
    let block = &m.basic_blocks[0];
    assert_eq!(block.function, FuncRef(0));
    assert_eq!(block.insts.len(), 3);

    // one stack allocation sized for a 64-bit integer
    let alloca = block.insts[0];
    let alloca_ty = match &m.values[alloca.0] {
        Value::Alloca { ty, name } => {
            assert_eq!(name, &b"x".to_vec());
            *ty
        }
        other => panic!("expected stack storage first, got {:?}", other),
    };
    assert_eq!(m.types[alloca_ty.0], Type::Integer(IntegerType { bits: 64 }));

    // one store of constant 42 into it
    match &m.values[block.insts[1].0] {
        Value::Store { value, ptr } => {
            assert_eq!(*ptr, alloca);
            match &m.values[value.0] {
                Value::Constant(Constant::ConstantInt(ci)) => {
                    assert_eq!(ci.value, 42);
                    assert_eq!(m.types[ci.ty.0], Type::Integer(IntegerType { bits: 64 }));
                }
                other => panic!("expected the constant 42, got {:?}", other),
            }
        }
        other => panic!("expected a store second, got {:?}", other),
    }

    // one void return, and nothing after it
    assert!(matches!(m.values[block.insts[2].0], Value::RetVoid));
}

#[test]
fn lower_call_keeps_parser_recorded_type() {
    let (ast, m) = build(b"fn f() -> i64 { return 1; } fn g() { f(); }");
    assert_eq!(m.functions.len(), 2);

    // g's block holds the call and the closing void return
    let g_block = &m.basic_blocks[1];
    assert_eq!(g_block.function, FuncRef(1));
    assert_eq!(g_block.insts.len(), 2);
    let callee = match &m.values[g_block.insts[0].0] {
        Value::Call { func, args } => {
            assert_eq!(args.len(), 0);
            *func
        }
        other => panic!("expected a call, got {:?}", other),
    };
    assert_eq!(callee, FuncRef(0));

    // the call's type is its callee's declared return type: the lowering of
    // the i64 the parser recorded, never recomputed
    let f_ty = m.functions[callee.0].ty.unwrap();
    match &m.types[f_ty.0] {
        Type::Function(ft) => {
            assert_eq!(m.types[ft.return_ty.0], Type::Integer(IntegerType { bits: 64 }));
            assert_eq!(ft.params.len(), 0);
            assert!(!ft.vararg);
        }
        other => panic!("expected a function type, got {:?}", other),
    }

    // the parser committed the call expression to f's return type already
    let g = ast.func(tom_lang::ast::ItemId(1));
    match &g.stmts.as_ref().unwrap()[0] {
        tom_lang::ast::Stmt::Expr(e) => assert_eq!(e.ty, tom_lang::ast::TyId(1)),
        other => panic!("expected an expression statement, got {:?}", other),
    }
}

#[test]
fn lower_signature_types() {
    let (_ast, m) = build(b"fn h(a: i64, b: str) -> bool;");
    assert_eq!(m.functions.len(), 1);
    assert_eq!(m.basic_blocks.len(), 0, "a bodyless declaration gets no block");
    let ty = m.functions[0].ty.unwrap();
    match &m.types[ty.0] {
        Type::Function(ft) => {
            assert_eq!(m.types[ft.return_ty.0], Type::Integer(IntegerType { bits: 1 }));
            assert_eq!(ft.params.len(), 2);
            assert_eq!(m.types[ft.params[0].0], Type::Integer(IntegerType { bits: 64 }));
            match m.types[ft.params[1].0] {
                Type::Pointer(p) => {
                    assert_eq!(m.types[p.0], Type::Integer(IntegerType { bits: 8 }))
                }
                ref other => panic!("expected a pointer type for str, got {:?}", other),
            }
        }
        other => panic!("expected a function type, got {:?}", other),
    }
}

#[test]
fn lower_void_return_type_node() {
    let (_ast, m) = build(b"fn v();");
    let ty = m.functions[0].ty.unwrap();
    match &m.types[ty.0] {
        Type::Function(ft) => assert!(matches!(m.types[ft.return_ty.0], Type::Void)),
        other => panic!("expected a function type, got {:?}", other),
    }
}

#[test]
fn lower_explicit_value_return_has_no_epilogue() {
    let (_ast, m) = build(b"fn f() -> i64 { return 3; }");
    let block = &m.basic_blocks[0];
    assert_eq!(block.insts.len(), 1);
    match &m.values[block.insts[0].0] {
        Value::Ret { value } => match &m.values[value.0] {
            Value::Constant(Constant::ConstantInt(ci)) => assert_eq!(ci.value, 3),
            other => panic!("expected the constant 3, got {:?}", other),
        },
        other => panic!("expected a value-carrying return, got {:?}", other),
    }
}

#[test]
fn lower_void_body_falls_off_end_with_one_void_return() {
    let (_ast, m) = build(b"fn f() {}");
    let block = &m.basic_blocks[0];
    assert_eq!(block.insts.len(), 1);
    assert!(matches!(m.values[block.insts[0].0], Value::RetVoid));
}

#[test]
fn lower_explicit_void_return_gets_no_second_return() {
    let (_ast, m) = build(b"fn f() { return; }");
    let block = &m.basic_blocks[0];
    assert_eq!(block.insts.len(), 1);
    assert!(matches!(m.values[block.insts[0].0], Value::RetVoid));
}

#[test]
fn lower_string_argument_becomes_global() {
    let (_ast, m) = build(b"fn p(s: str); fn f() { p(\"hi\"); }");
    let block = &m.basic_blocks[0];
    match &m.values[block.insts[0].0] {
        Value::Call { func, args } => {
            assert_eq!(*func, FuncRef(0));
            assert_eq!(args.len(), 1);
            match &m.values[args[0].0] {
                Value::GlobalString { data, ty } => {
                    assert_eq!(data, &b"hi".to_vec());
                    assert!(matches!(m.types[ty.0], Type::Pointer(_)));
                }
                other => panic!("expected a global string, got {:?}", other),
            }
        }
        other => panic!("expected a call, got {:?}", other),
    }
}

#[test]
fn lower_bool_literal_constant() {
    // a bool expression cannot be written in source; lower a hand-built tree
    let mut ast = Ast::new();
    let f = tom_lang::ast::Func {
        name: b"f".to_vec(),
        return_ty: tom_lang::ast::TyId(3),
        args: Vec::new(),
        stmts: Some(vec![tom_lang::ast::Stmt::Return(tom_lang::ast::Return {
            value: Some(tom_lang::ast::Expr::new(
                tom_lang::ast::ExprKind::BoolLit(true),
                tom_lang::ast::TyId(3),
            )),
        })]),
    };
    ast.push(tom_lang::ast::Item::Func(f));
    let m = Gen::run(&ast);
    let block = &m.basic_blocks[0];
    match &m.values[block.insts[0].0] {
        Value::Ret { value } => match &m.values[value.0] {
            Value::Constant(Constant::ConstantInt(ci)) => {
                assert_eq!(ci.value, 1);
                assert_eq!(m.types[ci.ty.0], Type::Integer(IntegerType { bits: 1 }));
            }
            other => panic!("expected the constant 1, got {:?}", other),
        },
        other => panic!("expected a value-carrying return, got {:?}", other),
    }
}

#[test]
fn compile_reports_lexical_errors() {
    let err = compile(b"fn @").unwrap_err();
    assert_eq!(
        err,
        CompileError::Lexical(LexicalError::UnknownByte { byte: b'@', offset: 3 })
    );
}

#[test]
fn compile_reports_forward_reference() {
    let err = compile(b"fn g() { h(); } fn h() {}").unwrap_err();
    assert!(matches!(
        err,
        CompileError::SyntaxOrResolution(SyntaxOrResolutionError::UndeclaredCallee { .. })
    ));
}

#[test]
fn compile_matches_staged_pipeline() {
    let src = b"fn f() {} fn g() { f(); }";
    let (ast, m) = build(src);
    let tokens = Lexer::lex(src).unwrap();
    let ast2 = Parser::new(tokens, src.to_vec()).run().unwrap();
    let m2 = Gen::run(&ast2);
    assert_eq!(ast.items.len(), ast2.items.len());
    assert_eq!(m, m2);
}
