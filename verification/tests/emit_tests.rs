use tom_lang::compile;

fn dump_of(src: &[u8]) -> String {
    let (_ast, m) = compile(src).unwrap();
    String::from_utf8(m.dump()).unwrap()
}

#[test]
fn dump_main_module_exactly() {
    let text = dump_of(b"fn main() { let x = 42; return; }");
    let expected = "m main\n\
                    t0 void\n\
                    t1 int 1\n\
                    t2 int 8\n\
                    t3 int 64\n\
                    t4 ptr 2\n\
                    t5 fn 0\n\
                    f0 main 5\n\
                    b0 0 ? 0 2 3\n\
                    v0 alloca 3 x\n\
                    v1 const 42 3\n\
                    v2 store 1 0\n\
                    v3 retvoid\n";
    assert_eq!(text, expected);
}

#[test]
fn dump_signature_with_parameters() {
    let text = dump_of(b"fn add(a: i64, b: str) -> bool;");
    let expected = "m main\n\
                    t0 void\n\
                    t1 int 1\n\
                    t2 int 8\n\
                    t3 int 64\n\
                    t4 ptr 2\n\
                    t5 fn 1 3 4\n\
                    f0 add 5\n";
    assert_eq!(text, expected);
}

#[test]
fn dump_global_string_bytes() {
    let text = dump_of(b"fn p(s: str); fn f() { p(\"hi\"); }");
    assert!(text.contains("v0 str 4 2 104 105\n"), "dump was:\n{}", text);
    assert!(text.contains("v1 call 0 0\n"), "dump was:\n{}", text);
}

#[test]
fn dump_zero_valued_constant() {
    let text = dump_of(b"fn f() { let x = 0; }");
    assert!(text.contains("v1 const 0 3\n"), "dump was:\n{}", text);
}

#[test]
fn dump_empty_program_has_only_builtin_types() {
    let text = dump_of(b"");
    let expected = "m main\n\
                    t0 void\n\
                    t1 int 1\n\
                    t2 int 8\n\
                    t3 int 64\n\
                    t4 ptr 2\n";
    assert_eq!(text, expected);
}
