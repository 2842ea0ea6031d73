use tom_lang::ir::{
    Constant, ConstantInt, FuncRef, IntegerType, Module, Type, TypeRef, Value,
};

#[test]
fn arena_counts_match_allocation_calls() {
    let mut m = Module::new(b"m".to_vec());
    assert_eq!(m.functions.len(), 0);
    assert_eq!(m.basic_blocks.len(), 0);
    assert_eq!(m.values.len(), 0);

    let f = m.function(Some(b"f".to_vec()), None);
    assert_eq!(m.functions.len(), 1);
    let g = m.function(Some(b"g".to_vec()), None);
    assert_eq!(m.functions.len(), 2);
    assert_eq!(f, FuncRef(0));
    assert_eq!(g, FuncRef(1));

    let bb = m.add_basic_block(f, None);
    assert_eq!(m.basic_blocks.len(), 1);

    let b = bb.builder();
    let ty = b.type_int(&mut m, 64);
    assert_eq!(m.types.len(), 1);

    let c = b.const_int(&mut m, 7, ty);
    assert_eq!(m.values.len(), 1);
    let a = b.alloca(&mut m, ty, b"x".to_vec());
    assert_eq!(m.values.len(), 2);
    let _s = b.store(&mut m, c, a);
    assert_eq!(m.values.len(), 3);
    let _r = b.ret_void(&mut m);
    assert_eq!(m.values.len(), 4);

    // counts never decreased along the way, and each equals the number of
    // successful allocation calls of its arena
    assert_eq!(m.functions.len(), 2);
    assert_eq!(m.basic_blocks.len(), 1);
    assert_eq!(m.types.len(), 1);
}

#[test]
fn builder_appends_at_block_end_in_order() {
    let mut m = Module::new(b"m".to_vec());
    let f = m.function(None, None);
    let bb = m.add_basic_block(f, Some(b"entry".to_vec()));
    let b = bb.builder();
    let ty = b.type_int(&mut m, 64);
    let c = b.const_int(&mut m, 42, ty);
    let a = b.alloca(&mut m, ty, b"x".to_vec());
    let s = b.store(&mut m, c, a);
    let r = b.ret_void(&mut m);

    let block = &m.basic_blocks[bb.0];
    assert_eq!(block.function, f);
    assert_eq!(block.name, Some(b"entry".to_vec()));
    // the constant is an operand, not an instruction of the block
    assert_eq!(block.insts, vec![a, s, r]);
}

#[test]
fn const_int_is_stored_with_value_and_type() {
    let mut m = Module::new(b"m".to_vec());
    let f = m.function(None, None);
    let bb = m.add_basic_block(f, None);
    let b = bb.builder();
    let ty = b.type_int(&mut m, 64);
    let c = b.const_int(&mut m, 7, ty);
    match &m.values[c.0] {
        Value::Constant(Constant::ConstantInt(ci)) => {
            assert_eq!(ci.value, 7);
            assert_eq!(ci.ty, ty);
        }
        other => panic!("expected an integer constant, got {:?}", other),
    }
    assert_eq!(m.types[ty.0], Type::Integer(IntegerType { bits: 64 }));
}

#[test]
fn two_builders_append_at_the_same_block_end() {
    let mut m = Module::new(b"m".to_vec());
    let f = m.function(None, None);
    let bb = m.add_basic_block(f, None);
    let b1 = bb.builder();
    let r1 = b1.ret_void(&mut m);
    let b2 = bb.builder();
    let r2 = b2.ret_void(&mut m);
    assert_eq!(m.basic_blocks[bb.0].insts, vec![r1, r2]);
}

#[test]
fn value_from_constant() {
    let c = Constant::ConstantInt(ConstantInt { value: 3, ty: TypeRef(0) });
    let v = Value::from(c);
    assert!(matches!(
        v,
        Value::Constant(Constant::ConstantInt(ConstantInt { value: 3, .. }))
    ));
}

#[test]
fn type_from_integer_type() {
    let t = Type::from(IntegerType { bits: 1 });
    assert_eq!(t, Type::Integer(IntegerType { bits: 1 }));
}
