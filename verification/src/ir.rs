//! The arena-owned IR graph: a module owning functions, basic blocks, values
//! and types, plus the builder cursor that emits values into a block.
//!
//! Every node lives in one of the module's arenas and is addressed by an
//! index handle (`FuncRef`, `BlockRef`, `ValueRef`, `TypeRef`). The graph is
//! append-only: nodes are never deleted, and a node's fields never change
//! after creation — the one growing thing is a block's instruction list,
//! which only ever gains entries at its end. Handles therefore stay valid
//! for the module's whole lifetime and may be combined freely.

use vstd::prelude::*;

verus! {

/// Handle of a type in the module's type arena.
#[derive(Debug, Eq, PartialEq, Copy, Clone, Structural)]
pub struct TypeRef(pub usize);

/// Handle of a function in the module's function arena.
#[derive(Debug, Eq, PartialEq, Copy, Clone, Structural)]
pub struct FuncRef(pub usize);

/// Handle of a basic block in the module's block arena.
#[derive(Debug, Eq, PartialEq, Copy, Clone, Structural)]
pub struct BlockRef(pub usize);

/// Handle of a value in the module's value arena.
#[derive(Debug, Eq, PartialEq, Copy, Clone, Structural)]
pub struct ValueRef(pub usize);

/// An integer type of a given bit width.
#[derive(Debug, Eq, PartialEq, Copy, Clone, Structural)]
pub struct IntegerType {
    pub bits: u32,
}

/// A function signature type.
#[derive(Debug, PartialEq, Eq)]
pub struct FunctionType {
    pub return_ty: TypeRef,
    pub params: Vec<TypeRef>,
    pub vararg: bool,
}

/// An IR type.
#[derive(Debug, PartialEq, Eq)]
pub enum Type {
    Void,
    Integer(IntegerType),
    Pointer(TypeRef),
    Function(FunctionType),
}

impl From<IntegerType> for Type {
    fn from(x: IntegerType) -> (r: Type) {
        Type::Integer(x)
    }
}

impl vstd::std_specs::convert::FromSpecImpl<IntegerType> for Type {
    open spec fn obeys_from_spec() -> bool {
        true
    }

    open spec fn from_spec(x: IntegerType) -> Type {
        Type::Integer(x)
    }
}

/// An integer constant of a given type.
#[derive(Debug, Eq, PartialEq, Copy, Clone, Structural)]
pub struct ConstantInt {
    pub value: u64,
    pub ty: TypeRef,
}

/// A constant value.
#[derive(Debug, Eq, PartialEq, Copy, Clone, Structural)]
pub enum Constant {
    ConstantInt(ConstantInt),
}

/// A node of the value arena: a constant, or one emitted instruction.
#[derive(Debug, PartialEq, Eq)]
pub enum Value {
    Constant(Constant),
    /// A pointer to immutable global string data.
    GlobalString { data: Vec<u8>, ty: TypeRef },
    /// Stack storage sized for `ty`.
    Alloca { ty: TypeRef, name: Vec<u8> },
    /// Store `value` into the storage `ptr` points at.
    Store { value: ValueRef, ptr: ValueRef },
    /// Call of an IR function over already-emitted argument values.
    Call { func: FuncRef, args: Vec<ValueRef> },
    /// Return carrying a value.
    Ret { value: ValueRef },
    /// Return from a void function.
    RetVoid,
}

impl From<Constant> for Value {
    fn from(x: Constant) -> (r: Value) {
        Value::Constant(x)
    }
}

impl vstd::std_specs::convert::FromSpecImpl<Constant> for Value {
    open spec fn obeys_from_spec() -> bool {
        true
    }

    open spec fn from_spec(x: Constant) -> Value {
        Value::Constant(x)
    }
}

/// A function node: its name and its signature type. The back-reference to
/// the owning module is the arena itself; handles are only meaningful
/// together with their module.
#[derive(Debug, PartialEq, Eq)]
pub struct Function {
    pub name: Option<Vec<u8>>,
    pub ty: Option<TypeRef>,
}

/// A basic block node: the function it belongs to, its name, and the values
/// emitted into it, in emission order.
#[derive(Debug, PartialEq, Eq)]
pub struct BasicBlock {
    pub function: FuncRef,
    pub name: Option<Vec<u8>>,
    pub insts: Vec<ValueRef>,
}

/// The module: sole owner of every function, block, value and type node.
#[derive(Debug, PartialEq, Eq)]
pub struct Module {
    pub name: Vec<u8>,
    pub functions: Vec<Function>,
    pub basic_blocks: Vec<BasicBlock>,
    pub values: Vec<Value>,
    pub types: Vec<Type>,
}

/// The type of the value a handle names, where it has one: a constant or
/// global string carries its type, and a call has its callee's declared
/// return type.
pub open spec fn value_ty(m: Module, v: ValueRef) -> Option<TypeRef> {
    if v.0 < m.values@.len() {
        match m.values@[v.0 as int] {
            Value::Constant(Constant::ConstantInt(ci)) => Some(ci.ty),
            Value::GlobalString { ty, .. } => Some(ty),
            Value::Call { func, .. } => call_ret_ty(m, func),
            _ => None,
        }
    } else {
        None
    }
}

/// The declared return type of an IR function, read off its signature.
pub open spec fn call_ret_ty(m: Module, f: FuncRef) -> Option<TypeRef> {
    if f.0 < m.functions@.len() {
        match m.functions@[f.0 as int].ty {
            Some(tr) => if tr.0 < m.types@.len() {
                match m.types@[tr.0 as int] {
                    Type::Function(ft) => Some(ft.return_ty),
                    _ => None,
                }
            } else {
                None
            },
            None => None,
        }
    } else {
        None
    }
}

/// The append-only discipline, stated between two module states: nothing is
/// removed or rewritten; functions, values and types keep every node, and a
/// block keeps its owner, its name and every instruction already in it.
pub open spec fn module_extends(m1: Module, m2: Module) -> bool {
    &&& m2.name@ == m1.name@
    &&& m1.functions@.len() <= m2.functions@.len()
    &&& m2.functions@.subrange(0, m1.functions@.len() as int) == m1.functions@
    &&& m1.values@.len() <= m2.values@.len()
    &&& m2.values@.subrange(0, m1.values@.len() as int) == m1.values@
    &&& m1.types@.len() <= m2.types@.len()
    &&& m2.types@.subrange(0, m1.types@.len() as int) == m1.types@
    &&& m1.basic_blocks@.len() <= m2.basic_blocks@.len()
    &&& forall|b: int|
        0 <= b < m1.basic_blocks@.len() ==> {
            let b1 = #[trigger] m1.basic_blocks@[b];
            let b2 = m2.basic_blocks@[b];
            &&& b2.function == b1.function
            &&& b2.name == b1.name
            &&& b1.insts@.len() <= b2.insts@.len()
            &&& b2.insts@.subrange(0, b1.insts@.len() as int) == b1.insts@
        }
}

/// Extension is reflexive.
pub proof fn lemma_module_extends_refl(m: Module)
    ensures
        module_extends(m, m),
{
    assert(m.functions@.subrange(0, m.functions@.len() as int) =~= m.functions@);
    assert(m.values@.subrange(0, m.values@.len() as int) =~= m.values@);
    assert(m.types@.subrange(0, m.types@.len() as int) =~= m.types@);
    assert forall|b: int| 0 <= b < m.basic_blocks@.len() implies {
        let b1 = #[trigger] m.basic_blocks@[b];
        let b2 = m.basic_blocks@[b];
        &&& b2.function == b1.function
        &&& b2.name == b1.name
        &&& b1.insts@.len() <= b2.insts@.len()
        &&& b2.insts@.subrange(0, b1.insts@.len() as int) == b1.insts@
    } by {
        let b1 = m.basic_blocks@[b];
        assert(b1.insts@.subrange(0, b1.insts@.len() as int) =~= b1.insts@);
    }
}

/// Extension composes.
pub proof fn lemma_module_extends_trans(m1: Module, m2: Module, m3: Module)
    requires
        module_extends(m1, m2),
        module_extends(m2, m3),
    ensures
        module_extends(m1, m3),
{
    assert(m3.functions@.subrange(0, m1.functions@.len() as int) =~= m1.functions@) by {
        assert forall|i: int| 0 <= i < m1.functions@.len() implies m3.functions@[i]
            == m1.functions@[i] by {
            assert(m2.functions@[i] == m2.functions@.subrange(0, m1.functions@.len() as int)[i]);
            assert(m3.functions@[i] == m3.functions@.subrange(0, m2.functions@.len() as int)[i]);
        }
    }
    assert(m3.values@.subrange(0, m1.values@.len() as int) =~= m1.values@) by {
        assert forall|i: int| 0 <= i < m1.values@.len() implies m3.values@[i] == m1.values@[i] by {
            assert(m2.values@[i] == m2.values@.subrange(0, m1.values@.len() as int)[i]);
            assert(m3.values@[i] == m3.values@.subrange(0, m2.values@.len() as int)[i]);
        }
    }
    assert(m3.types@.subrange(0, m1.types@.len() as int) =~= m1.types@) by {
        assert forall|i: int| 0 <= i < m1.types@.len() implies m3.types@[i] == m1.types@[i] by {
            assert(m2.types@[i] == m2.types@.subrange(0, m1.types@.len() as int)[i]);
            assert(m3.types@[i] == m3.types@.subrange(0, m2.types@.len() as int)[i]);
        }
    }
    assert forall|b: int| 0 <= b < m1.basic_blocks@.len() implies {
        let b1 = #[trigger] m1.basic_blocks@[b];
        let b3 = m3.basic_blocks@[b];
        &&& b3.function == b1.function
        &&& b3.name == b1.name
        &&& b1.insts@.len() <= b3.insts@.len()
        &&& b3.insts@.subrange(0, b1.insts@.len() as int) == b1.insts@
    } by {
        let b1 = m1.basic_blocks@[b];
        let b2 = m2.basic_blocks@[b];
        let b3 = m3.basic_blocks@[b];
        assert(b3.insts@.subrange(0, b1.insts@.len() as int) =~= b1.insts@) by {
            assert forall|i: int| 0 <= i < b1.insts@.len() implies b3.insts@[i]
                == b1.insts@[i] by {
                assert(b2.insts@[i] == b2.insts@.subrange(0, b1.insts@.len() as int)[i]);
                assert(b3.insts@[i] == b3.insts@.subrange(0, b2.insts@.len() as int)[i]);
            }
        }
    }
}

impl Module {
    /// A module with the given name and four empty arenas.
    pub fn new(name: Vec<u8>) -> (m: Module)
        ensures
            m.name@ == name@,
            m.functions@ == Seq::<Function>::empty(),
            m.basic_blocks@ == Seq::<BasicBlock>::empty(),
            m.values@ == Seq::<Value>::empty(),
            m.types@ == Seq::<Type>::empty(),
    {
        Module {
            name,
            functions: Vec::new(),
            basic_blocks: Vec::new(),
            values: Vec::new(),
            types: Vec::new(),
        }
    }

    /// Allocates a function node with the given name and signature; always
    /// succeeds, and grows the function count by exactly one.
    pub fn function(&mut self, name: Option<Vec<u8>>, ty: Option<TypeRef>) -> (r: FuncRef)
        ensures
            final(self).functions@ == old(self).functions@.push(Function { name, ty }),
            final(self).functions@.len() == old(self).functions@.len() + 1,
            r.0 == old(self).functions@.len(),
            final(self).basic_blocks@ == old(self).basic_blocks@,
            final(self).values@ == old(self).values@,
            final(self).types@ == old(self).types@,
            final(self).name@ == old(self).name@,
            module_extends(*old(self), *final(self)),
    {
        let r = FuncRef(self.functions.len());
        self.functions.push(Function { name, ty });
        proof {
            lemma_push_extends_functions(*old(self), *self);
        }
        r
    }

    /// Allocates an empty basic block recorded as belonging to `func`; grows
    /// the block count by exactly one.
    pub fn add_basic_block(&mut self, func: FuncRef, name: Option<Vec<u8>>) -> (r: BlockRef)
        requires
            func.0 < old(self).functions@.len(),
        ensures
            final(self).basic_blocks@.len() == old(self).basic_blocks@.len() + 1,
            final(self).basic_blocks@.drop_last() == old(self).basic_blocks@,
            final(self).basic_blocks@.last().function == func,
            final(self).basic_blocks@.last().name == name,
            final(self).basic_blocks@.last().insts@ == Seq::<ValueRef>::empty(),
            r.0 == old(self).basic_blocks@.len(),
            final(self).functions@ == old(self).functions@,
            final(self).values@ == old(self).values@,
            final(self).types@ == old(self).types@,
            final(self).name@ == old(self).name@,
            module_extends(*old(self), *final(self)),
    {
        let r = BlockRef(self.basic_blocks.len());
        self.basic_blocks.push(BasicBlock { function: func, name, insts: Vec::new() });
        proof {
            assert(final(self).basic_blocks@.drop_last() =~= old(self).basic_blocks@);
            lemma_push_extends_blocks(*old(self), *self);
        }
        r
    }

    /// Allocates a type node; grows the type count by exactly one.
    pub fn push_type(&mut self, t: Type) -> (r: TypeRef)
        ensures
            final(self).types@ == old(self).types@.push(t),
            final(self).types@.len() == old(self).types@.len() + 1,
            r.0 == old(self).types@.len(),
            final(self).functions@ == old(self).functions@,
            final(self).basic_blocks@ == old(self).basic_blocks@,
            final(self).values@ == old(self).values@,
            final(self).name@ == old(self).name@,
            module_extends(*old(self), *final(self)),
    {
        let r = TypeRef(self.types.len());
        self.types.push(t);
        proof {
            lemma_push_extends_types(*old(self), *self);
        }
        r
    }
}

/// A transient cursor bound to one basic block. It holds no state beyond the
/// block handle; any number of builders may be made for a block over time,
/// and each appends at the block's current end.
#[derive(Debug, Eq, PartialEq, Copy, Clone, Structural)]
pub struct Builder {
    pub bb: BlockRef,
}

impl BlockRef {
    /// A cursor positioned at this block.
    pub fn builder(self) -> (b: Builder)
        ensures
            b.bb == self,
    {
        Builder { bb: self }
    }
}

impl Builder {
    /// Allocates one value and appends its handle at the end of the cursor's
    /// block.
    fn append(&self, m: &mut Module, v: Value) -> (r: ValueRef)
        requires
            self.bb.0 < old(m).basic_blocks@.len(),
        ensures
            final(m).values@ == old(m).values@.push(v),
            final(m).values@.len() == old(m).values@.len() + 1,
            r.0 == old(m).values@.len(),
            final(m).functions@ == old(m).functions@,
            final(m).types@ == old(m).types@,
            final(m).name@ == old(m).name@,
            final(m).basic_blocks@.len() == old(m).basic_blocks@.len(),
            forall|b: int|
                0 <= b < old(m).basic_blocks@.len() && b != self.bb.0
                    ==> final(m).basic_blocks@[b] == old(m).basic_blocks@[b],
            final(m).basic_blocks@[self.bb.0 as int].function == old(m).basic_blocks@[self.bb.0
                as int].function,
            final(m).basic_blocks@[self.bb.0 as int].name == old(m).basic_blocks@[self.bb.0
                as int].name,
            final(m).basic_blocks@[self.bb.0 as int].insts@ == old(m).basic_blocks@[self.bb.0
                as int].insts@.push(r),
            module_extends(*old(m), *final(m)),
    {
        let r = ValueRef(m.values.len());
        m.values.push(v);
        m.basic_blocks[self.bb.0].insts.push(r);
        proof {
            assert(m.values@.subrange(0, old(m).values@.len() as int) =~= old(m).values@);
            assert(m.functions@.subrange(0, old(m).functions@.len() as int) =~= old(m).functions@);
            assert(m.types@.subrange(0, old(m).types@.len() as int) =~= old(m).types@);
            assert forall|b: int| 0 <= b < old(m).basic_blocks@.len() implies {
                let b1 = #[trigger] old(m).basic_blocks@[b];
                let b2 = m.basic_blocks@[b];
                &&& b2.function == b1.function
                &&& b2.name == b1.name
                &&& b1.insts@.len() <= b2.insts@.len()
                &&& b2.insts@.subrange(0, b1.insts@.len() as int) == b1.insts@
            } by {
                let b1 = old(m).basic_blocks@[b];
                let b2 = m.basic_blocks@[b];
                assert(b2.insts@.subrange(0, b1.insts@.len() as int) =~= b1.insts@);
            }
        }
        r
    }

    /// Allocates an integer type node in the module's type arena.
    pub fn type_int(&self, m: &mut Module, bits: u32) -> (r: TypeRef)
        ensures
            final(m).types@ == old(m).types@.push(Type::Integer(IntegerType { bits })),
            final(m).types@.len() == old(m).types@.len() + 1,
            r.0 == old(m).types@.len(),
            final(m).functions@ == old(m).functions@,
            final(m).basic_blocks@ == old(m).basic_blocks@,
            final(m).values@ == old(m).values@,
            final(m).name@ == old(m).name@,
            module_extends(*old(m), *final(m)),
    {
        m.push_type(Type::Integer(IntegerType { bits }))
    }

    /// Allocates an integer constant in the module's value arena. Constants
    /// belong to no block; they are referenced as operands.
    pub fn const_int(&self, m: &mut Module, value: u64, ty: TypeRef) -> (r: ValueRef)
        requires
            ty.0 < old(m).types@.len(),
        ensures
            final(m).values@ == old(m).values@.push(
                Value::Constant(Constant::ConstantInt(ConstantInt { value, ty })),
            ),
            final(m).values@.len() == old(m).values@.len() + 1,
            r.0 == old(m).values@.len(),
            value_ty(*final(m), r) == Some(ty),
            final(m).functions@ == old(m).functions@,
            final(m).basic_blocks@ == old(m).basic_blocks@,
            final(m).types@ == old(m).types@,
            final(m).name@ == old(m).name@,
            module_extends(*old(m), *final(m)),
    {
        let r = ValueRef(m.values.len());
        m.values.push(Value::Constant(Constant::ConstantInt(ConstantInt { value, ty })));
        proof {
            assert(m.values@.subrange(0, old(m).values@.len() as int) =~= old(m).values@);
            assert(m.functions@.subrange(0, old(m).functions@.len() as int) =~= old(m).functions@);
            assert(m.types@.subrange(0, old(m).types@.len() as int) =~= old(m).types@);
            lemma_unchanged_blocks_extend(*old(m), *m);
        }
        r
    }

    /// Allocates a pointer to immutable global string data, of pointer type
    /// `ty`. Globals belong to no block.
    pub fn global_string(&self, m: &mut Module, data: Vec<u8>, ty: TypeRef) -> (r: ValueRef)
        requires
            ty.0 < old(m).types@.len(),
        ensures
            final(m).values@ == old(m).values@.push(Value::GlobalString { data, ty }),
            final(m).values@.len() == old(m).values@.len() + 1,
            r.0 == old(m).values@.len(),
            value_ty(*final(m), r) == Some(ty),
            final(m).functions@ == old(m).functions@,
            final(m).basic_blocks@ == old(m).basic_blocks@,
            final(m).types@ == old(m).types@,
            final(m).name@ == old(m).name@,
            module_extends(*old(m), *final(m)),
    {
        let r = ValueRef(m.values.len());
        m.values.push(Value::GlobalString { data, ty });
        proof {
            assert(m.values@.subrange(0, old(m).values@.len() as int) =~= old(m).values@);
            assert(m.functions@.subrange(0, old(m).functions@.len() as int) =~= old(m).functions@);
            assert(m.types@.subrange(0, old(m).types@.len() as int) =~= old(m).types@);
            lemma_unchanged_blocks_extend(*old(m), *m);
        }
        r
    }

    /// Emits stack storage sized for `ty` at the cursor's block end.
    pub fn alloca(&self, m: &mut Module, ty: TypeRef, name: Vec<u8>) -> (r: ValueRef)
        requires
            self.bb.0 < old(m).basic_blocks@.len(),
            ty.0 < old(m).types@.len(),
        ensures
            final(m).values@ == old(m).values@.push(Value::Alloca { ty, name }),
            final(m).values@.len() == old(m).values@.len() + 1,
            r.0 == old(m).values@.len(),
            final(m).functions@ == old(m).functions@,
            final(m).types@ == old(m).types@,
            final(m).name@ == old(m).name@,
            final(m).basic_blocks@.len() == old(m).basic_blocks@.len(),
            forall|b: int|
                0 <= b < old(m).basic_blocks@.len() && b != self.bb.0
                    ==> final(m).basic_blocks@[b] == old(m).basic_blocks@[b],
            final(m).basic_blocks@[self.bb.0 as int].function == old(m).basic_blocks@[self.bb.0
                as int].function,
            final(m).basic_blocks@[self.bb.0 as int].name == old(m).basic_blocks@[self.bb.0
                as int].name,
            final(m).basic_blocks@[self.bb.0 as int].insts@ == old(m).basic_blocks@[self.bb.0
                as int].insts@.push(r),
            module_extends(*old(m), *final(m)),
    {
        self.append(m, Value::Alloca { ty, name })
    }

    /// Emits a store of `value` into `ptr` at the cursor's block end.
    pub fn store(&self, m: &mut Module, value: ValueRef, ptr: ValueRef) -> (r: ValueRef)
        requires
            self.bb.0 < old(m).basic_blocks@.len(),
            value.0 < old(m).values@.len(),
            ptr.0 < old(m).values@.len(),
        ensures
            final(m).values@ == old(m).values@.push(Value::Store { value, ptr }),
            final(m).values@.len() == old(m).values@.len() + 1,
            r.0 == old(m).values@.len(),
            final(m).functions@ == old(m).functions@,
            final(m).types@ == old(m).types@,
            final(m).name@ == old(m).name@,
            final(m).basic_blocks@.len() == old(m).basic_blocks@.len(),
            forall|b: int|
                0 <= b < old(m).basic_blocks@.len() && b != self.bb.0
                    ==> final(m).basic_blocks@[b] == old(m).basic_blocks@[b],
            final(m).basic_blocks@[self.bb.0 as int].function == old(m).basic_blocks@[self.bb.0
                as int].function,
            final(m).basic_blocks@[self.bb.0 as int].name == old(m).basic_blocks@[self.bb.0
                as int].name,
            final(m).basic_blocks@[self.bb.0 as int].insts@ == old(m).basic_blocks@[self.bb.0
                as int].insts@.push(r),
            module_extends(*old(m), *final(m)),
    {
        self.append(m, Value::Store { value, ptr })
    }

    /// Emits a call of `func` over already-emitted argument values at the
    /// cursor's block end.
    pub fn call(&self, m: &mut Module, func: FuncRef, args: Vec<ValueRef>) -> (r: ValueRef)
        requires
            self.bb.0 < old(m).basic_blocks@.len(),
            func.0 < old(m).functions@.len(),
        ensures
            final(m).values@ == old(m).values@.push(Value::Call { func, args }),
            final(m).values@.len() == old(m).values@.len() + 1,
            r.0 == old(m).values@.len(),
            value_ty(*final(m), r) == call_ret_ty(*old(m), func),
            final(m).functions@ == old(m).functions@,
            final(m).types@ == old(m).types@,
            final(m).name@ == old(m).name@,
            final(m).basic_blocks@.len() == old(m).basic_blocks@.len(),
            forall|b: int|
                0 <= b < old(m).basic_blocks@.len() && b != self.bb.0
                    ==> final(m).basic_blocks@[b] == old(m).basic_blocks@[b],
            final(m).basic_blocks@[self.bb.0 as int].function == old(m).basic_blocks@[self.bb.0
                as int].function,
            final(m).basic_blocks@[self.bb.0 as int].name == old(m).basic_blocks@[self.bb.0
                as int].name,
            final(m).basic_blocks@[self.bb.0 as int].insts@ == old(m).basic_blocks@[self.bb.0
                as int].insts@.push(r),
            module_extends(*old(m), *final(m)),
    {
        self.append(m, Value::Call { func, args })
    }

    /// Emits a value-carrying return at the cursor's block end.
    pub fn ret(&self, m: &mut Module, value: ValueRef) -> (r: ValueRef)
        requires
            self.bb.0 < old(m).basic_blocks@.len(),
            value.0 < old(m).values@.len(),
        ensures
            final(m).values@ == old(m).values@.push(Value::Ret { value }),
            final(m).values@.len() == old(m).values@.len() + 1,
            r.0 == old(m).values@.len(),
            final(m).functions@ == old(m).functions@,
            final(m).types@ == old(m).types@,
            final(m).name@ == old(m).name@,
            final(m).basic_blocks@.len() == old(m).basic_blocks@.len(),
            forall|b: int|
                0 <= b < old(m).basic_blocks@.len() && b != self.bb.0
                    ==> final(m).basic_blocks@[b] == old(m).basic_blocks@[b],
            final(m).basic_blocks@[self.bb.0 as int].function == old(m).basic_blocks@[self.bb.0
                as int].function,
            final(m).basic_blocks@[self.bb.0 as int].name == old(m).basic_blocks@[self.bb.0
                as int].name,
            final(m).basic_blocks@[self.bb.0 as int].insts@ == old(m).basic_blocks@[self.bb.0
                as int].insts@.push(r),
            module_extends(*old(m), *final(m)),
    {
        self.append(m, Value::Ret { value })
    }

    /// Emits a void return at the cursor's block end.
    pub fn ret_void(&self, m: &mut Module) -> (r: ValueRef)
        requires
            self.bb.0 < old(m).basic_blocks@.len(),
        ensures
            final(m).values@ == old(m).values@.push(Value::RetVoid),
            final(m).values@.len() == old(m).values@.len() + 1,
            r.0 == old(m).values@.len(),
            final(m).functions@ == old(m).functions@,
            final(m).types@ == old(m).types@,
            final(m).name@ == old(m).name@,
            final(m).basic_blocks@.len() == old(m).basic_blocks@.len(),
            forall|b: int|
                0 <= b < old(m).basic_blocks@.len() && b != self.bb.0
                    ==> final(m).basic_blocks@[b] == old(m).basic_blocks@[b],
            final(m).basic_blocks@[self.bb.0 as int].function == old(m).basic_blocks@[self.bb.0
                as int].function,
            final(m).basic_blocks@[self.bb.0 as int].name == old(m).basic_blocks@[self.bb.0
                as int].name,
            final(m).basic_blocks@[self.bb.0 as int].insts@ == old(m).basic_blocks@[self.bb.0
                as int].insts@.push(r),
            module_extends(*old(m), *final(m)),
    {
        self.append(m, Value::RetVoid)
    }
}

proof fn lemma_unchanged_blocks_extend(m1: Module, m2: Module)
    requires
        m2.basic_blocks@ == m1.basic_blocks@,
    ensures
        forall|b: int|
            0 <= b < m1.basic_blocks@.len() ==> {
                let b1 = #[trigger] m1.basic_blocks@[b];
                let b2 = m2.basic_blocks@[b];
                &&& b2.function == b1.function
                &&& b2.name == b1.name
                &&& b1.insts@.len() <= b2.insts@.len()
                &&& b2.insts@.subrange(0, b1.insts@.len() as int) == b1.insts@
            },
{
    assert forall|b: int| 0 <= b < m1.basic_blocks@.len() implies {
        let b1 = #[trigger] m1.basic_blocks@[b];
        let b2 = m2.basic_blocks@[b];
        &&& b2.function == b1.function
        &&& b2.name == b1.name
        &&& b1.insts@.len() <= b2.insts@.len()
        &&& b2.insts@.subrange(0, b1.insts@.len() as int) == b1.insts@
    } by {
        let b1 = m1.basic_blocks@[b];
        assert(b1.insts@.subrange(0, b1.insts@.len() as int) =~= b1.insts@);
    }
}

proof fn lemma_push_extends_functions(m1: Module, m2: Module)
    requires
        m2.name@ == m1.name@,
        m2.functions@.len() == m1.functions@.len() + 1,
        m2.functions@.subrange(0, m1.functions@.len() as int) =~= m1.functions@,
        m2.values@ == m1.values@,
        m2.types@ == m1.types@,
        m2.basic_blocks@ == m1.basic_blocks@,
    ensures
        module_extends(m1, m2),
{
    assert(m2.values@.subrange(0, m1.values@.len() as int) =~= m1.values@);
    assert(m2.types@.subrange(0, m1.types@.len() as int) =~= m1.types@);
    lemma_unchanged_blocks_extend(m1, m2);
}

proof fn lemma_push_extends_types(m1: Module, m2: Module)
    requires
        m2.name@ == m1.name@,
        m2.types@.len() == m1.types@.len() + 1,
        m2.types@.subrange(0, m1.types@.len() as int) =~= m1.types@,
        m2.values@ == m1.values@,
        m2.functions@ == m1.functions@,
        m2.basic_blocks@ == m1.basic_blocks@,
    ensures
        module_extends(m1, m2),
{
    assert(m2.values@.subrange(0, m1.values@.len() as int) =~= m1.values@);
    assert(m2.functions@.subrange(0, m1.functions@.len() as int) =~= m1.functions@);
    lemma_unchanged_blocks_extend(m1, m2);
}

proof fn lemma_push_extends_blocks(m1: Module, m2: Module)
    requires
        m2.name@ == m1.name@,
        m2.basic_blocks@.len() == m1.basic_blocks@.len() + 1,
        m2.basic_blocks@.drop_last() =~= m1.basic_blocks@,
        m2.values@ == m1.values@,
        m2.functions@ == m1.functions@,
        m2.types@ == m1.types@,
    ensures
        module_extends(m1, m2),
{
    assert(m2.values@.subrange(0, m1.values@.len() as int) =~= m1.values@);
    assert(m2.functions@.subrange(0, m1.functions@.len() as int) =~= m1.functions@);
    assert(m2.types@.subrange(0, m1.types@.len() as int) =~= m1.types@);
    assert forall|b: int| 0 <= b < m1.basic_blocks@.len() implies {
        let b1 = #[trigger] m1.basic_blocks@[b];
        let b2 = m2.basic_blocks@[b];
        &&& b2.function == b1.function
        &&& b2.name == b1.name
        &&& b1.insts@.len() <= b2.insts@.len()
        &&& b2.insts@.subrange(0, b1.insts@.len() as int) == b1.insts@
    } by {
        let b1 = m1.basic_blocks@[b];
        assert(m2.basic_blocks@[b] == m2.basic_blocks@.drop_last()[b]);
        assert(b1.insts@.subrange(0, b1.insts@.len() as int) =~= b1.insts@);
    }
}

} // verus!
