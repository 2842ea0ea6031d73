//! The typed abstract syntax tree, together with the append-only type
//! registry and the symbol table built while parsing.
//!
//! Types are handed out as opaque `TyId` indexes into the registry; the four
//! builtin types are reserved at creation and the grammar introduces no
//! others. Items are handed out as `ItemId` indexes in declaration order.
//! The symbol table records `name -> ItemId` with last-write-wins on
//! duplicate names.

use vstd::prelude::*;

verus! {

/// An opaque index into the type registry.
#[derive(Debug, Eq, PartialEq, Copy, Clone, Structural)]
pub struct TyId(pub u32);

/// An opaque index into the item list.
#[derive(Debug, Eq, PartialEq, Hash, Copy, Clone, Structural)]
pub struct ItemId(pub u32);

/// The fixed builtin types.
#[derive(Debug, Eq, PartialEq, Copy, Clone, Structural)]
pub enum BuiltinTy {
    Void,
    Bool,
    I64,
    Str,
}

/// A registered type; only builtins exist today.
#[derive(Debug, Eq, PartialEq, Copy, Clone, Structural)]
pub enum Ty {
    Builtin(BuiltinTy),
}

/// A top-level function declaration, with an optional body.
#[derive(Debug)]
pub struct Func {
    pub name: Vec<u8>,
    pub return_ty: TyId,
    pub args: Vec<(Vec<u8>, TyId)>,
    pub stmts: Option<Vec<Stmt>>,
}

/// A top-level item; only functions exist today.
#[derive(Debug)]
pub enum Item {
    Func(Func),
}

/// A statement in a function body.
#[derive(Debug)]
pub enum Stmt {
    Expr(Expr),
    Local(Local),
    Return(Return),
}

/// A return statement, with an optional value.
#[derive(Debug)]
pub struct Return {
    pub value: Option<Expr>,
}

/// A local binding `let name = init`.
#[derive(Debug)]
pub struct Local {
    pub name: Vec<u8>,
    pub init: Expr,
}

/// A call of an already-declared function.
#[derive(Debug)]
pub struct FuncCall {
    pub func: ItemId,
    pub args: Vec<Expr>,
}

/// The shapes an expression can take.
#[derive(Debug)]
pub enum ExprKind {
    NumberLit(i64),
    BoolLit(bool),
    StringLit(Vec<u8>),
    FuncCall(FuncCall),
}

/// An expression together with the type it committed to at construction.
#[derive(Debug)]
pub struct Expr {
    pub kind: ExprKind,
    pub ty: TyId,
}

impl Expr {
    pub fn new(kind: ExprKind, ty: TyId) -> (r: Expr)
        ensures
            r.kind == kind,
            r.ty == ty,
    {
        Expr { kind, ty }
    }
}

pub open spec fn ty_void_id() -> TyId {
    TyId(0)
}

pub open spec fn ty_i64_id() -> TyId {
    TyId(1)
}

pub open spec fn ty_str_id() -> TyId {
    TyId(2)
}

pub open spec fn ty_bool_id() -> TyId {
    TyId(3)
}

/// The registry contents reserved at creation: the builtin types, in id order.
pub open spec fn builtin_tys() -> Seq<Ty> {
    seq![
        Ty::Builtin(BuiltinTy::Void),
        Ty::Builtin(BuiltinTy::I64),
        Ty::Builtin(BuiltinTy::Str),
        Ty::Builtin(BuiltinTy::Bool),
    ]
}

/// A `TyId` is valid iff it indexes within the registry, which holds exactly
/// the builtins.
pub open spec fn ty_id_valid(t: TyId) -> bool {
    t.0 < builtin_tys().len()
}

pub open spec fn item_func(it: Item) -> Func {
    match it {
        Item::Func(f) => f,
    }
}

pub open spec fn item_name(it: Item) -> Seq<u8> {
    item_func(it).name@
}

pub open spec fn item_return_ty(it: Item) -> TyId {
    item_func(it).return_ty
}

/// Well-typedness and declare-before-use for an expression: its committed type
/// agrees with its kind, and every call targets an item declared among the
/// first `n`.
pub open spec fn expr_wf(e: Expr, items: Seq<Item>, n: int) -> bool
    decreases e,
{
    match e.kind {
        ExprKind::NumberLit(_) => e.ty == ty_i64_id(),
        ExprKind::BoolLit(_) => e.ty == ty_bool_id(),
        ExprKind::StringLit(_) => e.ty == ty_str_id(),
        ExprKind::FuncCall(fc) => {
            &&& fc.func.0 < n
            &&& fc.func.0 < items.len()
            &&& e.ty == item_return_ty(items[fc.func.0 as int])
            &&& forall|j: int|
                0 <= j < fc.args@.len() ==> expr_wf(#[trigger] fc.args@[j], items, n)
        },
    }
}

pub open spec fn stmt_wf(s: Stmt, items: Seq<Item>, n: int) -> bool {
    match s {
        Stmt::Expr(e) => expr_wf(e, items, n),
        Stmt::Local(l) => expr_wf(l.init, items, n),
        Stmt::Return(r) => match r.value {
            Some(e) => expr_wf(e, items, n),
            None => true,
        },
    }
}

/// A function declared at position `n` is well formed when its types are
/// valid and its body only calls items declared before it.
pub open spec fn func_wf(f: Func, items: Seq<Item>, n: int) -> bool {
    &&& ty_id_valid(f.return_ty)
    &&& forall|j: int| 0 <= j < f.args@.len() ==> ty_id_valid((#[trigger] f.args@[j]).1)
    &&& match f.stmts {
        Some(ss) => forall|j: int| 0 <= j < ss@.len() ==> stmt_wf(#[trigger] ss@[j], items, n),
        None => true,
    }
}

pub open spec fn item_wf(it: Item, items: Seq<Item>, n: int) -> bool {
    match it {
        Item::Func(f) => func_wf(f, items, n),
    }
}

/// What the symbol table means: the id bound to `name`, taking the latest
/// insertion when names repeat.
pub open spec fn symbols_lookup(syms: Seq<(Vec<u8>, ItemId)>, name: Seq<u8>) -> Option<ItemId>
    decreases syms.len(),
{
    if syms.len() == 0 {
        None
    } else if syms.last().0@ == name {
        Some(syms.last().1)
    } else {
        symbols_lookup(syms.drop_last(), name)
    }
}

/// The whole-tree invariant that parsing establishes and lowering relies on:
/// the registry holds exactly the builtins, every item is well formed against
/// the items declared before it, and every symbol-table entry indexes a
/// declared item of that name.
pub open spec fn ast_wf(a: Ast) -> bool {
    &&& a.tys@ == builtin_tys()
    &&& a.items@.len() <= u32::MAX
    &&& forall|i: int| 0 <= i < a.items@.len() ==> item_wf(#[trigger] a.items@[i], a.items@, i)
    &&& forall|k: int|
        0 <= k < a.symbols@.len() ==> (#[trigger] a.symbols@[k]).1.0 < a.items@.len()
            && item_name(a.items@[a.symbols@[k].1.0 as int]) == a.symbols@[k].0@
}

/// The typed tree: declared items, the type registry, and the symbol table.
#[derive(Debug)]
pub struct Ast {
    pub items: Vec<Item>,
    pub tys: Vec<Ty>,
    pub symbols: Vec<(Vec<u8>, ItemId)>,
}

impl Ast {
    /// An empty tree with the builtin types reserved.
    pub fn new() -> (r: Ast)
        ensures
            r.items@ == Seq::<Item>::empty(),
            r.symbols@ == Seq::<(Vec<u8>, ItemId)>::empty(),
            r.tys@ == builtin_tys(),
            ast_wf(r),
    {
        let mut tys: Vec<Ty> = Vec::new();
        tys.push(Ty::Builtin(BuiltinTy::Void));
        tys.push(Ty::Builtin(BuiltinTy::I64));
        tys.push(Ty::Builtin(BuiltinTy::Str));
        tys.push(Ty::Builtin(BuiltinTy::Bool));
        proof {
            assert(tys@ =~= builtin_tys());
        }
        Ast { items: Vec::new(), tys, symbols: Vec::new() }
    }

    /// Resolves a valid type id to the registered type.
    pub fn ty(&self, ty: TyId) -> (r: &Ty)
        requires
            ty.0 < self.tys@.len(),
        ensures
            *r == self.tys@[ty.0 as int],
    {
        &self.tys[ty.0 as usize]
    }

    /// Resolves a valid item id to its function.
    pub fn func(&self, item: ItemId) -> (r: &Func)
        requires
            item.0 < self.items@.len(),
        ensures
            *r == item_func(self.items@[item.0 as int]),
    {
        match &self.items[item.0 as usize] {
            Item::Func(x) => x,
        }
    }

    /// Appends an item, handing back its id.
    pub fn push(&mut self, item: Item) -> (r: ItemId)
        requires
            old(self).items@.len() < u32::MAX,
        ensures
            final(self).items@ == old(self).items@.push(item),
            final(self).tys@ == old(self).tys@,
            final(self).symbols@ == old(self).symbols@,
            r.0 == old(self).items@.len(),
    {
        let id = ItemId(self.items.len() as u32);
        self.items.push(item);
        id
    }

    /// Binds `name` to `id`, shadowing any earlier binding of the same name.
    pub fn insert_symbol(&mut self, name: Vec<u8>, id: ItemId)
        ensures
            final(self).symbols@ == old(self).symbols@.push((name, id)),
            final(self).items@ == old(self).items@,
            final(self).tys@ == old(self).tys@,
            forall|q: Seq<u8>|
                symbols_lookup(final(self).symbols@, q) == if q == name@ {
                    Some(id)
                } else {
                    symbols_lookup(old(self).symbols@, q)
                },
    {
        self.symbols.push((name, id));
        proof {
            assert(final(self).symbols@.drop_last() =~= old(self).symbols@);
        }
    }

    /// Looks `name` up in the symbol table, latest binding first.
    pub fn lookup_symbol(&self, name: &Vec<u8>) -> (r: Option<ItemId>)
        ensures
            r == symbols_lookup(self.symbols@, name@),
    {
        let mut i: usize = self.symbols.len();
        proof {
            assert(self.symbols@.subrange(0, self.symbols@.len() as int) =~= self.symbols@);
        }
        while i > 0
            invariant
                i <= self.symbols@.len(),
                symbols_lookup(self.symbols@.subrange(0, i as int), name@) == symbols_lookup(
                    self.symbols@,
                    name@,
                ),
            decreases i,
        {
            i = i - 1;
            if bytes_eq(&self.symbols[i].0, name) {
                proof {
                    let pre = self.symbols@.subrange(0, i + 1);
                    assert(pre.last() == self.symbols@[i as int]);
                }
                return Some(self.symbols[i].1);
            }
            proof {
                let pre = self.symbols@.subrange(0, i + 1);
                assert(pre.last() == self.symbols@[i as int]);
                assert(pre.drop_last() =~= self.symbols@.subrange(0, i as int));
            }
        }
        proof {
            assert(self.symbols@.subrange(0, 0) =~= Seq::<(Vec<u8>, ItemId)>::empty());
        }
        None
    }
}

/// A successful lookup names an entry of the table: some binding holds
/// exactly this name and id.
pub proof fn lemma_lookup_some(syms: Seq<(Vec<u8>, ItemId)>, name: Seq<u8>, id: ItemId)
    requires
        symbols_lookup(syms, name) == Some(id),
    ensures
        exists|k: int| 0 <= k < syms.len() && (#[trigger] syms[k]).1 == id && syms[k].0@ == name,
    decreases syms.len(),
{
    if syms.len() > 0 {
        if syms.last().0@ == name {
            assert(syms[syms.len() - 1].1 == id);
        } else {
            lemma_lookup_some(syms.drop_last(), name, id);
            let k = choose|k: int|
                0 <= k < syms.drop_last().len() && (#[trigger] syms.drop_last()[k]).1 == id
                    && syms.drop_last()[k].0@ == name;
            assert(syms[k] == syms.drop_last()[k]);
        }
    }
}

/// Well-typedness of an expression survives appending items, since it only
/// speaks of the first `n`.
pub proof fn lemma_expr_wf_grow(e: Expr, items: Seq<Item>, extended: Seq<Item>, n: int)
    requires
        expr_wf(e, items, n),
        n <= items.len() <= extended.len(),
        forall|i: int| 0 <= i < items.len() ==> extended[i] == items[i],
    ensures
        expr_wf(e, extended, n),
    decreases e,
{
    match e.kind {
        ExprKind::FuncCall(fc) => {
            assert(extended[fc.func.0 as int] == items[fc.func.0 as int]);
            assert forall|j: int| 0 <= j < fc.args@.len() implies expr_wf(
                #[trigger] fc.args@[j],
                extended,
                n,
            ) by {
                lemma_expr_wf_grow(fc.args@[j], items, extended, n);
            }
        },
        _ => {},
    }
}

/// `lemma_expr_wf_grow`, lifted to statements.
pub proof fn lemma_stmt_wf_grow(s: Stmt, items: Seq<Item>, extended: Seq<Item>, n: int)
    requires
        stmt_wf(s, items, n),
        n <= items.len() <= extended.len(),
        forall|i: int| 0 <= i < items.len() ==> extended[i] == items[i],
    ensures
        stmt_wf(s, extended, n),
{
    match s {
        Stmt::Expr(e) => lemma_expr_wf_grow(e, items, extended, n),
        Stmt::Local(l) => lemma_expr_wf_grow(l.init, items, extended, n),
        Stmt::Return(r) => match r.value {
            Some(e) => lemma_expr_wf_grow(e, items, extended, n),
            None => {},
        },
    }
}

/// `lemma_expr_wf_grow`, lifted to whole items.
pub proof fn lemma_item_wf_grow(it: Item, items: Seq<Item>, extended: Seq<Item>, n: int)
    requires
        item_wf(it, items, n),
        n <= items.len() <= extended.len(),
        forall|i: int| 0 <= i < items.len() ==> extended[i] == items[i],
    ensures
        item_wf(it, extended, n),
{
    match it {
        Item::Func(f) => match f.stmts {
            Some(ss) => {
                assert forall|j: int| 0 <= j < ss@.len() implies stmt_wf(
                    #[trigger] ss@[j],
                    extended,
                    n,
                ) by {
                    lemma_stmt_wf_grow(ss@[j], items, extended, n);
                }
            },
            None => {},
        },
    }
}

/// Well-typedness against the first `n` items also holds against any larger
/// prefix.
pub proof fn lemma_expr_wf_mono(e: Expr, items: Seq<Item>, n: int, n2: int)
    requires
        expr_wf(e, items, n),
        n <= n2,
    ensures
        expr_wf(e, items, n2),
    decreases e,
{
    match e.kind {
        ExprKind::FuncCall(fc) => {
            assert forall|j: int| 0 <= j < fc.args@.len() implies expr_wf(
                #[trigger] fc.args@[j],
                items,
                n2,
            ) by {
                lemma_expr_wf_mono(fc.args@[j], items, n, n2);
            }
        },
        _ => {},
    }
}

/// `lemma_expr_wf_mono`, lifted to statements.
pub proof fn lemma_stmt_wf_mono(s: Stmt, items: Seq<Item>, n: int, n2: int)
    requires
        stmt_wf(s, items, n),
        n <= n2,
    ensures
        stmt_wf(s, items, n2),
{
    match s {
        Stmt::Expr(e) => lemma_expr_wf_mono(e, items, n, n2),
        Stmt::Local(l) => lemma_expr_wf_mono(l.init, items, n, n2),
        Stmt::Return(r) => match r.value {
            Some(e) => lemma_expr_wf_mono(e, items, n, n2),
            None => {},
        },
    }
}

/// In a well-formed tree, the type an expression committed to is a valid
/// registry id.
pub proof fn lemma_expr_ty_valid(a: Ast, e: Expr, n: int)
    requires
        ast_wf(a),
        expr_wf(e, a.items@, n),
        n <= a.items@.len(),
    ensures
        ty_id_valid(e.ty),
{
    match e.kind {
        ExprKind::FuncCall(fc) => {
            assert(item_wf(a.items@[fc.func.0 as int], a.items@, fc.func.0 as int));
        },
        _ => {},
    }
}

/// A fresh copy of a byte buffer.
pub fn bytes_clone(v: &Vec<u8>) -> (r: Vec<u8>)
    ensures
        r@ == v@,
{
    let mut out: Vec<u8> = Vec::new();
    let mut i: usize = 0;
    while i < v.len()
        invariant
            i <= v@.len(),
            out@ == v@.subrange(0, i as int),
        decreases v@.len() - i,
    {
        out.push(v[i]);
        proof {
            assert(out@ =~= v@.subrange(0, i + 1));
        }
        i = i + 1;
    }
    proof {
        assert(v@.subrange(0, v@.len() as int) =~= v@);
    }
    out
}

/// Byte-for-byte equality of two buffers.
pub fn bytes_eq(a: &Vec<u8>, b: &Vec<u8>) -> (r: bool)
    ensures
        r <==> a@ == b@,
{
    if a.len() != b.len() {
        return false;
    }
    let mut i: usize = 0;
    while i < a.len()
        invariant
            a@.len() == b@.len(),
            i <= a@.len(),
            forall|j: int| 0 <= j < i ==> a@[j] == b@[j],
        decreases a@.len() - i,
    {
        if a[i] != b[i] {
            return false;
        }
        i = i + 1;
    }
    proof {
        assert(a@ =~= b@);
    }
    true
}

} // verus!
