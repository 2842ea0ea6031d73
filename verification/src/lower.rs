//! The lowering pass: walks the typed tree in declaration order and
//! populates an IR module through the builder.
//!
//! For each function it translates the parameter and return types, creates
//! the IR function with that signature, and — when a body is present —
//! appends one entry block and emits the statements into it. A call site
//! looks its callee up among the already-lowered functions, which the tree's
//! declare-before-use invariant guarantees to exist. Lowering never retypes:
//! the IR type of every emitted expression value is exactly the lowering of
//! the `TyId` the parser recorded.

use vstd::prelude::*;

use crate::ast::{
    ast_wf, bytes_clone, expr_wf, func_wf, item_func, item_name, item_return_ty, item_wf,
    lemma_expr_ty_valid, lemma_stmt_wf_mono, stmt_wf, ty_bool_id, ty_i64_id,
    ty_id_valid, ty_str_id, ty_void_id, Ast, BuiltinTy, Expr, ExprKind, Func, Item, Local, Stmt,
    Ty, TyId,
};
use crate::ir::{
    call_ret_ty, lemma_module_extends_refl, lemma_module_extends_trans, module_extends, value_ty,
    BlockRef, Builder, Constant, ConstantInt, FuncRef, Function, FunctionType, IntegerType,
    Module, Type, TypeRef, Value, ValueRef,
};

verus! {

/// The lowering state: the module being populated, the IR function lowered
/// for each item so far (indexed by item id), and the cached type handles
/// the builtins translate to.
pub struct Gen {
    pub module: Module,
    pub symbols: Vec<FuncRef>,
    pub ty_void: TypeRef,
    pub ty_i1: TypeRef,
    pub ty_i8: TypeRef,
    pub ty_i64: TypeRef,
    pub ty_str: TypeRef,
}

/// The handle a builtin `TyId` lowers to, against the cached handles.
pub open spec fn translate_ty_spec(g: Gen, t: TyId) -> TypeRef {
    if t == ty_void_id() {
        g.ty_void
    } else if t == ty_i64_id() {
        g.ty_i64
    } else if t == ty_str_id() {
        g.ty_str
    } else {
        g.ty_i1
    }
}

/// The cached handles name the right type nodes: `void`, the 1-, 8- and
/// 64-bit integers, and `str` as a pointer to 8-bit integers.
pub open spec fn gen_types_ok(g: Gen) -> bool {
    &&& g.ty_void.0 < g.module.types@.len()
    &&& g.module.types@[g.ty_void.0 as int] is Void
    &&& g.ty_i1.0 < g.module.types@.len()
    &&& g.module.types@[g.ty_i1.0 as int] == Type::Integer(IntegerType { bits: 1 })
    &&& g.ty_i8.0 < g.module.types@.len()
    &&& g.module.types@[g.ty_i8.0 as int] == Type::Integer(IntegerType { bits: 8 })
    &&& g.ty_i64.0 < g.module.types@.len()
    &&& g.module.types@[g.ty_i64.0 as int] == Type::Integer(IntegerType { bits: 64 })
    &&& g.ty_str.0 < g.module.types@.len()
    &&& g.module.types@[g.ty_str.0 as int] == Type::Pointer(g.ty_i8)
}

/// The cached handles of two lowering states agree.
pub open spec fn gen_cached_same(g1: Gen, g2: Gen) -> bool {
    &&& g2.ty_void == g1.ty_void
    &&& g2.ty_i1 == g1.ty_i1
    &&& g2.ty_i8 == g1.ty_i8
    &&& g2.ty_i64 == g1.ty_i64
    &&& g2.ty_str == g1.ty_str
}

/// The first `k` items are lowered: item `i` became IR function `i`, whose
/// name is the item's and whose signature type is the translation of the
/// item's declared signature.
pub open spec fn lowered_prefix_ok(g: Gen, items: Seq<Item>, k: int) -> bool {
    &&& 0 <= k <= g.symbols@.len()
    &&& k <= g.module.functions@.len()
    &&& forall|i: int|
        0 <= i < k ==> (#[trigger] g.symbols@[i]).0 == i && func_sig_ok(
            g,
            g.symbols@[i],
            items[i],
        )
}

/// The IR function `fr` carries the lowered signature of item `it`.
pub open spec fn func_sig_ok(g: Gen, fr: FuncRef, it: Item) -> bool {
    &&& fr.0 < g.module.functions@.len()
    &&& g.module.functions@[fr.0 as int].name matches Some(nm) && nm@ == item_name(it)
    &&& g.module.functions@[fr.0 as int].ty matches Some(tr) && tr.0 < g.module.types@.len() && (
    g.module.types@[tr.0 as int] matches Type::Function(ft) && ft.return_ty == translate_ty_spec(
        g,
        item_return_ty(it),
    ) && ft.vararg == false && ft.params@.len() == item_func(it).args@.len() && (forall|j: int|
        0 <= j < ft.params@.len() ==> (#[trigger] ft.params@[j]) == translate_ty_spec(
            g,
            item_func(it).args@[j].1,
        )))
}

/// Whether an item carries a body to lower.
pub open spec fn item_has_body(it: Item) -> bool {
    item_func(it).stmts is Some
}

/// How many of the first `k` items carry a body.
pub open spec fn count_bodies(items: Seq<Item>, k: int) -> int
    decreases k,
{
    if k <= 0 {
        0
    } else {
        count_bodies(items, k - 1) + if 0 <= k - 1 < items.len() && item_has_body(
            items[k - 1],
        ) {
            1int
        } else {
            0int
        }
    }
}

/// How a module states that handle `tr` is the lowering of registry type
/// `t`, without reference to the lowering state: `void` and `bool`/`i64`
/// lower to the corresponding IR types, and `str` to a pointer to 8-bit
/// integers.
pub open spec fn type_is_lowering_of(m: Module, tr: TypeRef, t: TyId) -> bool {
    &&& tr.0 < m.types@.len()
    &&& if t == ty_void_id() {
        m.types@[tr.0 as int] is Void
    } else if t == ty_i64_id() {
        m.types@[tr.0 as int] == Type::Integer(IntegerType { bits: 64 })
    } else if t == ty_bool_id() {
        m.types@[tr.0 as int] == Type::Integer(IntegerType { bits: 1 })
    } else {
        m.types@[tr.0 as int] matches Type::Pointer(p) && p.0 < m.types@.len()
            && m.types@[p.0 as int] == Type::Integer(IntegerType { bits: 8 })
    }
}

/// `v` names the emitted lowering of expression `e` in `m`: the value node
/// mirrors the expression's kind, a call's argument values are, in order,
/// the lowerings of its argument expressions, and the value's IR type is the
/// lowering of the `TyId` the parser recorded — lowering never retypes.
pub open spec fn expr_value_ok(m: Module, e: Expr, v: ValueRef) -> bool
    decreases e,
{
    &&& v.0 < m.values@.len()
    &&& value_ty(m, v) matches Some(tr) && type_is_lowering_of(m, tr, e.ty)
    &&& match e.kind {
        ExprKind::NumberLit(x) => m.values@[v.0 as int] matches Value::Constant(
            Constant::ConstantInt(ci),
        ) && ci.value == x as u64,
        ExprKind::BoolLit(x) => m.values@[v.0 as int] matches Value::Constant(
            Constant::ConstantInt(ci),
        ) && ci.value == (if x {
            1u64
        } else {
            0u64
        }),
        ExprKind::StringLit(sv) => m.values@[v.0 as int] matches Value::GlobalString {
            data,
            ..
        } && data@ == sv@,
        ExprKind::FuncCall(fc) => m.values@[v.0 as int] matches Value::Call { func, args }
            && func.0 == fc.func.0 && args@.len() == fc.args@.len() && (forall|j: int|
            0 <= j < fc.args@.len() ==> expr_value_ok(m, #[trigger] fc.args@[j], args@[j])),
    }
}

pub open spec fn is_call_inst(m: Module, v: ValueRef) -> bool {
    v.0 < m.values@.len() && m.values@[v.0 as int] is Call
}

pub open spec fn all_call_insts(m: Module, seg: Seq<ValueRef>) -> bool {
    forall|j: int| 0 <= j < seg.len() ==> is_call_inst(m, #[trigger] seg[j])
}

/// The block-instruction segment one statement contributes, in order: a
/// local binding emits its stack allocation, then the call instructions of
/// its initializer, then the store; a return emits its value's calls and the
/// return; an expression statement emits just its calls. Expressions without
/// a call emit no instruction at all (their values are operands).
#[verifier::opaque]
pub open spec fn stmt_seg_ok(m: Module, s: Stmt, seg: Seq<ValueRef>) -> bool {
    match s {
        Stmt::Expr(e) => if e.kind is FuncCall {
            seg.len() >= 1 && all_call_insts(m, seg) && expr_value_ok(m, e, seg.last())
        } else {
            seg.len() == 0
        },
        Stmt::Local(l) => {
            &&& seg.len() >= 2
            &&& (!(l.init.kind is FuncCall) ==> seg.len() == 2)
            &&& seg[0].0 < m.values@.len()
            &&& m.values@[seg[0].0 as int] matches Value::Alloca { ty, name } && name@ == l.name@
                && type_is_lowering_of(m, ty, l.init.ty)
            &&& seg.last().0 < m.values@.len()
            &&& m.values@[seg.last().0 as int] matches Value::Store { value, ptr } && ptr == seg[0]
                && expr_value_ok(m, l.init, value) && (l.init.kind is FuncCall ==> seg.len() >= 3
                && seg[seg.len() - 2] == value)
            &&& all_call_insts(m, seg.subrange(1, seg.len() - 1))
        },
        Stmt::Return(r) => match r.value {
            None => seg.len() == 1 && seg[0].0 < m.values@.len() && m.values@[seg[0].0 as int]
                is RetVoid,
            Some(e) => {
                &&& seg.len() >= 1
                &&& (!(e.kind is FuncCall) ==> seg.len() == 1)
                &&& seg.last().0 < m.values@.len()
                &&& m.values@[seg.last().0 as int] matches Value::Ret { value } && expr_value_ok(
                    m,
                    e,
                    value,
                ) && (e.kind is FuncCall ==> seg.len() >= 2 && seg[seg.len() - 2] == value)
                &&& all_call_insts(m, seg.subrange(0, seg.len() - 1))
            },
        },
    }
}

/// The instruction list realizes the statements from index `i` on, in
/// order: it splits into one segment per statement.
pub open spec fn stmts_insts_ok(m: Module, stmts: Seq<Stmt>, insts: Seq<ValueRef>, i: int) -> bool
    decreases stmts.len() - i,
{
    if i >= stmts.len() {
        insts.len() == 0
    } else {
        exists|k: int|
            0 <= k <= insts.len() && stmt_seg_ok(m, stmts[i], #[trigger] insts.subrange(0, k))
                && stmts_insts_ok(m, stmts, insts.subrange(k, insts.len() as int), i + 1)
    }
}

/// Whether a function's body falls off its end without a return while the
/// function returns `void`, so that lowering closes it with a void return.
pub open spec fn needs_void_epilogue(f: Func) -> bool {
    f.return_ty == TyId(0) && (f.stmts matches Some(ss) && (ss@.len() == 0 || !(ss@.last()
        is Return)))
}

/// The whole instruction list of a lowered body: one segment per statement,
/// in declaration order, closed by one void return exactly when the body
/// falls off the end of a `void` function — and nothing else.
pub open spec fn body_insts_ok(m: Module, f: Func, insts: Seq<ValueRef>) -> bool {
    f.stmts matches Some(ss) && if needs_void_epilogue(f) {
        &&& insts.len() >= 1
        &&& insts.last().0 < m.values@.len()
        &&& m.values@[insts.last().0 as int] is RetVoid
        &&& stmts_insts_ok(m, ss@, insts.drop_last(), 0)
    } else {
        stmts_insts_ok(m, ss@, insts, 0)
    }
}

proof fn lemma_type_lowering_stable(m1: Module, m2: Module, tr: TypeRef, t: TyId)
    requires
        type_is_lowering_of(m1, tr, t),
        module_extends(m1, m2),
    ensures
        type_is_lowering_of(m2, tr, t),
{
    let t1 = m1.types@;
    let t2 = m2.types@;
    assert(t2[tr.0 as int] == t2.subrange(0, t1.len() as int)[tr.0 as int]);
    match t1[tr.0 as int] {
        Type::Pointer(p) => {
            assert(t2[p.0 as int] == t2.subrange(0, t1.len() as int)[p.0 as int]);
        },
        _ => {},
    }
}

proof fn lemma_value_ty_stable(m1: Module, m2: Module, v: ValueRef, tr: TypeRef)
    requires
        value_ty(m1, v) == Some(tr),
        module_extends(m1, m2),
    ensures
        value_ty(m2, v) == Some(tr),
{
    assert(m2.values@[v.0 as int] == m2.values@.subrange(0, m1.values@.len() as int)[v.0 as int]);
    match m1.values@[v.0 as int] {
        Value::Call { func, .. } => {
            assert(m2.functions@[func.0 as int] == m2.functions@.subrange(
                0,
                m1.functions@.len() as int,
            )[func.0 as int]);
            match m1.functions@[func.0 as int].ty {
                Some(ftr) => {
                    assert(m2.types@[ftr.0 as int] == m2.types@.subrange(
                        0,
                        m1.types@.len() as int,
                    )[ftr.0 as int]);
                },
                None => {},
            }
        },
        _ => {},
    }
}

proof fn lemma_expr_value_ok_stable(m1: Module, m2: Module, e: Expr, v: ValueRef)
    requires
        expr_value_ok(m1, e, v),
        module_extends(m1, m2),
    ensures
        expr_value_ok(m2, e, v),
    decreases e,
{
    assert(m2.values@[v.0 as int] == m2.values@.subrange(0, m1.values@.len() as int)[v.0 as int]);
    let tr = value_ty(m1, v)->Some_0;
    lemma_value_ty_stable(m1, m2, v, tr);
    lemma_type_lowering_stable(m1, m2, tr, e.ty);
    match e.kind {
        ExprKind::FuncCall(fc) => {
            let args = m1.values@[v.0 as int]->Call_args;
            assert forall|j: int| 0 <= j < fc.args@.len() implies expr_value_ok(
                m2,
                #[trigger] fc.args@[j],
                args@[j],
            ) by {
                lemma_expr_value_ok_stable(m1, m2, fc.args@[j], args@[j]);
            }
        },
        _ => {},
    }
}

proof fn lemma_all_call_stable(m1: Module, m2: Module, seg: Seq<ValueRef>)
    requires
        all_call_insts(m1, seg),
        module_extends(m1, m2),
    ensures
        all_call_insts(m2, seg),
{
    assert forall|j: int| 0 <= j < seg.len() implies is_call_inst(m2, #[trigger] seg[j]) by {
        assert(m2.values@[seg[j].0 as int] == m2.values@.subrange(
            0,
            m1.values@.len() as int,
        )[seg[j].0 as int]);
    }
}

proof fn lemma_stmt_seg_ok_stable(m1: Module, m2: Module, s: Stmt, seg: Seq<ValueRef>)
    requires
        stmt_seg_ok(m1, s, seg),
        module_extends(m1, m2),
    ensures
        stmt_seg_ok(m2, s, seg),
{
    reveal(stmt_seg_ok);
    match s {
        Stmt::Expr(e) => {
            if e.kind is FuncCall {
                lemma_all_call_stable(m1, m2, seg);
                lemma_expr_value_ok_stable(m1, m2, e, seg.last());
            }
        },
        Stmt::Local(l) => {
            assert(m2.values@[seg[0].0 as int] == m2.values@.subrange(
                0,
                m1.values@.len() as int,
            )[seg[0].0 as int]);
            assert(m2.values@[seg.last().0 as int] == m2.values@.subrange(
                0,
                m1.values@.len() as int,
            )[seg.last().0 as int]);
            let ty = m1.values@[seg[0].0 as int]->Alloca_ty;
            lemma_type_lowering_stable(m1, m2, ty, l.init.ty);
            let value = m1.values@[seg.last().0 as int]->Store_value;
            lemma_expr_value_ok_stable(m1, m2, l.init, value);
            lemma_all_call_stable(m1, m2, seg.subrange(1, seg.len() - 1));
        },
        Stmt::Return(r) => match r.value {
            None => {
                assert(m2.values@[seg[0].0 as int] == m2.values@.subrange(
                    0,
                    m1.values@.len() as int,
                )[seg[0].0 as int]);
            },
            Some(e) => {
                assert(m2.values@[seg.last().0 as int] == m2.values@.subrange(
                    0,
                    m1.values@.len() as int,
                )[seg.last().0 as int]);
                let value = m1.values@[seg.last().0 as int]->Ret_value;
                lemma_expr_value_ok_stable(m1, m2, e, value);
                lemma_all_call_stable(m1, m2, seg.subrange(0, seg.len() - 1));
            },
        },
    }
}

proof fn lemma_stmts_insts_ok_stable(
    m1: Module,
    m2: Module,
    stmts: Seq<Stmt>,
    insts: Seq<ValueRef>,
    i: int,
)
    requires
        stmts_insts_ok(m1, stmts, insts, i),
        module_extends(m1, m2),
    ensures
        stmts_insts_ok(m2, stmts, insts, i),
    decreases stmts.len() - i,
{
    if i < stmts.len() {
        let k = choose|k: int|
            0 <= k <= insts.len() && stmt_seg_ok(m1, stmts[i], #[trigger] insts.subrange(0, k))
                && stmts_insts_ok(m1, stmts, insts.subrange(k, insts.len() as int), i + 1);
        lemma_stmt_seg_ok_stable(m1, m2, stmts[i], insts.subrange(0, k));
        lemma_stmts_insts_ok_stable(m1, m2, stmts, insts.subrange(k, insts.len() as int), i + 1);
    }
}

proof fn lemma_body_insts_ok_stable(m1: Module, m2: Module, f: Func, insts: Seq<ValueRef>)
    requires
        body_insts_ok(m1, f, insts),
        module_extends(m1, m2),
    ensures
        body_insts_ok(m2, f, insts),
{
    let ss = f.stmts->Some_0;
    if needs_void_epilogue(f) {
        assert(m2.values@[insts.last().0 as int] == m2.values@.subrange(
            0,
            m1.values@.len() as int,
        )[insts.last().0 as int]);
        lemma_stmts_insts_ok_stable(m1, m2, ss@, insts.drop_last(), 0);
    } else {
        lemma_stmts_insts_ok_stable(m1, m2, ss@, insts, 0);
    }
}

proof fn lemma_bounds_mono(bounds: Seq<int>, a: int, b: int)
    requires
        0 <= a <= b < bounds.len(),
        forall|k: int| a <= k < b ==> #[trigger] bounds[k] <= bounds[k + 1],
    ensures
        bounds[a] <= bounds[b],
    decreases b - a,
{
    if a < b {
        lemma_bounds_mono(bounds, a + 1, b);
    }
}

/// Segments at recorded boundaries, one per statement, assemble into
/// `stmts_insts_ok` for the instruction range they tile.
/// A statement segment survives both appending instructions after it and
/// growing the module.
proof fn lemma_seg_shift(
    m1: Module,
    m2: Module,
    s: Stmt,
    insts1: Seq<ValueRef>,
    insts2: Seq<ValueRef>,
    a: int,
    b: int,
)
    requires
        stmt_seg_ok(m1, s, insts1.subrange(a, b)),
        module_extends(m1, m2),
        0 <= a <= b <= insts1.len(),
        insts1.len() <= insts2.len(),
        insts2.subrange(0, insts1.len() as int) == insts1,
    ensures
        stmt_seg_ok(m2, s, insts2.subrange(a, b)),
{
    assert(insts2.subrange(a, b) =~= insts1.subrange(a, b)) by {
        assert forall|z: int| a <= z < b implies insts2[z] == insts1[z] by {
            assert(insts2[z] == insts2.subrange(0, insts1.len() as int)[z]);
        }
    }
    lemma_stmt_seg_ok_stable(m1, m2, s, insts1.subrange(a, b));
}

#[verifier::rlimit(100)]
#[verifier::spinoff_prover]
proof fn lemma_assemble_body(
    m: Module,
    ss: Seq<Stmt>,
    insts: Seq<ValueRef>,
    bounds: Seq<int>,
    i: int,
)
    requires
        bounds.len() == ss.len() + 1,
        0 <= i <= ss.len(),
        forall|k: int| 0 <= k < ss.len() ==> 0 <= #[trigger] bounds[k] <= bounds[k + 1],
        bounds[0] == 0,
        bounds[ss.len() as int] <= insts.len(),
        forall|k: int|
            0 <= k < ss.len() ==> stmt_seg_ok(
                m,
                ss[k],
                insts.subrange(#[trigger] bounds[k], bounds[k + 1]),
            ),
    ensures
        stmts_insts_ok(m, ss, insts.subrange(bounds[i], bounds[ss.len() as int]), i),
    decreases ss.len() - i,
{
    if i < ss.len() {
        lemma_bounds_mono(bounds, 0, i);
        lemma_bounds_mono(bounds, i + 1, ss.len() as int);
        lemma_assemble_body(m, ss, insts, bounds, i + 1);
        let lo = bounds[i];
        let mid = bounds[i + 1];
        let hi = bounds[ss.len() as int];
        assert(0 <= lo && lo <= mid && mid <= hi && hi <= insts.len());
        let sub = insts.subrange(lo, hi);
        let k_split = mid - lo;
        assert(stmt_seg_ok(m, ss[i], sub.subrange(0, k_split))) by {
            assert(sub.subrange(0, k_split) =~= insts.subrange(lo, mid));
        }
        assert(stmts_insts_ok(m, ss, sub.subrange(k_split, sub.len() as int), i + 1)) by {
            assert(sub.subrange(k_split, sub.len() as int) =~= insts.subrange(mid, hi));
        }
        assert(stmts_insts_ok(m, ss, sub, i)) by {
            assert(0 <= k_split <= sub.len());
            assert(stmt_seg_ok(m, ss[i], sub.subrange(0, k_split)));
            assert(stmts_insts_ok(m, ss, sub.subrange(k_split, sub.len() as int), i + 1));
        }
    } else {
        lemma_bounds_mono(bounds, 0, ss.len() as int);
        assert(insts.subrange(bounds[i], bounds[ss.len() as int]).len() == 0);
    }
}

proof fn lemma_types_ok_stable(g1: Gen, g2: Gen)
    requires
        gen_types_ok(g1),
        gen_cached_same(g1, g2),
        module_extends(g1.module, g2.module),
    ensures
        gen_types_ok(g2),
{
    let t1 = g1.module.types@;
    let t2 = g2.module.types@;
    assert(t2[g1.ty_void.0 as int] == t2.subrange(0, t1.len() as int)[g1.ty_void.0 as int]);
    assert(t2[g1.ty_i1.0 as int] == t2.subrange(0, t1.len() as int)[g1.ty_i1.0 as int]);
    assert(t2[g1.ty_i8.0 as int] == t2.subrange(0, t1.len() as int)[g1.ty_i8.0 as int]);
    assert(t2[g1.ty_i64.0 as int] == t2.subrange(0, t1.len() as int)[g1.ty_i64.0 as int]);
    assert(t2[g1.ty_str.0 as int] == t2.subrange(0, t1.len() as int)[g1.ty_str.0 as int]);
}

proof fn lemma_prefix_ok_stable(g1: Gen, g2: Gen, items: Seq<Item>, k: int)
    requires
        lowered_prefix_ok(g1, items, k),
        gen_cached_same(g1, g2),
        k <= g2.symbols@.len(),
        forall|i: int| 0 <= i < k ==> g2.symbols@[i] == g1.symbols@[i],
        module_extends(g1.module, g2.module),
    ensures
        lowered_prefix_ok(g2, items, k),
{
    let f1 = g1.module.functions@;
    let f2 = g2.module.functions@;
    let t1 = g1.module.types@;
    let t2 = g2.module.types@;
    assert forall|i: int| 0 <= i < k implies (#[trigger] g2.symbols@[i]).0 == i && func_sig_ok(
        g2,
        g2.symbols@[i],
        items[i],
    ) by {
        let fr = g1.symbols@[i];
        assert(func_sig_ok(g1, fr, items[i]));
        assert(f2[fr.0 as int] == f2.subrange(0, f1.len() as int)[fr.0 as int]);
        match f1[fr.0 as int].ty {
            Some(tr) => {
                assert(t2[tr.0 as int] == t2.subrange(0, t1.len() as int)[tr.0 as int]);
            },
            None => {},
        }
    }
}

/// What one emission step may do to the lowering state: extend the arenas,
/// touch no block but the cursor's, rewrite no function, type or cached
/// handle, and leave the lowered-function table alone.
pub open spec fn gen_emit_ok(g1: Gen, g2: Gen, bb: BlockRef) -> bool {
    &&& gen_cached_same(g1, g2)
    &&& g2.symbols@ == g1.symbols@
    &&& module_extends(g1.module, g2.module)
    &&& g2.module.functions@ == g1.module.functions@
    &&& g2.module.types@ == g1.module.types@
    &&& g2.module.basic_blocks@.len() == g1.module.basic_blocks@.len()
    &&& forall|b: int|
        0 <= b < g1.module.basic_blocks@.len() && b != bb.0 ==> g2.module.basic_blocks@[b]
            == g1.module.basic_blocks@[b]
    &&& g1.module.values@.len() <= g2.module.values@.len()
}

proof fn lemma_gen_emit_trans(g1: Gen, g2: Gen, g3: Gen, bb: BlockRef)
    requires
        gen_emit_ok(g1, g2, bb),
        gen_emit_ok(g2, g3, bb),
    ensures
        gen_emit_ok(g1, g3, bb),
{
    lemma_module_extends_trans(g1.module, g2.module, g3.module);
}

/// Under correct cached handles, the translation of a valid registry type is
/// its lowering.
proof fn lemma_translate_is_lowering(g: Gen, t: TyId)
    requires
        gen_types_ok(g),
        ty_id_valid(t),
    ensures
        type_is_lowering_of(g.module, translate_ty_spec(g, t), t),
{
}

/// Whether a statement is a return statement.
fn stmt_is_return(s: &Stmt) -> (r: bool)
    ensures
        r == (*s is Return),
{
    match s {
        Stmt::Return(_) => true,
        _ => false,
    }
}

impl Gen {
    /// Translates a builtin type to its cached IR handle.
    fn translate_builtin(&self, builtin: &BuiltinTy) -> (r: TypeRef)
        ensures
            r == match *builtin {
                BuiltinTy::Void => self.ty_void,
                BuiltinTy::Bool => self.ty_i1,
                BuiltinTy::I64 => self.ty_i64,
                BuiltinTy::Str => self.ty_str,
            },
    {
        match builtin {
            BuiltinTy::Void => self.ty_void,
            BuiltinTy::Bool => self.ty_i1,
            BuiltinTy::I64 => self.ty_i64,
            BuiltinTy::Str => self.ty_str,
        }
    }

    /// Translates a registry `TyId` into the IR type it lowers to.
    fn translate_ty(&self, ast: &Ast, ty: TyId) -> (r: TypeRef)
        requires
            ast_wf(*ast),
            ty_id_valid(ty),
        ensures
            r == translate_ty_spec(*self, ty),
    {
        let t = ast.ty(ty);
        proof {
            assert(ast.tys@ == crate::ast::builtin_tys());
            assert(crate::ast::builtin_tys()[0] == Ty::Builtin(BuiltinTy::Void));
            assert(crate::ast::builtin_tys()[1] == Ty::Builtin(BuiltinTy::I64));
            assert(crate::ast::builtin_tys()[2] == Ty::Builtin(BuiltinTy::Str));
            assert(crate::ast::builtin_tys()[3] == Ty::Builtin(BuiltinTy::Bool));
        }
        match t {
            Ty::Builtin(builtin) => self.translate_builtin(builtin),
        }
    }

    /// Emits the value of one expression at the cursor's block end and hands
    /// back its handle.
    ///
    /// Lowering never retypes: the emitted value's IR type is exactly the
    /// lowering of the `TyId` the parser recorded on the expression.
    fn gen_expr(&mut self, ast: &Ast, b: &Builder, expr: &Expr) -> (r: ValueRef)
        requires
            ast_wf(*ast),
            gen_types_ok(*old(self)),
            lowered_prefix_ok(*old(self), ast.items@, old(self).symbols@.len() as int),
            expr_wf(*expr, ast.items@, old(self).symbols@.len() as int),
            old(self).symbols@.len() <= ast.items@.len(),
            b.bb.0 < old(self).module.basic_blocks@.len(),
        ensures
            gen_emit_ok(*old(self), *final(self), b.bb),
            gen_types_ok(*final(self)),
            lowered_prefix_ok(*final(self), ast.items@, final(self).symbols@.len() as int),
            r.0 < final(self).module.values@.len(),
            value_ty(final(self).module, r) == Some(translate_ty_spec(*final(self), expr.ty)),
            expr_value_ok(final(self).module, *expr, r),
            ({
                let insts0 = old(self).module.basic_blocks@[b.bb.0 as int].insts@;
                let insts1 = final(self).module.basic_blocks@[b.bb.0 as int].insts@;
                &&& insts0.len() <= insts1.len()
                &&& insts1.subrange(0, insts0.len() as int) == insts0
                &&& all_call_insts(
                    final(self).module,
                    insts1.subrange(insts0.len() as int, insts1.len() as int),
                )
                &&& (expr.kind is FuncCall ==> insts1.len() > insts0.len() && insts1.last() == r)
                &&& (!(expr.kind is FuncCall) ==> insts1 == insts0)
            }),
        decreases expr,
    {
        proof {
            lemma_expr_ty_valid(*ast, *expr, old(self).symbols@.len() as int);
        }
        let ty = self.translate_ty(ast, expr.ty);
        match &expr.kind {
            ExprKind::BoolLit(x) => {
                let v: u64 = if *x {
                    1
                } else {
                    0
                };
                let r = b.const_int(&mut self.module, v, ty);
                proof {
                    lemma_types_ok_stable(*old(self), *self);
                    lemma_prefix_ok_stable(
                        *old(self),
                        *self,
                        ast.items@,
                        old(self).symbols@.len() as int,
                    );
                    lemma_translate_is_lowering(*self, expr.ty);
                    assert(expr_value_ok(self.module, *expr, r));
                    let insts0 = old(self).module.basic_blocks@[b.bb.0 as int].insts@;
                    assert(insts0.subrange(0, insts0.len() as int) =~= insts0);
                }
                r
            },
            ExprKind::NumberLit(x) => {
                let r = b.const_int(&mut self.module, #[verifier::truncate] (*x as u64), ty);
                proof {
                    lemma_types_ok_stable(*old(self), *self);
                    lemma_prefix_ok_stable(
                        *old(self),
                        *self,
                        ast.items@,
                        old(self).symbols@.len() as int,
                    );
                    lemma_translate_is_lowering(*self, expr.ty);
                    assert(expr_value_ok(self.module, *expr, r));
                    let insts0 = old(self).module.basic_blocks@[b.bb.0 as int].insts@;
                    assert(insts0.subrange(0, insts0.len() as int) =~= insts0);
                }
                r
            },
            ExprKind::StringLit(x) => {
                let data = bytes_clone(x);
                let r = b.global_string(&mut self.module, data, ty);
                proof {
                    lemma_types_ok_stable(*old(self), *self);
                    lemma_prefix_ok_stable(
                        *old(self),
                        *self,
                        ast.items@,
                        old(self).symbols@.len() as int,
                    );
                    lemma_translate_is_lowering(*self, expr.ty);
                    assert(expr_value_ok(self.module, *expr, r));
                    let insts0 = old(self).module.basic_blocks@[b.bb.0 as int].insts@;
                    assert(insts0.subrange(0, insts0.len() as int) =~= insts0);
                }
                r
            },
            ExprKind::FuncCall(x) => {
                let ghost g0 = *self;
                let ghost insts0 = self.module.basic_blocks@[b.bb.0 as int].insts@;
                proof {
                    lemma_module_extends_refl(g0.module);
                    assert(insts0.subrange(0, insts0.len() as int) =~= insts0);
                }
                let mut args: Vec<ValueRef> = Vec::new();
                let mut i: usize = 0;
                while i < x.args.len()
                    invariant
                        g0 == *old(self),
                        ast_wf(*ast),
                        gen_types_ok(*self),
                        lowered_prefix_ok(*self, ast.items@, self.symbols@.len() as int),
                        gen_emit_ok(g0, *self, b.bb),
                        expr_wf(*expr, ast.items@, g0.symbols@.len() as int),
                        expr.kind == ExprKind::FuncCall(*x),
                        g0.symbols@.len() <= ast.items@.len(),
                        b.bb.0 < self.module.basic_blocks@.len(),
                        i <= x.args@.len(),
                        args@.len() == i,
                        forall|k: int|
                            0 <= k < i ==> expr_value_ok(
                                self.module,
                                #[trigger] x.args@[k],
                                args@[k],
                            ),
                        insts0 == g0.module.basic_blocks@[b.bb.0 as int].insts@,
                        ({
                            let cur = self.module.basic_blocks@[b.bb.0 as int].insts@;
                            &&& insts0.len() <= cur.len()
                            &&& cur.subrange(0, insts0.len() as int) == insts0
                            &&& all_call_insts(
                                self.module,
                                cur.subrange(insts0.len() as int, cur.len() as int),
                            )
                        }),
                    decreases x.args@.len() - i,
                {
                    let ghost g_pre = *self;
                    let ghost pre_insts = self.module.basic_blocks@[b.bb.0 as int].insts@;
                    assert(expr_wf(x.args@[i as int], ast.items@, self.symbols@.len() as int));
                    let v = self.gen_expr(ast, b, &x.args[i]);
                    args.push(v);
                    i = i + 1;
                    proof {
                        lemma_gen_emit_trans(g0, g_pre, *self, b.bb);
                        assert forall|k: int| 0 <= k < i implies expr_value_ok(
                            self.module,
                            #[trigger] x.args@[k],
                            args@[k],
                        ) by {
                            if k < i - 1 {
                                assert(expr_value_ok(g_pre.module, x.args@[k], args@[k]));
                                lemma_expr_value_ok_stable(
                                    g_pre.module,
                                    self.module,
                                    x.args@[k],
                                    args@[k],
                                );
                            }
                        }
                        let cur = self.module.basic_blocks@[b.bb.0 as int].insts@;
                        lemma_all_call_stable(
                            g_pre.module,
                            self.module,
                            pre_insts.subrange(insts0.len() as int, pre_insts.len() as int),
                        );
                        assert forall|j: int|
                            insts0.len() <= j < cur.len() implies is_call_inst(
                            self.module,
                            #[trigger] cur[j],
                        ) by {
                            if j < pre_insts.len() {
                                assert(cur[j] == pre_insts[j]);
                                assert(pre_insts[j] == pre_insts.subrange(
                                    insts0.len() as int,
                                    pre_insts.len() as int,
                                )[j - insts0.len()]);
                            } else {
                                assert(cur[j] == cur.subrange(
                                    pre_insts.len() as int,
                                    cur.len() as int,
                                )[j - pre_insts.len()]);
                            }
                        }
                        assert(cur.subrange(0, insts0.len() as int) =~= insts0);
                        assert(all_call_insts(
                            self.module,
                            cur.subrange(insts0.len() as int, cur.len() as int),
                        ));
                    }
                }
                let func = self.symbols[x.func.0 as usize];
                let ghost g_pre = *self;
                let ghost pre_insts = self.module.basic_blocks@[b.bb.0 as int].insts@;
                let r = b.call(&mut self.module, func, args);
                proof {
                    lemma_types_ok_stable(g_pre, *self);
                    lemma_prefix_ok_stable(g_pre, *self, ast.items@, g_pre.symbols@.len() as int);
                    lemma_gen_emit_trans(g0, g_pre, *self, b.bb);
                    assert(func_sig_ok(g_pre, func, ast.items@[x.func.0 as int]));
                    assert(value_ty(self.module, r) == call_ret_ty(g_pre.module, func));
                    assert(call_ret_ty(g_pre.module, func) == Some(
                        translate_ty_spec(*self, expr.ty),
                    ));
                    lemma_translate_is_lowering(*self, expr.ty);
                    assert forall|j: int| 0 <= j < x.args@.len() implies expr_value_ok(
                        self.module,
                        #[trigger] x.args@[j],
                        args@[j],
                    ) by {
                        assert(expr_value_ok(g_pre.module, x.args@[j], args@[j]));
                        lemma_expr_value_ok_stable(g_pre.module, self.module, x.args@[j], args@[j]);
                    }
                    assert(expr_value_ok(self.module, *expr, r));
                    let cur = self.module.basic_blocks@[b.bb.0 as int].insts@;
                    assert(cur =~= pre_insts.push(r));
                    assert(cur.subrange(0, insts0.len() as int) =~= insts0);
                    lemma_all_call_stable(
                        g_pre.module,
                        self.module,
                        pre_insts.subrange(insts0.len() as int, pre_insts.len() as int),
                    );
                    assert forall|j: int|
                        insts0.len() <= j < cur.len() implies is_call_inst(
                        self.module,
                        #[trigger] cur[j],
                    ) by {
                        if j < pre_insts.len() {
                            assert(cur[j] == pre_insts[j]);
                            assert(pre_insts[j] == pre_insts.subrange(
                                insts0.len() as int,
                                pre_insts.len() as int,
                            )[j - insts0.len()]);
                        } else {
                            assert(cur[j] == r);
                        }
                    }
                    assert(all_call_insts(
                        self.module,
                        cur.subrange(insts0.len() as int, cur.len() as int),
                    ));
                    assert(cur.last() == r);
                }
                r
            },
        }
    }

    /// Lowers a local binding: stack storage sized for the initializer's
    /// type, the initializer's value, and a store of that value.
    fn gen_local(&mut self, ast: &Ast, b: &Builder, local: &Local)
        requires
            ast_wf(*ast),
            gen_types_ok(*old(self)),
            lowered_prefix_ok(*old(self), ast.items@, old(self).symbols@.len() as int),
            expr_wf(local.init, ast.items@, old(self).symbols@.len() as int),
            old(self).symbols@.len() <= ast.items@.len(),
            b.bb.0 < old(self).module.basic_blocks@.len(),
        ensures
            gen_emit_ok(*old(self), *final(self), b.bb),
            gen_types_ok(*final(self)),
            lowered_prefix_ok(*final(self), ast.items@, final(self).symbols@.len() as int),
            ({
                let insts0 = old(self).module.basic_blocks@[b.bb.0 as int].insts@;
                let insts1 = final(self).module.basic_blocks@[b.bb.0 as int].insts@;
                &&& insts0.len() <= insts1.len()
                &&& insts1.subrange(0, insts0.len() as int) == insts0
                &&& stmt_seg_ok(
                    final(self).module,
                    Stmt::Local(*local),
                    insts1.subrange(insts0.len() as int, insts1.len() as int),
                )
            }),
    {
        proof {
            lemma_expr_ty_valid(*ast, local.init, old(self).symbols@.len() as int);
        }
        let ghost insts0 = self.module.basic_blocks@[b.bb.0 as int].insts@;
        let l_ty = self.translate_ty(ast, local.init.ty);
        let name = bytes_clone(&local.name);
        let alloca = b.alloca(&mut self.module, l_ty, name);
        let ghost g1 = *self;
        let ghost insts_a = self.module.basic_blocks@[b.bb.0 as int].insts@;
        proof {
            lemma_types_ok_stable(*old(self), g1);
            lemma_prefix_ok_stable(*old(self), g1, ast.items@, old(self).symbols@.len() as int);
        }
        let init = self.gen_expr(ast, b, &local.init);
        let ghost g2 = *self;
        let ghost insts_b = self.module.basic_blocks@[b.bb.0 as int].insts@;
        let store_ref = b.store(&mut self.module, init, alloca);
        proof {
            lemma_types_ok_stable(g2, *self);
            lemma_prefix_ok_stable(g2, *self, ast.items@, g2.symbols@.len() as int);
            lemma_gen_emit_trans(*old(self), g1, g2, b.bb);
            lemma_gen_emit_trans(*old(self), g2, *self, b.bb);
            lemma_module_extends_trans(g1.module, g2.module, self.module);
            reveal(stmt_seg_ok);
            let m = self.module;
            let insts_c = m.basic_blocks@[b.bb.0 as int].insts@;
            let seg = insts_c.subrange(insts0.len() as int, insts_c.len() as int);
            // the segment is the alloca, the initializer's calls, the store
            assert(insts_a == insts0.push(alloca));
            assert(insts_b.subrange(0, insts_a.len() as int) == insts_a);
            assert(insts_c == insts_b.push(store_ref));
            assert(seg[0] == alloca) by {
                assert(insts_c[insts0.len() as int] == insts_b[insts0.len() as int]);
                assert(insts_b[insts0.len() as int] == insts_b.subrange(
                    0,
                    insts_a.len() as int,
                )[insts0.len() as int]);
            }
            assert(seg.last() == store_ref);
            assert(m.values@[alloca.0 as int] == m.values@.subrange(
                0,
                g1.module.values@.len() as int,
            )[alloca.0 as int]);
            lemma_translate_is_lowering(g1, local.init.ty);
            lemma_type_lowering_stable(g1.module, m, l_ty, local.init.ty);
            assert(expr_value_ok(g2.module, local.init, init));
            lemma_expr_value_ok_stable(g2.module, m, local.init, init);
            assert forall|j: int| 1 <= j < seg.len() - 1 implies is_call_inst(
                m,
                #[trigger] seg[j],
            ) by {
                let jj = insts0.len() + j;
                assert(insts_c[jj] == insts_b[jj]);
                assert(insts_b[jj] == insts_b.subrange(insts_a.len() as int, insts_b.len() as int)[
                    jj - insts_a.len()]);
                assert(is_call_inst(g2.module, insts_b[jj]));
                assert(m.values@[insts_b[jj].0 as int] == m.values@.subrange(
                    0,
                    g2.module.values@.len() as int,
                )[insts_b[jj].0 as int]);
            }
            assert(all_call_insts(m, seg.subrange(1, seg.len() - 1))) by {
                assert forall|j: int| 0 <= j < seg.len() - 2 implies is_call_inst(
                    m,
                    #[trigger] seg.subrange(1, seg.len() - 1)[j],
                ) by {
                    assert(seg.subrange(1, seg.len() - 1)[j] == seg[j + 1]);
                }
            }
            if local.init.kind is FuncCall {
                assert(insts_b.len() > insts_a.len() && insts_b.last() == init);
                assert(seg[seg.len() - 2] == insts_b.last());
            } else {
                assert(insts_b == insts_a);
                assert(seg.len() == 2);
            }
            assert(stmt_seg_ok(m, Stmt::Local(*local), seg));
            assert(insts_c.subrange(0, insts0.len() as int) =~= insts0);
        }
    }

    /// Lowers one statement at the cursor's block end: an expression for its
    /// effect, a local binding, or a return (with or without a value).
    fn gen_stmt(&mut self, ast: &Ast, b: &Builder, stmt: &Stmt)
        requires
            ast_wf(*ast),
            gen_types_ok(*old(self)),
            lowered_prefix_ok(*old(self), ast.items@, old(self).symbols@.len() as int),
            stmt_wf(*stmt, ast.items@, old(self).symbols@.len() as int),
            old(self).symbols@.len() <= ast.items@.len(),
            b.bb.0 < old(self).module.basic_blocks@.len(),
        ensures
            gen_emit_ok(*old(self), *final(self), b.bb),
            gen_types_ok(*final(self)),
            lowered_prefix_ok(*final(self), ast.items@, final(self).symbols@.len() as int),
            ({
                let insts0 = old(self).module.basic_blocks@[b.bb.0 as int].insts@;
                let insts1 = final(self).module.basic_blocks@[b.bb.0 as int].insts@;
                &&& insts0.len() <= insts1.len()
                &&& insts1.subrange(0, insts0.len() as int) == insts0
                &&& stmt_seg_ok(
                    final(self).module,
                    *stmt,
                    insts1.subrange(insts0.len() as int, insts1.len() as int),
                )
            }),
    {
        let ghost insts0 = self.module.basic_blocks@[b.bb.0 as int].insts@;
        match stmt {
            Stmt::Expr(expr) => {
                let r = self.gen_expr(ast, b, expr);
                proof {
                    reveal(stmt_seg_ok);
                    let insts1 = self.module.basic_blocks@[b.bb.0 as int].insts@;
                    let seg = insts1.subrange(insts0.len() as int, insts1.len() as int);
                    if expr.kind is FuncCall {
                        assert(seg.last() == r);
                    } else {
                        assert(seg.len() == 0);
                    }
                    assert(stmt_seg_ok(self.module, *stmt, seg));
                }
            },
            Stmt::Local(local) => self.gen_local(ast, b, local),
            Stmt::Return(ret) => match &ret.value {
                Some(value) => {
                    let v = self.gen_expr(ast, b, value);
                    let ghost g1 = *self;
                    let ghost insts_b = self.module.basic_blocks@[b.bb.0 as int].insts@;
                    let ret_ref = b.ret(&mut self.module, v);
                    proof {
                        lemma_types_ok_stable(g1, *self);
                        lemma_prefix_ok_stable(g1, *self, ast.items@, g1.symbols@.len() as int);
                        lemma_gen_emit_trans(*old(self), g1, *self, b.bb);
                        reveal(stmt_seg_ok);
                        let m = self.module;
                        let insts1 = m.basic_blocks@[b.bb.0 as int].insts@;
                        let seg = insts1.subrange(insts0.len() as int, insts1.len() as int);
                        assert(insts1 == insts_b.push(ret_ref));
                        assert(seg.last() == ret_ref);
                        assert(expr_value_ok(g1.module, *value, v));
                        lemma_expr_value_ok_stable(g1.module, m, *value, v);
                        assert forall|j: int| 0 <= j < seg.len() - 1 implies is_call_inst(
                            m,
                            #[trigger] seg[j],
                        ) by {
                            let jj = insts0.len() + j;
                            assert(insts1[jj] == insts_b[jj]);
                            assert(insts_b[jj] == insts_b.subrange(
                                insts0.len() as int,
                                insts_b.len() as int,
                            )[j]);
                            assert(is_call_inst(g1.module, insts_b[jj]));
                            assert(m.values@[insts_b[jj].0 as int] == m.values@.subrange(
                                0,
                                g1.module.values@.len() as int,
                            )[insts_b[jj].0 as int]);
                        }
                        assert(all_call_insts(m, seg.subrange(0, seg.len() - 1))) by {
                            assert forall|j: int| 0 <= j < seg.len() - 1 implies is_call_inst(
                                m,
                                #[trigger] seg.subrange(0, seg.len() - 1)[j],
                            ) by {
                                assert(seg.subrange(0, seg.len() - 1)[j] == seg[j]);
                            }
                        }
                        if value.kind is FuncCall {
                            assert(insts_b.len() > insts0.len() && insts_b.last() == v);
                            assert(seg[seg.len() - 2] == insts_b.last());
                        } else {
                            assert(insts_b == insts0);
                            assert(seg.len() == 1);
                        }
                        assert(stmt_seg_ok(m, *stmt, seg));
                        assert(insts1.subrange(0, insts0.len() as int) =~= insts0);
                    }
                },
                None => {
                    let rv = b.ret_void(&mut self.module);
                    proof {
                        lemma_types_ok_stable(*old(self), *self);
                        lemma_prefix_ok_stable(
                            *old(self),
                            *self,
                            ast.items@,
                            old(self).symbols@.len() as int,
                        );
                        reveal(stmt_seg_ok);
                        let insts1 = self.module.basic_blocks@[b.bb.0 as int].insts@;
                        let seg = insts1.subrange(insts0.len() as int, insts1.len() as int);
                        assert(insts1 == insts0.push(rv));
                        assert(seg.len() == 1 && seg[0] == rv);
                        assert(stmt_seg_ok(self.module, *stmt, seg));
                        assert(insts1.subrange(0, insts0.len() as int) =~= insts0);
                    }
                },
            },
        }
    }

    /// Lowers one function: translates its signature, creates the IR
    /// function, and — if a body is present — appends one entry block and
    /// emits the statements, closing a `void` function that does not end in
    /// a return with a void return.
    #[verifier::rlimit(100)]
    fn gen_func(&mut self, ast: &Ast, func: &Func)
        requires
            ast_wf(*ast),
            gen_types_ok(*old(self)),
            lowered_prefix_ok(*old(self), ast.items@, old(self).symbols@.len() as int),
            old(self).symbols@.len() < ast.items@.len(),
            item_func(ast.items@[old(self).symbols@.len() as int]) == *func,
            func_wf(*func, ast.items@, old(self).symbols@.len() as int),
            old(self).module.functions@.len() == old(self).symbols@.len(),
        ensures
            gen_cached_same(*old(self), *final(self)),
            module_extends(old(self).module, final(self).module),
            gen_types_ok(*final(self)),
            final(self).symbols@.len() == old(self).symbols@.len() + 1,
            final(self).module.functions@.len() == final(self).symbols@.len(),
            lowered_prefix_ok(*final(self), ast.items@, final(self).symbols@.len() as int),
            final(self).module.basic_blocks@.len() == old(self).module.basic_blocks@.len() + (
            if item_has_body(ast.items@[old(self).symbols@.len() as int]) {
                1int
            } else {
                0int
            }),
            forall|b: int|
                old(self).module.basic_blocks@.len() <= b < final(self).module.basic_blocks@.len()
                    ==> (#[trigger] final(self).module.basic_blocks@[b]).function.0 == old(
                    self,
                ).symbols@.len(),
            forall|b: int|
                old(self).module.basic_blocks@.len() <= b < final(self).module.basic_blocks@.len()
                    ==> body_insts_ok(
                    final(self).module,
                    item_func(ast.items@[old(self).symbols@.len() as int]),
                    (#[trigger] final(self).module.basic_blocks@[b]).insts@,
                ),
            forall|b: int|
                0 <= b < old(self).module.basic_blocks@.len()
                    ==> #[trigger] final(self).module.basic_blocks@[b] == old(
                    self,
                ).module.basic_blocks@[b],
    {
        let ghost k = old(self).symbols@.len() as int;
        let mut params: Vec<TypeRef> = Vec::new();
        let mut i: usize = 0;
        while i < func.args.len()
            invariant
                *self == *old(self),
                ast_wf(*ast),
                func_wf(*func, ast.items@, k),
                i <= func.args@.len(),
                params@.len() == i,
                forall|j: int|
                    0 <= j < i ==> (#[trigger] params@[j]) == translate_ty_spec(
                        *self,
                        func.args@[j].1,
                    ),
            decreases func.args@.len() - i,
        {
            assert(ty_id_valid(func.args@[i as int].1));
            let ty = self.translate_ty(ast, func.args[i].1);
            params.push(ty);
            i = i + 1;
        }
        let ret_ty = self.translate_ty(ast, func.return_ty);
        let ghost params_seq = params@;
        let fn_ty = self.module.push_type(
            Type::Function(FunctionType { return_ty: ret_ty, params, vararg: false }),
        );
        let ghost g_mid = *self;
        let name = bytes_clone(&func.name);
        let l_func = self.module.function(Some(name), Some(fn_ty));
        self.symbols.push(l_func);
        proof {
            lemma_module_extends_trans(old(self).module, g_mid.module, self.module);
        }
        proof {
            lemma_types_ok_stable(*old(self), *self);
            lemma_prefix_ok_stable(*old(self), *self, ast.items@, k);
            assert(self.symbols@[k] == l_func);
            assert(l_func.0 == k);
            assert(func_sig_ok(*self, l_func, ast.items@[k]));
        }
        match &func.stmts {
            Some(stmts) => {
                let entry = self.module.add_basic_block(l_func, None);
                let ghost g1 = *self;
                proof {
                    lemma_module_extends_refl(g1.module);
                }
                let builder = entry.builder();
                let ghost mut bounds: Seq<int> = seq![0int];
                let mut j: usize = 0;
                while j < stmts.len()
                    invariant
                        g1.symbols@.len() == k + 1,
                        ast_wf(*ast),
                        func_wf(*func, ast.items@, k),
                        func.stmts == Some(*stmts),
                        k + 1 <= ast.items@.len(),
                        gen_types_ok(*self),
                        lowered_prefix_ok(*self, ast.items@, k + 1),
                        gen_cached_same(g1, *self),
                        self.symbols@ == g1.symbols@,
                        module_extends(g1.module, self.module),
                        self.module.functions@ == g1.module.functions@,
                        self.module.basic_blocks@.len() == g1.module.basic_blocks@.len(),
                        forall|bq: int|
                            0 <= bq < g1.module.basic_blocks@.len() && bq != entry.0
                                ==> #[trigger] self.module.basic_blocks@[bq]
                                == g1.module.basic_blocks@[bq],
                        builder.bb == entry,
                        entry.0 < self.module.basic_blocks@.len(),
                        j <= stmts@.len(),
                        bounds.len() == j + 1,
                        bounds[0] == 0,
                        forall|q: int| 0 <= q < j ==> 0 <= #[trigger] bounds[q] <= bounds[q + 1],
                        forall|q: int| 0 <= q <= j ==> 0 <= #[trigger] bounds[q] <= bounds[
                            j as int
                        ],
                        bounds[j as int] == self.module.basic_blocks@[entry.0 as int].insts@.len(),
                        forall|q: int|
                            0 <= q < j ==> stmt_seg_ok(
                                self.module,
                                stmts@[q],
                                self.module.basic_blocks@[entry.0 as int].insts@.subrange(
                                    #[trigger] bounds[q],
                                    bounds[q + 1],
                                ),
                            ),
                    decreases stmts@.len() - j,
                {
                    proof {
                        assert(func.stmts->Some_0 == *stmts);
                        assert(stmt_wf(func.stmts->Some_0@[j as int], ast.items@, k));
                        lemma_stmt_wf_mono(stmts@[j as int], ast.items@, k, k + 1);
                    }
                    let ghost g_pre = *self;
                    let ghost pre_insts = self.module.basic_blocks@[entry.0 as int].insts@;
                    self.gen_stmt(ast, &builder, &stmts[j]);
                    j = j + 1;
                    proof {
                        lemma_module_extends_trans(g1.module, g_pre.module, self.module);
                        let cur = self.module.basic_blocks@[entry.0 as int].insts@;
                        bounds = bounds.push(cur.len() as int);
                        assert forall|q: int| 0 <= q < j implies stmt_seg_ok(
                            self.module,
                            stmts@[q],
                            cur.subrange(#[trigger] bounds[q], bounds[q + 1]),
                        ) by {
                            if q < j - 1 {
                                lemma_seg_shift(
                                    g_pre.module,
                                    self.module,
                                    stmts@[q],
                                    pre_insts,
                                    cur,
                                    bounds[q],
                                    bounds[q + 1],
                                );
                            } else {
                                assert(cur.subrange(bounds[q], bounds[q + 1])
                                    =~= cur.subrange(pre_insts.len() as int, cur.len() as int));
                            }
                        }
                    }
                }
                let needs_void_ret = func.return_ty.0 == 0 && (stmts.len() == 0 || !stmt_is_return(
                    &stmts[stmts.len() - 1],
                ));
                let ghost core = self.module.basic_blocks@[entry.0 as int].insts@;
                proof {
                    lemma_assemble_body(self.module, stmts@, core, bounds, 0);
                    assert(core.subrange(0, bounds[stmts@.len() as int]) =~= core);
                    assert(stmts_insts_ok(self.module, stmts@, core, 0));
                    assert(needs_void_ret == needs_void_epilogue(*func));
                }
                if needs_void_ret {
                    let ghost g_pre = *self;
                    let rv = builder.ret_void(&mut self.module);
                    proof {
                        lemma_types_ok_stable(g_pre, *self);
                        lemma_prefix_ok_stable(g_pre, *self, ast.items@, k + 1);
                        lemma_module_extends_trans(g1.module, g_pre.module, self.module);
                        let insts1 = self.module.basic_blocks@[entry.0 as int].insts@;
                        assert(insts1 == core.push(rv));
                        assert(insts1.drop_last() =~= core);
                        lemma_stmts_insts_ok_stable(g_pre.module, self.module, stmts@, core, 0);
                        assert(body_insts_ok(self.module, *func, insts1));
                    }
                } else {
                    proof {
                        assert(body_insts_ok(
                            self.module,
                            *func,
                            self.module.basic_blocks@[entry.0 as int].insts@,
                        ));
                    }
                }
                proof {
                    lemma_module_extends_trans(old(self).module, g1.module, self.module);
                    assert forall|b: int|
                        old(self).module.basic_blocks@.len() <= b < self.module.basic_blocks@.len()
                        implies body_insts_ok(
                        self.module,
                        item_func(ast.items@[k]),
                        (#[trigger] self.module.basic_blocks@[b]).insts@,
                    ) by {
                        assert(b == entry.0);
                    }
                }
            },
            None => {},
        }
    }

    /// Lowers one item, which today is always a function.
    fn gen(&mut self, ast: &Ast, item: &Item)
        requires
            ast_wf(*ast),
            gen_types_ok(*old(self)),
            lowered_prefix_ok(*old(self), ast.items@, old(self).symbols@.len() as int),
            old(self).symbols@.len() < ast.items@.len(),
            *item == ast.items@[old(self).symbols@.len() as int],
            old(self).module.functions@.len() == old(self).symbols@.len(),
        ensures
            gen_cached_same(*old(self), *final(self)),
            module_extends(old(self).module, final(self).module),
            gen_types_ok(*final(self)),
            final(self).symbols@.len() == old(self).symbols@.len() + 1,
            final(self).module.functions@.len() == final(self).symbols@.len(),
            lowered_prefix_ok(*final(self), ast.items@, final(self).symbols@.len() as int),
            final(self).module.basic_blocks@.len() == old(self).module.basic_blocks@.len() + (
            if item_has_body(ast.items@[old(self).symbols@.len() as int]) {
                1int
            } else {
                0int
            }),
            forall|b: int|
                old(self).module.basic_blocks@.len() <= b < final(self).module.basic_blocks@.len()
                    ==> (#[trigger] final(self).module.basic_blocks@[b]).function.0 == old(
                    self,
                ).symbols@.len(),
            forall|b: int|
                old(self).module.basic_blocks@.len() <= b < final(self).module.basic_blocks@.len()
                    ==> body_insts_ok(
                    final(self).module,
                    item_func(ast.items@[old(self).symbols@.len() as int]),
                    (#[trigger] final(self).module.basic_blocks@[b]).insts@,
                ),
            forall|b: int|
                0 <= b < old(self).module.basic_blocks@.len()
                    ==> #[trigger] final(self).module.basic_blocks@[b] == old(
                    self,
                ).module.basic_blocks@[b],
    {
        proof {
            assert(item_wf(ast.items@[old(self).symbols@.len() as int], ast.items@, old(
                self,
            ).symbols@.len() as int));
        }
        match item {
            Item::Func(func) => self.gen_func(ast, func),
        }
    }

    /// Lowers a whole well-formed tree into a fresh IR module.
    ///
    /// Each item, in declaration order, becomes the IR function of the same
    /// index, carrying the item's name and the lowering of its declared
    /// signature.
    pub fn run(ast: &Ast) -> (m: Module)
        requires
            ast_wf(*ast),
        ensures
            m.functions@.len() == ast.items@.len(),
            forall|i: int|
                0 <= i < ast.items@.len() ==> lowered_func_ok(m, #[trigger] ast.items@[i], i),
            m.basic_blocks@.len() == count_bodies(ast.items@, ast.items@.len() as int),
            forall|b: int|
                0 <= b < m.basic_blocks@.len() ==> (#[trigger] m.basic_blocks@[b]).function.0
                    < m.functions@.len(),
            forall|b: int|
                0 <= b < m.basic_blocks@.len() ==> body_insts_ok(
                    m,
                    item_func(ast.items@[(#[trigger] m.basic_blocks@[b]).function.0 as int]),
                    m.basic_blocks@[b].insts@,
                ),
            forall|i: int|
                0 <= i < ast.items@.len() && item_has_body(#[trigger] ast.items@[i])
                    ==> exists|b: int|
                    0 <= b < m.basic_blocks@.len() && (#[trigger] m.basic_blocks@[b]).function.0
                        == i,
    {
        let mut module = Module::new(module_name());
        let ty_void = module.push_type(Type::Void);
        let ty_i1 = module.push_type(Type::Integer(IntegerType { bits: 1 }));
        let ty_i8 = module.push_type(Type::Integer(IntegerType { bits: 8 }));
        let ty_i64 = module.push_type(Type::Integer(IntegerType { bits: 64 }));
        let ty_str = module.push_type(Type::Pointer(ty_i8));
        let mut g = Gen { module, symbols: Vec::new(), ty_void, ty_i1, ty_i8, ty_i64, ty_str };
        assert(gen_types_ok(g));
        let mut index: usize = 0;
        while index < ast.items.len()
            invariant
                ast_wf(*ast),
                gen_types_ok(g),
                lowered_prefix_ok(g, ast.items@, index as int),
                g.symbols@.len() == index,
                g.module.functions@.len() == index,
                index <= ast.items@.len(),
                g.module.basic_blocks@.len() == count_bodies(ast.items@, index as int),
                forall|b: int|
                    0 <= b < g.module.basic_blocks@.len()
                        ==> (#[trigger] g.module.basic_blocks@[b]).function.0 < index,
                forall|b: int|
                    0 <= b < g.module.basic_blocks@.len() ==> body_insts_ok(
                        g.module,
                        item_func(
                            ast.items@[(#[trigger] g.module.basic_blocks@[b]).function.0 as int],
                        ),
                        g.module.basic_blocks@[b].insts@,
                    ),
                forall|i: int|
                    0 <= i < index && item_has_body(#[trigger] ast.items@[i]) ==> exists|b: int|
                        0 <= b < g.module.basic_blocks@.len() && (
                        #[trigger] g.module.basic_blocks@[b]).function.0 == i,
            decreases ast.items@.len() - index,
        {
            let item = &ast.items[index];
            let ghost g_pre = g;
            g.gen(ast, item);
            proof {
                assert forall|b: int| 0 <= b < g.module.basic_blocks@.len() implies (
                #[trigger] g.module.basic_blocks@[b]).function.0 < index + 1 by {
                    if b < g_pre.module.basic_blocks@.len() {
                        assert(g_pre.module.basic_blocks@[b].function.0 < index);
                        assert(g.module.basic_blocks@[b].function
                            == g_pre.module.basic_blocks@[b].function);
                    }
                }
                assert forall|b: int| 0 <= b < g.module.basic_blocks@.len() implies body_insts_ok(
                    g.module,
                    item_func(
                        ast.items@[(#[trigger] g.module.basic_blocks@[b]).function.0 as int],
                    ),
                    g.module.basic_blocks@[b].insts@,
                ) by {
                    if b < g_pre.module.basic_blocks@.len() {
                        let b1 = g_pre.module.basic_blocks@[b];
                        assert(g.module.basic_blocks@[b] == b1);
                        lemma_body_insts_ok_stable(
                            g_pre.module,
                            g.module,
                            item_func(ast.items@[b1.function.0 as int]),
                            b1.insts@,
                        );
                    }
                }
                assert forall|i: int|
                    0 <= i < index + 1 && item_has_body(#[trigger] ast.items@[i]) implies exists|
                    b: int,
                |
                    0 <= b < g.module.basic_blocks@.len() && (
                    #[trigger] g.module.basic_blocks@[b]).function.0 == i by {
                    if i < index {
                        let b0 = choose|b: int|
                            0 <= b < g_pre.module.basic_blocks@.len() && (
                            #[trigger] g_pre.module.basic_blocks@[b]).function.0 == i;
                        assert(g.module.basic_blocks@[b0].function
                            == g_pre.module.basic_blocks@[b0].function);
                        assert(0 <= b0 < g.module.basic_blocks@.len()
                            && g.module.basic_blocks@[b0].function.0 == i);
                    } else {
                        assert(g.module.basic_blocks@.len() == g_pre.module.basic_blocks@.len()
                            + 1);
                        assert(g.module.basic_blocks@[g_pre.module.basic_blocks@.len() as int].function.0
                            == i);
                    }
                }
            }
            index = index + 1;
        }
        proof {
            assert forall|i: int| 0 <= i < ast.items@.len() implies lowered_func_ok(
                g.module,
                #[trigger] ast.items@[i],
                i,
            ) by {
                assert(g.symbols@[i].0 == i && func_sig_ok(g, g.symbols@[i], ast.items@[i]));
                assert(item_wf(ast.items@[i], ast.items@, i));
                let f = item_func(ast.items@[i]);
                lemma_translate_is_lowering(g, f.return_ty);
                assert forall|j: int| 0 <= j < f.args@.len() implies type_is_lowering_of(
                    g.module,
                    translate_ty_spec(g, (#[trigger] f.args@[j]).1),
                    f.args@[j].1,
                ) by {
                    lemma_translate_is_lowering(g, f.args@[j].1);
                }
            }
        }
        g.module
    }
}

/// The name the lowered module is created with.
fn module_name() -> (r: Vec<u8>)
    ensures
        r@ == seq![109u8, 97u8, 105u8, 110u8],
{
    let mut v: Vec<u8> = Vec::new();
    v.push(109);
    v.push(97);
    v.push(105);
    v.push(110);
    proof {
        assert(v@ =~= seq![109u8, 97u8, 105u8, 110u8]);
    }
    v
}

/// The IR function at index `i` carries item `it`'s name and the lowering of
/// its declared signature.
pub open spec fn lowered_func_ok(m: Module, it: Item, i: int) -> bool {
    &&& 0 <= i < m.functions@.len()
    &&& m.functions@[i].name matches Some(nm) && nm@ == item_name(it)
    &&& m.functions@[i].ty matches Some(tr) && tr.0 < m.types@.len() && (m.types@[tr.0 as int]
        matches Type::Function(ft) && type_is_lowering_of(m, ft.return_ty, item_return_ty(it))
        && ft.vararg == false && ft.params@.len() == item_func(it).args@.len() && (forall|j: int|
        0 <= j < ft.params@.len() ==> type_is_lowering_of(
            m,
            #[trigger] ft.params@[j],
            item_func(it).args@[j].1,
        )))
}

} // verus!
