//! The textual form of a finished IR module: the run's output artifact, and
//! the surface any external backend parses.
//!
//! The dump is line oriented, one node per line, fields separated by single
//! spaces, handles printed as decimal arena indexes. The first line names
//! the module; then come the types, the function signatures, the basic-block
//! labels with their instruction handles, and the values — each emitted
//! instruction on its own line.

use vstd::prelude::*;

use crate::ir::{BasicBlock, Constant, Function, Module, Type, TypeRef, Value, ValueRef};

verus! {

/// The decimal digits of `n`, most significant first.
pub open spec fn dec_bytes(n: nat) -> Seq<u8>
    decreases n,
{
    if n < 10 {
        seq![(48 + n) as u8]
    } else {
        dec_bytes(n / 10).push((48 + n % 10) as u8)
    }
}

pub open spec fn sp() -> Seq<u8> {
    seq![32u8]
}

pub open spec fn nl() -> Seq<u8> {
    seq![10u8]
}

pub open spec fn kw_void() -> Seq<u8> {
    seq![118u8, 111u8, 105u8, 100u8]
}

pub open spec fn kw_int() -> Seq<u8> {
    seq![105u8, 110u8, 116u8]
}

pub open spec fn kw_ptr() -> Seq<u8> {
    seq![112u8, 116u8, 114u8]
}

pub open spec fn kw_func() -> Seq<u8> {
    seq![102u8, 110u8]
}

pub open spec fn kw_vararg() -> Seq<u8> {
    seq![118u8, 97u8, 114u8, 97u8, 114u8, 103u8]
}

pub open spec fn kw_const() -> Seq<u8> {
    seq![99u8, 111u8, 110u8, 115u8, 116u8]
}

pub open spec fn kw_str() -> Seq<u8> {
    seq![115u8, 116u8, 114u8]
}

pub open spec fn kw_alloca() -> Seq<u8> {
    seq![97u8, 108u8, 108u8, 111u8, 99u8, 97u8]
}

pub open spec fn kw_store() -> Seq<u8> {
    seq![115u8, 116u8, 111u8, 114u8, 101u8]
}

pub open spec fn kw_call() -> Seq<u8> {
    seq![99u8, 97u8, 108u8, 108u8]
}

pub open spec fn kw_ret() -> Seq<u8> {
    seq![114u8, 101u8, 116u8]
}

pub open spec fn kw_retvoid() -> Seq<u8> {
    seq![114u8, 101u8, 116u8, 118u8, 111u8, 105u8, 100u8]
}

/// A question mark, standing for an absent optional field.
pub open spec fn absent() -> Seq<u8> {
    seq![63u8]
}

/// Space-prefixed decimal numbers, one per element: type handles of a
/// signature's parameters.
pub open spec fn trefs_text(ps: Seq<TypeRef>) -> Seq<u8>
    decreases ps.len(),
{
    if ps.len() == 0 {
        Seq::empty()
    } else {
        trefs_text(ps.drop_last()) + sp() + dec_bytes(ps.last().0 as nat)
    }
}

/// Space-prefixed decimal numbers, one per element: value handles.
pub open spec fn vrefs_text(vs: Seq<ValueRef>) -> Seq<u8>
    decreases vs.len(),
{
    if vs.len() == 0 {
        Seq::empty()
    } else {
        vrefs_text(vs.drop_last()) + sp() + dec_bytes(vs.last().0 as nat)
    }
}

/// Space-prefixed decimal numbers, one per element: raw string bytes.
pub open spec fn bytes_text(bs: Seq<u8>) -> Seq<u8>
    decreases bs.len(),
{
    if bs.len() == 0 {
        Seq::empty()
    } else {
        bytes_text(bs.drop_last()) + sp() + dec_bytes(bs.last() as nat)
    }
}

/// The body of a type line, after the handle.
pub open spec fn ty_body(t: Type) -> Seq<u8> {
    match t {
        Type::Void => kw_void(),
        Type::Integer(it) => kw_int() + sp() + dec_bytes(it.bits as nat),
        Type::Pointer(p) => kw_ptr() + sp() + dec_bytes(p.0 as nat),
        Type::Function(ft) => kw_func() + sp() + dec_bytes(ft.return_ty.0 as nat) + trefs_text(
            ft.params@,
        ) + if ft.vararg {
            sp() + kw_vararg()
        } else {
            Seq::<u8>::empty()
        },
    }
}

/// One type line: `t<i> <body>`.
pub open spec fn type_line(t: Type, i: nat) -> Seq<u8> {
    seq![116u8] + dec_bytes(i) + sp() + ty_body(t) + nl()
}

/// One function-signature line: `f<i> <name|?> <type|?>`.
pub open spec fn func_line(f: Function, i: nat) -> Seq<u8> {
    seq![102u8] + dec_bytes(i) + sp() + (match f.name {
        Some(nm) => nm@,
        None => absent(),
    }) + sp() + (match f.ty {
        Some(tr) => dec_bytes(tr.0 as nat),
        None => absent(),
    }) + nl()
}

/// One basic-block label line: `b<i> <function> <name|?> <instructions...>`.
pub open spec fn block_line(b: BasicBlock, i: nat) -> Seq<u8> {
    seq![98u8] + dec_bytes(i) + sp() + dec_bytes(b.function.0 as nat) + sp() + (match b.name {
        Some(nm) => nm@,
        None => absent(),
    }) + vrefs_text(b.insts@) + nl()
}

/// The body of a value line, after the handle.
pub open spec fn value_body(v: Value) -> Seq<u8> {
    match v {
        Value::Constant(Constant::ConstantInt(ci)) => kw_const() + sp() + dec_bytes(
            ci.value as nat,
        ) + sp() + dec_bytes(ci.ty.0 as nat),
        Value::GlobalString { data, ty } => kw_str() + sp() + dec_bytes(ty.0 as nat) + sp()
            + dec_bytes(data@.len()) + bytes_text(data@),
        Value::Alloca { ty, name } => kw_alloca() + sp() + dec_bytes(ty.0 as nat) + sp() + name@,
        Value::Store { value, ptr } => kw_store() + sp() + dec_bytes(value.0 as nat) + sp()
            + dec_bytes(ptr.0 as nat),
        Value::Call { func, args } => kw_call() + sp() + dec_bytes(func.0 as nat) + vrefs_text(
            args@,
        ),
        Value::Ret { value } => kw_ret() + sp() + dec_bytes(value.0 as nat),
        Value::RetVoid => kw_retvoid(),
    }
}

/// One value line: `v<i> <body>`.
pub open spec fn value_line(v: Value, i: nat) -> Seq<u8> {
    seq![118u8] + dec_bytes(i) + sp() + value_body(v) + nl()
}

pub open spec fn types_text(ts: Seq<Type>) -> Seq<u8>
    decreases ts.len(),
{
    if ts.len() == 0 {
        Seq::empty()
    } else {
        types_text(ts.drop_last()) + type_line(ts.last(), (ts.len() - 1) as nat)
    }
}

pub open spec fn funcs_text(fs: Seq<Function>) -> Seq<u8>
    decreases fs.len(),
{
    if fs.len() == 0 {
        Seq::empty()
    } else {
        funcs_text(fs.drop_last()) + func_line(fs.last(), (fs.len() - 1) as nat)
    }
}

pub open spec fn blocks_text(bs: Seq<BasicBlock>) -> Seq<u8>
    decreases bs.len(),
{
    if bs.len() == 0 {
        Seq::empty()
    } else {
        blocks_text(bs.drop_last()) + block_line(bs.last(), (bs.len() - 1) as nat)
    }
}

pub open spec fn values_text(vs: Seq<Value>) -> Seq<u8>
    decreases vs.len(),
{
    if vs.len() == 0 {
        Seq::empty()
    } else {
        values_text(vs.drop_last()) + value_line(vs.last(), (vs.len() - 1) as nat)
    }
}

/// The whole dump: the module line, then every type, function, block and
/// value, in arena order.
pub open spec fn dump_spec(m: Module) -> Seq<u8> {
    seq![109u8] + sp() + m.name@ + nl() + types_text(m.types@) + funcs_text(m.functions@)
        + blocks_text(m.basic_blocks@) + values_text(m.values@)
}

/// Appends the decimal digits of `n`.
fn push_dec(out: &mut Vec<u8>, n: usize)
    ensures
        final(out)@ == old(out)@ + dec_bytes(n as nat),
    decreases n,
{
    if n < 10 {
        out.push(48 + n as u8);
        proof {
            assert(out@ =~= old(out)@ + dec_bytes(n as nat));
        }
    } else {
        push_dec(out, n / 10);
        out.push(48 + (n % 10) as u8);
        proof {
            assert(out@ =~= old(out)@ + dec_bytes(n as nat));
        }
    }
}

/// Appends the decimal digits of a 64-bit value.
fn push_dec64(out: &mut Vec<u8>, n: u64)
    ensures
        final(out)@ == old(out)@ + dec_bytes(n as nat),
    decreases n,
{
    if n < 10 {
        out.push(48 + n as u8);
        proof {
            assert(out@ =~= old(out)@ + dec_bytes(n as nat));
        }
    } else {
        push_dec64(out, n / 10);
        out.push(48 + (n % 10) as u8);
        proof {
            assert(out@ =~= old(out)@ + dec_bytes(n as nat));
        }
    }
}

/// Appends a copy of `v`.
fn push_bytes(out: &mut Vec<u8>, v: &Vec<u8>)
    ensures
        final(out)@ == old(out)@ + v@,
{
    let mut i: usize = 0;
    while i < v.len()
        invariant
            i <= v@.len(),
            out@ == old(out)@ + v@.subrange(0, i as int),
        decreases v@.len() - i,
    {
        out.push(v[i]);
        proof {
            assert(out@ =~= old(out)@ + v@.subrange(0, i + 1));
        }
        i = i + 1;
    }
    proof {
        assert(v@.subrange(0, v@.len() as int) =~= v@);
    }
}

/// Appends the space-prefixed handles of a parameter list.
fn push_trefs(out: &mut Vec<u8>, ps: &Vec<TypeRef>)
    ensures
        final(out)@ == old(out)@ + trefs_text(ps@),
{
    let mut i: usize = 0;
    while i < ps.len()
        invariant
            i <= ps@.len(),
            out@ == old(out)@ + trefs_text(ps@.subrange(0, i as int)),
        decreases ps@.len() - i,
    {
        out.push(32);
        push_dec(out, ps[i].0);
        proof {
            assert(ps@.subrange(0, i + 1).drop_last() =~= ps@.subrange(0, i as int));
            assert(ps@.subrange(0, i + 1).last() == ps@[i as int]);
            assert(out@ =~= old(out)@ + trefs_text(ps@.subrange(0, i + 1)));
        }
        i = i + 1;
    }
    proof {
        assert(ps@.subrange(0, ps@.len() as int) =~= ps@);
    }
}

/// Appends the space-prefixed handles of a value list.
fn push_vrefs(out: &mut Vec<u8>, vs: &Vec<ValueRef>)
    ensures
        final(out)@ == old(out)@ + vrefs_text(vs@),
{
    let mut i: usize = 0;
    while i < vs.len()
        invariant
            i <= vs@.len(),
            out@ == old(out)@ + vrefs_text(vs@.subrange(0, i as int)),
        decreases vs@.len() - i,
    {
        out.push(32);
        push_dec(out, vs[i].0);
        proof {
            assert(vs@.subrange(0, i + 1).drop_last() =~= vs@.subrange(0, i as int));
            assert(vs@.subrange(0, i + 1).last() == vs@[i as int]);
            assert(out@ =~= old(out)@ + vrefs_text(vs@.subrange(0, i + 1)));
        }
        i = i + 1;
    }
    proof {
        assert(vs@.subrange(0, vs@.len() as int) =~= vs@);
    }
}

/// Appends the space-prefixed decimal values of raw bytes.
fn push_byte_list(out: &mut Vec<u8>, bs: &Vec<u8>)
    ensures
        final(out)@ == old(out)@ + bytes_text(bs@),
{
    let mut i: usize = 0;
    while i < bs.len()
        invariant
            i <= bs@.len(),
            out@ == old(out)@ + bytes_text(bs@.subrange(0, i as int)),
        decreases bs@.len() - i,
    {
        out.push(32);
        push_dec(out, bs[i] as usize);
        proof {
            assert(bs@.subrange(0, i + 1).drop_last() =~= bs@.subrange(0, i as int));
            assert(bs@.subrange(0, i + 1).last() == bs@[i as int]);
            assert(out@ =~= old(out)@ + bytes_text(bs@.subrange(0, i + 1)));
        }
        i = i + 1;
    }
    proof {
        assert(bs@.subrange(0, bs@.len() as int) =~= bs@);
    }
}

#[verifier::rlimit(100)]
fn push_type_line(out: &mut Vec<u8>, t: &Type, i: usize)
    ensures
        final(out)@ == old(out)@ + type_line(*t, i as nat),
{
    out.push(116);
    push_dec(out, i);
    out.push(32);
    match t {
        Type::Void => {
            out.push(118);
            out.push(111);
            out.push(105);
            out.push(100);
        },
        Type::Integer(it) => {
            out.push(105);
            out.push(110);
            out.push(116);
            out.push(32);
            push_dec(out, it.bits as usize);
        },
        Type::Pointer(p) => {
            out.push(112);
            out.push(116);
            out.push(114);
            out.push(32);
            push_dec(out, p.0);
        },
        Type::Function(ft) => {
            out.push(102);
            out.push(110);
            out.push(32);
            push_dec(out, ft.return_ty.0);
            push_trefs(out, &ft.params);
            if ft.vararg {
                out.push(32);
                out.push(118);
                out.push(97);
                out.push(114);
                out.push(97);
                out.push(114);
                out.push(103);
            }
        },
    }
    out.push(10);
    proof {
        assert(out@ =~= old(out)@ + type_line(*t, i as nat));
    }
}

fn push_func_line(out: &mut Vec<u8>, f: &Function, i: usize)
    ensures
        final(out)@ == old(out)@ + func_line(*f, i as nat),
{
    out.push(102);
    push_dec(out, i);
    out.push(32);
    match &f.name {
        Some(nm) => push_bytes(out, nm),
        None => out.push(63),
    };
    out.push(32);
    match &f.ty {
        Some(tr) => push_dec(out, tr.0),
        None => out.push(63),
    };
    out.push(10);
    proof {
        assert(out@ =~= old(out)@ + func_line(*f, i as nat));
    }
}

fn push_block_line(out: &mut Vec<u8>, b: &BasicBlock, i: usize)
    ensures
        final(out)@ == old(out)@ + block_line(*b, i as nat),
{
    out.push(98);
    push_dec(out, i);
    out.push(32);
    push_dec(out, b.function.0);
    out.push(32);
    match &b.name {
        Some(nm) => push_bytes(out, nm),
        None => out.push(63),
    };
    push_vrefs(out, &b.insts);
    out.push(10);
    proof {
        assert(out@ =~= old(out)@ + block_line(*b, i as nat));
    }
}

#[verifier::rlimit(100)]
fn push_value_line(out: &mut Vec<u8>, v: &Value, i: usize)
    ensures
        final(out)@ == old(out)@ + value_line(*v, i as nat),
{
    out.push(118);
    push_dec(out, i);
    out.push(32);
    match v {
        Value::Constant(Constant::ConstantInt(ci)) => {
            out.push(99);
            out.push(111);
            out.push(110);
            out.push(115);
            out.push(116);
            out.push(32);
            push_dec64(out, ci.value);
            out.push(32);
            push_dec(out, ci.ty.0);
        },
        Value::GlobalString { data, ty } => {
            out.push(115);
            out.push(116);
            out.push(114);
            out.push(32);
            push_dec(out, ty.0);
            out.push(32);
            push_dec(out, data.len());
            push_byte_list(out, data);
        },
        Value::Alloca { ty, name } => {
            out.push(97);
            out.push(108);
            out.push(108);
            out.push(111);
            out.push(99);
            out.push(97);
            out.push(32);
            push_dec(out, ty.0);
            out.push(32);
            push_bytes(out, name);
        },
        Value::Store { value, ptr } => {
            out.push(115);
            out.push(116);
            out.push(111);
            out.push(114);
            out.push(101);
            out.push(32);
            push_dec(out, value.0);
            out.push(32);
            push_dec(out, ptr.0);
        },
        Value::Call { func, args } => {
            out.push(99);
            out.push(97);
            out.push(108);
            out.push(108);
            out.push(32);
            push_dec(out, func.0);
            push_vrefs(out, args);
        },
        Value::Ret { value } => {
            out.push(114);
            out.push(101);
            out.push(116);
            out.push(32);
            push_dec(out, value.0);
        },
        Value::RetVoid => {
            out.push(114);
            out.push(101);
            out.push(116);
            out.push(118);
            out.push(111);
            out.push(105);
            out.push(100);
        },
    }
    out.push(10);
    proof {
        assert(out@ =~= old(out)@ + value_line(*v, i as nat));
    }
}

impl Module {
    /// The textual dump of the module: the run's sole output artifact.
    pub fn dump(&self) -> (r: Vec<u8>)
        ensures
            r@ == dump_spec(*self),
    {
        let mut out: Vec<u8> = Vec::new();
        out.push(109);
        out.push(32);
        push_bytes(&mut out, &self.name);
        out.push(10);
        let ghost h0 = seq![109u8] + sp() + self.name@ + nl();
        proof {
            assert(out@ =~= h0);
        }
        let mut i: usize = 0;
        while i < self.types.len()
            invariant
                i <= self.types@.len(),
                h0 == seq![109u8] + sp() + self.name@ + nl(),
                out@ == h0 + types_text(self.types@.subrange(0, i as int)),
            decreases self.types@.len() - i,
        {
            push_type_line(&mut out, &self.types[i], i);
            proof {
                assert(self.types@.subrange(0, i + 1).drop_last() =~= self.types@.subrange(
                    0,
                    i as int,
                ));
                assert(self.types@.subrange(0, i + 1).last() == self.types@[i as int]);
                assert(out@ =~= h0 + types_text(self.types@.subrange(0, i + 1)));
            }
            i = i + 1;
        }
        let ghost h1 = h0 + types_text(self.types@);
        proof {
            assert(self.types@.subrange(0, self.types@.len() as int) =~= self.types@);
        }
        let mut j: usize = 0;
        while j < self.functions.len()
            invariant
                j <= self.functions@.len(),
                h1 == seq![109u8] + sp() + self.name@ + nl() + types_text(self.types@),
                out@ == h1 + funcs_text(self.functions@.subrange(0, j as int)),
            decreases self.functions@.len() - j,
        {
            push_func_line(&mut out, &self.functions[j], j);
            proof {
                assert(self.functions@.subrange(0, j + 1).drop_last() =~= self.functions@.subrange(
                    0,
                    j as int,
                ));
                assert(self.functions@.subrange(0, j + 1).last() == self.functions@[j as int]);
                assert(out@ =~= h1 + funcs_text(self.functions@.subrange(0, j + 1)));
            }
            j = j + 1;
        }
        let ghost h2 = h1 + funcs_text(self.functions@);
        proof {
            assert(self.functions@.subrange(0, self.functions@.len() as int) =~= self.functions@);
        }
        let mut k: usize = 0;
        while k < self.basic_blocks.len()
            invariant
                k <= self.basic_blocks@.len(),
                h2 == seq![109u8] + sp() + self.name@ + nl() + types_text(self.types@)
                    + funcs_text(self.functions@),
                out@ == h2 + blocks_text(self.basic_blocks@.subrange(0, k as int)),
            decreases self.basic_blocks@.len() - k,
        {
            push_block_line(&mut out, &self.basic_blocks[k], k);
            proof {
                assert(self.basic_blocks@.subrange(0, k + 1).drop_last()
                    =~= self.basic_blocks@.subrange(0, k as int));
                assert(self.basic_blocks@.subrange(0, k + 1).last() == self.basic_blocks@[k
                    as int]);
                assert(out@ =~= h2 + blocks_text(self.basic_blocks@.subrange(0, k + 1)));
            }
            k = k + 1;
        }
        let ghost h3 = h2 + blocks_text(self.basic_blocks@);
        proof {
            assert(self.basic_blocks@.subrange(0, self.basic_blocks@.len() as int)
                =~= self.basic_blocks@);
        }
        let mut l: usize = 0;
        while l < self.values.len()
            invariant
                l <= self.values@.len(),
                h3 == seq![109u8] + sp() + self.name@ + nl() + types_text(self.types@)
                    + funcs_text(self.functions@) + blocks_text(self.basic_blocks@),
                out@ == h3 + values_text(self.values@.subrange(0, l as int)),
            decreases self.values@.len() - l,
        {
            push_value_line(&mut out, &self.values[l], l);
            proof {
                assert(self.values@.subrange(0, l + 1).drop_last() =~= self.values@.subrange(
                    0,
                    l as int,
                ));
                assert(self.values@.subrange(0, l + 1).last() == self.values@[l as int]);
                assert(out@ =~= h3 + values_text(self.values@.subrange(0, l + 1)));
            }
            l = l + 1;
        }
        proof {
            assert(self.values@.subrange(0, self.values@.len() as int) =~= self.values@);
            assert(out@ =~= dump_spec(*self));
        }
        out
    }
}

} // verus!
