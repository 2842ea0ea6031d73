//! Front end and typed-IR lowering for a small experimental language.
//!
//! The pipeline is strictly staged: the lexer turns ASCII source bytes into
//! tokens, the parser turns tokens into a typed AST while resolving calls
//! against the symbols declared so far, and the lowering pass translates the
//! typed AST into an arena-owned IR module of functions, basic blocks and
//! values. Errors are fatal: the first one ends the run with no partial
//! result.

use vstd::prelude::*;

pub mod ast;
pub mod emit;
pub mod ir;
pub mod lexer;
pub mod lower;
pub mod parser;

use crate::ast::{ast_wf, Ast};
use crate::ir::Module;
use crate::lexer::{lex_err_evidence, tokens_ok, Lexer, LexicalError, Token};
use crate::ast::item_func;
use crate::lower::{body_insts_ok, count_bodies, item_has_body, lowered_func_ok, Gen};
use crate::parser::{
    err_evidence, items_abs, lemma_tokens_ok_for_parse, sp_parse_program, syms_abs, FuncS, Parser,
    SyntaxOrResolutionError,
};
use crate::ast::ItemId;

verus! {

/// The two fatal error kinds a run can end with.
#[derive(Debug, Eq, PartialEq, Copy, Clone, Structural)]
pub enum CompileError {
    Lexical(LexicalError),
    SyntaxOrResolution(SyntaxOrResolutionError),
}

/// A fresh buffer holding the bytes of a borrowed slice.
fn slice_to_vec(s: &[u8]) -> (r: Vec<u8>)
    ensures
        r@ == s@,
{
    let mut out: Vec<u8> = Vec::new();
    let mut i: usize = 0;
    while i < s.len()
        invariant
            i <= s@.len(),
            out@ == s@.subrange(0, i as int),
        decreases s@.len() - i,
    {
        out.push(s[i]);
        proof {
            assert(out@ =~= s@.subrange(0, i + 1));
        }
        i = i + 1;
    }
    proof {
        assert(s@.subrange(0, s@.len() as int) =~= s@);
    }
    out
}

/// Runs the whole pipeline on one ASCII source buffer: lex, parse, lower.
///
/// On success the typed tree is well formed and the IR module carries one
/// function per declared item, in order, each with the item's name and the
/// lowering of its declared signature.
pub fn compile(input: &[u8]) -> (r: Result<(Ast, Module), CompileError>)
    ensures
        r matches Ok(p) ==> {
            &&& ast_wf(p.0)
            &&& p.1.functions@.len() == p.0.items@.len()
            &&& forall|i: int|
                0 <= i < p.0.items@.len() ==> lowered_func_ok(p.1, #[trigger] p.0.items@[i], i)
            &&& p.1.basic_blocks@.len() == count_bodies(p.0.items@, p.0.items@.len() as int)
            &&& forall|i: int|
                0 <= i < p.0.items@.len() && item_has_body(#[trigger] p.0.items@[i])
                    ==> exists|b: int|
                    0 <= b < p.1.basic_blocks@.len() && (
                    #[trigger] p.1.basic_blocks@[b]).function.0 == i
            &&& forall|b: int|
                0 <= b < p.1.basic_blocks@.len() ==> (#[trigger] p.1.basic_blocks@[b]).function.0
                    < p.1.functions@.len()
            &&& forall|b: int|
                0 <= b < p.1.basic_blocks@.len() ==> body_insts_ok(
                    p.1,
                    item_func(p.0.items@[(#[trigger] p.1.basic_blocks@[b]).function.0 as int]),
                    p.1.basic_blocks@[b].insts@,
                )
        },
        r matches Ok(p) ==> exists|toks: Seq<Token>|
            tokens_ok(input@, toks) && sp_parse_program(input@, toks) == Ok::<
                (Seq<FuncS>, Seq<(Seq<u8>, ItemId)>),
                SyntaxOrResolutionError,
            >((items_abs(p.0.items@), syms_abs(p.0.symbols@))),
        r matches Err(e) ==> match e {
            CompileError::Lexical(le) => lex_err_evidence(input@, le),
            CompileError::SyntaxOrResolution(se) => exists|toks: Seq<Token>|
                tokens_ok(input@, toks) && sp_parse_program(input@, toks) == Err::<
                    (Seq<FuncS>, Seq<(Seq<u8>, ItemId)>),
                    SyntaxOrResolutionError,
                >(se) && err_evidence(input@, toks, se),
        },
{
    let tokens = match Lexer::lex(input) {
        Ok(t) => t,
        Err(e) => {
            return Err(CompileError::Lexical(e));
        },
    };
    proof {
        lemma_tokens_ok_for_parse(input@, tokens@);
    }
    let ghost toks_g = tokens@;
    let text = slice_to_vec(input);
    let parser = Parser::new(tokens, text);
    let ast = match parser.run() {
        Ok(a) => a,
        Err(e) => {
            proof {
                assert(tokens_ok(input@, toks_g) && sp_parse_program(input@, toks_g) == Err::<
                    (Seq<FuncS>, Seq<(Seq<u8>, ItemId)>),
                    SyntaxOrResolutionError,
                >(e) && err_evidence(input@, toks_g, e));
            }
            return Err(CompileError::SyntaxOrResolution(e));
        },
    };
    proof {
        assert(tokens_ok(input@, toks_g) && sp_parse_program(input@, toks_g) == Ok::<
            (Seq<FuncS>, Seq<(Seq<u8>, ItemId)>),
            SyntaxOrResolutionError,
        >((items_abs(ast.items@), syms_abs(ast.symbols@))));
    }
    let module = Gen::run(&ast);
    let r = (ast, module);
    proof {
        assert(r.1.basic_blocks@.len() == count_bodies(r.0.items@, r.0.items@.len() as int));
        assert forall|b: int| 0 <= b < r.1.basic_blocks@.len() implies body_insts_ok(
            r.1,
            item_func(r.0.items@[(#[trigger] r.1.basic_blocks@[b]).function.0 as int]),
            r.1.basic_blocks@[b].insts@,
        ) by {
            assert(body_insts_ok(
                module,
                item_func(ast.items@[module.basic_blocks@[b].function.0 as int]),
                module.basic_blocks@[b].insts@,
            ));
        }
        assert forall|i: int|
            0 <= i < r.0.items@.len() && item_has_body(#[trigger] r.0.items@[i]) implies exists|
            b: int,
        | 0 <= b < r.1.basic_blocks@.len() && (#[trigger] r.1.basic_blocks@[b]).function.0
            == i by {
            let b0 = choose|b: int|
                0 <= b < r.1.basic_blocks@.len() && (#[trigger] r.1.basic_blocks@[b]).function.0
                    == i;
            assert(0 <= b0 < r.1.basic_blocks@.len() && r.1.basic_blocks@[b0].function.0 == i);
        }
    }
    Ok(r)
}

} // verus!
