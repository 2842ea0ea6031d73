//! Single-pass recursive-descent parser with one token of lookahead.
//!
//! The parser grows the symbol table as it goes, so an expression can only
//! call a function declared earlier in the same pass (declare before use).
//! Every expression commits to a `TyId` at construction: number literals are
//! `i64`, string literals are `str`, and a call takes the resolved callee's
//! declared return type.
//!
//! The grammar itself is written down once more as a family of spec
//! functions (`sp_parse_expr` … `sp_parse_program`), the mathematical
//! reading of the productions with their typing and resolution rules. Each
//! parsing function is proved to return exactly that reading's verdict at
//! its cursor: success is owed whenever the tokens derive
//! (`program_derives`), the tree built is the derivation, and a failure is
//! the grammar's own first error.

use vstd::prelude::*;

use crate::ast::{
    ast_wf, builtin_tys, expr_wf, func_wf, item_func, item_name, item_wf, lemma_lookup_some,
    stmt_wf, symbols_lookup, ty_bool_id, ty_i64_id, ty_id_valid, ty_str_id, ty_void_id, Ast, Expr,
    ExprKind, Func, FuncCall, Item, ItemId, Local, Return, Stmt, TyId,
};
use crate::lexer::{is_digit_byte, token_matches, tokens_ok, Token, TokenKind};

verus! {

/// A fatal syntax or resolution error; parsing stops at the first one and
/// there is no partial tree.
#[derive(Debug, Eq, PartialEq, Copy, Clone, Structural)]
pub enum SyntaxOrResolutionError {
    /// A token of kind `expected` was required but `actual` stood at byte
    /// `offset`.
    UnexpectedToken { expected: TokenKind, actual: TokenKind, offset: usize },
    /// No expression can start with the token at byte `offset`.
    UnexpectedExprStart { actual: TokenKind, offset: usize },
    /// No top-level item can start with the token at byte `offset`.
    UnexpectedItemStart { actual: TokenKind, offset: usize },
    /// The type name at byte `offset` is not one of the builtin names.
    UnknownTypeName { offset: usize },
    /// The call at byte `offset` names a function not declared before it.
    UndeclaredCallee { offset: usize },
    /// The number literal at byte `offset` does not fit a 64-bit integer.
    NumberTooLarge { offset: usize },
}

/// A number token's span is a nonempty run of decimal digits.
pub open spec fn number_token_ok(text: Seq<u8>, t: Token) -> bool {
    &&& t.loc.start_p < t.loc.end_p
    &&& forall|j: int| t.loc.start_p <= j < t.loc.end_p ==> is_digit_byte(#[trigger] text[j])
}

/// A string token's span is at least the two quotes that border it.
pub open spec fn string_token_ok(text: Seq<u8>, t: Token) -> bool {
    &&& t.loc.start_p + 2 <= t.loc.end_p
    &&& text[t.loc.start_p as int] == 34
    &&& text[t.loc.end_p - 1] == 34
}

/// What the parser needs of its token sequence: it ends with the sole
/// end-of-input token, holds no whitespace tokens, every span sits inside
/// the source text, and literal tokens have the shape their kind promises.
pub open spec fn tokens_for_parse(text: Seq<u8>, toks: Seq<Token>) -> bool {
    &&& toks.len() >= 1
    &&& toks.len() <= text.len() + 1
    &&& toks.last().kind == TokenKind::Eof
    &&& forall|i: int|
        0 <= i < toks.len() - 1 ==> (#[trigger] toks[i].kind) != TokenKind::Eof && toks[i].kind
            != TokenKind::Whitespace
    &&& forall|i: int|
        0 <= i < toks.len() ==> (#[trigger] toks[i].loc).start_p <= toks[i].loc.end_p
            && toks[i].loc.end_p <= text.len()
    &&& forall|i: int|
        0 <= i < toks.len() && (#[trigger] toks[i].kind) == TokenKind::NumberLit
            ==> number_token_ok(text, toks[i])
    &&& forall|i: int|
        0 <= i < toks.len() && (#[trigger] toks[i].kind) == TokenKind::StringLit
            ==> string_token_ok(text, toks[i])
}

proof fn lemma_token_start_ge(text: Seq<u8>, toks: Seq<Token>, i: int)
    requires
        tokens_ok(text, toks),
        0 <= i < toks.len(),
    ensures
        toks[i].loc.start_p >= i,
    decreases i,
{
    if i > 0 {
        lemma_token_start_ge(text, toks, i - 1);
        assert(token_matches(text, toks[i - 1]));
        assert(toks[i - 1].kind != TokenKind::Eof);
        assert(toks[i - 1].loc.end_p > toks[i - 1].loc.start_p);
    }
}

/// A lex result is fit for parsing.
pub proof fn lemma_tokens_ok_for_parse(text: Seq<u8>, toks: Seq<Token>)
    requires
        tokens_ok(text, toks),
    ensures
        tokens_for_parse(text, toks),
{
    assert forall|i: int|
        0 <= i < toks.len() implies (#[trigger] toks[i].loc).start_p <= toks[i].loc.end_p
        && toks[i].loc.end_p <= text.len() by {
        assert(token_matches(text, toks[i]));
    }
    assert forall|i: int|
        0 <= i < toks.len() - 1 implies (#[trigger] toks[i].kind) != TokenKind::Eof && toks[i].kind
        != TokenKind::Whitespace by {
        assert(token_matches(text, toks[i]));
    }
    assert forall|i: int|
        0 <= i < toks.len() && (#[trigger] toks[i].kind) == TokenKind::NumberLit implies
        number_token_ok(text, toks[i]) by {
        assert(token_matches(text, toks[i]));
    }
    assert forall|i: int|
        0 <= i < toks.len() && (#[trigger] toks[i].kind) == TokenKind::StringLit implies
        string_token_ok(text, toks[i]) by {
        assert(token_matches(text, toks[i]));
    }
    lemma_token_start_ge(text, toks, toks.len() - 1);
    assert(token_matches(text, toks[toks.len() - 1]));
}

/// How many tokens in `[a, b)` are the `fn` keyword.
pub open spec fn count_fn_tokens(toks: Seq<Token>, a: int, b: int) -> int
    decreases b - a,
{
    if a >= b {
        0
    } else {
        count_fn_tokens(toks, a, b - 1) + if 0 <= b - 1 < toks.len() && toks[b - 1].kind
            == TokenKind::Fn {
            1int
        } else {
            0int
        }
    }
}

proof fn lemma_count_fn_split(toks: Seq<Token>, a: int, b: int, c: int)
    requires
        a <= b <= c,
    ensures
        count_fn_tokens(toks, a, c) == count_fn_tokens(toks, a, b) + count_fn_tokens(toks, b, c),
    decreases c - b,
{
    if b < c {
        lemma_count_fn_split(toks, a, b, c - 1);
    }
}

proof fn lemma_count_fn_none(toks: Seq<Token>, a: int, b: int)
    requires
        forall|j: int| a <= j < b ==> 0 <= j < toks.len() && (#[trigger] toks[j].kind)
            != TokenKind::Fn,
    ensures
        count_fn_tokens(toks, a, b) == 0,
    decreases b - a,
{
    if a < b {
        lemma_count_fn_none(toks, a, b - 1);
    }
}

proof fn lemma_count_fn_one(toks: Seq<Token>, a: int, b: int)
    requires
        a < b,
        0 <= a < toks.len(),
        toks[a].kind == TokenKind::Fn,
        forall|j: int| a < j < b ==> 0 <= j < toks.len() && (#[trigger] toks[j].kind)
            != TokenKind::Fn,
    ensures
        count_fn_tokens(toks, a, b) == 1,
    decreases b - a,
{
    if a + 1 == b {
        assert(count_fn_tokens(toks, a, a) == 0);
    } else {
        lemma_count_fn_one(toks, a, b - 1);
    }
}

/// The value of a run of decimal digits, most significant first.
pub open spec fn dec_val(s: Seq<u8>) -> int
    decreases s.len(),
{
    if s.len() == 0 {
        0
    } else {
        dec_val(s.drop_last()) * 10 + (s.last() - 48)
    }
}

pub open spec fn all_digits(s: Seq<u8>) -> bool {
    forall|i: int| 0 <= i < s.len() ==> is_digit_byte(#[trigger] s[i])
}

proof fn lemma_dec_val_nonneg(s: Seq<u8>)
    requires
        all_digits(s),
    ensures
        dec_val(s) >= 0,
    decreases s.len(),
{
    if s.len() > 0 {
        assert(all_digits(s.drop_last())) by {
            assert forall|i: int| 0 <= i < s.drop_last().len() implies is_digit_byte(
                #[trigger] s.drop_last()[i],
            ) by {
                assert(s.drop_last()[i] == s[i]);
            }
        }
        lemma_dec_val_nonneg(s.drop_last());
    }
}

/// A digit run's value only grows as more digits follow.
proof fn lemma_dec_val_prefix_le(s: Seq<u8>, k: int)
    requires
        all_digits(s),
        0 <= k <= s.len(),
    ensures
        dec_val(s.subrange(0, k)) <= dec_val(s),
    decreases s.len() - k,
{
    if k == s.len() {
        assert(s.subrange(0, s.len() as int) =~= s);
    } else {
        assert(s.subrange(0, k + 1).drop_last() =~= s.subrange(0, k));
        assert(all_digits(s.subrange(0, k)));
        lemma_dec_val_nonneg(s.subrange(0, k));
        assert(s.subrange(0, k + 1).last() == s[k]);
        lemma_dec_val_prefix_le(s, k + 1);
    }
}

/// The builtin source-level type names.
pub open spec fn tyname_void() -> Seq<u8> {
    seq![118u8, 111u8, 105u8, 100u8]
}

pub open spec fn tyname_bool() -> Seq<u8> {
    seq![98u8, 111u8, 111u8, 108u8]
}

pub open spec fn tyname_i64() -> Seq<u8> {
    seq![105u8, 54u8, 52u8]
}

pub open spec fn tyname_str() -> Seq<u8> {
    seq![115u8, 116u8, 114u8]
}

/// Resolution of a source-level type name against the fixed builtin table.
pub open spec fn ty_name_lookup(name: Seq<u8>) -> Option<TyId> {
    if name == tyname_str() {
        Some(ty_str_id())
    } else if name == tyname_i64() {
        Some(ty_i64_id())
    } else if name == tyname_void() {
        Some(ty_void_id())
    } else if name == tyname_bool() {
        Some(ty_bool_id())
    } else {
        None
    }
}

/// The mathematical image of an expression: spans and buffers as sequences.
pub struct ExprS {
    pub kind: ExprKindS,
    pub ty: TyId,
}

pub enum ExprKindS {
    Number(i64),
    Bool(bool),
    Str(Seq<u8>),
    Call(ItemId, Seq<ExprS>),
}

/// The mathematical image of a statement.
pub enum StmtS {
    Expr(ExprS),
    Local(Seq<u8>, ExprS),
    Return(Option<ExprS>),
}

/// The mathematical image of a declared function.
pub struct FuncS {
    pub name: Seq<u8>,
    pub return_ty: TyId,
    pub args: Seq<(Seq<u8>, TyId)>,
    pub stmts: Option<Seq<StmtS>>,
}

pub open spec fn expr_abs(e: Expr) -> ExprS
    decreases e,
{
    ExprS {
        ty: e.ty,
        kind: match e.kind {
            ExprKind::NumberLit(x) => ExprKindS::Number(x),
            ExprKind::BoolLit(b) => ExprKindS::Bool(b),
            ExprKind::StringLit(s) => ExprKindS::Str(s@),
            ExprKind::FuncCall(fc) => ExprKindS::Call(
                fc.func,
                exprs_abs(fc.args@, fc.args@.len() as int),
            ),
        },
    }
}

/// The images of the first `n` expressions of a sequence.
pub open spec fn exprs_abs(es: Seq<Expr>, n: int) -> Seq<ExprS>
    decreases es, n,
{
    if n <= 0 || n > es.len() {
        Seq::empty()
    } else {
        exprs_abs(es, n - 1).push(expr_abs(es[n - 1]))
    }
}

proof fn lemma_exprs_abs(es: Seq<Expr>, n: int)
    requires
        0 <= n <= es.len(),
    ensures
        exprs_abs(es, n).len() == n,
        forall|j: int| 0 <= j < n ==> exprs_abs(es, n)[j] == expr_abs(es[j]),
    decreases n,
{
    if n > 0 {
        lemma_exprs_abs(es, n - 1);
    }
}

pub open spec fn stmt_abs(s: Stmt) -> StmtS {
    match s {
        Stmt::Expr(e) => StmtS::Expr(expr_abs(e)),
        Stmt::Local(l) => StmtS::Local(l.name@, expr_abs(l.init)),
        Stmt::Return(r) => StmtS::Return(
            match r.value {
                Some(e) => Some(expr_abs(e)),
                None => None,
            },
        ),
    }
}

/// The images of a parameter list's entries.
pub open spec fn params_abs(ps: Seq<(Vec<u8>, TyId)>) -> Seq<(Seq<u8>, TyId)> {
    Seq::new(ps.len(), |j: int| (ps[j].0@, ps[j].1))
}

/// The images of a statement list's entries.
pub open spec fn stmts_abs(ss: Seq<Stmt>) -> Seq<StmtS> {
    Seq::new(ss.len(), |j: int| stmt_abs(ss[j]))
}

pub open spec fn func_abs(f: Func) -> FuncS {
    FuncS {
        name: f.name@,
        return_ty: f.return_ty,
        args: params_abs(f.args@),
        stmts: match f.stmts {
            Some(ss) => Some(stmts_abs(ss@)),
            None => None,
        },
    }
}

pub open spec fn items_abs(items: Seq<Item>) -> Seq<FuncS> {
    Seq::new(items.len(), |i: int| func_abs(item_func(items[i])))
}

pub open spec fn syms_abs(syms: Seq<(Vec<u8>, ItemId)>) -> Seq<(Seq<u8>, ItemId)> {
    Seq::new(syms.len(), |i: int| (syms[i].0@, syms[i].1))
}

/// Symbol lookup over the mathematical table, latest binding first.
pub open spec fn sp_lookup(syms: Seq<(Seq<u8>, ItemId)>, name: Seq<u8>) -> Option<ItemId>
    decreases syms.len(),
{
    if syms.len() == 0 {
        None
    } else if syms.last().0 == name {
        Some(syms.last().1)
    } else {
        sp_lookup(syms.drop_last(), name)
    }
}

proof fn lemma_lookup_abs(syms: Seq<(Vec<u8>, ItemId)>, name: Seq<u8>)
    ensures
        sp_lookup(syms_abs(syms), name) == symbols_lookup(syms, name),
    decreases syms.len(),
{
    if syms.len() > 0 {
        lemma_lookup_abs(syms.drop_last(), name);
        assert(syms_abs(syms).drop_last() =~= syms_abs(syms.drop_last()));
        assert(syms_abs(syms).last() == (syms.last().0@, syms.last().1));
    }
}

/// The bytes of the source under a token's span.
pub open spec fn tok_str(text: Seq<u8>, t: Token) -> Seq<u8> {
    text.subrange(t.loc.start_p as int, t.loc.end_p as int)
}

/// The error for an unexpected token where `expected` was required.
pub open spec fn sp_err_tok(expected: TokenKind, t: Token) -> SyntaxOrResolutionError {
    SyntaxOrResolutionError::UnexpectedToken {
        expected,
        actual: t.kind,
        offset: t.loc.start_p as usize,
    }
}

/// A placeholder verdict for states the parser can never reach on a token
/// sequence fit for parsing (an offset outside the stream, or no progress).
pub open spec fn sp_stuck() -> Result<(), SyntaxOrResolutionError> {
    Err(
        SyntaxOrResolutionError::UnexpectedExprStart {
            actual: TokenKind::Whitespace,
            offset: 0,
        },
    )
}

/// The grammar's verdict on one expression starting at `off`: the expression
/// read and the offset after it, or the first error. This is the §4.2
/// expression production together with its typing and resolution rules:
/// number literals commit to `i64` when their digits fit, string literals to
/// `str` with the quotes stripped, and an identifier must be a call of a
/// name already in the table, committing to the resolved callee's declared
/// return type.
pub open spec fn sp_parse_expr(
    text: Seq<u8>,
    toks: Seq<Token>,
    items: Seq<FuncS>,
    syms: Seq<(Seq<u8>, ItemId)>,
    off: int,
) -> Result<(ExprS, int), SyntaxOrResolutionError>
    decreases toks.len() - off, 0int,
{
    if !(0 <= off < toks.len()) {
        Err(sp_stuck()->Err_0)
    } else {
        let t = toks[off];
        if t.kind == TokenKind::NumberLit {
            let v = dec_val(tok_str(text, t));
            if v > i64::MAX {
                Err(SyntaxOrResolutionError::NumberTooLarge { offset: t.loc.start_p as usize })
            } else {
                Ok((ExprS { kind: ExprKindS::Number(v as i64), ty: ty_i64_id() }, off + 1))
            }
        } else if t.kind == TokenKind::StringLit {
            Ok(
                (
                    ExprS {
                        kind: ExprKindS::Str(
                            text.subrange(t.loc.start_p + 1, t.loc.end_p - 1),
                        ),
                        ty: ty_str_id(),
                    },
                    off + 1,
                ),
            )
        } else if t.kind == TokenKind::Ident {
            if !(off + 1 < toks.len()) {
                Err(sp_stuck()->Err_0)
            } else if toks[off + 1].kind != TokenKind::OpenParen {
                Err(sp_err_tok(TokenKind::OpenParen, toks[off + 1]))
            } else {
                match sp_parse_args(text, toks, items, syms, off + 2) {
                    Err(e) => Err(e),
                    Ok((args, off2)) => if !(off < off2 < toks.len()) {
                        Err(sp_stuck()->Err_0)
                    } else if toks[off2].kind != TokenKind::ClosedParen {
                        Err(sp_err_tok(TokenKind::ClosedParen, toks[off2]))
                    } else {
                        match sp_lookup(syms, tok_str(text, t)) {
                            None => Err(
                                SyntaxOrResolutionError::UndeclaredCallee {
                                    offset: t.loc.start_p as usize,
                                },
                            ),
                            Some(id) => if id.0 < items.len() {
                                Ok(
                                    (
                                        ExprS {
                                            kind: ExprKindS::Call(id, args),
                                            ty: items[id.0 as int].return_ty,
                                        },
                                        off2 + 1,
                                    ),
                                )
                            } else {
                                Err(sp_stuck()->Err_0)
                            },
                        }
                    },
                }
            }
        } else {
            Err(
                SyntaxOrResolutionError::UnexpectedExprStart {
                    actual: t.kind,
                    offset: t.loc.start_p as usize,
                },
            )
        }
    }
}

/// The grammar's verdict on a call's argument list, standing just inside the
/// parentheses: the arguments read and the offset of the closing token.
pub open spec fn sp_parse_args(
    text: Seq<u8>,
    toks: Seq<Token>,
    items: Seq<FuncS>,
    syms: Seq<(Seq<u8>, ItemId)>,
    off: int,
) -> Result<(Seq<ExprS>, int), SyntaxOrResolutionError>
    decreases toks.len() - off, 1int,
{
    if !(0 <= off < toks.len()) {
        Err(sp_stuck()->Err_0)
    } else if toks[off].kind == TokenKind::ClosedParen {
        Ok((Seq::empty(), off))
    } else {
        match sp_parse_expr(text, toks, items, syms, off) {
            Err(e) => Err(e),
            Ok((e, off2)) => if !(off < off2 < toks.len()) {
                Err(sp_stuck()->Err_0)
            } else if toks[off2].kind == TokenKind::Comma {
                match sp_parse_args(text, toks, items, syms, off2 + 1) {
                    Err(e2) => Err(e2),
                    Ok((rest, off3)) => Ok((seq![e] + rest, off3)),
                }
            } else {
                Ok((seq![e], off2))
            },
        }
    }
}

/// The grammar's verdict on `let name = init`.
pub open spec fn sp_parse_local(
    text: Seq<u8>,
    toks: Seq<Token>,
    items: Seq<FuncS>,
    syms: Seq<(Seq<u8>, ItemId)>,
    off: int,
) -> Result<(StmtS, int), SyntaxOrResolutionError>
    decreases toks.len() - off, 2int,
{
    if !(0 <= off < toks.len()) {
        Err(sp_stuck()->Err_0)
    } else if toks[off].kind != TokenKind::Let {
        Err(sp_err_tok(TokenKind::Let, toks[off]))
    } else if !(off + 1 < toks.len()) {
        Err(sp_stuck()->Err_0)
    } else if toks[off + 1].kind != TokenKind::Ident {
        Err(sp_err_tok(TokenKind::Ident, toks[off + 1]))
    } else if !(off + 2 < toks.len()) {
        Err(sp_stuck()->Err_0)
    } else if toks[off + 2].kind != TokenKind::Equal {
        Err(sp_err_tok(TokenKind::Equal, toks[off + 2]))
    } else {
        match sp_parse_expr(text, toks, items, syms, off + 3) {
            Err(e) => Err(e),
            Ok((e, off2)) => Ok((StmtS::Local(tok_str(text, toks[off + 1]), e), off2)),
        }
    }
}

/// The grammar's verdict on `return` with an optional value.
pub open spec fn sp_parse_return(
    text: Seq<u8>,
    toks: Seq<Token>,
    items: Seq<FuncS>,
    syms: Seq<(Seq<u8>, ItemId)>,
    off: int,
) -> Result<(StmtS, int), SyntaxOrResolutionError>
    decreases toks.len() - off, 2int,
{
    if !(0 <= off < toks.len()) {
        Err(sp_stuck()->Err_0)
    } else if toks[off].kind != TokenKind::Return {
        Err(sp_err_tok(TokenKind::Return, toks[off]))
    } else if !(off + 1 < toks.len()) {
        Err(sp_stuck()->Err_0)
    } else if toks[off + 1].kind == TokenKind::Semi {
        Ok((StmtS::Return(None), off + 1))
    } else {
        match sp_parse_expr(text, toks, items, syms, off + 1) {
            Err(e) => Err(e),
            Ok((e, off2)) => Ok((StmtS::Return(Some(e)), off2)),
        }
    }
}

/// The grammar's verdict on one statement and its trailing semicolon.
pub open spec fn sp_parse_stmt(
    text: Seq<u8>,
    toks: Seq<Token>,
    items: Seq<FuncS>,
    syms: Seq<(Seq<u8>, ItemId)>,
    off: int,
) -> Result<(StmtS, int), SyntaxOrResolutionError>
    decreases toks.len() - off, 3int,
{
    if !(0 <= off < toks.len()) {
        Err(sp_stuck()->Err_0)
    } else {
        let inner = if toks[off].kind == TokenKind::Let {
            sp_parse_local(text, toks, items, syms, off)
        } else if toks[off].kind == TokenKind::Return {
            sp_parse_return(text, toks, items, syms, off)
        } else {
            match sp_parse_expr(text, toks, items, syms, off) {
                Err(e) => Err(e),
                Ok((e, off2)) => Ok((StmtS::Expr(e), off2)),
            }
        };
        match inner {
            Err(e) => Err(e),
            Ok((s, off2)) => if !(0 <= off2 < toks.len()) {
                Err(sp_stuck()->Err_0)
            } else if toks[off2].kind != TokenKind::Semi {
                Err(sp_err_tok(TokenKind::Semi, toks[off2]))
            } else {
                Ok((s, off2 + 1))
            },
        }
    }
}

/// The grammar's verdict on a parameter list, standing just inside the
/// parentheses.
pub open spec fn sp_parse_params(text: Seq<u8>, toks: Seq<Token>, off: int) -> Result<
    (Seq<(Seq<u8>, TyId)>, int),
    SyntaxOrResolutionError,
>
    decreases toks.len() - off, 1int,
{
    if !(0 <= off < toks.len()) {
        Err(sp_stuck()->Err_0)
    } else if toks[off].kind == TokenKind::ClosedParen {
        Ok((Seq::empty(), off))
    } else if toks[off].kind != TokenKind::Ident {
        Err(sp_err_tok(TokenKind::Ident, toks[off]))
    } else if !(off + 1 < toks.len()) {
        Err(sp_stuck()->Err_0)
    } else if toks[off + 1].kind != TokenKind::Colon {
        Err(sp_err_tok(TokenKind::Colon, toks[off + 1]))
    } else if !(off + 2 < toks.len()) {
        Err(sp_stuck()->Err_0)
    } else if toks[off + 2].kind != TokenKind::Ident {
        Err(sp_err_tok(TokenKind::Ident, toks[off + 2]))
    } else {
        match ty_name_lookup(tok_str(text, toks[off + 2])) {
            None => Err(
                SyntaxOrResolutionError::UnknownTypeName {
                    offset: toks[off + 2].loc.start_p as usize,
                },
            ),
            Some(ty) => {
                let param = (tok_str(text, toks[off]), ty);
                if !(off + 3 < toks.len()) {
                    Err(sp_stuck()->Err_0)
                } else {
                    let next = if toks[off + 3].kind == TokenKind::Comma {
                        off + 4
                    } else {
                        off + 3
                    };
                    match sp_parse_params(text, toks, next) {
                        Err(e) => Err(e),
                        Ok((rest, end)) => Ok((seq![param] + rest, end)),
                    }
                }
            },
        }
    }
}

/// The grammar's verdict on the statements of a braced body, standing just
/// inside the braces.
pub open spec fn sp_parse_stmts(
    text: Seq<u8>,
    toks: Seq<Token>,
    items: Seq<FuncS>,
    syms: Seq<(Seq<u8>, ItemId)>,
    off: int,
) -> Result<(Seq<StmtS>, int), SyntaxOrResolutionError>
    decreases toks.len() - off, 4int,
{
    if !(0 <= off < toks.len()) {
        Err(sp_stuck()->Err_0)
    } else if toks[off].kind == TokenKind::ClosedBrace {
        Ok((Seq::empty(), off))
    } else {
        match sp_parse_stmt(text, toks, items, syms, off) {
            Err(e) => Err(e),
            Ok((s, off2)) => if !(off < off2) {
                Err(sp_stuck()->Err_0)
            } else {
                match sp_parse_stmts(text, toks, items, syms, off2) {
                    Err(e2) => Err(e2),
                    Ok((rest, end)) => Ok((seq![s] + rest, end)),
                }
            },
        }
    }
}

/// The grammar's verdict on one whole function declaration: the §4.2 item
/// production, with `void` for an omitted return type and either `;` or a
/// braced body.
pub open spec fn sp_parse_func(
    text: Seq<u8>,
    toks: Seq<Token>,
    items: Seq<FuncS>,
    syms: Seq<(Seq<u8>, ItemId)>,
    off: int,
) -> Result<(FuncS, int), SyntaxOrResolutionError>
    decreases toks.len() - off, 5int,
{
    if !(0 <= off < toks.len()) {
        Err(sp_stuck()->Err_0)
    } else if toks[off].kind != TokenKind::Fn {
        Err(sp_err_tok(TokenKind::Fn, toks[off]))
    } else if !(off + 1 < toks.len()) {
        Err(sp_stuck()->Err_0)
    } else if toks[off + 1].kind != TokenKind::Ident {
        Err(sp_err_tok(TokenKind::Ident, toks[off + 1]))
    } else if !(off + 2 < toks.len()) {
        Err(sp_stuck()->Err_0)
    } else if toks[off + 2].kind != TokenKind::OpenParen {
        Err(sp_err_tok(TokenKind::OpenParen, toks[off + 2]))
    } else {
        match sp_parse_params(text, toks, off + 3) {
            Err(e) => Err(e),
            Ok((args, offp)) => if !(off < offp < toks.len()) {
                Err(sp_stuck()->Err_0)
            } else if toks[offp].kind != TokenKind::ClosedParen {
                Err(sp_err_tok(TokenKind::ClosedParen, toks[offp]))
            } else {
                sp_parse_func_tail(
                    text,
                    toks,
                    items,
                    syms,
                    tok_str(text, toks[off + 1]),
                    args,
                    offp + 1,
                )
            },
        }
    }
}

/// The tail of a declaration after its closed parameter list: the optional
/// arrow return type, then `;` or the braced body.
pub open spec fn sp_parse_func_tail(
    text: Seq<u8>,
    toks: Seq<Token>,
    items: Seq<FuncS>,
    syms: Seq<(Seq<u8>, ItemId)>,
    name: Seq<u8>,
    args: Seq<(Seq<u8>, TyId)>,
    off: int,
) -> Result<(FuncS, int), SyntaxOrResolutionError>
    decreases toks.len() - off, 5int,
{
    if !(0 <= off < toks.len()) {
        Err(sp_stuck()->Err_0)
    } else if toks[off].kind == TokenKind::Arrow {
        if !(off + 1 < toks.len()) {
            Err(sp_stuck()->Err_0)
        } else if toks[off + 1].kind != TokenKind::Ident {
            Err(sp_err_tok(TokenKind::Ident, toks[off + 1]))
        } else {
            match ty_name_lookup(tok_str(text, toks[off + 1])) {
                None => Err(
                    SyntaxOrResolutionError::UnknownTypeName {
                        offset: toks[off + 1].loc.start_p as usize,
                    },
                ),
                Some(rt) => sp_parse_func_body(
                    text,
                    toks,
                    items,
                    syms,
                    name,
                    args,
                    rt,
                    off + 2,
                ),
            }
        }
    } else {
        sp_parse_func_body(text, toks, items, syms, name, args, TyId(0), off)
    }
}

/// The body part of a declaration: `;` for none, or the braced statements.
pub open spec fn sp_parse_func_body(
    text: Seq<u8>,
    toks: Seq<Token>,
    items: Seq<FuncS>,
    syms: Seq<(Seq<u8>, ItemId)>,
    name: Seq<u8>,
    args: Seq<(Seq<u8>, TyId)>,
    return_ty: TyId,
    off: int,
) -> Result<(FuncS, int), SyntaxOrResolutionError>
    decreases toks.len() - off, 4int,
{
    if !(0 <= off < toks.len()) {
        Err(sp_stuck()->Err_0)
    } else if toks[off].kind == TokenKind::Semi {
        Ok((FuncS { name, return_ty, args, stmts: None }, off + 1))
    } else if toks[off].kind != TokenKind::OpenBrace {
        Err(sp_err_tok(TokenKind::OpenBrace, toks[off]))
    } else {
        match sp_parse_stmts(text, toks, items, syms, off + 1) {
            Err(e) => Err(e),
            Ok((ss, offs)) => if !(0 <= offs < toks.len()) {
                Err(sp_stuck()->Err_0)
            } else if toks[offs].kind != TokenKind::ClosedBrace {
                Err(sp_err_tok(TokenKind::ClosedBrace, toks[offs]))
            } else {
                Ok((FuncS { name, return_ty, args, stmts: Some(ss) }, offs + 1))
            },
        }
    }
}

/// The grammar's verdict on the whole program from `off` on, growing the
/// item list and the symbol table as each declaration is read, so that later
/// bodies resolve against them (declare before use).
pub open spec fn sp_run_items(
    text: Seq<u8>,
    toks: Seq<Token>,
    items: Seq<FuncS>,
    syms: Seq<(Seq<u8>, ItemId)>,
    off: int,
) -> Result<(Seq<FuncS>, Seq<(Seq<u8>, ItemId)>), SyntaxOrResolutionError>
    decreases toks.len() - off, 6int,
{
    if !(0 <= off < toks.len()) {
        Err(sp_stuck()->Err_0)
    } else if toks[off].kind == TokenKind::Eof {
        Ok((items, syms))
    } else if toks[off].kind != TokenKind::Fn {
        Err(
            SyntaxOrResolutionError::UnexpectedItemStart {
                actual: toks[off].kind,
                offset: toks[off].loc.start_p as usize,
            },
        )
    } else {
        match sp_parse_func(text, toks, items, syms, off) {
            Err(e) => Err(e),
            Ok((f, off2)) => if !(off < off2) {
                Err(sp_stuck()->Err_0)
            } else {
                sp_run_items(
                    text,
                    toks,
                    items.push(f),
                    syms.push((f.name, ItemId(items.len() as u32))),
                    off2,
                )
            },
        }
    }
}

/// The grammar's verdict on a whole token sequence: the declared functions
/// and the finished symbol table, or the first error.
pub open spec fn sp_parse_program(text: Seq<u8>, toks: Seq<Token>) -> Result<
    (Seq<FuncS>, Seq<(Seq<u8>, ItemId)>),
    SyntaxOrResolutionError,
> {
    sp_run_items(text, toks, Seq::empty(), Seq::empty(), 0)
}

/// Acceptance of the §4.2 grammar, declare-before-use included: the token
/// sequence derives a program.
pub open spec fn program_derives(text: Seq<u8>, toks: Seq<Token>) -> bool {
    sp_parse_program(text, toks) is Ok
}

/// What each error kind attests about the token stream: the offending token
/// really stands there, with the reported kind, at the reported byte offset —
/// and for a too-large number, its digits really exceed the 64-bit range.
pub open spec fn err_evidence(text: Seq<u8>, toks: Seq<Token>, e: SyntaxOrResolutionError) -> bool {
    match e {
        SyntaxOrResolutionError::UnexpectedToken { expected, actual, offset } => exists|k: int|
            0 <= k < toks.len() && (#[trigger] toks[k]).kind == actual && toks[k].loc.start_p
                == offset && actual != expected,
        SyntaxOrResolutionError::UnexpectedExprStart { actual, offset } => exists|k: int|
            0 <= k < toks.len() && (#[trigger] toks[k]).kind == actual && toks[k].loc.start_p
                == offset && actual != TokenKind::NumberLit && actual != TokenKind::StringLit
                && actual != TokenKind::Ident,
        SyntaxOrResolutionError::UnexpectedItemStart { actual, offset } => exists|k: int|
            0 <= k < toks.len() && (#[trigger] toks[k]).kind == actual && toks[k].loc.start_p
                == offset && actual != TokenKind::Fn && actual != TokenKind::Eof,
        SyntaxOrResolutionError::UnknownTypeName { offset } => exists|k: int|
            0 <= k < toks.len() && (#[trigger] toks[k]).kind == TokenKind::Ident
                && toks[k].loc.start_p == offset && ty_name_lookup(
                text.subrange(toks[k].loc.start_p as int, toks[k].loc.end_p as int),
            ) is None,
        SyntaxOrResolutionError::UndeclaredCallee { offset } => exists|k: int|
            0 <= k < toks.len() && (#[trigger] toks[k]).kind == TokenKind::Ident
                && toks[k].loc.start_p == offset,
        SyntaxOrResolutionError::NumberTooLarge { offset } => exists|k: int|
            0 <= k < toks.len() && (#[trigger] toks[k]).kind == TokenKind::NumberLit
                && toks[k].loc.start_p == offset && dec_val(
                text.subrange(toks[k].loc.start_p as int, toks[k].loc.end_p as int),
            ) > i64::MAX,
    }
}

/// The parser state: the token sequence, the scan offset, the source text the
/// spans point into, and the tree grown so far.
pub struct Parser {
    pub tokens: Vec<Token>,
    pub offset: usize,
    pub text: Vec<u8>,
    pub ast: Ast,
}

/// The parser's running invariant: the token stream is fit for parsing, the
/// offset has not passed the end-of-input token, the tree is well formed, and
/// (since every declaration costs at least five tokens) the item count stays
/// far below the id range.
pub open spec fn parser_wf(p: Parser) -> bool {
    &&& tokens_for_parse(p.text@, p.tokens@)
    &&& p.offset < p.tokens@.len()
    &&& p.text@.len() <= u32::MAX
    &&& ast_wf(p.ast)
    &&& 5 * p.ast.items@.len() <= p.offset
}

impl Parser {
    /// A parser at the start of the token sequence, with a fresh tree.
    pub fn new(tokens: Vec<Token>, text: Vec<u8>) -> (r: Parser)
        requires
            tokens_for_parse(text@, tokens@),
            text@.len() <= u32::MAX,
        ensures
            parser_wf(r),
            r.tokens@ == tokens@,
            r.text@ == text@,
            r.offset == 0,
            r.ast.items@ == Seq::<Item>::empty(),
            r.ast.symbols@ == Seq::<(Vec<u8>, ItemId)>::empty(),
    {
        Parser { tokens, offset: 0, text, ast: Ast::new() }
    }

    /// The kind of the token under the cursor.
    fn peek_kind(&self) -> (k: TokenKind)
        requires
            parser_wf(*self),
        ensures
            k == self.tokens@[self.offset as int].kind,
    {
        self.tokens[self.offset].kind
    }

    /// Consumes the token under the cursor if it has the expected kind;
    /// otherwise reports expected-versus-actual and leaves the cursor alone.
    fn match_tok(&mut self, kind: TokenKind) -> (r: Result<Token, SyntaxOrResolutionError>)
        requires
            parser_wf(*old(self)),
            kind != TokenKind::Eof,
        ensures
            parser_wf(*final(self)),
            final(self).tokens@ == old(self).tokens@,
            final(self).text@ == old(self).text@,
            final(self).ast == old(self).ast,
            r matches Ok(t) ==> {
                &&& old(self).tokens@[old(self).offset as int].kind == kind
                &&& t == old(self).tokens@[old(self).offset as int]
                &&& final(self).offset == old(self).offset + 1
            },
            r matches Err(e) ==> {
                &&& old(self).tokens@[old(self).offset as int].kind != kind
                &&& final(self).offset == old(self).offset
                &&& e matches SyntaxOrResolutionError::UnexpectedToken {
                    expected,
                    actual,
                    offset,
                } && expected == kind && actual == old(self).tokens@[old(self).offset as int].kind
                    && offset == old(self).tokens@[old(self).offset as int].loc.start_p
                &&& err_evidence(old(self).text@, old(self).tokens@, e)
            },
    {
        let t = self.tokens[self.offset];
        if t.kind == kind {
            self.offset = self.offset + 1;
            Ok(t)
        } else {
            Err(
                SyntaxOrResolutionError::UnexpectedToken {
                    expected: kind,
                    actual: t.kind,
                    offset: t.loc.start(),
                },
            )
        }
    }

    /// The bytes of the source under a token's span.
    fn get_string(&self, token: &Token) -> (r: Vec<u8>)
        requires
            token.loc.start_p <= token.loc.end_p,
            token.loc.end_p <= self.text@.len(),
        ensures
            r@ == self.text@.subrange(token.loc.start_p as int, token.loc.end_p as int),
    {
        let start = token.loc.start();
        let end = token.loc.end();
        let mut out: Vec<u8> = Vec::new();
        let mut i: usize = start;
        while i < end
            invariant
                start <= i <= end,
                end <= self.text@.len(),
                out@ == self.text@.subrange(start as int, i as int),
            decreases end - i,
        {
            out.push(self.text[i]);
            proof {
                assert(out@ =~= self.text@.subrange(start as int, i + 1));
            }
            i = i + 1;
        }
        out
    }

    /// Consumes a token of the expected kind and hands back the source bytes
    /// under its span.
    fn match_tok_string(&mut self, kind: TokenKind) -> (r: Result<
        Vec<u8>,
        SyntaxOrResolutionError,
    >)
        requires
            parser_wf(*old(self)),
            kind != TokenKind::Eof,
        ensures
            parser_wf(*final(self)),
            final(self).tokens@ == old(self).tokens@,
            final(self).text@ == old(self).text@,
            final(self).ast == old(self).ast,
            r matches Ok(s) ==> {
                &&& old(self).tokens@[old(self).offset as int].kind == kind
                &&& s@ == old(self).text@.subrange(
                    old(self).tokens@[old(self).offset as int].loc.start_p as int,
                    old(self).tokens@[old(self).offset as int].loc.end_p as int,
                )
                &&& final(self).offset == old(self).offset + 1
            },
            r is Err ==> old(self).tokens@[old(self).offset as int].kind != kind
                && final(self).offset == old(self).offset,
            r matches Err(e) ==> err_evidence(old(self).text@, old(self).tokens@, e),
    {
        let token = match self.match_tok(kind) {
            Ok(t) => t,
            Err(e) => {
                return Err(e);
            },
        };
        Ok(self.get_string(&token))
    }

    /// Reads the decimal value of the digit run at `[start, end)`, rejecting
    /// values that do not fit a 64-bit integer.
    fn parse_number(&self, start: usize, end: usize) -> (r: Result<i64, SyntaxOrResolutionError>)
        requires
            start < end,
            end <= self.text@.len(),
            forall|i: int| start <= i < end ==> is_digit_byte(#[trigger] self.text@[i]),
        ensures
            r matches Ok(v) ==> v == dec_val(self.text@.subrange(start as int, end as int)),
            r matches Err(e) ==> dec_val(self.text@.subrange(start as int, end as int)) > i64::MAX
                && e == (SyntaxOrResolutionError::NumberTooLarge { offset: start }),
    {
        let ghost s = self.text@.subrange(start as int, end as int);
        proof {
            assert(all_digits(s));
        }
        let mut acc: i64 = 0;
        let mut i: usize = start;
        while i < end
            invariant
                start <= i <= end,
                end <= self.text@.len(),
                forall|j: int| start <= j < end ==> is_digit_byte(#[trigger] self.text@[j]),
                s == self.text@.subrange(start as int, end as int),
                all_digits(s),
                0 <= acc,
                acc == dec_val(s.subrange(0, i - start)),
            decreases end - i,
        {
            let d: u8 = self.text[i] - 48;
            assert(d <= 9);
            let ghost pre = s.subrange(0, i - start);
            let ghost ext = s.subrange(0, i + 1 - start);
            proof {
                assert(ext.drop_last() =~= pre);
                assert(ext.last() == s[i - start]);
                assert(s[i - start] == self.text@[i as int]);
            }
            if acc > (i64::MAX - d as i64) / 10 {
                proof {
                    assert(dec_val(ext) == acc * 10 + d);
                    assert(acc * 10 + d > i64::MAX);
                    lemma_dec_val_prefix_le(s, i + 1 - start);
                }
                return Err(SyntaxOrResolutionError::NumberTooLarge { offset: start });
            }
            assert(acc * 10 + d <= i64::MAX);
            acc = acc * 10 + d as i64;
            i = i + 1;
        }
        proof {
            assert(s.subrange(0, s.len() as int) =~= s);
        }
        Ok(acc)
    }

    /// Resolves a source-level type name against the fixed builtin-name table.
    fn get_type(&self, name: &Vec<u8>) -> (r: Option<TyId>)
        ensures
            r == ty_name_lookup(name@),
            r matches Some(t) ==> ty_id_valid(t),
    {
        if name.len() == 3 && name[0] == 115 && name[1] == 116 && name[2] == 114 {
            proof {
                assert(name@ =~= tyname_str());
            }
            return Some(TyId(2));
        }
        proof {
            assert(name@ != tyname_str()) by {
                if name@.len() == 3 {
                }
            }
        }
        if name.len() == 3 && name[0] == 105 && name[1] == 54 && name[2] == 52 {
            proof {
                assert(name@ =~= tyname_i64());
            }
            return Some(TyId(1));
        }
        proof {
            assert(name@ != tyname_i64()) by {
                if name@.len() == 3 {
                }
            }
        }
        if name.len() == 4 && name[0] == 118 && name[1] == 111 && name[2] == 105 && name[3] == 100 {
            proof {
                assert(name@ =~= tyname_void());
            }
            return Some(TyId(0));
        }
        proof {
            assert(name@ != tyname_void()) by {
                if name@.len() == 4 {
                }
            }
        }
        if name.len() == 4 && name[0] == 98 && name[1] == 111 && name[2] == 111 && name[3] == 108 {
            proof {
                assert(name@ =~= tyname_bool());
            }
            return Some(TyId(3));
        }
        proof {
            assert(name@ != tyname_bool()) by {
                if name@.len() == 4 {
                }
            }
        }
        None
    }

    /// Parses one expression.
    ///
    /// The result — tree, committed type, new offset, or error — is exactly
    /// the grammar's verdict `sp_parse_expr` at the cursor.
    fn parse_expr(&mut self) -> (r: Result<Expr, SyntaxOrResolutionError>)
        requires
            parser_wf(*old(self)),
        ensures
            parser_wf(*final(self)),
            final(self).tokens@ == old(self).tokens@,
            final(self).text@ == old(self).text@,
            final(self).ast == old(self).ast,
            final(self).offset >= old(self).offset,
            forall|j: int|
                old(self).offset <= j < final(self).offset ==> (#[trigger] old(
                    self,
                ).tokens@[j]).kind != TokenKind::Fn,
            r matches Ok(e) ==> final(self).offset > old(self).offset && expr_wf(
                e,
                old(self).ast.items@,
                old(self).ast.items@.len() as int,
            ),
            r matches Ok(e) ==> sp_parse_expr(
                old(self).text@,
                old(self).tokens@,
                items_abs(old(self).ast.items@),
                syms_abs(old(self).ast.symbols@),
                old(self).offset as int,
            ) == Ok::<(ExprS, int), SyntaxOrResolutionError>(
                (expr_abs(e), final(self).offset as int),
            ),
            r matches Err(er) ==> sp_parse_expr(
                old(self).text@,
                old(self).tokens@,
                items_abs(old(self).ast.items@),
                syms_abs(old(self).ast.symbols@),
                old(self).offset as int,
            ) == Err::<(ExprS, int), SyntaxOrResolutionError>(er),
            r matches Err(e) ==> err_evidence(old(self).text@, old(self).tokens@, e),
        decreases self.tokens@.len() - self.offset,
    {
        let ghost items0 = self.ast.items@;
        let ghost n0 = self.ast.items@.len() as int;
        let ghost toks0 = self.tokens@;
        let ghost off0 = self.offset;
        let ghost textg = self.text@;
        let ghost ia = items_abs(self.ast.items@);
        let ghost sa = syms_abs(self.ast.symbols@);
        let kind = self.peek_kind();
        if kind == TokenKind::NumberLit {
            let number = match self.match_tok(TokenKind::NumberLit) {
                Ok(t) => t,
                Err(e) => {
                    return Err(e);
                },
            };
            assert(number_token_ok(self.text@, number));
            proof {
                assert(tok_str(textg, number) == textg.subrange(
                    number.loc.start_p as int,
                    number.loc.end_p as int,
                ));
            }
            let v = match self.parse_number(number.loc.start(), number.loc.end()) {
                Ok(v) => v,
                Err(e) => {
                    proof {
                        assert(sp_parse_expr(textg, toks0, ia, sa, off0 as int) == Err::<
                            (ExprS, int),
                            SyntaxOrResolutionError,
                        >(e));
                    }
                    return Err(e);
                },
            };
            let e = Expr::new(ExprKind::NumberLit(v), TyId(1));
            proof {
                assert(expr_abs(e) == ExprS { kind: ExprKindS::Number(v), ty: TyId(1) });
                assert(sp_parse_expr(textg, toks0, ia, sa, off0 as int) == Ok::<
                    (ExprS, int),
                    SyntaxOrResolutionError,
                >((expr_abs(e), off0 + 1)));
            }
            Ok(e)
        } else if kind == TokenKind::StringLit {
            let tok = match self.match_tok(TokenKind::StringLit) {
                Ok(t) => t,
                Err(e) => {
                    return Err(e);
                },
            };
            assert(string_token_ok(self.text@, tok));
            let mut string = self.get_string(&tok);
            let ghost full = string@;
            let _last = string.pop();
            let _first = string.remove(0);
            proof {
                assert(string@ =~= self.text@.subrange(
                    tok.loc.start_p + 1,
                    tok.loc.end_p - 1,
                ));
            }
            let e = Expr::new(ExprKind::StringLit(string), TyId(2));
            proof {
                assert(sp_parse_expr(textg, toks0, ia, sa, off0 as int) == Ok::<
                    (ExprS, int),
                    SyntaxOrResolutionError,
                >((expr_abs(e), off0 + 1)));
            }
            Ok(e)
        } else if kind == TokenKind::Ident {
            let ident_tok = match self.match_tok(TokenKind::Ident) {
                Ok(t) => t,
                Err(e) => {
                    return Err(e);
                },
            };
            let name = self.get_string(&ident_tok);
            match self.match_tok(TokenKind::OpenParen) {
                Ok(_) => (),
                Err(e) => {
                    proof {
                        assert(sp_parse_expr(textg, toks0, ia, sa, off0 as int) == Err::<
                            (ExprS, int),
                            SyntaxOrResolutionError,
                        >(e));
                    }
                    return Err(e);
                },
            };
            let ghost args_start = off0 + 2;
            let mut args: Vec<Expr> = Vec::new();
            let mut done = false;
            proof {
                assert(exprs_abs(args@, args@.len() as int) == Seq::<ExprS>::empty());
                let spa = sp_parse_args(textg, toks0, ia, sa, args_start as int);
                if spa is Ok {
                    assert(Seq::<ExprS>::empty() + (spa->Ok_0).0 =~= (spa->Ok_0).0);
                }
            }
            while !done && self.peek_kind() != TokenKind::ClosedParen
                invariant
                    parser_wf(*self),
                    self.tokens@ == toks0,
                    toks0 == old(self).tokens@,
                    self.text@ == old(self).text@,
                    textg == self.text@,
                    self.ast == old(self).ast,
                    items0 == self.ast.items@,
                    n0 == items0.len() as int,
                    ia == items_abs(items0),
                    sa == syms_abs(self.ast.symbols@),
                    self.offset >= off0 + 2,
                    off0 == old(self).offset,
                    args_start == off0 + 2,
                    toks0[off0 as int].kind == TokenKind::Ident,
                    toks0[off0 + 1].kind == TokenKind::OpenParen,
                    ident_tok == toks0[off0 as int],
                    name@ == tok_str(textg, toks0[off0 as int]),
                    forall|j: int|
                        off0 <= j < self.offset ==> (#[trigger] toks0[j]).kind != TokenKind::Fn,
                    forall|k: int|
                        0 <= k < args@.len() ==> expr_wf(#[trigger] args@[k], items0, n0),
                    done ==> sp_parse_args(textg, toks0, ia, sa, args_start as int) == Ok::<
                        (Seq<ExprS>, int),
                        SyntaxOrResolutionError,
                    >((exprs_abs(args@, args@.len() as int), self.offset as int)),
                    !done ==> ({
                        let spc = sp_parse_args(textg, toks0, ia, sa, self.offset as int);
                        let spa = sp_parse_args(textg, toks0, ia, sa, args_start as int);
                        match spc {
                            Ok(p) => spa == Ok::<(Seq<ExprS>, int), SyntaxOrResolutionError>(
                                (exprs_abs(args@, args@.len() as int) + p.0, p.1),
                            ),
                            Err(e2) => spa == Err::<(Seq<ExprS>, int), SyntaxOrResolutionError>(
                                e2,
                            ),
                        }
                    }),
                decreases self.tokens@.len() - self.offset, (if done {
                    0int
                } else {
                    1int
                }),
            {
                let ghost cur = self.offset as int;
                let ghost pre = exprs_abs(args@, args@.len() as int);
                let e = match self.parse_expr() {
                    Ok(e) => e,
                    Err(er) => {
                        proof {
                            assert(sp_parse_args(textg, toks0, ia, sa, cur) == Err::<
                                (Seq<ExprS>, int),
                                SyntaxOrResolutionError,
                            >(er));
                            assert(sp_parse_expr(textg, toks0, ia, sa, off0 as int) == Err::<
                                (ExprS, int),
                                SyntaxOrResolutionError,
                            >(er));
                        }
                        return Err(er);
                    },
                };
                let ghost mid = self.offset as int;
                let ghost old_args = args@;
                args.push(e);
                proof {
                    lemma_exprs_abs(old_args, old_args.len() as int);
                    lemma_exprs_abs(args@, args@.len() as int);
                    lemma_exprs_abs(args@, args@.len() - 1);
                    assert forall|j: int| 0 <= j < args@.len() - 1 implies exprs_abs(
                        args@,
                        args@.len() - 1,
                    )[j] == pre[j] by {
                        assert(args@[j] == old_args[j]);
                    }
                    assert(exprs_abs(args@, args@.len() - 1) =~= pre);
                    assert(exprs_abs(args@, args@.len() as int) == exprs_abs(
                        args@,
                        args@.len() - 1,
                    ).push(expr_abs(args@[args@.len() - 1])));
                    assert(args@[args@.len() - 1] == e);
                    assert(exprs_abs(args@, args@.len() as int) =~= pre.push(expr_abs(e)));
                }
                if self.peek_kind() == TokenKind::Comma {
                    match self.match_tok(TokenKind::Comma) {
                        Ok(_) => (),
                        Err(er) => {
                            return Err(er);
                        },
                    };
                    proof {
                        let spn = sp_parse_args(textg, toks0, ia, sa, self.offset as int);
                        if spn is Ok {
                            let rest = (spn->Ok_0).0;
                            assert(pre + (seq![expr_abs(e)] + rest) =~= pre.push(expr_abs(e))
                                + rest);
                            assert(sp_parse_args(textg, toks0, ia, sa, cur) == Ok::<
                                (Seq<ExprS>, int),
                                SyntaxOrResolutionError,
                            >((seq![expr_abs(e)] + rest, (spn->Ok_0).1)));
                        } else {
                            assert(sp_parse_args(textg, toks0, ia, sa, cur) == spn);
                        }
                    }
                } else {
                    done = true;
                    proof {
                        assert(sp_parse_args(textg, toks0, ia, sa, cur) == Ok::<
                            (Seq<ExprS>, int),
                            SyntaxOrResolutionError,
                        >((seq![expr_abs(e)], mid)));
                        assert(pre + seq![expr_abs(e)] =~= pre.push(expr_abs(e)));
                    }
                }
            }
            proof {
                if !done {
                    assert(sp_parse_args(textg, toks0, ia, sa, self.offset as int) == Ok::<
                        (Seq<ExprS>, int),
                        SyntaxOrResolutionError,
                    >((Seq::empty(), self.offset as int)));
                    assert(exprs_abs(args@, args@.len() as int) + Seq::<ExprS>::empty()
                        =~= exprs_abs(args@, args@.len() as int));
                }
                assert(sp_parse_args(textg, toks0, ia, sa, args_start as int) == Ok::<
                    (Seq<ExprS>, int),
                    SyntaxOrResolutionError,
                >((exprs_abs(args@, args@.len() as int), self.offset as int)));
            }
            let ghost close_at = self.offset as int;
            match self.match_tok(TokenKind::ClosedParen) {
                Ok(_) => (),
                Err(e) => {
                    proof {
                        assert(sp_parse_expr(textg, toks0, ia, sa, off0 as int) == Err::<
                            (ExprS, int),
                            SyntaxOrResolutionError,
                        >(e));
                    }
                    return Err(e);
                },
            };
            proof {
                lemma_lookup_abs(self.ast.symbols@, name@);
            }
            let func_id = match self.ast.lookup_symbol(&name) {
                Some(id) => id,
                None => {
                    let e = SyntaxOrResolutionError::UndeclaredCallee {
                        offset: ident_tok.loc.start(),
                    };
                    proof {
                        assert(sp_parse_expr(textg, toks0, ia, sa, off0 as int) == Err::<
                            (ExprS, int),
                            SyntaxOrResolutionError,
                        >(e));
                    }
                    return Err(e);
                },
            };
            proof {
                lemma_lookup_some(self.ast.symbols@, name@, func_id);
                let k = choose|k: int|
                    0 <= k < self.ast.symbols@.len() && (#[trigger] self.ast.symbols@[k]).1
                        == func_id && self.ast.symbols@[k].0@ == name@;
                assert(func_id.0 < self.ast.items@.len());
            }
            let func = self.ast.func(func_id);
            let ret_ty = func.return_ty;
            let e = Expr::new(ExprKind::FuncCall(FuncCall { func: func_id, args }), ret_ty);
            proof {
                assert(expr_wf(e, items0, n0));
                assert(ia[func_id.0 as int] == func_abs(item_func(items0[func_id.0 as int])));
                assert(expr_abs(e) == ExprS {
                    kind: ExprKindS::Call(
                        func_id,
                        exprs_abs(e.kind->FuncCall_0.args@, e.kind->FuncCall_0.args@.len() as int),
                    ),
                    ty: ret_ty,
                });
                assert(sp_parse_expr(textg, toks0, ia, sa, off0 as int) == Ok::<
                    (ExprS, int),
                    SyntaxOrResolutionError,
                >((expr_abs(e), close_at + 1)));
            }
            Ok(e)
        } else {
            let t = self.tokens[self.offset];
            let e = SyntaxOrResolutionError::UnexpectedExprStart {
                actual: kind,
                offset: t.loc.start(),
            };
            proof {
                assert(sp_parse_expr(textg, toks0, ia, sa, off0 as int) == Err::<
                    (ExprS, int),
                    SyntaxOrResolutionError,
                >(e));
            }
            Err(e)
        }
    }

    /// Parses `let name = init`.
    fn parse_local(&mut self) -> (r: Result<Stmt, SyntaxOrResolutionError>)
        requires
            parser_wf(*old(self)),
        ensures
            parser_wf(*final(self)),
            final(self).tokens@ == old(self).tokens@,
            final(self).text@ == old(self).text@,
            final(self).ast == old(self).ast,
            final(self).offset >= old(self).offset,
            forall|j: int|
                old(self).offset <= j < final(self).offset ==> (#[trigger] old(
                    self,
                ).tokens@[j]).kind != TokenKind::Fn,
            r matches Ok(s) ==> final(self).offset > old(self).offset && stmt_wf(
                s,
                old(self).ast.items@,
                old(self).ast.items@.len() as int,
            ) && s is Local,
            r matches Ok(s) ==> sp_parse_local(
                old(self).text@,
                old(self).tokens@,
                items_abs(old(self).ast.items@),
                syms_abs(old(self).ast.symbols@),
                old(self).offset as int,
            ) == Ok::<(StmtS, int), SyntaxOrResolutionError>(
                (stmt_abs(s), final(self).offset as int),
            ),
            r matches Err(e) ==> sp_parse_local(
                old(self).text@,
                old(self).tokens@,
                items_abs(old(self).ast.items@),
                syms_abs(old(self).ast.symbols@),
                old(self).offset as int,
            ) == Err::<(StmtS, int), SyntaxOrResolutionError>(e),
            r matches Err(e) ==> err_evidence(old(self).text@, old(self).tokens@, e),
    {
        match self.match_tok(TokenKind::Let) {
            Ok(_) => (),
            Err(e) => {
                return Err(e);
            },
        };
        let name_tok = match self.match_tok(TokenKind::Ident) {
            Ok(t) => t,
            Err(e) => {
                return Err(e);
            },
        };
        let name = self.get_string(&name_tok);
        match self.match_tok(TokenKind::Equal) {
            Ok(_) => (),
            Err(e) => {
                return Err(e);
            },
        };
        let init = match self.parse_expr() {
            Ok(e) => e,
            Err(e) => {
                return Err(e);
            },
        };
        Ok(Stmt::Local(Local { name, init }))
    }

    /// Parses `return` with an optional value.
    fn parse_return(&mut self) -> (r: Result<Stmt, SyntaxOrResolutionError>)
        requires
            parser_wf(*old(self)),
        ensures
            parser_wf(*final(self)),
            final(self).tokens@ == old(self).tokens@,
            final(self).text@ == old(self).text@,
            final(self).ast == old(self).ast,
            final(self).offset >= old(self).offset,
            forall|j: int|
                old(self).offset <= j < final(self).offset ==> (#[trigger] old(
                    self,
                ).tokens@[j]).kind != TokenKind::Fn,
            r matches Ok(s) ==> final(self).offset > old(self).offset && stmt_wf(
                s,
                old(self).ast.items@,
                old(self).ast.items@.len() as int,
            ) && s is Return,
            r matches Ok(s) ==> sp_parse_return(
                old(self).text@,
                old(self).tokens@,
                items_abs(old(self).ast.items@),
                syms_abs(old(self).ast.symbols@),
                old(self).offset as int,
            ) == Ok::<(StmtS, int), SyntaxOrResolutionError>(
                (stmt_abs(s), final(self).offset as int),
            ),
            r matches Err(e) ==> sp_parse_return(
                old(self).text@,
                old(self).tokens@,
                items_abs(old(self).ast.items@),
                syms_abs(old(self).ast.symbols@),
                old(self).offset as int,
            ) == Err::<(StmtS, int), SyntaxOrResolutionError>(e),
            r matches Err(e) ==> err_evidence(old(self).text@, old(self).tokens@, e),
    {
        match self.match_tok(TokenKind::Return) {
            Ok(_) => (),
            Err(e) => {
                return Err(e);
            },
        };
        let value = if self.peek_kind() == TokenKind::Semi {
            None
        } else {
            let e = match self.parse_expr() {
                Ok(e) => e,
                Err(e) => {
                    return Err(e);
                },
            };
            Some(e)
        };
        Ok(Stmt::Return(Return { value }))
    }

    /// Parses one statement and its trailing semicolon.
    fn parse_stmt(&mut self) -> (r: Result<Stmt, SyntaxOrResolutionError>)
        requires
            parser_wf(*old(self)),
        ensures
            parser_wf(*final(self)),
            final(self).tokens@ == old(self).tokens@,
            final(self).text@ == old(self).text@,
            final(self).ast == old(self).ast,
            final(self).offset >= old(self).offset,
            forall|j: int|
                old(self).offset <= j < final(self).offset ==> (#[trigger] old(
                    self,
                ).tokens@[j]).kind != TokenKind::Fn,
            r matches Ok(s) ==> final(self).offset > old(self).offset && stmt_wf(
                s,
                old(self).ast.items@,
                old(self).ast.items@.len() as int,
            ),
            r matches Ok(s) ==> sp_parse_stmt(
                old(self).text@,
                old(self).tokens@,
                items_abs(old(self).ast.items@),
                syms_abs(old(self).ast.symbols@),
                old(self).offset as int,
            ) == Ok::<(StmtS, int), SyntaxOrResolutionError>(
                (stmt_abs(s), final(self).offset as int),
            ),
            r matches Err(e) ==> sp_parse_stmt(
                old(self).text@,
                old(self).tokens@,
                items_abs(old(self).ast.items@),
                syms_abs(old(self).ast.symbols@),
                old(self).offset as int,
            ) == Err::<(StmtS, int), SyntaxOrResolutionError>(e),
            r matches Err(e) ==> err_evidence(old(self).text@, old(self).tokens@, e),
    {
        let kind = self.peek_kind();
        let ret = if kind == TokenKind::Let {
            match self.parse_local() {
                Ok(s) => s,
                Err(e) => {
                    return Err(e);
                },
            }
        } else if kind == TokenKind::Return {
            match self.parse_return() {
                Ok(s) => s,
                Err(e) => {
                    return Err(e);
                },
            }
        } else {
            let e = match self.parse_expr() {
                Ok(e) => e,
                Err(e) => {
                    return Err(e);
                },
            };
            Stmt::Expr(e)
        };
        match self.match_tok(TokenKind::Semi) {
            Ok(_) => (),
            Err(e) => {
                return Err(e);
            },
        };
        Ok(ret)
    }

    /// Parses a whole function declaration: header, optional arrow return
    /// type (`void` when omitted), and either a `;` or a braced body.
    ///
    /// The result is exactly the grammar's verdict `sp_parse_func` at the
    /// cursor.
    #[verifier::rlimit(100)]
    fn parse_func(&mut self) -> (r: Result<Func, SyntaxOrResolutionError>)
        requires
            parser_wf(*old(self)),
        ensures
            parser_wf(*final(self)),
            final(self).tokens@ == old(self).tokens@,
            final(self).text@ == old(self).text@,
            final(self).ast == old(self).ast,
            final(self).offset >= old(self).offset,
            r matches Ok(f) ==> ({
                let t1 = old(self).tokens@[old(self).offset + 1];
                &&& final(self).offset >= old(self).offset + 5
                &&& func_wf(f, old(self).ast.items@, old(self).ast.items@.len() as int)
                &&& old(self).tokens@[old(self).offset as int].kind == TokenKind::Fn
                &&& old(self).offset + 1 < old(self).tokens@.len()
                &&& t1.kind == TokenKind::Ident
                &&& f.name@ == old(self).text@.subrange(t1.loc.start_p as int, t1.loc.end_p as int)
                &&& forall|j: int|
                    old(self).offset < j < final(self).offset ==> (#[trigger] old(
                        self,
                    ).tokens@[j]).kind != TokenKind::Fn
            }),
            r matches Ok(f) ==> sp_parse_func(
                old(self).text@,
                old(self).tokens@,
                items_abs(old(self).ast.items@),
                syms_abs(old(self).ast.symbols@),
                old(self).offset as int,
            ) == Ok::<(FuncS, int), SyntaxOrResolutionError>(
                (func_abs(f), final(self).offset as int),
            ),
            r matches Err(e) ==> sp_parse_func(
                old(self).text@,
                old(self).tokens@,
                items_abs(old(self).ast.items@),
                syms_abs(old(self).ast.symbols@),
                old(self).offset as int,
            ) == Err::<(FuncS, int), SyntaxOrResolutionError>(e),
            r matches Err(e) ==> err_evidence(old(self).text@, old(self).tokens@, e),
    {
        let ghost toks0 = self.tokens@;
        let ghost off0 = self.offset;
        let ghost items0 = self.ast.items@;
        let ghost n0 = self.ast.items@.len() as int;
        let ghost textg = self.text@;
        let ghost ia = items_abs(self.ast.items@);
        let ghost sa = syms_abs(self.ast.symbols@);
        match self.match_tok(TokenKind::Fn) {
            Ok(_) => (),
            Err(e) => {
                return Err(e);
            },
        };
        let name_tok = match self.match_tok(TokenKind::Ident) {
            Ok(t) => t,
            Err(e) => {
                return Err(e);
            },
        };
        let name = self.get_string(&name_tok);
        match self.match_tok(TokenKind::OpenParen) {
            Ok(_) => (),
            Err(e) => {
                return Err(e);
            },
        };
        let ghost params_start = off0 + 3;
        proof {
            let spp = sp_parse_params(textg, toks0, params_start as int);
            if spp is Ok {
                assert(Seq::<(Seq<u8>, TyId)>::empty() + (spp->Ok_0).0 =~= (spp->Ok_0).0);
            }
            assert(params_abs(Seq::<(Vec<u8>, TyId)>::empty()) =~= Seq::<(Seq<u8>, TyId)>::empty());
        }
        let mut args: Vec<(Vec<u8>, TyId)> = Vec::new();
        while self.peek_kind() != TokenKind::ClosedParen
            invariant
                parser_wf(*self),
                self.tokens@ == toks0,
                toks0 == old(self).tokens@,
                self.text@ == old(self).text@,
                textg == self.text@,
                self.ast == old(self).ast,
                items0 == self.ast.items@,
                n0 == items0.len() as int,
                ia == items_abs(items0),
                sa == syms_abs(self.ast.symbols@),
                self.offset >= off0 + 3,
                off0 == old(self).offset,
                params_start == off0 + 3,
                toks0[off0 as int].kind == TokenKind::Fn,
                off0 + 1 < toks0.len(),
                toks0[off0 + 1].kind == TokenKind::Ident,
                toks0[off0 + 2].kind == TokenKind::OpenParen,
                name_tok == toks0[off0 + 1],
                name@ == tok_str(textg, toks0[off0 + 1]),
                forall|j: int|
                    off0 < j < self.offset ==> (#[trigger] toks0[j]).kind != TokenKind::Fn,
                forall|k: int| 0 <= k < args@.len() ==> ty_id_valid((#[trigger] args@[k]).1),
                ({
                    let spc = sp_parse_params(textg, toks0, self.offset as int);
                    let spa = sp_parse_params(textg, toks0, params_start as int);
                    match spc {
                        Ok(p) => spa == Ok::<(Seq<(Seq<u8>, TyId)>, int), SyntaxOrResolutionError>(
                            (params_abs(args@) + p.0, p.1),
                        ),
                        Err(e2) => spa == Err::<
                            (Seq<(Seq<u8>, TyId)>, int),
                            SyntaxOrResolutionError,
                        >(e2),
                    }
                }),
            decreases self.tokens@.len() - self.offset,
        {
            let ghost cur = self.offset as int;
            let arg_tok = match self.match_tok(TokenKind::Ident) {
                Ok(t) => t,
                Err(e) => {
                    proof {
                        assert(sp_parse_params(textg, toks0, cur) == Err::<
                            (Seq<(Seq<u8>, TyId)>, int),
                            SyntaxOrResolutionError,
                        >(e));
                    }
                    return Err(e);
                },
            };
            let arg_name = self.get_string(&arg_tok);
            match self.match_tok(TokenKind::Colon) {
                Ok(_) => (),
                Err(e) => {
                    proof {
                        assert(sp_parse_params(textg, toks0, cur) == Err::<
                            (Seq<(Seq<u8>, TyId)>, int),
                            SyntaxOrResolutionError,
                        >(e));
                    }
                    return Err(e);
                },
            };
            let ty_tok = match self.match_tok(TokenKind::Ident) {
                Ok(t) => t,
                Err(e) => {
                    proof {
                        assert(sp_parse_params(textg, toks0, cur) == Err::<
                            (Seq<(Seq<u8>, TyId)>, int),
                            SyntaxOrResolutionError,
                        >(e));
                    }
                    return Err(e);
                },
            };
            let ty_name = self.get_string(&ty_tok);
            let ty = match self.get_type(&ty_name) {
                Some(t) => t,
                None => {
                    let e = SyntaxOrResolutionError::UnknownTypeName {
                        offset: ty_tok.loc.start(),
                    };
                    proof {
                        assert(sp_parse_params(textg, toks0, cur) == Err::<
                            (Seq<(Seq<u8>, TyId)>, int),
                            SyntaxOrResolutionError,
                        >(e));
                    }
                    return Err(e);
                },
            };
            let ghost old_args = args@;
            args.push((arg_name, ty));
            proof {
                assert forall|j: int| 0 <= j < old_args.len() implies params_abs(args@)[j]
                    == params_abs(old_args)[j] by {
                    assert(args@[j] == old_args[j]);
                }
                assert(params_abs(args@) =~= params_abs(old_args).push(
                    (tok_str(textg, toks0[cur]), ty),
                ));
            }
            if self.peek_kind() == TokenKind::Comma {
                match self.match_tok(TokenKind::Comma) {
                    Ok(_) => (),
                    Err(e) => {
                        return Err(e);
                    },
                };
            }
            proof {
                let spn = sp_parse_params(textg, toks0, self.offset as int);
                let param = (tok_str(textg, toks0[cur]), ty);
                if spn is Ok {
                    assert(params_abs(old_args) + (seq![param] + (spn->Ok_0).0) =~= params_abs(
                        args@,
                    ) + (spn->Ok_0).0);
                    assert(sp_parse_params(textg, toks0, cur) == Ok::<
                        (Seq<(Seq<u8>, TyId)>, int),
                        SyntaxOrResolutionError,
                    >((seq![param] + (spn->Ok_0).0, (spn->Ok_0).1)));
                } else {
                    assert(sp_parse_params(textg, toks0, cur) == spn);
                }
            }
        }
        proof {
            assert(sp_parse_params(textg, toks0, self.offset as int) == Ok::<
                (Seq<(Seq<u8>, TyId)>, int),
                SyntaxOrResolutionError,
            >((Seq::empty(), self.offset as int)));
            assert(params_abs(args@) + Seq::<(Seq<u8>, TyId)>::empty() =~= params_abs(args@));
            assert(sp_parse_params(textg, toks0, params_start as int) == Ok::<
                (Seq<(Seq<u8>, TyId)>, int),
                SyntaxOrResolutionError,
            >((params_abs(args@), self.offset as int)));
        }
        match self.match_tok(TokenKind::ClosedParen) {
            Ok(_) => (),
            Err(e) => {
                return Err(e);
            },
        };
        let ghost tail_at = self.offset as int;
        let return_ty = if self.peek_kind() == TokenKind::Arrow {
            match self.match_tok(TokenKind::Arrow) {
                Ok(_) => (),
                Err(e) => {
                    return Err(e);
                },
            };
            let ty_tok = match self.match_tok(TokenKind::Ident) {
                Ok(t) => t,
                Err(e) => {
                    proof {
                        assert(sp_parse_func_tail(
                            textg,
                            toks0,
                            ia,
                            sa,
                            name@,
                            params_abs(args@),
                            tail_at,
                        ) == Err::<(FuncS, int), SyntaxOrResolutionError>(e));
                    }
                    return Err(e);
                },
            };
            let ty_name = self.get_string(&ty_tok);
            match self.get_type(&ty_name) {
                Some(t) => t,
                None => {
                    let e = SyntaxOrResolutionError::UnknownTypeName {
                        offset: ty_tok.loc.start(),
                    };
                    proof {
                        assert(sp_parse_func_tail(
                            textg,
                            toks0,
                            ia,
                            sa,
                            name@,
                            params_abs(args@),
                            tail_at,
                        ) == Err::<(FuncS, int), SyntaxOrResolutionError>(e));
                    }
                    return Err(e);
                },
            }
        } else {
            TyId(0)
        };
        let ghost body_at = self.offset as int;
        proof {
            assert(sp_parse_func_tail(textg, toks0, ia, sa, name@, params_abs(args@), tail_at)
                == sp_parse_func_body(
                textg,
                toks0,
                ia,
                sa,
                name@,
                params_abs(args@),
                return_ty,
                body_at,
            ));
        }
        let stmts = if self.peek_kind() == TokenKind::Semi {
            match self.match_tok(TokenKind::Semi) {
                Ok(_) => (),
                Err(e) => {
                    return Err(e);
                },
            };
            None
        } else {
            match self.match_tok(TokenKind::OpenBrace) {
                Ok(_) => (),
                Err(e) => {
                    proof {
                        assert(sp_parse_func_body(
                            textg,
                            toks0,
                            ia,
                            sa,
                            name@,
                            params_abs(args@),
                            return_ty,
                            body_at,
                        ) == Err::<(FuncS, int), SyntaxOrResolutionError>(e));
                    }
                    return Err(e);
                },
            };
            let ghost stmts_start = self.offset as int;
            proof {
                let sps = sp_parse_stmts(textg, toks0, ia, sa, stmts_start);
                if sps is Ok {
                    assert(Seq::<StmtS>::empty() + (sps->Ok_0).0 =~= (sps->Ok_0).0);
                }
                assert(stmts_abs(Seq::<Stmt>::empty()) =~= Seq::<StmtS>::empty());
            }
            let mut stmts: Vec<Stmt> = Vec::new();
            while self.peek_kind() != TokenKind::ClosedBrace
                invariant
                    parser_wf(*self),
                    self.tokens@ == toks0,
                    toks0 == old(self).tokens@,
                    self.text@ == old(self).text@,
                    textg == self.text@,
                    self.ast == old(self).ast,
                    items0 == self.ast.items@,
                    n0 == items0.len() as int,
                    ia == items_abs(items0),
                    sa == syms_abs(self.ast.symbols@),
                    self.offset >= off0 + 5,
                    off0 == old(self).offset,
                    0 <= body_at < toks0.len(),
                    toks0[body_at as int].kind == TokenKind::OpenBrace,
                    stmts_start == body_at + 1,
                    sp_parse_func(textg, toks0, ia, sa, off0 as int) == sp_parse_func_body(
                        textg,
                        toks0,
                        ia,
                        sa,
                        name@,
                        params_abs(args@),
                        return_ty,
                        body_at,
                    ),
                    forall|j: int|
                        off0 < j < self.offset ==> (#[trigger] toks0[j]).kind != TokenKind::Fn,
                    forall|k: int| 0 <= k < stmts@.len() ==> stmt_wf(
                        #[trigger] stmts@[k],
                        items0,
                        n0,
                    ),
                    ({
                        let spc = sp_parse_stmts(textg, toks0, ia, sa, self.offset as int);
                        let spa = sp_parse_stmts(textg, toks0, ia, sa, stmts_start);
                        match spc {
                            Ok(p) => spa == Ok::<(Seq<StmtS>, int), SyntaxOrResolutionError>(
                                (stmts_abs(stmts@) + p.0, p.1),
                            ),
                            Err(e2) => spa == Err::<(Seq<StmtS>, int), SyntaxOrResolutionError>(
                                e2,
                            ),
                        }
                    }),
                decreases self.tokens@.len() - self.offset,
            {
                let ghost cur = self.offset as int;
                let s = match self.parse_stmt() {
                    Ok(s) => s,
                    Err(e) => {
                        proof {
                            assert(sp_parse_stmts(textg, toks0, ia, sa, cur) == Err::<
                                (Seq<StmtS>, int),
                                SyntaxOrResolutionError,
                            >(e));
                            assert(sp_parse_stmts(textg, toks0, ia, sa, stmts_start) == Err::<
                                (Seq<StmtS>, int),
                                SyntaxOrResolutionError,
                            >(e));
                            assert(sp_parse_func_body(
                                textg,
                                toks0,
                                ia,
                                sa,
                                name@,
                                params_abs(args@),
                                return_ty,
                                body_at,
                            ) == Err::<(FuncS, int), SyntaxOrResolutionError>(e));
                        }
                        return Err(e);
                    },
                };
                let ghost old_stmts = stmts@;
                stmts.push(s);
                proof {
                    assert forall|j: int| 0 <= j < old_stmts.len() implies stmts_abs(stmts@)[j]
                        == stmts_abs(old_stmts)[j] by {
                        assert(stmts@[j] == old_stmts[j]);
                    }
                    assert(stmts_abs(stmts@) =~= stmts_abs(old_stmts).push(stmt_abs(s)));
                    let spn = sp_parse_stmts(textg, toks0, ia, sa, self.offset as int);
                    if spn is Ok {
                        assert(stmts_abs(old_stmts) + (seq![stmt_abs(s)] + (spn->Ok_0).0)
                            =~= stmts_abs(stmts@) + (spn->Ok_0).0);
                        assert(sp_parse_stmts(textg, toks0, ia, sa, cur) == Ok::<
                            (Seq<StmtS>, int),
                            SyntaxOrResolutionError,
                        >((seq![stmt_abs(s)] + (spn->Ok_0).0, (spn->Ok_0).1)));
                    } else {
                        assert(sp_parse_stmts(textg, toks0, ia, sa, cur) == spn);
                    }
                }
            }
            proof {
                assert(sp_parse_stmts(textg, toks0, ia, sa, self.offset as int) == Ok::<
                    (Seq<StmtS>, int),
                    SyntaxOrResolutionError,
                >((Seq::empty(), self.offset as int)));
                assert(stmts_abs(stmts@) + Seq::<StmtS>::empty() =~= stmts_abs(stmts@));
                assert(sp_parse_stmts(textg, toks0, ia, sa, stmts_start) == Ok::<
                    (Seq<StmtS>, int),
                    SyntaxOrResolutionError,
                >((stmts_abs(stmts@), self.offset as int)));
            }
            match self.match_tok(TokenKind::ClosedBrace) {
                Ok(_) => (),
                Err(e) => {
                    return Err(e);
                },
            };
            Some(stmts)
        };
        let f = Func { name, return_ty, args, stmts };
        proof {
            assert(func_abs(f) == FuncS {
                name: name@,
                return_ty,
                args: params_abs(f.args@),
                stmts: match f.stmts {
                    Some(ss) => Some(stmts_abs(ss@)),
                    None => None,
                },
            });
            assert(sp_parse_func(textg, toks0, ia, sa, off0 as int) == Ok::<
                (FuncS, int),
                SyntaxOrResolutionError,
            >((func_abs(f), final(self).offset as int)));
        }
        Ok(f)
    }

    /// Parses the whole program: items until end of input, declaring each in
    /// the symbol table as soon as it is parsed, so that later bodies can
    /// call it.
    ///
    /// The result is exactly the grammar's verdict `sp_parse_program` on the
    /// token sequence: success is owed whenever the sequence derives a
    /// program, the tree and the symbol table are then its derivation, and a
    /// failure returns the grammar's own first error.
    pub fn run(self) -> (r: Result<Ast, SyntaxOrResolutionError>)
        requires
            parser_wf(self),
            self.offset == 0,
            self.ast.items@ == Seq::<Item>::empty(),
            self.ast.symbols@ == Seq::<(Vec<u8>, ItemId)>::empty(),
        ensures
            r matches Ok(ast) ==> {
                &&& ast_wf(ast)
                &&& ast.tys@ == builtin_tys()
                &&& ast.items@.len() == count_fn_tokens(
                    self.tokens@,
                    0,
                    self.tokens@.len() as int,
                )
            },
            r matches Ok(ast) ==> ast.symbols@.len() == ast.items@.len() && forall|i: int|
                0 <= i < ast.items@.len() ==> (#[trigger] ast.symbols@[i]).0@ == item_name(
                    ast.items@[i],
                ) && ast.symbols@[i].1.0 == i,
            r matches Ok(ast) ==> sp_parse_program(self.text@, self.tokens@) == Ok::<
                (Seq<FuncS>, Seq<(Seq<u8>, ItemId)>),
                SyntaxOrResolutionError,
            >((items_abs(ast.items@), syms_abs(ast.symbols@))),
            r matches Err(e) ==> sp_parse_program(self.text@, self.tokens@) == Err::<
                (Seq<FuncS>, Seq<(Seq<u8>, ItemId)>),
                SyntaxOrResolutionError,
            >(e),
            program_derives(self.text@, self.tokens@) ==> r is Ok,
            r matches Err(e) ==> err_evidence(self.text@, self.tokens@, e),
    {
        let ghost toks0 = self.tokens@;
        let ghost textg = self.text@;
        let mut p = self;
        proof {
            assert(items_abs(Seq::<Item>::empty()) =~= Seq::<FuncS>::empty());
            assert(syms_abs(Seq::<(Vec<u8>, ItemId)>::empty()) =~= Seq::<
                (Seq<u8>, ItemId),
            >::empty());
        }
        while p.peek_kind() != TokenKind::Eof
            invariant
                parser_wf(p),
                p.tokens@ == toks0,
                toks0 == self.tokens@,
                p.text@ == self.text@,
                textg == self.text@,
                p.ast.items@.len() == count_fn_tokens(toks0, 0, p.offset as int),
                p.ast.symbols@.len() == p.ast.items@.len(),
                forall|i: int|
                    0 <= i < p.ast.items@.len() ==> (#[trigger] p.ast.symbols@[i]).0@ == item_name(
                        p.ast.items@[i],
                    ) && p.ast.symbols@[i].1.0 == i,
                sp_parse_program(textg, toks0) == sp_run_items(
                    textg,
                    toks0,
                    items_abs(p.ast.items@),
                    syms_abs(p.ast.symbols@),
                    p.offset as int,
                ),
            decreases toks0.len() - p.offset,
        {
            let current = p.peek_kind();
            if current == TokenKind::Fn {
                let ghost off_before = p.offset;
                let ghost items_before = p.ast.items@;
                let func = match p.parse_func() {
                    Ok(f) => f,
                    Err(e) => {
                        return Err(e);
                    },
                };
                let name = crate::ast::bytes_clone(&func.name);
                assert(p.ast.items@.len() < u32::MAX);
                let ghost syms_before = p.ast.symbols@;
                let ghost fa = func_abs(func);
                let id = p.ast.push(Item::Func(func));
                p.ast.insert_symbol(name, id);
                proof {
                    assert forall|i: int| 0 <= i < items_before.len() implies items_abs(
                        p.ast.items@,
                    )[i] == items_abs(items_before)[i] by {
                        assert(p.ast.items@[i] == items_before[i]);
                    }
                    assert(items_abs(p.ast.items@) =~= items_abs(items_before).push(fa));
                    assert forall|i: int| 0 <= i < syms_before.len() implies syms_abs(
                        p.ast.symbols@,
                    )[i] == syms_abs(syms_before)[i] by {
                        assert(p.ast.symbols@[i] == syms_before[i]);
                    }
                    assert(syms_abs(p.ast.symbols@) =~= syms_abs(syms_before).push(
                        (fa.name, ItemId(items_abs(items_before).len() as u32)),
                    ));
                    assert(sp_run_items(
                        textg,
                        toks0,
                        items_abs(items_before),
                        syms_abs(syms_before),
                        off_before as int,
                    ) == sp_run_items(
                        textg,
                        toks0,
                        items_abs(p.ast.items@),
                        syms_abs(p.ast.symbols@),
                        p.offset as int,
                    ));
                    let items_new = p.ast.items@;
                    assert forall|i: int| 0 <= i < items_new.len() implies item_wf(
                        #[trigger] items_new[i],
                        items_new,
                        i,
                    ) by {
                        if i < items_before.len() {
                            assert(item_wf(items_before[i], items_before, i));
                            crate::ast::lemma_item_wf_grow(
                                items_before[i],
                                items_before,
                                items_new,
                                i,
                            );
                        } else {
                            crate::ast::lemma_item_wf_grow(
                                items_new[i],
                                items_before,
                                items_new,
                                i,
                            );
                        }
                    }
                    assert(ast_wf(p.ast));
                    lemma_count_fn_split(toks0, 0, off_before as int, p.offset as int);
                    lemma_count_fn_one(toks0, off_before as int, p.offset as int);
                }
            } else {
                let t = p.tokens[p.offset];
                proof {
                    assert(p.tokens@[p.offset as int].kind == current);
                    assert(current != TokenKind::Fn);
                    assert(current != TokenKind::Eof);
                }
                return Err(
                    SyntaxOrResolutionError::UnexpectedItemStart {
                        actual: current,
                        offset: t.loc.start(),
                    },
                );
            }
        }
        proof {
            assert(p.offset == toks0.len() - 1);
            lemma_count_fn_split(toks0, 0, p.offset as int, toks0.len() as int);
            lemma_count_fn_none(toks0, p.offset as int, toks0.len() as int);
        }
        Ok(p.ast)
    }
}

} // verus!
