//! Lexer: turns an ASCII source buffer into an ordered token sequence.
//!
//! Tokens carry half-open byte spans into the source. Whitespace runs are
//! scanned and discarded; the output always ends with exactly one end-of-input
//! token whose empty span sits at the end of the source.

use vstd::prelude::*;

verus! {

/// The closed set of token kinds.
#[derive(Debug, Eq, PartialEq, Copy, Clone, Structural)]
pub enum TokenKind {
    Ident,
    Fn,
    Let,
    Return,

    OpenParen,
    ClosedParen,
    OpenBrace,
    ClosedBrace,
    OpenBracket,
    ClosedBracket,

    Plus,
    Minus,
    Arrow,
    Star,
    Slash,
    Percent,

    Semi,
    Colon,
    Comma,
    Equal,

    NumberLit,
    StringLit,
    Whitespace,
    Eof,
}

/// A half-open byte range `[start, end)` into the source buffer.
#[derive(Debug, Eq, PartialEq, Copy, Clone, Structural)]
pub struct Location {
    pub start_p: u32,
    pub end_p: u32,
}

impl Location {
    pub fn new(start: usize, end: usize) -> (r: Location)
        requires
            start <= u32::MAX,
            end <= u32::MAX,
        ensures
            r.start_p == start,
            r.end_p == end,
    {
        Location { start_p: start as u32, end_p: end as u32 }
    }

    pub fn start(&self) -> (r: usize)
        ensures
            r == self.start_p,
    {
        self.start_p as usize
    }

    pub fn end(&self) -> (r: usize)
        ensures
            r == self.end_p,
    {
        self.end_p as usize
    }
}

/// One token: a kind together with its span in the source.
#[derive(Debug, Eq, PartialEq, Copy, Clone, Structural)]
pub struct Token {
    pub kind: TokenKind,
    pub loc: Location,
}

/// A fatal lexical error; the whole run is abandoned when one occurs.
#[derive(Debug, Eq, PartialEq, Copy, Clone, Structural)]
pub enum LexicalError {
    /// A byte at `offset` is not ASCII.
    NonAscii { offset: usize },
    /// The input is longer than a 32-bit span can address.
    TooLong { len: usize },
    /// The byte at `offset` cannot start or continue any token.
    UnknownByte { byte: u8, offset: usize },
    /// A string literal opened by the quote at `offset` never closes.
    UnterminatedString { offset: usize },
}

pub open spec fn is_ws_byte(b: u8) -> bool {
    b == 32 || b == 9 || b == 10 || b == 13
}

pub open spec fn is_digit_byte(b: u8) -> bool {
    48 <= b <= 57
}

pub open spec fn is_ident_start_byte(b: u8) -> bool {
    (97 <= b <= 122) || (65 <= b <= 90) || b == 95
}

pub open spec fn is_ident_continue_byte(b: u8) -> bool {
    is_ident_start_byte(b) || is_digit_byte(b)
}

pub open spec fn kw_fn() -> Seq<u8> {
    seq![102u8, 110u8]
}

pub open spec fn kw_let() -> Seq<u8> {
    seq![108u8, 101u8, 116u8]
}

pub open spec fn kw_return() -> Seq<u8> {
    seq![114u8, 101u8, 116u8, 117u8, 114u8, 110u8]
}

pub open spec fn is_keyword(s: Seq<u8>) -> bool {
    s == kw_fn() || s == kw_let() || s == kw_return()
}

/// Does token `t` describe exactly the text at its span in `src`?
///
/// For run tokens (identifiers, keywords, numbers) this includes maximal munch:
/// the byte just after the span, if any, cannot extend the run. `Whitespace`
/// never appears in the output, and `Eof` sits at the very end of the source.
pub open spec fn token_matches(src: Seq<u8>, t: Token) -> bool {
    let s = t.loc.start_p as int;
    let e = t.loc.end_p as int;
    match t.kind {
        TokenKind::Eof => s == src.len() && e == src.len(),
        TokenKind::Whitespace => false,
        TokenKind::Ident => {
            &&& 0 <= s < e <= src.len()
            &&& is_ident_start_byte(src[s])
            &&& forall|i: int| s <= i < e ==> is_ident_continue_byte(src[i])
            &&& (e < src.len() ==> !is_ident_continue_byte(src[e]))
            &&& !is_keyword(src.subrange(s, e))
        },
        TokenKind::Fn => {
            &&& 0 <= s < e <= src.len()
            &&& src.subrange(s, e) == kw_fn()
            &&& (e < src.len() ==> !is_ident_continue_byte(src[e]))
        },
        TokenKind::Let => {
            &&& 0 <= s < e <= src.len()
            &&& src.subrange(s, e) == kw_let()
            &&& (e < src.len() ==> !is_ident_continue_byte(src[e]))
        },
        TokenKind::Return => {
            &&& 0 <= s < e <= src.len()
            &&& src.subrange(s, e) == kw_return()
            &&& (e < src.len() ==> !is_ident_continue_byte(src[e]))
        },
        TokenKind::NumberLit => {
            &&& 0 <= s < e <= src.len()
            &&& forall|i: int| s <= i < e ==> is_digit_byte(src[i])
            &&& (e < src.len() ==> !is_digit_byte(src[e]))
        },
        TokenKind::StringLit => {
            &&& 0 <= s
            &&& s + 2 <= e <= src.len()
            &&& src[s] == 34
            &&& src[e - 1] == 34
            &&& forall|i: int| s < i < e - 1 ==> src[i] != 34 && src[i] != 0
        },
        TokenKind::Plus => single_byte_at(src, s, e, 43),
        TokenKind::Minus => single_byte_at(src, s, e, 45) && (e < src.len() ==> src[e] != 62),
        TokenKind::Arrow => {
            &&& 0 <= s
            &&& e == s + 2
            &&& e <= src.len()
            &&& src[s] == 45
            &&& src[s + 1] == 62
        },
        TokenKind::Star => single_byte_at(src, s, e, 42),
        TokenKind::Slash => single_byte_at(src, s, e, 47),
        TokenKind::Percent => single_byte_at(src, s, e, 37),
        TokenKind::Semi => single_byte_at(src, s, e, 59),
        TokenKind::Colon => single_byte_at(src, s, e, 58),
        TokenKind::Comma => single_byte_at(src, s, e, 44),
        TokenKind::Equal => single_byte_at(src, s, e, 61),
        TokenKind::OpenParen => single_byte_at(src, s, e, 40),
        TokenKind::ClosedParen => single_byte_at(src, s, e, 41),
        TokenKind::OpenBracket => single_byte_at(src, s, e, 91),
        TokenKind::ClosedBracket => single_byte_at(src, s, e, 93),
        TokenKind::OpenBrace => single_byte_at(src, s, e, 123),
        TokenKind::ClosedBrace => single_byte_at(src, s, e, 125),
    }
}

pub open spec fn single_byte_at(src: Seq<u8>, s: int, e: int, b: u8) -> bool {
    0 <= s && e == s + 1 && e <= src.len() && src[s] == b
}

/// A byte that may begin some token (or a discarded whitespace run).
pub open spec fn legal_start_byte(b: u8) -> bool {
    ||| is_ws_byte(b)
    ||| is_ident_start_byte(b)
    ||| is_digit_byte(b)
    ||| b == 34
    ||| b == 43 || b == 45 || b == 42 || b == 47 || b == 37
    ||| b == 61 || b == 59 || b == 58 || b == 44
    ||| b == 40 || b == 41 || b == 91 || b == 93 || b == 123 || b == 125
}

/// All bytes of `src` in `[a, b)` are whitespace.
pub open spec fn gap_ws(src: Seq<u8>, a: int, b: int) -> bool {
    forall|j: int| a <= j < b ==> 0 <= j < src.len() && is_ws_byte(src[j])
}

/// The full well-formedness of a lex result for source `src`: every token
/// matches its span, spans appear in order, everything between consecutive
/// spans (and before the first) is whitespace, and the sequence ends with the
/// sole end-of-input token.
pub open spec fn tokens_ok(src: Seq<u8>, toks: Seq<Token>) -> bool {
    &&& toks.len() >= 1
    &&& toks.last().kind == TokenKind::Eof
    &&& forall|i: int| 0 <= i < toks.len() ==> token_matches(src, #[trigger] toks[i])
    &&& forall|i: int| 0 <= i < toks.len() - 1 ==> (#[trigger] toks[i].kind) != TokenKind::Eof
    &&& gap_ws(src, 0, toks[0].loc.start_p as int)
    &&& forall|i: int| 0 <= i < toks.len() - 1 ==> (#[trigger] toks[i].loc.end_p)
        <= toks[i + 1].loc.start_p
        && gap_ws(src, toks[i].loc.end_p as int, toks[i + 1].loc.start_p as int)
}

/// The source with its whitespace removed, starting at `pos`.
pub open spec fn non_ws_from(src: Seq<u8>, pos: int) -> Seq<u8>
    decreases src.len() - pos,
{
    if pos < 0 || pos >= src.len() {
        Seq::empty()
    } else if is_ws_byte(src[pos]) {
        non_ws_from(src, pos + 1)
    } else {
        seq![src[pos]] + non_ws_from(src, pos + 1)
    }
}

/// The source with its whitespace removed.
pub open spec fn non_ws(src: Seq<u8>) -> Seq<u8> {
    non_ws_from(src, 0)
}

/// The concatenation of the token spans from index `i` on.
pub open spec fn spans_concat_from(src: Seq<u8>, toks: Seq<Token>, i: int) -> Seq<u8>
    decreases toks.len() - i,
{
    if i < 0 || i >= toks.len() {
        Seq::empty()
    } else {
        src.subrange(toks[i].loc.start_p as int, toks[i].loc.end_p as int) + spans_concat_from(
            src,
            toks,
            i + 1,
        )
    }
}

/// The concatenation of all token spans, in order.
pub open spec fn spans_concat(src: Seq<u8>, toks: Seq<Token>) -> Seq<u8> {
    spans_concat_from(src, toks, 0)
}

/// No byte inside `t`'s span is whitespace (true of every token except a
/// string literal that quotes whitespace).
pub open spec fn token_no_ws(src: Seq<u8>, t: Token) -> bool {
    forall|j: int| t.loc.start_p <= j < t.loc.end_p ==> !is_ws_byte(#[trigger] src[j])
}

proof fn lemma_ws_run(src: Seq<u8>, a: int, b: int)
    requires
        0 <= a <= b <= src.len(),
        forall|j: int| a <= j < b ==> is_ws_byte(#[trigger] src[j]),
    ensures
        non_ws_from(src, a) == non_ws_from(src, b),
    decreases b - a,
{
    if a < b {
        lemma_ws_run(src, a + 1, b);
    }
}

proof fn lemma_solid_run(src: Seq<u8>, a: int, b: int)
    requires
        0 <= a <= b <= src.len(),
        forall|j: int| a <= j < b ==> !is_ws_byte(#[trigger] src[j]),
    ensures
        non_ws_from(src, a) == src.subrange(a, b) + non_ws_from(src, b),
    decreases b - a,
{
    if a == b {
        assert(src.subrange(a, b) + non_ws_from(src, b) =~= non_ws_from(src, b));
    } else {
        lemma_solid_run(src, a + 1, b);
        assert(src.subrange(a, b) =~= seq![src[a]] + src.subrange(a + 1, b));
        assert(seq![src[a]] + (src.subrange(a + 1, b) + non_ws_from(src, b)) =~= src.subrange(a, b)
            + non_ws_from(src, b));
    }
}

proof fn lemma_spans_from(src: Seq<u8>, toks: Seq<Token>, i: int, pos: int)
    requires
        tokens_ok(src, toks),
        forall|k: int| 0 <= k < toks.len() ==> token_no_ws(src, #[trigger] toks[k]),
        0 <= i <= toks.len(),
        0 <= pos,
        i < toks.len() ==> pos <= toks[i].loc.start_p && gap_ws(
            src,
            pos,
            toks[i].loc.start_p as int,
        ),
        i == toks.len() ==> pos == src.len(),
    ensures
        spans_concat_from(src, toks, i) == non_ws_from(src, pos),
    decreases toks.len() - i,
{
    if i < toks.len() {
        let s = toks[i].loc.start_p as int;
        let e = toks[i].loc.end_p as int;
        assert(token_matches(src, toks[i]));
        assert(0 <= s <= e <= src.len());
        lemma_ws_run(src, pos, s);
        assert(token_no_ws(src, toks[i]));
        lemma_solid_run(src, s, e);
        if i + 1 < toks.len() {
            lemma_spans_from(src, toks, i + 1, e);
        } else {
            // the last token is the end-of-input token, whose empty span sits
            // at the end of the source
            assert(toks[i].kind == TokenKind::Eof);
            lemma_spans_from(src, toks, i + 1, e);
        }
    }
}

/// Concatenating the token spans of a lex result reconstructs the source with
/// its whitespace runs removed, provided no token span itself contains
/// whitespace (string literals may; every other kind cannot).
pub proof fn lemma_tokens_reconstruct(src: Seq<u8>, toks: Seq<Token>)
    requires
        tokens_ok(src, toks),
        forall|k: int| 0 <= k < toks.len() ==> token_no_ws(src, #[trigger] toks[k]),
    ensures
        spans_concat(src, toks) == non_ws(src),
{
    lemma_spans_from(src, toks, 0, 0);
}

/// A valid tokenization of the source up to `upto`, with the scan standing
/// at `upto`: every token matches its span, spans are ordered with only
/// whitespace between them, and only whitespace stands between the last span
/// and `upto`. (It is `tokens_ok` without the closing end-of-input token.)
pub open spec fn prefix_tokens_ok(src: Seq<u8>, toks: Seq<Token>, upto: int) -> bool {
    &&& forall|i: int|
        0 <= i < toks.len() ==> token_matches(src, #[trigger] toks[i]) && toks[i].kind
            != TokenKind::Eof
    &&& toks.len() > 0 ==> gap_ws(src, 0, toks[0].loc.start_p as int)
    &&& forall|i: int|
        0 <= i < toks.len() - 1 ==> (#[trigger] toks[i].loc.end_p) <= toks[i + 1].loc.start_p
            && gap_ws(src, toks[i].loc.end_p as int, toks[i + 1].loc.start_p as int)
    &&& toks.len() > 0 ==> toks.last().loc.end_p <= upto
    &&& gap_ws(
        src,
        if toks.len() == 0 {
            0int
        } else {
            toks.last().loc.end_p as int
        },
        upto,
    )
}

/// What each lexical error attests about the input: the too-long length, the
/// first non-ASCII byte, a byte no token can start with, or a quote that
/// never closes. For the two errors found while scanning, the attestation
/// includes a valid tokenization of everything before the offending
/// position, so the position really is reached as a token start: in
/// particular an unterminated-string error names an *opening* quote (the
/// quotes before it pair off inside earlier string tokens), never the
/// closing quote of a well-formed literal.
pub open spec fn lex_err_evidence(input: Seq<u8>, e: LexicalError) -> bool {
    match e {
        LexicalError::TooLong { len } => len == input.len() && len > u32::MAX,
        LexicalError::NonAscii { offset } => {
            &&& offset < input.len()
            &&& input[offset as int] >= 128
            &&& forall|j: int| 0 <= j < offset ==> 0 < #[trigger] input[j] < 128
        },
        LexicalError::UnknownByte { byte, offset } => {
            &&& offset <= input.len()
            &&& byte == 0 ==> offset < input.len() && input[offset as int] == 0
            &&& byte != 0 ==> offset < input.len() && input[offset as int] == byte
                && !legal_start_byte(byte) && exists|pref: Seq<Token>|
                prefix_tokens_ok(input, pref, offset as int)
        },
        LexicalError::UnterminatedString { offset } => {
            &&& offset < input.len()
            &&& input[offset as int] == 34
            &&& forall|j: int| offset < j < input.len() ==> input[j] != 34
            &&& exists|pref: Seq<Token>| prefix_tokens_ok(input, pref, offset as int)
        },
    }
}

/// The scanner state: the source bytes with one `0` sentinel appended, the
/// current offset, and the tokens produced so far.
#[derive(Debug)]
pub struct Lexer {
    text: Vec<u8>,
    offset: usize,
    tokens: Vec<Token>,
}

impl Lexer {
    /// The source buffer without the sentinel.
    pub closed spec fn src(self) -> Seq<u8> {
        self.text@.drop_last()
    }

    /// End of the last emitted token's span (0 when none yet).
    closed spec fn covered(self) -> int {
        if self.tokens@.len() == 0 {
            0
        } else {
            self.tokens@.last().loc.end_p as int
        }
    }

    /// The scan position, clamped to the source (the sentinel is not source).
    closed spec fn scan_lo(self) -> int {
        if self.offset <= self.text@.len() - 1 {
            self.offset as int
        } else {
            self.text@.len() - 1
        }
    }

    /// Facts that hold throughout a run, even while a token is half scanned:
    /// the sentinel shape of `text`, and the well-formedness of the tokens
    /// emitted so far.
    closed spec fn base_inv(self) -> bool {
        let text = self.text@;
        let n = text.len() - 1;
        let src = self.src();
        let toks = self.tokens@;
        &&& text.len() >= 1
        &&& n <= u32::MAX
        &&& text.last() == 0
        &&& forall|i: int| 0 <= i < n ==> 0 < #[trigger] text[i] < 128
        &&& self.offset <= text.len()
        &&& forall|i: int| 0 <= i < toks.len() ==> token_matches(src, #[trigger] toks[i])
        &&& forall|i: int|
            0 <= i < toks.len() && (#[trigger] toks[i].kind) == TokenKind::Eof ==> i == toks.len()
                - 1 && self.offset == text.len()
        &&& toks.len() > 0 ==> gap_ws(src, 0, toks[0].loc.start_p as int)
        &&& forall|i: int|
            0 <= i < toks.len() - 1 ==> (#[trigger] toks[i].loc.end_p) <= toks[i
                + 1].loc.start_p && gap_ws(
                src,
                toks[i].loc.end_p as int,
                toks[i + 1].loc.start_p as int,
            )
        &&& self.offset == text.len() ==> toks.len() >= 1 && toks.last().kind == TokenKind::Eof
    }

    /// `base_inv` plus: everything scanned beyond the last token is whitespace.
    closed spec fn inv(self) -> bool {
        &&& self.base_inv()
        &&& self.covered() <= self.scan_lo()
        &&& gap_ws(self.src(), self.covered(), self.scan_lo())
    }

    fn peek(&self) -> (r: u8)
        requires
            self.offset < self.text@.len(),
        ensures
            r == self.text@[self.offset as int],
    {
        self.text[self.offset]
    }

    fn next(&mut self) -> (r: u8)
        requires
            old(self).offset < old(self).text@.len(),
        ensures
            final(self).text@ == old(self).text@,
            final(self).tokens@ == old(self).tokens@,
            final(self).offset == old(self).offset + 1,
            r == old(self).text@[old(self).offset as int],
    {
        let ret = self.peek();
        assert(self.offset < self.text.len());
        self.offset = self.offset + 1;
        ret
    }

    fn is_ident_start(ch: u8) -> (r: bool)
        ensures
            r == is_ident_start_byte(ch),
    {
        (97 <= ch && ch <= 122) || (65 <= ch && ch <= 90) || ch == 95
    }

    fn is_ident_continue(ch: u8) -> (r: bool)
        ensures
            r == is_ident_continue_byte(ch),
    {
        Lexer::is_ident_start(ch) || (48 <= ch && ch <= 57)
    }

    fn is_ws(ch: u8) -> (r: bool)
        ensures
            r == is_ws_byte(ch),
    {
        ch == 32 || ch == 9 || ch == 10 || ch == 13
    }

    fn is_digit(ch: u8) -> (r: bool)
        ensures
            r == is_digit_byte(ch),
    {
        48 <= ch && ch <= 57
    }

    /// Keyword lookup for the identifier run at `[start, end)`.
    fn get_keyword(&self, start: usize, end: usize) -> (r: Option<TokenKind>)
        requires
            self.base_inv(),
            start <= end <= self.text@.len() - 1,
        ensures
            r == Some(TokenKind::Fn) <==> self.src().subrange(start as int, end as int) == kw_fn(),
            r == Some(TokenKind::Let) <==> self.src().subrange(start as int, end as int)
                == kw_let(),
            r == Some(TokenKind::Return) <==> self.src().subrange(start as int, end as int)
                == kw_return(),
            r is None <==> !is_keyword(self.src().subrange(start as int, end as int)),
    {
        let ghost sub = self.src().subrange(start as int, end as int);
        let len = end - start;
        if len == 2 && self.text[start] == 102 && self.text[start + 1] == 110 {
            proof {
                assert(sub =~= kw_fn());
            }
            Some(TokenKind::Fn)
        } else if len == 3 && self.text[start] == 108 && self.text[start + 1] == 101 && self.text[
            start + 2
        ] == 116 {
            proof {
                assert(sub =~= kw_let());
            }
            Some(TokenKind::Let)
        } else if len == 6 && self.text[start] == 114 && self.text[start + 1] == 101 && self.text[
            start + 2
        ] == 116 && self.text[start + 3] == 117 && self.text[start + 4] == 114 && self.text[start
            + 5] == 110 {
            proof {
                assert(sub =~= kw_return());
            }
            Some(TokenKind::Return)
        } else {
            proof {
                assert(sub.len() == end - start);
                assert(sub != kw_fn()) by {
                    if sub.len() == 2 {
                        assert(sub[0] == self.src()[start as int]);
                        assert(sub[1] == self.src()[start + 1]);
                    }
                }
                assert(sub != kw_let()) by {
                    if sub.len() == 3 {
                        assert(sub[0] == self.src()[start as int]);
                        assert(sub[1] == self.src()[start + 1]);
                        assert(sub[2] == self.src()[start + 2]);
                    }
                }
                assert(sub != kw_return()) by {
                    if sub.len() == 6 {
                        assert(sub[0] == self.src()[start as int]);
                        assert(sub[1] == self.src()[start + 1]);
                        assert(sub[2] == self.src()[start + 2]);
                        assert(sub[3] == self.src()[start + 3]);
                        assert(sub[4] == self.src()[start + 4]);
                        assert(sub[5] == self.src()[start + 5]);
                    }
                }
            }
            None
        }
    }

    /// Appends one non-whitespace, non-end token whose span ends exactly at
    /// the current offset.
    fn emit(&mut self, kind: TokenKind, start: usize, end: usize)
        requires
            old(self).base_inv(),
            old(self).offset <= old(self).text@.len() - 1,
            end == old(self).offset,
            start <= end,
            old(self).covered() <= start,
            gap_ws(old(self).src(), old(self).covered(), start as int),
            token_matches(
                old(self).src(),
                Token { kind, loc: Location { start_p: start as u32, end_p: end as u32 } },
            ),
            kind != TokenKind::Eof,
            kind != TokenKind::Whitespace,
        ensures
            final(self).inv(),
            final(self).text@ == old(self).text@,
            final(self).offset == old(self).offset,
            final(self).tokens@ == old(self).tokens@.push(
                Token { kind, loc: Location { start_p: start as u32, end_p: end as u32 } },
            ),
    {
        let ghost src = self.src();
        let ghost old_toks = self.tokens@;
        let tok = Token { kind, loc: Location::new(start, end) };
        self.tokens.push(tok);
        proof {
            let toks = self.tokens@;
            assert forall|i: int| 0 <= i < toks.len() implies token_matches(
                src,
                #[trigger] toks[i],
            ) by {
                if i < old_toks.len() {
                    assert(toks[i] == old_toks[i]);
                }
            }
            assert forall|i: int|
                0 <= i < toks.len() - 1 implies (#[trigger] toks[i].loc.end_p) <= toks[i
                + 1].loc.start_p && gap_ws(
                src,
                toks[i].loc.end_p as int,
                toks[i + 1].loc.start_p as int,
            ) by {
                if i < old_toks.len() - 1 {
                    assert(toks[i] == old_toks[i]);
                    assert(toks[i + 1] == old_toks[i + 1]);
                } else {
                    assert(toks[i] == old_toks[old_toks.len() - 1]);
                    assert(toks[i + 1] == tok);
                }
            }
            assert(self.covered() == end);
            assert(gap_ws(src, self.covered(), self.scan_lo()));
        }
    }

    /// Scans one token (or one discarded whitespace run) starting at the
    /// current offset.
    #[verifier::rlimit(60)]
    fn run_one(&mut self) -> (r: Result<(), LexicalError>)
        requires
            old(self).inv(),
            old(self).offset < old(self).text@.len(),
        ensures
            final(self).text@ == old(self).text@,
            r is Ok ==> final(self).inv() && final(self).offset > old(self).offset,
            r matches Err(e) ==> lex_err_evidence(old(self).src(), e) && (e is UnknownByte
                || e is UnterminatedString),
    {
        let ghost src = self.src();
        let ghost n = self.text@.len() - 1;
        let original_offset = self.offset;
        proof {
            // everything before the current offset is already tokenized:
            // should this scan fail, its tokens witness the valid prefix
            assert(prefix_tokens_ok(src, self.tokens@, original_offset as int));
        }
        let ch = self.next();

        if ch == 0 {
            // Only the sentinel byte is 0, so this is the end of the source.
            assert(original_offset == n);
            let tok = Token { kind: TokenKind::Eof, loc: Location::new(original_offset, original_offset) };
            let ghost old_toks = self.tokens@;
            self.tokens.push(tok);
            proof {
                let toks = self.tokens@;
                assert forall|i: int| 0 <= i < toks.len() implies token_matches(
                    src,
                    #[trigger] toks[i],
                ) by {
                    if i < old_toks.len() {
                        assert(toks[i] == old_toks[i]);
                    }
                }
                assert forall|i: int|
                    0 <= i < toks.len() - 1 implies (#[trigger] toks[i].loc.end_p) <= toks[i
                    + 1].loc.start_p && gap_ws(
                    src,
                    toks[i].loc.end_p as int,
                    toks[i + 1].loc.start_p as int,
                ) by {
                    if i < old_toks.len() - 1 {
                        assert(toks[i] == old_toks[i]);
                        assert(toks[i + 1] == old_toks[i + 1]);
                    } else {
                        assert(toks[i] == old_toks[old_toks.len() - 1]);
                        assert(toks[i + 1] == tok);
                    }
                }
                assert(self.covered() == n);
                assert(self.scan_lo() == n);
            }
            Ok(())
        } else if ch == 43 {
            self.emit(TokenKind::Plus, original_offset, self.offset);
            Ok(())
        } else if ch == 45 {
            if self.peek() == 62 {
                let _ = self.next();
                self.emit(TokenKind::Arrow, original_offset, self.offset);
            } else {
                self.emit(TokenKind::Minus, original_offset, self.offset);
            }
            Ok(())
        } else if ch == 42 {
            self.emit(TokenKind::Star, original_offset, self.offset);
            Ok(())
        } else if ch == 47 {
            self.emit(TokenKind::Slash, original_offset, self.offset);
            Ok(())
        } else if ch == 37 {
            self.emit(TokenKind::Percent, original_offset, self.offset);
            Ok(())
        } else if ch == 61 {
            self.emit(TokenKind::Equal, original_offset, self.offset);
            Ok(())
        } else if ch == 59 {
            self.emit(TokenKind::Semi, original_offset, self.offset);
            Ok(())
        } else if ch == 58 {
            self.emit(TokenKind::Colon, original_offset, self.offset);
            Ok(())
        } else if ch == 44 {
            self.emit(TokenKind::Comma, original_offset, self.offset);
            Ok(())
        } else if ch == 40 {
            self.emit(TokenKind::OpenParen, original_offset, self.offset);
            Ok(())
        } else if ch == 41 {
            self.emit(TokenKind::ClosedParen, original_offset, self.offset);
            Ok(())
        } else if ch == 91 {
            self.emit(TokenKind::OpenBracket, original_offset, self.offset);
            Ok(())
        } else if ch == 93 {
            self.emit(TokenKind::ClosedBracket, original_offset, self.offset);
            Ok(())
        } else if ch == 123 {
            self.emit(TokenKind::OpenBrace, original_offset, self.offset);
            Ok(())
        } else if ch == 125 {
            self.emit(TokenKind::ClosedBrace, original_offset, self.offset);
            Ok(())
        } else if Lexer::is_ident_start(ch) {
            while Lexer::is_ident_continue(self.text[self.offset])
                invariant
                    self.base_inv(),
                    self.text@ == old(self).text@,
                    self.tokens@ == old(self).tokens@,
                    original_offset < self.offset <= n,
                    n == self.text@.len() - 1,
                    src == self.src(),
                    forall|i: int|
                        original_offset <= i < self.offset ==> is_ident_continue_byte(
                            #[trigger] src[i],
                        ),
                decreases n - self.offset,
            {
                let _ = self.next();
            }
            let kind = match self.get_keyword(original_offset, self.offset) {
                Some(k) => k,
                None => TokenKind::Ident,
            };
            self.emit(kind, original_offset, self.offset);
            Ok(())
        } else if Lexer::is_digit(ch) {
            while Lexer::is_digit(self.text[self.offset])
                invariant
                    self.base_inv(),
                    self.text@ == old(self).text@,
                    self.tokens@ == old(self).tokens@,
                    original_offset < self.offset <= n,
                    n == self.text@.len() - 1,
                    src == self.src(),
                    forall|i: int|
                        original_offset <= i < self.offset ==> is_digit_byte(#[trigger] src[i]),
                decreases n - self.offset,
            {
                let _ = self.next();
            }
            self.emit(TokenKind::NumberLit, original_offset, self.offset);
            Ok(())
        } else if Lexer::is_ws(ch) {
            while Lexer::is_ws(self.text[self.offset])
                invariant
                    self.base_inv(),
                    self.text@ == old(self).text@,
                    self.tokens@ == old(self).tokens@,
                    original_offset < self.offset <= n,
                    n == self.text@.len() - 1,
                    src == self.src(),
                    forall|i: int|
                        original_offset <= i < self.offset ==> is_ws_byte(#[trigger] src[i]),
                decreases n - self.offset,
            {
                let _ = self.next();
            }
            proof {
                assert(gap_ws(src, self.covered(), self.scan_lo()));
            }
            Ok(())
        } else if ch == 34 {
            while self.text[self.offset] != 34 && self.text[self.offset] != 0
                invariant
                    self.base_inv(),
                    self.text@ == old(self).text@,
                    self.tokens@ == old(self).tokens@,
                    original_offset < self.offset <= n,
                    n == self.text@.len() - 1,
                    src == self.src(),
                    src[original_offset as int] == 34,
                    forall|i: int|
                        original_offset < i < self.offset ==> (#[trigger] src[i]) != 34,
                decreases n - self.offset,
            {
                let _ = self.next();
            }
            if self.text[self.offset] == 0 {
                assert(self.offset == n);
                return Err(LexicalError::UnterminatedString { offset: original_offset });
            }
            let _ = self.next();
            self.emit(TokenKind::StringLit, original_offset, self.offset);
            Ok(())
        } else {
            assert(!legal_start_byte(ch));
            Err(LexicalError::UnknownByte { byte: ch, offset: original_offset })
        }
    }

    /// Scans tokens until the whole buffer, sentinel included, is consumed.
    fn run(&mut self) -> (r: Result<(), LexicalError>)
        requires
            old(self).inv(),
        ensures
            final(self).text@ == old(self).text@,
            r is Ok ==> final(self).inv() && final(self).offset == final(self).text@.len(),
            r matches Err(e) ==> lex_err_evidence(old(self).src(), e) && (e is UnknownByte
                || e is UnterminatedString),
    {
        while self.offset < self.text.len()
            invariant
                self.inv(),
                self.text@ == old(self).text@,
            decreases self.text@.len() - self.offset,
        {
            let res = self.run_one();
            if let Err(e) = res {
                return Err(e);
            }
        }
        Ok(())
    }

    /// Turns an ASCII source buffer into its token sequence.
    ///
    /// On success the tokens tile the source in order, with only whitespace
    /// between spans, and end with the sole end-of-input token (`tokens_ok`).
    /// Each error carries the offending byte or span (`lex_err_evidence`).
    pub fn lex(input: &[u8]) -> (r: Result<Vec<Token>, LexicalError>)
        ensures
            r matches Ok(toks) ==> tokens_ok(input@, toks@) && input@.len() <= u32::MAX && forall|
                i: int,
            | 0 <= i < input@.len() ==> 0 < #[trigger] input@[i] < 128,
            r matches Err(e) ==> lex_err_evidence(input@, e),
    {
        if input.len() > u32::MAX as usize {
            return Err(LexicalError::TooLong { len: input.len() });
        }
        let mut i: usize = 0;
        while i < input.len()
            invariant
                i <= input@.len(),
                forall|j: int| 0 <= j < i ==> 0 < #[trigger] input@[j] < 128,
            decreases input@.len() - i,
        {
            let b = input[i];
            if b >= 128 {
                return Err(LexicalError::NonAscii { offset: i });
            }
            if b == 0 {
                return Err(LexicalError::UnknownByte { byte: 0, offset: i });
            }
            i = i + 1;
        }
        let mut text: Vec<u8> = Vec::new();
        let mut k: usize = 0;
        while k < input.len()
            invariant
                k <= input@.len(),
                text@ == input@.subrange(0, k as int),
            decreases input@.len() - k,
        {
            text.push(input[k]);
            proof {
                assert(text@ =~= input@.subrange(0, k + 1));
            }
            k = k + 1;
        }
        text.push(0);
        proof {
            assert(input@.subrange(0, input@.len() as int) =~= input@);
        }
        let mut lexer = Lexer { text, offset: 0, tokens: Vec::new() };
        proof {
            assert(lexer.src() =~= input@);
            assert(lexer.inv());
        }
        let res = lexer.run();
        if let Err(e) = res {
            return Err(e);
        }
        proof {
            assert(lexer.tokens@.len() >= 1);
            assert(tokens_ok(input@, lexer.tokens@));
        }
        Ok(lexer.tokens)
    }
}

} // verus!
