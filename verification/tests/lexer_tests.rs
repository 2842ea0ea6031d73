use tom_lang::lexer::{Lexer, LexicalError, Token, TokenKind};

fn kinds(tokens: &[Token]) -> Vec<TokenKind> {
    tokens.iter().map(|t| t.kind).collect()
}

fn span(src: &[u8], t: &Token) -> Vec<u8> {
    src[t.loc.start()..t.loc.end()].to_vec()
}

#[test]
fn lex_kind_sequence_add() {
    let src = b"fn add(a: i64, b: i64) -> i64 { return a; }";
    let tokens = Lexer::lex(src).unwrap();
    let expected = vec![
        TokenKind::Fn,
        TokenKind::Ident,
        TokenKind::OpenParen,
        TokenKind::Ident,
        TokenKind::Colon,
        TokenKind::Ident,
        TokenKind::Comma,
        TokenKind::Ident,
        TokenKind::Colon,
        TokenKind::Ident,
        TokenKind::ClosedParen,
        TokenKind::Arrow,
        TokenKind::Ident,
        TokenKind::OpenBrace,
        TokenKind::Return,
        TokenKind::Ident,
        TokenKind::Semi,
        TokenKind::ClosedBrace,
        TokenKind::Eof,
    ];
    assert_eq!(kinds(&tokens), expected);
}

#[test]
fn lex_spans_reconstruct_source_without_whitespace() {
    let src = b"fn  main( ) {\n\treturn;  }";
    let tokens = Lexer::lex(src).unwrap();
    let mut rebuilt: Vec<u8> = Vec::new();
    for t in tokens.iter() {
        rebuilt.extend_from_slice(&src[t.loc.start()..t.loc.end()]);
    }
    let stripped: Vec<u8> = src
        .iter()
        .copied()
        .filter(|b| !matches!(b, b' ' | b'\t' | b'\n' | b'\r'))
        .collect();
    assert_eq!(rebuilt, stripped);
}

#[test]
fn lex_token_texts() {
    let src = b"fn add(x: i64)";
    let tokens = Lexer::lex(src).unwrap();
    assert_eq!(span(src, &tokens[0]), b"fn".to_vec());
    assert_eq!(span(src, &tokens[1]), b"add".to_vec());
    assert_eq!(span(src, &tokens[2]), b"(".to_vec());
    assert_eq!(span(src, &tokens[3]), b"x".to_vec());
    assert_eq!(span(src, &tokens[4]), b":".to_vec());
    assert_eq!(span(src, &tokens[5]), b"i64".to_vec());
    assert_eq!(span(src, &tokens[6]), b")".to_vec());
}

#[test]
fn lex_empty_input_is_one_eof_at_end() {
    let tokens = Lexer::lex(b"").unwrap();
    assert_eq!(tokens.len(), 1);
    assert_eq!(tokens[0].kind, TokenKind::Eof);
    assert_eq!(tokens[0].loc.start(), 0);
    assert_eq!(tokens[0].loc.end(), 0);
}

#[test]
fn lex_eof_sits_at_sentinel_offset() {
    let src = b"let x";
    let tokens = Lexer::lex(src).unwrap();
    let last = tokens.last().unwrap();
    assert_eq!(last.kind, TokenKind::Eof);
    assert_eq!(last.loc.start(), src.len());
    assert_eq!(last.loc.end(), src.len());
}

#[test]
fn lex_keywords_and_identifiers() {
    let tokens = Lexer::lex(b"let return fnx letter returns _x a1").unwrap();
    assert_eq!(
        kinds(&tokens),
        vec![
            TokenKind::Let,
            TokenKind::Return,
            TokenKind::Ident,
            TokenKind::Ident,
            TokenKind::Ident,
            TokenKind::Ident,
            TokenKind::Ident,
            TokenKind::Eof,
        ]
    );
}

#[test]
fn lex_maximal_munch_number_then_ident() {
    let src = b"123abc";
    let tokens = Lexer::lex(src).unwrap();
    assert_eq!(
        kinds(&tokens),
        vec![TokenKind::NumberLit, TokenKind::Ident, TokenKind::Eof]
    );
    assert_eq!(span(src, &tokens[0]), b"123".to_vec());
    assert_eq!(span(src, &tokens[1]), b"abc".to_vec());
}

#[test]
fn lex_arrow_and_minus() {
    // arrow wins over minus by maximal munch
    let tokens = Lexer::lex(b"->").unwrap();
    assert_eq!(kinds(&tokens), vec![TokenKind::Arrow, TokenKind::Eof]);
    let tokens = Lexer::lex(b"-5").unwrap();
    assert_eq!(
        kinds(&tokens),
        vec![TokenKind::Minus, TokenKind::NumberLit, TokenKind::Eof]
    );
    // '>' alone is not a token of the language; it cannot be lexed
    assert!(Lexer::lex(b">").is_err());
}

#[test]
fn lex_arrow_minus_number() {
    let src = b"->-5";
    let tokens = Lexer::lex(src).unwrap();
    assert_eq!(
        kinds(&tokens),
        vec![
            TokenKind::Arrow,
            TokenKind::Minus,
            TokenKind::NumberLit,
            TokenKind::Eof,
        ]
    );
}

#[test]
fn lex_punctuation() {
    let tokens = Lexer::lex(b"+*/%;:,=()[]{}").unwrap();
    assert_eq!(
        kinds(&tokens),
        vec![
            TokenKind::Plus,
            TokenKind::Star,
            TokenKind::Slash,
            TokenKind::Percent,
            TokenKind::Semi,
            TokenKind::Colon,
            TokenKind::Comma,
            TokenKind::Equal,
            TokenKind::OpenParen,
            TokenKind::ClosedParen,
            TokenKind::OpenBracket,
            TokenKind::ClosedBracket,
            TokenKind::OpenBrace,
            TokenKind::ClosedBrace,
            TokenKind::Eof,
        ]
    );
}

#[test]
fn lex_string_literal_span_keeps_quotes() {
    let src = b"\"hi there\"";
    let tokens = Lexer::lex(src).unwrap();
    assert_eq!(tokens[0].kind, TokenKind::StringLit);
    assert_eq!(span(src, &tokens[0]), b"\"hi there\"".to_vec());
}

#[test]
fn lex_unknown_byte_is_reported_with_offset() {
    let err = Lexer::lex(b"fn @").unwrap_err();
    assert_eq!(err, LexicalError::UnknownByte { byte: b'@', offset: 3 });
}

#[test]
fn lex_non_ascii_is_rejected() {
    let err = Lexer::lex(&[b'f', 0xFF, b'n']).unwrap_err();
    assert_eq!(err, LexicalError::NonAscii { offset: 1 });
}

#[test]
fn lex_nul_byte_is_rejected() {
    let err = Lexer::lex(&[b'f', 0, b'n']).unwrap_err();
    assert_eq!(err, LexicalError::UnknownByte { byte: 0, offset: 1 });
}

#[test]
fn lex_unterminated_string_is_rejected() {
    let err = Lexer::lex(b"fn \"abc").unwrap_err();
    assert_eq!(err, LexicalError::UnterminatedString { offset: 3 });
}
