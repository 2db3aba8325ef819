use expr_frontend::chars::is_id_continue;
use expr_frontend::chars::is_id_start;
use expr_frontend::chars::is_whitespace;
use expr_frontend::cursor::Cursor;
use expr_frontend::lexer::Lexer;
use expr_frontend::token::DelimKind;
use expr_frontend::token::LitKind;
use expr_frontend::token::NumBase;
use expr_frontend::token::Token;
use expr_frontend::token::TokenKind;

fn lex(src: &str) -> Vec<Token> {
    let mut lexer = Lexer::new(src);
    let mut out = Vec::new();
    while let Some(tok) = lexer.next() {
        out.push(tok);
    }
    out
}

fn kinds(src: &str) -> Vec<TokenKind> {
    lex(src).into_iter().map(|t| t.kind).collect()
}

fn int_kind(base: Option<NumBase>, suff_off: Option<usize>) -> TokenKind {
    TokenKind::Lit { kind: LitKind::Int { base, suff_off } }
}

fn float_kind(base: Option<NumBase>, suff_off: Option<usize>) -> TokenKind {
    TokenKind::Lit { kind: LitKind::Float { base, suff_off } }
}

#[test]
fn is_id_continue_test() {
    assert!(!is_id_continue(' '));
    assert!(is_id_continue('_'));
}

#[test]
fn lexer_test() {
    let mut lexer = Lexer::new("let s = 'str'");
    let token = lexer.next();
    assert_eq!(token, Some(Token { kind: TokenKind::Ident, index: 0, size: 3 }));
}

#[test]
fn cursor_test() {
    let mut cursor = Cursor::new("abc");
    assert_eq!(Some('a'), cursor.peek());
    assert_eq!(Some('b'), cursor.preview());
    assert_eq!(Some('a'), cursor.next());
    assert_eq!(Some('b'), cursor.peek());
}

#[test]
fn cursor_counts_bytes() {
    let mut cursor = Cursor::new("aé€𝄞");
    assert_eq!(cursor.get_index(), 0);
    assert_eq!(cursor.next(), Some('a'));
    assert_eq!(cursor.get_index(), 1);
    assert_eq!(cursor.next(), Some('é'));
    assert_eq!(cursor.get_index(), 3);
    assert_eq!(cursor.get_len(), 3);
    cursor.reset_len();
    assert_eq!(cursor.get_len(), 0);
    assert_eq!(cursor.next(), Some('€'));
    assert_eq!(cursor.get_len(), 3);
    assert_eq!(cursor.get_index(), 6);
    assert!(!cursor.eof());
    assert_eq!(cursor.next(), Some('𝄞'));
    assert_eq!(cursor.get_index(), 10);
    assert!(cursor.eof());
}

#[test]
fn cursor_past_the_end_yields_nothing() {
    let mut cursor = Cursor::new("x");
    assert_eq!(cursor.preview(), None);
    assert_eq!(cursor.next(), Some('x'));
    assert_eq!(cursor.peek(), None);
    assert_eq!(cursor.next(), None);
    assert_eq!(cursor.next(), None);
    assert_eq!(cursor.get_index(), 1);
    assert_eq!(cursor.get_len(), 1);
    assert!(cursor.eof());
}

#[test]
fn empty_source_has_no_tokens() {
    let mut lexer = Lexer::new("");
    assert!(lexer.eof());
    assert_eq!(lexer.peek(), None);
    assert_eq!(lexer.next(), None);
    assert_eq!(lexer.read_token(), None);
}

#[test]
fn character_classes() {
    assert!(is_id_start('a'));
    assert!(is_id_start('Z'));
    assert!(is_id_start('_'));
    assert!(!is_id_start('1'));
    assert!(!is_id_start('$'));
    assert!(is_id_continue('9'));
    assert!(is_id_continue('#'));
    assert!(is_id_continue('$'));
    assert!(is_id_continue('@'));
    assert!(!is_id_continue('-'));
    for c in ['\t', '\n', '\u{b}', '\u{c}', '\r', ' ', '\u{85}', '\u{a0}', '\u{1680}', '\u{2000}', '\u{200a}', '\u{2028}', '\u{2029}', '\u{202f}', '\u{205f}', '\u{3000}'] {
        assert!(is_whitespace(c));
    }
    for c in ['a', '0', '\u{200b}', '\u{feff}', '\u{1c}'] {
        assert!(!is_whitespace(c));
    }
}

#[test]
fn whitespace_agrees_with_the_standard_library() {
    let mut u: u32 = 0;
    while u < 0x11_0000 {
        if let Some(c) = char::from_u32(u) {
            assert_eq!(is_whitespace(c), c.is_whitespace());
        }
        u += 1;
    }
}

#[test]
fn the_last_token_is_seen_after_the_source_ran_out() {
    let mut lexer = Lexer::new("ab");
    assert!(!lexer.eof());
    assert_eq!(lexer.peek(), Some(&Token { kind: TokenKind::Ident, index: 0, size: 2 }));
    assert!(!lexer.eof());
    assert_eq!(lexer.next(), Some(Token { kind: TokenKind::Ident, index: 0, size: 2 }));
    assert!(lexer.eof());
    assert_eq!(lexer.peek(), None);
    assert_eq!(lexer.next(), None);
}

#[test]
fn peek_does_not_consume() {
    let mut lexer = Lexer::new("a b");
    let first = lexer.peek().copied();
    assert_eq!(first, lexer.peek().copied());
    assert_eq!(lexer.next(), first);
    assert_eq!(lexer.peek(), Some(&Token { kind: TokenKind::Whitespace, index: 1, size: 1 }));
}

#[test]
fn read_token_reads_past_the_lookahead() {
    let mut lexer = Lexer::new("a+b");
    assert_eq!(lexer.read_token(), Some(Token { kind: TokenKind::Add, index: 1, size: 1 }));
    assert_eq!(lexer.peek(), Some(&Token { kind: TokenKind::Ident, index: 0, size: 1 }));
    assert_eq!(lexer.read_token(), Some(Token { kind: TokenKind::Ident, index: 2, size: 1 }));
    assert_eq!(lexer.read_token(), None);
    assert_eq!(lexer.peek(), None);
}

#[test]
fn punctuation() {
    assert_eq!(
        kinds("@$&|:.,()[]{};+-*?!#=<>%/"),
        vec![
            TokenKind::At,
            TokenKind::Dollar,
            TokenKind::And,
            TokenKind::Or,
            TokenKind::Colon,
            TokenKind::Dot,
            TokenKind::Comma,
            TokenKind::OpenDelim { kind: DelimKind::Paren },
            TokenKind::CloseDelim { kind: DelimKind::Paren },
            TokenKind::OpenDelim { kind: DelimKind::Bracket },
            TokenKind::CloseDelim { kind: DelimKind::Bracket },
            TokenKind::OpenDelim { kind: DelimKind::Brace },
            TokenKind::CloseDelim { kind: DelimKind::Brace },
            TokenKind::Semi,
            TokenKind::Add,
            TokenKind::Sub,
            TokenKind::Mul,
            TokenKind::Question,
            TokenKind::Not,
            TokenKind::Hash,
            TokenKind::Eq,
            TokenKind::Lt,
            TokenKind::Gt,
            TokenKind::Percent,
            TokenKind::Div,
        ]
    );
}

#[test]
fn identifiers_and_whitespace() {
    assert_eq!(
        lex("foo_1#$@  \t\nbar"),
        vec![
            Token { kind: TokenKind::Ident, index: 0, size: 8 },
            Token { kind: TokenKind::Whitespace, index: 8, size: 4 },
            Token { kind: TokenKind::Ident, index: 12, size: 3 },
        ]
    );
}

#[test]
fn unknown_characters() {
    assert_eq!(
        lex("~é"),
        vec![
            Token { kind: TokenKind::Unkown, index: 0, size: 1 },
            Token { kind: TokenKind::Unkown, index: 1, size: 2 },
        ]
    );
}

#[test]
fn comments() {
    assert_eq!(
        lex("/* a * / b */x"),
        vec![
            Token { kind: TokenKind::BlockComment, index: 0, size: 13 },
            Token { kind: TokenKind::Ident, index: 13, size: 1 },
        ]
    );
    assert_eq!(
        lex("/* a */ */"),
        vec![
            Token { kind: TokenKind::BlockComment, index: 0, size: 7 },
            Token { kind: TokenKind::Whitespace, index: 7, size: 1 },
            Token { kind: TokenKind::Mul, index: 8, size: 1 },
            Token { kind: TokenKind::Div, index: 9, size: 1 },
        ]
    );
    assert_eq!(
        lex("// c\nx"),
        vec![
            Token { kind: TokenKind::LineComment, index: 0, size: 5 },
            Token { kind: TokenKind::Ident, index: 5, size: 1 },
        ]
    );
    assert_eq!(
        lex("//c\n\rx"),
        vec![
            Token { kind: TokenKind::LineComment, index: 0, size: 5 },
            Token { kind: TokenKind::Ident, index: 5, size: 1 },
        ]
    );
    assert_eq!(lex("// to the end"), vec![Token { kind: TokenKind::LineComment, index: 0, size: 13 }]);
    assert_eq!(lex("/* open"), vec![Token { kind: TokenKind::BlockComment, index: 0, size: 7 }]);
    assert_eq!(lex("/*/"), vec![Token { kind: TokenKind::BlockComment, index: 0, size: 3 }]);
    assert_eq!(
        lex("a/b"),
        vec![
            Token { kind: TokenKind::Ident, index: 0, size: 1 },
            Token { kind: TokenKind::Div, index: 1, size: 1 },
            Token { kind: TokenKind::Ident, index: 2, size: 1 },
        ]
    );
}

#[test]
fn strings() {
    let s = TokenKind::Lit { kind: LitKind::Str };
    assert_eq!(lex("\"abc\""), vec![Token { kind: s, index: 0, size: 5 }]);
    assert_eq!(lex("'abc'"), vec![Token { kind: s, index: 0, size: 5 }]);
    assert_eq!(lex("\"\"x"), vec![
        Token { kind: s, index: 0, size: 2 },
        Token { kind: TokenKind::Ident, index: 2, size: 1 },
    ]);
    assert_eq!(lex("'it\\'s'"), vec![Token { kind: s, index: 0, size: 7 }]);
    assert_eq!(lex("\"a'b\""), vec![Token { kind: s, index: 0, size: 5 }]);
    assert_eq!(lex("\"open"), vec![Token { kind: s, index: 0, size: 5 }]);
    assert_eq!(lex("\"é\" x"), vec![
        Token { kind: s, index: 0, size: 4 },
        Token { kind: TokenKind::Whitespace, index: 4, size: 1 },
        Token { kind: TokenKind::Ident, index: 5, size: 1 },
    ]);
}

#[test]
fn numbers() {
    assert_eq!(lex("42"), vec![Token { kind: int_kind(None, None), index: 0, size: 2 }]);
    assert_eq!(lex("0"), vec![Token { kind: int_kind(None, None), index: 0, size: 1 }]);
    assert_eq!(lex("007"), vec![Token { kind: int_kind(None, None), index: 0, size: 3 }]);
    assert_eq!(lex("0b101"), vec![Token { kind: int_kind(Some(NumBase::Bin), None), index: 0, size: 5 }]);
    assert_eq!(lex("0o17"), vec![Token { kind: int_kind(Some(NumBase::Oct), None), index: 0, size: 4 }]);
    assert_eq!(lex("0xFF"), vec![Token { kind: int_kind(Some(NumBase::Hex), None), index: 0, size: 4 }]);
    assert_eq!(lex("10u64"), vec![Token { kind: int_kind(None, Some(2)), index: 0, size: 5 }]);
    assert_eq!(lex("3.5f32"), vec![Token { kind: float_kind(None, Some(3)), index: 0, size: 6 }]);
    assert_eq!(lex("3.5"), vec![Token { kind: float_kind(None, None), index: 0, size: 3 }]);
    assert_eq!(lex("0xFFu64"), vec![Token { kind: int_kind(Some(NumBase::Hex), Some(4)), index: 0, size: 7 }]);
    assert_eq!(lex("0x1.8"), vec![Token { kind: float_kind(Some(NumBase::Hex), None), index: 0, size: 5 }]);
    assert_eq!(lex("0xa.9f"), vec![Token { kind: float_kind(Some(NumBase::Hex), None), index: 0, size: 6 }]);
    assert_eq!(lex("7uabc9+"), vec![
        Token { kind: int_kind(None, Some(1)), index: 0, size: 6 },
        Token { kind: TokenKind::Add, index: 6, size: 1 },
    ]);
}

#[test]
fn numbers_end_where_their_digits_end() {
    assert_eq!(
        lex("0;"),
        vec![
            Token { kind: int_kind(None, None), index: 0, size: 1 },
            Token { kind: TokenKind::Semi, index: 1, size: 1 },
        ]
    );
    assert_eq!(
        lex("1.x"),
        vec![
            Token { kind: int_kind(None, None), index: 0, size: 1 },
            Token { kind: TokenKind::Dot, index: 1, size: 1 },
            Token { kind: TokenKind::Ident, index: 2, size: 1 },
        ]
    );
    assert_eq!(
        lex("0b12"),
        vec![
            Token { kind: int_kind(Some(NumBase::Bin), None), index: 0, size: 3 },
            Token { kind: int_kind(None, None), index: 3, size: 1 },
        ]
    );
    assert_eq!(
        lex("0o7.8"),
        vec![
            Token { kind: int_kind(Some(NumBase::Oct), None), index: 0, size: 3 },
            Token { kind: TokenKind::Dot, index: 3, size: 1 },
            Token { kind: int_kind(None, None), index: 4, size: 1 },
        ]
    );
}

#[test]
fn literal_kind_queries() {
    let plain = LitKind::Int { base: None, suff_off: None };
    let hex = LitKind::Float { base: Some(NumBase::Hex), suff_off: Some(4) };
    assert!(plain.is_int() && !plain.is_float());
    assert!(!plain.has_base() && !plain.has_suff());
    assert!(hex.is_float() && !hex.is_int());
    assert!(hex.has_base() && hex.has_suff());
    assert!(hex.is_hex() && !hex.is_bin() && !hex.is_oct() && !hex.is_dec());
    assert!(LitKind::Int { base: Some(NumBase::Bin), suff_off: None }.is_bin());
    assert!(LitKind::Int { base: Some(NumBase::Oct), suff_off: None }.is_oct());
    assert!(LitKind::Int { base: Some(NumBase::Dec), suff_off: None }.is_dec());
    assert!(!LitKind::Str.has_base() && !LitKind::Str.is_int() && !LitKind::Str.is_hex());
    assert_eq!(NumBase::Bin.radix(), 2);
    assert_eq!(NumBase::Oct.radix(), 8);
    assert_eq!(NumBase::Dec.radix(), 10);
    assert_eq!(NumBase::Hex.radix(), 16);
    let two: u32 = NumBase::Bin.into();
    let sixteen = u32::from(NumBase::Hex);
    assert_eq!((two, sixteen), (2, 16));
}

#[test]
fn spans_tile_the_source() {
    let src = "let s = 'é€' /* ü */ + 0x1F.8 // end\nfn f(a:b) { x ** 2 }";
    let mut at = 0;
    for tok in lex(src) {
        assert_eq!(tok.index, at);
        assert!(tok.size > 0);
        assert!(src.get(tok.index..tok.index + tok.size).is_some());
        at += tok.size;
    }
    assert_eq!(at, src.len());
}

#[test]
fn the_lexeme_of_the_token_held_ready() {
    let mut lexer = Lexer::new("ab+é");
    assert_eq!(lexer.lexeme(), &['a', 'b']);
    assert_eq!(lexer.current(), Some(Token { kind: TokenKind::Ident, index: 0, size: 2 }));
    lexer.next();
    assert_eq!(lexer.lexeme(), &['+']);
    lexer.next();
    assert_eq!(lexer.lexeme(), &['é']);
    assert_eq!(lexer.current(), Some(Token { kind: TokenKind::Unkown, index: 3, size: 2 }));
    lexer.next();
    assert_eq!(lexer.current(), None);
}

#[test]
fn cursor_text_and_offset() {
    let mut cursor = Cursor::new("héllo");
    assert_eq!(cursor.offset(), 0);
    cursor.next();
    cursor.next();
    assert_eq!(cursor.offset(), 2);
    assert_eq!(cursor.get_index(), 3);
    assert_eq!(cursor.text(1, 4), &['é', 'l', 'l']);
    assert_eq!(cursor.text(0, 0), &[] as &[char]);
}
