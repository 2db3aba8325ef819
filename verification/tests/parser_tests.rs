use expr_frontend::ast::BinOpKind;
use expr_frontend::ast::Expr;
use expr_frontend::ast::Symbol;
use expr_frontend::error::Error;
use expr_frontend::error::ErrorKind;
use expr_frontend::grouping::attach_operand;
use expr_frontend::lexer::Lexer;
use expr_frontend::number::FloatLit;
use expr_frontend::number::NumExpr;
use expr_frontend::parser::same_chars;
use expr_frontend::parser::Parser;
use expr_frontend::scope::Scope;
use expr_frontend::text::escape_str;

fn parse(src: &str) -> (Expr, Vec<Error>) {
    let mut parser = Parser::new(src);
    let root = parser.parse_top().unwrap();
    assert_eq!(parser.scope_depth(), 1);
    let (same_root, same_errors) = expr_frontend::parser::parse(src);
    assert_eq!(same_root, root);
    assert_eq!(same_errors, parser.errors);
    (root, parser.errors)
}

fn ok(src: &str) -> Expr {
    let (root, errors) = parse(src);
    assert_eq!(errors, vec![]);
    root
}

fn num(n: i32) -> Expr {
    Expr::Num(NumExpr::I32(n))
}

fn sym(name: &str, position: usize) -> Expr {
    Expr::Symbol(Symbol::Unknown { name: name.to_string(), position })
}

fn bin(kind: BinOpKind, left: Expr, right: Expr) -> Expr {
    Expr::BinOp(kind, Box::new(left), Box::new(right))
}

fn unexpected(index: usize, len: usize) -> Error {
    Error { kind: ErrorKind::UnexpectedToken, index, len }
}

#[test]
fn default_integer() {
    assert_eq!(ok("42"), num(42));
}

#[test]
fn radix_prefixes() {
    assert_eq!(ok("0b101"), num(5));
    assert_eq!(ok("0o17"), num(15));
    assert_eq!(ok("0xFF"), num(255));
    assert_eq!(ok("0xff"), num(255));
}

#[test]
fn suffixes() {
    assert_eq!(ok("10u64"), Expr::Num(NumExpr::U64(10)));
    assert_eq!(ok("10u32"), Expr::Num(NumExpr::U32(10)));
    assert_eq!(ok("10i64"), Expr::Num(NumExpr::I64(10)));
    assert_eq!(ok("10i32"), Expr::Num(NumExpr::I32(10)));
    assert_eq!(ok("0xFFu64"), Expr::Num(NumExpr::U64(255)));
    assert_eq!(
        ok("3.5f32"),
        Expr::Num(NumExpr::F32(FloatLit::Based { left: 3, right: 5, divider: 10 }))
    );
    assert_eq!(
        ok("3.25f64"),
        Expr::Num(NumExpr::F64(FloatLit::Based { left: 3, right: 25, divider: 100 }))
    );
    assert_eq!(
        ok("7f32"),
        Expr::Num(NumExpr::F32(FloatLit::Based { left: 7, right: 0, divider: 1 }))
    );
    assert_eq!(ok("3.9u32"), Expr::Num(NumExpr::U32(3)));
}

#[test]
fn decimal_fraction_without_suffix() {
    assert_eq!(
        ok("3.5"),
        Expr::Num(NumExpr::F32(FloatLit::Decimal { whole: 3, frac: 5, scale: 10 }))
    );
    assert_eq!(
        ok("1.05"),
        Expr::Num(NumExpr::F32(FloatLit::Decimal { whole: 1, frac: 5, scale: 100 }))
    );
    assert_eq!(
        ok("0b1.1"),
        Expr::Num(NumExpr::F32(FloatLit::Decimal { whole: 1, frac: 1, scale: 10 }))
    );
}

#[test]
fn numbers_that_do_not_fit_fail_quietly() {
    let empty = Expr::CodeBlock(vec![]);
    assert_eq!(parse("2147483648"), (empty, vec![]));
    assert_eq!(ok("2147483647"), num(2147483647));
    assert_eq!(parse("4294967296u32"), (Expr::CodeBlock(vec![]), vec![]));
    assert_eq!(ok("18446744073709551615u64"), Expr::Num(NumExpr::U64(u64::MAX)));
    assert_eq!(parse("18446744073709551616u64"), (Expr::CodeBlock(vec![]), vec![]));
    assert_eq!(parse("0b"), (Expr::CodeBlock(vec![]), vec![]));
    assert_eq!(parse("0xe.5"), (Expr::CodeBlock(vec![]), vec![]));
}

#[test]
fn unknown_suffix_is_an_error_at_the_suffix() {
    assert_eq!(parse("10u8"), (Expr::CodeBlock(vec![]), vec![unexpected(2, 2)]));
    assert_eq!(parse("  0x1Fi128"), (Expr::CodeBlock(vec![]), vec![unexpected(6, 4)]));
}

#[test]
fn string_escapes() {
    assert_eq!(ok("\"a\\nb\""), Expr::Str("a\nb".to_string()));
    assert_eq!(ok("\"\\r\\t\\\\.\""), Expr::Str("\r\t\\.".to_string()));
    assert_eq!(ok("\"\""), Expr::Str(String::new()));
    assert_eq!(ok("'plain'"), Expr::Str("plain".to_string()));
}

#[test]
fn a_backslash_before_any_other_character_drops_both() {
    assert_eq!(ok("'it\\'s'"), Expr::Str("its".to_string()));
    assert_eq!(ok("\"a\\qb\""), Expr::Str("ab".to_string()));
    let chars: Vec<char> = "tail\\".chars().collect();
    assert_eq!(escape_str(&chars), "tail");
}

#[test]
fn a_quote_after_a_backslash_never_closes() {
    assert_eq!(parse("\"a\\\\\""), (Expr::CodeBlock(vec![]), vec![]));
}

#[test]
fn unterminated_string_fails_quietly() {
    assert_eq!(parse("\"abc"), (Expr::CodeBlock(vec![]), vec![]));
    assert_eq!(parse("\""), (Expr::CodeBlock(vec![]), vec![]));
}

#[test]
fn precedence() {
    assert_eq!(ok("1+2*3"), bin(BinOpKind::Add, num(1), bin(BinOpKind::Mul, num(2), num(3))));
    assert_eq!(
        ok("1*2+3*4"),
        bin(
            BinOpKind::Add,
            bin(BinOpKind::Mul, num(1), num(2)),
            bin(BinOpKind::Mul, num(3), num(4))
        )
    );
    assert_eq!(ok("1-2-3"), bin(BinOpKind::Sub, bin(BinOpKind::Sub, num(1), num(2)), num(3)));
}

#[test]
fn long_chains() {
    assert_eq!(
        ok("1-2-3-4"),
        bin(
            BinOpKind::Sub,
            bin(BinOpKind::Sub, bin(BinOpKind::Sub, num(1), num(2)), num(3)),
            num(4)
        )
    );
    assert_eq!(
        ok("1 + 2 * 3 ** 4 - 5"),
        bin(
            BinOpKind::Sub,
            bin(
                BinOpKind::Add,
                num(1),
                bin(BinOpKind::Mul, num(2), bin(BinOpKind::Pow, num(3), num(4)))
            ),
            num(5)
        )
    );
    assert_eq!(
        ok("a = 1 + 2 <= 3 * 4"),
        bin(
            BinOpKind::Assign,
            sym("a", 0),
            bin(
                BinOpKind::LtEq,
                bin(BinOpKind::Add, num(1), num(2)),
                bin(BinOpKind::Mul, num(3), num(4))
            )
        )
    );
    assert_eq!(
        ok("2**3**4"),
        bin(BinOpKind::Pow, bin(BinOpKind::Pow, num(2), num(3)), num(4))
    );
}

#[test]
fn every_operator() {
    let cases = [
        ("1=2", BinOpKind::Assign),
        ("1==2", BinOpKind::Eq),
        ("1<2", BinOpKind::Lt),
        ("1<=2", BinOpKind::LtEq),
        ("1>2", BinOpKind::Gt),
        ("1>=2", BinOpKind::GtEq),
        ("1+2", BinOpKind::Add),
        ("1-2", BinOpKind::Sub),
        ("1*2", BinOpKind::Mul),
        ("1/2", BinOpKind::Div),
        ("1%2", BinOpKind::Mod),
        ("1**2", BinOpKind::Pow),
    ];
    for (src, kind) in cases {
        assert_eq!(ok(src), bin(kind, num(1), num(2)));
    }
    assert_eq!(BinOpKind::Assign.precedence(), 1);
    assert_eq!(BinOpKind::Eq.precedence(), 2);
    assert_eq!(BinOpKind::GtEq.precedence(), 2);
    assert_eq!(BinOpKind::Add.precedence(), 3);
    assert_eq!(BinOpKind::Sub.precedence(), 3);
    assert_eq!(BinOpKind::Mul.precedence(), 4);
    assert_eq!(BinOpKind::Mod.precedence(), 4);
    assert_eq!(BinOpKind::Pow.precedence(), 5);
}

#[test]
fn attach_regroups() {
    let sum = bin(BinOpKind::Add, num(1), num(2));
    assert_eq!(
        attach_operand(sum, BinOpKind::Mul, num(3)),
        bin(BinOpKind::Add, num(1), bin(BinOpKind::Mul, num(2), num(3)))
    );
    let product = bin(BinOpKind::Mul, num(1), num(2));
    assert_eq!(
        attach_operand(product, BinOpKind::Add, num(3)),
        bin(BinOpKind::Add, bin(BinOpKind::Mul, num(1), num(2)), num(3))
    );
    assert_eq!(attach_operand(num(1), BinOpKind::Sub, num(2)), bin(BinOpKind::Sub, num(1), num(2)));
}

#[test]
fn namespaced_access_nests_to_the_right() {
    assert_eq!(
        ok("a:b:c"),
        Expr::Access(
            Box::new(sym("a", 0)),
            Box::new(Expr::Access(Box::new(sym("b", 2)), Box::new(sym("c", 4))))
        )
    );
    assert_eq!(ok("name"), sym("name", 0));
    assert_eq!(parse("a:"), (Expr::CodeBlock(vec![]), vec![]));
}

#[test]
fn block_scoping() {
    let mut parser = Parser::new("{ let x = 1; x }");
    assert_eq!(parser.scope_depth(), 1);
    assert_eq!(parser.scope(), Scope { name: "global".to_string(), parent: None });
    let root = parser.parse_top().unwrap();
    assert_eq!(
        root,
        Expr::CodeBlock(vec![
            Expr::VarDef("x".to_string(), false, Some(Box::new(num(1)))),
            sym("x", 13),
        ])
    );
    assert_eq!(parser.scope_depth(), 1);
    assert_eq!(parser.scope(), Scope { name: "global".to_string(), parent: None });
    assert_eq!(parser.errors, vec![]);
}

#[test]
fn a_failing_block_closes_its_scope() {
    let mut parser = Parser::new("{ { 1 ) }");
    let root = parser.parse_top().unwrap();
    assert_eq!(root, Expr::CodeBlock(vec![]));
    assert_eq!(parser.errors, vec![unexpected(6, 1)]);
    assert_eq!(parser.scope_depth(), 1);
    let mut open = Parser::new("{ 1; {");
    assert_eq!(open.parse_top(), Some(Expr::CodeBlock(vec![])));
    assert_eq!(open.errors, vec![]);
    assert_eq!(open.scope_depth(), 1);
}

#[test]
fn child_scope_names_its_parent() {
    assert_eq!(Scope::child(0), Scope { name: "block".to_string(), parent: Some(0) });
    assert_eq!(Scope::new_named("global"), Scope { name: "global".to_string(), parent: None });
}

#[test]
fn error_accumulation() {
    let (root, errors) = parse(")");
    assert!(!errors.is_empty());
    assert_eq!(errors, vec![unexpected(0, 1)]);
    assert_eq!(root, Expr::CodeBlock(vec![]));
}

#[test]
fn the_first_failure_stops_the_parse() {
    let (root, errors) = parse("1; 2; ) 3; ]");
    assert_eq!(root, Expr::CodeBlock(vec![num(1), num(2)]));
    assert_eq!(errors, vec![unexpected(6, 1)]);
    let (root, errors) = parse("1 + ~");
    assert_eq!(root, Expr::CodeBlock(vec![]));
    assert_eq!(errors, vec![unexpected(4, 1)]);
    let mut parser = Parser::new("7 é 8");
    assert_eq!(parser.parse_top(), Some(num(7)));
    assert_eq!(parser.errors, vec![unexpected(2, 2)]);
    assert_eq!(parser.get_str(2, 2), Some("é"));
}

#[test]
fn comments_are_not_skipped() {
    assert_eq!(parse("/* c */ 1"), (Expr::CodeBlock(vec![]), vec![unexpected(0, 7)]));
}

#[test]
fn program_shapes() {
    assert_eq!(ok(""), Expr::CodeBlock(vec![]));
    assert_eq!(ok("   "), Expr::CodeBlock(vec![]));
    assert_eq!(ok("1;"), num(1));
    assert_eq!(ok("1; 2"), Expr::CodeBlock(vec![num(1), num(2)]));
    assert_eq!(ok("1 2"), Expr::CodeBlock(vec![num(1), num(2)]));
    assert_eq!(ok("{}"), Expr::CodeBlock(vec![]));
    assert_eq!(ok("{1}"), Expr::CodeBlock(vec![num(1)]));
    assert_eq!(ok("null"), Expr::Null);
}

#[test]
fn lists_and_calls() {
    assert_eq!(ok("()"), Expr::List(vec![]));
    assert_eq!(ok("( 1 , 2 )"), Expr::List(vec![num(1), num(2)]));
    assert_eq!(ok("f(1, x)"), Expr::Call(Box::new(sym("f", 0)), vec![num(1), sym("x", 5)]));
    assert_eq!(ok("f()"), Expr::Call(Box::new(sym("f", 0)), vec![]));
    assert_eq!(ok("f (1)"), Expr::CodeBlock(vec![sym("f", 0), Expr::List(vec![num(1)])]));
    assert_eq!(
        ok("(1+2)*3"),
        bin(BinOpKind::Mul, Expr::List(vec![bin(BinOpKind::Add, num(1), num(2))]), num(3))
    );
    assert_eq!(parse("(1 2)"), (Expr::CodeBlock(vec![]), vec![]));
    assert_eq!(parse("(1,)"), (Expr::CodeBlock(vec![]), vec![unexpected(3, 1)]));
    assert_eq!(parse("(1, 2"), (Expr::CodeBlock(vec![]), vec![]));
    assert_eq!(parse("f(1"), (Expr::CodeBlock(vec![]), vec![]));
}

#[test]
fn conditionals() {
    assert_eq!(
        ok("if a b else c"),
        Expr::If(Box::new(sym("a", 3)), Box::new(sym("b", 5)), Some(Box::new(sym("c", 12))))
    );
    assert_eq!(ok("if a {1}"), Expr::If(
        Box::new(sym("a", 3)),
        Box::new(Expr::CodeBlock(vec![num(1)])),
        None
    ));
    assert_eq!(
        ok("if x < 1 (2) else 3 + 4"),
        Expr::If(
            Box::new(bin(BinOpKind::Lt, sym("x", 3), num(1))),
            Box::new(Expr::List(vec![num(2)])),
            Some(Box::new(bin(BinOpKind::Add, num(3), num(4))))
        )
    );
    assert_eq!(parse("if a"), (Expr::CodeBlock(vec![]), vec![]));
    assert_eq!(parse("if a b else )"), (Expr::CodeBlock(vec![]), vec![unexpected(12, 1)]));
}

#[test]
fn variables() {
    assert_eq!(ok("let x"), Expr::VarDef("x".to_string(), false, None));
    assert_eq!(ok("let mut x"), Expr::VarDef("x".to_string(), true, None));
    assert_eq!(
        ok("let mut x = 1 + 2"),
        Expr::VarDef("x".to_string(), true, Some(Box::new(bin(BinOpKind::Add, num(1), num(2)))))
    );
    assert_eq!(ok("let mut = 5"), Expr::VarDef("mut".to_string(), false, Some(Box::new(num(5)))));
    assert_eq!(parse("let 5"), (Expr::CodeBlock(vec![]), vec![]));
    assert_eq!(parse("let x = )"), (Expr::CodeBlock(vec![]), vec![unexpected(8, 1)]));
}

#[test]
fn functions() {
    assert_eq!(
        ok("fn main"),
        Expr::Closure("main".to_string(), vec![], Box::new(Expr::Null))
    );
    assert_eq!(
        ok("fn"),
        Expr::Closure("<anonymous>".to_string(), vec![], Box::new(Expr::Null))
    );
}

#[test]
fn expression_queries() {
    assert!(num(1).is_num());
    assert!(Expr::Str(String::new()).is_str());
    assert!(ok("a:b").is_access());
    assert!(ok("1+2").is_bin_op());
    assert!(ok("{}").is_code_block());
    assert!(ok("fn f").is_closure());
    assert!(ok("if a b").is_if());
    assert!(Expr::Null.is_null());
    assert!(!Expr::Null.is_num() && !num(1).is_null() && !num(1).is_bin_op());
    assert_eq!(
        ok("1+2").as_bin_op(),
        Some((BinOpKind::Add, Box::new(num(1)), Box::new(num(2))))
    );
    assert_eq!(num(1).as_bin_op(), None);
}

#[test]
fn slicing_a_token_span_gives_the_lexeme() {
    let src = "let s = 'é€' + 0x1F.8 /* ü */ fn f(a:b) { x ** 2 }";
    let parser = Parser::new(src);
    let mut lexer = Lexer::new(src);
    let mut rebuilt = String::new();
    while let Some(tok) = lexer.next() {
        let text = parser._get_tok_val(tok).unwrap();
        assert_eq!(text, &src[tok.index..tok.index + tok.size]);
        rebuilt.push_str(text);
    }
    assert_eq!(rebuilt, src);
}

#[test]
fn get_str_checks_the_range() {
    let parser = Parser::new("aé");
    assert_eq!(parser.get_str(0, 1), Some("a"));
    assert_eq!(parser.get_str(1, 2), Some("é"));
    assert_eq!(parser.get_str(0, 3), Some("aé"));
    assert_eq!(parser.get_str(3, 0), Some(""));
    assert_eq!(parser.get_str(1, 1), None);
    assert_eq!(parser.get_str(2, 1), None);
    assert_eq!(parser.get_str(0, 4), None);
    assert_eq!(parser.get_str(4, 0), None);
    assert_eq!(parser.get_str(usize::MAX, 2), None);
}

#[test]
fn parsing_again_at_the_end_gives_an_empty_block() {
    let mut parser = Parser::new("1");
    assert_eq!(parser.parse_top(), Some(num(1)));
    assert_eq!(parser.parse_top(), Some(Expr::CodeBlock(vec![])));
    assert_eq!(parser.error_list(), &vec![]);
}

#[test]
fn comparing_runs_of_characters() {
    assert!(same_chars(&['a', 'b'], &['a', 'b']));
    assert!(!same_chars(&['a', 'b'], &['a', 'c']));
    assert!(!same_chars(&['a'], &['a', 'b']));
    assert!(same_chars(&[], &[]));
}

#[test]
fn cloning_copies_the_whole_tree() {
    for src in ["1+2*3", "{ let mut x = f(1, 'a'); if x a:b else (2.5, null) }", "fn g", "let y"] {
        let root = ok(src);
        let copy = root.clone();
        assert_eq!(copy, root);
    }
    let name = Symbol::Resolved { name: "n".to_string() };
    assert_eq!(name.clone(), name);
}

#[test]
fn the_text_of_the_next_token() {
    let mut parser = Parser::new("é€ + 1");
    assert_eq!(parser.get_tok(), Some("é"));
    assert_eq!(parser.parse_top(), Some(Expr::CodeBlock(vec![])));
    assert_eq!(parser.get_tok(), Some("é"));
    let done = Parser::new("");
    assert_eq!(done.get_tok(), None);
}
