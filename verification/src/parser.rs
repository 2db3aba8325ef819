//! The parser: it pulls tokens from the lexer and builds the syntax tree
//! that the grammar describes.

use vstd::prelude::*;
use vstd::string::StringExecFns;
use vstd::string::StringSliceAdditionalSpecFns;
use vstd::utf8::is_char_boundary;
use crate::ast::BinOpKind;
use crate::ast::Expr;
use crate::ast::Param;
use crate::ast::Symbol;
use crate::ast::Tree;
use crate::ast::lemma_call_tree;
use crate::ast::lemma_list_trees;
use crate::ast::lemma_trees_push;
use crate::ast::trees;
use crate::chars::byte_len;
use crate::chars::sliceable;
use crate::chars::lemma_byte_len_at_least;
use crate::chars::lemma_byte_len_prefix;
use crate::chars::to_chars;
use crate::error::Error;
use crate::error::ErrorKind;
use crate::grammar::Items;
use crate::grammar::Parsed;
use crate::grammar::after;
use crate::grammar::anonymous;
use crate::grammar::atom;
use crate::grammar::binding;
use crate::grammar::block;
use crate::grammar::call_suffix;
use crate::grammar::chain;
use crate::grammar::conditional;
use crate::grammar::expr;
use crate::grammar::function;
use crate::grammar::kind_of;
use crate::grammar::kw_else;
use crate::grammar::kw_fn;
use crate::grammar::kw_if;
use crate::grammar::kw_let;
use crate::grammar::kw_mut;
use crate::grammar::kw_null;
use crate::grammar::list;
use crate::grammar::list_tail;
use crate::grammar::number;
use crate::grammar::operand;
use crate::grammar::operator;
use crate::grammar::program;
use crate::grammar::root;
use crate::grammar::sequence;
use crate::grammar::skip_ws;
use crate::grammar::string;
use crate::grammar::symbol;
use crate::grammar::symbol_at;
use crate::grammar::unread;
use crate::grammar::variable;
use crate::grammar::word;
use crate::grouping::attach_operand;
use crate::grouping::grouped;
use crate::laws::lemma_program_grouped;
use crate::lexer::Lexer;
use crate::number::NumOutcome;
use crate::number::interpret_number;
use crate::number::lemma_bad_suffix_span;
use crate::scan::end_at;
use crate::scan::lemma_token_advances;
use crate::scan::lexeme_at;
use crate::scan::token_at;
use crate::scope::Scope;
use crate::scope::block_name;
use crate::scope::chained;
use crate::scope::global_name;
use crate::scope::scope_views;
use crate::text::string_literal;
use crate::text::string_of;
use crate::token::DelimKind;
use crate::token::LitKind;
use crate::token::Token;
use crate::token::TokenKind;

verus! {

/// Whether `out` is the expression that `tree` describes, or both are missing.
pub open spec fn matches(out: Option<Expr>, tree: Option<Tree>) -> bool {
    match (out, tree) {
        (Some(e), Some(t)) => e@ == t,
        (None, None) => true,
        _ => false,
    }
}

/// Whether two runs of characters are the same.
pub fn same_chars(a: &[char], b: &[char]) -> (r: bool)
    ensures
        r == (a@ == b@),
{
    if a.len() != b.len() {
        return false;
    }
    let mut i: usize = 0;
    while i < a.len()
        invariant
            a.len() == b.len(),
            i <= a.len(),
            a@.take(i as int) == b@.take(i as int),
        decreases a.len() - i,
    {
        if a[i] != b[i] {
            return false;
        }
        assert(a@.take(i as int + 1) =~= a@.take(i as int).push(a@[i as int]));
        assert(b@.take(i as int + 1) =~= b@.take(i as int).push(b@[i as int]));
        i += 1;
    }
    assert(a@.take(i as int) =~= a@);
    assert(b@.take(i as int) =~= b@);
    true
}

/// A parser over a text. It collects its errors in `errors` and keeps the
/// stack of the scopes that are open; outside a parse only the outermost
/// scope is.
pub struct Parser<'a> {
    lexer: Lexer,
    pub errors: Vec<Error>,
    code: &'a str,
    scope_stack: Vec<Scope>,
}

impl<'a> Parser<'a> {
    /// The text that is parsed.
    pub closed spec fn source(&self) -> Seq<char> {
        self.code@
    }

    /// Where the first token that is not yet consumed starts.
    pub closed spec fn pending(&self) -> int {
        self.lexer.pending()
    }

    /// The scopes that are open, outermost first.
    pub closed spec fn scopes(&self) -> Seq<(Seq<char>, Option<usize>)> {
        scope_views(self.scope_stack@)
    }

    /// The text that is parsed, as the bytes of its UTF-8 encoding.
    pub open spec fn bytes(&self) -> Seq<u8> {
        vstd::utf8::encode_utf8(self.source())
    }

    /// The errors collected so far.
    pub closed spec fn found(&self) -> Seq<Error> {
        self.errors@
    }

    /// The characters of the next token.
    pub open spec fn lexeme_text(&self) -> Seq<char> {
        lexeme_at(self.source(), self.pending())
    }

    /// The lexer reads the same text and holds the next token ready.
    pub closed spec fn lexer_ready(&self) -> bool {
        self.lexer.wf() && self.lexer.aligned() && self.lexer.source() == self.code@
    }

    pub open spec fn wf(&self) -> bool {
        &&& self.lexer_ready()
        &&& chained(self.scopes())
        &&& 0 <= self.pending() <= self.source().len()
    }

    /// This parser is `before` after it consumed the tokens up to `pos` and
    /// added `errors` to its errors. The scopes are as they were.
    pub open spec fn follows(&self, before: &Self, pos: int, errors: Seq<Error>) -> bool {
        &&& self.wf()
        &&& self.source() == before.source()
        &&& self.scopes() == before.scopes()
        &&& self.pending() == pos
        &&& before.pending() <= pos
        &&& self.found() == before.found() + errors
    }

    /// This parser is `before` after it parsed what `r` describes and gave `out`.
    pub open spec fn parsed(&self, before: &Self, r: Parsed, out: Option<Expr>) -> bool {
        &&& self.follows(before, r.pos, r.errors)
        &&& matches(out, r.tree)
        &&& (r.tree.is_some() ==> r.pos > before.pending())
    }

    /// A parser at the start of `code`, with the outermost scope open.
    pub fn new(code: &'a str) -> (p: Parser<'a>)
        ensures
            p.wf(),
            p.source() == code@,
            p.pending() == 0,
            p.found() == Seq::<Error>::empty(),
            p.scopes() == seq![(global_name(), None::<usize>)],
    {
        proof {
            reveal_strlit("global");
        }
        let mut scope_stack: Vec<Scope> = Vec::new();
        let global = Scope::new_named("global");
        assert(global.name@ =~= global_name());
        scope_stack.push(global);
        let p = Parser { lexer: Lexer::new(code), errors: Vec::new(), code, scope_stack };
        assert(p.scopes() =~= seq![(global_name(), None::<usize>)]);
        p
    }

    /// The kind of the next token, if there is one.
    fn kind(&self) -> (r: Option<TokenKind>)
        requires
            self.wf(),
        ensures
            r == kind_of(self.source(), self.pending()),
    {
        match self.lexer.current() {
            Some(t) => Some(t.kind),
            None => None,
        }
    }

    /// The next token, if there is one.
    fn token(&self) -> (r: Option<Token>)
        requires
            self.wf(),
        ensures
            r == if self.pending() < self.source().len() {
                Some(token_at(self.source(), self.pending()))
            } else {
                None
            },
    {
        self.lexer.current()
    }

    /// The characters of the next token.
    fn lexeme(&self) -> (r: &[char])
        requires
            self.wf(),
            self.pending() < self.source().len(),
        ensures
            r@ == lexeme_at(self.source(), self.pending()),
    {
        self.lexer.lexeme()
    }

    /// Consumes the next token.
    fn advance(&mut self)
        requires
            old(self).wf(),
        ensures
            final(self).follows(
                old(self),
                after(old(self).source(), old(self).pending()),
                Seq::empty(),
            ),
    {
        proof {
            if self.pending() < self.source().len() {
                lemma_token_advances(self.source(), self.pending());
            }
        }
        self.lexer.next();
        assert(self.errors@ + Seq::<Error>::empty() =~= self.errors@);
    }

    fn push_error(&mut self, kind: ErrorKind, index: usize, len: usize)
        requires
            old(self).wf(),
        ensures
            final(self).follows(
                old(self),
                old(self).pending(),
                seq![Error { kind, index, len }],
            ),
    {
        self.errors.push(Error::new(kind, index, len));
        assert(self.errors@ =~= old(self).errors@ + seq![Error { kind, index, len }]);
    }

    /// Consumes the run of white space that comes next, if one does.
    fn skip_whitespace(&mut self)
        requires
            old(self).wf(),
        ensures
            final(self).follows(
                old(self),
                skip_ws(old(self).source(), old(self).pending()),
                Seq::empty(),
            ),
    {
        match self.kind() {
            Some(TokenKind::Whitespace) => {
                self.advance();
            },
            _ => {
                assert(self.errors@ + Seq::<Error>::empty() =~= self.errors@);
            },
        }
    }

    /// Whether the next token reads `s`.
    fn has_str(&self, s: &str) -> (r: bool)
        requires
            self.wf(),
        ensures
            r == (self.pending() < self.source().len() && lexeme_at(self.source(), self.pending())
                == s@),
    {
        match self.lexer.current() {
            Some(_) => {
                let word = to_chars(s);
                same_chars(self.lexer.lexeme(), word.as_slice())
            },
            None => false,
        }
    }

    /// Whether the next token is of kind `kind`.
    fn has_type(&self, kind: TokenKind) -> (r: bool)
        requires
            self.wf(),
        ensures
            r == (kind_of(self.source(), self.pending()) == Some(kind)),
    {
        match self.lexer.current() {
            Some(tok) => tok.kind == kind,
            None => false,
        }
    }

    /// The errors collected so far.
    pub fn error_list(&self) -> (r: &Vec<Error>)
        ensures
            r@ == self.found(),
    {
        &self.errors
    }

    /// The innermost scope that is open.
    pub fn scope(&self) -> (s: Scope)
        requires
            self.wf(),
        ensures
            s@ == self.scopes().last(),
    {
        let top = &self.scope_stack[self.scope_stack.len() - 1];
        Scope { name: top.name.clone(), parent: top.parent }
    }

    /// How many scopes are open.
    pub fn scope_depth(&self) -> (n: usize)
        requires
            self.wf(),
        ensures
            n == self.scopes().len(),
            n >= 1,
    {
        self.scope_stack.len()
    }

    /// The `len` bytes of the source text from byte `index` on, if they lie
    /// within the text and begin and end between two characters.
    pub fn get_str(&self, index: usize, len: usize) -> (r: Option<&str>)
        ensures
            r.is_some() == sliceable(self.bytes(), index as int, len as int),
            r.is_some() ==> r.unwrap().spec_bytes() == self.bytes().subrange(
                index as int,
                index + len,
            ),
            r.is_some() ==> r.unwrap()@ == vstd::utf8::decode_utf8(
                self.bytes().subrange(index as int, index + len),
            ),
    {
        let total = self.code.as_bytes().len();
        if index > total || len > total - index {
            return None;
        }
        if !self.code.is_char_boundary(index) || !self.code.is_char_boundary(index + len) {
            return None;
        }
        proof {
            vstd::utf8::encode_utf8_valid_utf8(self.code@);
        }
        let (_, rest) = self.code.split_at(index);
        proof {
            vstd::utf8::valid_utf8_split(self.code.spec_bytes(), index as int);
            vstd::utf8::encode_utf8_valid_utf8(rest@);
            lemma_boundary_shift(self.code.spec_bytes(), index as int, index + len);
        }
        let (found, _) = rest.split_at(len);
        assert(found.spec_bytes() =~= self.code.spec_bytes().subrange(index as int, index + len));
        proof {
            vstd::utf8::encode_utf8_decode_utf8(found@);
        }
        Some(found)
    }

    /// The text of the next token, cut out of the source by its byte span.
    pub fn get_tok(&self) -> (r: Option<&str>)
        requires
            self.wf(),
        ensures
            match r {
                Some(t) => self.pending() < self.source().len() && t@ == lexeme_at(
                    self.source(),
                    self.pending(),
                ),
                None => self.pending() == self.source().len(),
            },
    {
        match self.token() {
            Some(tok) => {
                proof {
                    self.lexer.lemma_source_fits();
                    crate::laws::lemma_span_fidelity(self.source(), self.pending());
                }
                let text = self.get_str(tok.index, tok.size);
                proof {
                    if text.is_some() {
                        vstd::utf8::encode_utf8_decode_utf8(text.unwrap()@);
                    }
                }
                text
            },
            None => None,
        }
    }

    /// The text of the token `tok`.
    pub fn _get_tok_val(&self, tok: Token) -> (r: Option<&str>)
        ensures
            r.is_some() == sliceable(self.bytes(), tok.index as int, tok.size as int),
            r.is_some() ==> r.unwrap().spec_bytes() == self.bytes().subrange(
                tok.index as int,
                tok.index + tok.size,
            ),
    {
        self.get_str(tok.index, tok.size)
    }
}

/// A boundary of a text at or after another boundary is a boundary of the
/// text that begins at the first.
pub proof fn lemma_boundary_shift(bytes: Seq<u8>, from: int, to: int)
    requires
        vstd::utf8::valid_utf8(bytes),
        0 <= from <= to <= bytes.len(),
        is_char_boundary(bytes, from),
        is_char_boundary(bytes, to),
    ensures
        is_char_boundary(bytes.subrange(from, bytes.len() as int), to - from),
    decreases bytes.len(),
{
    vstd::utf8::valid_utf8_split(bytes, from);
    let tail = bytes.subrange(from, bytes.len() as int);
    if to == from {
    } else if to == bytes.len() {
        vstd::utf8::is_char_boundary_start_end_of_seq(tail);
    } else {
        vstd::utf8::is_char_boundary_iff_not_is_continuation_byte(bytes, to);
        vstd::utf8::is_char_boundary_iff_not_is_continuation_byte(tail, to - from);
    }
}


/// Two steps in a row are one step with the errors of both.
pub proof fn lemma_then<'a>(
    a: Parser<'a>,
    b: Parser<'a>,
    c: Parser<'a>,
    at1: int,
    e1: Seq<Error>,
    at2: int,
    e2: Seq<Error>,
)
    requires
        b.follows(&a, at1, e1),
        c.follows(&b, at2, e2),
    ensures
        c.follows(&a, at2, e1 + e2),
        e1.len() == 0 ==> c.follows(&a, at2, e2),
        e2.len() == 0 ==> c.follows(&a, at2, e1),
{
    assert(a.found() + (e1 + e2) =~= (a.found() + e1) + e2);
    if e1.len() == 0 {
        assert(e1 + e2 =~= e2);
    }
    if e2.len() == 0 {
        assert(e1 + e2 =~= e1);
    }
}

impl<'a> Parser<'a> {
    /// The byte spans of the tokens fit the machine.
    proof fn lemma_spans_fit(&self, p: int, q: int)
        requires
            self.wf(),
            0 <= p <= q <= self.source().len(),
        ensures
            byte_len(self.source().take(p)) + byte_len(
                self.source().subrange(p, q),
            ) <= usize::MAX,
            byte_len(self.source().subrange(p, q)) >= q - p,
    {
        self.lexer.lemma_source_fits();
        lemma_byte_len_prefix(self.source(), p, q);
        lemma_byte_len_at_least(self.source().subrange(p, q));
    }

    /// Reads the binary operator that comes next, if one does.
    fn parse_bin_op(&mut self) -> (r: Option<BinOpKind>)
        requires
            old(self).wf(),
        ensures
            match operator(old(self).source(), old(self).pending()) {
                Some((k, pos)) => r == Some(k) && final(self).follows(
                    old(self),
                    pos,
                    Seq::empty(),
                ) && pos > old(self).pending() && old(self).pending() < old(self).source().len(),
                None => r.is_none() && final(self).follows(
                    old(self),
                    old(self).pending(),
                    Seq::empty(),
                ),
            },
    {
        proof {
            reveal(operator);
        }
        let first = self.kind();
        let (single, paired, second): (BinOpKind, Option<BinOpKind>, TokenKind) = match first {
            Some(TokenKind::Eq) => (BinOpKind::Assign, Some(BinOpKind::Eq), TokenKind::Eq),
            Some(TokenKind::Lt) => (BinOpKind::Lt, Some(BinOpKind::LtEq), TokenKind::Eq),
            Some(TokenKind::Gt) => (BinOpKind::Gt, Some(BinOpKind::GtEq), TokenKind::Eq),
            Some(TokenKind::Mul) => (BinOpKind::Mul, Some(BinOpKind::Pow), TokenKind::Mul),
            Some(TokenKind::Add) => (BinOpKind::Add, None, TokenKind::Add),
            Some(TokenKind::Sub) => (BinOpKind::Sub, None, TokenKind::Sub),
            Some(TokenKind::Div) => (BinOpKind::Div, None, TokenKind::Div),
            Some(TokenKind::Percent) => (BinOpKind::Mod, None, TokenKind::Percent),
            _ => {
                assert(self.found() + Seq::<Error>::empty() =~= self.found());
                return None;
            },
        };
        self.advance();
        match paired {
            Some(double) => {
                if self.has_type(second) {
                    let ghost mid = *self;
                    self.advance();
                    proof {
                        lemma_then(
                            *old(self),
                            mid,
                            *self,
                            mid.pending(),
                            Seq::empty(),
                            self.pending(),
                            Seq::empty(),
                        );
                    }
                    Some(double)
                } else {
                    Some(single)
                }
            },
            None => Some(single),
        }
    }

    /// Reads the number that comes next.
    fn parse_num(&mut self, kind: LitKind) -> (r: Option<Expr>)
        requires
            old(self).wf(),
            kind_of(old(self).source(), old(self).pending()) == Some(TokenKind::Lit { kind }),
        ensures
            final(self).parsed(
                old(self),
                number(old(self).source(), old(self).pending(), kind),
                r,
            ),
    {
        let tok = match self.token() {
            Some(t) => t,
            None => {
                return None;
            },
        };
        let outcome = interpret_number(self.lexeme(), kind);
        proof {
            if outcome is BadSuffix {
                lemma_bad_suffix_span(self.lexeme_text(), kind);
            }
            lemma_token_advances(self.source(), self.pending());
            self.lemma_spans_fit(
                self.pending(),
                end_at(self.source(), self.pending()),
            );
        }
        self.advance();
        match outcome {
            NumOutcome::Value(n) => Some(Expr::Num(n)),
            NumOutcome::Malformed => None,
            NumOutcome::BadSuffix { offset, len } => {
                let ghost mid = *self;
                self.push_error(ErrorKind::UnexpectedToken, tok.index + offset, len);
                proof {
                    lemma_then(
                        *old(self),
                        mid,
                        *self,
                        mid.pending(),
                        Seq::empty(),
                        self.pending(),
                        seq![
                            Error {
                                kind: ErrorKind::UnexpectedToken,
                                index: (tok.index + offset) as usize,
                                len,
                            },
                        ],
                    );
                }
                None
            },
        }
    }

    /// Reads the string that comes next.
    fn parse_str(&mut self) -> (r: Option<Expr>)
        requires
            old(self).wf(),
            old(self).pending() < old(self).source().len(),
        ensures
            final(self).parsed(old(self), string(old(self).source(), old(self).pending()), r),
    {
        let text = string_literal(self.lexeme());
        self.advance();
        match text {
            Some(s) => Some(Expr::Str(s)),
            None => None,
        }
    }

    /// Reads the function whose `fn` comes next.
    fn parse_fn(&mut self) -> (r: Option<Expr>)
        requires
            old(self).wf(),
            old(self).pending() < old(self).source().len(),
        ensures
            final(self).parsed(
                old(self),
                function(old(self).source(), after(old(self).source(), old(self).pending())),
                r,
            ),
    {
        self.advance();
        let ghost s1 = *self;
        self.skip_whitespace();
        let ghost s2 = *self;
        proof {
            lemma_then(
                *old(self),
                s1,
                s2,
                s1.pending(),
                Seq::empty(),
                s2.pending(),
                Seq::empty(),
            );
        }
        let name = if self.has_type(TokenKind::Ident) {
            let n = string_of(self.lexeme());
            self.advance();
            proof {
                lemma_then(
                    *old(self),
                    s2,
                    *self,
                    s2.pending(),
                    Seq::empty(),
                    self.pending(),
                    Seq::empty(),
                );
            }
            n
        } else {
            proof {
                reveal_strlit("<anonymous>");
            }
            let n = String::from_str("<anonymous>");
            assert(n@ =~= anonymous());
            n
        };
        let params: Vec<Param> = Vec::new();
        let ghost shown = name@;
        let out = Expr::Closure(name, params, Box::new(Expr::Null));
        assert(Expr::Null@ == Tree::Null);
        assert(out@->Closure_1 =~= Seq::<(Seq<char>, Seq<char>)>::empty());
        assert(out@ == Tree::Closure(shown, Seq::empty(), Box::new(Tree::Null)));
        Some(out)
    }
}


impl<'a> Parser<'a> {
    /// This parser is `before` after it read the run of expressions that
    /// `r` describes and gave `out`.
    pub open spec fn listed(&self, before: &Self, r: Items, out: Option<Vec<Expr>>) -> bool {
        &&& self.follows(before, r.pos, r.errors)
        &&& match (out, r.trees) {
            (Some(v), Some(t)) => trees(v@) == t,
            (None, None) => true,
            _ => false,
        }
        &&& (r.trees.is_some() ==> r.pos > before.pending())
    }

    /// Reads the names `a:b:c` that come next.
    fn parse_sym(&mut self) -> (r: Option<Expr>)
        requires
            old(self).wf(),
            kind_of(old(self).source(), old(self).pending()) == Some(TokenKind::Ident),
        ensures
            final(self).parsed(old(self), symbol(
                old(self).source(),
                old(self).pending(),
            ), r),
        decreases unread(old(self).source(), old(self).pending()), 0int,
    {
        let ghost src = self.source();
        let ghost p = self.pending();
        let tok = match self.token() {
            Some(t) => t,
            None => {
                return None;
            },
        };
        let name = string_of(self.lexeme());
        let sym = Expr::Symbol(Symbol::Unknown { name, position: tok.index });
        assert(sym@ == symbol_at(src, p));
        self.advance();
        let ghost s1 = *self;
        if self.has_type(TokenKind::Colon) {
            self.advance();
            let ghost s2 = *self;
            proof {
                lemma_then(
                    *old(self),
                    s1,
                    s2,
                    s1.pending(),
                    Seq::empty(),
                    s2.pending(),
                    Seq::empty(),
                );
            }
            if self.has_type(TokenKind::Ident) {
                let rest = self.parse_sym();
                proof {
                    lemma_then(
                        *old(self),
                        s2,
                        *self,
                        s2.pending(),
                        Seq::empty(),
                        self.pending(),
                        symbol(src, s2.pending()).errors,
                    );
                }
                match rest {
                    Some(inner) => Some(Expr::Access(Box::new(sym), Box::new(inner))),
                    None => None,
                }
            } else {
                None
            }
        } else {
            Some(sym)
        }
    }

    /// Reads what the identifier that comes next begins.
    fn parse_ident(&mut self) -> (r: Option<Expr>)
        requires
            old(self).wf(),
            kind_of(old(self).source(), old(self).pending()) == Some(TokenKind::Ident),
        ensures
            final(self).parsed(old(self), word(
                old(self).source(),
                old(self).pending(),
            ), r),
        decreases unread(old(self).source(), old(self).pending()), 1int,
    {
        proof {
            reveal_strlit("if");
            reveal_strlit("let");
            reveal_strlit("fn");
            reveal_strlit("null");
            assert("if"@ =~= kw_if());
            assert("let"@ =~= kw_let());
            assert("fn"@ =~= kw_fn());
            assert("null"@ =~= kw_null());
        }
        if self.has_str("if") {
            self.parse_if()
        } else if self.has_str("let") {
            self.parse_let()
        } else if self.has_str("fn") {
            self.parse_fn()
        } else if self.has_str("null") {
            self.advance();
            assert(Expr::Null@ == Tree::Null);
            Some(Expr::Null)
        } else {
            self.parse_sym()
        }
    }

    /// Reads the form whose `if` comes next.
    #[verifier::rlimit(50)]
    fn parse_if(&mut self) -> (r: Option<Expr>)
        requires
            old(self).wf(),
            old(self).pending() < old(self).source().len(),
        ensures
            final(self).parsed(
                old(self),
                conditional(
                    old(self).source(),
                    after(old(self).source(), old(self).pending()),
                ),
                r,
            ),
        decreases unread(old(self).source(), old(self).pending()), 0int,
    {
        let ghost src = self.source();
        self.advance();
        let ghost s1 = *self;
        let ghost at1 = s1.pending();
        let cond = match self.parse_expr() {
            Some(c) => c,
            None => {
                proof {
                    lemma_then(
                        *old(self),
                        s1,
                        *self,
                        at1,
                        Seq::empty(),
                        self.pending(),
                        expr(src, at1).errors,
                    );
                }
                return None;
            },
        };
        let ghost s2 = *self;
        let ghost at2 = s2.pending();
        let ghost e1 = expr(src, at1).errors;
        proof {
            lemma_then(*old(self), s1, s2, at1, Seq::empty(), at2, e1);
        }
        let first = match self.parse_expr() {
            Some(t) => t,
            None => {
                proof {
                    lemma_then(
                        *old(self),
                        s2,
                        *self,
                        at2,
                        e1,
                        self.pending(),
                        expr(src, at2).errors,
                    );
                }
                return None;
            },
        };
        let ghost s3 = *self;
        let ghost at3 = s3.pending();
        let ghost e2 = expr(src, at2).errors;
        proof {
            lemma_then(*old(self), s2, s3, at2, e1, at3, e2);
            reveal_strlit("else");
            assert("else"@ =~= kw_else());
        }
        if self.has_type(TokenKind::Ident) && self.has_str("else") {
            self.advance();
            let ghost s4 = *self;
            proof {
                lemma_then(*old(self), s3, s4, at3, e1 + e2, s4.pending(), Seq::empty());
            }
            let second = self.parse_expr();
            proof {
                lemma_then(
                    *old(self),
                    s4,
                    *self,
                    s4.pending(),
                    e1 + e2,
                    self.pending(),
                    expr(src, s4.pending()).errors,
                );
            }
            match second {
                Some(e) => Some(Expr::If(Box::new(cond), Box::new(first), Some(Box::new(e)))),
                None => None,
            }
        } else {
            Some(Expr::If(Box::new(cond), Box::new(first), None))
        }
    }

    /// Reads the form whose `let` comes next.
    #[verifier::rlimit(50)]
    fn parse_let(&mut self) -> (r: Option<Expr>)
        requires
            old(self).wf(),
            old(self).pending() < old(self).source().len(),
        ensures
            final(self).parsed(
                old(self),
                variable(
                    old(self).source(),
                    after(old(self).source(), old(self).pending()),
                ),
                r,
            ),
        decreases unread(old(self).source(), old(self).pending()), 0int,
    {
        let ghost src = self.source();
        self.advance();
        let ghost s1 = *self;
        self.skip_whitespace();
        let ghost s2 = *self;
        proof {
            lemma_then(*old(self), s1, s2, s1.pending(), Seq::empty(), s2.pending(), Seq::empty());
            reveal_strlit("mut");
            assert("mut"@ =~= kw_mut());
        }
        let mut is_mut = false;
        let name: String;
        if self.has_type(TokenKind::Ident) && self.has_str("mut") {
            self.advance();
            let ghost s3 = *self;
            self.skip_whitespace();
            let ghost s4 = *self;
            proof {
                lemma_then(s2, s3, s4, s3.pending(), Seq::empty(), s4.pending(), Seq::empty());
                lemma_then(*old(self), s2, s4, s2.pending(), Seq::empty(), s4.pending(), Seq::empty());
            }
            if self.has_type(TokenKind::Ident) {
                name = string_of(self.lexeme());
                is_mut = true;
                self.advance();
                proof {
                    lemma_then(
                        *old(self),
                        s4,
                        *self,
                        s4.pending(),
                        Seq::empty(),
                        self.pending(),
                        Seq::empty(),
                    );
                }
            } else {
                name = String::from_str("mut");
            }
        } else if self.has_type(TokenKind::Ident) {
            name = string_of(self.lexeme());
            self.advance();
            proof {
                lemma_then(
                    *old(self),
                    s2,
                    *self,
                    s2.pending(),
                    Seq::empty(),
                    self.pending(),
                    Seq::empty(),
                );
            }
        } else {
            return None;
        }
        let ghost s5 = *self;
        assert(binding(src, s1.pending()) == Some((is_mut, name@, s5.pending())));
        self.skip_whitespace();
        let ghost s6 = *self;
        proof {
            lemma_then(*old(self), s5, s6, s5.pending(), Seq::empty(), s6.pending(), Seq::empty());
        }
        if self.has_type(TokenKind::Eq) {
            self.advance();
            let ghost s7 = *self;
            proof {
                lemma_then(
                    *old(self),
                    s6,
                    s7,
                    s6.pending(),
                    Seq::empty(),
                    s7.pending(),
                    Seq::empty(),
                );
            }
            let init = self.parse_expr();
            proof {
                lemma_then(
                    *old(self),
                    s7,
                    *self,
                    s7.pending(),
                    Seq::empty(),
                    self.pending(),
                    expr(src, s7.pending()).errors,
                );
            }
            match init {
                Some(e) => Some(Expr::VarDef(name, is_mut, Some(Box::new(e)))),
                None => None,
            }
        } else {
            Some(Expr::VarDef(name, is_mut, None))
        }
    }

    /// Opens the scope of a block within the innermost scope.
    fn open_scope(&mut self)
        requires
            old(self).wf(),
        ensures
            final(self).wf(),
            final(self).source() == old(self).source(),
            final(self).pending() == old(self).pending(),
            final(self).found() == old(self).found(),
            final(self).scopes() == old(self).scopes().push(
                (block_name(), Some((old(self).scopes().len() - 1) as usize)),
            ),
    {
        let depth = self.scope_stack.len();
        self.scope_stack.push(Scope::child(depth - 1));
        assert(self.scopes() =~= old(self).scopes().push(
            (block_name(), Some((depth - 1) as usize)),
        ));
    }

    /// Closes the innermost scope, which is not the outermost.
    fn close_scope(&mut self)
        requires
            old(self).wf(),
            old(self).scopes().len() >= 2,
        ensures
            final(self).wf(),
            final(self).source() == old(self).source(),
            final(self).pending() == old(self).pending(),
            final(self).found() == old(self).found(),
            final(self).scopes() == old(self).scopes().drop_last(),
    {
        self.scope_stack.pop();
        assert(self.scopes() =~= old(self).scopes().drop_last());
    }

    /// Reads the block whose `{` comes next, in a scope of its own. The
    /// scope is closed again however the block ends.
    fn parse_block(&mut self) -> (r: Option<Expr>)
        requires
            old(self).wf(),
            kind_of(old(self).source(), old(self).pending()) == Some(
                TokenKind::OpenDelim { kind: DelimKind::Brace },
            ),
        ensures
            final(self).follows(
                old(self),
                block(old(self).source(), old(self).pending()).pos,
                block(old(self).source(), old(self).pending()).errors,
            ),
            match r {
                Some(e) => block(
                    old(self).source(),
                    old(self).pending(),
                ).trees.is_some() && e@ == Tree::CodeBlock(
                    block(old(self).source(), old(self).pending()).trees.unwrap(),
                ),
                None => block(old(self).source(), old(self).pending()).trees.is_none(),
            },
            r.is_some() ==> final(self).pending() > old(self).pending(),
        decreases unread(old(self).source(), old(self).pending()), 1int,
    {
        let ghost src = self.source();
        let ghost p = self.pending();
        self.open_scope();
        let out = self.parse_sequence();
        self.close_scope();
        assert(self.scopes() =~= old(self).scopes());
        match out {
            Some(found) => {
                proof {
                    lemma_list_trees(found);
                }
                Some(Expr::CodeBlock(found))
            },
            None => None,
        }
    }

    /// Reads the `{` that comes next and the expressions up to its `}`.
    #[verifier::rlimit(50)]
    fn parse_sequence(&mut self) -> (r: Option<Vec<Expr>>)
        requires
            old(self).wf(),
            kind_of(old(self).source(), old(self).pending()) == Some(
                TokenKind::OpenDelim { kind: DelimKind::Brace },
            ),
        ensures
            final(self).listed(
                old(self),
                block(old(self).source(), old(self).pending()),
                r,
            ),
        decreases unread(old(self).source(), old(self).pending()), 0int,
    {
        let ghost src = self.source();
        let ghost p = self.pending();
        let ghost goal = block(src, p);
        self.advance();
        let mut found: Vec<Expr> = Vec::new();
        let ghost mut errs: Seq<Error> = Seq::empty();
        assert(trees(found@) =~= Seq::<Tree>::empty());
        loop
            invariant
                self.follows(old(self), self.pending(), errs),
                old(self).pending() == p,
                old(self).source() == src,
                self.pending() > p,
                goal == block(src, p),
                sequence(src, self.pending(), trees(found@), errs)
                    == goal,
            decreases unread(src, self.pending()),
        {
            let ghost s0 = *self;
            self.skip_whitespace();
            let ghost s1 = *self;
            proof {
                lemma_then(*old(self), s0, s1, s0.pending(), errs, s1.pending(), Seq::empty());
            }
            match self.kind() {
                None => {
                    return None;
                },
                Some(TokenKind::CloseDelim { kind: DelimKind::Brace }) => {
                    self.advance();
                    proof {
                        lemma_then(
                            *old(self),
                            s1,
                            *self,
                            s1.pending(),
                            errs,
                            self.pending(),
                            Seq::empty(),
                        );
                    }
                    return Some(found);
                },
                Some(_) => {
                    let next = self.parse_expr();
                    let ghost s2 = *self;
                    let ghost e = expr(src, s1.pending());
                    proof {
                        lemma_then(*old(self), s1, s2, s1.pending(), errs, s2.pending(), e.errors);
                    }
                    match next {
                        None => {
                            return None;
                        },
                        Some(item) => {
                            proof {
                                lemma_trees_push(found@, item);
                            }
                            found.push(item);
                            if self.has_type(TokenKind::Semi) {
                                self.advance();
                                proof {
                                    lemma_then(
                                        *old(self),
                                        s2,
                                        *self,
                                        s2.pending(),
                                        errs + e.errors,
                                        self.pending(),
                                        Seq::empty(),
                                    );
                                }
                            }
                            proof {
                                errs = errs + e.errors;
                            }
                        },
                    }
                },
            }
        }
    }

    /// Reads the parenthesised list whose `(` comes next.
    #[verifier::rlimit(50)]
    fn parse_tuple(&mut self) -> (r: Option<Expr>)
        requires
            old(self).wf(),
            kind_of(old(self).source(), old(self).pending()) == Some(
                TokenKind::OpenDelim { kind: DelimKind::Paren },
            ),
        ensures
            final(self).follows(
                old(self),
                list(old(self).source(), old(self).pending()).pos,
                list(old(self).source(), old(self).pending()).errors,
            ),
            match r {
                Some(e) => list(
                    old(self).source(),
                    old(self).pending(),
                ).trees.is_some() && e@ == Tree::List(
                    list(old(self).source(), old(self).pending()).trees.unwrap(),
                ),
                None => list(old(self).source(), old(self).pending()).trees.is_none(),
            },
            r.is_some() ==> final(self).pending() > old(self).pending(),
        decreases unread(old(self).source(), old(self).pending()), 1int,
    {
        let ghost src = self.source();
        let ghost p = self.pending();
        let ghost goal = list(src, p);
        self.advance();
        let ghost s1 = *self;
        self.skip_whitespace();
        let ghost s2 = *self;
        proof {
            lemma_then(*old(self), s1, s2, s1.pending(), Seq::empty(), s2.pending(), Seq::empty());
        }
        let mut found: Vec<Expr> = Vec::new();
        if self.has_type(TokenKind::CloseDelim { kind: DelimKind::Paren }) {
            self.advance();
            proof {
                lemma_then(
                    *old(self),
                    s2,
                    *self,
                    s2.pending(),
                    Seq::empty(),
                    self.pending(),
                    Seq::empty(),
                );
                lemma_list_trees(found);
                assert(trees(found@) =~= Seq::<Tree>::empty());
            }
            return Some(Expr::List(found));
        }
        let first = self.parse_expr();
        let ghost s3 = *self;
        let ghost e0 = expr(src, s2.pending());
        proof {
            lemma_then(*old(self), s2, s3, s2.pending(), Seq::empty(), s3.pending(), e0.errors);
        }
        match first {
            Some(item) => {
                proof {
                    lemma_trees_push(found@, item);
                    assert(trees(found@).push(item@) =~= seq![item@]);
                }
                found.push(item);
            },
            None => {
                return None;
            },
        }
        let ghost tail = list_tail(
            src,
            s3.pending(),
            trees(found@),
            Seq::empty(),
        );
        let ghost mut errs: Seq<Error> = Seq::empty();
        assert(self.found() + errs =~= self.found());
        loop
            invariant
                self.follows(&s3, self.pending(), errs),
                s3.follows(old(self), s3.pending(), e0.errors),
                s3.source() == src,
                old(self).pending() == p,
                old(self).source() == src,
                self.pending() > p,
                goal == list(src, p),
                tail.trees == goal.trees,
                tail.pos == goal.pos,
                e0.errors + tail.errors == goal.errors,
                list_tail(src, self.pending(), trees(found@), errs)
                    == tail,
            decreases unread(src, self.pending()),
        {
            let ghost s4 = *self;
            match self.kind() {
                Some(TokenKind::Comma) => {
                    self.advance();
                    let ghost s5 = *self;
                    proof {
                        lemma_then(s3, s4, s5, s4.pending(), errs, s5.pending(), Seq::empty());
                    }
                    let next = self.parse_expr();
                    let ghost e = expr(src, s5.pending());
                    proof {
                        lemma_then(s3, s5, *self, s5.pending(), errs, self.pending(), e.errors);
                    }
                    match next {
                        Some(item) => {
                            proof {
                                lemma_trees_push(found@, item);
                                errs = errs + e.errors;
                            }
                            found.push(item);
                        },
                        None => {
                            proof {
                                lemma_then(
                                    *old(self),
                                    s3,
                                    *self,
                                    s3.pending(),
                                    e0.errors,
                                    self.pending(),
                                    errs + e.errors,
                                );
                            }
                            return None;
                        },
                    }
                },
                Some(TokenKind::CloseDelim { kind: DelimKind::Paren }) => {
                    self.advance();
                    proof {
                        lemma_then(s3, s4, *self, s4.pending(), errs, self.pending(), Seq::empty());
                        lemma_then(
                            *old(self),
                            s3,
                            *self,
                            s3.pending(),
                            e0.errors,
                            self.pending(),
                            errs,
                        );
                        lemma_list_trees(found);
                    }
                    return Some(Expr::List(found));
                },
                _ => {
                    proof {
                        lemma_then(
                            *old(self),
                            s3,
                            *self,
                            s3.pending(),
                            e0.errors,
                            self.pending(),
                            errs,
                        );
                    }
                    return None;
                },
            }
        }
    }

    /// Wraps `left` into a call if its arguments come next.
    fn maybe_call(&mut self, left: Expr) -> (r: Option<Expr>)
        requires
            old(self).wf(),
        ensures
            final(self).follows(
                old(self),
                call_suffix(old(self).source(), old(self).pending(), left@).pos,
                call_suffix(old(self).source(), old(self).pending(), left@).errors,
            ),
            matches(
                r,
                call_suffix(old(self).source(), old(self).pending(), left@).tree,
            ),
        decreases unread(old(self).source(), old(self).pending()), 2int,
    {
        if self.has_type(TokenKind::OpenDelim { kind: DelimKind::Paren }) {
            match self.parse_tuple() {
                Some(Expr::List(args)) => {
                    proof {
                        lemma_list_trees(args);
                        lemma_call_tree(left, args);
                    }
                    Some(Expr::Call(Box::new(left), args))
                },
                _ => None,
            }
        } else {
            assert(self.found() + Seq::<Error>::empty() =~= self.found());
            Some(left)
        }
    }

    /// Reads an atom and the arguments of a call if they follow at once.
    fn parse_operand(&mut self) -> (r: Option<Expr>)
        requires
            old(self).wf(),
        ensures
            final(self).parsed(old(self), operand(
                old(self).source(),
                old(self).pending(),
            ), r),
        decreases unread(old(self).source(), old(self).pending()), 3int,
    {
        let ghost src = self.source();
        let ghost p = self.pending();
        match self.parse_atom() {
            Some(callee) => {
                let ghost s1 = *self;
                let ghost shown = callee@;
                let out = self.maybe_call(callee);
                proof {
                    lemma_then(
                        *old(self),
                        s1,
                        *self,
                        s1.pending(),
                        atom(src, p).errors,
                        self.pending(),
                        call_suffix(src, s1.pending(), shown).errors,
                    );
                }
                out
            },
            None => None,
        }
    }

    /// Reads the atom that comes next.
    fn parse_atom(&mut self) -> (r: Option<Expr>)
        requires
            old(self).wf(),
        ensures
            final(self).parsed(old(self), atom(
                old(self).source(),
                old(self).pending(),
            ), r),
        decreases unread(old(self).source(), old(self).pending()), 2int,
    {
        let ghost src = self.source();
        let ghost p = self.pending();
        self.skip_whitespace();
        let ghost s1 = *self;
        let ghost q = s1.pending();
        let tok = match self.token() {
            Some(t) => t,
            None => {
                return None;
            },
        };
        let out = match tok.kind {
            TokenKind::Lit { kind: LitKind::Str } => self.parse_str(),
            TokenKind::Lit { kind } => self.parse_num(kind),
            TokenKind::OpenDelim { kind: DelimKind::Paren } => self.parse_tuple(),
            TokenKind::OpenDelim { kind: DelimKind::Brace } => self.parse_block(),
            TokenKind::Ident => self.parse_ident(),
            _ => {
                self.push_error(ErrorKind::UnexpectedToken, tok.index, tok.size);
                None
            },
        };
        proof {
            lemma_then(
                *old(self),
                s1,
                *self,
                q,
                Seq::empty(),
                self.pending(),
                atom(src, p).errors,
            );
        }
        out
    }

    /// Reads the operators and operands that follow `left` and groups them
    /// with it by precedence.
    #[verifier::rlimit(50)]
    fn maybe_binary(&mut self, left: Expr) -> (r: Option<Expr>)
        requires
            old(self).wf(),
        ensures
            final(self).follows(
                old(self),
                chain(
                    old(self).source(),
                    old(self).pending(),
                    left@,
                    Seq::empty(),
                ).pos,
                chain(
                    old(self).source(),
                    old(self).pending(),
                    left@,
                    Seq::empty(),
                ).errors,
            ),
            matches(
                r,
                chain(
                    old(self).source(),
                    old(self).pending(),
                    left@,
                    Seq::empty(),
                ).tree,
            ),
        decreases unread(old(self).source(), old(self).pending()), 4int,
    {
        let ghost src = self.source();
        let ghost p = self.pending();
        let ghost start = left@;
        let ghost goal = chain(src, p, start, Seq::empty());
        let mut acc = left;
        let ghost mut errs: Seq<Error> = Seq::empty();
        assert(self.found() + errs =~= self.found());
        loop
            invariant
                self.follows(old(self), self.pending(), errs),
                old(self).source() == src,
                old(self).pending() == p,
                start == left@,
                goal == chain(src, p, start, Seq::empty()),
                chain(src, self.pending(), acc@, errs) == goal,
            decreases unread(src, self.pending()),
        {
            let ghost s0 = *self;
            self.skip_whitespace();
            let ghost s1 = *self;
            proof {
                lemma_then(*old(self), s0, s1, s0.pending(), errs, s1.pending(), Seq::empty());
            }
            let op = match self.parse_bin_op() {
                Some(op) => op,
                None => {
                    proof {
                        lemma_then(
                            *old(self),
                            s1,
                            *self,
                            s1.pending(),
                            errs,
                            self.pending(),
                            Seq::empty(),
                        );
                    }
                    return Some(acc);
                },
            };
            let ghost s2 = *self;
            proof {
                lemma_then(*old(self), s1, s2, s1.pending(), errs, s2.pending(), Seq::empty());
            }
            let rhs = self.parse_operand();
            let ghost e = operand(src, s2.pending());
            proof {
                lemma_then(*old(self), s2, *self, s2.pending(), errs, self.pending(), e.errors);
            }
            match rhs {
                Some(right) => {
                    acc = attach_operand(acc, op, right);
                    proof {
                        errs = errs + e.errors;
                    }
                },
                None => {
                    return None;
                },
            }
        }
    }

    /// Reads the expression that comes next.
    fn parse_expr(&mut self) -> (r: Option<Expr>)
        requires
            old(self).wf(),
        ensures
            final(self).parsed(old(self), expr(
                old(self).source(),
                old(self).pending(),
            ), r),
        decreases unread(old(self).source(), old(self).pending()), 5int,
    {
        let ghost src = self.source();
        let ghost p = self.pending();
        match self.parse_operand() {
            Some(first) => {
                let ghost s1 = *self;
                let ghost shown = first@;
                let out = self.maybe_binary(first);
                proof {
                    lemma_then(
                        *old(self),
                        s1,
                        *self,
                        s1.pending(),
                        operand(src, p).errors,
                        self.pending(),
                        chain(src, s1.pending(), shown, Seq::empty()).errors,
                    );
                }
                out
            },
            None => None,
        }
    }

    /// Parses the text from the next token to the end: the one expression
    /// of a text that holds just one, else the block of its expressions. A
    /// failure ends the parse; what was read before it is returned.
    pub fn parse_top(&mut self) -> (r: Option<Expr>)
        requires
            old(self).wf(),
        ensures
            final(self).follows(
                old(self),
                program(
                    old(self).source(),
                    old(self).pending(),
                    Seq::empty(),
                    Seq::empty(),
                ).pos,
                program(
                    old(self).source(),
                    old(self).pending(),
                    Seq::empty(),
                    Seq::empty(),
                ).errors,
            ),
            r.is_some(),
            r.unwrap()@ == root(
                program(
                    old(self).source(),
                    old(self).pending(),
                    Seq::empty(),
                    Seq::empty(),
                ).trees.unwrap(),
            ),
            grouped(r.unwrap()@),
    {
        let ghost src = self.source();
        let ghost p = self.pending();
        proof {
            lemma_program_grouped(src, p, Seq::empty(), Seq::empty());
        }
        let ghost goal = program(src, p, Seq::empty(), Seq::empty());
        let mut exprs: Vec<Expr> = Vec::new();
        let ghost mut errs: Seq<Error> = Seq::empty();
        let mut failed = false;
        assert(self.found() + errs =~= self.found());
        assert(trees(exprs@) =~= Seq::<Tree>::empty());
        while !failed && self.token().is_some()
            invariant
                self.follows(old(self), self.pending(), errs),
                old(self).source() == src,
                old(self).pending() == p,
                !failed ==> program(
                    src,
                    self.pending(),
                    trees(exprs@),
                    errs,
                ) == goal,
                failed ==> goal == (Items {
                    trees: Some(trees(exprs@)),
                    pos: self.pending(),
                    errors: errs,
                }),
            decreases unread(src, self.pending()) + (if failed {
                0int
            } else {
                1int
            }),
        {
            let ghost s0 = *self;
            let next = self.parse_expr();
            let ghost s1 = *self;
            let ghost e = expr(src, s0.pending());
            proof {
                lemma_then(*old(self), s0, s1, s0.pending(), errs, s1.pending(), e.errors);
            }
            match next {
                Some(item) => {
                    proof {
                        lemma_trees_push(exprs@, item);
                    }
                    exprs.push(item);
                    if self.has_type(TokenKind::Semi) {
                        self.advance();
                        proof {
                            lemma_then(
                                *old(self),
                                s1,
                                *self,
                                s1.pending(),
                                errs + e.errors,
                                self.pending(),
                                Seq::empty(),
                            );
                        }
                    }
                },
                None => {
                    failed = true;
                },
            }
            proof {
                errs = errs + e.errors;
            }
        }
        if exprs.len() == 1 {
            exprs.pop()
        } else {
            proof {
                lemma_list_trees(exprs);
            }
            Some(Expr::CodeBlock(exprs))
        }
    }
}


/// Parses `code` from its start to its end, or to the first failure:
/// the root of the tree, and the errors in the order in which they were found.
pub fn parse(code: &str) -> (r: (Expr, Vec<Error>))
    ensures
        r.0@ == root(
            program(code@, 0, Seq::empty(), Seq::empty()).trees.unwrap(),
        ),
        r.1@ == program(code@, 0, Seq::empty(), Seq::empty()).errors,
        grouped(r.0@),
{
    proof {
        lemma_program_grouped(code@, 0, Seq::empty(), Seq::empty());
    }
    let mut parser = Parser::new(code);
    let ghost fresh = parser;
    let out = parser.parse_top();
    assert(parser.found() =~= program(
        code@,
        0,
        Seq::empty(),
        Seq::empty(),
    ).errors) by {
        assert(fresh.found() + parser.found() =~= parser.found());
    }
    match out {
        Some(root) => (root, parser.errors),
        None => (Expr::Null, parser.errors),
    }
}

} // verus!
