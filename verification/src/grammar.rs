//! The grammar, as functions from a text and a place in it to what the
//! parser makes of the tokens from that place on.
//!
//! ```text
//! program := (expr ';'?)*
//! expr    := operand (operator operand)*
//! operand := atom ('(' (expr (',' expr)*)? ')')?
//! atom    := number | string | '(' (expr (',' expr)*)? ')' | '{' (expr ';'?)* '}'
//!          | 'if' expr expr ('else' expr)? | 'let' 'mut'? ident ('=' expr)?
//!          | 'fn' ident? | 'null' | ident (':' ident)*
//! ```
//!
//! One run of white space may stand before every atom and before an
//! operator, and after `(`, `{`, `let`, `mut`, `fn` and the name of a `let`.
//! An expression ends where no operator follows, so the white space after
//! it is consumed with it. A comment is no white space: it is a token that
//! can start no atom. The `(` of a call follows its callee at once, and so
//! do the parts of `a:b:c` follow each other.
//!
//! A construct that fails makes every construct around it fail; the
//! program then ends with the expressions that were complete.

use vstd::prelude::*;
use crate::ast::BinOpKind;
use crate::ast::Name;
use crate::ast::Tree;
use crate::error::Error;
use crate::error::ErrorKind;
use crate::grouping::attach;
use crate::number::interpret;
use crate::number::NumOutcome;
use crate::scan::end_at;
use crate::scan::kind_at;
use crate::scan::lexeme_at;
use crate::scan::token_at;
use crate::text::string_value;
use crate::token::DelimKind;
use crate::token::LitKind;
use crate::token::TokenKind;

verus! {

/// What parsing one construct gives: the tree, unless the construct failed;
/// the place where the next token starts; and the errors found on the way.
pub ghost struct Parsed {
    pub tree: Option<Tree>,
    pub pos: int,
    pub errors: Seq<Error>,
}

/// What parsing a run of expressions gives.
pub ghost struct Items {
    pub trees: Option<Seq<Tree>>,
    pub pos: int,
    pub errors: Seq<Error>,
}

pub open spec fn failed(pos: int, errors: Seq<Error>) -> Parsed {
    Parsed { tree: None, pos, errors }
}

pub open spec fn done(tree: Tree, pos: int, errors: Seq<Error>) -> Parsed {
    Parsed { tree: Some(tree), pos, errors }
}

pub open spec fn no_items(pos: int, errors: Seq<Error>) -> Items {
    Items { trees: None, pos, errors }
}

/// `x`, or `low` if `x` is below it. No construct ends before it starts, so
/// where the grammar uses this the result is `x`; written this way, the
/// functions of the grammar are seen to terminate.
pub open spec fn at_least(low: int, x: int) -> int {
    if x < low {
        low
    } else {
        x
    }
}

/// How many characters of the text lie at or after `p`.
pub open spec fn unread(s: Seq<char>, p: int) -> nat {
    if p < s.len() {
        (s.len() - p) as nat
    } else {
        0
    }
}

/// The kind of the token that starts at `p`, if `p` lies within the text.
pub open spec fn kind_of(s: Seq<char>, p: int) -> Option<TokenKind> {
    if 0 <= p < s.len() {
        Some(kind_at(s, p))
    } else {
        None
    }
}

/// Where the token after the one at `p` starts; `p` itself outside the text.
pub open spec fn after(s: Seq<char>, p: int) -> int {
    if 0 <= p < s.len() {
        at_least(p + 1, end_at(s, p))
    } else {
        p
    }
}

/// The place after the run of white space at `p`, or `p` if none starts there.
pub open spec fn skip_ws(s: Seq<char>, p: int) -> int {
    if kind_of(s, p) == Some(TokenKind::Whitespace) {
        after(s, p)
    } else {
        p
    }
}

/// Whether the token at `p` is the identifier `word`.
pub open spec fn is_word(s: Seq<char>, p: int, word: Seq<char>) -> bool {
    kind_of(s, p) == Some(TokenKind::Ident) && lexeme_at(s, p) == word
}

pub open spec fn kw_if() -> Seq<char> {
    seq!['i', 'f']
}

pub open spec fn kw_else() -> Seq<char> {
    seq!['e', 'l', 's', 'e']
}

pub open spec fn kw_let() -> Seq<char> {
    seq!['l', 'e', 't']
}

pub open spec fn kw_mut() -> Seq<char> {
    seq!['m', 'u', 't']
}

pub open spec fn kw_fn() -> Seq<char> {
    seq!['f', 'n']
}

pub open spec fn kw_null() -> Seq<char> {
    seq!['n', 'u', 'l', 'l']
}

/// The name of a function that has none.
pub open spec fn anonymous() -> Seq<char> {
    seq!['<', 'a', 'n', 'o', 'n', 'y', 'm', 'o', 'u', 's', '>']
}

/// The error for the token at `p`, which stands where none of its kind may.
pub open spec fn unexpected(s: Seq<char>, p: int) -> Error {
    Error {
        kind: ErrorKind::UnexpectedToken,
        index: token_at(s, p).index,
        len: token_at(s, p).size,
    }
}

/// The binary operator that starts at `p`, and the place after it. Two
/// tokens that touch make `==`, `<=`, `>=` and `**`.
#[verifier::opaque]
pub open spec fn operator(s: Seq<char>, p: int) -> Option<(BinOpKind, int)> {
    let q = after(s, p);
    match kind_of(s, p) {
        Some(TokenKind::Eq) => if kind_of(s, q) == Some(TokenKind::Eq) {
            Some((BinOpKind::Eq, after(s, q)))
        } else {
            Some((BinOpKind::Assign, q))
        },
        Some(TokenKind::Lt) => if kind_of(s, q) == Some(TokenKind::Eq) {
            Some((BinOpKind::LtEq, after(s, q)))
        } else {
            Some((BinOpKind::Lt, q))
        },
        Some(TokenKind::Gt) => if kind_of(s, q) == Some(TokenKind::Eq) {
            Some((BinOpKind::GtEq, after(s, q)))
        } else {
            Some((BinOpKind::Gt, q))
        },
        Some(TokenKind::Mul) => if kind_of(s, q) == Some(TokenKind::Mul) {
            Some((BinOpKind::Pow, after(s, q)))
        } else {
            Some((BinOpKind::Mul, q))
        },
        Some(TokenKind::Add) => Some((BinOpKind::Add, q)),
        Some(TokenKind::Sub) => Some((BinOpKind::Sub, q)),
        Some(TokenKind::Div) => Some((BinOpKind::Div, q)),
        Some(TokenKind::Percent) => Some((BinOpKind::Mod, q)),
        _ => None,
    }
}

/// The number at `p`. A suffix that names no type is an error at the span
/// of the suffix; digits that cannot be read fail without one. Either way
/// the token is consumed.
pub open spec fn number(s: Seq<char>, p: int, kind: LitKind) -> Parsed {
    match interpret(lexeme_at(s, p), kind) {
        NumOutcome::Value(n) => done(Tree::Num(n), after(s, p), Seq::empty()),
        NumOutcome::Malformed => failed(after(s, p), Seq::empty()),
        NumOutcome::BadSuffix { offset, len } => failed(
            after(s, p),
            seq![
                Error {
                    kind: ErrorKind::UnexpectedToken,
                    index: (token_at(s, p).index + offset) as usize,
                    len,
                },
            ],
        ),
    }
}

/// The string at `p`, which fails if its closing quote is missing.
pub open spec fn string(s: Seq<char>, p: int) -> Parsed {
    match string_value(lexeme_at(s, p)) {
        Some(text) => done(Tree::Str(text), after(s, p), Seq::empty()),
        None => failed(after(s, p), Seq::empty()),
    }
}

/// The name at `p` as a symbol yet to be resolved.
pub open spec fn symbol_at(s: Seq<char>, p: int) -> Tree {
    Tree::Symbol(Name::Unknown { name: lexeme_at(s, p), position: token_at(s, p).index })
}

/// The names `a:b:c` from the identifier at `p` on; each `:` nests what
/// follows it to the right: `a:(b:c)`. A `:` that no identifier follows fails.
pub open spec fn symbol(s: Seq<char>, p: int) -> Parsed
    decreases unread(s, p), 0int,
{
    let q = after(s, p);
    if 0 <= p < s.len() && kind_of(s, q) == Some(TokenKind::Colon) {
        let r = after(s, q);
        if kind_of(s, r) == Some(TokenKind::Ident) {
            let rest = symbol(s, r);
            match rest.tree {
                Some(t) => done(
                    Tree::Access(Box::new(symbol_at(s, p)), Box::new(t)),
                    rest.pos,
                    Seq::empty(),
                ),
                None => failed(rest.pos, Seq::empty()),
            }
        } else {
            failed(r, Seq::empty())
        }
    } else {
        done(symbol_at(s, p), q, Seq::empty())
    }
}

/// The function whose `fn` ends just before `p`: its name, if an
/// identifier follows, and nothing else.
pub open spec fn function(s: Seq<char>, p: int) -> Parsed {
    let q = skip_ws(s, p);
    if kind_of(s, q) == Some(TokenKind::Ident) {
        done(
            Tree::Closure(lexeme_at(s, q), Seq::empty(), Box::new(Tree::Null)),
            after(s, q),
            Seq::empty(),
        )
    } else {
        done(Tree::Closure(anonymous(), Seq::empty(), Box::new(Tree::Null)), q, Seq::empty())
    }
}

/// The name in a `let`, from `p` on: whether it is mutable, the name, and
/// the place after it. After `mut` with no identifier behind it, `mut` is
/// itself the name.
pub open spec fn binding(s: Seq<char>, p: int) -> Option<(bool, Seq<char>, int)> {
    let q = skip_ws(s, p);
    if is_word(s, q, kw_mut()) {
        let r = skip_ws(s, after(s, q));
        if kind_of(s, r) == Some(TokenKind::Ident) {
            Some((true, lexeme_at(s, r), after(s, r)))
        } else {
            Some((false, kw_mut(), r))
        }
    } else if kind_of(s, q) == Some(TokenKind::Ident) {
        Some((false, lexeme_at(s, q), after(s, q)))
    } else {
        None
    }
}

/// An expression: operands joined by binary operators, grouped by precedence.
pub open spec fn expr(s: Seq<char>, p: int) -> Parsed
    decreases unread(s, p), 5int,
{
    let first = operand(s, p);
    match first.tree {
        Some(t) => {
            let rest = chain(s, at_least(p, first.pos), t, Seq::empty());
            Parsed { tree: rest.tree, pos: rest.pos, errors: first.errors + rest.errors }
        },
        None => first,
    }
}

/// The rest of an expression after the operands grouped in `left`.
pub open spec fn chain(s: Seq<char>, p: int, left: Tree, errors: Seq<Error>) -> Parsed
    decreases unread(s, p), 4int,
{
    let q = skip_ws(s, p);
    match operator(s, q) {
        Some((op, r)) => if p <= q < r && q < s.len() {
            let rhs = operand(s, r);
            match rhs.tree {
                Some(t) => chain(
                    s,
                    at_least(r, rhs.pos),
                    attach(left, op, t),
                    errors + rhs.errors,
                ),
                None => failed(rhs.pos, errors + rhs.errors),
            }
        } else {
            failed(q, errors)
        },
        None => done(left, q, errors),
    }
}

/// An atom, and the arguments of a call if `(` follows it at once.
pub open spec fn operand(s: Seq<char>, p: int) -> Parsed
    decreases unread(s, p), 3int,
{
    let callee = atom(s, p);
    match callee.tree {
        Some(t) => {
            let call = call_suffix(s, at_least(p, callee.pos), t);
            Parsed { tree: call.tree, pos: call.pos, errors: callee.errors + call.errors }
        },
        None => callee,
    }
}

/// `callee` itself, or the call of it with the arguments in the
/// parentheses that open at `p`.
pub open spec fn call_suffix(s: Seq<char>, p: int, callee: Tree) -> Parsed
    decreases unread(s, p), 2int,
{
    if kind_of(s, p) == Some(TokenKind::OpenDelim { kind: DelimKind::Paren }) {
        let args = list(s, p);
        match args.trees {
            Some(v) => done(Tree::Call(Box::new(callee), v), args.pos, args.errors),
            None => failed(args.pos, args.errors),
        }
    } else {
        done(callee, p, Seq::empty())
    }
}

/// An atom. A token that can start none is an error and stays unread; at
/// the end of the text the atom fails without an error.
pub open spec fn atom(s: Seq<char>, p: int) -> Parsed
    decreases unread(s, p), 2int,
{
    let q = skip_ws(s, p);
    if 0 <= p <= q < s.len() {
        match kind_at(s, q) {
            TokenKind::Lit { kind: LitKind::Str } => string(s, q),
            TokenKind::Lit { kind } => number(s, q, kind),
            TokenKind::OpenDelim { kind: DelimKind::Paren } => {
                let l = list(s, q);
                match l.trees {
                    Some(v) => done(Tree::List(v), l.pos, l.errors),
                    None => failed(l.pos, l.errors),
                }
            },
            TokenKind::OpenDelim { kind: DelimKind::Brace } => {
                let b = block(s, q);
                match b.trees {
                    Some(v) => done(Tree::CodeBlock(v), b.pos, b.errors),
                    None => failed(b.pos, b.errors),
                }
            },
            TokenKind::Ident => word(s, q),
            _ => failed(q, seq![unexpected(s, q)]),
        }
    } else {
        failed(q, Seq::empty())
    }
}

/// What the identifier at `p` begins: one of the forms that a keyword
/// opens, or a name.
pub open spec fn word(s: Seq<char>, p: int) -> Parsed
    decreases unread(s, p), 1int,
{
    let q = after(s, p);
    if 0 <= p < s.len() {
        if lexeme_at(s, p) == kw_if() {
            conditional(s, q)
        } else if lexeme_at(s, p) == kw_let() {
            variable(s, q)
        } else if lexeme_at(s, p) == kw_fn() {
            function(s, q)
        } else if lexeme_at(s, p) == kw_null() {
            done(Tree::Null, q, Seq::empty())
        } else {
            symbol(s, p)
        }
    } else {
        failed(p, Seq::empty())
    }
}

/// The form whose `if` ends just before `p`: a condition, a branch, and
/// after `else` another branch.
pub open spec fn conditional(s: Seq<char>, p: int) -> Parsed
    decreases unread(s, p), 6int,
{
    let cond = expr(s, p);
    match cond.tree {
        Some(c) => {
            let q = at_least(p, cond.pos);
            let first = expr(s, q);
            match first.tree {
                Some(t) => {
                    let r = at_least(q, first.pos);
                    if is_word(s, r, kw_else()) {
                        let second = expr(s, after(s, r));
                        match second.tree {
                            Some(e) => done(
                                Tree::If(Box::new(c), Box::new(t), Some(Box::new(e))),
                                second.pos,
                                cond.errors + first.errors + second.errors,
                            ),
                            None => failed(
                                second.pos,
                                cond.errors + first.errors + second.errors,
                            ),
                        }
                    } else {
                        done(
                            Tree::If(Box::new(c), Box::new(t), None),
                            r,
                            cond.errors + first.errors,
                        )
                    }
                },
                None => failed(first.pos, cond.errors + first.errors),
            }
        },
        None => cond,
    }
}

/// The form whose `let` ends just before `p`: a name, and after `=` its
/// initial value.
pub open spec fn variable(s: Seq<char>, p: int) -> Parsed
    decreases unread(s, p), 6int,
{
    match binding(s, p) {
        Some((is_mut, name, q)) => {
            let r = skip_ws(s, q);
            if p <= r && kind_of(s, r) == Some(TokenKind::Eq) {
                let init = expr(s, after(s, r));
                match init.tree {
                    Some(t) => done(
                        Tree::VarDef(name, is_mut, Some(Box::new(t))),
                        init.pos,
                        init.errors,
                    ),
                    None => init,
                }
            } else {
                done(Tree::VarDef(name, is_mut, None), r, Seq::empty())
            }
        },
        None => failed(skip_ws(s, p), Seq::empty()),
    }
}

/// The expressions between the `(` at `p` and its `)`, with a `,` between
/// every two.
pub open spec fn list(s: Seq<char>, p: int) -> Items
    decreases unread(s, p), 1int,
{
    let q = skip_ws(s, after(s, p));
    if 0 <= p < q {
        if kind_of(s, q) == Some(TokenKind::CloseDelim { kind: DelimKind::Paren }) {
            Items { trees: Some(Seq::empty()), pos: after(s, q), errors: Seq::empty() }
        } else {
            let first = expr(s, q);
            match first.tree {
                Some(t) => {
                    let rest = list_tail(s, at_least(q, first.pos), seq![t], Seq::empty());
                    Items { trees: rest.trees, pos: rest.pos, errors: first.errors + rest.errors }
                },
                None => no_items(first.pos, first.errors),
            }
        }
    } else {
        no_items(q, Seq::empty())
    }
}

/// The rest of a list after the expressions in `found`: `)`, or `,` and
/// one more expression. Any other token fails.
pub open spec fn list_tail(s: Seq<char>, p: int, found: Seq<Tree>, errors: Seq<Error>) -> Items
    decreases unread(s, p), 6int,
{
    match kind_of(s, p) {
        Some(TokenKind::Comma) => {
            let q = after(s, p);
            let next = expr(s, q);
            match next.tree {
                Some(t) => list_tail(
                    s,
                    at_least(q, next.pos),
                    found.push(t),
                    errors + next.errors,
                ),
                None => no_items(next.pos, errors + next.errors),
            }
        },
        Some(TokenKind::CloseDelim { kind: DelimKind::Paren }) => Items {
            trees: Some(found),
            pos: after(s, p),
            errors,
        },
        _ => no_items(p, errors),
    }
}

/// The expressions between the `{` at `p` and its `}`.
pub open spec fn block(s: Seq<char>, p: int) -> Items
    decreases unread(s, p), 1int,
{
    if 0 <= p < s.len() {
        sequence(s, after(s, p), Seq::empty(), Seq::empty())
    } else {
        no_items(p, Seq::empty())
    }
}

/// The rest of a block after the expressions in `found`: `}`, or one more
/// expression and a `;` if one follows. The end of the text fails.
pub open spec fn sequence(s: Seq<char>, p: int, found: Seq<Tree>, errors: Seq<Error>) -> Items
    decreases unread(s, p), 6int,
{
    let q = skip_ws(s, p);
    if 0 <= p <= q < s.len() {
        if kind_at(s, q) == (TokenKind::CloseDelim { kind: DelimKind::Brace }) {
            Items { trees: Some(found), pos: after(s, q), errors }
        } else {
            let next = expr(s, q);
            match next.tree {
                Some(t) => sequence(
                    s,
                    after_semi(s, at_least(q + 1, next.pos)),
                    found.push(t),
                    errors + next.errors,
                ),
                None => no_items(next.pos, errors + next.errors),
            }
        }
    } else {
        no_items(q, errors)
    }
}

/// The place after the `;` at `p`, or `p` if none stands there.
pub open spec fn after_semi(s: Seq<char>, p: int) -> int {
    if kind_of(s, p) == Some(TokenKind::Semi) {
        after(s, p)
    } else {
        p
    }
}

/// The expressions from `p` to the end of the text, each with a `;` after
/// it if one follows. The first expression that fails ends the run: what
/// was found before it stays, and the rest of the text stays unread.
pub open spec fn program(s: Seq<char>, p: int, found: Seq<Tree>, errors: Seq<Error>) -> Items
    decreases unread(s, p),
{
    if 0 <= p < s.len() {
        let next = expr(s, p);
        match next.tree {
            Some(t) => program(
                s,
                after_semi(s, at_least(p + 1, next.pos)),
                found.push(t),
                errors + next.errors,
            ),
            None => Items { trees: Some(found), pos: next.pos, errors: errors + next.errors },
        }
    } else {
        Items { trees: Some(found), pos: p, errors }
    }
}

/// The one expression of a program that holds just one; else the block of
/// all its expressions.
pub open spec fn root(found: Seq<Tree>) -> Tree {
    if found.len() == 1 {
        found[0]
    } else {
        Tree::CodeBlock(found)
    }
}

} // verus!
