//! What holds of every text: parsing never moves backwards, every parsed
//! tree is grouped by precedence in all its parts, and the byte span of a
//! token cuts its lexeme out of the source.

use vstd::prelude::*;
use vstd::utf8::decode_utf8;
use vstd::utf8::encode_scalar;
use vstd::utf8::encode_utf8;
use vstd::utf8::is_char_boundary;
use crate::ast::Tree;
use crate::chars::CharClass;
use crate::chars::byte_len;
use crate::chars::in_class;
use crate::chars::lemma_byte_len_prefix;
use crate::chars::lemma_byte_len_step;
use crate::chars::lemma_encode_concat;
use crate::chars::sliceable;
use crate::chars::spec_is_digit;
use crate::error::Error;
use crate::grammar::Parsed;
use crate::grammar::after;
use crate::grammar::after_semi;
use crate::grammar::at_least;
use crate::grammar::atom;
use crate::grammar::binding;
use crate::grammar::block;
use crate::grammar::call_suffix;
use crate::grammar::chain;
use crate::grammar::conditional;
use crate::grammar::expr;
use crate::grammar::function;
use crate::grammar::is_word;
use crate::grammar::kind_of;
use crate::grammar::kw_else;
use crate::grammar::kw_fn;
use crate::grammar::kw_if;
use crate::grammar::kw_let;
use crate::grammar::kw_null;
use crate::grammar::list;
use crate::grammar::list_tail;
use crate::grammar::operand;
use crate::grammar::operator;
use crate::grammar::program;
use crate::grammar::sequence;
use crate::grammar::skip_ws;
use crate::grammar::symbol;
use crate::grammar::unread;
use crate::grammar::variable;
use crate::grammar::word;
use crate::grouping::attach;
use crate::grouping::grouped;
use crate::grouping::lemma_attach_grouped;
use crate::scan::digit_class;
use crate::scan::end_at;
use crate::scan::kind_at;
use crate::scan::lemma_scan_number_bounds;
use crate::scan::lemma_token_advances;
use crate::scan::lexeme_at;
use crate::scan::number_kind;
use crate::scan::run_end;
use crate::scan::scan_number;
use crate::scan::token_at;
use crate::token::DelimKind;
use crate::token::TokenKind;
use crate::grammar::root;
use crate::grammar::symbol_at;
use crate::grouping::all_grouped;

verus! {

/// What an identifier begins is never a binary operation.
#[verifier::rlimit(50)]
pub proof fn lemma_word_is_no_chain(s: Seq<char>, p: int)
    ensures
        word(s, p).tree.is_some() ==> !(word(s, p).tree.unwrap() is BinOp),
{
    let q = after(s, p);
    let form = conditional(s, q);
    let definition = variable(s, q);
    let closure = function(s, q);
    let name = symbol(s, p);
    assert(form.tree.is_some() ==> form.tree.unwrap() is If);
    assert(definition.tree.is_some() ==> definition.tree.unwrap() is VarDef);
    assert(closure.tree.is_some() ==> closure.tree.unwrap() is Closure);
    assert(name.tree.is_some() ==> name.tree.unwrap() is Symbol || name.tree.unwrap() is Access);
}

/// An atom is never a binary operation.
#[verifier::rlimit(50)]
pub proof fn lemma_atom_is_no_chain(s: Seq<char>, p: int)
    ensures
        atom(s, p).tree.is_some() ==> !(atom(s, p).tree.unwrap() is BinOp),
{
    let q = skip_ws(s, p);
    if 0 <= p <= q < s.len() {
        lemma_word_is_no_chain(s, q);
        let text = crate::grammar::string(s, q);
        assert(text.tree.is_some() ==> text.tree.unwrap() is Str);
    }
}

/// An operand is never itself a binary operation: the operators of an
/// expression all belong to one chain.
#[verifier::rlimit(50)]
pub proof fn lemma_operand_is_no_chain(s: Seq<char>, p: int)
    ensures
        operand(s, p).tree.is_some() ==> !(operand(s, p).tree.unwrap() is BinOp),
{
    lemma_atom_is_no_chain(s, p);
    let callee = atom(s, p);
    if callee.tree.is_some() {
        let call = call_suffix(s, at_least(p, callee.pos), callee.tree.unwrap());
        assert(call.tree.is_some() ==> !(call.tree.unwrap() is BinOp));
    }
}

/// Names are grouped: they hold no operators.
pub proof fn lemma_symbol_grouped(s: Seq<char>, p: int)
    requires
        0 <= p < s.len(),
    ensures
        symbol(s, p).tree.is_some() ==> grouped(symbol(s, p).tree.unwrap()),
    decreases unread(s, p), 0int,
{
    let q = after(s, p);
    let r = after(s, q);
    lemma_after_moves_on(s, p);
    lemma_after_moves_on(s, q);
    assert(grouped(symbol_at(s, p)));
    if kind_of(s, q) == Some(TokenKind::Colon) && kind_of(s, r) == Some(TokenKind::Ident) {
        lemma_symbol_grouped(s, r);
    }
}

/// Every expression that the grammar yields is grouped by precedence, in
/// all its parts: under each operator, an operator to the right binds
/// strictly tighter and one to the left binds at least as tightly. So
/// operators of equal precedence group from left to right.
pub proof fn lemma_expr_grouped(s: Seq<char>, p: int)
    ensures
        expr(s, p).tree.is_some() ==> grouped(expr(s, p).tree.unwrap()),
    decreases unread(s, p), 5int,
{
    let first = operand(s, p);
    match first.tree {
        Some(t) => {
            lemma_operand_grouped(s, p);
            lemma_chain_grouped(s, at_least(p, first.pos), t, Seq::empty());
        },
        None => {},
    }
}

/// Whatever follows a well-grouped chain, the chain stays well grouped.
pub proof fn lemma_chain_grouped(s: Seq<char>, p: int, left: Tree, errors: Seq<Error>)
    requires
        grouped(left),
    ensures
        chain(s, p, left, errors).tree.is_some() ==> grouped(
            chain(s, p, left, errors).tree.unwrap(),
        ),
    decreases unread(s, p), 4int,
{
    let q = skip_ws(s, p);
    match operator(s, q) {
        Some((op, r)) => {
            if p <= q < r && q < s.len() {
                let rhs = operand(s, r);
                match rhs.tree {
                    Some(t) => {
                        lemma_operand_is_no_chain(s, r);
                        lemma_operand_grouped(s, r);
                        lemma_attach_grouped(left, op, t);
                        lemma_chain_grouped(
                            s,
                            at_least(r, rhs.pos),
                            attach(left, op, t),
                            errors + rhs.errors,
                        );
                    },
                    None => {},
                }
            }
        },
        None => {},
    }
}

pub proof fn lemma_operand_grouped(s: Seq<char>, p: int)
    ensures
        operand(s, p).tree.is_some() ==> grouped(operand(s, p).tree.unwrap()),
    decreases unread(s, p), 3int,
{
    lemma_atom_grouped(s, p);
    let callee = atom(s, p);
    match callee.tree {
        Some(t) => {
            let q = at_least(p, callee.pos);
            if kind_of(s, q) == Some(TokenKind::OpenDelim { kind: DelimKind::Paren }) {
                lemma_list_grouped(s, q);
            }
        },
        None => {},
    }
}

pub proof fn lemma_atom_grouped(s: Seq<char>, p: int)
    ensures
        atom(s, p).tree.is_some() ==> grouped(atom(s, p).tree.unwrap()),
    decreases unread(s, p), 2int,
{
    let q = skip_ws(s, p);
    lemma_after_moves_on(s, p);
    if 0 <= p <= q < s.len() {
        match kind_at(s, q) {
            TokenKind::OpenDelim { kind: DelimKind::Paren } => {
                lemma_list_grouped(s, q);
            },
            TokenKind::OpenDelim { kind: DelimKind::Brace } => {
                lemma_block_grouped(s, q);
            },
            TokenKind::Ident => {
                lemma_word_grouped(s, q);
            },
            _ => {},
        }
    }
}

pub proof fn lemma_word_grouped(s: Seq<char>, p: int)
    requires
        0 <= p < s.len(),
    ensures
        word(s, p).tree.is_some() ==> grouped(word(s, p).tree.unwrap()),
    decreases unread(s, p), 1int,
{
    let q = after(s, p);
    lemma_after_moves_on(s, p);
    if lexeme_at(s, p) == kw_if() {
        lemma_conditional_grouped(s, q);
    } else if lexeme_at(s, p) == kw_let() {
        lemma_variable_grouped(s, q);
    } else if lexeme_at(s, p) == kw_fn() {
        assert(grouped(Tree::Null));
    } else if lexeme_at(s, p) == kw_null() {
    } else {
        lemma_symbol_grouped(s, p);
    }
}

pub proof fn lemma_conditional_grouped(s: Seq<char>, p: int)
    ensures
        conditional(s, p).tree.is_some() ==> grouped(conditional(s, p).tree.unwrap()),
    decreases unread(s, p), 6int,
{
    lemma_expr_grouped(s, p);
    let cond = expr(s, p);
    if cond.tree.is_some() {
        let q = at_least(p, cond.pos);
        lemma_expr_grouped(s, q);
        let first = expr(s, q);
        if first.tree.is_some() {
            let r = at_least(q, first.pos);
            lemma_after_moves_on(s, r);
            if is_word(s, r, kw_else()) {
                lemma_expr_grouped(s, after(s, r));
            }
        }
    }
}

pub proof fn lemma_variable_grouped(s: Seq<char>, p: int)
    ensures
        variable(s, p).tree.is_some() ==> grouped(variable(s, p).tree.unwrap()),
    decreases unread(s, p), 6int,
{
    match binding(s, p) {
        Some((is_mut, name, q)) => {
            let r = skip_ws(s, q);
            lemma_after_moves_on(s, r);
            if p <= r && kind_of(s, r) == Some(TokenKind::Eq) {
                lemma_expr_grouped(s, after(s, r));
            }
        },
        None => {},
    }
}

pub proof fn lemma_list_grouped(s: Seq<char>, p: int)
    requires
        0 <= p < s.len(),
    ensures
        list(s, p).trees.is_some() ==> all_grouped(list(s, p).trees.unwrap()),
    decreases unread(s, p), 1int,
{
    lemma_after_moves_on(s, p);
    let q = skip_ws(s, after(s, p));
    lemma_after_moves_on(s, after(s, p));
    if 0 <= p < q {
        if kind_of(s, q) == Some(TokenKind::CloseDelim { kind: DelimKind::Paren }) {
        } else {
            lemma_expr_grouped(s, q);
            let first = expr(s, q);
            match first.tree {
                Some(t) => {
                    lemma_list_tail_grouped(s, at_least(q, first.pos), seq![t], Seq::empty());
                },
                None => {},
            }
        }
    }
}

pub proof fn lemma_list_tail_grouped(
    s: Seq<char>,
    p: int,
    found: Seq<Tree>,
    errors: Seq<Error>,
)
    requires
        all_grouped(found),
    ensures
        list_tail(s, p, found, errors).trees.is_some() ==> all_grouped(
            list_tail(s, p, found, errors).trees.unwrap(),
        ),
    decreases unread(s, p), 6int,
{
    lemma_after_moves_on(s, p);
    match kind_of(s, p) {
        Some(TokenKind::Comma) => {
            let q = after(s, p);
            lemma_expr_grouped(s, q);
            let next = expr(s, q);
            match next.tree {
                Some(t) => {
                    lemma_list_tail_grouped(
                        s,
                        at_least(q, next.pos),
                        found.push(t),
                        errors + next.errors,
                    );
                },
                None => {},
            }
        },
        _ => {},
    }
}

pub proof fn lemma_block_grouped(s: Seq<char>, p: int)
    requires
        0 <= p < s.len(),
    ensures
        block(s, p).trees.is_some() ==> all_grouped(block(s, p).trees.unwrap()),
    decreases unread(s, p), 1int,
{
    lemma_after_moves_on(s, p);
    lemma_sequence_grouped(s, after(s, p), Seq::empty(), Seq::empty());
}

pub proof fn lemma_sequence_grouped(
    s: Seq<char>,
    p: int,
    found: Seq<Tree>,
    errors: Seq<Error>,
)
    requires
        all_grouped(found),
    ensures
        sequence(s, p, found, errors).trees.is_some() ==> all_grouped(
            sequence(s, p, found, errors).trees.unwrap(),
        ),
    decreases unread(s, p), 6int,
{
    let q = skip_ws(s, p);
    lemma_after_moves_on(s, p);
    if 0 <= p <= q < s.len() {
        if kind_at(s, q) == (TokenKind::CloseDelim { kind: DelimKind::Brace }) {
        } else {
            lemma_expr_grouped(s, q);
            let next = expr(s, q);
            match next.tree {
                Some(t) => {
                    let r = at_least(q + 1, next.pos);
                    lemma_after_moves_on(s, r);
                    lemma_sequence_grouped(
                        s,
                        after_semi(s, r),
                        found.push(t),
                        errors + next.errors,
                    );
                },
                None => {},
            }
        }
    }
}

/// The root of every parse is grouped by precedence in all its parts.
pub proof fn lemma_program_grouped(s: Seq<char>, p: int, found: Seq<Tree>, errors: Seq<Error>)
    requires
        all_grouped(found),
    ensures
        program(s, p, found, errors).trees.is_some(),
        all_grouped(program(s, p, found, errors).trees.unwrap()),
        grouped(root(program(s, p, found, errors).trees.unwrap())),
    decreases unread(s, p),
{
    if 0 <= p < s.len() {
        lemma_expr_grouped(s, p);
        let next = expr(s, p);
        match next.tree {
            Some(t) => {
                let r = at_least(p + 1, next.pos);
                lemma_after_moves_on(s, r);
                lemma_program_grouped(s, after_semi(s, r), found.push(t), errors + next.errors);
            },
            None => {},
        }
    }
}

/// The byte length of a prefix of a text is a boundary between two
/// characters of its encoding.
pub proof fn lemma_prefix_is_boundary(s: Seq<char>, k: int)
    requires
        0 <= k <= s.len(),
    ensures
        is_char_boundary(encode_utf8(s), byte_len(s.take(k)) as int),
        byte_len(s.take(k)) <= byte_len(s),
    decreases k,
{
    vstd::utf8::encode_utf8_valid_utf8(s);
    lemma_byte_len_prefix(s, 0, k);
    if k == 0 {
        assert(s.take(0) =~= Seq::<char>::empty());
    } else {
        let bytes = encode_utf8(s);
        let rest = s.drop_first();
        vstd::utf8::encode_utf8_first_scalar(s);
        assert(vstd::utf8::pop_first_scalar(bytes) =~= encode_utf8(rest));
        lemma_prefix_is_boundary(rest, k - 1);
        assert(s.take(k) =~= seq![s[0]] + rest.take(k - 1));
        lemma_encode_concat(seq![s[0]], rest.take(k - 1));
        assert(seq![s[0]].drop_first() =~= Seq::<char>::empty());
        assert(encode_utf8(seq![s[0]]) =~= encode_scalar(s[0] as u32)) by {
            reveal_with_fuel(encode_utf8, 2);
        }
        assert(byte_len(s.take(k)) == encode_scalar(s[0] as u32).len() + byte_len(
            rest.take(k - 1),
        ));
        assert(encode_scalar(s[0] as u32).len() >= 1);
    }
}

/// Cutting the encoding of a text at the byte lengths of two prefixes
/// gives the encoding of the characters between them.
pub proof fn lemma_slice_is_subrange(s: Seq<char>, i: int, j: int)
    requires
        0 <= i <= j <= s.len(),
    ensures
        sliceable(
            encode_utf8(s),
            byte_len(s.take(i)) as int,
            byte_len(s.subrange(i, j)) as int,
        ),
        encode_utf8(s).subrange(
            byte_len(s.take(i)) as int,
            (byte_len(s.take(i)) + byte_len(s.subrange(i, j))) as int,
        ) == encode_utf8(s.subrange(i, j)),
        decode_utf8(
            encode_utf8(s).subrange(
                byte_len(s.take(i)) as int,
                (byte_len(s.take(i)) + byte_len(s.subrange(i, j))) as int,
            ),
        ) == s.subrange(i, j),
{
    lemma_prefix_is_boundary(s, i);
    lemma_prefix_is_boundary(s, j);
    lemma_byte_len_prefix(s, i, j);
    let head = s.take(i);
    let mid = s.subrange(i, j);
    let tail = s.skip(j);
    assert(s =~= head + mid + tail);
    lemma_encode_concat(head + mid, tail);
    lemma_encode_concat(head, mid);
    assert(encode_utf8(s).subrange(
        encode_utf8(head).len() as int,
        (encode_utf8(head).len() + encode_utf8(mid).len()) as int,
    ) =~= encode_utf8(mid));
    vstd::utf8::encode_utf8_decode_utf8(mid);
}

/// Span fidelity: the bytes of the source from `index` to `index + size`
/// of the token that starts at `i` are the encoding of its lexeme, and the
/// span begins and ends between two characters.
pub proof fn lemma_span_fidelity(s: Seq<char>, i: int)
    requires
        0 <= i < s.len(),
        byte_len(s) <= usize::MAX,
    ensures
        sliceable(encode_utf8(s), token_at(s, i).index as int, token_at(s, i).size as int),
        encode_utf8(s).subrange(
            token_at(s, i).index as int,
            token_at(s, i).index + token_at(s, i).size,
        ) == encode_utf8(lexeme_at(s, i)),
        decode_utf8(
            encode_utf8(s).subrange(
                token_at(s, i).index as int,
                token_at(s, i).index + token_at(s, i).size,
            ),
        ) == lexeme_at(s, i),
        token_at(s, i).index + token_at(s, i).size <= byte_len(s),
{
    lemma_token_advances(s, i);
    let j = end_at(s, i);
    lemma_byte_len_prefix(s, i, j);
    lemma_byte_len_prefix(s, 0, i);
    lemma_slice_is_subrange(s, i, j);
}

/// Every character of a run belongs to the class of the run.
pub proof fn lemma_run_members(s: Seq<char>, i: int, class: CharClass)
    requires
        0 <= i <= s.len(),
    ensures
        i <= run_end(s, i, class) <= s.len(),
        forall|k: int| i <= k < run_end(s, i, class) ==> in_class(class, #[trigger] s[k]),
    decreases s.len() - i,
{
    if i < s.len() && in_class(class, s[i]) {
        lemma_run_members(s, i + 1, class);
    }
}

/// A text of characters below 128 takes one byte for each.
pub proof fn lemma_ascii_byte_len(s: Seq<char>)
    requires
        forall|k: int| 0 <= k < s.len() ==> (#[trigger] s[k] as u32) < 0x80,
    ensures
        byte_len(s) == s.len(),
    decreases s.len(),
{
    if s.len() > 0 {
        let n = s.len() - 1;
        assert forall|k: int| 0 <= k < s.drop_last().len() implies (#[trigger] s.drop_last()[k]
            as u32) < 0x80 by {
            assert(s.drop_last()[k] == s[k]);
        }
        lemma_ascii_byte_len(s.drop_last());
        lemma_byte_len_step(s, n);
        assert(s.take(n) =~= s.drop_last());
        assert(s.take(n + 1) =~= s);
    } else {
        assert(encode_utf8(s) =~= Seq::<u8>::empty());
    }
}

/// A numeric literal holds characters below 128 only, so in it an offset
/// in bytes is an offset in characters: the suffix offset that the lexer
/// records is the number of characters before the suffix, and the size of
/// the token is the number of its characters.
pub proof fn lemma_number_offsets(s: Seq<char>, i: int)
    requires
        0 <= i < s.len(),
        spec_is_digit(s[i], 10),
        byte_len(s) <= usize::MAX,
    ensures
        number_kind(s, i).spec_suff_off() == if scan_number(s, i).suffixed {
            Some((scan_number(s, i).digits_end - i) as usize)
        } else {
            None
        },
        byte_len(s.subrange(i, scan_number(s, i).end)) == scan_number(s, i).end - i,
{
    let n = scan_number(s, i);
    let class = digit_class(n.base);
    let from = if n.base.is_some() {
        i + 2
    } else {
        i + 1
    };
    lemma_scan_number_bounds(s, i);
    lemma_run_members(s, from, class);
    let whole_end = run_end(s, from, class);
    if n.float {
        lemma_run_members(s, whole_end + 1, class);
    }
    if n.suffixed {
        lemma_run_members(s, n.digits_end + 1, CharClass::Alnum);
    }
    assert('0' as u32 == 48 && '9' as u32 == 57 && 'a' as u32 == 97 && 'z' as u32 == 122 && 'A'
        as u32 == 65 && 'Z' as u32 == 90 && '.' as u32 == 46);
    assert forall|k: int| i <= k < n.end implies (#[trigger] s[k] as u32) < 0x80 by {
        if k == i {
        } else if k < from {
        } else if k < whole_end {
            assert(in_class(class, s[k]));
        } else if k < n.digits_end {
            if k > whole_end {
                assert(in_class(class, s[k]));
            }
        } else if k > n.digits_end {
            assert(in_class(CharClass::Alnum, s[k]));
        }
    }
    let all = s.subrange(i, n.end);
    let digits = s.subrange(i, n.digits_end);
    assert forall|k: int| 0 <= k < all.len() implies (#[trigger] all[k] as u32) < 0x80 by {
        assert(all[k] == s[i + k]);
    }
    assert forall|k: int| 0 <= k < digits.len() implies (#[trigger] digits[k] as u32) < 0x80 by {
        assert(digits[k] == s[i + k]);
    }
    lemma_ascii_byte_len(all);
    lemma_ascii_byte_len(digits);
    lemma_byte_len_prefix(s, i, n.digits_end);
}

/// The tokens tile the source: each one begins at the byte where the one
/// before it ended.
pub proof fn lemma_tokens_adjoin(s: Seq<char>, i: int)
    requires
        0 <= i < s.len(),
        end_at(s, i) < s.len(),
        byte_len(s) <= usize::MAX,
    ensures
        token_at(s, end_at(s, i)).index == token_at(s, i).index + token_at(s, i).size,
{
    lemma_token_advances(s, i);
    lemma_byte_len_prefix(s, i, end_at(s, i));
    lemma_byte_len_prefix(s, 0, i);
    lemma_byte_len_prefix(s, 0, end_at(s, i));
}


/// Whether a construct read from `p` ends at or after `p`, and after `p`
/// if it succeeded.
pub open spec fn moves_on(r: Parsed, p: int) -> bool {
    r.pos >= p && (r.tree.is_some() ==> r.pos > p)
}

/// The place after a token lies after the token's start.
pub proof fn lemma_after_moves_on(s: Seq<char>, p: int)
    ensures
        after(s, p) >= p,
        0 <= p < s.len() ==> after(s, p) > p,
        skip_ws(s, p) >= p,
        after_semi(s, p) >= p,
        match operator(s, p) {
            Some((k, r)) => r > p && 0 <= p < s.len(),
            None => true,
        },
{
    reveal(operator);
}

/// Names: the parser never moves backwards, and a name consumes its token.
pub proof fn lemma_symbol_moves_on(s: Seq<char>, p: int)
    requires
        0 <= p < s.len(),
    ensures
        moves_on(symbol(s, p), p),
    decreases unread(s, p), 0int,
{
    let q = after(s, p);
    lemma_after_moves_on(s, p);
    lemma_after_moves_on(s, q);
    let r = after(s, q);
    if kind_of(s, q) == Some(TokenKind::Colon)
        && kind_of(s, r) == Some(TokenKind::Ident) {
        lemma_symbol_moves_on(s, r);
    }
}

/// Expressions: the parser never moves backwards, and an expression that
/// succeeds consumes at least one character.
pub proof fn lemma_expr_moves_on(s: Seq<char>, p: int)
    ensures
        moves_on(expr(s, p), p),
    decreases unread(s, p), 5int,
{
    lemma_operand_moves_on(s, p);
    let first = operand(s, p);
    match first.tree {
        Some(t) => {
            lemma_chain_moves_on(s, at_least(p, first.pos), t, Seq::empty());
        },
        None => {},
    }
}

pub proof fn lemma_chain_moves_on(s: Seq<char>, p: int, left: Tree, errors: Seq<Error>)
    ensures
        chain(s, p, left, errors).pos >= p,
    decreases unread(s, p), 4int,
{
    let q = skip_ws(s, p);
    lemma_after_moves_on(s, p);
    lemma_after_moves_on(s, q);
    match operator(s, q) {
        Some((op, r)) => {
            if p <= q < r && q < s.len() {
                lemma_operand_moves_on(s, r);
                let rhs = operand(s, r);
                match rhs.tree {
                    Some(t) => {
                        lemma_chain_moves_on(
                            s,
                            at_least(r, rhs.pos),
                            attach(left, op, t),
                            errors + rhs.errors,
                        );
                    },
                    None => {},
                }
            }
        },
        None => {},
    }
}

pub proof fn lemma_operand_moves_on(s: Seq<char>, p: int)
    ensures
        moves_on(operand(s, p), p),
    decreases unread(s, p), 3int,
{
    lemma_atom_moves_on(s, p);
    let callee = atom(s, p);
    match callee.tree {
        Some(t) => {
            let q = at_least(p, callee.pos);
            if kind_of(s, q) == Some(
                TokenKind::OpenDelim { kind: DelimKind::Paren },
            ) {
                lemma_list_moves_on(s, q);
            }
        },
        None => {},
    }
}

pub proof fn lemma_atom_moves_on(s: Seq<char>, p: int)
    ensures
        moves_on(atom(s, p), p),
    decreases unread(s, p), 2int,
{
    let q = skip_ws(s, p);
    lemma_after_moves_on(s, p);
    lemma_after_moves_on(s, q);
    if 0 <= p <= q < s.len() {
        match kind_at(s, q) {
            TokenKind::OpenDelim { kind: DelimKind::Paren } => {
                lemma_list_moves_on(s, q);
            },
            TokenKind::OpenDelim { kind: DelimKind::Brace } => {
                lemma_block_moves_on(s, q);
            },
            TokenKind::Ident => {
                lemma_word_moves_on(s, q);
            },
            _ => {},
        }
    }
}

pub proof fn lemma_word_moves_on(s: Seq<char>, p: int)
    requires
        0 <= p < s.len(),
    ensures
        moves_on(word(s, p), p),
    decreases unread(s, p), 1int,
{
    let q = after(s, p);
    lemma_after_moves_on(s, p);
    if lexeme_at(s, p) == kw_if() {
        lemma_conditional_moves_on(s, q);
    } else if lexeme_at(s, p) == kw_let() {
        lemma_variable_moves_on(s, q);
    } else if lexeme_at(s, p) == kw_fn() {
        lemma_after_moves_on(s, q);
        lemma_after_moves_on(s, skip_ws(s, q));
    } else if lexeme_at(s, p) == kw_null() {
    } else {
        lemma_symbol_moves_on(s, p);
    }
}

pub proof fn lemma_conditional_moves_on(s: Seq<char>, p: int)
    ensures
        conditional(s, p).pos >= p,
    decreases unread(s, p), 6int,
{
    lemma_expr_moves_on(s, p);
    let cond = expr(s, p);
    if cond.tree.is_some() {
        let q = at_least(p, cond.pos);
        lemma_expr_moves_on(s, q);
        let first = expr(s, q);
        if first.tree.is_some() {
            let r = at_least(q, first.pos);
            lemma_after_moves_on(s, r);
            if is_word(s, r, kw_else()) {
                lemma_expr_moves_on(s, after(s, r));
            }
        }
    }
}

pub proof fn lemma_variable_moves_on(s: Seq<char>, p: int)
    ensures
        variable(s, p).pos >= p,
    decreases unread(s, p), 6int,
{
    lemma_after_moves_on(s, p);
    let q0 = skip_ws(s, p);
    lemma_after_moves_on(s, q0);
    let q1 = skip_ws(s, after(s, q0));
    lemma_after_moves_on(s, after(s, q0));
    lemma_after_moves_on(s, q1);
    match binding(s, p) {
        Some((is_mut, name, q)) => {
            let r = skip_ws(s, q);
            lemma_after_moves_on(s, q);
            lemma_after_moves_on(s, r);
            if p <= r && kind_of(s, r) == Some(TokenKind::Eq) {
                lemma_expr_moves_on(s, after(s, r));
            }
        },
        None => {},
    }
}

pub proof fn lemma_list_moves_on(s: Seq<char>, p: int)
    requires
        0 <= p < s.len(),
    ensures
        list(s, p).pos > p,
    decreases unread(s, p), 1int,
{
    lemma_after_moves_on(s, p);
    let q = skip_ws(s, after(s, p));
    lemma_after_moves_on(s, after(s, p));
    lemma_after_moves_on(s, q);
    if 0 <= p < q {
        if kind_of(s, q) == Some(
            TokenKind::CloseDelim { kind: DelimKind::Paren },
        ) {
        } else {
            lemma_expr_moves_on(s, q);
            let first = expr(s, q);
            match first.tree {
                Some(t) => {
                    lemma_list_tail_moves_on(s, at_least(q, first.pos), seq![t], Seq::empty());
                },
                None => {},
            }
        }
    }
}

pub proof fn lemma_list_tail_moves_on(
    s: Seq<char>,
    p: int,
    found: Seq<Tree>,
    errors: Seq<Error>,
)
    ensures
        list_tail(s, p, found, errors).pos >= p,
    decreases unread(s, p), 6int,
{
    lemma_after_moves_on(s, p);
    match kind_of(s, p) {
        Some(TokenKind::Comma) => {
            let q = after(s, p);
            lemma_expr_moves_on(s, q);
            let next = expr(s, q);
            match next.tree {
                Some(t) => {
                    lemma_list_tail_moves_on(
                        s,
                        at_least(q, next.pos),
                        found.push(t),
                        errors + next.errors,
                    );
                },
                None => {},
            }
        },
        _ => {},
    }
}

pub proof fn lemma_block_moves_on(s: Seq<char>, p: int)
    requires
        0 <= p < s.len(),
    ensures
        block(s, p).pos > p,
    decreases unread(s, p), 1int,
{
    lemma_after_moves_on(s, p);
    lemma_sequence_moves_on(s, after(s, p), Seq::empty(), Seq::empty());
}

pub proof fn lemma_sequence_moves_on(
    s: Seq<char>,
    p: int,
    found: Seq<Tree>,
    errors: Seq<Error>,
)
    ensures
        sequence(s, p, found, errors).pos >= p,
    decreases unread(s, p), 6int,
{
    let q = skip_ws(s, p);
    lemma_after_moves_on(s, p);
    lemma_after_moves_on(s, q);
    if 0 <= p <= q < s.len() {
        if kind_at(s, q) == (TokenKind::CloseDelim {
            kind: DelimKind::Brace,
        }) {
        } else {
            lemma_expr_moves_on(s, q);
            let next = expr(s, q);
            match next.tree {
                Some(t) => {
                    let r = at_least(q + 1, next.pos);
                    lemma_after_moves_on(s, r);
                    lemma_sequence_moves_on(
                        s,
                        after_semi(s, r),
                        found.push(t),
                        errors + next.errors,
                    );
                },
                None => {},
            }
        }
    }
}

/// Programs: the parser never moves backwards.
pub proof fn lemma_program_moves_on(s: Seq<char>, p: int, found: Seq<Tree>, errors: Seq<Error>)
    ensures
        program(s, p, found, errors).pos >= p,
    decreases unread(s, p),
{
    if 0 <= p < s.len() {
        lemma_expr_moves_on(s, p);
        let next = expr(s, p);
        match next.tree {
            Some(t) => {
                let r = at_least(p + 1, next.pos);
                lemma_after_moves_on(s, r);
                lemma_program_moves_on(
                    s,
                    after_semi(s, r),
                    found.push(t),
                    errors + next.errors,
                );
            },
            None => {},
        }
    }
}

} // verus!
