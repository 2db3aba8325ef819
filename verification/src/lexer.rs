//! The lexer: one token per call, with one token of lookahead.

use vstd::prelude::*;
use crate::chars::byte_len;
use crate::chars::class_holds;
use crate::chars::is_digit;
use crate::chars::is_id_start;
use crate::chars::is_whitespace;
use crate::chars::lemma_byte_len_prefix;
use crate::chars::CharClass;
use crate::cursor::char_at;
use crate::cursor::Cursor;
use crate::scan::block_comment_end;
use crate::scan::digit_class;
use crate::scan::end_at;
use crate::scan::kind_at;
use crate::scan::lemma_run_end_bounds;
use crate::scan::lemma_token_advances;
use crate::scan::line_comment_end;
use crate::scan::number_kind;
use crate::scan::prefix_base;
use crate::scan::run_end;
use crate::scan::scan_number;
use crate::scan::spec_punctuation;
use crate::scan::starts_suffix;
use crate::scan::string_end;
use crate::scan::token_at;
use crate::token::DelimKind;
use crate::token::LitKind;
use crate::token::NumBase;
use crate::token::Token;
use crate::token::TokenKind;

verus! {

/// The kind of a token that consists of the one character `c`, if there is such a kind.
pub fn punctuation(c: char) -> (r: Option<TokenKind>)
    ensures
        r == spec_punctuation(c),
{
    if c == '@' {
        Some(TokenKind::At)
    } else if c == '$' {
        Some(TokenKind::Dollar)
    } else if c == '&' {
        Some(TokenKind::And)
    } else if c == '|' {
        Some(TokenKind::Or)
    } else if c == ':' {
        Some(TokenKind::Colon)
    } else if c == '.' {
        Some(TokenKind::Dot)
    } else if c == ',' {
        Some(TokenKind::Comma)
    } else if c == '(' {
        Some(TokenKind::OpenDelim { kind: DelimKind::Paren })
    } else if c == ')' {
        Some(TokenKind::CloseDelim { kind: DelimKind::Paren })
    } else if c == '[' {
        Some(TokenKind::OpenDelim { kind: DelimKind::Bracket })
    } else if c == ']' {
        Some(TokenKind::CloseDelim { kind: DelimKind::Bracket })
    } else if c == '{' {
        Some(TokenKind::OpenDelim { kind: DelimKind::Brace })
    } else if c == '}' {
        Some(TokenKind::CloseDelim { kind: DelimKind::Brace })
    } else if c == ';' {
        Some(TokenKind::Semi)
    } else if c == '+' {
        Some(TokenKind::Add)
    } else if c == '-' {
        Some(TokenKind::Sub)
    } else if c == '*' {
        Some(TokenKind::Mul)
    } else if c == '?' {
        Some(TokenKind::Question)
    } else if c == '!' {
        Some(TokenKind::Not)
    } else if c == '#' {
        Some(TokenKind::Hash)
    } else if c == '=' {
        Some(TokenKind::Eq)
    } else if c == '<' {
        Some(TokenKind::Lt)
    } else if c == '>' {
        Some(TokenKind::Gt)
    } else if c == '%' {
        Some(TokenKind::Percent)
    } else {
        None
    }
}

fn class_of(base: Option<NumBase>) -> (c: CharClass)
    ensures
        c == digit_class(base),
{
    match base {
        Some(NumBase::Bin) => CharClass::BinDigit,
        Some(NumBase::Oct) => CharClass::OctDigit,
        Some(NumBase::Hex) => CharClass::HexDigit,
        _ => CharClass::DecDigit,
    }
}

/// A lexer over a text. It keeps the token that comes next ready: `peek`
/// shows it and `next` hands it out.
#[derive(Debug)]
pub struct Lexer {
    input: Cursor,
    cur_tok: Option<Token>,
    start: usize,
    end: usize,
}

impl Lexer {
    /// The text that is lexed.
    pub closed spec fn source(&self) -> Seq<char> {
        self.input.source()
    }

    /// How many characters the cursor has consumed.
    pub closed spec fn position(&self) -> int {
        self.input.position()
    }

    /// The token held ready, if there is one.
    pub closed spec fn lookahead(&self) -> Option<Token> {
        self.cur_tok
    }

    /// Where the token held ready starts.
    pub closed spec fn span_start(&self) -> int {
        self.start as int
    }

    /// Where the token held ready ends.
    pub closed spec fn span_end(&self) -> int {
        self.end as int
    }

    /// The cursor is sound and stands between two tokens.
    pub closed spec fn at_boundary(&self) -> bool {
        self.input.wf() && self.input.mark() == self.input.position()
    }

    /// The token held ready is a token of the text that ends at or before
    /// the cursor; without one, the cursor is at the end of the text.
    pub open spec fn wf(&self) -> bool {
        &&& self.at_boundary()
        &&& 0 <= self.position() <= self.source().len()
        &&& match self.lookahead() {
            Some(t) => {
                &&& 0 <= self.span_start() < self.source().len()
                &&& self.span_end() == end_at(self.source(), self.span_start())
                &&& self.span_end() <= self.position()
                &&& t == token_at(self.source(), self.span_start())
            },
            None => self.position() == self.source().len(),
        }
    }

    /// The token held ready ends where the cursor stands: nothing was read past it.
    pub open spec fn aligned(&self) -> bool {
        self.lookahead().is_some() ==> self.span_end() == self.position()
    }

    /// Where the tokens that `next` has not yet handed out begin.
    pub open spec fn pending(&self) -> int {
        if self.lookahead().is_some() {
            self.span_start()
        } else {
            self.position()
        }
    }

    /// A lexer at the start of `code`, with the first token held ready.
    pub fn new(code: &str) -> (l: Lexer)
        ensures
            l.wf(),
            l.aligned(),
            l.source() == code@,
            l.pending() == 0,
            l.lookahead() == if code@.len() > 0 {
                Some(token_at(code@, 0))
            } else {
                None
            },
    {
        let mut l = Lexer { input: Cursor::new(code), cur_tok: None, start: 0, end: 0 };
        let tok = l.scan_token();
        l.cur_tok = tok;
        l.end = l.input.offset();
        l
    }

    /// Whether every token has been handed out.
    pub fn eof(&mut self) -> (r: bool)
        requires
            old(self).wf(),
        ensures
            *final(self) == *old(self),
            r == old(self).lookahead().is_none(),
            r == (old(self).position() == old(self).source().len() && old(self).lookahead().is_none()),
    {
        let at_end = self.input.eof();
        at_end && self.cur_tok.is_none()
    }

    /// The token that `next` would hand out.
    pub fn peek(&mut self) -> (r: Option<&Token>)
        requires
            old(self).wf(),
        ensures
            *final(self) == *old(self),
            match r {
                Some(t) => old(self).lookahead() == Some(*t),
                None => old(self).lookahead().is_none(),
            },
    {
        if self.cur_tok.is_none() {
            let tok = self.scan_token();
            self.cur_tok = tok;
        }
        self.cur_tok.as_ref()
    }

    /// Hands out the token held ready and reads the one after it.
    pub fn next(&mut self) -> (r: Option<Token>)
        requires
            old(self).wf(),
        ensures
            final(self).wf(),
            final(self).aligned(),
            final(self).source() == old(self).source(),
            r == old(self).lookahead(),
            final(self).pending() == old(self).position(),
            final(self).lookahead() == if old(self).position() < old(self).source().len() {
                Some(token_at(old(self).source(), old(self).position()))
            } else {
                None
            },
    {
        let tok = self.cur_tok;
        let start = self.input.offset();
        let read = self.scan_token();
        self.cur_tok = read;
        self.start = start;
        self.end = self.input.offset();
        tok
    }

    /// Reads the token at the cursor, past the token held ready. At the end
    /// of the text there is none, and no token is held ready any more.
    pub fn read_token(&mut self) -> (r: Option<Token>)
        requires
            old(self).wf(),
        ensures
            final(self).wf(),
            final(self).source() == old(self).source(),
            r == if old(self).position() < old(self).source().len() {
                Some(token_at(old(self).source(), old(self).position()))
            } else {
                None
            },
            r.is_some() ==> final(self).position() == end_at(
                old(self).source(),
                old(self).position(),
            ) && final(self).lookahead() == old(self).lookahead() && final(self).span_start()
                == old(self).span_start() && final(self).span_end() == old(self).span_end(),
            r.is_none() ==> final(self).position() == old(self).position() && final(self).lookahead().is_none(),
    {
        let tok = self.scan_token();
        if tok.is_none() {
            self.cur_tok = None;
        }
        tok
    }

    /// The byte length of the text fits the machine.
    pub proof fn lemma_source_fits(&self)
        requires
            self.wf(),
        ensures
            byte_len(self.source()) <= usize::MAX,
    {
    }

    /// The token held ready, if there is one.
    pub fn current(&self) -> (r: Option<Token>)
        ensures
            r == self.lookahead(),
    {
        self.cur_tok
    }

    /// The characters of the token held ready.
    pub fn lexeme(&self) -> (r: &[char])
        requires
            self.wf(),
            self.lookahead().is_some(),
        ensures
            r@ == self.source().subrange(self.span_start(), self.span_end()),
    {
        proof {
            lemma_token_advances(self.source(), self.span_start());
        }
        self.input.text(self.start, self.end)
    }

    /// Reads the token at the cursor and leaves the token held ready as it is.
    fn scan_token(&mut self) -> (r: Option<Token>)
        requires
            old(self).at_boundary(),
        ensures
            final(self).at_boundary(),
            final(self).input.source() == old(self).input.source(),
            final(self).cur_tok == old(self).cur_tok,
            final(self).start == old(self).start,
            final(self).end == old(self).end,
            old(self).input.position() <= final(self).input.position() <= old(self).input.source().len(),
            r == if old(self).input.position() < old(self).input.source().len() {
                Some(token_at(old(self).input.source(), old(self).input.position()))
            } else {
                None
            },
            r.is_some() ==> final(self).input.position() == end_at(
                old(self).input.source(),
                old(self).input.position(),
            ),
            r.is_none() ==> final(self).input == old(self).input,
    {
        let ghost src = self.input.source();
        let ghost i = self.input.position();
        let ch = match self.input.next() {
            Some(c) => c,
            None => {
                return None;
            },
        };
        proof {
            reveal(kind_at);
            reveal(end_at);
            lemma_token_advances(src, i);
        }
        let kind = match punctuation(ch) {
            Some(k) => k,
            None => {
                if ch == '/' {
                    Self::read_div_or_comment(&mut self.input)
                } else if ch == '"' {
                    Self::read_double_quoted_string(&mut self.input)
                } else if ch == '\'' {
                    Self::read_single_quoted_string(&mut self.input)
                } else if is_digit(ch, 10) {
                    Self::read_number(&mut self.input, ch)
                } else if is_id_start(ch) {
                    Self::read_ident(&mut self.input)
                } else if is_whitespace(ch) {
                    Self::eat_whitespace(&mut self.input)
                } else {
                    TokenKind::Unkown
                }
            },
        };
        assert(kind == kind_at(src, i));
        assert(self.input.position() == end_at(src, i));
        proof {
            lemma_byte_len_prefix(src, i, self.input.position());
        }
        let size = self.input.get_len();
        let token = Token { kind, index: self.input.get_index() - size, size };
        self.input.reset_len();
        Some(token)
    }

    /// Consumes the longest run of characters of `class`.
    fn eat_while(input: &mut Cursor, class: CharClass)
        requires
            old(input).wf(),
        ensures
            final(input).moved_from(
                old(input),
                run_end(old(input).source(), old(input).position(), class),
            ),
    {
        let ghost src = input.source();
        let ghost from = input.position();
        loop
            invariant
                input.moved_from(old(input), input.position()),
                src == input.source(),
                from == old(input).position(),
                run_end(src, input.position(), class) == run_end(src, from, class),
            ensures
                input.moved_from(old(input), run_end(src, from, class)),
            decreases src.len() - input.position(),
        {
            match input.peek() {
                Some(c) => {
                    if class_holds(class, c) {
                        input.next();
                    } else {
                        break;
                    }
                },
                None => {
                    break;
                },
            }
        }
    }

    /// Reads the rest of the number whose first digit, `first`, was consumed.
    fn read_number(input: &mut Cursor, first: char) -> (r: TokenKind)
        requires
            old(input).wf(),
            old(input).position() >= 1,
            old(input).mark() == old(input).position() - 1,
            old(input).source()[old(input).position() - 1] == first,
        ensures
            final(input).moved_from(
                old(input),
                scan_number(old(input).source(), old(input).mark()).end,
            ),
            r == (TokenKind::Lit { kind: number_kind(old(input).source(), old(input).mark()) }),
    {
        let base = if first == '0' {
            match input.peek() {
                Some('b') => Some(NumBase::Bin),
                Some('o') => Some(NumBase::Oct),
                Some('x') => Some(NumBase::Hex),
                _ => None,
            }
        } else {
            None
        };
        if base.is_some() {
            input.next();
        }
        Self::eat_number(input, base)
    }

    /// Reads the digits, the fraction and the suffix of a number whose
    /// prefix, if any, was consumed.
    fn eat_number(input: &mut Cursor, base: Option<NumBase>) -> (r: TokenKind)
        requires
            old(input).wf(),
            0 <= old(input).mark() < old(input).source().len(),
            base == prefix_base(old(input).source(), old(input).mark()),
            old(input).position() == old(input).mark() + (if base.is_some() {
                2int
            } else {
                1int
            }),
        ensures
            final(input).moved_from(
                old(input),
                scan_number(old(input).source(), old(input).mark()).end,
            ),
            r == (TokenKind::Lit { kind: number_kind(old(input).source(), old(input).mark()) }),
    {
        let ghost src = input.source();
        let ghost i = input.mark();
        let ghost scan = scan_number(src, i);
        let class = class_of(base);
        proof {
            crate::scan::lemma_scan_number_bounds(src, i);
            lemma_run_end_bounds(src, input.position(), class);
        }
        Self::eat_while(input, class);
        let float = match (input.peek(), input.preview()) {
            (Some('.'), Some(d)) => class_holds(class, d),
            _ => false,
        };
        assert(float == scan.float);
        if float {
            input.next();
            Self::eat_while(input, class);
        }
        assert(input.position() == scan.digits_end);
        let suffixed = match input.peek() {
            Some(c) => c == 'u' || c == 'i' || c == 'f',
            None => false,
        };
        assert(suffixed == scan.suffixed);
        let suff_off = if suffixed {
            Some(input.get_len())
        } else {
            None
        };
        Self::eat_num_suffix(input);
        if float {
            TokenKind::Lit { kind: LitKind::Float { base, suff_off } }
        } else {
            TokenKind::Lit { kind: LitKind::Int { base, suff_off } }
        }
    }

    /// Consumes a suffix, if one starts at the cursor: `u`, `i` or `f` and
    /// the ASCII letters and digits that follow.
    fn eat_num_suffix(input: &mut Cursor)
        requires
            old(input).wf(),
        ensures
            final(input).moved_from(
                old(input),
                match char_at(old(input).source(), old(input).position()) {
                    Some(c) => if starts_suffix(c) {
                        run_end(old(input).source(), old(input).position() + 1, CharClass::Alnum)
                    } else {
                        old(input).position()
                    },
                    None => old(input).position(),
                },
            ),
    {
        let suffixed = match input.peek() {
            Some(c) => c == 'u' || c == 'i' || c == 'f',
            None => false,
        };
        if suffixed {
            proof {
                lemma_run_end_bounds(input.source(), input.position() + 1, CharClass::Alnum);
            }
            input.next();
            Self::eat_while(input, CharClass::Alnum);
        }
    }

    /// Consumes a string up to and with the closing `quote`.
    fn eat_string(input: &mut Cursor, quote: char)
        requires
            old(input).wf(),
            old(input).position() >= 1,
            old(input).source()[old(input).position() - 1] == quote,
        ensures
            final(input).moved_from(
                old(input),
                string_end(old(input).source(), old(input).position(), quote),
            ),
    {
        let ghost src = input.source();
        let ghost from = input.position();
        let mut prev = quote;
        loop
            invariant_except_break
                input.position() >= 1,
                prev == src[input.position() - 1],
                string_end(src, input.position(), quote) == string_end(src, from, quote),
            invariant
                input.moved_from(old(input), input.position()),
                src == input.source(),
                from == old(input).position(),
            ensures
                input.moved_from(old(input), string_end(src, from, quote)),
            decreases src.len() - input.position(),
        {
            match input.next() {
                Some(c) => {
                    if c == quote && prev != '\\' {
                        break;
                    }
                    prev = c;
                },
                None => {
                    break;
                },
            }
        }
    }

    fn read_double_quoted_string(input: &mut Cursor) -> (r: TokenKind)
        requires
            old(input).wf(),
            old(input).position() >= 1,
            old(input).source()[old(input).position() - 1] == '"',
        ensures
            final(input).moved_from(
                old(input),
                string_end(old(input).source(), old(input).position(), '"'),
            ),
            r == (TokenKind::Lit { kind: LitKind::Str }),
    {
        Self::eat_string(input, '"');
        TokenKind::Lit { kind: LitKind::Str }
    }

    fn read_single_quoted_string(input: &mut Cursor) -> (r: TokenKind)
        requires
            old(input).wf(),
            old(input).position() >= 1,
            old(input).source()[old(input).position() - 1] == '\'',
        ensures
            final(input).moved_from(
                old(input),
                string_end(old(input).source(), old(input).position(), '\''),
            ),
            r == (TokenKind::Lit { kind: LitKind::Str }),
    {
        Self::eat_string(input, '\'');
        TokenKind::Lit { kind: LitKind::Str }
    }

    /// Decides what a `/` that was consumed begins, and reads it.
    fn read_div_or_comment(input: &mut Cursor) -> (r: TokenKind)
        requires
            old(input).wf(),
        ensures
            final(input).moved_from(
                old(input),
                match char_at(old(input).source(), old(input).position()) {
                    Some(c) => if c == '*' {
                        block_comment_end(old(input).source(), old(input).position() + 1)
                    } else if c == '/' {
                        line_comment_end(old(input).source(), old(input).position() + 1)
                    } else {
                        old(input).position()
                    },
                    None => old(input).position(),
                },
            ),
            r == match char_at(old(input).source(), old(input).position()) {
                Some(c) => if c == '*' {
                    TokenKind::BlockComment
                } else if c == '/' {
                    TokenKind::LineComment
                } else {
                    TokenKind::Div
                },
                None => TokenKind::Div,
            },
    {
        match input.peek() {
            Some('*') => Self::eat_block_comment(input),
            Some('/') => Self::eat_line_comment(input),
            _ => TokenKind::Div,
        }
    }

    /// Consumes the second `/` of a line comment and the comment up to and
    /// with the end of the line.
    fn eat_line_comment(input: &mut Cursor) -> (r: TokenKind)
        requires
            old(input).wf(),
            old(input).position() < old(input).source().len(),
        ensures
            final(input).moved_from(
                old(input),
                line_comment_end(old(input).source(), old(input).position() + 1),
            ),
            r == TokenKind::LineComment,
    {
        let ghost src = input.source();
        let ghost from = input.position() + 1;
        input.next();
        loop
            invariant_except_break
                input.position() >= from,
                line_comment_end(src, input.position()) == line_comment_end(src, from),
            invariant
                input.moved_from(old(input), input.position()),
                src == input.source(),
                from == old(input).position() + 1,
            ensures
                input.moved_from(old(input), line_comment_end(src, from)),
            decreases src.len() - input.position(),
        {
            match input.next() {
                Some(c) => {
                    if c == '\n' {
                        match input.peek() {
                            Some('\r') => {
                                input.next();
                            },
                            _ => {},
                        }
                        break;
                    }
                },
                None => {
                    break;
                },
            }
        }
        TokenKind::LineComment
    }

    /// Consumes the `*` that opens a block comment and the comment up to
    /// and with the first `*/`.
    fn eat_block_comment(input: &mut Cursor) -> (r: TokenKind)
        requires
            old(input).wf(),
            old(input).position() < old(input).source().len(),
        ensures
            final(input).moved_from(
                old(input),
                block_comment_end(old(input).source(), old(input).position() + 1),
            ),
            r == TokenKind::BlockComment,
    {
        let ghost src = input.source();
        let ghost from = input.position() + 1;
        input.next();
        loop
            invariant_except_break
                input.position() >= from,
                block_comment_end(src, input.position()) == block_comment_end(src, from),
            invariant
                input.moved_from(old(input), input.position()),
                src == input.source(),
                from == old(input).position() + 1,
            ensures
                input.moved_from(old(input), block_comment_end(src, from)),
            decreases src.len() - input.position(),
        {
            let closes = match (input.peek(), input.preview()) {
                (Some('*'), Some('/')) => true,
                _ => false,
            };
            if closes {
                input.next();
                input.next();
                break;
            }
            match input.next() {
                Some(_) => {},
                None => {
                    break;
                },
            }
        }
        TokenKind::BlockComment
    }

    /// Consumes the rest of an identifier.
    fn read_ident(input: &mut Cursor) -> (r: TokenKind)
        requires
            old(input).wf(),
        ensures
            final(input).moved_from(
                old(input),
                run_end(old(input).source(), old(input).position(), CharClass::IdContinue),
            ),
            r == TokenKind::Ident,
    {
        Self::eat_while(input, CharClass::IdContinue);
        TokenKind::Ident
    }

    /// Consumes the rest of a run of white space.
    fn eat_whitespace(input: &mut Cursor) -> (r: TokenKind)
        requires
            old(input).wf(),
        ensures
            final(input).moved_from(
                old(input),
                run_end(old(input).source(), old(input).position(), CharClass::Whitespace),
            ),
            r == TokenKind::Whitespace,
    {
        Self::eat_while(input, CharClass::Whitespace);
        TokenKind::Whitespace
    }
}

} // verus!
