//! Where the token that starts at a given place of a text ends, and of what
//! kind it is.

use vstd::prelude::*;
use crate::chars::byte_len;
use crate::chars::in_class;
use crate::chars::spec_is_digit;
use crate::chars::spec_is_id_start;
use crate::chars::spec_is_whitespace;
use crate::chars::CharClass;
use crate::token::DelimKind;
use crate::token::LitKind;
use crate::token::NumBase;
use crate::token::Token;
use crate::token::TokenKind;

verus! {

/// The end of the longest run of characters of `class` that starts at `i`.
pub open spec fn run_end(s: Seq<char>, i: int, class: CharClass) -> int
    decreases s.len() - i,
{
    if 0 <= i < s.len() && in_class(class, s[i]) {
        run_end(s, i + 1, class)
    } else {
        i
    }
}

/// The place just after the first `quote` at or after `i` that has no
/// backslash right before it, or the end of the text if there is none.
pub open spec fn string_end(s: Seq<char>, i: int, quote: char) -> int
    decreases s.len() - i,
{
    if i < 1 || i >= s.len() {
        i
    } else if s[i] == quote && s[i - 1] != '\\' {
        i + 1
    } else {
        string_end(s, i + 1, quote)
    }
}

/// The place just after the first `*/` at or after `i`, or the end of the
/// text if there is none.
pub open spec fn block_comment_end(s: Seq<char>, i: int) -> int
    decreases s.len() - i,
{
    if i < 0 || i >= s.len() {
        i
    } else if i + 1 < s.len() && s[i] == '*' && s[i + 1] == '/' {
        i + 2
    } else {
        block_comment_end(s, i + 1)
    }
}

/// The place just after the first line feed at or after `i`, and after the
/// carriage return that follows it if one does; the end of the text if there
/// is no line feed.
pub open spec fn line_comment_end(s: Seq<char>, i: int) -> int
    decreases s.len() - i,
{
    if i < 0 || i >= s.len() {
        i
    } else if s[i] == '\n' {
        if i + 1 < s.len() && s[i + 1] == '\r' {
            i + 2
        } else {
            i + 1
        }
    } else {
        line_comment_end(s, i + 1)
    }
}

/// The kind of a token that consists of the one character `c`, if there is such a kind.
pub open spec fn spec_punctuation(c: char) -> Option<TokenKind> {
    if c == '@' {
        Some(TokenKind::At)
    } else if c == '$' {
        Some(TokenKind::Dollar)
    } else if c == '&' {
        Some(TokenKind::And)
    } else if c == '|' {
        Some(TokenKind::Or)
    } else if c == ':' {
        Some(TokenKind::Colon)
    } else if c == '.' {
        Some(TokenKind::Dot)
    } else if c == ',' {
        Some(TokenKind::Comma)
    } else if c == '(' {
        Some(TokenKind::OpenDelim { kind: DelimKind::Paren })
    } else if c == ')' {
        Some(TokenKind::CloseDelim { kind: DelimKind::Paren })
    } else if c == '[' {
        Some(TokenKind::OpenDelim { kind: DelimKind::Bracket })
    } else if c == ']' {
        Some(TokenKind::CloseDelim { kind: DelimKind::Bracket })
    } else if c == '{' {
        Some(TokenKind::OpenDelim { kind: DelimKind::Brace })
    } else if c == '}' {
        Some(TokenKind::CloseDelim { kind: DelimKind::Brace })
    } else if c == ';' {
        Some(TokenKind::Semi)
    } else if c == '+' {
        Some(TokenKind::Add)
    } else if c == '-' {
        Some(TokenKind::Sub)
    } else if c == '*' {
        Some(TokenKind::Mul)
    } else if c == '?' {
        Some(TokenKind::Question)
    } else if c == '!' {
        Some(TokenKind::Not)
    } else if c == '#' {
        Some(TokenKind::Hash)
    } else if c == '=' {
        Some(TokenKind::Eq)
    } else if c == '<' {
        Some(TokenKind::Lt)
    } else if c == '>' {
        Some(TokenKind::Gt)
    } else if c == '%' {
        Some(TokenKind::Percent)
    } else {
        None
    }
}

/// The radix that the prefix of the number at `i` selects: `0b`, `0o` or
/// `0x`. Without such a prefix there is none, and the number is decimal.
pub open spec fn prefix_base(s: Seq<char>, i: int) -> Option<NumBase> {
    if s[i] == '0' && i + 1 < s.len() {
        if s[i + 1] == 'b' {
            Some(NumBase::Bin)
        } else if s[i + 1] == 'o' {
            Some(NumBase::Oct)
        } else if s[i + 1] == 'x' {
            Some(NumBase::Hex)
        } else {
            None
        }
    } else {
        None
    }
}

/// The digits of a radix; decimal where none is recorded.
pub open spec fn digit_class(base: Option<NumBase>) -> CharClass {
    match base {
        Some(NumBase::Bin) => CharClass::BinDigit,
        Some(NumBase::Oct) => CharClass::OctDigit,
        Some(NumBase::Hex) => CharClass::HexDigit,
        _ => CharClass::DecDigit,
    }
}

pub open spec fn starts_suffix(c: char) -> bool {
    c == 'u' || c == 'i' || c == 'f'
}

/// The parts of the numeric literal that starts with the decimal digit at `i`.
pub ghost struct NumberScan {
    /// The radix that a prefix selected.
    pub base: Option<NumBase>,
    /// Whether a `.` and a fraction follow the first run of digits.
    pub float: bool,
    /// Where the digits, fraction included, end.
    pub digits_end: int,
    /// Whether a suffix follows the digits.
    pub suffixed: bool,
    /// Where the literal ends.
    pub end: int,
}

/// Scans the numeric literal at `i`: a prefix, if there is one; the longest
/// run of digits of the radix; a `.` with a further run, if a digit of the
/// radix follows the `.` at once; and a suffix, if `u`, `i` or `f` follows:
/// that letter with the longest run of ASCII letters and digits after it.
pub open spec fn scan_number(s: Seq<char>, i: int) -> NumberScan {
    let base = prefix_base(s, i);
    let class = digit_class(base);
    let from = if base.is_some() {
        i + 2
    } else {
        i + 1
    };
    let whole_end = run_end(s, from, class);
    let float = whole_end + 1 < s.len() && s[whole_end] == '.' && in_class(class, s[whole_end + 1]);
    let digits_end = if float {
        run_end(s, whole_end + 1, class)
    } else {
        whole_end
    };
    let suffixed = 0 <= digits_end < s.len() && starts_suffix(s[digits_end]);
    let end = if suffixed {
        run_end(s, digits_end + 1, CharClass::Alnum)
    } else {
        digits_end
    };
    NumberScan { base, float, digits_end, suffixed, end }
}

/// The kind of the numeric literal at `i`. The offset of a suffix counts the
/// bytes from the start of the literal.
pub open spec fn number_kind(s: Seq<char>, i: int) -> LitKind {
    let n = scan_number(s, i);
    let suff_off = if n.suffixed {
        Some(byte_len(s.subrange(i, n.digits_end)) as usize)
    } else {
        None
    };
    if n.float {
        LitKind::Float { base: n.base, suff_off }
    } else {
        LitKind::Int { base: n.base, suff_off }
    }
}

/// The kind of the token that starts at `i`, for `0 <= i < s.len()`.
#[verifier::opaque]
pub open spec fn kind_at(s: Seq<char>, i: int) -> TokenKind {
    let c = s[i];
    match spec_punctuation(c) {
        Some(k) => k,
        None => if c == '/' {
            if i + 1 < s.len() && s[i + 1] == '*' {
                TokenKind::BlockComment
            } else if i + 1 < s.len() && s[i + 1] == '/' {
                TokenKind::LineComment
            } else {
                TokenKind::Div
            }
        } else if c == '"' || c == '\'' {
            TokenKind::Lit { kind: LitKind::Str }
        } else if spec_is_digit(c, 10) {
            TokenKind::Lit { kind: number_kind(s, i) }
        } else if spec_is_id_start(c) {
            TokenKind::Ident
        } else if spec_is_whitespace(c) {
            TokenKind::Whitespace
        } else {
            TokenKind::Unkown
        },
    }
}

/// Where the token that starts at `i` ends, for `0 <= i < s.len()`.
#[verifier::opaque]
pub open spec fn end_at(s: Seq<char>, i: int) -> int {
    let c = s[i];
    if spec_punctuation(c).is_some() {
        i + 1
    } else if c == '/' {
        if i + 1 < s.len() && s[i + 1] == '*' {
            block_comment_end(s, i + 2)
        } else if i + 1 < s.len() && s[i + 1] == '/' {
            line_comment_end(s, i + 2)
        } else {
            i + 1
        }
    } else if c == '"' || c == '\'' {
        string_end(s, i + 1, c)
    } else if spec_is_digit(c, 10) {
        scan_number(s, i).end
    } else if spec_is_id_start(c) {
        run_end(s, i + 1, CharClass::IdContinue)
    } else if spec_is_whitespace(c) {
        run_end(s, i + 1, CharClass::Whitespace)
    } else {
        i + 1
    }
}

/// The token that starts at `i`: its kind, and the byte span of its lexeme.
pub open spec fn token_at(s: Seq<char>, i: int) -> Token {
    Token {
        kind: kind_at(s, i),
        index: byte_len(s.take(i)) as usize,
        size: byte_len(s.subrange(i, end_at(s, i))) as usize,
    }
}

/// The characters of the token that starts at `i`.
pub open spec fn lexeme_at(s: Seq<char>, i: int) -> Seq<char> {
    s.subrange(i, end_at(s, i))
}

/// A run ends at or after its start, and within the text.
pub proof fn lemma_run_end_bounds(s: Seq<char>, i: int, class: CharClass)
    requires
        0 <= i <= s.len(),
    ensures
        i <= run_end(s, i, class) <= s.len(),
    decreases s.len() - i,
{
    if i < s.len() && in_class(class, s[i]) {
        lemma_run_end_bounds(s, i + 1, class);
    }
}

pub proof fn lemma_string_end_bounds(s: Seq<char>, i: int, quote: char)
    requires
        1 <= i <= s.len(),
    ensures
        i <= string_end(s, i, quote) <= s.len(),
    decreases s.len() - i,
{
    if i < s.len() && !(s[i] == quote && s[i - 1] != '\\') {
        lemma_string_end_bounds(s, i + 1, quote);
    }
}

pub proof fn lemma_block_comment_end_bounds(s: Seq<char>, i: int)
    requires
        0 <= i <= s.len(),
    ensures
        i <= block_comment_end(s, i) <= s.len(),
    decreases s.len() - i,
{
    if i < s.len() && !(i + 1 < s.len() && s[i] == '*' && s[i + 1] == '/') {
        lemma_block_comment_end_bounds(s, i + 1);
    }
}

pub proof fn lemma_line_comment_end_bounds(s: Seq<char>, i: int)
    requires
        0 <= i <= s.len(),
    ensures
        i <= line_comment_end(s, i) <= s.len(),
    decreases s.len() - i,
{
    if i < s.len() && s[i] != '\n' {
        lemma_line_comment_end_bounds(s, i + 1);
    }
}

/// The parts of a numeric literal lie in order within the text.
pub proof fn lemma_scan_number_bounds(s: Seq<char>, i: int)
    requires
        0 <= i < s.len(),
    ensures
        i < scan_number(s, i).digits_end <= scan_number(s, i).end <= s.len(),
{
    let n = scan_number(s, i);
    let class = digit_class(n.base);
    let from = if n.base.is_some() {
        i + 2
    } else {
        i + 1
    };
    lemma_run_end_bounds(s, from, class);
    let whole_end = run_end(s, from, class);
    if n.float {
        lemma_run_end_bounds(s, whole_end + 1, class);
    }
    if n.suffixed {
        lemma_run_end_bounds(s, n.digits_end + 1, CharClass::Alnum);
    }
}

/// Every token holds at least one character and ends within the text.
pub proof fn lemma_token_advances(s: Seq<char>, i: int)
    requires
        0 <= i < s.len(),
    ensures
        i < end_at(s, i) <= s.len(),
{
    reveal(end_at);
    let c = s[i];
    if spec_punctuation(c).is_some() {
    } else if c == '/' {
        if i + 1 < s.len() {
            lemma_block_comment_end_bounds(s, i + 2);
            lemma_line_comment_end_bounds(s, i + 2);
        }
    } else if c == '"' || c == '\'' {
        lemma_string_end_bounds(s, i + 1, c);
    } else if spec_is_digit(c, 10) {
        lemma_scan_number_bounds(s, i);
    } else if spec_is_id_start(c) {
        lemma_run_end_bounds(s, i + 1, CharClass::IdContinue);
    } else if spec_is_whitespace(c) {
        lemma_run_end_bounds(s, i + 1, CharClass::Whitespace);
    }
}

} // verus!
