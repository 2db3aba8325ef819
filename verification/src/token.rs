//! Tokens: a kind and the byte span of the lexeme in the source text.

use vstd::prelude::*;

verus! {

/// A classified lexeme. `index` and `size` count bytes of the source text:
/// the lexeme occupies the bytes from `index` up to `index + size`.
#[derive(Debug, Clone, Copy, PartialEq, Eq, Structural)]
pub struct Token {
    pub kind: TokenKind,
    pub size: usize,
    pub index: usize,
}

#[allow(inconsistent_fields)]
#[derive(Debug, Clone, Copy, PartialEq, Eq, Structural)]
pub enum TokenKind {
    LineComment,
    BlockComment,
    Ident,
    /// A number or a string.
    Lit { kind: LitKind },
    /// `=`
    Eq,
    /// `<`
    Lt,
    /// `>`
    Gt,
    /// `.`
    Dot,
    /// `,`
    Comma,
    /// `!`
    Not,
    /// `&`
    And,
    /// `|`
    Or,
    /// `(`, `[` or `{`
    OpenDelim { kind: DelimKind },
    /// `)`, `]` or `}`
    CloseDelim { kind: DelimKind },
    /// `%`
    Percent,
    /// `$`
    Dollar,
    /// `#`
    Hash,
    /// `/`
    Div,
    /// `*`
    Mul,
    /// `+`
    Add,
    /// `-`
    Sub,
    /// `:`
    Colon,
    /// `@`
    At,
    /// `;`
    Semi,
    /// `?`
    Question,
    /// A maximal run of white space.
    Whitespace,
    /// A character that starts no token of the language.
    Unkown,
}

#[derive(Debug, Clone, Copy, PartialEq, Eq, Structural)]
pub enum DelimKind {
    Bracket,
    Brace,
    Paren,
}

/// The kind of a literal. For a number, `base` is the radix that a prefix
/// (`0b`, `0o`, `0x`) selected, and `suff_off` is the offset in bytes, from the
/// start of the lexeme, at which a type suffix begins.
#[derive(Debug, Clone, Copy, PartialEq, Eq, Structural)]
pub enum LitKind {
    Int { base: Option<NumBase>, suff_off: Option<usize> },
    Float { base: Option<NumBase>, suff_off: Option<usize> },
    Str,
}

#[derive(Debug, Clone, Copy, PartialEq, Eq, Structural)]
pub enum NumBase {
    Bin,
    Oct,
    Dec,
    Hex,
}

impl NumBase {
    pub open spec fn spec_radix(self) -> u32 {
        match self {
            NumBase::Bin => 2,
            NumBase::Oct => 8,
            NumBase::Dec => 10,
            NumBase::Hex => 16,
        }
    }

    /// The radix: 2, 8, 10 or 16.
    #[verifier::when_used_as_spec(spec_radix)]
    pub fn radix(self) -> (r: u32)
        ensures
            r == self.spec_radix(),
    {
        match self {
            NumBase::Bin => 2,
            NumBase::Oct => 8,
            NumBase::Dec => 10,
            NumBase::Hex => 16,
        }
    }
}

impl From<NumBase> for u32 {
    /// The radix: 2, 8, 10 or 16.
    fn from(base: NumBase) -> (r: u32) {
        base.radix()
    }
}

impl vstd::std_specs::convert::FromSpecImpl<NumBase> for u32 {
    open spec fn obeys_from_spec() -> bool {
        true
    }

    open spec fn from_spec(base: NumBase) -> u32 {
        base.spec_radix()
    }
}

impl LitKind {
    /// The radix recorded in the literal, if it is a number and has one.
    pub open spec fn spec_base(self) -> Option<NumBase> {
        match self {
            LitKind::Int { base, suff_off } => base,
            LitKind::Float { base, suff_off } => base,
            LitKind::Str => None,
        }
    }

    /// The offset of the suffix, if the literal is a number and has one.
    pub open spec fn spec_suff_off(self) -> Option<usize> {
        match self {
            LitKind::Int { base, suff_off } => suff_off,
            LitKind::Float { base, suff_off } => suff_off,
            LitKind::Str => None,
        }
    }

    /// The radix recorded in the literal, if it is a number and has one.
    #[verifier::when_used_as_spec(spec_base)]
    pub fn base(self) -> (r: Option<NumBase>)
        ensures
            r == self.spec_base(),
    {
        match self {
            LitKind::Int { base, suff_off: _ } => base,
            LitKind::Float { base, suff_off: _ } => base,
            LitKind::Str => None,
        }
    }

    /// The offset of the suffix, if the literal is a number and has one.
    #[verifier::when_used_as_spec(spec_suff_off)]
    pub fn suff_off(self) -> (r: Option<usize>)
        ensures
            r == self.spec_suff_off(),
    {
        match self {
            LitKind::Int { base: _, suff_off } => suff_off,
            LitKind::Float { base: _, suff_off } => suff_off,
            LitKind::Str => None,
        }
    }

    /// Whether the literal is a number with a recorded radix.
    pub fn has_base(&self) -> (r: bool)
        ensures
            r == self.spec_base().is_some(),
    {
        match self {
            LitKind::Int { base: Some(_), suff_off: _ } => true,
            LitKind::Float { base: Some(_), suff_off: _ } => true,
            _ => false,
        }
    }

    /// Whether the literal is a number with a type suffix.
    pub fn has_suff(&self) -> (r: bool)
        ensures
            r == self.spec_suff_off().is_some(),
    {
        match self {
            LitKind::Int { base: _, suff_off: Some(_) } => true,
            LitKind::Float { base: _, suff_off: Some(_) } => true,
            _ => false,
        }
    }

    pub fn is_int(&self) -> (r: bool)
        ensures
            r == (*self is Int),
    {
        match self {
            LitKind::Int { base: _, suff_off: _ } => true,
            _ => false,
        }
    }

    pub fn is_float(&self) -> (r: bool)
        ensures
            r == (*self is Float),
    {
        match self {
            LitKind::Float { base: _, suff_off: _ } => true,
            _ => false,
        }
    }

    /// Whether the literal is a number written with the prefix `0b`.
    pub fn is_bin(&self) -> (r: bool)
        ensures
            r == (self.spec_base() == Some(NumBase::Bin)),
    {
        match self.base() {
            Some(NumBase::Bin) => true,
            _ => false,
        }
    }

    /// Whether the literal is a number written with the prefix `0o`.
    pub fn is_oct(&self) -> (r: bool)
        ensures
            r == (self.spec_base() == Some(NumBase::Oct)),
    {
        match self.base() {
            Some(NumBase::Oct) => true,
            _ => false,
        }
    }

    /// Whether the literal is a number marked as decimal.
    pub fn is_dec(&self) -> (r: bool)
        ensures
            r == (self.spec_base() == Some(NumBase::Dec)),
    {
        match self.base() {
            Some(NumBase::Dec) => true,
            _ => false,
        }
    }

    /// Whether the literal is a number written with the prefix `0x`.
    pub fn is_hex(&self) -> (r: bool)
        ensures
            r == (self.spec_base() == Some(NumBase::Hex)),
    {
        match self.base() {
            Some(NumBase::Hex) => true,
            _ => false,
        }
    }
}

} // verus!
