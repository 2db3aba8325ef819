//! Character classes of the language and the UTF-8 width of a character.

use vstd::prelude::*;
use vstd::utf8::encode_scalar;
use vstd::utf8::encode_utf8;
use vstd::utf8::is_char_boundary;

verus! {

/// The character classes that the lexer scans maximal runs of.
#[derive(Debug, Clone, Copy, PartialEq, Eq)]
pub enum CharClass {
    /// `0` and `1`.
    BinDigit,
    /// `0` to `7`.
    OctDigit,
    /// `0` to `9`.
    DecDigit,
    /// `0` to `9`, `a` to `f`, `A` to `F`.
    HexDigit,
    /// ASCII letters and digits.
    Alnum,
    /// What may follow the first character of an identifier.
    IdContinue,
    /// Unicode white space.
    Whitespace,
}

pub open spec fn spec_is_id_start(ch: char) -> bool {
    ('a' <= ch && ch <= 'z') || ('A' <= ch && ch <= 'Z') || ch == '_'
}

pub open spec fn spec_is_id_continue(ch: char) -> bool {
    ('a' <= ch && ch <= 'z') || ('A' <= ch && ch <= 'Z') || ('0' <= ch && ch <= '9') || ch == '_'
        || ch == '#' || ch == '$' || ch == '@'
}

/// The code points that carry the Unicode property `White_Space`.
pub open spec fn spec_is_whitespace(ch: char) -> bool {
    let u = ch as u32;
    (0x09 <= u && u <= 0x0D) || u == 0x20 || u == 0x85 || u == 0xA0 || u == 0x1680 || (0x2000 <= u
        && u <= 0x200A) || u == 0x2028 || u == 0x2029 || u == 0x202F || u == 0x205F || u == 0x3000
}

pub open spec fn spec_is_alnum(ch: char) -> bool {
    ('a' <= ch && ch <= 'z') || ('A' <= ch && ch <= 'Z') || ('0' <= ch && ch <= '9')
}

/// Whether `ch` is a digit of the given radix (2, 8, 10 or 16 are the radixes in use).
pub open spec fn spec_is_digit(ch: char, radix: u32) -> bool {
    if radix <= 10 {
        '0' <= ch && (ch as u32) < ('0' as u32) + radix
    } else {
        ('0' <= ch && ch <= '9') || (('a' as u32) <= (ch as u32) && (ch as u32) < ('a' as u32)
            + radix - 10) || (('A' as u32) <= (ch as u32) && (ch as u32) < ('A' as u32) + radix
            - 10)
    }
}

/// The value of a digit character; meaningful where `spec_is_digit` holds for some radix.
pub open spec fn spec_digit_value(ch: char) -> nat {
    if '0' <= ch && ch <= '9' {
        ((ch as u32) - ('0' as u32)) as nat
    } else if 'a' <= ch && ch <= 'z' {
        ((ch as u32) - ('a' as u32) + 10) as nat
    } else {
        ((ch as u32) - ('A' as u32) + 10) as nat
    }
}

pub open spec fn in_class(class: CharClass, ch: char) -> bool {
    match class {
        CharClass::BinDigit => spec_is_digit(ch, 2),
        CharClass::OctDigit => spec_is_digit(ch, 8),
        CharClass::DecDigit => spec_is_digit(ch, 10),
        CharClass::HexDigit => spec_is_digit(ch, 16),
        CharClass::Alnum => spec_is_alnum(ch),
        CharClass::IdContinue => spec_is_id_continue(ch),
        CharClass::Whitespace => spec_is_whitespace(ch),
    }
}

/// Whether `ch` may start an identifier: an ASCII letter or `_`.
#[verifier::when_used_as_spec(spec_is_id_start)]
pub fn is_id_start(ch: char) -> (r: bool)
    ensures
        r == spec_is_id_start(ch),
{
    (ch >= 'a' && ch <= 'z') || (ch >= 'A' && ch <= 'Z') || ch == '_'
}

/// Whether `ch` may continue an identifier: an ASCII letter or digit, `_`, `#`, `$` or `@`.
#[verifier::when_used_as_spec(spec_is_id_continue)]
pub fn is_id_continue(ch: char) -> (r: bool)
    ensures
        r == spec_is_id_continue(ch),
{
    (ch >= 'a' && ch <= 'z') || (ch >= 'A' && ch <= 'Z') || (ch >= '0' && ch <= '9') || ch == '_'
        || ch == '#' || ch == '$' || ch == '@'
}

/// Whether `ch` is white space in the sense of Unicode.
#[verifier::when_used_as_spec(spec_is_whitespace)]
pub fn is_whitespace(ch: char) -> (r: bool)
    ensures
        r == spec_is_whitespace(ch),
{
    let u: u32 = ch as u32;
    (0x09 <= u && u <= 0x0D) || u == 0x20 || u == 0x85 || u == 0xA0 || u == 0x1680 || (0x2000 <= u
        && u <= 0x200A) || u == 0x2028 || u == 0x2029 || u == 0x202F || u == 0x205F || u == 0x3000
}

/// Whether `ch` is an ASCII letter or digit.
#[verifier::when_used_as_spec(spec_is_alnum)]
pub fn is_alnum(ch: char) -> (r: bool)
    ensures
        r == spec_is_alnum(ch),
{
    (ch >= 'a' && ch <= 'z') || (ch >= 'A' && ch <= 'Z') || (ch >= '0' && ch <= '9')
}

/// Whether `ch` is a digit of the radix `radix`.
#[verifier::when_used_as_spec(spec_is_digit)]
pub fn is_digit(ch: char, radix: u32) -> (r: bool)
    requires
        2 <= radix <= 36,
    ensures
        r == spec_is_digit(ch, radix),
{
    let u: u32 = ch as u32;
    if radix <= 10 {
        48 <= u && u < 48 + radix
    } else {
        (48 <= u && u <= 57) || (97 <= u && u < 97 + radix - 10) || (65 <= u && u < 65 + radix
            - 10)
    }
}

/// The value of the digit `ch`, which must be a digit of some radix up to 36.
pub fn digit_value(ch: char) -> (v: u32)
    requires
        spec_is_digit(ch, 36),
    ensures
        v == spec_digit_value(ch),
        v < 36,
        forall|radix: u32| 2 <= radix <= 36 && spec_is_digit(ch, radix) ==> v < radix,
{
    let u: u32 = ch as u32;
    if 48 <= u && u <= 57 {
        u - 48
    } else if 97 <= u && u <= 122 {
        u - 97 + 10
    } else {
        u - 65 + 10
    }
}

/// A digit of a radix is a digit of every larger radix, and its value is below the radix.
pub proof fn lemma_digit_widen(ch: char, radix: u32)
    requires
        2 <= radix <= 36,
        spec_is_digit(ch, radix),
    ensures
        spec_is_digit(ch, 36),
        spec_digit_value(ch) < radix,
{
    assert('0' as u32 == 48 && '9' as u32 == 57);
    assert('a' as u32 == 97 && 'z' as u32 == 122);
    assert('A' as u32 == 65 && 'Z' as u32 == 90);
}

/// Whether `ch` belongs to `class`.
pub fn class_holds(class: CharClass, ch: char) -> (r: bool)
    ensures
        r == in_class(class, ch),
{
    match class {
        CharClass::BinDigit => is_digit(ch, 2),
        CharClass::OctDigit => is_digit(ch, 8),
        CharClass::DecDigit => is_digit(ch, 10),
        CharClass::HexDigit => is_digit(ch, 16),
        CharClass::Alnum => is_alnum(ch),
        CharClass::IdContinue => is_id_continue(ch),
        CharClass::Whitespace => is_whitespace(ch),
    }
}

/// The number of bytes that `ch` takes in UTF-8.
pub open spec fn spec_utf8_width(ch: char) -> nat {
    let u = ch as u32;
    if u < 0x80 {
        1
    } else if u < 0x800 {
        2
    } else if u < 0x10000 {
        3
    } else {
        4
    }
}

/// The number of bytes that the characters of `s` take in UTF-8.
pub open spec fn byte_len(s: Seq<char>) -> nat {
    encode_utf8(s).len()
}

/// The number of bytes that `ch` takes in UTF-8.
pub fn utf8_width(ch: char) -> (w: usize)
    ensures
        w == spec_utf8_width(ch),
        w == encode_scalar(ch as u32).len(),
        1 <= w <= 4,
{
    let u: u32 = ch as u32;
    if u < 0x80 {
        1
    } else if u < 0x800 {
        2
    } else if u < 0x10000 {
        3
    } else {
        4
    }
}

/// Encoding distributes over concatenation.
pub proof fn lemma_encode_concat(a: Seq<char>, b: Seq<char>)
    ensures
        encode_utf8(a + b) == encode_utf8(a) + encode_utf8(b),
    decreases a.len(),
{
    if a.len() == 0 {
        assert(a + b =~= b);
        assert(encode_utf8(a) + encode_utf8(b) =~= encode_utf8(b));
    } else {
        assert((a + b).drop_first() =~= a.drop_first() + b);
        lemma_encode_concat(a.drop_first(), b);
        assert(encode_utf8(a + b) =~= encode_utf8(a) + encode_utf8(b));
    }
}

/// The byte length of a text is that of a prefix plus that of the rest.
pub proof fn lemma_byte_len_split(s: Seq<char>, i: int)
    requires
        0 <= i <= s.len(),
    ensures
        byte_len(s) == byte_len(s.take(i)) + byte_len(s.skip(i)),
{
    assert(s =~= s.take(i) + s.skip(i));
    lemma_encode_concat(s.take(i), s.skip(i));
}

/// One more character adds its width to the byte length of a prefix.
pub proof fn lemma_byte_len_step(s: Seq<char>, i: int)
    requires
        0 <= i < s.len(),
    ensures
        byte_len(s.take(i + 1)) == byte_len(s.take(i)) + spec_utf8_width(s[i]),
        byte_len(s.take(i + 1)) <= byte_len(s),
{
    let one = seq![s[i]];
    assert(s.take(i + 1) =~= s.take(i) + one);
    lemma_encode_concat(s.take(i), one);
    assert(one.drop_first() =~= Seq::<char>::empty());
    assert(encode_utf8(one) =~= encode_scalar(s[i] as u32)) by {
        reveal_with_fuel(encode_utf8, 2);
    }
    vstd::utf8::char_is_scalar(s[i]);
    assert(encode_scalar(s[i] as u32).len() == spec_utf8_width(s[i]));
    lemma_byte_len_split(s, i + 1);
}

/// Byte length is monotone in the prefix.
pub proof fn lemma_byte_len_prefix(s: Seq<char>, i: int, j: int)
    requires
        0 <= i <= j <= s.len(),
    ensures
        byte_len(s.take(j)) == byte_len(s.take(i)) + byte_len(s.subrange(i, j)),
        byte_len(s.take(j)) <= byte_len(s),
{
    assert(s.take(j) =~= s.take(i) + s.subrange(i, j));
    lemma_encode_concat(s.take(i), s.subrange(i, j));
    lemma_byte_len_split(s, j);
}

/// Every character takes at least one byte.
pub proof fn lemma_byte_len_at_least(s: Seq<char>)
    ensures
        byte_len(s) >= s.len(),
    decreases s.len(),
{
    if s.len() > 0 {
        lemma_byte_len_at_least(s.drop_last());
        lemma_byte_len_step(s, s.len() - 1);
        assert(s.take(s.len() - 1) =~= s.drop_last());
        assert(s.take(s.len() as int) =~= s);
    }
}

/// Whether `len` bytes from `index` on lie within `bytes` and begin and end
/// between two characters.
pub open spec fn sliceable(bytes: Seq<u8>, index: int, len: int) -> bool {
    &&& 0 <= index
    &&& 0 <= len
    &&& index + len <= bytes.len()
    &&& is_char_boundary(bytes, index)
    &&& is_char_boundary(bytes, index + len)
}

/// The characters of `s`, in order.
pub fn to_chars(s: &str) -> (v: Vec<char>)
    ensures
        v@ == s@,
{
    let mut v: Vec<char> = Vec::new();
    for c in it: s.chars()
        invariant
            v@ == it.seq().take(it.index() as int),
            it.seq() == s@,
    {
        v.push(c);
    }
    v
}

} // verus!
