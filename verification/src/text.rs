//! What a string literal stands for: the text between its quotes, with the
//! escapes decoded.

use vstd::prelude::*;

verus! {

/// `String::push` appends the character to the end of the string.
pub assume_specification[ String::push ](s: &mut String, ch: char)
    ensures
        final(s)@ == old(s)@.push(ch),
;

/// What the character after a backslash contributes: `n`, `r`, `t` and `\`
/// stand for a line feed, a carriage return, a tab and a backslash; any
/// other character contributes nothing.
pub open spec fn escaped(ch: char) -> Seq<char> {
    if ch == 'n' {
        seq!['\n']
    } else if ch == 'r' {
        seq!['\r']
    } else if ch == 't' {
        seq!['\t']
    } else if ch == '\\' {
        seq!['\\']
    } else {
        Seq::empty()
    }
}

/// The characters of `s` from `i` on, with the escapes decoded from left to
/// right. A backslash takes the character after it along; a backslash at the
/// very end contributes nothing.
pub open spec fn unescape_from(s: Seq<char>, i: int) -> Seq<char>
    decreases s.len() - i,
{
    if i < 0 || i >= s.len() {
        Seq::empty()
    } else if s[i] == '\\' {
        if i + 1 < s.len() {
            escaped(s[i + 1]) + unescape_from(s, i + 2)
        } else {
            Seq::empty()
        }
    } else {
        seq![s[i]] + unescape_from(s, i + 1)
    }
}

/// The characters of `s` with the escapes decoded.
pub open spec fn unescape(s: Seq<char>) -> Seq<char> {
    unescape_from(s, 0)
}

/// Whether the string lexeme `s` ends in the quote that opened it, and that
/// quote is not escaped by a backslash before it.
pub open spec fn terminated(s: Seq<char>) -> bool {
    s.len() >= 2 && s[s.len() - 1] == s[0] && s[s.len() - 2] != '\\'
}

/// The text that the string lexeme `s` stands for, if it is terminated.
pub open spec fn string_value(s: Seq<char>) -> Option<Seq<char>> {
    if terminated(s) {
        Some(unescape(s.subrange(1, s.len() - 1)))
    } else {
        None
    }
}

/// A text without a backslash stands for itself.
pub proof fn lemma_unescape_plain(s: Seq<char>, i: int)
    requires
        0 <= i <= s.len(),
        forall|k: int| i <= k < s.len() ==> s[k] != '\\',
    ensures
        unescape_from(s, i) == s.skip(i),
    decreases s.len() - i,
{
    if i < s.len() {
        lemma_unescape_plain(s, i + 1);
        assert(seq![s[i]] + s.skip(i + 1) =~= s.skip(i));
    } else {
        assert(s.skip(i) =~= Seq::<char>::empty());
    }
}

/// The characters of `src` with the escapes decoded.
pub fn escape_str(src: &[char]) -> (r: String)
    ensures
        r@ == unescape(src@),
{
    let mut buf = String::new();
    let mut i: usize = 0;
    while i < src.len()
        invariant
            i <= src.len(),
            buf@ + unescape_from(src@, i as int) == unescape(src@),
        decreases src.len() - i,
    {
        let ghost before = buf@;
        let c = src[i];
        if c == '\\' {
            if i + 1 < src.len() {
                let e = src[i + 1];
                if e == 'n' {
                    buf.push('\n');
                } else if e == 'r' {
                    buf.push('\r');
                } else if e == 't' {
                    buf.push('\t');
                } else if e == '\\' {
                    buf.push('\\');
                }
                assert(buf@ =~= before + escaped(e));
                assert(buf@ + unescape_from(src@, i as int + 2) =~= before + unescape_from(
                    src@,
                    i as int,
                ));
                i += 2;
            } else {
                i += 1;
            }
        } else {
            buf.push(c);
            assert(buf@ + unescape_from(src@, i as int + 1) =~= before + unescape_from(
                src@,
                i as int,
            ));
            i += 1;
        }
    }
    assert(buf@ + Seq::<char>::empty() =~= buf@);
    buf
}

/// The text that the string lexeme `lexeme` stands for, if it is terminated.
pub fn string_literal(lexeme: &[char]) -> (r: Option<String>)
    ensures
        match r {
            Some(s) => string_value(lexeme@) == Some(s@),
            None => string_value(lexeme@).is_none(),
        },
{
    let n = lexeme.len();
    if n >= 2 && lexeme[n - 1] == lexeme[0] && lexeme[n - 2] != '\\' {
        Some(escape_str(vstd::slice::slice_subrange(lexeme, 1, n - 1)))
    } else {
        None
    }
}

/// A string with the characters of `chars`.
pub fn string_of(chars: &[char]) -> (r: String)
    ensures
        r@ == chars@,
{
    let mut buf = String::new();
    let mut i: usize = 0;
    while i < chars.len()
        invariant
            i <= chars.len(),
            buf@ == chars@.take(i as int),
        decreases chars.len() - i,
    {
        buf.push(chars[i]);
        assert(chars@.take(i as int).push(chars@[i as int]) =~= chars@.take(i as int + 1));
        i += 1;
    }
    assert(chars@.take(i as int) =~= chars@);
    buf
}

} // verus!
