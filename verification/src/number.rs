//! What a numeric literal stands for: its digits read in the radix of the
//! literal, at the width that its suffix names.

use vstd::prelude::*;
use vstd::slice::slice_subrange;
use crate::chars::spec_is_digit;
use crate::chars::spec_digit_value;
use crate::chars::is_digit;
use crate::chars::digit_value;
use crate::token::LitKind;
use crate::token::NumBase;

verus! {

/// The value of a fractional literal, held exactly.
#[derive(Debug, Clone, Copy, PartialEq, Eq)]
pub enum FloatLit {
    /// `left + right / divider`: both sides of the point were read as
    /// integers in the radix of the literal, and `divider` is the smallest
    /// power of ten that exceeds `right`.
    Based { left: i32, right: i32, divider: u64 },
    /// `whole + frac / scale`: a decimal literal, where `scale` is ten to the
    /// number of digits after the point.
    Decimal { whole: u128, frac: u128, scale: u128 },
}

/// A number, at the width and signedness that the literal asked for.
#[derive(Debug, Clone, Copy, PartialEq, Eq)]
pub enum NumExpr {
    I32(i32),
    I64(i64),
    U32(u32),
    U64(u64),
    F32(FloatLit),
    F64(FloatLit),
}

/// What reading a numeric literal gives.
#[derive(Debug, Clone, Copy, PartialEq, Eq)]
pub enum NumOutcome {
    /// The literal stands for this number.
    Value(NumExpr),
    /// The digits are missing, are no digits of the radix, or do not fit the width.
    Malformed,
    /// The suffix names no type; it occupies `len` bytes from `offset` in the lexeme.
    BadSuffix { offset: usize, len: usize },
}

/// The type that a suffix names.
#[derive(Debug, Clone, Copy, PartialEq, Eq)]
pub enum Suffix {
    I32,
    I64,
    U32,
    U64,
    F32,
    F64,
    Unknown,
}

/// The number that the digits `s` spell in the given radix, most significant digit first.
pub open spec fn digits_value(s: Seq<char>, radix: nat) -> nat
    decreases s.len(),
{
    if s.len() == 0 {
        0
    } else {
        digits_value(s.drop_last(), radix) * radix + spec_digit_value(s.last())
    }
}

pub open spec fn all_digits(s: Seq<char>, radix: u32) -> bool {
    forall|i: int| 0 <= i < s.len() ==> spec_is_digit(#[trigger] s[i], radix)
}

/// The value of a possibly empty run of digits, where it is at most `max`.
pub open spec fn digits_upto(s: Seq<char>, radix: u32, max: nat) -> Option<nat> {
    if all_digits(s, radix) && digits_value(s, radix as nat) <= max {
        Some(digits_value(s, radix as nat))
    } else {
        None
    }
}

/// The value of a run of at least one digit, where it is at most `max`.
pub open spec fn parse_nat(s: Seq<char>, radix: u32, max: nat) -> Option<nat> {
    if s.len() > 0 {
        digits_upto(s, radix, max)
    } else {
        None
    }
}

/// The index of the first `.` of `s` at or after `i`, or the length of `s` if there is none.
pub open spec fn dot_from(s: Seq<char>, i: int) -> int
    decreases s.len() - i,
{
    if 0 <= i < s.len() && s[i] != '.' {
        dot_from(s, i + 1)
    } else {
        i
    }
}

/// The index of the first `.` of `s`, or the length of `s` if there is none.
pub open spec fn first_dot(s: Seq<char>) -> int {
    dot_from(s, 0)
}

/// The smallest power of ten that exceeds `n`.
pub open spec fn divider(n: nat) -> nat
    decreases n,
{
    if n == 0 {
        1
    } else {
        10 * divider(n / 10)
    }
}

pub open spec fn pow10(k: nat) -> nat
    decreases k,
{
    if k == 0 {
        1
    } else {
        10 * pow10((k - 1) as nat)
    }
}

pub open spec fn spec_suffix(s: Seq<char>) -> Suffix {
    if s.len() != 3 {
        Suffix::Unknown
    } else if s[0] == 'i' && s[1] == '3' && s[2] == '2' {
        Suffix::I32
    } else if s[0] == 'i' && s[1] == '6' && s[2] == '4' {
        Suffix::I64
    } else if s[0] == 'u' && s[1] == '3' && s[2] == '2' {
        Suffix::U32
    } else if s[0] == 'u' && s[1] == '6' && s[2] == '4' {
        Suffix::U64
    } else if s[0] == 'f' && s[1] == '3' && s[2] == '2' {
        Suffix::F32
    } else if s[0] == 'f' && s[1] == '6' && s[2] == '4' {
        Suffix::F64
    } else {
        Suffix::Unknown
    }
}

/// The integer that the digits of `text` before its first `.` spell, where it is at most `max`.
pub open spec fn integer_part(text: Seq<char>, radix: u32, max: nat) -> Option<nat> {
    parse_nat(text.take(first_dot(text)), radix, max)
}

/// The value of `text` read on both sides of its first `.` in the given
/// radix, each side at most `i32::MAX`. Without a `.` the right side is 0.
pub open spec fn based_float(text: Seq<char>, radix: u32) -> Option<FloatLit> {
    let dot = first_dot(text);
    let left = parse_nat(text.take(dot), radix, i32::MAX as nat);
    if dot >= text.len() {
        match left {
            Some(l) => Some(FloatLit::Based { left: l as i32, right: 0, divider: 1 }),
            None => None,
        }
    } else {
        let rest = text.skip(dot + 1);
        let right = parse_nat(rest.take(first_dot(rest)), radix, i32::MAX as nat);
        match (left, right) {
            (Some(l), Some(r)) => Some(
                FloatLit::Based { left: l as i32, right: r as i32, divider: divider(r) as u64 },
            ),
            _ => None,
        }
    }
}

/// The value of `text` as a decimal number with a point: decimal digits on
/// both sides of the first `.`, at least one in all, where the whole part,
/// the fraction's digits and ten to their number each fit 128 bits.
pub open spec fn decimal_float(text: Seq<char>) -> Option<FloatLit> {
    let dot = first_dot(text);
    let whole = digits_upto(text.take(dot), 10, u128::MAX as nat);
    let frac = digits_upto(text.skip(dot + 1), 10, u128::MAX as nat);
    let digits = text.len() - dot - 1;
    if dot < text.len() && text.len() > 1 && whole.is_some() && frac.is_some() && pow10(
        digits as nat,
    ) <= u128::MAX {
        Some(
            FloatLit::Decimal {
                whole: whole.unwrap() as u128,
                frac: frac.unwrap() as u128,
                scale: pow10(digits as nat) as u128,
            },
        )
    } else {
        None
    }
}

/// Where the digits of a numeric lexeme begin: after a prefix of two bytes
/// if the literal records a radix other than ten.
pub open spec fn digits_start(kind: LitKind) -> int {
    match kind.spec_base() {
        Some(NumBase::Bin) | Some(NumBase::Oct) | Some(NumBase::Hex) => 2,
        _ => 0,
    }
}

/// The radix in which the digits are read: the recorded one, or ten.
pub open spec fn radix_of(kind: LitKind) -> u32 {
    match kind.spec_base() {
        Some(b) => b.spec_radix(),
        None => 10,
    }
}

pub open spec fn wrap(v: Option<NumExpr>) -> NumOutcome {
    match v {
        Some(n) => NumOutcome::Value(n),
        None => NumOutcome::Malformed,
    }
}

/// The number that the digits `text` stand for under the given suffix.
pub open spec fn typed_value(text: Seq<char>, radix: u32, suffix: Suffix) -> Option<NumExpr> {
    match suffix {
        Suffix::I32 => match integer_part(text, radix, i32::MAX as nat) {
            Some(v) => Some(NumExpr::I32(v as i32)),
            None => None,
        },
        Suffix::I64 => match integer_part(text, radix, i64::MAX as nat) {
            Some(v) => Some(NumExpr::I64(v as i64)),
            None => None,
        },
        Suffix::U32 => match integer_part(text, radix, u32::MAX as nat) {
            Some(v) => Some(NumExpr::U32(v as u32)),
            None => None,
        },
        Suffix::U64 => match integer_part(text, radix, u64::MAX as nat) {
            Some(v) => Some(NumExpr::U64(v as u64)),
            None => None,
        },
        Suffix::F32 => match based_float(text, radix) {
            Some(f) => Some(NumExpr::F32(f)),
            None => None,
        },
        Suffix::F64 => match based_float(text, radix) {
            Some(f) => Some(NumExpr::F64(f)),
            None => None,
        },
        Suffix::Unknown => None,
    }
}

/// The number that digits without a suffix stand for: with a `.` a decimal
/// fraction of 32 bits, whatever the radix; without one an integer of 32
/// bits in the radix.
pub open spec fn untyped_value(text: Seq<char>, radix: u32) -> Option<NumExpr> {
    if first_dot(text) < text.len() {
        match decimal_float(text) {
            Some(f) => Some(NumExpr::F32(f)),
            None => None,
        }
    } else {
        match parse_nat(text, radix, i32::MAX as nat) {
            Some(v) => Some(NumExpr::I32(v as i32)),
            None => None,
        }
    }
}

/// What the numeric lexeme `lexeme` of kind `kind` stands for.
///
/// The digits run from `digits_start` to the suffix, or to the end where
/// there is none; the suffix runs from its offset to the end.
#[verifier::opaque]
pub open spec fn interpret(lexeme: Seq<char>, kind: LitKind) -> NumOutcome {
    let start = digits_start(kind);
    let radix = radix_of(kind);
    let len = lexeme.len() as int;
    if kind is Str {
        NumOutcome::Malformed
    } else {
        match kind.spec_suff_off() {
            None => if start <= len {
                wrap(untyped_value(lexeme.subrange(start, len), radix))
            } else {
                NumOutcome::Malformed
            },
            Some(off) => if start <= off <= len {
                let suffix = spec_suffix(lexeme.subrange(off as int, len));
                if suffix == Suffix::Unknown {
                    NumOutcome::BadSuffix { offset: off, len: (len - off) as usize }
                } else {
                    wrap(typed_value(lexeme.subrange(start, off as int), radix, suffix))
                }
            } else {
                NumOutcome::Malformed
            },
        }
    }
}

/// A suffix that names no type lies within the lexeme and runs to its end.
pub proof fn lemma_bad_suffix_span(lexeme: Seq<char>, kind: LitKind)
    requires
        interpret(lexeme, kind) is BadSuffix,
    ensures
        interpret(lexeme, kind)->offset <= lexeme.len(),
        kind.spec_suff_off() == Some(interpret(lexeme, kind)->offset),
{
    reveal(interpret);
}

/// A longer run of digits spells no smaller a number.
pub proof fn lemma_digits_prefix(s: Seq<char>, i: int, radix: nat)
    requires
        0 <= i <= s.len(),
        radix >= 1,
    ensures
        digits_value(s.take(i), radix) <= digits_value(s, radix),
    decreases s.len(),
{
    if i == s.len() {
        assert(s.take(i) =~= s);
    } else {
        assert(s.drop_last().take(i) =~= s.take(i));
        lemma_digits_prefix(s.drop_last(), i, radix);
        let x = digits_value(s.drop_last(), radix);
        assert(x * radix >= x) by (nonlinear_arith)
            requires
                radix >= 1,
                x >= 0,
        ;
    }
}

/// Reading one more digit multiplies by the radix and adds the digit.
pub proof fn lemma_digits_step(s: Seq<char>, i: int, radix: nat)
    requires
        0 <= i < s.len(),
    ensures
        digits_value(s.take(i + 1), radix) == digits_value(s.take(i), radix) * radix
            + spec_digit_value(s[i]),
{
    assert(s.take(i + 1).drop_last() =~= s.take(i));
}

/// `divider(n)` exceeds `n` and, for a positive `n`, is at most ten times `n`.
pub proof fn lemma_divider_bounds(n: nat)
    ensures
        divider(n) > n,
        n > 0 ==> divider(n) <= 10 * n,
        n == 0 ==> divider(n) == 1,
    decreases n,
{
    if n > 0 {
        lemma_divider_bounds(n / 10);
    }
}

/// `divider(n)` is a power of ten.
pub proof fn lemma_divider_is_power(n: nat) -> (k: nat)
    ensures
        divider(n) == pow10(k),
    decreases n,
{
    if n == 0 {
        0
    } else {
        let j = lemma_divider_is_power(n / 10);
        j + 1
    }
}

/// The value of the digits `s`, if they are digits of the radix and spell at most `max`.
pub fn read_digits(s: &[char], radix: u32, max: u128) -> (r: Option<u128>)
    requires
        2 <= radix <= 36,
    ensures
        match r {
            Some(v) => digits_upto(s@, radix, max as nat) == Some(v as nat),
            None => digits_upto(s@, radix, max as nat).is_none(),
        },
{
    let mut acc: u128 = 0;
    let mut i: usize = 0;
    while i < s.len()
        invariant
            2 <= radix <= 36,
            i <= s.len(),
            all_digits(s@.take(i as int), radix),
            acc == digits_value(s@.take(i as int), radix as nat),
            acc <= max,
        decreases s.len() - i,
    {
        let c = s[i];
        if !is_digit(c, radix) {
            assert(!spec_is_digit(s@[i as int], radix));
            return None;
        }
        proof {
            crate::chars::lemma_digit_widen(c, radix);
        }
        let d = digit_value(c);
        proof {
            lemma_digits_step(s@, i as int, radix as nat);
            lemma_digits_prefix(s@, i as int + 1, radix as nat);
        }
        let next = match acc.checked_mul(radix as u128) {
            Some(m) => m.checked_add(d as u128),
            None => None,
        };
        match next {
            Some(v) => {
                if v > max {
                    return None;
                }
                acc = v;
            },
            None => {
                return None;
            },
        }
        assert(all_digits(s@.take(i as int + 1), radix)) by {
            assert forall|j: int| 0 <= j < i + 1 implies spec_is_digit(
                #[trigger] s@.take(i as int + 1)[j],
                radix,
            ) by {
                if j < i {
                    assert(s@.take(i as int)[j] == s@[j]);
                }
            }
        }
        i += 1;
    }
    assert(s@.take(i as int) =~= s@);
    Some(acc)
}

/// The value of the digits `s`, if there is at least one, all are digits of
/// the radix, and they spell at most `max`.
pub fn read_number(s: &[char], radix: u32, max: u128) -> (r: Option<u128>)
    requires
        2 <= radix <= 36,
    ensures
        match r {
            Some(v) => parse_nat(s@, radix, max as nat) == Some(v as nat),
            None => parse_nat(s@, radix, max as nat).is_none(),
        },
{
    if s.len() == 0 {
        None
    } else {
        read_digits(s, radix, max)
    }
}

/// The index of the first `.` in `s`, or the length of `s`.
pub fn find_dot(s: &[char]) -> (r: usize)
    ensures
        r == first_dot(s@),
        r <= s.len(),
{
    let mut i: usize = 0;
    while i < s.len() && s[i] != '.'
        invariant
            i <= s.len(),
            dot_from(s@, i as int) == first_dot(s@),
        decreases s.len() - i,
    {
        i += 1;
    }
    i
}

/// The smallest power of ten that exceeds `n`.
pub fn divider_for(n: u32) -> (d: u64)
    ensures
        d == divider(n as nat),
        d > n,
        n > 0 ==> d <= 10 * n,
    decreases n,
{
    proof {
        lemma_divider_bounds(n as nat);
    }
    if n == 0 {
        1
    } else {
        proof {
            lemma_divider_bounds((n / 10) as nat);
        }
        10 * divider_for(n / 10)
    }
}

/// Ten to the power `k`, if it fits 128 bits.
pub fn scale_for(k: usize) -> (r: Option<u128>)
    ensures
        match r {
            Some(v) => v == pow10(k as nat),
            None => pow10(k as nat) > u128::MAX,
        },
{
    let mut acc: u128 = 1;
    let mut i: usize = 0;
    while i < k
        invariant
            i <= k,
            acc == pow10(i as nat),
        decreases k - i,
    {
        match acc.checked_mul(10) {
            Some(v) => {
                acc = v;
            },
            None => {
                proof {
                    lemma_pow10_monotone(i as nat + 1, k as nat);
                }
                return None;
            },
        }
        i += 1;
    }
    Some(acc)
}

pub proof fn lemma_pow10_monotone(i: nat, j: nat)
    requires
        i <= j,
    ensures
        pow10(i) <= pow10(j),
        pow10(i) >= 1,
    decreases j,
{
    if i < j {
        lemma_pow10_monotone(i, (j - 1) as nat);
    } else if i > 0 {
        lemma_pow10_monotone((i - 1) as nat, (i - 1) as nat);
    }
}

/// The type that the suffix `s` names.
pub fn suffix_kind(s: &[char]) -> (r: Suffix)
    ensures
        r == spec_suffix(s@),
{
    if s.len() != 3 {
        return Suffix::Unknown;
    }
    let a = s[0];
    let b = s[1];
    let c = s[2];
    if a == 'i' && b == '3' && c == '2' {
        Suffix::I32
    } else if a == 'i' && b == '6' && c == '4' {
        Suffix::I64
    } else if a == 'u' && b == '3' && c == '2' {
        Suffix::U32
    } else if a == 'u' && b == '6' && c == '4' {
        Suffix::U64
    } else if a == 'f' && b == '3' && c == '2' {
        Suffix::F32
    } else if a == 'f' && b == '6' && c == '4' {
        Suffix::F64
    } else {
        Suffix::Unknown
    }
}

/// The integer before the first `.` of `text`, at most `max`.
pub fn read_integer_part(text: &[char], radix: u32, max: u128) -> (r: Option<u128>)
    requires
        2 <= radix <= 36,
    ensures
        match r {
            Some(v) => integer_part(text@, radix, max as nat) == Some(v as nat),
            None => integer_part(text@, radix, max as nat).is_none(),
        },
{
    let dot = find_dot(text);
    read_number(slice_subrange(text, 0, dot), radix, max)
}

/// Reads `text` on both sides of its first `.` in the radix.
pub fn read_based_float(text: &[char], radix: u32) -> (r: Option<FloatLit>)
    requires
        2 <= radix <= 36,
    ensures
        r == based_float(text@, radix),
{
    let dot = find_dot(text);
    let left = read_number(slice_subrange(text, 0, dot), radix, 0x7fff_ffff);
    if dot >= text.len() {
        match left {
            Some(l) => Some(FloatLit::Based { left: l as i32, right: 0, divider: 1 }),
            None => None,
        }
    } else {
        let rest = slice_subrange(text, dot + 1, text.len());
        let end = find_dot(rest);
        let right = read_number(slice_subrange(rest, 0, end), radix, 0x7fff_ffff);
        match (left, right) {
            (Some(l), Some(r)) => Some(
                FloatLit::Based { left: l as i32, right: r as i32, divider: divider_for(r as u32) },
            ),
            _ => None,
        }
    }
}

/// Reads `text` as a decimal number with a point.
pub fn read_decimal_float(text: &[char]) -> (r: Option<FloatLit>)
    ensures
        r == decimal_float(text@),
{
    let dot = find_dot(text);
    if dot >= text.len() || text.len() <= 1 {
        return None;
    }
    let whole = read_digits(slice_subrange(text, 0, dot), 10, u128::MAX);
    let frac = read_digits(slice_subrange(text, dot + 1, text.len()), 10, u128::MAX);
    let scale = scale_for(text.len() - dot - 1);
    match (whole, frac, scale) {
        (Some(w), Some(f), Some(s)) => Some(FloatLit::Decimal { whole: w, frac: f, scale: s }),
        _ => None,
    }
}

/// The number that `text` stands for under `suffix`.
pub fn read_typed(text: &[char], radix: u32, suffix: Suffix) -> (r: Option<NumExpr>)
    requires
        2 <= radix <= 36,
    ensures
        r == typed_value(text@, radix, suffix),
{
    match suffix {
        Suffix::I32 => match read_integer_part(text, radix, 0x7fff_ffff) {
            Some(v) => Some(NumExpr::I32(v as i32)),
            None => None,
        },
        Suffix::I64 => match read_integer_part(text, radix, 0x7fff_ffff_ffff_ffff) {
            Some(v) => Some(NumExpr::I64(v as i64)),
            None => None,
        },
        Suffix::U32 => match read_integer_part(text, radix, 0xffff_ffff) {
            Some(v) => Some(NumExpr::U32(v as u32)),
            None => None,
        },
        Suffix::U64 => match read_integer_part(text, radix, 0xffff_ffff_ffff_ffff) {
            Some(v) => Some(NumExpr::U64(v as u64)),
            None => None,
        },
        Suffix::F32 => match read_based_float(text, radix) {
            Some(f) => Some(NumExpr::F32(f)),
            None => None,
        },
        Suffix::F64 => match read_based_float(text, radix) {
            Some(f) => Some(NumExpr::F64(f)),
            None => None,
        },
        Suffix::Unknown => None,
    }
}

/// The number that `text` stands for without a suffix.
pub fn read_untyped(text: &[char], radix: u32) -> (r: Option<NumExpr>)
    requires
        2 <= radix <= 36,
    ensures
        r == untyped_value(text@, radix),
{
    if find_dot(text) < text.len() {
        match read_decimal_float(text) {
            Some(f) => Some(NumExpr::F32(f)),
            None => None,
        }
    } else {
        match read_number(text, radix, 0x7fff_ffff) {
            Some(v) => Some(NumExpr::I32(v as i32)),
            None => None,
        }
    }
}

fn outcome(v: Option<NumExpr>) -> (r: NumOutcome)
    ensures
        r == wrap(v),
{
    match v {
        Some(n) => NumOutcome::Value(n),
        None => NumOutcome::Malformed,
    }
}

/// What the numeric lexeme `lexeme` of kind `kind` stands for.
pub fn interpret_number(lexeme: &[char], kind: LitKind) -> (r: NumOutcome)
    ensures
        r == interpret(lexeme@, kind),
{
    proof {
        reveal(interpret);
    }
    let len = lexeme.len();
    let (start, radix): (usize, u32) = match kind.base() {
        Some(NumBase::Bin) => (2, 2),
        Some(NumBase::Oct) => (2, 8),
        Some(NumBase::Hex) => (2, 16),
        Some(NumBase::Dec) => (0, 10),
        None => (0, 10),
    };
    match kind {
        LitKind::Str => NumOutcome::Malformed,
        _ => match kind.suff_off() {
            None => {
                if start <= len {
                    outcome(read_untyped(slice_subrange(lexeme, start, len), radix))
                } else {
                    NumOutcome::Malformed
                }
            },
            Some(off) => {
                if start <= off && off <= len {
                    let suffix = suffix_kind(slice_subrange(lexeme, off, len));
                    match suffix {
                        Suffix::Unknown => NumOutcome::BadSuffix { offset: off, len: len - off },
                        _ => outcome(read_typed(slice_subrange(lexeme, start, off), radix, suffix)),
                    }
                } else {
                    NumOutcome::Malformed
                }
            },
        },
    }
}

} // verus!
