use expr_frontend::number::divider_for;
use expr_frontend::number::find_dot;
use expr_frontend::number::interpret_number;
use expr_frontend::number::read_based_float;
use expr_frontend::number::read_decimal_float;
use expr_frontend::number::read_digits;
use expr_frontend::number::read_number;
use expr_frontend::number::scale_for;
use expr_frontend::number::suffix_kind;
use expr_frontend::number::FloatLit;
use expr_frontend::number::NumExpr;
use expr_frontend::number::NumOutcome;
use expr_frontend::number::Suffix;
use expr_frontend::chars::digit_value;
use expr_frontend::chars::is_digit;
use expr_frontend::chars::utf8_width;
use expr_frontend::token::LitKind;
use expr_frontend::token::NumBase;

fn chars(s: &str) -> Vec<char> {
    s.chars().collect()
}

#[test]
fn digits_in_every_radix() {
    assert_eq!(read_number(&chars("101"), 2, 1000), Some(5));
    assert_eq!(read_number(&chars("17"), 8, 1000), Some(15));
    assert_eq!(read_number(&chars("42"), 10, 1000), Some(42));
    assert_eq!(read_number(&chars("fF"), 16, 1000), Some(255));
    assert_eq!(read_number(&chars("zz"), 36, 10000), Some(35 * 36 + 35));
    assert_eq!(read_number(&chars(""), 10, 1000), None);
    assert_eq!(read_digits(&chars(""), 10, 1000), Some(0));
    assert_eq!(read_number(&chars("12"), 2, 1000), None);
    assert_eq!(read_number(&chars("8"), 8, 1000), None);
    assert_eq!(read_number(&chars("+1"), 10, 1000), None);
    assert_eq!(read_number(&chars("1000"), 10, 1000), Some(1000));
    assert_eq!(read_number(&chars("1001"), 10, 1000), None);
    assert_eq!(read_number(&chars("0000000000000000000000000000000000000000007"), 10, 7), Some(7));
}

#[test]
fn digits_agree_with_the_standard_library() {
    for radix in [2u32, 8, 10, 16] {
        for text in ["0", "1", "7", "9", "a", "F", "10", "777", "12345678", "ffffffff", "100000000", "4294967295", "4294967296", "g", "1_0", " 1", ""] {
            let ours = read_number(&chars(text), radix, u32::MAX as u128).map(|v| v as u32);
            assert_eq!(ours, u32::from_str_radix(text, radix).ok());
        }
    }
    assert_eq!(
        read_number(&chars("340282366920938463463374607431768211455"), 10, u128::MAX),
        Some(u128::MAX)
    );
    assert_eq!(read_number(&chars("340282366920938463463374607431768211456"), 10, u128::MAX), None);
}

#[test]
fn digit_classes_and_values() {
    assert!(is_digit('1', 2) && !is_digit('2', 2));
    assert!(is_digit('7', 8) && !is_digit('8', 8));
    assert!(is_digit('9', 10) && !is_digit('a', 10));
    assert!(is_digit('f', 16) && is_digit('F', 16) && !is_digit('g', 16));
    assert_eq!(digit_value('0'), 0);
    assert_eq!(digit_value('9'), 9);
    assert_eq!(digit_value('a'), 10);
    assert_eq!(digit_value('F'), 15);
    assert_eq!(utf8_width('a'), 1);
    assert_eq!(utf8_width('é'), 2);
    assert_eq!(utf8_width('€'), 3);
    assert_eq!(utf8_width('𝄞'), 4);
}

#[test]
fn the_divider_is_the_smallest_power_of_ten_above() {
    assert_eq!(divider_for(0), 1);
    assert_eq!(divider_for(1), 10);
    assert_eq!(divider_for(5), 10);
    assert_eq!(divider_for(9), 10);
    assert_eq!(divider_for(10), 100);
    assert_eq!(divider_for(25), 100);
    assert_eq!(divider_for(99), 100);
    assert_eq!(divider_for(100), 1000);
    assert_eq!(divider_for(u32::MAX), 10_000_000_000);
    assert_eq!(scale_for(0), Some(1));
    assert_eq!(scale_for(3), Some(1000));
    assert_eq!(scale_for(38), Some(100_000_000_000_000_000_000_000_000_000_000_000_000));
    assert_eq!(scale_for(39), None);
}

#[test]
fn dots_and_suffixes() {
    assert_eq!(find_dot(&chars("12.5")), 2);
    assert_eq!(find_dot(&chars(".5")), 0);
    assert_eq!(find_dot(&chars("125")), 3);
    assert_eq!(find_dot(&chars("")), 0);
    assert_eq!(suffix_kind(&chars("i32")), Suffix::I32);
    assert_eq!(suffix_kind(&chars("i64")), Suffix::I64);
    assert_eq!(suffix_kind(&chars("u32")), Suffix::U32);
    assert_eq!(suffix_kind(&chars("u64")), Suffix::U64);
    assert_eq!(suffix_kind(&chars("f32")), Suffix::F32);
    assert_eq!(suffix_kind(&chars("f64")), Suffix::F64);
    assert_eq!(suffix_kind(&chars("u8")), Suffix::Unknown);
    assert_eq!(suffix_kind(&chars("u322")), Suffix::Unknown);
    assert_eq!(suffix_kind(&chars("f33")), Suffix::Unknown);
}

#[test]
fn based_fractions() {
    assert_eq!(
        read_based_float(&chars("3.5"), 10),
        Some(FloatLit::Based { left: 3, right: 5, divider: 10 })
    );
    assert_eq!(
        read_based_float(&chars("0.25"), 10),
        Some(FloatLit::Based { left: 0, right: 25, divider: 100 })
    );
    assert_eq!(
        read_based_float(&chars("1.05"), 10),
        Some(FloatLit::Based { left: 1, right: 5, divider: 10 })
    );
    assert_eq!(
        read_based_float(&chars("1.10"), 10),
        Some(FloatLit::Based { left: 1, right: 10, divider: 100 })
    );
    assert_eq!(
        read_based_float(&chars("ff.a"), 16),
        Some(FloatLit::Based { left: 255, right: 10, divider: 100 })
    );
    assert_eq!(
        read_based_float(&chars("12"), 10),
        Some(FloatLit::Based { left: 12, right: 0, divider: 1 })
    );
    assert_eq!(read_based_float(&chars(".5"), 10), None);
    assert_eq!(read_based_float(&chars("5."), 10), None);
    assert_eq!(read_based_float(&chars("2147483648.0"), 10), None);
}

#[test]
fn decimal_fractions() {
    assert_eq!(
        read_decimal_float(&chars("12.050")),
        Some(FloatLit::Decimal { whole: 12, frac: 50, scale: 1000 })
    );
    assert_eq!(
        read_decimal_float(&chars(".5")),
        Some(FloatLit::Decimal { whole: 0, frac: 5, scale: 10 })
    );
    assert_eq!(
        read_decimal_float(&chars("5.")),
        Some(FloatLit::Decimal { whole: 5, frac: 0, scale: 1 })
    );
    assert_eq!(read_decimal_float(&chars(".")), None);
    assert_eq!(read_decimal_float(&chars("5")), None);
    assert_eq!(read_decimal_float(&chars("1.e5")), None);
    assert_eq!(read_decimal_float(&chars("1.2.3")), None);
    assert_eq!(
        read_decimal_float(&chars("3.14159265358979323846264338327950288")),
        Some(FloatLit::Decimal {
            whole: 3,
            frac: 14159265358979323846264338327950288,
            scale: 100_000_000_000_000_000_000_000_000_000_000_000,
        })
    );
    assert_eq!(read_decimal_float(&chars("0.000000000000000000000000000000000000001")), None);
}

#[test]
fn interpretation_follows_kind_and_suffix() {
    let plain = LitKind::Int { base: None, suff_off: None };
    assert_eq!(interpret_number(&chars("42"), plain), NumOutcome::Value(NumExpr::I32(42)));
    let hex = LitKind::Int { base: Some(NumBase::Hex), suff_off: Some(4) };
    assert_eq!(interpret_number(&chars("0xFFu64"), hex), NumOutcome::Value(NumExpr::U64(255)));
    let dec = LitKind::Int { base: Some(NumBase::Dec), suff_off: None };
    assert_eq!(interpret_number(&chars("012"), dec), NumOutcome::Value(NumExpr::I32(12)));
    let bad = LitKind::Int { base: None, suff_off: Some(1) };
    assert_eq!(interpret_number(&chars("1u16"), bad), NumOutcome::BadSuffix { offset: 1, len: 3 });
    let outside = LitKind::Int { base: None, suff_off: Some(9) };
    assert_eq!(interpret_number(&chars("1u32"), outside), NumOutcome::Malformed);
    assert_eq!(interpret_number(&chars("1"), LitKind::Str), NumOutcome::Malformed);
    let short = LitKind::Int { base: Some(NumBase::Bin), suff_off: None };
    assert_eq!(interpret_number(&chars("0"), short), NumOutcome::Malformed);
}

fn value(text: &str, kind: LitKind) -> f64 {
    match interpret_number(&chars(text), kind) {
        NumOutcome::Value(NumExpr::F32(lit)) | NumOutcome::Value(NumExpr::F64(lit)) => match lit {
            FloatLit::Based { left, right, divider } => left as f64 + right as f64 / divider as f64,
            FloatLit::Decimal { whole, frac, scale } => whole as f64 + frac as f64 / scale as f64,
        },
        other => panic!("{:?}", other),
    }
}

#[test]
fn fractional_literals_stand_for_their_value() {
    assert_eq!(value("3.5f32", LitKind::Float { base: None, suff_off: Some(3) }), 3.5);
    assert_eq!(value("0.25f64", LitKind::Float { base: None, suff_off: Some(4) }), 0.25);
    assert_eq!(value("0x1.8", LitKind::Float { base: Some(NumBase::Hex), suff_off: None }), 1.8);
    assert_eq!(value("2.75", LitKind::Float { base: None, suff_off: None }), 2.75);
    assert_eq!(value("0b1.1f32", LitKind::Float { base: Some(NumBase::Bin), suff_off: Some(5) }), 1.1);
    assert_eq!(value("9f64", LitKind::Int { base: None, suff_off: Some(1) }), 9.0);
}
