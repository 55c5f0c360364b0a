use miniscript::number::{num_add, num_div, num_from_lexeme, num_lt, num_mul, num_sub, Num};

#[test]
fn rationals_reduce_to_lowest_terms() {
    assert_eq!(Num::ratio(78, 10).unwrap(), Num { n: 39, d: 5 });
    assert_eq!(Num::ratio(0, 7).unwrap(), Num { n: 0, d: 1 });
    assert_eq!(Num::ratio(-6, 4).unwrap(), Num { n: -3, d: 2 });
}

#[test]
fn arithmetic_is_exact() {
    let a = Num::ratio(1, 10).unwrap();
    let b = Num::ratio(2, 10).unwrap();
    let c = num_add(a, b).unwrap();
    assert_eq!(c, Num::ratio(3, 10).unwrap());
    assert_eq!(num_sub(c, b).unwrap(), a);
    assert_eq!(num_mul(a, b).unwrap(), Num::ratio(2, 100).unwrap());
    assert_eq!(num_div(a, b).unwrap(), Num::ratio(1, 2).unwrap());
    assert!(num_lt(a, b));
    assert!(!num_lt(b, a));
}

#[test]
fn addition_overflow_is_detected() {
    let big = Num::from_int(i64::MAX);
    assert!(num_add(big, Num::from_int(1)).is_none());
    assert!(num_add(big, Num::from_int(0)).is_some());
}

#[test]
fn number_literals_parse_exactly() {
    assert_eq!(num_from_lexeme("45.67").unwrap(), Num::ratio(4567, 100).unwrap());
    assert_eq!(num_from_lexeme("123").unwrap(), Num::from_int(123));
    assert_eq!(num_from_lexeme(".5").unwrap(), Num::ratio(1, 2).unwrap());
    assert_eq!(num_from_lexeme("0.250").unwrap(), Num::ratio(1, 4).unwrap());
    assert!(num_from_lexeme("").is_none());
    assert!(num_from_lexeme(".5.3").is_none());
    assert!(num_from_lexeme("12a").is_none());
    // Literals longer than the length cap are rejected, not rounded.
    assert!(num_from_lexeme("12345678901234567890").is_none());
}

#[test]
fn rendering_prefers_exact_decimals() {
    assert_eq!(Num::ratio(59, 5).unwrap().to_text(), "11.8");
    assert_eq!(Num::from_int(6).to_text(), "6");
    assert_eq!(Num::from_int(-7).to_text(), "-7");
    assert_eq!(Num::ratio(-3, 2).unwrap().to_text(), "-1.5");
    assert_eq!(Num::ratio(1, 8).unwrap().to_text(), "0.125");
    // A value with no finite decimal expansion renders as an exact
    // fraction instead.
    assert_eq!(Num::ratio(1, 3).unwrap().to_text(), "1/3");
}
