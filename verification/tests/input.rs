use nsv::input::{parse_sequence, InvalidTokenError};
use nsv::matrix::BitMatrix;
use num_bigint::BigUint;

fn numbers(values: &[u64]) -> Vec<BigUint> {
    values.iter().map(|v| BigUint::from(*v)).collect()
}

fn bad(index: usize) -> Result<Vec<BigUint>, InvalidTokenError> {
    Err(InvalidTokenError { index })
}

#[test]
fn reads_numbers_separated_by_blanks() {
    assert_eq!(parse_sequence("0 1 2 3"), Ok(numbers(&[0, 1, 2, 3])));
    assert_eq!(parse_sequence("42"), Ok(numbers(&[42])));
}

#[test]
fn any_amount_of_whitespace_separates() {
    assert_eq!(parse_sequence("  12\n34\t5   1000 \r\n"), Ok(numbers(&[12, 34, 5, 1000])));
    assert_eq!(parse_sequence("\n\n7\n\n\n8"), Ok(numbers(&[7, 8])));
    assert_eq!(parse_sequence("1\u{a0}2\u{2003}3\u{3000}4\u{b}5\u{c}6"), Ok(numbers(&[1, 2, 3, 4, 5, 6])));
}

#[test]
fn text_without_tokens_lists_nothing() {
    assert_eq!(parse_sequence(""), Ok(Vec::new()));
    assert_eq!(parse_sequence(" \t\r\n "), Ok(Vec::new()));
}

#[test]
fn numerals_may_carry_a_plus_sign_and_underscores() {
    assert_eq!(parse_sequence("+5 1_000 1__2_ 007 0_0 +0"), Ok(numbers(&[5, 1000, 12, 7, 0, 0])));
}

#[test]
fn first_token_that_is_no_numeral_is_reported() {
    assert_eq!(parse_sequence("1 x 3"), bad(1));
    assert_eq!(parse_sequence("1 x y"), bad(1));
    assert_eq!(parse_sequence("-1"), bad(0));
    assert_eq!(parse_sequence("1 2 _3"), bad(2));
    assert_eq!(parse_sequence("1 2 3 4.5"), bad(3));
    assert_eq!(parse_sequence("12a"), bad(0));
    assert_eq!(parse_sequence("0x10"), bad(0));
    assert_eq!(parse_sequence("  +  "), bad(0));
    assert_eq!(parse_sequence("3 ++1"), bad(1));
    assert_eq!(parse_sequence("3 +_1"), bad(1));
    assert_eq!(parse_sequence("3 1+"), bad(1));
    assert_eq!(parse_sequence("\u{663}"), bad(0));
    assert_eq!(parse_sequence("1,2"), bad(0));
    assert_eq!(parse_sequence("9 8 7 6 5 4 3 2 1 zero"), bad(9));
}

#[test]
fn reads_numbers_beyond_the_machine_word() {
    let r = parse_sequence("340282366920938463463374607431768211456 18446744073709551616").unwrap();
    assert_eq!(r, vec![BigUint::from(1u32) << 128usize, BigUint::from(1u32) << 64usize]);
    assert_eq!(r[0].bits(), 129);
}

#[test]
fn text_to_matrix() {
    let seq = parse_sequence("0\n1\n2\n3\n").unwrap();
    let m = BitMatrix::build(&seq).unwrap();
    assert_eq!((m.width(), m.height()), (4, 2));
    assert_eq!(m.pixels(), &vec![0, 0, 255, 255, 0, 255, 0, 255]);
}

#[test]
fn empty_text_gives_no_matrix() {
    let seq = parse_sequence("\n").unwrap();
    assert!(BitMatrix::build(&seq).is_err());
}
