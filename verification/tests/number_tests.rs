use rlox::interpreter::evaluate;
use rlox::number::{number_equal, number_is_nan, number_less, number_less_equal, number_negate};
use rlox::parser::{Expression, LiteralType};
use rlox::scanner::new_scanner;
use rlox::token::{build_token, TokenType};

/// A small deterministic generator of 64-bit patterns.
fn next(state: &mut u64) -> u64 {
    *state ^= *state << 13;
    *state ^= *state >> 7;
    *state ^= *state << 17;
    *state
}

fn literal(bits: u64) -> Box<Expression> {
    Box::new(Expression::Literal {
        lit: build_token(TokenType::Number, String::new(), 1, false, bits, String::new()),
    })
}

fn apply(kind: TokenType, a: u64, b: u64) -> u64 {
    let tree = Expression::Binary {
        left: literal(a),
        operator: build_token(kind, String::new(), 1, false, 0, String::new()),
        right: literal(b),
    };
    match evaluate(tree) {
        Ok(LiteralType::Float { lit }) => lit,
        _ => panic!("no number"),
    }
}

fn same(got: u64, expected: f64) -> bool {
    if expected.is_nan() {
        f64::from_bits(got).is_nan()
    } else {
        got == expected.to_bits()
    }
}

#[test]
fn arithmetic_agrees_with_the_machine_on_random_patterns() {
    let mut state = 0x9e37_79b9_7f4a_7c15u64;
    for _ in 0..20000 {
        let a = next(&mut state);
        let b = next(&mut state);
        let (x, y) = (f64::from_bits(a), f64::from_bits(b));
        assert!(same(apply(TokenType::Plus, a, b), x + y), "{:e} + {:e}", x, y);
        assert!(same(apply(TokenType::Minus, a, b), x - y), "{:e} - {:e}", x, y);
        assert!(same(apply(TokenType::Star, a, b), x * y), "{:e} * {:e}", x, y);
        assert!(same(apply(TokenType::Slash, a, b), x / y), "{:e} / {:e}", x, y);
    }
}

#[test]
fn arithmetic_agrees_with_the_machine_on_close_exponents() {
    let mut state = 0x2545_f491_4f6c_dd1du64;
    for _ in 0..20000 {
        let a = (next(&mut state) & 0x800f_ffff_ffff_ffff) | 0x3ff0_0000_0000_0000;
        let shift = next(&mut state) % 120;
        let b = (next(&mut state) & 0x800f_ffff_ffff_ffff) | ((0x3c4 + shift) << 52);
        let (x, y) = (f64::from_bits(a), f64::from_bits(b));
        assert!(same(apply(TokenType::Plus, a, b), x + y), "{:e} + {:e}", x, y);
        assert!(same(apply(TokenType::Minus, a, b), x - y), "{:e} - {:e}", x, y);
        assert!(same(apply(TokenType::Star, a, b), x * y), "{:e} * {:e}", x, y);
        assert!(same(apply(TokenType::Slash, a, b), x / y), "{:e} / {:e}", x, y);
    }
}

#[test]
fn order_agrees_with_the_machine_on_random_patterns() {
    let mut state = 0x1234_5678_9abc_def1u64;
    for _ in 0..50000 {
        let a = next(&mut state);
        let b = if next(&mut state) % 8 == 0 { a ^ (next(&mut state) & 0x8000_0000_0000_0001) } else { next(&mut state) };
        let (x, y) = (f64::from_bits(a), f64::from_bits(b));
        assert_eq!(number_is_nan(a), x.is_nan());
        assert_eq!(number_negate(a), (-x).to_bits());
        assert_eq!(number_equal(a, b), x == y, "{:e} == {:e}", x, y);
        assert_eq!(number_less(a, b), x < y, "{:e} < {:e}", x, y);
        assert_eq!(number_less_equal(a, b), x <= y, "{:e} <= {:e}", x, y);
    }
}

#[test]
fn decimal_texts_are_read_as_the_machine_reads_them() {
    let mut state = 0x0dd_ba11_5eed_cafeu64;
    for _ in 0..5000 {
        let whole_len = 1 + next(&mut state) % 25;
        let fraction_len = next(&mut state) % 25;
        let mut text = String::new();
        for _ in 0..whole_len {
            text.push(char::from(b'0' + (next(&mut state) % 10) as u8));
        }
        if fraction_len > 0 {
            text.push('.');
            for _ in 0..fraction_len {
                text.push(char::from(b'0' + (next(&mut state) % 10) as u8));
            }
        }
        let tokens = new_scanner(text.clone()).scan_tokens();
        assert_eq!(tokens.len(), 2, "{}", text);
        assert_eq!(tokens[0].lexeme, text);
        let expected: f64 = text.parse().unwrap();
        assert_eq!(tokens[0].float_literal, expected.to_bits(), "{}", text);
    }
}

#[test]
fn shortest_texts_of_random_doubles_are_read_back() {
    let mut state = 0x0bad_c0de_1234_5678u64;
    let mut tried = 0;
    while tried < 300 {
        let bits = next(&mut state) & 0x7fff_ffff_ffff_ffff;
        let x = f64::from_bits(bits);
        if !x.is_finite() {
            continue;
        }
        tried += 1;
        let text = format!("{}", x);
        let tokens = new_scanner(text.clone()).scan_tokens();
        assert_eq!(tokens.len(), 2, "{}", text);
        assert_eq!(tokens[0].float_literal, bits, "{}", text);
    }
}
