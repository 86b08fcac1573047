use rlox::scanner::new_scanner;
use rlox::token::{
    build_token, get_double_token_type, get_double_token_type_with_possible_equals, Token,
    TokenType,
};
use rlox::{error, is_alpha, is_alphanumeric, is_digit};

fn scan(source: &str) -> (Vec<Token>, Vec<String>) {
    let mut scanner = new_scanner(source.to_string());
    let tokens = scanner.scan_tokens();
    (tokens, scanner.into_diagnostics())
}

fn kinds(source: &str) -> Vec<TokenType> {
    scan(source).0.iter().map(|t| t.tok_type).collect()
}

#[test]
fn empty_source_gives_only_the_end_token() {
    let (tokens, diagnostics) = scan("");
    assert_eq!(tokens.len(), 1);
    assert_eq!(tokens[0].tok_type, TokenType::EOF);
    assert_eq!(tokens[0].lexeme, "");
    assert_eq!(tokens[0].line, 1);
    assert!(diagnostics.is_empty());
}

#[test]
fn single_character_punctuation() {
    assert_eq!(
        kinds("(){},.-+;*/"),
        vec![
            TokenType::LeftParen,
            TokenType::RightParen,
            TokenType::LeftBrace,
            TokenType::RightBrace,
            TokenType::Comma,
            TokenType::Dot,
            TokenType::Minus,
            TokenType::Plus,
            TokenType::Semicolon,
            TokenType::Star,
            TokenType::Slash,
            TokenType::EOF,
        ]
    );
}

#[test]
fn punctuation_lexemes_are_the_characters() {
    let (tokens, _) = scan("( +");
    assert_eq!(tokens[0].lexeme, "(");
    assert_eq!(tokens[1].lexeme, "+");
    assert!(!tokens[0].bool_literal);
    assert_eq!(tokens[0].float_literal, 0);
    assert_eq!(tokens[0].string_literal, "");
}

#[test]
fn one_and_two_character_operators() {
    assert_eq!(
        kinds("! != = == < <= > >="),
        vec![
            TokenType::Bang,
            TokenType::BangEqual,
            TokenType::Equal,
            TokenType::EqualEqual,
            TokenType::Less,
            TokenType::LessEqual,
            TokenType::Greater,
            TokenType::GreaterEqual,
            TokenType::EOF,
        ]
    );
}

#[test]
fn operators_without_spaces() {
    assert_eq!(
        kinds("!===<=>"),
        vec![
            TokenType::BangEqual,
            TokenType::EqualEqual,
            TokenType::LessEqual,
            TokenType::Greater,
            TokenType::EOF,
        ]
    );
    let (tokens, _) = scan("<=");
    assert_eq!(tokens[0].lexeme, "<=");
}

#[test]
fn operator_at_the_end_of_the_text() {
    assert_eq!(kinds("1 <"), vec![TokenType::Number, TokenType::Less, TokenType::EOF]);
}

#[test]
fn comment_runs_to_the_end_of_the_line() {
    let (tokens, diagnostics) = scan("// nothing here\n1 // nor here");
    assert_eq!(tokens.len(), 2);
    assert_eq!(tokens[0].tok_type, TokenType::Number);
    assert_eq!(tokens[0].line, 2);
    assert_eq!(tokens[1].tok_type, TokenType::EOF);
    assert_eq!(tokens[1].line, 2);
    assert!(diagnostics.is_empty());
}

#[test]
fn slash_alone_is_a_token() {
    assert_eq!(
        kinds("8 / 2"),
        vec![TokenType::Number, TokenType::Slash, TokenType::Number, TokenType::EOF]
    );
}

#[test]
fn whitespace_is_discarded_and_lines_are_counted() {
    let (tokens, _) = scan("1 \t\r\n2\n\n3");
    let lines: Vec<i64> = tokens.iter().map(|t| t.line).collect();
    assert_eq!(lines, vec![1, 2, 4, 4]);
}

#[test]
fn string_literal_holds_the_text_between_the_quotes() {
    let (tokens, diagnostics) = scan("\"abc\"");
    assert_eq!(tokens.len(), 2);
    assert_eq!(tokens[0].tok_type, TokenType::String);
    assert_eq!(tokens[0].lexeme, "\"abc\"");
    assert_eq!(tokens[0].string_literal, "abc");
    assert!(!tokens[0].bool_literal);
    assert_eq!(tokens[0].float_literal, 0);
    assert!(diagnostics.is_empty());
}

#[test]
fn empty_string_literal() {
    let (tokens, _) = scan("\"\"");
    assert_eq!(tokens[0].tok_type, TokenType::String);
    assert_eq!(tokens[0].lexeme, "\"\"");
    assert_eq!(tokens[0].string_literal, "");
}

#[test]
fn string_over_two_lines_counts_the_line_feed() {
    let (tokens, _) = scan("\"a\nb\" 1");
    assert_eq!(tokens[0].tok_type, TokenType::String);
    assert_eq!(tokens[0].string_literal, "a\nb");
    assert_eq!(tokens[0].line, 2);
    assert_eq!(tokens[1].tok_type, TokenType::Number);
    assert_eq!(tokens[1].line, 2);
}

#[test]
fn unterminated_string_is_reported_and_still_emitted() {
    let (tokens, diagnostics) = scan("1 \"abc");
    assert_eq!(tokens.len(), 3);
    assert_eq!(tokens[1].tok_type, TokenType::String);
    assert_eq!(tokens[1].lexeme, "\"abc");
    assert_eq!(tokens[1].string_literal, "abc");
    assert_eq!(tokens[2].tok_type, TokenType::EOF);
    assert_eq!(diagnostics, vec!["[line 1] Error: Unterminated string.".to_string()]);
}

#[test]
fn unterminated_string_is_reported_on_its_last_line() {
    let (tokens, diagnostics) = scan("\"a\nb\n");
    assert_eq!(tokens[0].string_literal, "a\nb\n");
    assert_eq!(tokens[0].line, 3);
    assert_eq!(diagnostics, vec!["[line 3] Error: Unterminated string.".to_string()]);
}

#[test]
fn a_lone_quote_is_an_unterminated_empty_string() {
    let (tokens, diagnostics) = scan("\"");
    assert_eq!(tokens.len(), 2);
    assert_eq!(tokens[0].lexeme, "\"");
    assert_eq!(tokens[0].string_literal, "");
    assert_eq!(diagnostics.len(), 1);
}

#[test]
fn integer_number_literal() {
    let (tokens, _) = scan("123");
    assert_eq!(tokens[0].tok_type, TokenType::Number);
    assert_eq!(tokens[0].lexeme, "123");
    assert_eq!(f64::from_bits(tokens[0].float_literal), 123.0);
    assert_eq!(tokens[0].string_literal, "");
}

#[test]
fn fractional_number_literal() {
    let (tokens, _) = scan("3.25");
    assert_eq!(tokens.len(), 2);
    assert_eq!(tokens[0].lexeme, "3.25");
    assert_eq!(tokens[0].float_literal, 3.25f64.to_bits());
}

#[test]
fn trailing_dot_is_not_part_of_the_number() {
    let (tokens, _) = scan("1.");
    assert_eq!(
        tokens.iter().map(|t| t.tok_type).collect::<Vec<_>>(),
        vec![TokenType::Number, TokenType::Dot, TokenType::EOF]
    );
    assert_eq!(tokens[0].lexeme, "1");
    assert_eq!(f64::from_bits(tokens[0].float_literal), 1.0);
}

#[test]
fn leading_dot_is_not_part_of_the_number() {
    let (tokens, _) = scan(".5");
    assert_eq!(
        tokens.iter().map(|t| t.tok_type).collect::<Vec<_>>(),
        vec![TokenType::Dot, TokenType::Number, TokenType::EOF]
    );
    assert_eq!(f64::from_bits(tokens[1].float_literal), 5.0);
}

#[test]
fn second_dot_ends_the_number() {
    let (tokens, _) = scan("1.2.3");
    assert_eq!(
        tokens.iter().map(|t| t.tok_type).collect::<Vec<_>>(),
        vec![TokenType::Number, TokenType::Dot, TokenType::Number, TokenType::EOF]
    );
    assert_eq!(tokens[0].lexeme, "1.2");
    assert_eq!(tokens[2].lexeme, "3");
}

#[test]
fn number_literals_are_read_as_the_nearest_double() {
    for text in [
        "0",
        "0.1",
        "0.3",
        "1.7976931348623157",
        "9007199254740993",
        "9007199254740995",
        "123456789012345678901234567890",
        "0.000000000000000000000000000001",
        "2.2250738585072011",
        "179769313486231580793728971405303415079934132710037826936173778980444968292764750946649017977587207096330286416692887910946555547851940402630657488671505820681908902000708383676273854845817711531764475730270069855571366959622842914819860834936475292719074168444365510704342711559699508093042880177904174497791",
        "0.1000000000000000055511151231257827021181583404541015625",
    ] {
        let (tokens, diagnostics) = scan(text);
        assert_eq!(tokens.len(), 2, "{}", text);
        let expected: f64 = text.parse().unwrap();
        assert_eq!(tokens[0].float_literal, expected.to_bits(), "{}", text);
        assert!(diagnostics.is_empty());
    }
}

#[test]
fn number_too_large_for_a_double_is_infinite() {
    let text = "1".to_string() + &"0".repeat(400);
    let (tokens, _) = scan(&text);
    assert_eq!(tokens[0].float_literal, f64::INFINITY.to_bits());
}

#[test]
fn every_reserved_word_has_its_kind() {
    assert_eq!(
        kinds("and class else false fun for if nil or print return super this true var while"),
        vec![
            TokenType::And,
            TokenType::Class,
            TokenType::Else,
            TokenType::False,
            TokenType::Fun,
            TokenType::For,
            TokenType::If,
            TokenType::Nil,
            TokenType::Or,
            TokenType::Print,
            TokenType::Return,
            TokenType::Super,
            TokenType::This,
            TokenType::True,
            TokenType::Var,
            TokenType::While,
            TokenType::EOF,
        ]
    );
}

#[test]
fn identifiers_are_not_reserved_words() {
    let (tokens, _) = scan("foo _bar1 orchid And nil_ x9");
    for token in &tokens[..6] {
        assert_eq!(token.tok_type, TokenType::Identifier, "{}", token.lexeme);
    }
    assert_eq!(tokens[1].lexeme, "_bar1");
    assert_eq!(tokens[6].tok_type, TokenType::EOF);
}

#[test]
fn only_true_carries_a_true_payload() {
    let (tokens, _) = scan("true false nil");
    assert!(tokens[0].bool_literal);
    assert!(!tokens[1].bool_literal);
    assert!(!tokens[2].bool_literal);
}

#[test]
fn unexpected_character_is_reported_and_skipped() {
    let (tokens, diagnostics) = scan("1 @ 2");
    assert_eq!(
        tokens.iter().map(|t| t.tok_type).collect::<Vec<_>>(),
        vec![TokenType::Number, TokenType::Number, TokenType::EOF]
    );
    assert_eq!(diagnostics, vec!["[line 1] Error: Unexpected character: @".to_string()]);
}

#[test]
fn several_lexical_errors_are_all_reported() {
    let (tokens, diagnostics) = scan("#\n$\n\"x");
    assert_eq!(tokens.len(), 2);
    assert_eq!(
        diagnostics,
        vec![
            "[line 1] Error: Unexpected character: #".to_string(),
            "[line 2] Error: Unexpected character: $".to_string(),
            "[line 3] Error: Unterminated string.".to_string(),
        ]
    );
}

#[test]
fn characters_outside_ascii_are_scanned_one_by_one() {
    let (tokens, diagnostics) = scan("é1 \"日本\"");
    assert_eq!(
        tokens.iter().map(|t| t.tok_type).collect::<Vec<_>>(),
        vec![TokenType::Number, TokenType::String, TokenType::EOF]
    );
    assert_eq!(tokens[1].string_literal, "日本");
    assert_eq!(diagnostics, vec!["[line 1] Error: Unexpected character: é".to_string()]);
}

#[test]
fn letters_outside_ascii_do_not_start_an_identifier() {
    let (tokens, diagnostics) = scan("ñ");
    assert_eq!(tokens.len(), 1);
    assert_eq!(diagnostics.len(), 1);
}

#[test]
fn a_second_scan_finds_only_the_end_token() {
    let mut scanner = new_scanner("1 + 2".to_string());
    let first = scanner.scan_tokens();
    assert_eq!(first.len(), 4);
    let second = scanner.scan_tokens();
    assert_eq!(second.len(), 1);
    assert_eq!(second[0].tok_type, TokenType::EOF);
    assert_eq!(second[0].line, 1);
}

#[test]
fn diagnostics_can_be_read_without_giving_up_the_scanner() {
    let mut scanner = new_scanner("?".to_string());
    let _ = scanner.scan_tokens();
    assert_eq!(scanner.diagnostics().len(), 1);
    assert_eq!(scanner.diagnostics()[0], "[line 1] Error: Unexpected character: ?");
}

#[test]
fn the_last_token_is_always_the_end_token() {
    for source in ["", "1", "\"open", "// c", "a\nb\n", "@@@", "(((("] {
        let (tokens, _) = scan(source);
        let last = tokens.last().unwrap();
        assert_eq!(last.tok_type, TokenType::EOF);
        assert_eq!(last.lexeme, "");
        for token in &tokens[..tokens.len() - 1] {
            assert_ne!(token.tok_type, TokenType::EOF);
        }
    }
}

#[test]
fn single_operator_kinds() {
    assert_eq!(get_double_token_type(&'!'), Some(TokenType::Bang));
    assert_eq!(get_double_token_type(&'='), Some(TokenType::Equal));
    assert_eq!(get_double_token_type(&'<'), Some(TokenType::Less));
    assert_eq!(get_double_token_type(&'>'), Some(TokenType::Greater));
    assert_eq!(get_double_token_type(&'+'), None);
}

#[test]
fn double_operator_kinds() {
    let eq = '=';
    let other = '1';
    assert_eq!(
        get_double_token_type_with_possible_equals(&'!', Some(&eq)),
        Some(TokenType::BangEqual)
    );
    assert_eq!(
        get_double_token_type_with_possible_equals(&'=', Some(&eq)),
        Some(TokenType::EqualEqual)
    );
    assert_eq!(
        get_double_token_type_with_possible_equals(&'<', Some(&eq)),
        Some(TokenType::LessEqual)
    );
    assert_eq!(
        get_double_token_type_with_possible_equals(&'>', Some(&eq)),
        Some(TokenType::GreaterEqual)
    );
    assert_eq!(get_double_token_type_with_possible_equals(&'+', Some(&eq)), None);
    assert_eq!(
        get_double_token_type_with_possible_equals(&'<', Some(&other)),
        Some(TokenType::Less)
    );
    assert_eq!(get_double_token_type_with_possible_equals(&'>', None), Some(TokenType::Greater));
    assert_eq!(get_double_token_type_with_possible_equals(&'/', None), None);
}

#[test]
fn letters_and_underscore_are_alpha() {
    assert!(is_alpha('a'));
    assert!(is_alpha('z'));
    assert!(is_alpha('A'));
    assert!(is_alpha('Z'));
    assert!(is_alpha('_'));
    assert!(!is_alpha('0'));
    assert!(!is_alpha('-'));
    assert!(!is_alpha('é'));
    assert!(!is_alpha('\0'));
}

#[test]
fn letters_digits_and_underscore_are_alphanumeric() {
    assert!(is_alphanumeric('a'));
    assert!(is_alphanumeric('_'));
    assert!(is_alphanumeric('0'));
    assert!(is_alphanumeric('9'));
    assert!(!is_alphanumeric('.'));
    assert!(!is_alphanumeric(' '));
    assert!(is_digit('5'));
    assert!(!is_digit('a'));
    assert!(!is_digit('٣'));
}

#[test]
fn error_renders_the_line_and_the_message() {
    assert_eq!(error(3, "Unterminated string.".to_string()), "[line 3] Error: Unterminated string.");
    assert_eq!(error(-12, "m".to_string()), "[line -12] Error: m");
}

#[test]
fn build_token_keeps_every_part() {
    let t = build_token(
        TokenType::Number,
        "1.5".to_string(),
        7,
        false,
        1.5f64.to_bits(),
        String::new(),
    );
    assert_eq!(t.tok_type, TokenType::Number);
    assert_eq!(t.lexeme, "1.5");
    assert_eq!(t.line, 7);
    assert!(!t.bool_literal);
    assert_eq!(t.float_literal, 1.5f64.to_bits());
    assert_eq!(t.string_literal, "");
    let u = t.clone();
    assert_eq!(u.lexeme, "1.5");
    assert_eq!(u.float_literal, t.float_literal);
}

#[test]
fn kind_names() {
    assert_eq!(TokenType::LeftParen.to_string(), "LeftParen");
    assert_eq!(TokenType::EOF.to_string(), "EOF");
    assert_eq!(TokenType::Else.to_string(), "Else");
    assert_eq!(TokenType::While.to_string(), "While");
}

#[test]
fn the_end_token_stands_on_the_line_after_the_last_line_feed() {
    for source in ["", "\n", "1\n2", "\"a\nb\"\n", "// c\n// d\n\n", "\"open\n\n", "a\r\nb", "@\n@\n@"] {
        let (tokens, _) = scan(source);
        let feeds = source.chars().filter(|c| *c == '\n').count() as i64;
        assert_eq!(tokens.last().unwrap().line, 1 + feeds, "{:?}", source);
    }
}

#[test]
fn lexemes_stand_in_the_text_from_left_to_right() {
    for source in ["1 + 2", "(a<=b) // c\n\"s t\" 3.5.x", "!==\"é\"nil", "\"open\n"] {
        let (tokens, _) = scan(source);
        let chars: Vec<char> = source.chars().collect();
        let mut from = 0;
        for token in &tokens {
            let lexeme: Vec<char> = token.lexeme.chars().collect();
            let mut at = from;
            while chars[at..].len() >= lexeme.len() && chars[at..at + lexeme.len()] != lexeme[..] {
                at += 1;
            }
            assert!(at + lexeme.len() <= chars.len(), "{:?} {:?}", source, token.lexeme);
            assert_eq!(&chars[at..at + lexeme.len()], &lexeme[..]);
            from = at + lexeme.len();
        }
    }
}

#[test]
fn number_payloads_are_never_negative_nor_not_a_number() {
    for source in ["0", "0.0", "1", "99999999999999999999", "0.00000000000000000000000000000000000001"] {
        let (tokens, _) = scan(source);
        let x = f64::from_bits(tokens[0].float_literal);
        assert!(!x.is_nan());
        assert!(x.is_sign_positive());
    }
}
