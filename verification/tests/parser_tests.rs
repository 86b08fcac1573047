use rlox::parser::{Expression, ParseError, Parser};
use rlox::scanner::new_scanner;
use rlox::token::{build_token, Token, TokenType};

fn tokens_of(source: &str) -> Vec<Token> {
    new_scanner(source.to_string()).scan_tokens()
}

fn parse_source(source: &str) -> Result<Option<Expression>, ParseError> {
    Parser::new(tokens_of(source)).parse()
}

fn tree_of(source: &str) -> Expression {
    parse_source(source).unwrap().unwrap()
}

fn fault_of(source: &str) -> ParseError {
    match parse_source(source) {
        Err(e) => e,
        Ok(_) => panic!("{} parsed", source),
    }
}

/// Prefix notation with the operators' lexemes, to compare shapes.
fn shape(e: &Expression) -> String {
    match e {
        Expression::Binary { left, operator, right } => {
            format!("({} {} {})", operator.lexeme, shape(left), shape(right))
        }
        Expression::Unary { operator, right } => format!("({} {})", operator.lexeme, shape(right)),
        Expression::Literal { lit } => lit.lexeme.clone(),
        Expression::Grouping { group } => format!("(group {})", shape(group)),
    }
}

#[test]
fn empty_program_parses_to_nothing() {
    let mut parser = Parser::new(tokens_of(""));
    assert!(matches!(parser.parse(), Ok(None)));
    assert!(!parser.had_error());
    assert!(matches!(parse_source("  // only a comment\n"), Ok(None)));
}

#[test]
fn a_literal_parses_to_itself() {
    for source in ["1", "2.5", "\"s\"", "true", "false", "nil"] {
        match tree_of(source) {
            Expression::Literal { lit } => assert_eq!(lit.lexeme, source),
            _ => panic!("{} is not a literal", source),
        }
    }
}

#[test]
fn product_binds_tighter_than_sum() {
    assert_eq!(shape(&tree_of("2 + 3 * 4")), "(+ 2 (* 3 4))");
    assert_eq!(shape(&tree_of("2 * 3 + 4")), "(+ (* 2 3) 4)");
    assert_eq!(shape(&tree_of("8 / 2 - 1")), "(- (/ 8 2) 1)");
}

#[test]
fn levels_from_equality_down_to_unary() {
    assert_eq!(
        shape(&tree_of("1 == 2 < 3 + 4 * -5")),
        "(== 1 (< 2 (+ 3 (* 4 (- 5)))))"
    );
    assert_eq!(
        shape(&tree_of("-1 * 2 + 3 >= 4 != true")),
        "(!= (>= (+ (* (- 1) 2) 3) 4) true)"
    );
}

#[test]
fn operators_of_one_level_group_from_the_left() {
    assert_eq!(shape(&tree_of("1 - 2 - 3")), "(- (- 1 2) 3)");
    assert_eq!(shape(&tree_of("1 - 2 + 3 - 4")), "(- (+ (- 1 2) 3) 4)");
    assert_eq!(shape(&tree_of("8 / 4 / 2")), "(/ (/ 8 4) 2)");
    assert_eq!(shape(&tree_of("8 / 4 * 2")), "(* (/ 8 4) 2)");
    assert_eq!(shape(&tree_of("1 < 2 < 3")), "(< (< 1 2) 3)");
    assert_eq!(shape(&tree_of("1 == 2 != 3")), "(!= (== 1 2) 3)");
}

#[test]
fn a_long_chain_parses_without_deep_recursion() {
    let mut source = "1".to_string();
    for _ in 0..20000 {
        source.push_str(" + 1");
    }
    let mut depth = 0;
    let mut node = &tree_of(&source);
    while let Expression::Binary { left, .. } = node {
        depth += 1;
        node = left;
    }
    assert_eq!(depth, 20000);
}

#[test]
fn unary_operators_nest_to_the_right() {
    assert_eq!(shape(&tree_of("!!true")), "(! (! true))");
    assert_eq!(shape(&tree_of("-!-1")), "(- (! (- 1)))");
    assert_eq!(shape(&tree_of("1 - -2")), "(- 1 (- 2))");
}

#[test]
fn groups_override_precedence() {
    assert_eq!(shape(&tree_of("(2 + 3) * 4")), "(* (group (+ 2 3)) 4)");
    assert_eq!(shape(&tree_of("((1))")), "(group (group 1))");
    assert_eq!(shape(&tree_of("-(1 + 2)")), "(- (group (+ 1 2)))");
}

#[test]
fn operator_tokens_are_kept_in_the_tree() {
    match tree_of("1\n+ 2") {
        Expression::Binary { operator, left, right } => {
            assert_eq!(operator.tok_type, TokenType::Plus);
            assert_eq!(operator.line, 2);
            assert!(matches!(*left, Expression::Literal { .. }));
            assert!(matches!(*right, Expression::Literal { .. }));
        }
        _ => panic!("not a binary node"),
    }
}

#[test]
fn unterminated_group_is_a_syntax_error() {
    let mut parser = Parser::new(tokens_of("(1 + 2"));
    assert!(parser.parse().is_err());
    assert_eq!(parser.remaining(), 1);
    let e = fault_of("(1 + 2");
    assert_eq!(e.line, 1);
    assert_eq!(e.msg, "at end Expect ')' after expression.");
    assert!(e.msg.contains("Expect ')' after expression."));
}

#[test]
fn unterminated_group_is_reported_on_the_line_of_the_offending_token() {
    let e = fault_of("(1 +\n 2\n");
    assert_eq!(e.line, 3);
    assert_eq!(e.msg, "at end Expect ')' after expression.");
    let e = fault_of("(1\n\n 2)");
    assert_eq!(e.line, 3);
    assert_eq!(e.msg, "at '2' Expect ')' after expression.");
}

#[test]
fn missing_expression_is_a_syntax_error() {
    let e = fault_of("+");
    assert_eq!(e.line, 1);
    assert_eq!(e.msg, "at '+' Expect expression.");
    let e = fault_of("1 +");
    assert_eq!(e.msg, "at end Expect expression.");
    let e = fault_of("\n\n)");
    assert_eq!(e.line, 3);
    assert_eq!(e.msg, "at ')' Expect expression.");
    let e = fault_of("()");
    assert_eq!(e.msg, "at ')' Expect expression.");
    let e = fault_of("foo");
    assert_eq!(e.msg, "at 'foo' Expect expression.");
    let e = fault_of("1 * (2 + )");
    assert_eq!(e.msg, "at ')' Expect expression.");
}

#[test]
fn a_syntax_error_sets_the_flag() {
    let mut parser = Parser::new(tokens_of("(1"));
    assert!(!parser.had_error());
    assert!(parser.parse().is_err());
    assert!(parser.had_error());
    let mut parser = Parser::new(tokens_of("1"));
    assert!(parser.parse().is_ok());
    assert!(!parser.had_error());
}

#[test]
fn parse_error_as_text() {
    let e = fault_of("\n(1");
    assert_eq!(e.to_string(), "2 at end Expect ')' after expression.");
}

#[test]
fn a_token_behind_the_expression_is_a_syntax_error() {
    let mut parser = Parser::new(tokens_of("1 2 + 3"));
    assert_eq!(parser.remaining(), 5);
    match parser.parse() {
        Err(e) => {
            assert_eq!(e.line, 1);
            assert_eq!(e.msg, "at '2' Expect end of expression.");
        }
        Ok(_) => panic!("parsed"),
    }
    assert!(parser.had_error());
    assert_eq!(parser.remaining(), 4);
    assert_eq!(shape(&parser.parse().unwrap().unwrap()), "(+ 2 3)");
    assert_eq!(parser.remaining(), 1);
    assert!(matches!(parser.parse(), Ok(None)));
}

#[test]
fn tokens_that_make_no_single_expression_are_a_syntax_error() {
    for (source, line, msg) in [
        ("1 2", 1, "at '2' Expect end of expression."),
        ("1 + 2 )", 1, "at ')' Expect end of expression."),
        ("(1) (2)", 1, "at '(' Expect end of expression."),
        ("1\n\ntrue", 3, "at 'true' Expect end of expression."),
        ("1 ; 2", 1, "at ';' Expect end of expression."),
        ("\"a\" foo", 1, "at 'foo' Expect end of expression."),
        ("1 = 2", 1, "at '=' Expect end of expression."),
        ("nil nil", 1, "at 'nil' Expect end of expression."),
    ] {
        let e = fault_of(source);
        assert_eq!(e.line, line, "{}", source);
        assert_eq!(e.msg, msg, "{}", source);
    }
}

#[test]
fn an_expression_up_to_the_end_token_is_parsed_whole() {
    for source in ["1", "1 + 2", "(1)", "-1 * (2 + 3) == !nil", "\"a\" + \"b\""] {
        let mut parser = Parser::new(tokens_of(source));
        assert!(matches!(parser.parse(), Ok(Some(_))), "{}", source);
        assert_eq!(parser.remaining(), 1);
        assert!(!parser.had_error());
    }
}

#[test]
fn end_token_with_others_behind_it_is_not_an_empty_program() {
    let mut tokens = tokens_of("");
    tokens.extend(tokens_of("1"));
    let mut parser = Parser::new(tokens);
    match parser.parse() {
        Err(e) => assert_eq!(e.msg, "at end Expect expression."),
        Ok(_) => panic!("parsed"),
    }
}

#[test]
fn synchronize_stops_behind_a_semicolon() {
    let mut parser = Parser::new(tokens_of("1 + ; 2"));
    parser.synchronize();
    assert_eq!(shape(&parser.parse().unwrap().unwrap()), "2");
}

#[test]
fn synchronize_stops_in_front_of_a_statement_word() {
    for word in ["class", "fun", "var", "for", "if", "while", "print", "return"] {
        let mut parser = Parser::new(tokens_of(&format!("1 2 {} 3 ; 4", word)));
        parser.synchronize();
        match parser.parse() {
            Err(e) => assert_eq!(e.msg, format!("at '{}' Expect expression.", word)),
            Ok(_) => panic!("parsed"),
        }
    }
}

#[test]
fn synchronize_skips_the_first_token_whatever_it_is() {
    let mut parser = Parser::new(tokens_of("print 1 ; 2"));
    parser.synchronize();
    assert_eq!(shape(&parser.parse().unwrap().unwrap()), "2");
    let mut parser = Parser::new(tokens_of("print print 1"));
    parser.synchronize();
    match parser.parse() {
        Err(e) => assert_eq!(e.msg, "at 'print' Expect expression."),
        Ok(_) => panic!("parsed"),
    }
}

#[test]
fn synchronize_stops_at_the_end_token() {
    let mut parser = Parser::new(tokens_of("1 2 3"));
    parser.synchronize();
    assert!(matches!(parser.parse(), Ok(None)));
    parser.synchronize();
    assert!(matches!(parser.parse(), Ok(None)));
}

#[test]
fn a_token_sequence_without_end_token_is_not_terminated() {
    assert!(!Parser::new(Vec::new()).is_terminated());
    let number = build_token(TokenType::Number, "1".to_string(), 1, false, 1f64.to_bits(), String::new());
    assert!(!Parser::new(vec![number]).is_terminated());
    assert!(Parser::new(tokens_of("")).is_terminated());
    assert!(Parser::new(tokens_of("1 + 2")).is_terminated());
}

#[test]
fn a_tree_can_be_cloned() {
    let tree = tree_of("-(1 + 2) * \"x\"");
    assert_eq!(shape(&tree.clone()), shape(&tree));
}

fn tokens_in_order(e: &Expression, out: &mut Vec<String>) {
    match e {
        Expression::Binary { left, operator, right } => {
            tokens_in_order(left, out);
            out.push(operator.lexeme.clone());
            tokens_in_order(right, out);
        }
        Expression::Unary { operator, right } => {
            out.push(operator.lexeme.clone());
            tokens_in_order(right, out);
        }
        Expression::Literal { lit } => out.push(lit.lexeme.clone()),
        Expression::Grouping { group } => tokens_in_order(group, out),
    }
}

#[test]
fn the_tree_holds_the_tokens_in_their_order() {
    for source in ["1", "1 + 2 * 3", "(1 + 2) * -3 == !(nil) != \"s\"", "((1)) <= -(-2) / 4 - 5"] {
        let expected: Vec<String> = tokens_of(source)
            .iter()
            .filter(|t| {
                t.tok_type != TokenType::LeftParen
                    && t.tok_type != TokenType::RightParen
                    && t.tok_type != TokenType::EOF
            })
            .map(|t| t.lexeme.clone())
            .collect();
        let mut found = Vec::new();
        tokens_in_order(&tree_of(source), &mut found);
        assert_eq!(found, expected, "{}", source);
    }
}
