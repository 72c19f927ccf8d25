use compiler::{valid_tokens, Constant, Expr, Literal, Parser, Scanner, Token, TokenType};

fn tokens(src: &str) -> Vec<Token> {
    let mut scanner = Scanner::new(src.chars().collect());
    scanner.scan_tokens().clone()
}

fn show(e: &Expr) -> String {
    match e {
        Expr::Binary { left, operator, right } => format!(
            "({} {} {})",
            show(left),
            operator.lexeme.clone().unwrap_or_default(),
            show(right)
        ),
        Expr::UnaryOp { operator, operand } => {
            format!("({} {})", operator.lexeme.clone().unwrap_or_default(), show(operand))
        }
        Expr::Literal { value } => match value {
            Constant::Nil => "nil".to_string(),
            Constant::Bool(b) => b.to_string(),
            Constant::Str(s) => format!("\"{}\"", s),
            Constant::Number(d) => d.clone(),
        },
        Expr::Error { msg } => format!("<error: {}>", msg),
        Expr::Grouping { expression } => format!("(group {})", show(expression)),
        Expr::Assign { name, value } => {
            format!("(= {} {})", name.lexeme.clone().unwrap_or_default(), show(value))
        }
        Expr::Call { callee, arguments, .. } => {
            format!("(call {} {})", show(callee), arguments.len())
        }
    }
}

fn parse(src: &str) -> (String, usize) {
    let toks = tokens(src);
    assert!(valid_tokens(&toks));
    let mut parser = Parser::new(toks);
    let e = parser.parse();
    (show(&e), parser.current)
}

fn eof(line: usize, col: usize) -> Token {
    Token::new(TokenType::Eof, None, None, line, col)
}

#[test]
fn multiplication_binds_tighter() {
    let toks = tokens("1 + 2 * 3");
    let mut parser = Parser::new(toks);
    let e = parser.parse();
    match &e {
        Expr::Binary { left, operator, right } => {
            assert_eq!(operator.token_type, TokenType::Plus);
            assert!(matches!(left.as_ref(), Expr::Literal { value: Constant::Number(d) } if d == "1"));
            match right.as_ref() {
                Expr::Binary { left, operator, right } => {
                    assert_eq!(operator.token_type, TokenType::Star);
                    assert!(matches!(left.as_ref(), Expr::Literal { value: Constant::Number(d) } if d == "2"));
                    assert!(matches!(right.as_ref(), Expr::Literal { value: Constant::Number(d) } if d == "3"));
                }
                other => panic!("right operand is not a product: {:?}", other),
            }
        }
        other => panic!("not a binary node: {:?}", other),
    }
    assert_eq!(parser.current, 5);
}

#[test]
fn subtraction_is_left_associative() {
    assert_eq!(parse("1 - 2 - 3"), ("((1 - 2) - 3)".to_string(), 5));
}

#[test]
fn end_only_is_error() {
    let mut parser = Parser::new(vec![eof(1, 1)]);
    let e = parser.parse();
    assert!(matches!(&e, Expr::Error { msg } if msg == "Expect expression"));
    assert_eq!(parser.current, 0);

    let mut parser = Parser::new(vec![eof(1, 1), eof(1, 1), eof(2, 1)]);
    let e = parser.parse();
    assert!(matches!(&e, Expr::Error { msg } if msg == "Expect expression"));
    assert_eq!(parser.current, 0);
}

#[test]
fn empty_source_is_error() {
    assert_eq!(parse(""), ("<error: Expect expression>".to_string(), 0));
}

#[test]
fn literals() {
    assert_eq!(parse("true"), ("true".to_string(), 1));
    assert_eq!(parse("false"), ("false".to_string(), 1));
    assert_eq!(parse("nil"), ("nil".to_string(), 1));
    assert_eq!(parse("\"hi\""), ("\"hi\"".to_string(), 1));
    assert_eq!(parse("4.5"), ("4.5".to_string(), 1));
}

#[test]
fn unary_is_right_associative() {
    assert_eq!(parse("!-1"), ("(! (- 1))".to_string(), 3));
    assert_eq!(parse("-1 + 2"), ("((- 1) + 2)".to_string(), 4));
    assert_eq!(parse("-1 * 2"), ("(- 1)".to_string(), 2));
}

#[test]
fn comparison_and_equality() {
    assert_eq!(parse("1 < 2 == true"), ("((1 < 2) == true)".to_string(), 5));
    assert_eq!(parse("1 >= 2 != 3 <= 4"), ("((1 >= 2) != (3 <= 4))".to_string(), 7));
    assert_eq!(parse("1 > 2 > 3"), ("((1 > 2) > 3)".to_string(), 5));
}

#[test]
fn term_and_factor() {
    assert_eq!(parse("6 / 3 * 2"), ("6".to_string(), 1));
    assert_eq!(parse("1 + 6 / 3 * 2 - 4"), ("((1 + ((6 / 3) * 2)) - 4)".to_string(), 9));
}

#[test]
fn missing_operand_is_error_node() {
    assert_eq!(parse("1 + )"), ("(1 + <error: Expect expression>)".to_string(), 2));
    assert_eq!(parse("foo"), ("<error: Expect expression>".to_string(), 0));
}

#[test]
fn operator_at_start_keeps_error_as_left() {
    assert_eq!(parse("+ 1"), ("(<error: Expect expression> + 1)".to_string(), 2));
}

#[test]
fn parse_resumes_from_current() {
    let mut parser = Parser::new(tokens("1 2"));
    let first = parser.parse();
    assert_eq!(show(&first), "1");
    let second = parser.parse();
    assert_eq!(show(&second), "2");
    assert_eq!(parser.current, 2);
}

#[test]
fn token_validity() {
    assert!(!valid_tokens(&vec![]));
    let number_without_payload = Token::new(TokenType::Number, Some("1".to_string()), None, 1, 1);
    assert!(!valid_tokens(&vec![number_without_payload, eof(1, 2)]));
    let string_with_number = Token::new(
        TokenType::String,
        Some("\"a\"".to_string()),
        Some(Literal::new(None, Some("1".to_string()))),
        1,
        1,
    );
    assert!(!valid_tokens(&vec![string_with_number, eof(1, 4)]));
    let plus = Token::new(TokenType::Plus, Some("+".to_string()), None, 1, 1);
    assert!(!valid_tokens(&vec![eof(1, 1), plus]));
    assert!(valid_tokens(&tokens("1 + \"a\"")));
}
