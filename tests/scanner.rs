use compiler::{Literal, ScanError, Scanner, Token, TokenType};

fn scan(src: &str) -> (Vec<Token>, Vec<ScanError>) {
    let mut scanner = Scanner::new(src.chars().collect());
    let tokens = scanner.scan_tokens().clone();
    (tokens, scanner.errors.clone())
}

fn kinds(src: &str) -> Vec<TokenType> {
    scan(src).0.iter().map(|t| t.token_type).collect()
}

fn lexeme(t: &Token) -> Option<&str> {
    t.lexeme.as_deref()
}

fn number_of(t: &Token) -> Option<String> {
    t.literal.as_ref().and_then(|l: &Literal| l.number.clone())
}

fn string_of(t: &Token) -> Option<String> {
    t.literal.as_ref().and_then(|l: &Literal| l.string.clone())
}

#[test]
fn empty_input_is_end_only() {
    assert_eq!(kinds(""), vec![TokenType::Eof]);
}

#[test]
fn blanks_and_comments_are_end_only() {
    let (tokens, errors) = scan("  \t\r\n // a comment ( ) + \n// another");
    assert_eq!(tokens.len(), 1);
    assert_eq!(tokens[0].token_type, TokenType::Eof);
    assert_eq!(tokens[0].lexeme, None);
    assert!(errors.is_empty());
}

#[test]
fn single_punctuation() {
    let cases = [
        ('(', TokenType::LeftParen),
        (')', TokenType::RightParen),
        ('{', TokenType::LeftBrace),
        ('}', TokenType::RightBrace),
        (',', TokenType::Comma),
        ('.', TokenType::Dot),
        ('-', TokenType::Minus),
        ('+', TokenType::Plus),
        (';', TokenType::Semicolon),
        ('*', TokenType::Star),
        ('/', TokenType::Slash),
    ];
    for (c, kind) in cases {
        let src = c.to_string();
        let (tokens, errors) = scan(&src);
        assert_eq!(tokens.len(), 2);
        assert_eq!(tokens[0].token_type, kind);
        assert_eq!(lexeme(&tokens[0]), Some(src.as_str()));
        assert_eq!((tokens[0].line, tokens[0].col), (1, 1));
        assert_eq!(tokens[1].token_type, TokenType::Eof);
        assert_eq!((tokens[1].line, tokens[1].col), (1, 2));
        assert!(errors.is_empty());
    }
}

#[test]
fn two_character_operators() {
    assert_eq!(kinds("!="), vec![TokenType::BangEqual, TokenType::Eof]);
    assert_eq!(kinds("!"), vec![TokenType::Bang, TokenType::Eof]);
    assert_eq!(kinds("=="), vec![TokenType::EqualEqual, TokenType::Eof]);
    assert_eq!(kinds("="), vec![TokenType::Equal, TokenType::Eof]);
    assert_eq!(kinds("<="), vec![TokenType::LessEqual, TokenType::Eof]);
    assert_eq!(kinds("<"), vec![TokenType::Less, TokenType::Eof]);
    assert_eq!(kinds(">="), vec![TokenType::GreaterEqual, TokenType::Eof]);
    assert_eq!(kinds(">"), vec![TokenType::Greater, TokenType::Eof]);
    let (tokens, _) = scan("!=");
    assert_eq!(lexeme(&tokens[0]), Some("!="));
    let (tokens, _) = scan("!");
    assert_eq!(lexeme(&tokens[0]), Some("!"));
}

#[test]
fn operator_then_other_character() {
    assert_eq!(kinds("!!="), vec![TokenType::Bang, TokenType::BangEqual, TokenType::Eof]);
    assert_eq!(kinds("= ="), vec![TokenType::Equal, TokenType::Equal, TokenType::Eof]);
}

#[test]
fn comment_between_numbers() {
    let (tokens, errors) = scan("1 // c\n2");
    assert_eq!(tokens.len(), 3);
    assert_eq!(tokens[0].token_type, TokenType::Number);
    assert_eq!(number_of(&tokens[0]), Some("1".to_string()));
    assert_eq!(tokens[1].token_type, TokenType::Number);
    assert_eq!(number_of(&tokens[1]), Some("2".to_string()));
    assert_eq!((tokens[1].line, tokens[1].col), (2, 1));
    assert_eq!(tokens[2].token_type, TokenType::Eof);
    assert!(errors.is_empty());
}

#[test]
fn decimal_number() {
    let (tokens, _) = scan("123.45");
    assert_eq!(tokens.len(), 2);
    assert_eq!(tokens[0].token_type, TokenType::Number);
    assert_eq!(lexeme(&tokens[0]), Some("123.45"));
    let digits = number_of(&tokens[0]).unwrap();
    assert_eq!(digits, "123.45");
    assert_eq!(digits.parse::<f64>().unwrap(), 123.45);
    assert_eq!(string_of(&tokens[0]), None);
}

#[test]
fn trailing_point_is_separate() {
    let (tokens, _) = scan("123.");
    assert_eq!(tokens.len(), 3);
    assert_eq!(tokens[0].token_type, TokenType::Number);
    assert_eq!(number_of(&tokens[0]), Some("123".to_string()));
    assert_eq!(tokens[1].token_type, TokenType::Dot);
    assert_eq!((tokens[1].line, tokens[1].col), (1, 4));
    assert_eq!(tokens[2].token_type, TokenType::Eof);
}

#[test]
fn second_point_starts_a_new_token() {
    let (tokens, _) = scan("1.2.3");
    assert_eq!(
        tokens.iter().map(|t| t.token_type).collect::<Vec<_>>(),
        vec![TokenType::Number, TokenType::Dot, TokenType::Number, TokenType::Eof]
    );
    assert_eq!(number_of(&tokens[0]), Some("1.2".to_string()));
    assert_eq!(number_of(&tokens[2]), Some("3".to_string()));
}

#[test]
fn string_literal() {
    let (tokens, errors) = scan("\"abc\"");
    assert_eq!(tokens.len(), 2);
    assert_eq!(tokens[0].token_type, TokenType::String);
    assert_eq!(string_of(&tokens[0]), Some("abc".to_string()));
    assert_eq!(number_of(&tokens[0]), None);
    assert_eq!(lexeme(&tokens[0]), Some("\"abc\""));
    assert!(errors.is_empty());
}

#[test]
fn empty_string_literal() {
    let (tokens, _) = scan("\"\"");
    assert_eq!(tokens[0].token_type, TokenType::String);
    assert_eq!(string_of(&tokens[0]), Some(String::new()));
}

#[test]
fn unterminated_string() {
    let (tokens, errors) = scan("\"abc");
    assert_eq!(tokens.len(), 1);
    assert_eq!(tokens[0].token_type, TokenType::Eof);
    assert_eq!(errors, vec![ScanError::UnterminatedString { line: 1 }]);
}

#[test]
fn string_spanning_lines() {
    let (tokens, errors) = scan("\"a\nb\" x");
    assert!(errors.is_empty());
    assert_eq!(tokens.len(), 3);
    assert_eq!(string_of(&tokens[0]), Some("a\nb".to_string()));
    assert_eq!((tokens[0].line, tokens[0].col), (1, 1));
    assert_eq!(tokens[1].token_type, TokenType::Identifier);
    assert_eq!((tokens[1].line, tokens[1].col), (2, 4));
    assert_eq!((tokens[2].line, tokens[2].col), (2, 5));
}

#[test]
fn unterminated_string_reports_last_line() {
    let (_, errors) = scan("\"a\nb\nc");
    assert_eq!(errors, vec![ScanError::UnterminatedString { line: 3 }]);
}

#[test]
fn identifier_not_keyword_prefix() {
    let (tokens, _) = scan("forest");
    assert_eq!(tokens.len(), 2);
    assert_eq!(tokens[0].token_type, TokenType::Identifier);
    assert_eq!(lexeme(&tokens[0]), Some("forest"));
    assert_eq!(tokens[0].literal.is_none(), true);
}

#[test]
fn every_keyword() {
    let cases = [
        ("and", TokenType::And),
        ("class", TokenType::Class),
        ("else", TokenType::Else),
        ("false", TokenType::False),
        ("for", TokenType::For),
        ("fun", TokenType::Fun),
        ("if", TokenType::If),
        ("nil", TokenType::Nil),
        ("or", TokenType::Or),
        ("print", TokenType::Print),
        ("return", TokenType::Return),
        ("super", TokenType::Super),
        ("this", TokenType::This),
        ("true", TokenType::True),
        ("var", TokenType::Var),
        ("while", TokenType::While),
    ];
    for (word, kind) in cases {
        let (tokens, _) = scan(word);
        assert_eq!(tokens.len(), 2);
        assert_eq!(tokens[0].token_type, kind);
        assert_eq!(lexeme(&tokens[0]), Some(word));
    }
}

#[test]
fn identifier_characters() {
    let (tokens, _) = scan("_a1_b2 élan");
    assert_eq!(tokens.len(), 3);
    assert_eq!(lexeme(&tokens[0]), Some("_a1_b2"));
    assert_eq!(tokens[1].token_type, TokenType::Identifier);
    assert_eq!(lexeme(&tokens[1]), Some("élan"));
    assert_eq!(tokens[1].col, 8);
}

#[test]
fn keyword_followed_by_more_letters() {
    assert_eq!(kinds("orchid and_"), vec![TokenType::Identifier, TokenType::Identifier, TokenType::Eof]);
    assert_eq!(kinds("or and"), vec![TokenType::Or, TokenType::And, TokenType::Eof]);
}

#[test]
fn digit_then_letters() {
    let (tokens, _) = scan("12ab");
    assert_eq!(tokens[0].token_type, TokenType::Number);
    assert_eq!(number_of(&tokens[0]), Some("12".to_string()));
    assert_eq!(tokens[1].token_type, TokenType::Identifier);
    assert_eq!(lexeme(&tokens[1]), Some("ab"));
}

#[test]
fn unexpected_character_continues() {
    let (tokens, errors) = scan("1 @\n# 2");
    assert_eq!(
        errors,
        vec![
            ScanError::UnexpectedCharacter { line: 1, character: '@' },
            ScanError::UnexpectedCharacter { line: 2, character: '#' },
        ]
    );
    assert_eq!(
        tokens.iter().map(|t| t.token_type).collect::<Vec<_>>(),
        vec![TokenType::Number, TokenType::Number, TokenType::Eof]
    );
}

#[test]
fn positions_across_lines() {
    let (tokens, _) = scan("a\n  b");
    assert_eq!((tokens[0].line, tokens[0].col), (1, 1));
    assert_eq!((tokens[1].line, tokens[1].col), (2, 3));
    assert_eq!((tokens[2].line, tokens[2].col), (2, 4));
}

#[test]
fn comment_at_end_without_newline() {
    assert_eq!(kinds("x // y"), vec![TokenType::Identifier, TokenType::Eof]);
    assert_eq!(kinds("8 / 2"), vec![TokenType::Number, TokenType::Slash, TokenType::Number, TokenType::Eof]);
}

#[test]
fn token_and_literal_constructors() {
    let lit = Literal::new(Some("hi".to_string()), None);
    let tok = Token::new(TokenType::String, Some("\"hi\"".to_string()), Some(lit), 3, 7);
    assert_eq!(tok.token_type, TokenType::String);
    assert_eq!(string_of(&tok), Some("hi".to_string()));
    assert_eq!((tok.line, tok.col), (3, 7));
    let copy = tok.duplicate();
    assert_eq!(copy.lexeme, tok.lexeme);
    assert_eq!(string_of(&copy), Some("hi".to_string()));
}
