use lox::lexer::Lexer;
use lox::tokens::{Token, TokenKind};

fn lines_of(source: &str) -> Vec<String> {
    let mut lexer = Lexer::new(source.to_string());
    lexer.parse_to_end().iter().map(|t| t.to_line()).collect()
}

#[test]
fn number_literal_is_canonical() {
    assert_eq!(Token::number_literal("42".to_string()).literal.unwrap(), "42.0");
    assert_eq!(Token::number_literal("1.500".to_string()).literal.unwrap(), "1.5");
    assert_eq!(Token::number_literal("1.0000".to_string()).literal.unwrap(), "1.0");
}

#[test]
fn unexpected_character_then_eof() {
    let mut lexer = Lexer::new("@".to_string());
    let toks = lexer.parse_to_end();
    assert_eq!(toks.len(), 1);
    assert_eq!(toks[0].kind, TokenKind::Eof);
    assert_eq!(toks[0].to_line(), "EOF  null");
    assert!(lexer.status().is_err());
}

#[test]
fn string_and_number_lines() {
    assert_eq!(lines_of("\"hi\" 42"), vec!["STRING \"hi\" hi", "NUMBER 42 42.0", "EOF  null"]);
}

#[test]
fn exactly_one_eof_at_the_end() {
    for src in ["", "1 + 2", "\"open", "@#", "// only a comment", "var x = 1;\n"] {
        let mut lexer = Lexer::new(src.to_string());
        let toks = lexer.parse_to_end();
        assert_eq!(toks.last().unwrap().kind, TokenKind::Eof);
        assert_eq!(toks.iter().filter(|t| t.kind == TokenKind::Eof).count(), 1);
        assert!(lexer.next_token().is_none());
    }
}

#[test]
fn canonical_number_is_stable_when_read_again() {
    for src in ["42", "1.500", "1.0000", "0.25", "10.0", "007"] {
        let first = Token::number_literal(src.to_string()).literal.unwrap();
        let mut lexer = Lexer::new(first.clone());
        let toks = lexer.parse_to_end();
        assert_eq!(toks.len(), 2);
        assert_eq!(toks[0].kind, TokenKind::NumberLiteral);
        assert_eq!(toks[0].literal.clone().unwrap(), first);
    }
}

#[test]
fn string_literal_value_is_inner_text() {
    for inner in ["", "hello world", "a\nb", "x+y"] {
        let src = format!("\"{}\"", inner);
        let mut lexer = Lexer::new(src.clone());
        let toks = lexer.parse_to_end();
        assert_eq!(toks[0].kind, TokenKind::StringLiteral);
        assert_eq!(toks[0].lexeme, src);
        assert_eq!(toks[0].literal.clone().unwrap(), inner);
    }
}

#[test]
fn operators_and_keywords() {
    assert_eq!(
        lines_of("!= == <= >= < > = ! / and orchid"),
        vec![
            "BANG_EQUAL != null",
            "EQUAL_EQUAL == null",
            "LESS_EQUAL <= null",
            "GREATER_EQUAL >= null",
            "LESS < null",
            "GREATER > null",
            "EQUAL = null",
            "BANG ! null",
            "SLASH / null",
            "AND and null",
            "IDENTIFIER orchid null",
            "EOF  null",
        ]
    );
}

#[test]
fn number_with_single_embedded_dot() {
    assert_eq!(
        lines_of("1.2.3 4."),
        vec!["NUMBER 1.2 1.2", "DOT . null", "NUMBER 3 3.0", "NUMBER 4 4.0", "DOT . null", "EOF  null"]
    );
}

#[test]
fn comments_and_lines_are_skipped() {
    let mut lexer = Lexer::new("// note\nx // tail".to_string());
    let toks = lexer.parse_to_end();
    assert_eq!(toks.len(), 2);
    assert_eq!(toks[0].lexeme, "x");
    assert_eq!(lexer.line(), 2);
}

#[test]
fn errors_keep_going_and_first_is_status() {
    let mut lexer = Lexer::new("#\n$ 1".to_string());
    let toks = lexer.parse_to_end();
    assert_eq!(toks.len(), 2);
    let errors = lexer.errors();
    assert_eq!(errors.len(), 2);
    assert_eq!(errors[0].message(), "[line 1] Error: Unexpected character: #");
    assert_eq!(errors[1].message(), "[line 2] Error: Unexpected character: $");
    assert_eq!(lexer.status(), Err(errors[0]));
}

#[test]
fn reserved_and_identifier_constructors() {
    let t = Token::reserved("while".to_string());
    assert_eq!(t.kind, TokenKind::WHILE);
    assert_eq!(t.to_line(), "WHILE while null");
    let t = Token::identifier("x1".to_string());
    assert_eq!(t.to_line(), "IDENTIFIER x1 null");
    let t = Token::string_literal("\"q\"".to_string());
    assert_eq!(t.to_line(), "STRING \"q\" q");
}
