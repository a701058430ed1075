use compiler_front::scanner::scan;
use compiler_front::tokens::{Token, TokenError};

fn ident(s: &str) -> Token {
    Token::Identifier(s.to_string())
}

#[test]
fn scans_minimal_program() {
    let tokens = scan("program Foo is begin end program.").unwrap();
    assert_eq!(
        tokens,
        vec![
            Token::Program,
            ident("foo"),
            Token::Is,
            Token::Begin,
            Token::End,
            Token::Program,
            Token::Period,
            Token::EOF,
        ]
    );
}

#[test]
fn keywords_ignore_case() {
    for spelling in ["Program", "PROGRAM", "program", "pRoGrAm"] {
        assert_eq!(scan(spelling).unwrap(), vec![Token::Program, Token::EOF]);
    }
    assert_eq!(scan("VARIABLE").unwrap(), vec![Token::Variable, Token::EOF]);
    assert_eq!(scan("True fAlSe").unwrap(), vec![Token::True, Token::False, Token::EOF]);
}

#[test]
fn identifiers_are_lowercased() {
    assert_eq!(scan("FooBar").unwrap(), vec![ident("foobar"), Token::EOF]);
    assert_eq!(scan("Count_2").unwrap(), vec![ident("count_2"), Token::EOF]);
}

#[test]
fn number_literal_kept_raw() {
    assert_eq!(
        scan("12_345").unwrap(),
        vec![Token::NumberLiteral("12_345".to_string()), Token::EOF]
    );
    assert_eq!(
        scan("3.25;").unwrap(),
        vec![Token::NumberLiteral("3.25".to_string()), Token::Semicolon, Token::EOF]
    );
}

#[test]
fn empty_input_is_eof() {
    assert_eq!(scan("").unwrap(), vec![Token::EOF]);
    assert_eq!(scan("  \n\t ").unwrap(), vec![Token::EOF]);
}

#[test]
fn colon_equals_is_assignment() {
    assert_eq!(scan(":=").unwrap(), vec![Token::Assignment, Token::EOF]);
    assert_eq!(scan(": ").unwrap(), vec![Token::Colon, Token::EOF]);
    assert_eq!(scan(":").unwrap(), vec![Token::Colon, Token::EOF]);
}

#[test]
fn compound_operators() {
    assert_eq!(
        scan("== != <= >= < >").unwrap(),
        vec![
            Token::EqualsComp,
            Token::NotEquals,
            Token::LessThanEq,
            Token::GreaterThanEq,
            Token::LessThan,
            Token::GreaterThan,
            Token::EOF,
        ]
    );
    assert_eq!(
        scan("x:=1").unwrap(),
        vec![ident("x"), Token::Assignment, Token::NumberLiteral("1".to_string()), Token::EOF]
    );
    assert_eq!(
        scan("<x").unwrap(),
        vec![Token::LessThan, ident("x"), Token::EOF]
    );
}

#[test]
fn single_character_symbols() {
    assert_eq!(
        scan("+-*/[]()&|.;,").unwrap(),
        vec![
            Token::Plus,
            Token::Minus,
            Token::Mult,
            Token::Div,
            Token::LBracket,
            Token::RBracket,
            Token::LParen,
            Token::RParen,
            Token::Amp,
            Token::Pipe,
            Token::Period,
            Token::Semicolon,
            Token::Comma,
            Token::EOF,
        ]
    );
}

#[test]
fn string_literal_verbatim() {
    assert_eq!(
        scan("\"Hello, World!\"").unwrap(),
        vec![Token::StringLiteral("Hello, World!".to_string()), Token::EOF]
    );
    assert_eq!(
        scan("\"\"x").unwrap(),
        vec![Token::StringLiteral(String::new()), ident("x"), Token::EOF]
    );
}

#[test]
fn unrecognized_character_fails() {
    assert_eq!(scan("a $ b"), Err(TokenError::SingleTokenError('$')));
    assert_eq!(scan("="), Err(TokenError::SingleTokenError('=')));
}

#[test]
fn unmatched_compound_fails() {
    assert_eq!(scan("!x"), Err(TokenError::CompoundTokenError("!x".to_string())));
    assert_eq!(scan("=+"), Err(TokenError::CompoundTokenError("=+".to_string())));
}

#[test]
fn from_char_table() {
    assert_eq!(Token::from_char('+'), Ok(Token::Plus));
    assert_eq!(Token::from_char(':'), Ok(Token::Colon));
    assert_eq!(Token::from_char('?'), Err(TokenError::SingleTokenError('?')));
}

#[test]
fn from_compound_identifier_table() {
    assert_eq!(Token::from_compound_identifier(":="), Ok(Token::Assignment));
    assert_eq!(Token::from_compound_identifier(">="), Ok(Token::GreaterThanEq));
    assert_eq!(
        Token::from_compound_identifier("=>"),
        Err(TokenError::CompoundTokenError("=>".to_string()))
    );
}

#[test]
fn from_string_classifies() {
    assert_eq!(Token::from_string("Begin".to_string()), Token::Begin);
    assert_eq!(Token::from_string("RETURN".to_string()), Token::Return);
    assert_eq!(Token::from_string("Total".to_string()), ident("total"));
}

#[test]
fn literal_constructors() {
    assert_eq!(
        Token::num_literal_from_string("1E5".to_string()),
        Token::NumberLiteral("1e5".to_string())
    );
    assert_eq!(
        Token::string_literal_from_string("MiXed".to_string()),
        Token::StringLiteral("MiXed".to_string())
    );
}

