use compiler_front::parse_program;
use compiler_front::FrontEndError;
use compiler_front::program::{ProgramBody, ProgramHeader, ProgramStruct};
use compiler_front::queue::{ParserError, TokenQueue};
use compiler_front::scanner::scan;
use compiler_front::tokens::{Token, TokenError};
use compiler_front::types::{ArrayBound, Number, SemanticsError, TypeMark};

fn queue(tokens: Vec<Token>) -> TokenQueue {
    TokenQueue::new(tokens)
}

fn ident(s: &str) -> Token {
    Token::Identifier(s.to_string())
}

#[test]
fn parses_minimal_program() {
    let p = parse_program("program Foo is begin end program.").unwrap();
    assert_eq!(p.header().identifier(), "foo");
    assert_eq!(p.body().declarations().len(), 0);
    assert_eq!(p.body().statements().len(), 0);
}

#[test]
fn counts_declarations_and_statements() {
    let source = "program P is\n variable x : integer;\n global variable Flag : bool;\n variable s : string;\nbegin\n x := 5;\n flag := true;\nend program.";
    let p = parse_program(source).unwrap();
    let body = p.body();
    assert_eq!(body.declarations().len(), 3);
    assert_eq!(body.statements().len(), 2);
    let d = &body.declarations()[1];
    assert!(d.global);
    assert_eq!(d.name, "flag");
    assert_eq!(d.type_mark, TypeMark::Bool);
    let s = &body.statements()[0];
    assert_eq!(s.target, "x");
    assert_eq!(s.value, Token::NumberLiteral("5".to_string()));
}

#[test]
fn eof_alone_is_no_program() {
    let mut q = queue(scan("").unwrap());
    let err = ProgramStruct::parse(&mut q).unwrap_err();
    assert_eq!(err, ParserError::UnexpectedToken("Program".to_string(), Token::EOF));
}

#[test]
fn empty_queue_is_no_program() {
    let mut q = queue(vec![]);
    let err = ProgramStruct::parse(&mut q).unwrap_err();
    assert_eq!(err, ParserError::UnexpectedEOF("Program".to_string()));
}

#[test]
fn trailing_identifier_is_expected_eof() {
    let err = parse_program("program foo is begin end program. bar").unwrap_err();
    assert_eq!(err, FrontEndError::Parse(ParserError::ExpectedEOF(ident("bar"))));
}

#[test]
fn token_after_eof_is_expected_eof() {
    let mut q = queue(vec![
        Token::Program,
        ident("a"),
        Token::Is,
        Token::Begin,
        Token::End,
        Token::Program,
        Token::Period,
        Token::EOF,
        Token::Semicolon,
    ]);
    let err = ProgramStruct::parse(&mut q).unwrap_err();
    assert_eq!(err, ParserError::ExpectedEOF(Token::Semicolon));
    assert_eq!(q.len(), 0);
}

#[test]
fn missing_period_is_unexpected_token() {
    let err = parse_program("program foo is begin end program").unwrap_err();
    assert_eq!(
        err,
        FrontEndError::Parse(ParserError::UnexpectedToken("Period".to_string(), Token::EOF))
    );
}

#[test]
fn scan_error_is_reported() {
    let err = parse_program("program foo is begin end program. #").unwrap_err();
    assert_eq!(err, FrontEndError::Scan(TokenError::SingleTokenError('#')));
}

#[test]
fn header_requires_is() {
    let mut q = queue(scan("program foo begin end").unwrap());
    let err = ProgramHeader::parse(&mut q).unwrap_err();
    assert_eq!(err, ParserError::UnexpectedToken("Is".to_string(), Token::Begin));
    assert_eq!(q.pop_front(), Some(Token::End));
}

#[test]
fn header_requires_identifier() {
    let mut q = queue(scan("program 12 is").unwrap());
    let err = ProgramHeader::parse(&mut q).unwrap_err();
    assert_eq!(
        err,
        ParserError::UnexpectedToken("Identifier".to_string(), Token::NumberLiteral("12".to_string()))
    );
}

#[test]
fn body_without_begin_hits_eof() {
    let mut q = queue(vec![]);
    let err = ProgramBody::parse(&mut q).unwrap_err();
    assert_eq!(err, ParserError::UnexpectedEOF("Identifier, Begin".to_string()));
}

#[test]
fn body_without_end_hits_eof() {
    let mut q = queue(vec![Token::Begin]);
    let err = ProgramBody::parse(&mut q).unwrap_err();
    assert_eq!(err, ParserError::UnexpectedEOF("Identifier, End".to_string()));
    assert_eq!(q.len(), 0);
}

#[test]
fn declaration_needs_semicolon() {
    let err = parse_program("program p is variable x : integer begin end program.").unwrap_err();
    assert_eq!(
        err,
        FrontEndError::Parse(ParserError::UnexpectedToken("Semicolon".to_string(), Token::Begin))
    );
}

#[test]
fn statement_needs_operand() {
    let err = parse_program("program p is begin x := ; end program.").unwrap_err();
    assert_eq!(
        err,
        FrontEndError::Parse(ParserError::UnexpectedToken("Operand".to_string(), Token::Semicolon))
    );
}

#[test]
fn type_mark_dispatch() {
    let mut q = queue(vec![Token::Integer, Token::Float, Token::String, Token::Bool, Token::Plus]);
    assert_eq!(TypeMark::parse(&mut q), Ok(TypeMark::Integer));
    assert_eq!(TypeMark::parse(&mut q), Ok(TypeMark::Float));
    assert_eq!(TypeMark::parse(&mut q), Ok(TypeMark::String));
    assert_eq!(TypeMark::parse(&mut q), Ok(TypeMark::Bool));
    assert_eq!(
        TypeMark::parse(&mut q),
        Err(ParserError::UnexpectedToken("TypeMark".to_string(), Token::Plus))
    );
    assert_eq!(TypeMark::parse(&mut q), Err(ParserError::UnexpectedEOF("TypeMark".to_string())));
}

#[test]
fn number_and_bound_parse() {
    let mut q = queue(scan("1_000 42 x").unwrap());
    let n = Number::parse(&mut q).unwrap();
    assert_eq!(n.literal_string, "1_000");
    let b = ArrayBound::parse(&mut q).unwrap();
    assert_eq!(b.number.literal_string, "42");
    assert_eq!(
        Number::parse(&mut q).unwrap_err(),
        ParserError::UnexpectedToken("NumberLiteral".to_string(), ident("x"))
    );
}

#[test]
fn number_converts_to_unsigned() {
    let mut q = queue(scan("12_345").unwrap());
    let n = Number::parse(&mut q).unwrap();
    assert_eq!(n.literal_string, "12_345");
    assert_eq!(n.to_usize(), Ok(12345));
}

#[test]
fn number_conversion_errors() {
    let bad = Number { literal_string: "1.5".to_string() };
    assert_eq!(bad.to_usize(), Err(SemanticsError::InvalidNumber("1.5".to_string())));
    let huge = Number { literal_string: "99999999999999999999999".to_string() };
    assert!(huge.to_usize().is_err());
    assert!(huge.to_i64().is_err());
    let neg = Number { literal_string: "-1_0".to_string() };
    assert_eq!(neg.to_i64(), Ok(-10));
    assert!(neg.to_usize().is_err());
}

#[test]
fn queue_primitives() {
    let mut q = queue(vec![Token::Program, ident("a")]);
    assert_eq!(q.len(), 2);
    assert_eq!(q.peek_front(), Some(&Token::Program));
    assert_eq!(q.consume_expected(Token::Program), Ok(()));
    assert_eq!(
        q.consume_expected(Token::Is),
        Err(ParserError::UnexpectedToken("Is".to_string(), ident("a")))
    );
    assert_eq!(q.consume_identifier(), Err(ParserError::UnexpectedEOF("Identifier".to_string())));
    assert_eq!(q.pop_front(), None);
    let mut q2 = queue(vec![ident("z")]);
    assert_eq!(q2.consume_identifier(), Ok("z".to_string()));
}

#[test]
fn separators_removed() {
    let n = Number { literal_string: "1_000.5_0".to_string() };
    assert_eq!(n.without_separators(), "1000.50");
}

#[test]
fn body_end_without_program() {
    let mut q = queue(vec![Token::Begin, Token::End, Token::Is]);
    let err = ProgramBody::parse(&mut q).unwrap_err();
    assert_eq!(err, ParserError::UnexpectedToken("Program".to_string(), Token::Is));
    assert_eq!(q.len(), 0);
}

#[test]
fn bad_declaration_stops_after_bad_token() {
    let mut q = queue(scan("variable x ; integer ; begin").unwrap());
    let err = ProgramBody::parse(&mut q).unwrap_err();
    assert_eq!(err, ParserError::UnexpectedToken("Colon".to_string(), Token::Semicolon));
    assert_eq!(q.len(), 4);
}
