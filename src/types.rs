use vstd::prelude::*;
use crate::tokens::{Token, TokenKind, TokenView, marker};
use crate::queue::{TokenQueue, ParserError, ParseFault, kind_name, kind_name_exec, taken_at};
use crate::scanner::{is_digit, push_char};

verus! {

/// The type named in a declaration.
#[derive(Debug, Clone, Copy, PartialEq, Eq, Structural)]
pub enum TypeMark {
    Integer,
    Float,
    String,
    Bool,
}

/// The type mark that the first of `ts` names, or the error.
pub open spec fn type_mark_spec(ts: Seq<TokenView>) -> Result<TypeMark, ParseFault> {
    if ts.len() == 0 {
        Err(ParseFault::UnexpectedEOF("TypeMark"@))
    } else if ts[0] == marker(TokenKind::Integer) {
        Ok(TypeMark::Integer)
    } else if ts[0] == marker(TokenKind::Float) {
        Ok(TypeMark::Float)
    } else if ts[0] == marker(TokenKind::String) {
        Ok(TypeMark::String)
    } else if ts[0] == marker(TokenKind::Bool) {
        Ok(TypeMark::Bool)
    } else {
        Err(ParseFault::UnexpectedToken("TypeMark"@, ts[0]))
    }
}

impl TypeMark {
    /// Parses one of `integer`, `float`, `string`, `bool`, from one token.
    pub fn parse(tokens: &mut TokenQueue) -> (r: Result<TypeMark, ParserError>)
        ensures
            match type_mark_spec(old(tokens)@) {
                Ok(m) => r is Ok && r->Ok_0 == m,
                Err(e) => r is Err && r->Err_0@ == e,
            },
            old(tokens)@.len() > 0 ==> final(tokens)@ == old(tokens)@.drop_first(),
            old(tokens)@.len() == 0 ==> final(tokens)@ == old(tokens)@,
            final(tokens)@ == old(tokens)@.skip(taken_at(old(tokens)@, 0) as int),
    {
        match tokens.pop_front() {
            Some(Token::Integer) => Ok(TypeMark::Integer),
            Some(Token::Float) => Ok(TypeMark::Float),
            Some(Token::String) => Ok(TypeMark::String),
            Some(Token::Bool) => Ok(TypeMark::Bool),
            Some(token) => Err(ParserError::UnexpectedToken("TypeMark".to_owned(), token)),
            None => Err(ParserError::UnexpectedEOF("TypeMark".to_owned())),
        }
    }
}

/// The bound of an array type: one number.
#[derive(Debug)]
pub struct ArrayBound {
    pub number: Number,
}

/// A number literal as written, underscores included; its value is read on demand.
#[derive(Debug)]
pub struct Number {
    pub literal_string: String,
}

/// The text of the number literal that starts `ts`, or the error.
pub open spec fn number_spec(ts: Seq<TokenView>) -> Result<Seq<char>, ParseFault> {
    if ts.len() == 0 {
        Err(ParseFault::UnexpectedEOF(kind_name(TokenKind::NumberLiteral)))
    } else if ts[0].0 == TokenKind::NumberLiteral {
        Ok(ts[0].1)
    } else {
        Err(ParseFault::UnexpectedToken(kind_name(TokenKind::NumberLiteral), ts[0]))
    }
}

impl Number {
    /// Parses one number literal token, keeping its text.
    pub fn parse(tokens: &mut TokenQueue) -> (r: Result<Number, ParserError>)
        ensures
            match number_spec(old(tokens)@) {
                Ok(s) => r is Ok && r->Ok_0.literal_string@ == s,
                Err(e) => r is Err && r->Err_0@ == e,
            },
            old(tokens)@.len() > 0 ==> final(tokens)@ == old(tokens)@.drop_first(),
            old(tokens)@.len() == 0 ==> final(tokens)@ == old(tokens)@,
            final(tokens)@ == old(tokens)@.skip(taken_at(old(tokens)@, 0) as int),
    {
        let name = kind_name_exec(TokenKind::NumberLiteral);
        match tokens.pop_front() {
            Some(Token::NumberLiteral(val)) => Ok(Number { literal_string: val }),
            Some(token) => Err(ParserError::UnexpectedToken(name.to_owned(), token)),
            None => Err(ParserError::UnexpectedEOF(name.to_owned())),
        }
    }
}

impl ArrayBound {
    /// Parses the one number that an array bound is.
    pub fn parse(tokens: &mut TokenQueue) -> (r: Result<ArrayBound, ParserError>)
        ensures
            match number_spec(old(tokens)@) {
                Ok(s) => r is Ok && r->Ok_0.number.literal_string@ == s,
                Err(e) => r is Err && r->Err_0@ == e,
            },
            old(tokens)@.len() > 0 ==> final(tokens)@ == old(tokens)@.drop_first(),
            old(tokens)@.len() == 0 ==> final(tokens)@ == old(tokens)@,
            final(tokens)@ == old(tokens)@.skip(taken_at(old(tokens)@, 0) as int),
    {
        match Number::parse(tokens) {
            Ok(number) => Ok(ArrayBound { number }),
            Err(e) => Err(e),
        }
    }
}

/// The text of a string literal.
#[derive(Debug)]
pub struct StringNode {
    pub literal_string: String,
}

/// A name, in lower case.
#[derive(Debug)]
pub struct Identifier {
    pub identifier_string: String,
}

/// `s` with every `_` taken out.
pub open spec fn without_underscores(s: Seq<char>) -> Seq<char>
    decreases s.len(),
{
    if s.len() == 0 {
        s
    } else if s.last() == '_' {
        without_underscores(s.drop_last())
    } else {
        without_underscores(s.drop_last()).push(s.last())
    }
}

pub open spec fn all_digits(s: Seq<char>) -> bool {
    s.len() > 0 && forall|i: int| 0 <= i < s.len() ==> is_digit(#[trigger] s[i])
}

/// The value of a run of decimal digits.
pub open spec fn digits_value(s: Seq<char>) -> nat
    decreases s.len(),
{
    if s.len() == 0 {
        0
    } else {
        digits_value(s.drop_last()) * 10 + ((s.last() as u32) - ('0' as u32)) as nat
    }
}

/// Text that a decimal parse of an unsigned integer accepts: an optional `+`, then digits.
pub open spec fn unsigned_form(s: Seq<char>) -> bool {
    all_digits(s) || (s.len() > 1 && s[0] == '+' && all_digits(s.drop_first()))
}

/// Text that a decimal parse of a signed integer accepts: an optional `+` or `-`, then digits.
pub open spec fn signed_form(s: Seq<char>) -> bool {
    unsigned_form(s) || (s.len() > 1 && s[0] == '-' && all_digits(s.drop_first()))
}

/// The value that signed or unsigned decimal text stands for.
pub open spec fn decimal_value(s: Seq<char>) -> int {
    if s.len() > 0 && s[0] == '-' {
        -digits_value(s.drop_first())
    } else if s.len() > 0 && s[0] == '+' {
        digits_value(s.drop_first()) as int
    } else {
        digits_value(s) as int
    }
}

/// Relies on `usize::from_str_radix` in base 10: it accepts an optional `+`
/// followed by the digits `0` to `9` and nothing else, and fails where the
/// value does not fit.
#[verifier::external_body]
fn parse_usize(s: &str) -> (r: Option<usize>)
    ensures
        match r {
            Some(v) => unsigned_form(s@) && v == decimal_value(s@),
            None => !unsigned_form(s@) || decimal_value(s@) > usize::MAX,
        },
{
    usize::from_str_radix(s, 10).ok()
}

/// Relies on `i64::from_str_radix` in base 10: it accepts an optional `+` or
/// `-` followed by the digits `0` to `9` and nothing else, and fails where the
/// value does not fit.
#[verifier::external_body]
fn parse_i64(s: &str) -> (r: Option<i64>)
    ensures
        match r {
            Some(v) => signed_form(s@) && v == decimal_value(s@),
            None => !signed_form(s@) || decimal_value(s@) < i64::MIN || decimal_value(s@)
                > i64::MAX,
        },
{
    i64::from_str_radix(s, 10).ok()
}

/// Why the text of a number literal has no value of the type asked for.
#[derive(Debug, PartialEq, Clone)]
pub enum SemanticsError {
    /// The literal, which is malformed or out of range.
    InvalidNumber(String),
}

/// The text `s` with every `_` taken out.
fn strip_underscores(s: &str) -> (r: String)
    ensures
        r@ == without_underscores(s@),
{
    let n = s.unicode_len();
    let mut out = String::new();
    let mut i: usize = 0;
    assert(s@.subrange(0, 0) =~= Seq::<char>::empty());
    while i < n
        invariant
            n == s@.len(),
            i <= n,
            out@ == without_underscores(s@.subrange(0, i as int)),
        decreases n - i,
    {
        let c = s.get_char(i);
        assert(s@.subrange(0, i + 1).drop_last() =~= s@.subrange(0, i as int));
        if c != '_' {
            push_char(&mut out, c);
        }
        i = i + 1;
    }
    assert(s@.subrange(0, n as int) =~= s@);
    out
}

impl Number {
    /// The literal's text with its `_` separators taken out.
    pub fn without_separators(&self) -> (r: String)
        ensures
            r@ == without_underscores(self.literal_string@),
    {
        strip_underscores(self.literal_string.as_str())
    }

    /// The literal's value as an unsigned integer: underscores are separators.
    pub fn to_usize(&self) -> (r: Result<usize, SemanticsError>)
        ensures
            ({
                let t = without_underscores(self.literal_string@);
                &&& r is Ok <==> unsigned_form(t) && decimal_value(t) <= usize::MAX
                &&& r is Ok ==> r->Ok_0 == decimal_value(t)
                &&& r is Err ==> r->Err_0 is InvalidNumber && r->Err_0->InvalidNumber_0@
                    == self.literal_string@
            }),
    {
        let digits = self.without_separators();
        match parse_usize(digits.as_str()) {
            Some(v) => Ok(v),
            None => Err(SemanticsError::InvalidNumber(self.literal_string.clone())),
        }
    }

    /// The literal's value as a signed integer: underscores are separators.
    pub fn to_i64(&self) -> (r: Result<i64, SemanticsError>)
        ensures
            ({
                let t = without_underscores(self.literal_string@);
                &&& r is Ok <==> signed_form(t) && i64::MIN <= decimal_value(t) <= i64::MAX
                &&& r is Ok ==> r->Ok_0 == decimal_value(t)
                &&& r is Err ==> r->Err_0 is InvalidNumber && r->Err_0->InvalidNumber_0@
                    == self.literal_string@
            }),
    {
        let digits = self.without_separators();
        match parse_i64(digits.as_str()) {
            Some(v) => Ok(v),
            None => Err(SemanticsError::InvalidNumber(self.literal_string.clone())),
        }
    }
}

} // verus!
