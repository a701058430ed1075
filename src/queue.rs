use vstd::prelude::*;
use std::collections::VecDeque;
use crate::tokens::{Token, TokenKind, TokenView, marker};
use crate::scanner::views;

verus! {

/// The name of a token kind, as error messages give it.
pub open spec fn kind_name(k: TokenKind) -> Seq<char> {
    match k {
        TokenKind::Program => "Program"@,
        TokenKind::Is => "Is"@,
        TokenKind::Begin => "Begin"@,
        TokenKind::End => "End"@,
        TokenKind::Global => "Global"@,
        TokenKind::Procedure => "Procedure"@,
        TokenKind::Variable => "Variable"@,
        TokenKind::For => "For"@,
        TokenKind::Not => "Not"@,
        TokenKind::If => "If"@,
        TokenKind::Then => "Then"@,
        TokenKind::Else => "Else"@,
        TokenKind::Return => "Return"@,
        TokenKind::True => "True"@,
        TokenKind::False => "False"@,
        TokenKind::Integer => "Integer"@,
        TokenKind::Float => "Float"@,
        TokenKind::String => "String"@,
        TokenKind::Bool => "Bool"@,
        TokenKind::Plus => "Plus"@,
        TokenKind::Minus => "Minus"@,
        TokenKind::Mult => "Mult"@,
        TokenKind::Div => "Div"@,
        TokenKind::GreaterThan => "GreaterThan"@,
        TokenKind::LessThan => "LessThan"@,
        TokenKind::LBracket => "LBracket"@,
        TokenKind::RBracket => "RBracket"@,
        TokenKind::LParen => "LParen"@,
        TokenKind::RParen => "RParen"@,
        TokenKind::Amp => "Amp"@,
        TokenKind::Pipe => "Pipe"@,
        TokenKind::Colon => "Colon"@,
        TokenKind::Period => "Period"@,
        TokenKind::Semicolon => "Semicolon"@,
        TokenKind::Comma => "Comma"@,
        TokenKind::GreaterThanEq => "GreaterThanEq"@,
        TokenKind::LessThanEq => "LessThanEq"@,
        TokenKind::EqualsComp => "EqualsComp"@,
        TokenKind::NotEquals => "NotEquals"@,
        TokenKind::Assignment => "Assignment"@,
        TokenKind::Identifier => "Identifier"@,
        TokenKind::NumberLiteral => "NumberLiteral"@,
        TokenKind::StringLiteral => "StringLiteral"@,
        TokenKind::EOF => "EOF"@,
    }
}

/// The name of a token kind, as error messages give it.
pub fn kind_name_exec(k: TokenKind) -> (r: &'static str)
    ensures
        r@ == kind_name(k),
{
    match k {
        TokenKind::Program => "Program",
        TokenKind::Is => "Is",
        TokenKind::Begin => "Begin",
        TokenKind::End => "End",
        TokenKind::Global => "Global",
        TokenKind::Procedure => "Procedure",
        TokenKind::Variable => "Variable",
        TokenKind::For => "For",
        TokenKind::Not => "Not",
        TokenKind::If => "If",
        TokenKind::Then => "Then",
        TokenKind::Else => "Else",
        TokenKind::Return => "Return",
        TokenKind::True => "True",
        TokenKind::False => "False",
        TokenKind::Integer => "Integer",
        TokenKind::Float => "Float",
        TokenKind::String => "String",
        TokenKind::Bool => "Bool",
        TokenKind::Plus => "Plus",
        TokenKind::Minus => "Minus",
        TokenKind::Mult => "Mult",
        TokenKind::Div => "Div",
        TokenKind::GreaterThan => "GreaterThan",
        TokenKind::LessThan => "LessThan",
        TokenKind::LBracket => "LBracket",
        TokenKind::RBracket => "RBracket",
        TokenKind::LParen => "LParen",
        TokenKind::RParen => "RParen",
        TokenKind::Amp => "Amp",
        TokenKind::Pipe => "Pipe",
        TokenKind::Colon => "Colon",
        TokenKind::Period => "Period",
        TokenKind::Semicolon => "Semicolon",
        TokenKind::Comma => "Comma",
        TokenKind::GreaterThanEq => "GreaterThanEq",
        TokenKind::LessThanEq => "LessThanEq",
        TokenKind::EqualsComp => "EqualsComp",
        TokenKind::NotEquals => "NotEquals",
        TokenKind::Assignment => "Assignment",
        TokenKind::Identifier => "Identifier",
        TokenKind::NumberLiteral => "NumberLiteral",
        TokenKind::StringLiteral => "StringLiteral",
        TokenKind::EOF => "EOF",
    }
}

/// Why parsing failed.
#[derive(Debug, PartialEq, Clone)]
pub enum ParserError {
    /// A token does not fit the rule: what the rule expected, and the token found.
    UnexpectedToken(String, Token),
    /// The tokens ran out where the rule expected the ones described.
    UnexpectedEOF(String),
    /// A token follows a complete program.
    ExpectedEOF(Token),
}

/// A parsing error as a mathematical value.
pub enum ParseFault {
    UnexpectedToken(Seq<char>, TokenView),
    UnexpectedEOF(Seq<char>),
    ExpectedEOF(TokenView),
}

impl View for ParserError {
    type V = ParseFault;

    open spec fn view(&self) -> ParseFault {
        match self {
            ParserError::UnexpectedToken(s, t) => ParseFault::UnexpectedToken(s@, t@),
            ParserError::UnexpectedEOF(s) => ParseFault::UnexpectedEOF(s@),
            ParserError::ExpectedEOF(t) => ParseFault::ExpectedEOF(t@),
        }
    }
}

/// Whether the token at position `i` of `ts` is `want`: `None` when it is,
/// else the error, which names the expectation `name`.
pub open spec fn expect_at(ts: Seq<TokenView>, i: int, want: TokenView, name: Seq<char>) -> Option<
    ParseFault,
> {
    if i >= ts.len() {
        Some(ParseFault::UnexpectedEOF(name))
    } else if ts[i] != want {
        Some(ParseFault::UnexpectedToken(name, ts[i]))
    } else {
        None
    }
}

/// Whether the token at position `i` of `ts` is an identifier: `None` when it is, else the error.
pub open spec fn expect_identifier_at(ts: Seq<TokenView>, i: int) -> Option<ParseFault> {
    if i >= ts.len() {
        Some(ParseFault::UnexpectedEOF(kind_name(TokenKind::Identifier)))
    } else if ts[i].0 != TokenKind::Identifier {
        Some(ParseFault::UnexpectedToken(kind_name(TokenKind::Identifier), ts[i]))
    } else {
        None
    }
}

/// How many tokens a rule has taken when it stops at position `i` of `ts`:
/// all of them up to and including the one at `i`, or all there were if they
/// ran out first.
pub open spec fn taken_at(ts: Seq<TokenView>, i: int) -> nat {
    if i >= ts.len() {
        ts.len()
    } else {
        (i + 1) as nat
    }
}

/// A failed parse: the error, and how many tokens were taken from the queue
/// before it was found.
pub type Failure = (ParseFault, nat);

/// Taking `taken_at` tokens from a suffix of `ts` is taking them from `ts` itself.
pub proof fn lemma_taken_from_suffix(ts: Seq<TokenView>, i: int)
    requires
        0 <= i <= ts.len(),
    ensures
        ts.skip(i).skip(taken_at(ts.skip(i), 0) as int) == ts.skip(taken_at(ts, i) as int),
{
    assert(ts.skip(i).skip(taken_at(ts.skip(i), 0) as int) =~= ts.skip(taken_at(ts, i) as int));
}

/// Skipping `a` tokens and then `b` more is skipping `a + b`.
pub proof fn lemma_skip_skip(ts: Seq<TokenView>, a: int, b: int)
    requires
        0 <= a <= ts.len(),
        0 <= b <= ts.len() - a,
    ensures
        ts.skip(a).skip(b) == ts.skip(a + b),
{
    assert(ts.skip(a).skip(b) =~= ts.skip(a + b));
}

/// A forward-only queue of tokens, read from the front.
pub struct TokenQueue {
    tokens: VecDeque<Token>,
}

impl View for TokenQueue {
    type V = Seq<TokenView>;

    closed spec fn view(&self) -> Seq<TokenView> {
        views(self.tokens@)
    }
}

impl TokenQueue {
    /// A queue holding the tokens in order.
    pub fn new(tokens: Vec<Token>) -> (r: TokenQueue)
        ensures
            r@ == views(tokens@),
    {
        let ghost all = tokens@;
        let mut tokens = tokens;
        let mut q: VecDeque<Token> = VecDeque::new();
        while tokens.len() > 0
            invariant
                tokens@.len() <= all.len(),
                tokens@ == all.subrange(0, tokens@.len() as int),
                q@ == all.subrange(tokens@.len() as int, all.len() as int),
            decreases tokens@.len(),
        {
            let t = tokens.pop().unwrap();
            q.push_front(t);
            assert(tokens@ =~= all.subrange(0, tokens@.len() as int));
            assert(q@ =~= all.subrange(tokens@.len() as int, all.len() as int));
        }
        assert(q@ =~= all);
        TokenQueue { tokens: q }
    }

    /// Number of tokens left.
    pub fn len(&self) -> (r: usize)
        ensures
            r == self@.len(),
    {
        self.tokens.len()
    }

    /// The front token, left in place.
    pub fn peek_front(&self) -> (r: Option<&Token>)
        ensures
            self@.len() == 0 ==> r is None,
            self@.len() > 0 ==> r is Some && r->Some_0@ == self@[0],
    {
        if self.tokens.len() == 0 {
            None
        } else {
            Some(&self.tokens[0])
        }
    }

    /// Removes and returns the front token.
    pub fn pop_front(&mut self) -> (r: Option<Token>)
        ensures
            old(self)@.len() == 0 ==> r is None && final(self)@ == old(self)@,
            old(self)@.len() > 0 ==> r is Some && r->Some_0@ == old(self)@[0] && final(self)@
                == old(self)@.drop_first(),
            final(self)@ == old(self)@.skip(taken_at(old(self)@, 0) as int),
    {
        let r = self.tokens.pop_front();
        assert(views(self.tokens@) =~= views(old(self).tokens@).drop_first() || old(self)@.len()
            == 0);
        assert(old(self)@.skip(0) =~= old(self)@);
        assert(old(self)@.len() > 0 ==> old(self)@.skip(1) =~= old(self)@.drop_first());
        r
    }

    /// Removes the front token, which must be `expected`.
    pub fn consume_expected(&mut self, expected: Token) -> (r: Result<(), ParserError>)
        ensures
            match expect_at(old(self)@, 0, expected@, kind_name(expected@.0)) {
                None => r is Ok,
                Some(e) => r is Err && r->Err_0@ == e,
            },
            old(self)@.len() > 0 ==> final(self)@ == old(self)@.drop_first(),
            old(self)@.len() == 0 ==> final(self)@ == old(self)@,
            final(self)@ == old(self)@.skip(taken_at(old(self)@, 0) as int),
    {
        let name = kind_name_exec(expected.kind()).to_owned();
        match self.pop_front() {
            None => Err(ParserError::UnexpectedEOF(name)),
            Some(t) => if t.same_as(&expected) {
                Ok(())
            } else {
                Err(ParserError::UnexpectedToken(name, t))
            },
        }
    }

    /// Removes the front token, which must be an identifier, and returns its text.
    pub fn consume_identifier(&mut self) -> (r: Result<String, ParserError>)
        ensures
            match expect_identifier_at(old(self)@, 0) {
                None => r is Ok && r->Ok_0@ == old(self)@[0].1,
                Some(e) => r is Err && r->Err_0@ == e,
            },
            old(self)@.len() > 0 ==> final(self)@ == old(self)@.drop_first(),
            old(self)@.len() == 0 ==> final(self)@ == old(self)@,
            final(self)@ == old(self)@.skip(taken_at(old(self)@, 0) as int),
    {
        let name = kind_name_exec(TokenKind::Identifier).to_owned();
        match self.pop_front() {
            None => Err(ParserError::UnexpectedEOF(name)),
            Some(Token::Identifier(s)) => Ok(s),
            Some(t) => Err(ParserError::UnexpectedToken(name, t)),
        }
    }
}

} // verus!
