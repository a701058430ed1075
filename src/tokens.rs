use vstd::prelude::*;

verus! {

/// Terminal symbols of the language.
#[derive(Debug, PartialEq, Clone)]
pub enum Token {
    // Keywords
    Program,
    Is,
    Begin,
    End,
    Global,
    Procedure,
    Variable,
    For,
    Not,
    If,
    Then,
    Else,
    Return,
    True,
    False,
    // Types
    Integer,
    Float,
    String,
    Bool,
    // Symbols
    Plus,
    Minus,
    Mult,
    Div,
    GreaterThan,
    LessThan,
    LBracket,
    RBracket,
    LParen,
    RParen,
    Amp,
    Pipe,
    Colon,
    Period,
    Semicolon,
    Comma,
    // Symbol pairs
    GreaterThanEq,
    LessThanEq,
    EqualsComp,
    NotEquals,
    Assignment,
    // Tokens with text
    Identifier(String),
    NumberLiteral(String),
    StringLiteral(String),
    // End of input
    EOF,
}

/// The kind of a token, without its text.
#[derive(Debug, Clone, Copy, PartialEq, Eq, Structural)]
pub enum TokenKind {
    Program,
    Is,
    Begin,
    End,
    Global,
    Procedure,
    Variable,
    For,
    Not,
    If,
    Then,
    Else,
    Return,
    True,
    False,
    Integer,
    Float,
    String,
    Bool,
    Plus,
    Minus,
    Mult,
    Div,
    GreaterThan,
    LessThan,
    LBracket,
    RBracket,
    LParen,
    RParen,
    Amp,
    Pipe,
    Colon,
    Period,
    Semicolon,
    Comma,
    GreaterThanEq,
    LessThanEq,
    EqualsComp,
    NotEquals,
    Assignment,
    Identifier,
    NumberLiteral,
    StringLiteral,
    EOF,
}

/// A token as a mathematical value: its kind and its text (empty for the
/// kinds that carry none).
pub type TokenView = (TokenKind, Seq<char>);

/// The view of a token that carries no text.
pub open spec fn marker(k: TokenKind) -> TokenView {
    (k, Seq::empty())
}

pub open spec fn carries_text(k: TokenKind) -> bool {
    k == TokenKind::Identifier || k == TokenKind::NumberLiteral || k == TokenKind::StringLiteral
}

impl View for Token {
    type V = TokenView;

    open spec fn view(&self) -> TokenView {
        match self {
            Token::Program => marker(TokenKind::Program),
            Token::Is => marker(TokenKind::Is),
            Token::Begin => marker(TokenKind::Begin),
            Token::End => marker(TokenKind::End),
            Token::Global => marker(TokenKind::Global),
            Token::Procedure => marker(TokenKind::Procedure),
            Token::Variable => marker(TokenKind::Variable),
            Token::For => marker(TokenKind::For),
            Token::Not => marker(TokenKind::Not),
            Token::If => marker(TokenKind::If),
            Token::Then => marker(TokenKind::Then),
            Token::Else => marker(TokenKind::Else),
            Token::Return => marker(TokenKind::Return),
            Token::True => marker(TokenKind::True),
            Token::False => marker(TokenKind::False),
            Token::Integer => marker(TokenKind::Integer),
            Token::Float => marker(TokenKind::Float),
            Token::String => marker(TokenKind::String),
            Token::Bool => marker(TokenKind::Bool),
            Token::Plus => marker(TokenKind::Plus),
            Token::Minus => marker(TokenKind::Minus),
            Token::Mult => marker(TokenKind::Mult),
            Token::Div => marker(TokenKind::Div),
            Token::GreaterThan => marker(TokenKind::GreaterThan),
            Token::LessThan => marker(TokenKind::LessThan),
            Token::LBracket => marker(TokenKind::LBracket),
            Token::RBracket => marker(TokenKind::RBracket),
            Token::LParen => marker(TokenKind::LParen),
            Token::RParen => marker(TokenKind::RParen),
            Token::Amp => marker(TokenKind::Amp),
            Token::Pipe => marker(TokenKind::Pipe),
            Token::Colon => marker(TokenKind::Colon),
            Token::Period => marker(TokenKind::Period),
            Token::Semicolon => marker(TokenKind::Semicolon),
            Token::Comma => marker(TokenKind::Comma),
            Token::GreaterThanEq => marker(TokenKind::GreaterThanEq),
            Token::LessThanEq => marker(TokenKind::LessThanEq),
            Token::EqualsComp => marker(TokenKind::EqualsComp),
            Token::NotEquals => marker(TokenKind::NotEquals),
            Token::Assignment => marker(TokenKind::Assignment),
            Token::Identifier(s) => (TokenKind::Identifier, s@),
            Token::NumberLiteral(s) => (TokenKind::NumberLiteral, s@),
            Token::StringLiteral(s) => (TokenKind::StringLiteral, s@),
            Token::EOF => marker(TokenKind::EOF),
        }
    }
}

/// The token that a single character stands for, if any.
pub open spec fn single_char_kind(c: char) -> Option<TokenKind> {
    if c == '+' {
        Some(TokenKind::Plus)
    } else if c == '-' {
        Some(TokenKind::Minus)
    } else if c == '*' {
        Some(TokenKind::Mult)
    } else if c == '/' {
        Some(TokenKind::Div)
    } else if c == '<' {
        Some(TokenKind::LessThan)
    } else if c == '>' {
        Some(TokenKind::GreaterThan)
    } else if c == '[' {
        Some(TokenKind::LBracket)
    } else if c == ']' {
        Some(TokenKind::RBracket)
    } else if c == '(' {
        Some(TokenKind::LParen)
    } else if c == ')' {
        Some(TokenKind::RParen)
    } else if c == '&' {
        Some(TokenKind::Amp)
    } else if c == '|' {
        Some(TokenKind::Pipe)
    } else if c == ':' {
        Some(TokenKind::Colon)
    } else if c == '.' {
        Some(TokenKind::Period)
    } else if c == ';' {
        Some(TokenKind::Semicolon)
    } else if c == ',' {
        Some(TokenKind::Comma)
    } else {
        None
    }
}

/// The two-character operator that `s` spells, if any.
pub open spec fn compound_kind(s: Seq<char>) -> Option<TokenKind> {
    if s == seq![':', '='] {
        Some(TokenKind::Assignment)
    } else if s == seq!['=', '='] {
        Some(TokenKind::EqualsComp)
    } else if s == seq!['!', '='] {
        Some(TokenKind::NotEquals)
    } else if s == seq!['<', '='] {
        Some(TokenKind::LessThanEq)
    } else if s == seq!['>', '='] {
        Some(TokenKind::GreaterThanEq)
    } else {
        None
    }
}

/// The keyword that the lower-case word `w` spells, if any.
pub open spec fn keyword_kind(w: Seq<char>) -> Option<TokenKind> {
    if w == "program"@ {
        Some(TokenKind::Program)
    } else if w == "is"@ {
        Some(TokenKind::Is)
    } else if w == "begin"@ {
        Some(TokenKind::Begin)
    } else if w == "end"@ {
        Some(TokenKind::End)
    } else if w == "global"@ {
        Some(TokenKind::Global)
    } else if w == "procedure"@ {
        Some(TokenKind::Procedure)
    } else if w == "variable"@ {
        Some(TokenKind::Variable)
    } else if w == "for"@ {
        Some(TokenKind::For)
    } else if w == "not"@ {
        Some(TokenKind::Not)
    } else if w == "if"@ {
        Some(TokenKind::If)
    } else if w == "then"@ {
        Some(TokenKind::Then)
    } else if w == "else"@ {
        Some(TokenKind::Else)
    } else if w == "integer"@ {
        Some(TokenKind::Integer)
    } else if w == "float"@ {
        Some(TokenKind::Float)
    } else if w == "string"@ {
        Some(TokenKind::String)
    } else if w == "bool"@ {
        Some(TokenKind::Bool)
    } else if w == "return"@ {
        Some(TokenKind::Return)
    } else if w == "true"@ {
        Some(TokenKind::True)
    } else if w == "false"@ {
        Some(TokenKind::False)
    } else {
        None
    }
}

/// The token for an already lower-cased word: its keyword, or an identifier
/// holding the word.
pub open spec fn word_token(w: Seq<char>) -> TokenView {
    match keyword_kind(w) {
        Some(k) => marker(k),
        None => (TokenKind::Identifier, w),
    }
}

/// What `str::to_lowercase` returns for `s`.
pub uninterp spec fn lower_of(s: Seq<char>) -> Seq<char>;

pub open spec fn is_ascii_char(c: char) -> bool {
    (c as u32) < 128
}

pub open spec fn ascii_lower_char(c: char) -> char {
    if 'A' <= c && c <= 'Z' {
        ((c as u32) + 32) as char
    } else {
        c
    }
}

/// Lower-case ASCII letters, every other character unchanged.
pub open spec fn ascii_lower(s: Seq<char>) -> Seq<char> {
    s.map_values(|c: char| ascii_lower_char(c))
}

pub open spec fn all_ascii(s: Seq<char>) -> bool {
    forall|i: int| 0 <= i < s.len() ==> is_ascii_char(#[trigger] s[i])
}

/// Relies on `str::to_lowercase`: the result depends on the characters alone,
/// and on ASCII text it lower-cases the letters `A` to `Z` and keeps every
/// other character.
#[verifier::external_body]
fn lowercase(s: &str) -> (r: String)
    ensures
        r@ == lower_of(s@),
        all_ascii(s@) ==> r@ == ascii_lower(s@),
{
    s.to_lowercase()
}

/// Whether two texts hold the same characters.
pub fn same_text(a: &str, b: &str) -> (r: bool)
    ensures
        r == (a@ == b@),
{
    let n = a.unicode_len();
    if n != b.unicode_len() {
        return false;
    }
    let mut i: usize = 0;
    while i < n
        invariant
            n == a@.len(),
            n == b@.len(),
            i <= n,
            forall|j: int| 0 <= j < i ==> a@[j] == b@[j],
        decreases n - i,
    {
        if a.get_char(i) != b.get_char(i) {
            return false;
        }
        i = i + 1;
    }
    assert(a@ =~= b@);
    true
}

/// Whether `s` is exactly the two characters `a` and `b`.
fn is_pair(s: &str, a: char, b: char) -> (r: bool)
    ensures
        r == (s@ == seq![a, b]),
{
    if s.unicode_len() != 2 {
        return false;
    }
    let r = s.get_char(0) == a && s.get_char(1) == b;
    if r {
        assert(s@ =~= seq![a, b]);
    }
    r
}

/// Why scanning failed.
#[derive(Debug, PartialEq, Clone)]
pub enum TokenError {
    /// A character that starts no token.
    SingleTokenError(char),
    /// Two characters that start like an operator and form none.
    CompoundTokenError(String),
}

/// A scanning error as a mathematical value.
pub enum TokenFault {
    Single(char),
    Compound(Seq<char>),
}

impl View for TokenError {
    type V = TokenFault;

    open spec fn view(&self) -> TokenFault {
        match self {
            TokenError::SingleTokenError(c) => TokenFault::Single(*c),
            TokenError::CompoundTokenError(s) => TokenFault::Compound(s@),
        }
    }
}

impl Token {
    /// The kind of this token.
    pub fn kind(&self) -> (r: TokenKind)
        ensures
            r == self@.0,
    {
        match self {
            Token::Program => TokenKind::Program,
            Token::Is => TokenKind::Is,
            Token::Begin => TokenKind::Begin,
            Token::End => TokenKind::End,
            Token::Global => TokenKind::Global,
            Token::Procedure => TokenKind::Procedure,
            Token::Variable => TokenKind::Variable,
            Token::For => TokenKind::For,
            Token::Not => TokenKind::Not,
            Token::If => TokenKind::If,
            Token::Then => TokenKind::Then,
            Token::Else => TokenKind::Else,
            Token::Return => TokenKind::Return,
            Token::True => TokenKind::True,
            Token::False => TokenKind::False,
            Token::Integer => TokenKind::Integer,
            Token::Float => TokenKind::Float,
            Token::String => TokenKind::String,
            Token::Bool => TokenKind::Bool,
            Token::Plus => TokenKind::Plus,
            Token::Minus => TokenKind::Minus,
            Token::Mult => TokenKind::Mult,
            Token::Div => TokenKind::Div,
            Token::GreaterThan => TokenKind::GreaterThan,
            Token::LessThan => TokenKind::LessThan,
            Token::LBracket => TokenKind::LBracket,
            Token::RBracket => TokenKind::RBracket,
            Token::LParen => TokenKind::LParen,
            Token::RParen => TokenKind::RParen,
            Token::Amp => TokenKind::Amp,
            Token::Pipe => TokenKind::Pipe,
            Token::Colon => TokenKind::Colon,
            Token::Period => TokenKind::Period,
            Token::Semicolon => TokenKind::Semicolon,
            Token::Comma => TokenKind::Comma,
            Token::GreaterThanEq => TokenKind::GreaterThanEq,
            Token::LessThanEq => TokenKind::LessThanEq,
            Token::EqualsComp => TokenKind::EqualsComp,
            Token::NotEquals => TokenKind::NotEquals,
            Token::Assignment => TokenKind::Assignment,
            Token::Identifier(_) => TokenKind::Identifier,
            Token::NumberLiteral(_) => TokenKind::NumberLiteral,
            Token::StringLiteral(_) => TokenKind::StringLiteral,
            Token::EOF => TokenKind::EOF,
        }
    }

    /// Whether two tokens are the same terminal with the same text.
    pub fn same_as(&self, other: &Token) -> (r: bool)
        ensures
            r == (self@ == other@),
    {
        match (self, other) {
            (Token::Identifier(a), Token::Identifier(b)) => same_text(a.as_str(), b.as_str()),
            (Token::NumberLiteral(a), Token::NumberLiteral(b)) => same_text(
                a.as_str(),
                b.as_str(),
            ),
            (Token::StringLiteral(a), Token::StringLiteral(b)) => same_text(
                a.as_str(),
                b.as_str(),
            ),
            _ => self.kind() == other.kind() && !carries_text_exec(self.kind()),
        }
    }

    /// Returns the token for a single-character symbol.
    pub fn from_char(symbol_char: char) -> (r: Result<Token, TokenError>)
        ensures
            match single_char_kind(symbol_char) {
                Some(k) => r is Ok && r->Ok_0@ == marker(k),
                None => r is Err && r->Err_0@ == TokenFault::Single(symbol_char),
            },
    {
        let matched_token = match symbol_char {
            '+' => Token::Plus,
            '-' => Token::Minus,
            '*' => Token::Mult,
            '/' => Token::Div,
            '<' => Token::LessThan,
            '>' => Token::GreaterThan,
            '[' => Token::LBracket,
            ']' => Token::RBracket,
            '(' => Token::LParen,
            ')' => Token::RParen,
            '&' => Token::Amp,
            '|' => Token::Pipe,
            ':' => Token::Colon,
            '.' => Token::Period,
            ';' => Token::Semicolon,
            ',' => Token::Comma,
            _ => return Err(TokenError::SingleTokenError(symbol_char)),
        };
        Ok(matched_token)
    }

    /// Returns the token for a two-character operator.
    pub fn from_compound_identifier(compound_chars: &str) -> (r: Result<Token, TokenError>)
        ensures
            match compound_kind(compound_chars@) {
                Some(k) => r is Ok && r->Ok_0@ == marker(k),
                None => r is Err && r->Err_0@ == TokenFault::Compound(compound_chars@),
            },
    {
        if is_pair(compound_chars, ':', '=') {
            Ok(Token::Assignment)
        } else if is_pair(compound_chars, '=', '=') {
            Ok(Token::EqualsComp)
        } else if is_pair(compound_chars, '!', '=') {
            Ok(Token::NotEquals)
        } else if is_pair(compound_chars, '<', '=') {
            Ok(Token::LessThanEq)
        } else if is_pair(compound_chars, '>', '=') {
            Ok(Token::GreaterThanEq)
        } else {
            Err(TokenError::CompoundTokenError(compound_chars.to_owned()))
        }
    }

    /// A number literal holding the text lower-cased; its value is read later.
    pub fn num_literal_from_string(string: String) -> (r: Token)
        ensures
            r@ == (TokenKind::NumberLiteral, lower_of(string@)),
            all_ascii(string@) ==> r@ == (TokenKind::NumberLiteral, ascii_lower(string@)),
    {
        Token::NumberLiteral(lowercase(string.as_str()))
    }

    /// A string literal holding the text as it is.
    pub fn string_literal_from_string(string: String) -> (r: Token)
        ensures
            r@ == (TokenKind::StringLiteral, string@),
    {
        Token::StringLiteral(string)
    }

    /// The keyword that the word spells in any mixture of cases, or else an
    /// identifier holding the word in lower case.
    pub fn from_string(string: String) -> (r: Token)
        ensures
            r@ == word_token(lower_of(string@)),
            all_ascii(string@) ==> r@ == word_token(ascii_lower(string@)),
    {
        let lower = lowercase(string.as_str());
        let w = lower.as_str();
        if same_text(w, "program") {
            Token::Program
        } else if same_text(w, "is") {
            Token::Is
        } else if same_text(w, "begin") {
            Token::Begin
        } else if same_text(w, "end") {
            Token::End
        } else if same_text(w, "global") {
            Token::Global
        } else if same_text(w, "procedure") {
            Token::Procedure
        } else if same_text(w, "variable") {
            Token::Variable
        } else if same_text(w, "for") {
            Token::For
        } else if same_text(w, "not") {
            Token::Not
        } else if same_text(w, "if") {
            Token::If
        } else if same_text(w, "then") {
            Token::Then
        } else if same_text(w, "else") {
            Token::Else
        } else if same_text(w, "integer") {
            Token::Integer
        } else if same_text(w, "float") {
            Token::Float
        } else if same_text(w, "string") {
            Token::String
        } else if same_text(w, "bool") {
            Token::Bool
        } else if same_text(w, "return") {
            Token::Return
        } else if same_text(w, "true") {
            Token::True
        } else if same_text(w, "false") {
            Token::False
        } else {
            Token::Identifier(lower)
        }
    }
}

/// Whether tokens of kind `k` carry text.
pub fn carries_text_exec(k: TokenKind) -> (r: bool)
    ensures
        r == carries_text(k),
{
    match k {
        TokenKind::Identifier | TokenKind::NumberLiteral | TokenKind::StringLiteral => true,
        _ => false,
    }
}

/// The scanner's state between two characters.
#[derive(Debug)]
pub enum BuildToken {
    /// Not building a token.
    Idle,
    /// Inside a two-character operator such as `:=`, `==`, `>=`.
    CompoundSymbol(String),
    /// Inside a keyword or identifier.
    Identifier(String),
    /// Inside a quoted string.
    StringLiteral(String),
    /// Inside a number literal.
    NumberLiteral(String),
}

} // verus!
