use vstd::prelude::*;
use crate::tokens::{Token, TokenKind, TokenView, marker};
use crate::queue::{
    TokenQueue, ParserError, ParseFault, Failure, kind_name, kind_name_exec, expect_at,
    expect_identifier_at, taken_at, lemma_taken_from_suffix, lemma_skip_skip,
};
use crate::types::{TypeMark, type_mark_spec};

verus! {

/// A variable declaration: `[global] variable <name> : <type mark>`.
#[derive(Debug)]
pub struct Declaration {
    pub global: bool,
    pub name: String,
    pub type_mark: TypeMark,
}

/// A declaration as a mathematical value: whether it is global, its name, its type.
pub type DeclView = (bool, Seq<char>, TypeMark);

impl View for Declaration {
    type V = DeclView;

    open spec fn view(&self) -> DeclView {
        (self.global, self.name@, self.type_mark)
    }
}

/// The declaration at the front of `ts` and how many tokens it takes, or the
/// error and how many tokens were taken before it was found.
pub open spec fn declaration_spec(ts: Seq<TokenView>) -> Result<(DeclView, nat), Failure> {
    let g: int = if ts.len() > 0 && ts[0] == marker(TokenKind::Global) {
        1
    } else {
        0
    };
    match expect_at(ts, g, marker(TokenKind::Variable), kind_name(TokenKind::Variable)) {
        Some(e) => Err((e, taken_at(ts, g))),
        None => match expect_identifier_at(ts, g + 1) {
            Some(e) => Err((e, taken_at(ts, g + 1))),
            None => match expect_at(ts, g + 2, marker(TokenKind::Colon), kind_name(TokenKind::Colon)) {
                Some(e) => Err((e, taken_at(ts, g + 2))),
                None => match type_mark_spec(ts.skip(g + 3)) {
                    Err(e) => Err((e, taken_at(ts, g + 3))),
                    Ok(m) => Ok(((g == 1, ts[g + 1].1, m), (g + 4) as nat)),
                },
            },
        },
    }
}

impl Declaration {
    /// Parses `[global] variable <name> : <type mark>`.
    pub fn parse(tokens: &mut TokenQueue) -> (r: Result<Declaration, ParserError>)
        ensures
            match declaration_spec(old(tokens)@) {
                Ok((d, n)) => r is Ok && n <= old(tokens)@.len() && r->Ok_0@ == d && final(tokens)@ == old(tokens)@.skip(
                    n as int,
                ),
                Err((e, k)) => r is Err && r->Err_0@ == e && k <= old(tokens)@.len() && final(tokens)@
                    == old(tokens)@.skip(
                    k as int,
                ),
            },
    {
        let ghost ts = tokens@;
        let global = match tokens.peek_front() {
            Some(Token::Global) => true,
            _ => false,
        };
        let ghost g: int = if global {
            1
        } else {
            0
        };
        if global {
            tokens.pop_front();
        }
        assert(tokens@ =~= ts.skip(g));
        if let Err(e) = tokens.consume_expected(Token::Variable) {
            proof {
                lemma_taken_from_suffix(ts, g);
            }
            return Err(e);
        }
        assert(tokens@ =~= ts.skip(g + 1));
        let name = match tokens.consume_identifier() {
            Ok(name) => name,
            Err(e) => {
                proof {
                    lemma_taken_from_suffix(ts, g + 1);
                }
                return Err(e);
            },
        };
        assert(tokens@ =~= ts.skip(g + 2));
        if let Err(e) = tokens.consume_expected(Token::Colon) {
            proof {
                lemma_taken_from_suffix(ts, g + 2);
            }
            return Err(e);
        }
        assert(tokens@ =~= ts.skip(g + 3));
        let type_mark = match TypeMark::parse(tokens) {
            Ok(m) => m,
            Err(e) => {
                proof {
                    lemma_taken_from_suffix(ts, g + 3);
                }
                return Err(e);
            },
        };
        assert(tokens@ =~= ts.skip(g + 4));
        Ok(Declaration { global, name, type_mark })
    }
}

/// An assignment of one operand to a name: `<name> := <operand>`.
#[derive(Debug)]
pub struct Statement {
    pub target: String,
    pub value: Token,
}

/// A statement as a mathematical value: the name assigned and the operand's token.
pub type StmtView = (Seq<char>, TokenView);

impl View for Statement {
    type V = StmtView;

    open spec fn view(&self) -> StmtView {
        (self.target@, self.value@)
    }
}

/// Tokens that can stand as an operand: a name, a literal, `true` or `false`.
pub open spec fn is_operand(t: TokenView) -> bool {
    t.0 == TokenKind::Identifier || t.0 == TokenKind::NumberLiteral || t.0
        == TokenKind::StringLiteral || t == marker(TokenKind::True) || t == marker(TokenKind::False)
}

/// The statement at the front of `ts` and how many tokens it takes, or the
/// error and how many tokens were taken before it was found.
pub open spec fn statement_spec(ts: Seq<TokenView>) -> Result<(StmtView, nat), Failure> {
    match expect_identifier_at(ts, 0) {
        Some(e) => Err((e, taken_at(ts, 0))),
        None => match expect_at(ts, 1, marker(TokenKind::Assignment), kind_name(TokenKind::Assignment)) {
            Some(e) => Err((e, taken_at(ts, 1))),
            None => if ts.len() <= 2 {
                Err((ParseFault::UnexpectedEOF("Operand"@), ts.len()))
            } else if !is_operand(ts[2]) {
                Err((ParseFault::UnexpectedToken("Operand"@, ts[2]), 3))
            } else {
                Ok(((ts[0].1, ts[2]), 3))
            },
        },
    }
}

impl Statement {
    /// Parses `<name> := <operand>`.
    pub fn parse(tokens: &mut TokenQueue) -> (r: Result<Statement, ParserError>)
        ensures
            match statement_spec(old(tokens)@) {
                Ok((s, n)) => r is Ok && n <= old(tokens)@.len() && r->Ok_0@ == s && final(tokens)@ == old(tokens)@.skip(
                    n as int,
                ),
                Err((e, k)) => r is Err && r->Err_0@ == e && k <= old(tokens)@.len() && final(tokens)@
                    == old(tokens)@.skip(
                    k as int,
                ),
            },
    {
        let ghost ts = tokens@;
        assert(tokens@ =~= ts.skip(0));
        let target = match tokens.consume_identifier() {
            Ok(name) => name,
            Err(e) => {
                proof {
                    lemma_taken_from_suffix(ts, 0);
                }
                return Err(e);
            },
        };
        assert(tokens@ =~= ts.skip(1));
        if let Err(e) = tokens.consume_expected(Token::Assignment) {
            proof {
                lemma_taken_from_suffix(ts, 1);
            }
            return Err(e);
        }
        assert(tokens@ =~= ts.skip(2));
        match tokens.pop_front() {
            None => {
                assert(tokens@ =~= ts.skip(ts.len() as int));
                Err(ParserError::UnexpectedEOF("Operand".to_owned()))
            },
            Some(value) => {
                assert(tokens@ =~= ts.skip(3));
                let k = value.kind();
                if matches!(k, TokenKind::Identifier | TokenKind::NumberLiteral | TokenKind::StringLiteral | TokenKind::True | TokenKind::False) {
                    Ok(Statement { target, value })
                } else {
                    Err(ParserError::UnexpectedToken("Operand".to_owned(), value))
                }
            },
        }
    }
}

/// The header of a program: `program <name> is`.
#[derive(Debug)]
pub struct ProgramHeader {
    header_identifier: String,
}

impl View for ProgramHeader {
    type V = Seq<char>;

    closed spec fn view(&self) -> Seq<char> {
        self.header_identifier@
    }
}

/// The header at the front of `ts`, given by its name, or the error and how
/// many tokens were taken before it was found.
pub open spec fn header_spec(ts: Seq<TokenView>) -> Result<Seq<char>, Failure> {
    match expect_at(ts, 0, marker(TokenKind::Program), kind_name(TokenKind::Program)) {
        Some(e) => Err((e, taken_at(ts, 0))),
        None => match expect_identifier_at(ts, 1) {
            Some(e) => Err((e, taken_at(ts, 1))),
            None => match expect_at(ts, 2, marker(TokenKind::Is), kind_name(TokenKind::Is)) {
                Some(e) => Err((e, taken_at(ts, 2))),
                None => Ok(ts[1].1),
            },
        },
    }
}

impl ProgramHeader {
    /// Parses `program <name> is`.
    pub fn parse(tokens: &mut TokenQueue) -> (r: Result<ProgramHeader, ParserError>)
        ensures
            match header_spec(old(tokens)@) {
                Ok(h) => r is Ok && r->Ok_0@ == h && 3 <= old(tokens)@.len() && final(tokens)@
                    == old(tokens)@.skip(3),
                Err((e, k)) => r is Err && r->Err_0@ == e && k <= old(tokens)@.len() && final(tokens)@
                    == old(tokens)@.skip(
                    k as int,
                ),
            },
    {
        let ghost ts = tokens@;
        assert(tokens@ =~= ts.skip(0));
        if let Err(e) = tokens.consume_expected(Token::Program) {
            proof {
                lemma_taken_from_suffix(ts, 0);
            }
            return Err(e);
        }
        assert(tokens@ =~= ts.skip(1));
        let header_identifier = match tokens.consume_identifier() {
            Ok(name) => name,
            Err(e) => {
                proof {
                    lemma_taken_from_suffix(ts, 1);
                }
                return Err(e);
            },
        };
        assert(tokens@ =~= ts.skip(2));
        if let Err(e) = tokens.consume_expected(Token::Is) {
            proof {
                lemma_taken_from_suffix(ts, 2);
            }
            return Err(e);
        }
        assert(tokens@ =~= ts.skip(3));
        Ok(ProgramHeader { header_identifier })
    }

    /// The program's name.
    pub fn identifier(&self) -> (r: &String)
        ensures
            r@ == self@,
    {
        &self.header_identifier
    }
}

/// The declarations at the front of `ts`, each ended by `;`, up to `begin`, which is
/// left in place; with the number of tokens they take; or the error and how
/// many tokens were taken before it was found.
pub open spec fn declarations_spec(ts: Seq<TokenView>) -> Result<(Seq<DeclView>, nat), Failure>
    decreases ts.len(),
{
    if ts.len() == 0 {
        Err((ParseFault::UnexpectedEOF("Identifier, Begin"@), 0))
    } else if ts[0] == marker(TokenKind::Begin) {
        Ok((Seq::empty(), 0))
    } else {
        match declaration_spec(ts) {
            Err(f) => Err(f),
            Ok((d, n)) => match expect_at(ts, n as int, marker(TokenKind::Semicolon), kind_name(TokenKind::Semicolon)) {
                Some(e) => Err((e, taken_at(ts, n as int))),
                None => match declarations_spec(ts.skip(n + 1 as int)) {
                    Err((e, k)) => Err((e, n + 1 + k)),
                    Ok((ds, m)) => Ok((seq![d] + ds, n + 1 + m)),
                },
            },
        }
    }
}

/// The statements at the front of `ts`, each ended by `;`, up to `end`, which is
/// left in place; with the number of tokens they take; or the error and how
/// many tokens were taken before it was found.
pub open spec fn statements_spec(ts: Seq<TokenView>) -> Result<(Seq<StmtView>, nat), Failure>
    decreases ts.len(),
{
    if ts.len() == 0 {
        Err((ParseFault::UnexpectedEOF("Identifier, End"@), 0))
    } else if ts[0] == marker(TokenKind::End) {
        Ok((Seq::empty(), 0))
    } else {
        match statement_spec(ts) {
            Err(f) => Err(f),
            Ok((s, n)) => match expect_at(ts, n as int, marker(TokenKind::Semicolon), kind_name(TokenKind::Semicolon)) {
                Some(e) => Err((e, taken_at(ts, n as int))),
                None => match statements_spec(ts.skip(n + 1 as int)) {
                    Err((e, k)) => Err((e, n + 1 + k)),
                    Ok((ss, m)) => Ok((seq![s] + ss, n + 1 + m)),
                },
            },
        }
    }
}

/// The views of a list of declarations.
pub open spec fn decl_views(ds: Seq<Declaration>) -> Seq<DeclView> {
    ds.map_values(|d: Declaration| d@)
}

/// The views of a list of statements.
pub open spec fn stmt_views(ss: Seq<Statement>) -> Seq<StmtView> {
    ss.map_values(|s: Statement| s@)
}

/// A result of parsing items `c` tokens further on, seen from here: `pre` goes
/// in front of the items, and `c` onto every count.
pub open spec fn after_items<V>(pre: Seq<V>, c: int, r: Result<(Seq<V>, nat), Failure>) -> Result<
    (Seq<V>, nat),
    Failure,
> {
    match r {
        Ok((items, m)) => Ok((pre + items, (c + m) as nat)),
        Err((e, k)) => Err((e, (c + k) as nat)),
    }
}

/// The body of a program: declarations, `begin`, statements, `end program`.
#[derive(Debug)]
pub struct ProgramBody {
    declarations: Vec<Declaration>,
    statements: Vec<Statement>,
}

/// A program body as a mathematical value: its declarations and its statements, in order.
pub type BodyView = (Seq<DeclView>, Seq<StmtView>);

impl View for ProgramBody {
    type V = BodyView;

    closed spec fn view(&self) -> BodyView {
        (decl_views(self.declarations@), stmt_views(self.statements@))
    }
}

/// The body at the front of `ts` and how many tokens it takes, or the error
/// and how many tokens were taken before it was found.
pub open spec fn body_spec(ts: Seq<TokenView>) -> Result<(BodyView, nat), Failure> {
    match declarations_spec(ts) {
        Err(f) => Err(f),
        Ok((ds, n)) => {
            let rest = ts.skip(n + 1 as int);
            match statements_spec(rest) {
                Err((e, k)) => Err((e, n + 1 + k)),
                Ok((ss, m)) => match expect_at(rest, m + 1 as int, marker(TokenKind::Program), kind_name(TokenKind::Program)) {
                    Some(e) => Err((e, n + 1 + taken_at(rest, m + 1 as int))),
                    None => Ok(((ds, ss), n + 1 + m + 2)),
                },
            }
        },
    }
}

proof fn lemma_declarations_end(ts: Seq<TokenView>)
    requires
        declarations_spec(ts) is Ok,
    ensures
        declarations_spec(ts)->Ok_0.1 < ts.len(),
        ts[declarations_spec(ts)->Ok_0.1 as int] == marker(TokenKind::Begin),
    decreases ts.len(),
{
    if ts[0] != marker(TokenKind::Begin) {
        let n = declaration_spec(ts)->Ok_0.1;
        let rest = ts.skip(n + 1 as int);
        lemma_declarations_end(rest);
        assert(rest[declarations_spec(rest)->Ok_0.1 as int] == ts[n + 1 + declarations_spec(rest)->Ok_0.1 as int]);
    }
}

proof fn lemma_statements_end(ts: Seq<TokenView>)
    requires
        statements_spec(ts) is Ok,
    ensures
        statements_spec(ts)->Ok_0.1 < ts.len(),
        ts[statements_spec(ts)->Ok_0.1 as int] == marker(TokenKind::End),
    decreases ts.len(),
{
    if ts[0] != marker(TokenKind::End) {
        let n = statement_spec(ts)->Ok_0.1;
        let rest = ts.skip(n + 1 as int);
        lemma_statements_end(rest);
        assert(rest[statements_spec(rest)->Ok_0.1 as int] == ts[n + 1 + statements_spec(rest)->Ok_0.1 as int]);
    }
}

/// Parses declarations, each ended by `;`, up to `begin`, which is left in place.
fn parse_declarations(tokens: &mut TokenQueue) -> (r: Result<Vec<Declaration>, ParserError>)
    ensures
        match declarations_spec(old(tokens)@) {
            Ok((ds, n)) => r is Ok && n <= old(tokens)@.len() && decl_views(r->Ok_0@) == ds && final(tokens)@ == old(
                tokens,
            )@.skip(n as int),
            Err((e, k)) => r is Err && r->Err_0@ == e && k <= old(tokens)@.len() && final(tokens)@
                    == old(tokens)@.skip(
                k as int,
            ),
        },
{
    let ghost ts = tokens@;
    let mut declarations: Vec<Declaration> = Vec::new();
    let ghost mut c: int = 0;
    assert(ts.skip(0) =~= ts);
    assert(decl_views(declarations@) =~= Seq::empty());
    assert(after_items(decl_views(declarations@), 0, declarations_spec(ts)) == declarations_spec(
        ts,
    )) by {
        if let Ok((items, m)) = declarations_spec(ts) {
            assert(Seq::<DeclView>::empty() + items =~= items);
        }
    }
    loop
        invariant
            ts == old(tokens)@,
            0 <= c <= ts.len(),
            tokens@ == ts.skip(c),
            declarations_spec(ts) == after_items(
                decl_views(declarations@),
                c,
                declarations_spec(ts.skip(c)),
            ),
        ensures
            0 <= c < ts.len(),
            tokens@ == ts.skip(c),
            ts[c] == marker(TokenKind::Begin),
            declarations_spec(ts) == after_items(
                decl_views(declarations@),
                c,
                declarations_spec(ts.skip(c)),
            ),
        decreases ts.len() - c,
    {
        match tokens.peek_front() {
            Some(Token::Begin) => break,
            None => {
                assert(ts.skip(c).len() == 0);
                return Err(ParserError::UnexpectedEOF("Identifier, Begin".to_owned()));
            },
            Some(_) => {},
        }
        let ghost here = tokens@;
        let ghost n = declaration_spec(here)->Ok_0.1;
        let d = match Declaration::parse(tokens) {
            Ok(d) => d,
            Err(e) => {
                proof {
                    lemma_skip_skip(ts, c, declaration_spec(here)->Err_0.1 as int);
                }
                return Err(e);
            },
        };
        if let Err(e) = tokens.consume_expected(Token::Semicolon) {
            proof {
                lemma_taken_from_suffix(here, n as int);
                lemma_skip_skip(ts, c, taken_at(here, n as int) as int);
            }
            return Err(e);
        }
        let ghost before = decl_views(declarations@);
        declarations.push(d);
        proof {
            assert(here.skip(n as int)[0] == here[n as int]);
            assert(here.skip(n + 1 as int) =~= ts.skip(c + n + 1));
            assert(tokens@ =~= ts.skip(c + n + 1));
            assert(decl_views(declarations@) =~= before.push(d@));
            if let Ok((items, m)) = declarations_spec(ts.skip(c + n + 1)) {
                assert(before + (seq![d@] + items) =~= before.push(d@) + items);
            }
            c = c + n + 1;
        }
    }
    assert(decl_views(declarations@) + Seq::<DeclView>::empty() =~= decl_views(declarations@));
    Ok(declarations)
}

/// Parses statements, each ended by `;`, up to `end`, which is left in place.
fn parse_statements(tokens: &mut TokenQueue) -> (r: Result<Vec<Statement>, ParserError>)
    ensures
        match statements_spec(old(tokens)@) {
            Ok((ss, n)) => r is Ok && n <= old(tokens)@.len() && stmt_views(r->Ok_0@) == ss && final(tokens)@ == old(
                tokens,
            )@.skip(n as int),
            Err((e, k)) => r is Err && r->Err_0@ == e && k <= old(tokens)@.len() && final(tokens)@
                    == old(tokens)@.skip(
                k as int,
            ),
        },
{
    let ghost ts = tokens@;
    let mut statements: Vec<Statement> = Vec::new();
    let ghost mut c: int = 0;
    assert(ts.skip(0) =~= ts);
    assert(stmt_views(statements@) =~= Seq::empty());
    assert(after_items(stmt_views(statements@), 0, statements_spec(ts)) == statements_spec(ts))
        by {
        if let Ok((items, m)) = statements_spec(ts) {
            assert(Seq::<StmtView>::empty() + items =~= items);
        }
    }
    loop
        invariant
            ts == old(tokens)@,
            0 <= c <= ts.len(),
            tokens@ == ts.skip(c),
            statements_spec(ts) == after_items(
                stmt_views(statements@),
                c,
                statements_spec(ts.skip(c)),
            ),
        ensures
            0 <= c < ts.len(),
            tokens@ == ts.skip(c),
            ts[c] == marker(TokenKind::End),
            statements_spec(ts) == after_items(
                stmt_views(statements@),
                c,
                statements_spec(ts.skip(c)),
            ),
        decreases ts.len() - c,
    {
        match tokens.peek_front() {
            Some(Token::End) => break,
            None => {
                assert(ts.skip(c).len() == 0);
                return Err(ParserError::UnexpectedEOF("Identifier, End".to_owned()));
            },
            Some(_) => {},
        }
        let ghost here = tokens@;
        let ghost n = statement_spec(here)->Ok_0.1;
        let s = match Statement::parse(tokens) {
            Ok(s) => s,
            Err(e) => {
                proof {
                    lemma_skip_skip(ts, c, statement_spec(here)->Err_0.1 as int);
                }
                return Err(e);
            },
        };
        if let Err(e) = tokens.consume_expected(Token::Semicolon) {
            proof {
                lemma_taken_from_suffix(here, n as int);
                lemma_skip_skip(ts, c, taken_at(here, n as int) as int);
            }
            return Err(e);
        }
        let ghost before = stmt_views(statements@);
        statements.push(s);
        proof {
            assert(here.skip(n as int)[0] == here[n as int]);
            assert(here.skip(n + 1 as int) =~= ts.skip(c + n + 1));
            assert(tokens@ =~= ts.skip(c + n + 1));
            assert(stmt_views(statements@) =~= before.push(s@));
            if let Ok((items, m)) = statements_spec(ts.skip(c + n + 1)) {
                assert(before + (seq![s@] + items) =~= before.push(s@) + items);
            }
            c = c + n + 1;
        }
    }
    assert(stmt_views(statements@) + Seq::<StmtView>::empty() =~= stmt_views(statements@));
    Ok(statements)
}

impl ProgramBody {
    /// Parses the declarations, each ended by `;`, up to `begin`; then the
    /// statements, each ended by `;`, up to `end`; then `end program`.
    pub fn parse(tokens: &mut TokenQueue) -> (r: Result<ProgramBody, ParserError>)
        ensures
            match body_spec(old(tokens)@) {
                Ok((b, n)) => r is Ok && n <= old(tokens)@.len() && r->Ok_0@ == b && final(tokens)@ == old(tokens)@.skip(
                    n as int,
                ),
                Err((e, k)) => r is Err && r->Err_0@ == e && k <= old(tokens)@.len() && final(tokens)@
                    == old(tokens)@.skip(
                    k as int,
                ),
            },
    {
        let ghost ts = tokens@;
        let declarations = match parse_declarations(tokens) {
            Ok(ds) => ds,
            Err(e) => {
                return Err(e);
            },
        };
        let ghost c = declarations_spec(ts)->Ok_0.1 as int;
        proof {
            lemma_declarations_end(ts);
        }
        if let Err(e) = tokens.consume_expected(Token::Begin) {
            return Err(e);
        }
        let ghost rest = ts.skip(c + 1);
        assert(tokens@ =~= rest);
        let statements = match parse_statements(tokens) {
            Ok(ss) => ss,
            Err(e) => {
                return Err(e);
            },
        };
        let ghost k = statements_spec(rest)->Ok_0.1 as int;
        proof {
            lemma_statements_end(rest);
        }
        if let Err(e) = tokens.consume_expected(Token::End) {
            return Err(e);
        }
        assert(tokens@ =~= rest.skip(k + 1));
        if let Err(e) = tokens.consume_expected(Token::Program) {
            return Err(e);
        }
        assert(tokens@ =~= ts.skip(c + 1 + k + 2));
        Ok(ProgramBody { declarations, statements })
    }

    /// The declarations, in source order.
    pub fn declarations(&self) -> (r: &Vec<Declaration>)
        ensures
            decl_views(r@) == self@.0,
    {
        &self.declarations
    }

    /// The statements, in source order.
    pub fn statements(&self) -> (r: &Vec<Statement>)
        ensures
            stmt_views(r@) == self@.1,
    {
        &self.statements
    }
}

/// A whole program: header, body, then `.` and the end of input.
#[derive(Debug)]
pub struct ProgramStruct {
    program_header: ProgramHeader,
    program_body: ProgramBody,
}

/// A program as a mathematical value: its name and its body.
pub type ProgramView = (Seq<char>, BodyView);

impl View for ProgramStruct {
    type V = ProgramView;

    closed spec fn view(&self) -> ProgramView {
        (self.program_header@, self.program_body@)
    }
}

/// The program that `ts` holds, which must take every token; or the error and
/// how many tokens were taken before it was found.
pub open spec fn program_spec(ts: Seq<TokenView>) -> Result<ProgramView, Failure> {
    match header_spec(ts) {
        Err(f) => Err(f),
        Ok(h) => match body_spec(ts.skip(3)) {
            Err((e, j)) => Err((e, 3 + j)),
            Ok((b, n)) => {
                let k = 3 + n as int;
                match expect_at(ts, k, marker(TokenKind::Period), kind_name(TokenKind::Period)) {
                    Some(e) => Err((e, taken_at(ts, k))),
                    None => if ts.len() <= k + 1 {
                        Err((ParseFault::UnexpectedEOF(kind_name(TokenKind::EOF)), ts.len()))
                    } else if ts[k + 1] != marker(TokenKind::EOF) {
                        Err((ParseFault::ExpectedEOF(ts[k + 1]), (k + 2) as nat))
                    } else if ts.len() > k + 2 {
                        Err((ParseFault::ExpectedEOF(ts[k + 2]), (k + 3) as nat))
                    } else {
                        Ok((h, b))
                    },
                }
            },
        },
    }
}

proof fn lemma_body_len(ts: Seq<TokenView>)
    requires
        body_spec(ts) is Ok,
    ensures
        body_spec(ts)->Ok_0.1 <= ts.len(),
{
    lemma_declarations_end(ts);
    let n = declarations_spec(ts)->Ok_0.1;
    lemma_statements_end(ts.skip(n + 1 as int));
}

impl ProgramStruct {
    /// Parses a header, a body, `.` and `EOF`. A token where `EOF` belongs, or
    /// after it, is an `ExpectedEOF` error carrying that token.
    pub fn parse(tokens: &mut TokenQueue) -> (r: Result<ProgramStruct, ParserError>)
        ensures
            match program_spec(old(tokens)@) {
                Ok(p) => r is Ok && r->Ok_0@ == p && final(tokens)@.len() == 0,
                Err((e, k)) => r is Err && r->Err_0@ == e && k <= old(tokens)@.len() && final(tokens)@
                    == old(tokens)@.skip(
                    k as int,
                ),
            },
    {
        let ghost ts = tokens@;
        let header = match ProgramHeader::parse(tokens) {
            Ok(h) => h,
            Err(e) => {
                return Err(e);
            },
        };
        let ghost rest = tokens@;
        let body = match ProgramBody::parse(tokens) {
            Ok(b) => b,
            Err(e) => {
                return Err(e);
            },
        };
        let ghost k = 3 + body_spec(rest)->Ok_0.1 as int;
        proof {
            lemma_body_len(rest);
        }
        assert(tokens@ =~= ts.skip(k));
        if let Err(e) = tokens.consume_expected(Token::Period) {
            return Err(e);
        }
        assert(tokens@ =~= ts.skip(k + 1));
        match tokens.pop_front() {
            None => {
                return Err(
                    ParserError::UnexpectedEOF(kind_name_exec(TokenKind::EOF).to_owned()),
                );
            },
            Some(t) => {
                if t.kind() != TokenKind::EOF {
                    return Err(ParserError::ExpectedEOF(t));
                }
            },
        }
        assert(tokens@ =~= ts.skip(k + 2));
        if let Some(next_token) = tokens.pop_front() {
            return Err(ParserError::ExpectedEOF(next_token));
        }
        Ok(ProgramStruct { program_header: header, program_body: body })
    }

    /// The program's header.
    pub fn header(&self) -> (r: &ProgramHeader)
        ensures
            r@ == self@.0,
    {
        &self.program_header
    }

    /// The program's body.
    pub fn body(&self) -> (r: &ProgramBody)
        ensures
            r@ == self@.1,
    {
        &self.program_body
    }
}

/// The token that names a type mark.
pub open spec fn type_mark_token(m: TypeMark) -> TokenView {
    match m {
        TypeMark::Integer => marker(TokenKind::Integer),
        TypeMark::Float => marker(TokenKind::Float),
        TypeMark::String => marker(TokenKind::String),
        TypeMark::Bool => marker(TokenKind::Bool),
    }
}

/// The tokens of a declaration.
pub open spec fn declaration_tokens(d: DeclView) -> Seq<TokenView> {
    (if d.0 {
        seq![marker(TokenKind::Global)]
    } else {
        Seq::empty()
    }) + seq![
        marker(TokenKind::Variable),
        (TokenKind::Identifier, d.1),
        marker(TokenKind::Colon),
        type_mark_token(d.2),
    ]
}

/// The tokens of a statement.
pub open spec fn statement_tokens(s: StmtView) -> Seq<TokenView> {
    seq![(TokenKind::Identifier, s.0), marker(TokenKind::Assignment), s.1]
}

/// The tokens of a list of declarations, each followed by `;`.
pub open spec fn declarations_tokens(ds: Seq<DeclView>) -> Seq<TokenView>
    decreases ds.len(),
{
    if ds.len() == 0 {
        Seq::empty()
    } else {
        declaration_tokens(ds[0]) + seq![marker(TokenKind::Semicolon)] + declarations_tokens(
            ds.drop_first(),
        )
    }
}

/// The tokens of a list of statements, each followed by `;`.
pub open spec fn statements_tokens(ss: Seq<StmtView>) -> Seq<TokenView>
    decreases ss.len(),
{
    if ss.len() == 0 {
        Seq::empty()
    } else {
        statement_tokens(ss[0]) + seq![marker(TokenKind::Semicolon)] + statements_tokens(
            ss.drop_first(),
        )
    }
}

/// The tokens of a whole program, `EOF` last.
pub open spec fn program_tokens(name: Seq<char>, ds: Seq<DeclView>, ss: Seq<StmtView>) -> Seq<
    TokenView,
> {
    seq![marker(TokenKind::Program), (TokenKind::Identifier, name), marker(TokenKind::Is)]
        + declarations_tokens(ds) + seq![marker(TokenKind::Begin)] + statements_tokens(ss) + seq![
        marker(TokenKind::End),
        marker(TokenKind::Program),
        marker(TokenKind::Period),
        marker(TokenKind::EOF),
    ]
}

/// Statements whose operands are all operands.
pub open spec fn statements_wf(ss: Seq<StmtView>) -> bool {
    forall|i: int| 0 <= i < ss.len() ==> is_operand(#[trigger] ss[i].1)
}

proof fn lemma_parse_declaration(d: DeclView, rest: Seq<TokenView>)
    ensures
        declaration_spec(declaration_tokens(d) + rest) == Ok::<(DeclView, nat), Failure>(
            (d, declaration_tokens(d).len()),
        ),
{
    let ts = declaration_tokens(d) + rest;
    let g: int = if d.0 {
        1
    } else {
        0
    };
    assert(ts[g] == marker(TokenKind::Variable));
    assert(ts[g + 1] == (TokenKind::Identifier, d.1));
    assert(ts[g + 2] == marker(TokenKind::Colon));
    assert(ts.skip(g + 3)[0] == type_mark_token(d.2));
    assert(ts[0] == marker(TokenKind::Global) <==> d.0);
}

proof fn lemma_parse_statement(st: StmtView, rest: Seq<TokenView>)
    requires
        is_operand(st.1),
    ensures
        statement_spec(statement_tokens(st) + rest) == Ok::<(StmtView, nat), Failure>((st, 3)),
{
    let ts = statement_tokens(st) + rest;
    assert(ts[0] == (TokenKind::Identifier, st.0));
    assert(ts[1] == marker(TokenKind::Assignment));
    assert(ts[2] == st.1);
}

proof fn lemma_parse_declarations(ds: Seq<DeclView>, rest: Seq<TokenView>)
    requires
        rest.len() > 0,
        rest[0] == marker(TokenKind::Begin),
    ensures
        declarations_spec(declarations_tokens(ds) + rest) == Ok::<(Seq<DeclView>, nat), Failure>(
            (ds, declarations_tokens(ds).len()),
        ),
    decreases ds.len(),
{
    let ts = declarations_tokens(ds) + rest;
    if ds.len() == 0 {
        assert(ts =~= rest);
        assert(ds =~= Seq::<DeclView>::empty());
    } else {
        let d = ds[0];
        let tail = ds.drop_first();
        let head = declaration_tokens(d);
        let after = declarations_tokens(tail) + rest;
        assert(ts =~= head + (seq![marker(TokenKind::Semicolon)] + after));
        lemma_parse_declaration(d, seq![marker(TokenKind::Semicolon)] + after);
        assert(ts[0] == head[0]);
        assert(ts[head.len() as int] == marker(TokenKind::Semicolon));
        assert(ts.skip(head.len() + 1 as int) =~= after);
        lemma_parse_declarations(tail, rest);
        assert(seq![d] + tail =~= ds);
    }
}

proof fn lemma_parse_statements(ss: Seq<StmtView>, rest: Seq<TokenView>)
    requires
        statements_wf(ss),
        rest.len() > 0,
        rest[0] == marker(TokenKind::End),
    ensures
        statements_spec(statements_tokens(ss) + rest) == Ok::<(Seq<StmtView>, nat), Failure>(
            (ss, statements_tokens(ss).len()),
        ),
    decreases ss.len(),
{
    let ts = statements_tokens(ss) + rest;
    if ss.len() == 0 {
        assert(ts =~= rest);
        assert(ss =~= Seq::<StmtView>::empty());
    } else {
        let st = ss[0];
        let tail = ss.drop_first();
        let head = statement_tokens(st);
        let after = statements_tokens(tail) + rest;
        assert(is_operand(ss[0].1));
        assert(ts =~= head + (seq![marker(TokenKind::Semicolon)] + after));
        lemma_parse_statement(st, seq![marker(TokenKind::Semicolon)] + after);
        assert(ts[0] == head[0]);
        assert(ts[3] == marker(TokenKind::Semicolon));
        assert(ts.skip(4) =~= after);
        assert forall|i: int| 0 <= i < tail.len() implies is_operand(#[trigger] tail[i].1) by {
            assert(tail[i] == ss[i + 1]);
        }
        lemma_parse_statements(tail, rest);
        assert(seq![st] + tail =~= ss);
    }
}

/// Every program that the grammar builds parses back to what it was built
/// from: its name, and its declarations and statements, as many as were
/// written in each section and in the same order.
pub proof fn parse_rendered_program(name: Seq<char>, ds: Seq<DeclView>, ss: Seq<StmtView>)
    requires
        statements_wf(ss),
    ensures
        program_spec(program_tokens(name, ds, ss)) == Ok::<ProgramView, Failure>(
            (name, (ds, ss)),
        ),
{
    let ts = program_tokens(name, ds, ss);
    let dt = declarations_tokens(ds);
    let st = statements_tokens(ss);
    let tail = seq![
        marker(TokenKind::End),
        marker(TokenKind::Program),
        marker(TokenKind::Period),
        marker(TokenKind::EOF),
    ];
    let body = dt + (seq![marker(TokenKind::Begin)] + (st + tail));
    assert(ts.skip(3) =~= body);
    assert(ts[0] == marker(TokenKind::Program));
    assert(ts[1] == (TokenKind::Identifier, name));
    assert(ts[2] == marker(TokenKind::Is));
    lemma_parse_declarations(ds, seq![marker(TokenKind::Begin)] + (st + tail));
    let rest = body.skip(dt.len() + 1 as int);
    assert(rest =~= st + tail);
    lemma_parse_statements(ss, tail);
    assert(rest[st.len() + 1 as int] == marker(TokenKind::Program));
    let k: int = 3 + dt.len() + 1 + st.len() + 2 as int;
    assert(ts.len() == k + 2);
    assert(ts[k] == marker(TokenKind::Period));
    assert(ts[k + 1] == marker(TokenKind::EOF));
}

/// A complete program with one more identifier before its `EOF` fails with
/// `ExpectedEOF` carrying that identifier, once every token but the `EOF` is taken.
pub proof fn trailing_identifier_rejected(
    name: Seq<char>,
    ds: Seq<DeclView>,
    ss: Seq<StmtView>,
    extra: Seq<char>,
)
    requires
        statements_wf(ss),
    ensures
        ({
            let ts = program_tokens(name, ds, ss);
            let with_extra = ts.drop_last().push((TokenKind::Identifier, extra)).push(
                marker(TokenKind::EOF),
            );
            program_spec(with_extra) == Err::<ProgramView, Failure>(
                (
                    ParseFault::ExpectedEOF((TokenKind::Identifier, extra)),
                    (with_extra.len() - 1) as nat,
                ),
            )
        }),
{
    let ts = program_tokens(name, ds, ss);
    let dt = declarations_tokens(ds);
    let st = statements_tokens(ss);
    let tail = seq![
        marker(TokenKind::End),
        marker(TokenKind::Program),
        marker(TokenKind::Period),
        (TokenKind::Identifier, extra),
        marker(TokenKind::EOF),
    ];
    let with_extra = ts.drop_last().push((TokenKind::Identifier, extra)).push(
        marker(TokenKind::EOF),
    );
    let body = dt + (seq![marker(TokenKind::Begin)] + (st + tail));
    assert(with_extra.skip(3) =~= body);
    assert(with_extra[0] == marker(TokenKind::Program));
    assert(with_extra[1] == (TokenKind::Identifier, name));
    assert(with_extra[2] == marker(TokenKind::Is));
    lemma_parse_declarations(ds, seq![marker(TokenKind::Begin)] + (st + tail));
    let rest = body.skip(dt.len() + 1 as int);
    assert(rest =~= st + tail);
    lemma_parse_statements(ss, tail);
    assert(rest[st.len() + 1 as int] == marker(TokenKind::Program));
    let k: int = 3 + dt.len() + 1 + st.len() + 2 as int;
    assert(with_extra.len() == k + 3);
    assert(with_extra[k] == marker(TokenKind::Period));
    assert(with_extra[k + 1] == (TokenKind::Identifier, extra));
}

} // verus!
