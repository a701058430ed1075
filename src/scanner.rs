use vstd::prelude::*;
use vstd::std_specs::iter::IteratorSpec;
use crate::tokens::{
    Token, TokenKind, TokenView, TokenError, TokenFault, BuildToken, marker, single_char_kind,
    compound_kind, word_token, keyword_kind, ascii_lower, all_ascii, is_ascii_char,
};

verus! {

broadcast use vstd::string::axiom_spec_iter, vstd::string::next_postcondition;

/// The scanner's state as a mathematical value.
pub enum ScanState {
    Idle,
    Compound(Seq<char>),
    Word(Seq<char>),
    Text(Seq<char>),
    Digits(Seq<char>),
}

impl View for BuildToken {
    type V = ScanState;

    open spec fn view(&self) -> ScanState {
        match self {
            BuildToken::Idle => ScanState::Idle,
            BuildToken::CompoundSymbol(s) => ScanState::Compound(s@),
            BuildToken::Identifier(s) => ScanState::Word(s@),
            BuildToken::StringLiteral(s) => ScanState::Text(s@),
            BuildToken::NumberLiteral(s) => ScanState::Digits(s@),
        }
    }
}

/// The views of a sequence of tokens.
pub open spec fn views(ts: Seq<Token>) -> Seq<TokenView> {
    ts.map_values(|t: Token| t@)
}

pub open spec fn is_space(c: char) -> bool {
    c == ' ' || c == '\t' || c == '\n' || c == '\r'
}

pub open spec fn is_letter(c: char) -> bool {
    ('a' <= c && c <= 'z') || ('A' <= c && c <= 'Z')
}

pub open spec fn is_digit(c: char) -> bool {
    '0' <= c && c <= '9'
}

/// Characters that continue a keyword or identifier.
pub open spec fn is_word_char(c: char) -> bool {
    is_letter(c) || is_digit(c) || c == '_'
}

/// Characters that continue a number literal.
pub open spec fn is_number_char(c: char) -> bool {
    is_digit(c) || c == '_' || c == '.'
}

/// Characters that may begin a two-character operator.
pub open spec fn opens_compound(c: char) -> bool {
    c == ':' || c == '=' || c == '!' || c == '<' || c == '>'
}

/// States that the scanner can be in.
pub open spec fn state_wf(st: ScanState) -> bool {
    match st {
        ScanState::Compound(p) => p.len() == 1 && opens_compound(p[0]),
        ScanState::Word(w) => all_ascii(w),
        ScanState::Digits(d) => all_ascii(d),
        _ => true,
    }
}

/// The outcome of one transition: the next state and the tokens it completes.
pub type Step = Result<(ScanState, Seq<TokenView>), TokenFault>;

/// The transition on `c` from the idle state.
pub open spec fn start(c: char) -> Step {
    if is_space(c) {
        Ok((ScanState::Idle, Seq::empty()))
    } else if is_letter(c) {
        Ok((ScanState::Word(seq![c]), Seq::empty()))
    } else if is_digit(c) {
        Ok((ScanState::Digits(seq![c]), Seq::empty()))
    } else if c == '"' {
        Ok((ScanState::Text(Seq::empty()), Seq::empty()))
    } else if opens_compound(c) {
        Ok((ScanState::Compound(seq![c]), Seq::empty()))
    } else {
        match single_char_kind(c) {
            Some(k) => Ok((ScanState::Idle, seq![marker(k)])),
            None => Err(TokenFault::Single(c)),
        }
    }
}

/// Completes `done`, then examines `c` afresh.
pub open spec fn restart(done: TokenView, c: char) -> Step {
    match start(c) {
        Ok((st, out)) => Ok((st, seq![done] + out)),
        Err(e) => Err(e),
    }
}

/// The token that a completed number literal becomes.
pub open spec fn number_token(d: Seq<char>) -> TokenView {
    (TokenKind::NumberLiteral, ascii_lower(d))
}

/// One transition of the scanner on the character `c`.
pub open spec fn step(st: ScanState, c: char) -> Step {
    match st {
        ScanState::Idle => start(c),
        ScanState::Word(w) => if is_word_char(c) {
            Ok((ScanState::Word(w.push(c)), Seq::empty()))
        } else {
            restart(word_token(ascii_lower(w)), c)
        },
        ScanState::Digits(d) => if is_number_char(c) {
            Ok((ScanState::Digits(d.push(c)), Seq::empty()))
        } else {
            restart(number_token(d), c)
        },
        ScanState::Text(t) => if c == '"' {
            Ok((ScanState::Idle, seq![(TokenKind::StringLiteral, t)]))
        } else {
            Ok((ScanState::Text(t.push(c)), Seq::empty()))
        },
        ScanState::Compound(p) => match compound_kind(p.push(c)) {
            Some(k) => Ok((ScanState::Idle, seq![marker(k)])),
            None => match single_char_kind(p[0]) {
                Some(k) => restart(marker(k), c),
                None => Err(TokenFault::Compound(p.push(c))),
            },
        },
    }
}

/// The tokens that end of input completes, ending with `EOF`.
pub open spec fn finish(st: ScanState) -> Result<Seq<TokenView>, TokenFault> {
    let eof = marker(TokenKind::EOF);
    match st {
        ScanState::Idle => Ok(seq![eof]),
        ScanState::Word(w) => Ok(seq![word_token(ascii_lower(w)), eof]),
        ScanState::Digits(d) => Ok(seq![number_token(d), eof]),
        ScanState::Text(t) => Ok(seq![(TokenKind::StringLiteral, t), eof]),
        ScanState::Compound(p) => match single_char_kind(p[0]) {
            Some(k) => Ok(seq![marker(k), eof]),
            None => Err(TokenFault::Single(p[0])),
        },
    }
}

/// Puts `pre` in front of the tokens of a successful result.
pub open spec fn prepend(
    pre: Seq<TokenView>,
    r: Result<Seq<TokenView>, TokenFault>,
) -> Result<Seq<TokenView>, TokenFault> {
    match r {
        Ok(ts) => Ok(pre + ts),
        Err(e) => Err(e),
    }
}

/// The scan of the characters `s` from the state `st`.
pub open spec fn scan_from(st: ScanState, s: Seq<char>) -> Result<Seq<TokenView>, TokenFault>
    decreases s.len(),
{
    if s.len() == 0 {
        finish(st)
    } else {
        match step(st, s[0]) {
            Ok((next, out)) => prepend(out, scan_from(next, s.drop_first())),
            Err(e) => Err(e),
        }
    }
}

/// The tokens of the source text `s`, or the first scanning error.
pub open spec fn scan_spec(s: Seq<char>) -> Result<Seq<TokenView>, TokenFault> {
    scan_from(ScanState::Idle, s)
}

/// Relies on `String::push`: appends the character.
#[verifier::external_body]
pub(crate) fn push_char(s: &mut String, c: char)
    ensures
        final(s)@ == old(s)@.push(c),
{
    s.push(c)
}

fn text_of(c: char) -> (r: String)
    ensures
        r@ == seq![c],
{
    let mut s = String::new();
    push_char(&mut s, c);
    assert(s@ =~= seq![c]);
    s
}

fn emit(out: &mut Vec<Token>, t: Token)
    ensures
        views(final(out)@) == views(old(out)@).push(t@),
{
    out.push(t);
    assert(views(out@) =~= views(old(out)@).push(t@));
}

fn is_space_exec(c: char) -> (r: bool)
    ensures
        r == is_space(c),
{
    c == ' ' || c == '\t' || c == '\n' || c == '\r'
}

fn is_letter_exec(c: char) -> (r: bool)
    ensures
        r == is_letter(c),
        r ==> is_ascii_char(c),
{
    ('a' <= c && c <= 'z') || ('A' <= c && c <= 'Z')
}

fn is_digit_exec(c: char) -> (r: bool)
    ensures
        r == is_digit(c),
        r ==> is_ascii_char(c),
{
    '0' <= c && c <= '9'
}

fn opens_compound_exec(c: char) -> (r: bool)
    ensures
        r == opens_compound(c),
{
    c == ':' || c == '=' || c == '!' || c == '<' || c == '>'
}

proof fn lemma_push_ascii(s: Seq<char>, c: char)
    requires
        all_ascii(s),
        is_ascii_char(c),
    ensures
        all_ascii(s.push(c)),
{
    assert forall|i: int| 0 <= i < s.push(c).len() implies is_ascii_char(#[trigger] s.push(c)[i]) by {
        if i < s.len() {
            assert(s.push(c)[i] == s[i]);
        }
    }
}

/// The transition on `c` from the idle state; completed tokens go to `out`.
pub fn scan_start(c: char, out: &mut Vec<Token>) -> (r: Result<BuildToken, TokenError>)
    ensures
        match start(c) {
            Ok((st, o)) => r is Ok && r->Ok_0@ == st && state_wf(st) && views(final(out)@)
                == views(old(out)@) + o,
            Err(e) => r is Err && r->Err_0@ == e,
        },
{
    let ghost before = views(out@);
    if is_space_exec(c) {
        assert(views(out@) =~= before + Seq::empty());
        Ok(BuildToken::Idle)
    } else if is_letter_exec(c) {
        assert(views(out@) =~= before + Seq::empty());
        Ok(BuildToken::Identifier(text_of(c)))
    } else if is_digit_exec(c) {
        assert(views(out@) =~= before + Seq::empty());
        Ok(BuildToken::NumberLiteral(text_of(c)))
    } else if c == '"' {
        assert(views(out@) =~= before + Seq::empty());
        Ok(BuildToken::StringLiteral(String::new()))
    } else if opens_compound_exec(c) {
        assert(views(out@) =~= before + Seq::empty());
        Ok(BuildToken::CompoundSymbol(text_of(c)))
    } else {
        match Token::from_char(c) {
            Ok(t) => {
                emit(out, t);
                assert(views(out@) =~= before + seq![t@]);
                Ok(BuildToken::Idle)
            },
            Err(e) => Err(e),
        }
    }
}

/// Completes the token `done`, then examines `c` afresh.
fn scan_restart(done: Token, c: char, out: &mut Vec<Token>) -> (r: Result<BuildToken, TokenError>)
    ensures
        match restart(done@, c) {
            Ok((st, o)) => r is Ok && r->Ok_0@ == st && state_wf(st) && views(final(out)@)
                == views(old(out)@) + o,
            Err(e) => r is Err && r->Err_0@ == e,
        },
{
    let ghost before = views(out@);
    let ghost d = done@;
    emit(out, done);
    let r = scan_start(c, out);
    proof {
        if let Ok((st, o)) = start(c) {
            assert(views(out@) =~= before + (seq![d] + o));
        }
    }
    r
}

/// One transition of the scanner on the character `c`; completed tokens go to `out`.
pub fn scan_step(state: BuildToken, c: char, out: &mut Vec<Token>) -> (r: Result<
    BuildToken,
    TokenError,
>)
    requires
        state_wf(state@),
    ensures
        match step(state@, c) {
            Ok((st, o)) => r is Ok && r->Ok_0@ == st && state_wf(st) && views(final(out)@)
                == views(old(out)@) + o,
            Err(e) => r is Err && r->Err_0@ == e,
        },
{
    let ghost before = views(out@);
    match state {
        BuildToken::Idle => scan_start(c, out),
        BuildToken::Identifier(w) => {
            if is_letter_exec(c) || is_digit_exec(c) || c == '_' {
                let mut w = w;
                proof { lemma_push_ascii(w@, c); }
                push_char(&mut w, c);
                assert(views(out@) =~= before + Seq::empty());
                Ok(BuildToken::Identifier(w))
            } else {
                scan_restart(Token::from_string(w), c, out)
            }
        },
        BuildToken::NumberLiteral(d) => {
            if is_digit_exec(c) || c == '_' || c == '.' {
                let mut d = d;
                proof { lemma_push_ascii(d@, c); }
                push_char(&mut d, c);
                assert(views(out@) =~= before + Seq::empty());
                Ok(BuildToken::NumberLiteral(d))
            } else {
                scan_restart(Token::num_literal_from_string(d), c, out)
            }
        },
        BuildToken::StringLiteral(t) => {
            if c == '"' {
                emit(out, Token::string_literal_from_string(t));
                assert(views(out@) =~= before + seq![(TokenKind::StringLiteral, t@)]);
                Ok(BuildToken::Idle)
            } else {
                let mut t = t;
                push_char(&mut t, c);
                assert(views(out@) =~= before + Seq::empty());
                Ok(BuildToken::StringLiteral(t))
            }
        },
        BuildToken::CompoundSymbol(p) => {
            let first = p.as_str().get_char(0);
            let mut pair = p;
            push_char(&mut pair, c);
            match Token::from_compound_identifier(pair.as_str()) {
                Ok(t) => {
                    emit(out, t);
                    assert(views(out@) =~= before + seq![t@]);
                    Ok(BuildToken::Idle)
                },
                Err(e) => match Token::from_char(first) {
                    Ok(t) => scan_restart(t, c, out),
                    Err(_) => Err(e),
                },
            }
        },
    }
}

/// The tokens that end of input completes, `EOF` last.
pub fn scan_finish(state: BuildToken, out: &mut Vec<Token>) -> (r: Result<(), TokenError>)
    requires
        state_wf(state@),
    ensures
        match finish(state@) {
            Ok(o) => r is Ok && views(final(out)@) == views(old(out)@) + o,
            Err(e) => r is Err && r->Err_0@ == e,
        },
{
    let ghost before = views(out@);
    let ghost eof = marker(TokenKind::EOF);
    match state {
        BuildToken::Idle => {},
        BuildToken::Identifier(w) => emit(out, Token::from_string(w)),
        BuildToken::NumberLiteral(d) => emit(out, Token::num_literal_from_string(d)),
        BuildToken::StringLiteral(t) => emit(out, Token::string_literal_from_string(t)),
        BuildToken::CompoundSymbol(p) => {
            match Token::from_char(p.as_str().get_char(0)) {
                Ok(t) => emit(out, t),
                Err(e) => {
                    return Err(e);
                },
            }
        },
    }
    emit(out, Token::EOF);
    proof {
        if let Ok(o) = finish(state@) {
            assert(views(out@) =~= before + o);
        }
    }
    Ok(())
}

/// Scans the source text into tokens ending with exactly one `EOF`, or fails
/// at the first character that no token accepts.
pub fn scan(source: &str) -> (r: Result<Vec<Token>, TokenError>)
    ensures
        match scan_spec(source@) {
            Ok(ts) => r is Ok && views(r->Ok_0@) == ts,
            Err(e) => r is Err && r->Err_0@ == e,
        },
{
    let mut out: Vec<Token> = Vec::new();
    let mut state = BuildToken::Idle;
    let mut it = source.chars();
    let ghost n = source@.len() as int;
    let ghost mut pos: int = 0;
    assert(source@.subrange(0, n) =~= source@);
    proof {
        lemma_prepend_empty(scan_spec(source@));
    }
    loop
        invariant
            0 <= pos <= n,
            n == source@.len(),
            it.remaining() == source@.subrange(pos, n),
            state_wf(state@),
            prepend(views(out@), scan_from(state@, source@.subrange(pos, n))) == scan_spec(
                source@,
            ),
        decreases n - pos,
    {
        let ghost pre = views(out@);
        let ghost st = state@;
        match it.next() {
            Some(c) => {
                proof {
                    assert(source@.subrange(pos, n).drop_first() =~= source@.subrange(pos + 1, n));
                }
                match scan_step(state, c, &mut out) {
                    Ok(next) => {
                        state = next;
                        proof {
                            lemma_scan_step(st, source@.subrange(pos, n), pre);
                            pos = pos + 1;
                        }
                    },
                    Err(e) => {
                        return Err(e);
                    },
                }
            },
            None => {
                proof {
                    assert(source@.subrange(pos, n).len() == 0);
                    lemma_prepend_finish(st, pre);
                }
                match scan_finish(state, &mut out) {
                    Ok(()) => {
                        return Ok(out);
                    },
                    Err(e) => {
                        return Err(e);
                    },
                }
            },
        }
    }
}

proof fn lemma_prepend_empty(r: Result<Seq<TokenView>, TokenFault>)
    ensures
        prepend(Seq::empty(), r) == r,
{
    if let Ok(ts) = r {
        assert(Seq::<TokenView>::empty() + ts =~= ts);
    }
}

proof fn lemma_prepend_finish(st: ScanState, pre: Seq<TokenView>)
    ensures
        prepend(pre, finish(st)) == match finish(st) {
            Ok(o) => Ok(pre + o),
            Err(e) => Err(e),
        },
{
}

/// One transition leaves the overall result unchanged when its tokens move
/// to the completed prefix.
proof fn lemma_scan_step(st: ScanState, s: Seq<char>, pre: Seq<TokenView>)
    requires
        s.len() > 0,
        step(st, s[0]) is Ok,
    ensures
        prepend(
            pre + step(st, s[0])->Ok_0.1,
            scan_from(step(st, s[0])->Ok_0.0, s.drop_first()),
        ) == prepend(pre, scan_from(st, s)),
{
    let (next, o) = step(st, s[0])->Ok_0;
    if let Ok(ts) = scan_from(next, s.drop_first()) {
        assert(pre + (o + ts) =~= (pre + o) + ts);
    }
}

/// A keyword or identifier as written: a letter, then letters, digits and `_`.
pub open spec fn is_word(s: Seq<char>) -> bool {
    &&& s.len() > 0
    &&& is_letter(s[0])
    &&& forall|i: int| 0 <= i < s.len() ==> is_word_char(#[trigger] s[i])
}

proof fn lemma_scan_word_rest(w: Seq<char>, rest: Seq<char>)
    requires
        forall|i: int| 0 <= i < rest.len() ==> is_word_char(#[trigger] rest[i]),
    ensures
        scan_from(ScanState::Word(w), rest) == Ok::<Seq<TokenView>, TokenFault>(
            seq![word_token(ascii_lower(w + rest)), marker(TokenKind::EOF)],
        ),
    decreases rest.len(),
{
    if rest.len() == 0 {
        assert(w + rest =~= w);
    } else {
        let c = rest[0];
        assert(is_word_char(c));
        let tail = rest.drop_first();
        assert forall|i: int| 0 <= i < tail.len() implies is_word_char(#[trigger] tail[i]) by {
            assert(tail[i] == rest[i + 1]);
        }
        lemma_scan_word_rest(w.push(c), tail);
        assert(w.push(c) + tail =~= w + rest);
        lemma_prepend_empty(scan_from(ScanState::Word(w.push(c)), tail));
    }
}

/// A source text that is one word scans to that word's token, then `EOF`:
/// its keyword, whatever the case of its letters, or else an identifier
/// holding the word in lower case.
pub proof fn scan_single_word(s: Seq<char>)
    requires
        is_word(s),
    ensures
        scan_spec(s) == Ok::<Seq<TokenView>, TokenFault>(
            seq![word_token(ascii_lower(s)), marker(TokenKind::EOF)],
        ),
        keyword_kind(ascii_lower(s)) is None ==> scan_spec(s) == Ok::<Seq<TokenView>, TokenFault>(
            seq![(TokenKind::Identifier, ascii_lower(s)), marker(TokenKind::EOF)],
        ),
{
    let tail = s.drop_first();
    assert forall|i: int| 0 <= i < tail.len() implies is_word_char(#[trigger] tail[i]) by {
        assert(tail[i] == s[i + 1]);
    }
    lemma_scan_word_rest(seq![s[0]], tail);
    assert(seq![s[0]] + tail =~= s);
    lemma_prepend_empty(scan_from(ScanState::Word(seq![s[0]]), tail));
}

/// Spellings of a word that differ only in the case of their letters scan
/// to the same tokens.
pub proof fn scan_ignores_case(a: Seq<char>, b: Seq<char>)
    requires
        is_word(a),
        is_word(b),
        ascii_lower(a) == ascii_lower(b),
    ensures
        scan_spec(a) == scan_spec(b),
{
    scan_single_word(a);
    scan_single_word(b);
}

/// Wherever it stands, `:` followed at once by `=` scans to one `Assignment`
/// token, and `:` followed by a space to one `Colon` token; scanning goes on
/// afresh after either.
pub proof fn scan_colon(rest: Seq<char>)
    ensures
        scan_spec(seq![':', '='] + rest) == prepend(
            seq![marker(TokenKind::Assignment)],
            scan_spec(rest),
        ),
        scan_spec(seq![':', ' '] + rest) == prepend(seq![marker(TokenKind::Colon)], scan_spec(rest)),
{
    let a = seq![':', '='] + rest;
    assert(a[0] == ':');
    assert(a.drop_first()[0] == '=');
    assert(a.drop_first().drop_first() =~= rest);
    assert(seq![':'].push('=') =~= seq![':', '=']);
    lemma_prepend_empty(scan_from(ScanState::Compound(seq![':']), a.drop_first()));
    let b = seq![':', ' '] + rest;
    assert(b[0] == ':');
    assert(b.drop_first()[0] == ' ');
    assert(b.drop_first().drop_first() =~= rest);
    assert(seq![':'].push(' ') =~= seq![':', ' ']);
    lemma_prepend_empty(scan_from(ScanState::Compound(seq![':']), b.drop_first()));
    lemma_prepend_empty(scan_spec(rest));
    if let Ok(ts) = scan_spec(rest) {
        assert(seq![marker(TokenKind::Colon)] + Seq::<TokenView>::empty() =~= seq![
            marker(TokenKind::Colon),
        ]);
    }
}

} // verus!
