//! The parser: tokens in, statements and diagnostics out.

use vstd::prelude::*;
use crate::ast::{Program, Statement, StatementView};
use crate::lexer::{
    lemma_eof_is_stable, lemma_scan_consumes, lemma_tokens_are_lexical, scan, tokens, Lexer,
};
use crate::token::{Token, TokenView};

verus! {

/// A diagnostic: the token that the parser expected and the lookahead token
/// that it found instead.
#[derive(Debug)]
pub struct ParserError {
    expected: Token,
    next: Token,
}

/// The mathematical value of a [`ParserError`].
pub struct ParserErrorView {
    pub expected: TokenView,
    pub next: TokenView,
}

impl View for ParserError {
    type V = ParserErrorView;

    closed spec fn view(&self) -> ParserErrorView {
        ParserErrorView { expected: self.expected@, next: self.next@ }
    }
}

impl ParserErrorView {
    /// The sentence that reports the diagnostic.
    pub open spec fn message(self) -> Seq<char> {
        "expected next token "@ + self.expected.label() + ", got "@ + self.next.label()
            + " insted"@
    }
}

impl ParserError {
    /// A diagnostic that says that `expected` was wanted where `next` stood.
    pub fn new(expected: Token, next: Token) -> (error: ParserError)
        ensures
            error@ == (ParserErrorView { expected: expected@, next: next@ }),
    {
        ParserError { expected: expected, next: next }
    }

    /// The token that the parser expected.
    pub fn expected(&self) -> (token: &Token)
        ensures
            token@ == self@.expected,
    {
        &self.expected
    }

    /// The lookahead token that the parser found.
    pub fn next(&self) -> (token: &Token)
        ensures
            token@ == self@.next,
    {
        &self.next
    }

    /// The sentence that reports the diagnostic.
    pub fn message(&self) -> (text: String)
        ensures
            text@ == self@.message(),
    {
        let expected = self.expected.label();
        let next = self.next.label();
        String::from_str("expected next token ").concat(expected.as_str()).concat(", got ").concat(
            next.as_str(),
        ).concat(" insted")
    }
}

/// The values of a sequence of diagnostics, in the same order.
pub open spec fn error_views(errors: Seq<ParserError>) -> Seq<ParserErrorView> {
    Seq::new(errors.len(), |i: int| errors[i]@)
}

/// The token at position `i` of `ts`, and `EoF` beyond its end.
pub open spec fn token_at(ts: Seq<TokenView>, i: int) -> TokenView {
    if 0 <= i < ts.len() {
        ts[i]
    } else {
        TokenView::EoF
    }
}

/// `ts` without its first token; nothing is left to drop from an empty
/// sequence.
pub open spec fn advance(ts: Seq<TokenView>) -> Seq<TokenView> {
    if ts.len() > 0 {
        ts.drop_first()
    } else {
        ts
    }
}

/// `ts` from its first semicolon on, or nothing where it has none.
pub open spec fn from_semicolon(ts: Seq<TokenView>) -> Seq<TokenView>
    decreases ts.len(),
{
    if ts.len() == 0 || ts[0] is SemiColon {
        ts
    } else {
        from_semicolon(ts.drop_first())
    }
}

/// What parsing one statement gives: the statement, the diagnostics it
/// raised, and the tokens from the one at which the parser stopped.
pub struct Parsed {
    pub statement: StatementView,
    pub errors: Seq<ParserErrorView>,
    pub rest: Seq<TokenView>,
}

/// The word that stands for any identifier in a diagnostic.
pub open spec fn identifier_placeholder() -> TokenView {
    TokenView::Identifier("something"@)
}

/// A `let` statement at the start of `ts`: `let`, an identifier, `=`, then
/// everything up to the next semicolon, which is passed over unread.
///
/// Without an identifier in second place the parser stops where it is;
/// without the `=` it stops at the identifier. Each failure gives `Illegal`
/// and one diagnostic.
pub open spec fn let_statement(ts: Seq<TokenView>) -> Parsed {
    match token_at(ts, 1) {
        TokenView::Identifier(name) => {
            if token_at(ts, 2) is Assign {
                Parsed {
                    statement: StatementView::Let { token: TokenView::Let, name, value: None },
                    errors: Seq::empty(),
                    rest: from_semicolon(ts.skip(2)),
                }
            } else {
                Parsed {
                    statement: StatementView::Illegal,
                    errors: seq![
                        ParserErrorView { expected: TokenView::Assign, next: token_at(ts, 2) },
                    ],
                    rest: ts.skip(1),
                }
            }
        },
        other => Parsed {
            statement: StatementView::Illegal,
            errors: seq![ParserErrorView { expected: identifier_placeholder(), next: other }],
            rest: ts,
        },
    }
}

/// A `return` statement at the start of `ts`: everything up to the next
/// semicolon is passed over unread.
pub open spec fn return_statement(ts: Seq<TokenView>) -> Parsed {
    Parsed {
        statement: StatementView::Return { token: TokenView::Return, value: None },
        errors: Seq::empty(),
        rest: from_semicolon(ts),
    }
}

/// The statement at the start of `ts`. Anything but `let` and `return` is
/// `Illegal`, raises no diagnostic and leaves the parser where it is.
pub open spec fn statement(ts: Seq<TokenView>) -> Parsed {
    match token_at(ts, 0) {
        TokenView::Let => let_statement(ts),
        TokenView::Return => return_statement(ts),
        _ => Parsed { statement: StatementView::Illegal, errors: Seq::empty(), rest: ts },
    }
}

/// What parsing a whole sequence of tokens gives: the statements in source
/// order and the diagnostics in the order in which they were raised.
pub struct Outcome {
    pub statements: Seq<StatementView>,
    pub errors: Seq<ParserErrorView>,
}

/// The statements of `ts` in order, with the diagnostics raised on the way.
///
/// After each statement the parser moves one token on from where the
/// statement left it, and goes on until no token is left.
pub open spec fn program(ts: Seq<TokenView>) -> Outcome
    decreases ts.len(),
    via program_terminates
{
    if ts.len() == 0 {
        Outcome { statements: Seq::empty(), errors: Seq::empty() }
    } else {
        let first = statement(ts);
        let others = program(advance(first.rest));
        Outcome {
            statements: seq![first.statement] + others.statements,
            errors: first.errors + others.errors,
        }
    }
}

#[via_fn]
proof fn program_terminates(ts: Seq<TokenView>) {
    lemma_statement_rest_is_suffix(ts);
}

/// Builds a program from the tokens of a lexer, looking one token ahead.
pub struct Parser<'a> {
    lxr: Lexer<'a>,
    cur_token: Token,
    peek_token: Token,
    errors: Vec<ParserError>,
}

impl<'a> Parser<'a> {
    /// The two buffered tokens and the lexer are in step: once a token is
    /// `EoF`, so is everything after it. Every parser that `new` gives is
    /// well formed, and every method keeps it so.
    pub closed spec fn well_formed(&self) -> bool {
        &&& self.cur_token@ is EoF ==> self.peek_token@ is EoF
        &&& self.peek_token@ is EoF ==> scan(self.lxr.remaining()).token is EoF
    }

    /// The tokens that are still to be parsed: the current token, the
    /// lookahead token, and those that the lexer has yet to give.
    pub closed spec fn pending(&self) -> Seq<TokenView> {
        if self.cur_token@ is EoF {
            Seq::empty()
        } else if self.peek_token@ is EoF {
            seq![self.cur_token@]
        } else {
            seq![self.cur_token@, self.peek_token@] + tokens(self.lxr.remaining())
        }
    }

    /// The diagnostics raised so far, oldest first.
    pub closed spec fn diagnostics(&self) -> Seq<ParserErrorView> {
        error_views(self.errors@)
    }

    /// A parser at the first token that `lxr` gives.
    pub fn new(lxr: Lexer<'a>) -> (parser: Parser<'a>)
        ensures
            parser.well_formed(),
            parser.pending() == tokens(lxr.remaining()),
            parser.diagnostics() == Seq::<ParserErrorView>::empty(),
    {
        let mut p = Parser {
            lxr: lxr,
            cur_token: Token::Illegal,
            peek_token: Token::Illegal,
            errors: Vec::new(),
        };
        p.next_token();
        p.next_token();
        p
    }

    /// The diagnostics raised so far, oldest first.
    pub fn errors(&self) -> (errors: &Vec<ParserError>)
        ensures
            error_views(errors@) == self.diagnostics(),
    {
        &self.errors
    }

    /// Moves one token on: the lookahead token becomes the current one.
    pub fn next_token(&mut self)
        requires
            old(self).well_formed(),
        ensures
            final(self).well_formed(),
            final(self).pending() == advance(old(self).pending()),
            final(self).diagnostics() == old(self).diagnostics(),
    {
        proof {
            lemma_scan_consumes(self.lxr.remaining());
            if scan(self.lxr.remaining()).token is EoF {
                lemma_eof_is_stable(self.lxr.remaining());
            }
        }
        let mut next = self.lxr.next_token();
        std::mem::swap(&mut self.peek_token, &mut next);
        self.cur_token = next;
    }

    /// Parses every statement up to the end of the input.
    pub fn parse_program(&mut self) -> (parsed: Program)
        requires
            old(self).well_formed(),
        ensures
            final(self).well_formed(),
            parsed@ == program(old(self).pending()).statements,
            final(self).diagnostics() == old(self).diagnostics() + program(
                old(self).pending(),
            ).errors,
            final(self).pending() == Seq::<TokenView>::empty(),
    {
        let mut parsed = Program::new();
        let ghost start = self.pending();
        let ghost reported = self.diagnostics();
        while self.cur_token != Token::EoF
            invariant
                self.well_formed(),
                program(start).statements == parsed@ + program(self.pending()).statements,
                reported + program(start).errors == self.diagnostics() + program(
                    self.pending(),
                ).errors,
            decreases self.pending().len(),
        {
            let ghost before = self.pending();
            let ghost statements = parsed@;
            let ghost errors = self.diagnostics();
            proof {
                lemma_statement_rest_is_suffix(before);
            }
            let stmt = self.parse_statement();
            parsed.statements.push(stmt);
            self.next_token();
            proof {
                let first = statement(before);
                let others = program(advance(first.rest));
                assert(statements + (seq![first.statement] + others.statements) =~= parsed@
                    + others.statements);
                assert(errors + (first.errors + others.errors) =~= (errors + first.errors)
                    + others.errors);
            }
        }
        parsed
    }

    fn parse_statement(&mut self) -> (stmt: Statement)
        requires
            old(self).well_formed(),
        ensures
            final(self).well_formed(),
            stmt@ == statement(old(self).pending()).statement,
            final(self).diagnostics() == old(self).diagnostics() + statement(
                old(self).pending(),
            ).errors,
            final(self).pending() == statement(old(self).pending()).rest,
    {
        match self.cur_token {
            Token::Let => self.parse_let_statement(),
            Token::Return => self.parse_return_statement(),
            _ => Statement::Illegal,
        }
    }

    fn push_err(&mut self, expected: Token)
        requires
            old(self).well_formed(),
        ensures
            final(self).well_formed(),
            final(self).pending() == old(self).pending(),
            final(self).diagnostics() == old(self).diagnostics().push(
                ParserErrorView { expected: expected@, next: token_at(old(self).pending(), 1) },
            ),
    {
        let peek = self.peek_token.clone();
        self.errors.push(ParserError::new(expected, peek));
        assert(self.diagnostics() =~= old(self).diagnostics().push(
            ParserErrorView { expected: expected@, next: token_at(old(self).pending(), 1) },
        ));
    }

    /// Moves on until the current token is a semicolon or the input ends.
    fn skip_to_semicolon(&mut self)
        requires
            old(self).well_formed(),
        ensures
            final(self).well_formed(),
            final(self).pending() == from_semicolon(old(self).pending()),
            final(self).diagnostics() == old(self).diagnostics(),
    {
        while Token::SemiColon != self.cur_token && Token::EoF != self.cur_token
            invariant
                self.well_formed(),
                from_semicolon(self.pending()) == from_semicolon(old(self).pending()),
                self.diagnostics() == old(self).diagnostics(),
            decreases self.pending().len(),
        {
            self.next_token();
        }
    }

    fn parse_let_statement(&mut self) -> (stmt: Statement)
        requires
            old(self).well_formed(),
        ensures
            final(self).well_formed(),
            stmt@ == let_statement(old(self).pending()).statement,
            final(self).diagnostics() == old(self).diagnostics() + let_statement(
                old(self).pending(),
            ).errors,
            final(self).pending() == let_statement(old(self).pending()).rest,
    {
        let name = if let Token::Identifier(ref ident) = self.peek_token {
            ident.clone()
        } else {
            self.push_err(Token::Identifier(String::from_str("something")));
            return Statement::Illegal;
        };

        self.next_token();

        if Token::Assign == self.peek_token {
            self.next_token();
            assert(self.pending() =~= old(self).pending().skip(2));
        } else {
            self.push_err(Token::Assign);
            return Statement::Illegal;
        }

        self.skip_to_semicolon();

        Statement::Let { token: Token::Let, name: name, value: None }
    }

    fn parse_return_statement(&mut self) -> (stmt: Statement)
        requires
            old(self).well_formed(),
        ensures
            final(self).well_formed(),
            stmt@ == return_statement(old(self).pending()).statement,
            final(self).diagnostics() == old(self).diagnostics() + return_statement(
                old(self).pending(),
            ).errors,
            final(self).pending() == return_statement(old(self).pending()).rest,
    {
        self.skip_to_semicolon();

        Statement::Return { token: Token::Return, value: None }
    }
}

/// True when every identifier of `ts` carries a non-empty name.
pub open spec fn identifiers_are_named(ts: Seq<TokenView>) -> bool {
    forall|i: int|
        0 <= i < ts.len() ==> (#[trigger] ts[i] matches TokenView::Identifier(name) ==> name.len()
            > 0)
}

/// What the parser can give as a statement: a `let` carries its keyword and
/// a non-empty name, a `return` carries its keyword, and neither carries a
/// value.
pub open spec fn well_shaped(statement: StatementView) -> bool {
    match statement {
        StatementView::Let { token, name, value } => {
            &&& token == TokenView::Let
            &&& name.len() > 0
            &&& value is None
        },
        StatementView::Return { token, value } => token == TokenView::Return && value is None,
        StatementView::Illegal => true,
    }
}

/// Passing over tokens leaves an end piece of what was there.
pub proof fn lemma_from_semicolon_is_suffix(ts: Seq<TokenView>)
    ensures
        from_semicolon(ts) == ts.skip(ts.len() - from_semicolon(ts).len()),
        from_semicolon(ts).len() <= ts.len(),
    decreases ts.len(),
{
    if ts.len() > 0 && !(ts[0] is SemiColon) {
        let tail = ts.drop_first();
        lemma_from_semicolon_is_suffix(tail);
        assert(tail.skip(tail.len() - from_semicolon(tail).len()) =~= ts.skip(
            ts.len() - from_semicolon(ts).len(),
        ));
    }
}

/// A statement leaves an end piece of the tokens it was given.
pub proof fn lemma_statement_rest_is_suffix(ts: Seq<TokenView>)
    ensures
        statement(ts).rest == ts.skip(ts.len() - statement(ts).rest.len()),
        statement(ts).rest.len() <= ts.len(),
{
    lemma_from_semicolon_is_suffix(ts);
    if ts.len() >= 2 {
        let tail = ts.skip(2);
        lemma_from_semicolon_is_suffix(tail);
        assert(tail.skip(tail.len() - from_semicolon(tail).len()) =~= ts.skip(
            ts.len() - from_semicolon(tail).len(),
        ));
    }
}

/// True when no token of `ts` is a semicolon.
pub open spec fn has_no_semicolon(ts: Seq<TokenView>) -> bool {
    forall|i: int| 0 <= i < ts.len() ==> !(#[trigger] ts[i] is SemiColon)
}

/// Tokens without a semicolon are passed over up to the semicolon that
/// follows them.
pub proof fn lemma_from_semicolon_stops(value: Seq<TokenView>, rest: Seq<TokenView>)
    requires
        has_no_semicolon(value),
    ensures
        from_semicolon(value + seq![TokenView::SemiColon] + rest) == seq![TokenView::SemiColon]
            + rest,
    decreases value.len(),
{
    let ts = value + seq![TokenView::SemiColon] + rest;
    if value.len() > 0 {
        assert(ts.drop_first() =~= value.drop_first() + seq![TokenView::SemiColon] + rest);
        lemma_from_semicolon_stops(value.drop_first(), rest);
    }
}

/// A complete `let` statement is parsed as one, whatever stands for its
/// value, without a diagnostic, and parsing goes on after its semicolon.
pub proof fn lemma_let_is_parsed(name: Seq<char>, value: Seq<TokenView>, rest: Seq<TokenView>)
    requires
        has_no_semicolon(value),
    ensures
        ({
            let ts = seq![TokenView::Let, TokenView::Identifier(name), TokenView::Assign] + value
                + seq![TokenView::SemiColon] + rest;
            let parsed = StatementView::Let { token: TokenView::Let, name, value: None };
            &&& program(ts).statements == seq![parsed] + program(rest).statements
            &&& program(ts).errors == program(rest).errors
        }),
{
    let ts = seq![TokenView::Let, TokenView::Identifier(name), TokenView::Assign] + value
        + seq![TokenView::SemiColon] + rest;
    // The `=` itself is passed over first.
    assert(ts.skip(2).drop_first() =~= value + seq![TokenView::SemiColon] + rest);
    lemma_from_semicolon_stops(value, rest);
    assert(advance(seq![TokenView::SemiColon] + rest) =~= rest);
}

/// A complete `return` statement is parsed as one, whatever stands for its
/// value, without a diagnostic, and parsing goes on after its semicolon.
pub proof fn lemma_return_is_parsed(value: Seq<TokenView>, rest: Seq<TokenView>)
    requires
        has_no_semicolon(value),
    ensures
        ({
            let ts = seq![TokenView::Return] + value + seq![TokenView::SemiColon] + rest;
            let parsed = StatementView::Return { token: TokenView::Return, value: None };
            &&& program(ts).statements == seq![parsed] + program(rest).statements
            &&& program(ts).errors == program(rest).errors
        }),
{
    let ts = seq![TokenView::Return] + value + seq![TokenView::SemiColon] + rest;
    // The `return` itself is passed over first.
    assert(ts.drop_first() =~= value + seq![TokenView::SemiColon] + rest);
    lemma_from_semicolon_stops(value, rest);
    assert(advance(seq![TokenView::SemiColon] + rest) =~= rest);
}

/// Tokens without a semicolon are passed over to the end.
pub proof fn lemma_from_semicolon_runs_out(value: Seq<TokenView>)
    requires
        has_no_semicolon(value),
    ensures
        from_semicolon(value) == Seq::<TokenView>::empty(),
    decreases value.len(),
{
    if value.len() > 0 {
        lemma_from_semicolon_runs_out(value.drop_first());
    }
}

/// A statement whose semicolon is missing takes everything up to the end of
/// the input, and is the last statement of the program.
pub proof fn lemma_statement_without_semicolon(name: Seq<char>, value: Seq<TokenView>)
    requires
        has_no_semicolon(value),
    ensures
        ({
            let ts = seq![TokenView::Let, TokenView::Identifier(name), TokenView::Assign] + value;
            let parsed = StatementView::Let { token: TokenView::Let, name, value: None };
            program(ts) == (Outcome { statements: seq![parsed], errors: Seq::empty() })
        }),
        ({
            let ts = seq![TokenView::Return] + value;
            let parsed = StatementView::Return { token: TokenView::Return, value: None };
            program(ts) == (Outcome { statements: seq![parsed], errors: Seq::empty() })
        }),
{
    let let_ts = seq![TokenView::Let, TokenView::Identifier(name), TokenView::Assign] + value;
    lemma_from_semicolon_runs_out(let_ts.skip(2));
    let return_ts = seq![TokenView::Return] + value;
    lemma_from_semicolon_runs_out(return_ts);
    let nothing = Seq::<TokenView>::empty();
    assert(program(nothing) == (Outcome { statements: Seq::empty(), errors: Seq::empty() }));
    assert(program(let_ts).statements =~= seq![
        StatementView::Let { token: TokenView::Let, name, value: None },
    ]);
    assert(program(return_ts).statements =~= seq![
        StatementView::Return { token: TokenView::Return, value: None },
    ]);
}

/// A `let` that is not followed by an identifier is one `Illegal` statement
/// with one diagnostic, which names the token found instead; parsing goes
/// on at that very token.
pub proof fn lemma_let_without_identifier(rest: Seq<TokenView>)
    requires
        token_at(rest, 0) !is Identifier,
    ensures
        ({
            let ts = seq![TokenView::Let] + rest;
            let error = ParserErrorView {
                expected: identifier_placeholder(),
                next: token_at(rest, 0),
            };
            &&& program(ts).statements == seq![StatementView::Illegal] + program(rest).statements
            &&& program(ts).errors == seq![error] + program(rest).errors
        }),
{
    let ts = seq![TokenView::Let] + rest;
    assert(advance(ts) =~= rest);
}

/// A `let` with its identifier but without `=` after it is one `Illegal`
/// statement with one diagnostic, which names the token found instead;
/// parsing goes on at that very token.
pub proof fn lemma_let_without_assign(name: Seq<char>, rest: Seq<TokenView>)
    requires
        token_at(rest, 0) !is Assign,
    ensures
        ({
            let ts = seq![TokenView::Let, TokenView::Identifier(name)] + rest;
            let error = ParserErrorView { expected: TokenView::Assign, next: token_at(rest, 0) };
            &&& program(ts).statements == seq![StatementView::Illegal] + program(rest).statements
            &&& program(ts).errors == seq![error] + program(rest).errors
        }),
{
    let ts = seq![TokenView::Let, TokenView::Identifier(name)] + rest;
    assert(advance(ts.skip(1)) =~= rest);
}

/// A token that starts neither a `let` nor a `return` statement is one
/// `Illegal` statement by itself, without a diagnostic, and parsing goes on
/// at the very next token.
pub proof fn lemma_other_token_is_illegal(token: TokenView, rest: Seq<TokenView>)
    requires
        token !is Let,
        token !is Return,
    ensures
        program(seq![token] + rest).statements == seq![StatementView::Illegal] + program(
            rest,
        ).statements,
        program(seq![token] + rest).errors == program(rest).errors,
{
    let ts = seq![token] + rest;
    assert(advance(ts) =~= rest);
}

/// Every token starts at most one statement, and every diagnostic belongs
/// to a statement of its own: there are no more statements than tokens and
/// no more diagnostics than statements.
pub proof fn lemma_program_sizes(ts: Seq<TokenView>)
    ensures
        program(ts).errors.len() <= program(ts).statements.len() <= ts.len(),
    decreases ts.len(),
{
    if ts.len() > 0 {
        lemma_statement_rest_is_suffix(ts);
        lemma_program_sizes(advance(statement(ts).rest));
    }
}

/// Where every identifier has a name, every statement is well shaped.
pub proof fn lemma_statements_are_well_shaped(ts: Seq<TokenView>)
    requires
        identifiers_are_named(ts),
    ensures
        forall|i: int|
            0 <= i < program(ts).statements.len() ==> well_shaped(
                #[trigger] program(ts).statements[i],
            ),
    decreases ts.len(),
{
    if ts.len() > 0 {
        lemma_statement_rest_is_suffix(ts);
        let next = advance(statement(ts).rest);
        let k = ts.len() - next.len();
        assert(next =~= ts.skip(k));
        assert forall|i: int| 0 <= i < next.len() implies (
        #[trigger] next[i] matches TokenView::Identifier(name) ==> name.len() > 0) by {
            assert(next[i] == ts[k + i]);
        }
        lemma_statements_are_well_shaped(next);
        let others = program(next).statements;
        assert forall|i: int| 0 <= i < program(ts).statements.len() implies well_shaped(
            #[trigger] program(ts).statements[i],
        ) by {
            if i > 0 {
                assert(program(ts).statements[i] == others[i - 1]);
            }
        }
    }
}

/// Every statement parsed from source text is well shaped: a `let` has a
/// non-empty name, and no statement carries a value.
pub proof fn lemma_parsed_text_is_well_shaped(s: Seq<char>)
    ensures
        forall|i: int|
            0 <= i < program(tokens(s)).statements.len() ==> well_shaped(
                #[trigger] program(tokens(s)).statements[i],
            ),
{
    lemma_tokens_are_lexical(s);
    lemma_statements_are_well_shaped(tokens(s));
}

} // verus!
