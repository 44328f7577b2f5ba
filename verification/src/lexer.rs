//! The lexer: source text in, one token per call out.

use vstd::prelude::*;
use crate::text::split_first;
use crate::token::{keyword, lookup_ident, spec_lookup_ident, Token, TokenView};

verus! {

/// The kinds of character of which the lexer reads whole runs.
pub enum CharClass {
    Whitespace,
    Letter,
    Digit,
}

impl CharClass {
    /// Whether `c` is a character of this kind.
    pub open spec fn contains(self, c: char) -> bool {
        match self {
            CharClass::Whitespace => c == ' ' || c == '\t' || c == '\n' || c == '\r',
            CharClass::Letter => 'a' <= c <= 'z' || 'A' <= c <= 'Z' || c == '_',
            CharClass::Digit => '0' <= c <= '9',
        }
    }
}

/// The number of characters at the start of `s` that belong to `class`.
pub open spec fn run_len(s: Seq<char>, class: CharClass) -> nat
    decreases s.len(),
{
    if s.len() > 0 && class.contains(s[0]) {
        1 + run_len(s.drop_first(), class)
    } else {
        0
    }
}

/// The token for a punctuation mark that is complete in one character.
pub open spec fn punctuation(c: char) -> Option<TokenView> {
    if c == '+' {
        Some(TokenView::Plus)
    } else if c == '-' {
        Some(TokenView::Minus)
    } else if c == '*' {
        Some(TokenView::Asterisk)
    } else if c == '/' {
        Some(TokenView::Slash)
    } else if c == ';' {
        Some(TokenView::SemiColon)
    } else if c == '(' {
        Some(TokenView::LParen)
    } else if c == ')' {
        Some(TokenView::RParen)
    } else if c == '{' {
        Some(TokenView::LBrace)
    } else if c == '}' {
        Some(TokenView::RBrace)
    } else if c == ',' {
        Some(TokenView::Comma)
    } else if c == '<' {
        Some(TokenView::LessThan)
    } else if c == '>' {
        Some(TokenView::GraterThan)
    } else {
        None
    }
}

/// What one step of the lexer gives: a token and the text after it.
pub struct Scanned {
    pub token: TokenView,
    pub rest: Seq<char>,
}

/// The first token of `s` and the text that follows it.
///
/// Leading whitespace is dropped. Then nothing left gives `EoF`; a
/// punctuation mark stands alone; `=` and `!` join a directly following
/// `=`; a letter starts the longest run of letters, resolved against the
/// keywords; a digit starts the longest run of digits; any other character
/// is `Illegal` and is consumed.
pub open spec fn scan(s: Seq<char>) -> Scanned {
    let t = s.skip(run_len(s, CharClass::Whitespace) as int);
    if t.len() == 0 {
        Scanned { token: TokenView::EoF, rest: t }
    } else if punctuation(t[0]) is Some {
        Scanned { token: punctuation(t[0])->0, rest: t.skip(1) }
    } else if t[0] == '=' {
        if t.len() > 1 && t[1] == '=' {
            Scanned { token: TokenView::Equal, rest: t.skip(2) }
        } else {
            Scanned { token: TokenView::Assign, rest: t.skip(1) }
        }
    } else if t[0] == '!' {
        if t.len() > 1 && t[1] == '=' {
            Scanned { token: TokenView::NotEqual, rest: t.skip(2) }
        } else {
            Scanned { token: TokenView::Bang, rest: t.skip(1) }
        }
    } else if CharClass::Letter.contains(t[0]) {
        let n = run_len(t, CharClass::Letter) as int;
        Scanned { token: spec_lookup_ident(t.take(n)), rest: t.skip(n) }
    } else if CharClass::Digit.contains(t[0]) {
        let n = run_len(t, CharClass::Digit) as int;
        Scanned { token: TokenView::Integer(t.take(n)), rest: t.skip(n) }
    } else {
        Scanned { token: TokenView::Illegal, rest: t.skip(1) }
    }
}

/// All tokens of `s` in order, up to but not including the final `EoF`.
pub open spec fn tokens(s: Seq<char>) -> Seq<TokenView>
    decreases s.len(),
    via tokens_terminates
{
    let first = scan(s);
    if first.token is EoF {
        Seq::empty()
    } else {
        seq![first.token] + tokens(first.rest)
    }
}

#[via_fn]
proof fn tokens_terminates(s: Seq<char>) {
    lemma_scan_consumes(s);
}

/// Scans source text one token at a time.
pub struct Lexer<'a> {
    rest: &'a str,
}

impl<'a> Lexer<'a> {
    /// The text that has not been read yet.
    pub closed spec fn remaining(&self) -> Seq<char> {
        self.rest@
    }

    /// A lexer at the start of `input`.
    pub fn new(input: &'a str) -> (lexer: Lexer<'a>)
        ensures
            lexer.remaining() == input@,
    {
        Lexer { rest: input }
    }

    fn curr_char(&self) -> (c: Option<char>)
        ensures
            c == if self.remaining().len() > 0 {
                Some(self.remaining()[0])
            } else {
                None
            },
    {
        match split_first(self.rest) {
            Some((c, _, _)) => Some(c),
            None => None,
        }
    }

    fn read_char(&mut self)
        ensures
            final(self).remaining() == if old(self).remaining().len() > 0 {
                old(self).remaining().drop_first()
            } else {
                old(self).remaining()
            },
    {
        match split_first(self.rest) {
            Some((_, _, tail)) => {
                self.rest = tail;
            },
            None => {},
        }
    }

    fn peek_char(&self) -> (c: Option<char>)
        ensures
            c == if self.remaining().len() > 1 {
                Some(self.remaining()[1])
            } else {
                None
            },
    {
        match split_first(self.rest) {
            Some((_, _, tail)) => match split_first(tail) {
                Some((c, _, _)) => Some(c),
                None => None,
            },
            None => None,
        }
    }

    /// Returns the next token and moves past it. At the end of the text it
    /// returns `EoF`, on every call.
    pub fn next_token(&mut self) -> (token: Token)
        ensures
            token@ == scan(old(self).remaining()).token,
            final(self).remaining() == scan(old(self).remaining()).rest,
    {
        self.skip_whitespace();
        let token = match self.curr_char() {
            Some(ch) => match ch {
                '=' => {
                    if self.peek_char() == Some('=') {
                        self.read_char();
                        Token::Equal
                    } else {
                        Token::Assign
                    }
                },
                '!' => {
                    if self.peek_char() == Some('=') {
                        self.read_char();
                        Token::NotEqual
                    } else {
                        Token::Bang
                    }
                },
                '+' => Token::Plus,
                '-' => Token::Minus,
                '*' => Token::Asterisk,
                '/' => Token::Slash,
                ';' => Token::SemiColon,
                '(' => Token::LParen,
                ')' => Token::RParen,
                '{' => Token::LBrace,
                '}' => Token::RBrace,
                ',' => Token::Comma,
                '<' => Token::LessThan,
                '>' => Token::GraterThan,
                _ => {
                    if Lexer::is_letter(ch) {
                        let ident = self.read_identifier();
                        return lookup_ident(ident.as_str());
                    } else if Lexer::is_digit(ch) {
                        return Token::Integer(self.read_number());
                    } else {
                        Token::Illegal
                    }
                },
            },
            None => Token::EoF,
        };
        self.read_char();
        token
    }

    fn is_letter(ch: char) -> (b: bool)
        ensures
            b == CharClass::Letter.contains(ch),
    {
        'a' <= ch && ch <= 'z' || 'A' <= ch && ch <= 'Z' || ch == '_'
    }

    fn is_digit(ch: char) -> (b: bool)
        ensures
            b == CharClass::Digit.contains(ch),
    {
        '0' <= ch && ch <= '9'
    }

    fn is_whitespace(ch: char) -> (b: bool)
        ensures
            b == CharClass::Whitespace.contains(ch),
    {
        ch == ' ' || ch == '\t' || ch == '\n' || ch == '\r'
    }

    fn read_identifier(&mut self) -> (ident: String)
        ensures
            ident@ == old(self).remaining().take(
                run_len(old(self).remaining(), CharClass::Letter) as int,
            ),
            final(self).remaining() == old(self).remaining().skip(
                run_len(old(self).remaining(), CharClass::Letter) as int,
            ),
    {
        let ghost start = self.remaining();
        let ghost mut n: int = 0;
        let mut ident = String::new();
        loop
            invariant
                0 <= n <= start.len(),
                self.remaining() == start.skip(n),
                ident@ == start.take(n),
                run_len(start, CharClass::Letter) == n + run_len(
                    self.remaining(),
                    CharClass::Letter,
                ),
            ensures
                run_len(self.remaining(), CharClass::Letter) == 0,
            decreases self.remaining().len(),
        {
            match split_first(self.rest) {
                Some((c, head, tail)) => {
                    if !Lexer::is_letter(c) {
                        break ;
                    }
                    ident.append(head);
                    self.rest = tail;
                    proof {
                        assert(start.skip(n).drop_first() =~= start.skip(n + 1));
                        assert(start.take(n) + seq![c] =~= start.take(n + 1));
                        n = n + 1;
                    }
                },
                None => {
                    break ;
                },
            }
        }
        ident
    }

    fn read_number(&mut self) -> (number: String)
        ensures
            number@ == old(self).remaining().take(
                run_len(old(self).remaining(), CharClass::Digit) as int,
            ),
            final(self).remaining() == old(self).remaining().skip(
                run_len(old(self).remaining(), CharClass::Digit) as int,
            ),
    {
        let ghost start = self.remaining();
        let ghost mut n: int = 0;
        let mut number = String::new();
        loop
            invariant
                0 <= n <= start.len(),
                self.remaining() == start.skip(n),
                number@ == start.take(n),
                run_len(start, CharClass::Digit) == n + run_len(
                    self.remaining(),
                    CharClass::Digit,
                ),
            ensures
                run_len(self.remaining(), CharClass::Digit) == 0,
            decreases self.remaining().len(),
        {
            match split_first(self.rest) {
                Some((c, head, tail)) => {
                    if !Lexer::is_digit(c) {
                        break ;
                    }
                    number.append(head);
                    self.rest = tail;
                    proof {
                        assert(start.skip(n).drop_first() =~= start.skip(n + 1));
                        assert(start.take(n) + seq![c] =~= start.take(n + 1));
                        n = n + 1;
                    }
                },
                None => {
                    break ;
                },
            }
        }
        number
    }

    fn skip_whitespace(&mut self)
        ensures
            final(self).remaining() == old(self).remaining().skip(
                run_len(old(self).remaining(), CharClass::Whitespace) as int,
            ),
    {
        let ghost start = self.remaining();
        let ghost mut n: int = 0;
        loop
            invariant
                0 <= n <= start.len(),
                self.remaining() == start.skip(n),
                run_len(start, CharClass::Whitespace) == n + run_len(
                    self.remaining(),
                    CharClass::Whitespace,
                ),
            ensures
                run_len(self.remaining(), CharClass::Whitespace) == 0,
            decreases self.remaining().len(),
        {
            match self.curr_char() {
                Some(c) => {
                    if !Lexer::is_whitespace(c) {
                        break ;
                    }
                    self.read_char();
                    proof {
                        assert(start.skip(n).drop_first() =~= start.skip(n + 1));
                        n = n + 1;
                    }
                },
                None => {
                    break ;
                },
            }
        }
    }
}

/// True when every character of `s` belongs to `class`.
pub open spec fn all_in(s: Seq<char>, class: CharClass) -> bool {
    forall|i: int| 0 <= i < s.len() ==> class.contains(#[trigger] s[i])
}

/// A run is no longer than the text it starts.
pub proof fn lemma_run_len_bound(s: Seq<char>, class: CharClass)
    ensures
        run_len(s, class) <= s.len(),
    decreases s.len(),
{
    if s.len() > 0 && class.contains(s[0]) {
        lemma_run_len_bound(s.drop_first(), class);
    }
}

/// A text made of `class` alone, followed by a text that does not start
/// with a character of `class`, has exactly the first text as its run.
pub proof fn lemma_run_len_exact(run: Seq<char>, rest: Seq<char>, class: CharClass)
    requires
        all_in(run, class),
        rest.len() == 0 || !class.contains(rest[0]),
    ensures
        run_len(run + rest, class) == run.len(),
    decreases run.len(),
{
    if run.len() > 0 {
        assert((run + rest).drop_first() =~= run.drop_first() + rest);
        lemma_run_len_exact(run.drop_first(), rest, class);
    }
}

/// Every token other than `EoF` uses up at least one character, and `EoF`
/// leaves nothing behind.
pub proof fn lemma_scan_consumes(s: Seq<char>)
    ensures
        scan(s).rest.len() <= s.len(),
        scan(s).token !is EoF ==> scan(s).rest.len() < s.len(),
        scan(s).token is EoF ==> scan(s).rest.len() == 0,
{
    lemma_run_len_bound(s, CharClass::Whitespace);
    let t = s.skip(run_len(s, CharClass::Whitespace) as int);
    lemma_run_len_bound(t, CharClass::Letter);
    lemma_run_len_bound(t, CharClass::Digit);
}

/// What the lexer can give as a token: an identifier is a non-empty word of
/// letters and underscores that is no keyword, an integer is a non-empty
/// run of digits.
pub open spec fn lexical(token: TokenView) -> bool {
    match token {
        TokenView::Identifier(text) => {
            &&& text.len() > 0
            &&& all_in(text, CharClass::Letter)
            &&& keyword(text) is None
        },
        TokenView::Integer(text) => text.len() > 0 && all_in(text, CharClass::Digit),
        _ => true,
    }
}

/// The characters of a run all belong to its class.
pub proof fn lemma_run_is_in_class(s: Seq<char>, class: CharClass)
    ensures
        all_in(s.take(run_len(s, class) as int), class),
    decreases s.len(),
{
    lemma_run_len_bound(s, class);
    if s.len() > 0 && class.contains(s[0]) {
        let tail = s.drop_first();
        lemma_run_is_in_class(tail, class);
        lemma_run_len_bound(tail, class);
        let n = run_len(s, class) as int;
        assert forall|i: int| 0 <= i < n implies class.contains(#[trigger] s.take(n)[i]) by {
            if i > 0 {
                assert(s.take(n)[i] == tail.take(n - 1)[i - 1]);
            }
        }
    }
}

/// Whatever the text, the token that the lexer gives is well formed.
pub proof fn lemma_scan_is_lexical(s: Seq<char>)
    ensures
        lexical(scan(s).token),
{
    let t = s.skip(run_len(s, CharClass::Whitespace) as int);
    lemma_run_is_in_class(t, CharClass::Letter);
    lemma_run_is_in_class(t, CharClass::Digit);
    lemma_run_len_bound(t, CharClass::Letter);
    lemma_run_len_bound(t, CharClass::Digit);
}

/// Every token of a text is well formed, and none of them is `EoF`.
pub proof fn lemma_tokens_are_lexical(s: Seq<char>)
    ensures
        forall|i: int|
            0 <= i < tokens(s).len() ==> lexical(#[trigger] tokens(s)[i]) && tokens(s)[i] !is EoF,
    decreases s.len(),
{
    lemma_scan_consumes(s);
    lemma_scan_is_lexical(s);
    if scan(s).token !is EoF {
        lemma_tokens_are_lexical(scan(s).rest);
    }
}

/// Text that is all whitespace holds no token: the lexer answers `EoF` at
/// once, with nothing left to read.
pub proof fn lemma_whitespace_is_eof(s: Seq<char>)
    requires
        all_in(s, CharClass::Whitespace),
    ensures
        scan(s) == (Scanned { token: TokenView::EoF, rest: Seq::empty() }),
        tokens(s) == Seq::<TokenView>::empty(),
{
    lemma_run_len_exact(s, Seq::empty(), CharClass::Whitespace);
    assert(s.skip(s.len() as int) =~= Seq::<char>::empty());
}

/// A word of letters and underscores that is no keyword, followed by
/// anything that cannot continue it, is read as one identifier that carries
/// the word unchanged; what follows is left unread.
pub proof fn lemma_word_before_rest(word: Seq<char>, rest: Seq<char>)
    requires
        word.len() > 0,
        all_in(word, CharClass::Letter),
        keyword(word) is None,
        rest.len() == 0 || !CharClass::Letter.contains(rest[0]),
    ensures
        scan(word + rest) == (Scanned { token: TokenView::Identifier(word), rest }),
{
    let s = word + rest;
    lemma_run_len_exact(word, rest, CharClass::Letter);
    assert(s.skip(0) =~= s);
    assert(s.take(word.len() as int) =~= word);
    assert(s.skip(word.len() as int) =~= rest);
}

/// A text of letters and underscores that is no keyword is one identifier
/// that carries exactly that text.
pub proof fn lemma_word_is_identifier(word: Seq<char>)
    requires
        word.len() > 0,
        all_in(word, CharClass::Letter),
        keyword(word) is None,
    ensures
        scan(word) == (Scanned { token: TokenView::Identifier(word), rest: Seq::empty() }),
        tokens(word) == seq![TokenView::Identifier(word)],
{
    lemma_word_before_rest(word, Seq::empty());
    assert(tokens(scan(word).rest) =~= Seq::<TokenView>::empty());
}

/// A run of digits, followed by anything that is no digit, is read as one
/// integer that carries the digits unchanged; what follows is left unread.
pub proof fn lemma_digits_before_rest(digits: Seq<char>, rest: Seq<char>)
    requires
        digits.len() > 0,
        all_in(digits, CharClass::Digit),
        rest.len() == 0 || !CharClass::Digit.contains(rest[0]),
    ensures
        scan(digits + rest) == (Scanned { token: TokenView::Integer(digits), rest }),
{
    let s = digits + rest;
    lemma_run_len_exact(digits, rest, CharClass::Digit);
    assert(s.skip(0) =~= s);
    assert(s.take(digits.len() as int) =~= digits);
    assert(s.skip(digits.len() as int) =~= rest);
}

/// A text of digits alone is one integer that carries exactly those digits,
/// leading zeros included.
pub proof fn lemma_digits_are_integer(digits: Seq<char>)
    requires
        digits.len() > 0,
        all_in(digits, CharClass::Digit),
    ensures
        scan(digits) == (Scanned { token: TokenView::Integer(digits), rest: Seq::empty() }),
        tokens(digits) == seq![TokenView::Integer(digits)],
{
    lemma_digits_before_rest(digits, Seq::empty());
    assert(tokens(scan(digits).rest) =~= Seq::<TokenView>::empty());
}

/// `=` and `!` each join a directly following `=` into one token, and stand
/// alone before anything else.
pub proof fn lemma_two_character_operators(rest: Seq<char>)
    ensures
        scan(seq!['=', '='] + rest) == (Scanned { token: TokenView::Equal, rest }),
        scan(seq!['!', '='] + rest) == (Scanned { token: TokenView::NotEqual, rest }),
        rest.len() == 0 || rest[0] != '=' ==> {
            &&& scan(seq!['='] + rest) == (Scanned { token: TokenView::Assign, rest })
            &&& scan(seq!['!'] + rest) == (Scanned { token: TokenView::Bang, rest })
        },
{
    let eq2 = seq!['=', '='] + rest;
    let ne2 = seq!['!', '='] + rest;
    let eq1 = seq!['='] + rest;
    let ne1 = seq!['!'] + rest;
    assert(eq2.skip(0) =~= eq2 && eq2.skip(2) =~= rest);
    assert(ne2.skip(0) =~= ne2 && ne2.skip(2) =~= rest);
    assert(eq1.skip(0) =~= eq1 && eq1.skip(1) =~= rest);
    assert(ne1.skip(0) =~= ne1 && ne1.skip(1) =~= rest);
}

/// Once the lexer has answered `EoF` it answers `EoF` again, however often
/// it is asked, and its position no longer moves.
pub proof fn lemma_eof_is_stable(s: Seq<char>)
    requires
        scan(s).token is EoF,
    ensures
        scan(scan(s).rest) == scan(s),
{
    lemma_scan_consumes(s);
    let rest = scan(s).rest;
    assert(rest.skip(0) =~= rest);
}

} // verus!
