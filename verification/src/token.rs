//! The lexical categories of the language and the fixed keyword table.

use vstd::prelude::*;
use vstd::std_specs::cmp::PartialEqSpecImpl;
use crate::text::same_text;

verus! {

/// One lexical unit of source text.
///
/// `Identifier` and `Integer` carry the text they were read from; an integer
/// keeps its digits as text.
#[derive(Debug)]
pub enum Token {
    Let,
    LParen,
    RParen,
    LBrace,
    RBrace,
    Identifier(String),
    Plus,
    Minus,
    Bang,
    Asterisk,
    Slash,
    LessThan,
    GraterThan,
    Integer(String),
    Comma,
    SemiColon,
    Function,
    Assign,
    EoF,
    Illegal,
    If,
    Else,
    Return,
    True,
    False,
    Equal,
    NotEqual,
}

/// The mathematical value of a [`Token`]: the same variants, with each
/// payload as a sequence of characters.
pub enum TokenView {
    Let,
    LParen,
    RParen,
    LBrace,
    RBrace,
    Identifier(Seq<char>),
    Plus,
    Minus,
    Bang,
    Asterisk,
    Slash,
    LessThan,
    GraterThan,
    Integer(Seq<char>),
    Comma,
    SemiColon,
    Function,
    Assign,
    EoF,
    Illegal,
    If,
    Else,
    Return,
    True,
    False,
    Equal,
    NotEqual,
}

impl View for Token {
    type V = TokenView;

    open spec fn view(&self) -> TokenView {
        match self {
            Token::Let => TokenView::Let,
            Token::LParen => TokenView::LParen,
            Token::RParen => TokenView::RParen,
            Token::LBrace => TokenView::LBrace,
            Token::RBrace => TokenView::RBrace,
            Token::Identifier(text) => TokenView::Identifier(text@),
            Token::Plus => TokenView::Plus,
            Token::Minus => TokenView::Minus,
            Token::Bang => TokenView::Bang,
            Token::Asterisk => TokenView::Asterisk,
            Token::Slash => TokenView::Slash,
            Token::LessThan => TokenView::LessThan,
            Token::GraterThan => TokenView::GraterThan,
            Token::Integer(text) => TokenView::Integer(text@),
            Token::Comma => TokenView::Comma,
            Token::SemiColon => TokenView::SemiColon,
            Token::Function => TokenView::Function,
            Token::Assign => TokenView::Assign,
            Token::EoF => TokenView::EoF,
            Token::Illegal => TokenView::Illegal,
            Token::If => TokenView::If,
            Token::Else => TokenView::Else,
            Token::Return => TokenView::Return,
            Token::True => TokenView::True,
            Token::False => TokenView::False,
            Token::Equal => TokenView::Equal,
            Token::NotEqual => TokenView::NotEqual,
        }
    }
}

impl TokenView {
    /// The text shown for a token, one fixed label per variant; a payload
    /// follows its label in parentheses.
    pub open spec fn label(self) -> Seq<char> {
        match self {
            TokenView::Let => "LET"@,
            TokenView::LParen => "LEFT PAREN"@,
            TokenView::RParen => "RIGHT PAREN"@,
            TokenView::LBrace => "LEFT BRACE"@,
            TokenView::RBrace => "RIGHT BRACE"@,
            TokenView::Identifier(text) => "IDENTIFIER ("@ + text + ")"@,
            TokenView::Plus => "PLUS"@,
            TokenView::Minus => "MINUS"@,
            TokenView::Bang => "BANG"@,
            TokenView::Asterisk => "ASTERISK"@,
            TokenView::Slash => "SLASH"@,
            TokenView::LessThan => "LESS THAN"@,
            TokenView::GraterThan => "GRATER THAN"@,
            TokenView::Integer(text) => "INTEGER ("@ + text + ")"@,
            TokenView::Comma => "COMMA"@,
            TokenView::SemiColon => "SEMICOLON"@,
            TokenView::Function => "FUNCTION"@,
            TokenView::Assign => "ASSIGN"@,
            TokenView::EoF => "EOF"@,
            TokenView::Illegal => "ILLEGAL"@,
            TokenView::If => "IF"@,
            TokenView::Else => "ELSE"@,
            TokenView::Return => "RETURN"@,
            TokenView::True => "TRUE"@,
            TokenView::False => "FALSE"@,
            TokenView::Equal => "EQUAL"@,
            TokenView::NotEqual => "NOT EQUAL"@,
        }
    }
}

impl Clone for Token {
    fn clone(&self) -> (copy: Self)
        ensures
            copy@ == self@,
    {
        match self {
            Token::Let => Token::Let,
            Token::LParen => Token::LParen,
            Token::RParen => Token::RParen,
            Token::LBrace => Token::LBrace,
            Token::RBrace => Token::RBrace,
            Token::Identifier(text) => Token::Identifier(text.clone()),
            Token::Plus => Token::Plus,
            Token::Minus => Token::Minus,
            Token::Bang => Token::Bang,
            Token::Asterisk => Token::Asterisk,
            Token::Slash => Token::Slash,
            Token::LessThan => Token::LessThan,
            Token::GraterThan => Token::GraterThan,
            Token::Integer(text) => Token::Integer(text.clone()),
            Token::Comma => Token::Comma,
            Token::SemiColon => Token::SemiColon,
            Token::Function => Token::Function,
            Token::Assign => Token::Assign,
            Token::EoF => Token::EoF,
            Token::Illegal => Token::Illegal,
            Token::If => Token::If,
            Token::Else => Token::Else,
            Token::Return => Token::Return,
            Token::True => Token::True,
            Token::False => Token::False,
            Token::Equal => Token::Equal,
            Token::NotEqual => Token::NotEqual,
        }
    }
}

impl PartialEq for Token {
    fn eq(&self, other: &Self) -> (same: bool) {
        match (self, other) {
            (Token::Let, Token::Let) => true,
            (Token::LParen, Token::LParen) => true,
            (Token::RParen, Token::RParen) => true,
            (Token::LBrace, Token::LBrace) => true,
            (Token::RBrace, Token::RBrace) => true,
            (Token::Identifier(a), Token::Identifier(b)) => *a == *b,
            (Token::Plus, Token::Plus) => true,
            (Token::Minus, Token::Minus) => true,
            (Token::Bang, Token::Bang) => true,
            (Token::Asterisk, Token::Asterisk) => true,
            (Token::Slash, Token::Slash) => true,
            (Token::LessThan, Token::LessThan) => true,
            (Token::GraterThan, Token::GraterThan) => true,
            (Token::Integer(a), Token::Integer(b)) => *a == *b,
            (Token::Comma, Token::Comma) => true,
            (Token::SemiColon, Token::SemiColon) => true,
            (Token::Function, Token::Function) => true,
            (Token::Assign, Token::Assign) => true,
            (Token::EoF, Token::EoF) => true,
            (Token::Illegal, Token::Illegal) => true,
            (Token::If, Token::If) => true,
            (Token::Else, Token::Else) => true,
            (Token::Return, Token::Return) => true,
            (Token::True, Token::True) => true,
            (Token::False, Token::False) => true,
            (Token::Equal, Token::Equal) => true,
            (Token::NotEqual, Token::NotEqual) => true,
            _ => false,
        }
    }
}

/// Two tokens are equal when they are the same variant with the same text.
impl PartialEqSpecImpl for Token {
    open spec fn obeys_eq_spec() -> bool {
        true
    }

    open spec fn eq_spec(&self, other: &Self) -> bool {
        self@ == other@
    }
}

impl Token {
    /// The label under which the token is shown.
    pub fn label(&self) -> (text: String)
        ensures
            text@ == self@.label(),
    {
        match self {
            Token::Let => String::from_str("LET"),
            Token::LParen => String::from_str("LEFT PAREN"),
            Token::RParen => String::from_str("RIGHT PAREN"),
            Token::LBrace => String::from_str("LEFT BRACE"),
            Token::RBrace => String::from_str("RIGHT BRACE"),
            Token::Identifier(ident) => String::from_str("IDENTIFIER (").concat(
                ident.as_str(),
            ).concat(")"),
            Token::Plus => String::from_str("PLUS"),
            Token::Minus => String::from_str("MINUS"),
            Token::Bang => String::from_str("BANG"),
            Token::Asterisk => String::from_str("ASTERISK"),
            Token::Slash => String::from_str("SLASH"),
            Token::LessThan => String::from_str("LESS THAN"),
            Token::GraterThan => String::from_str("GRATER THAN"),
            Token::Integer(digits) => String::from_str("INTEGER (").concat(
                digits.as_str(),
            ).concat(")"),
            Token::Comma => String::from_str("COMMA"),
            Token::SemiColon => String::from_str("SEMICOLON"),
            Token::Function => String::from_str("FUNCTION"),
            Token::Assign => String::from_str("ASSIGN"),
            Token::EoF => String::from_str("EOF"),
            Token::Illegal => String::from_str("ILLEGAL"),
            Token::If => String::from_str("IF"),
            Token::Else => String::from_str("ELSE"),
            Token::Return => String::from_str("RETURN"),
            Token::True => String::from_str("TRUE"),
            Token::False => String::from_str("FALSE"),
            Token::Equal => String::from_str("EQUAL"),
            Token::NotEqual => String::from_str("NOT EQUAL"),
        }
    }
}

/// The token that a reserved word stands for, if `text` is one.
pub open spec fn keyword(text: Seq<char>) -> Option<TokenView> {
    if text == "let"@ {
        Some(TokenView::Let)
    } else if text == "fn"@ {
        Some(TokenView::Function)
    } else if text == "if"@ {
        Some(TokenView::If)
    } else if text == "else"@ {
        Some(TokenView::Else)
    } else if text == "return"@ {
        Some(TokenView::Return)
    } else if text == "true"@ {
        Some(TokenView::True)
    } else if text == "false"@ {
        Some(TokenView::False)
    } else {
        None
    }
}

/// The token for a word: its keyword if it is reserved, otherwise an
/// identifier that carries the word unchanged.
pub open spec fn spec_lookup_ident(text: Seq<char>) -> TokenView {
    match keyword(text) {
        Some(token) => token,
        None => TokenView::Identifier(text),
    }
}

/// Resolves a word against the keyword table.
pub fn lookup_ident(ident: &str) -> (token: Token)
    ensures
        token@ == spec_lookup_ident(ident@),
{
    if same_text(ident, "let") {
        Token::Let
    } else if same_text(ident, "fn") {
        Token::Function
    } else if same_text(ident, "if") {
        Token::If
    } else if same_text(ident, "else") {
        Token::Else
    } else if same_text(ident, "return") {
        Token::Return
    } else if same_text(ident, "true") {
        Token::True
    } else if same_text(ident, "false") {
        Token::False
    } else {
        Token::Identifier(String::from_str(ident))
    }
}

} // verus!
