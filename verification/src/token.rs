//! The lexical units of the language and the keyword table.

use crate::text::{int_text, int_to_string, str_eq};
use vstd::prelude::*;

verus! {

/// The mathematical model of a token.
pub enum Tok {
    Illegal,
    Eof,
    Ident(Seq<char>),
    Int(i64),
    Assign,
    Plus,
    Minus,
    Bang,
    Asterisk,
    Slash,
    Lt,
    Gt,
    Eq,
    NotEq,
    Comma,
    Semicolon,
    Lparen,
    Rparen,
    Lbrace,
    Rbrace,
    Function,
    Let,
    True,
    False,
    If,
    Else,
    Return,
}

impl Tok {
    /// The name of the token's kind, with its payload in brackets where it has one.
    pub open spec fn debug_text(self) -> Seq<char> {
        match self {
            Tok::Illegal => "Illegal"@,
            Tok::Eof => "Eof"@,
            Tok::Ident(name) => "Ident(\""@ + name + "\")"@,
            Tok::Int(value) => "Int("@ + int_text(value as int) + ")"@,
            Tok::Assign => "Assign"@,
            Tok::Plus => "Plus"@,
            Tok::Minus => "Minus"@,
            Tok::Bang => "Bang"@,
            Tok::Asterisk => "Asterisk"@,
            Tok::Slash => "Slash"@,
            Tok::Lt => "Lt"@,
            Tok::Gt => "Gt"@,
            Tok::Eq => "Eq"@,
            Tok::NotEq => "NotEq"@,
            Tok::Comma => "Comma"@,
            Tok::Semicolon => "Semicolon"@,
            Tok::Lparen => "Lparen"@,
            Tok::Rparen => "Rparen"@,
            Tok::Lbrace => "Lbrace"@,
            Tok::Rbrace => "Rbrace"@,
            Tok::Function => "Function"@,
            Tok::Let => "Let"@,
            Tok::True => "True"@,
            Tok::False => "False"@,
            Tok::If => "If"@,
            Tok::Else => "Else"@,
            Tok::Return => "Return"@,
        }
    }

    /// The token as it is written in source text, for the operators; for
    /// every other token, its `debug_text`.
    pub open spec fn text(self) -> Seq<char> {
        match self {
            Tok::Assign => "="@,
            Tok::Plus => "+"@,
            Tok::Minus => "-"@,
            Tok::Bang => "!"@,
            Tok::Asterisk => "*"@,
            Tok::Slash => "/"@,
            Tok::Gt => ">"@,
            Tok::Lt => "<"@,
            Tok::Eq => "=="@,
            Tok::NotEq => "!="@,
            _ => self.debug_text(),
        }
    }
}

/// The keyword that `word` spells, or else the identifier `word`.
pub open spec fn keyword_or_ident(word: Seq<char>) -> Tok {
    if word == "fn"@ {
        Tok::Function
    } else if word == "let"@ {
        Tok::Let
    } else if word == "true"@ {
        Tok::True
    } else if word == "false"@ {
        Tok::False
    } else if word == "if"@ {
        Tok::If
    } else if word == "else"@ {
        Tok::Else
    } else if word == "return"@ {
        Tok::Return
    } else {
        Tok::Ident(word)
    }
}

/// A lexical unit.
#[derive(Debug, Eq, PartialEq, Hash)]
pub enum Token {
    Illegal,
    Eof,
    // Identifiers and literals
    Ident(String),
    Int(i64),
    // Operators
    Assign,
    Plus,
    Minus,
    Bang,
    Asterisk,
    Slash,
    // Comparisons
    Lt,
    Gt,
    Eq,
    NotEq,
    // Delimiters
    Comma,
    Semicolon,
    // Scopes
    Lparen,
    Rparen,
    Lbrace,
    Rbrace,
    // Keywords
    Function,
    Let,
    True,
    False,
    If,
    Else,
    Return,
}

impl View for Token {
    type V = Tok;

    open spec fn view(&self) -> Tok {
        match self {
            Token::Illegal => Tok::Illegal,
            Token::Eof => Tok::Eof,
            Token::Ident(name) => Tok::Ident(name@),
            Token::Int(value) => Tok::Int(*value),
            Token::Assign => Tok::Assign,
            Token::Plus => Tok::Plus,
            Token::Minus => Tok::Minus,
            Token::Bang => Tok::Bang,
            Token::Asterisk => Tok::Asterisk,
            Token::Slash => Tok::Slash,
            Token::Lt => Tok::Lt,
            Token::Gt => Tok::Gt,
            Token::Eq => Tok::Eq,
            Token::NotEq => Tok::NotEq,
            Token::Comma => Tok::Comma,
            Token::Semicolon => Tok::Semicolon,
            Token::Lparen => Tok::Lparen,
            Token::Rparen => Tok::Rparen,
            Token::Lbrace => Tok::Lbrace,
            Token::Rbrace => Tok::Rbrace,
            Token::Function => Tok::Function,
            Token::Let => Tok::Let,
            Token::True => Tok::True,
            Token::False => Tok::False,
            Token::If => Tok::If,
            Token::Else => Tok::Else,
            Token::Return => Tok::Return,
        }
    }
}

impl Clone for Token {
    fn clone(&self) -> (copy: Token)
        ensures
            copy@ == self@,
    {
        match self {
            Token::Illegal => Token::Illegal,
            Token::Eof => Token::Eof,
            Token::Ident(name) => Token::Ident(name.clone()),
            Token::Int(value) => Token::Int(*value),
            Token::Assign => Token::Assign,
            Token::Plus => Token::Plus,
            Token::Minus => Token::Minus,
            Token::Bang => Token::Bang,
            Token::Asterisk => Token::Asterisk,
            Token::Slash => Token::Slash,
            Token::Lt => Token::Lt,
            Token::Gt => Token::Gt,
            Token::Eq => Token::Eq,
            Token::NotEq => Token::NotEq,
            Token::Comma => Token::Comma,
            Token::Semicolon => Token::Semicolon,
            Token::Lparen => Token::Lparen,
            Token::Rparen => Token::Rparen,
            Token::Lbrace => Token::Lbrace,
            Token::Rbrace => Token::Rbrace,
            Token::Function => Token::Function,
            Token::Let => Token::Let,
            Token::True => Token::True,
            Token::False => Token::False,
            Token::If => Token::If,
            Token::Else => Token::Else,
            Token::Return => Token::Return,
        }
    }
}

impl Token {
    /// Tells whether two tokens are of the same kind and carry the same payload.
    pub fn same_as(&self, other: &Token) -> (same: bool)
        ensures
            same == (self@ == other@),
    {
        match (self, other) {
            (Token::Illegal, Token::Illegal) => true,
            (Token::Eof, Token::Eof) => true,
            (Token::Ident(a), Token::Ident(b)) => *a == *b,
            (Token::Int(a), Token::Int(b)) => *a == *b,
            (Token::Assign, Token::Assign) => true,
            (Token::Plus, Token::Plus) => true,
            (Token::Minus, Token::Minus) => true,
            (Token::Bang, Token::Bang) => true,
            (Token::Asterisk, Token::Asterisk) => true,
            (Token::Slash, Token::Slash) => true,
            (Token::Lt, Token::Lt) => true,
            (Token::Gt, Token::Gt) => true,
            (Token::Eq, Token::Eq) => true,
            (Token::NotEq, Token::NotEq) => true,
            (Token::Comma, Token::Comma) => true,
            (Token::Semicolon, Token::Semicolon) => true,
            (Token::Lparen, Token::Lparen) => true,
            (Token::Rparen, Token::Rparen) => true,
            (Token::Lbrace, Token::Lbrace) => true,
            (Token::Rbrace, Token::Rbrace) => true,
            (Token::Function, Token::Function) => true,
            (Token::Let, Token::Let) => true,
            (Token::True, Token::True) => true,
            (Token::False, Token::False) => true,
            (Token::If, Token::If) => true,
            (Token::Else, Token::Else) => true,
            (Token::Return, Token::Return) => true,
            _ => false,
        }
    }

    /// The name of the token's kind, with its payload in brackets where it has one.
    pub fn debug_string(&self) -> (s: String)
        ensures
            s@ == self@.debug_text(),
    {
        match self {
            Token::Illegal => String::from_str("Illegal"),
            Token::Eof => String::from_str("Eof"),
            Token::Ident(name) => {
                let mut s = String::from_str("Ident(\"");
                s.append(name.as_str());
                s.append("\")");
                s
            },
            Token::Int(value) => {
                let mut s = String::from_str("Int(");
                s.append(int_to_string(*value).as_str());
                s.append(")");
                s
            },
            Token::Assign => String::from_str("Assign"),
            Token::Plus => String::from_str("Plus"),
            Token::Minus => String::from_str("Minus"),
            Token::Bang => String::from_str("Bang"),
            Token::Asterisk => String::from_str("Asterisk"),
            Token::Slash => String::from_str("Slash"),
            Token::Lt => String::from_str("Lt"),
            Token::Gt => String::from_str("Gt"),
            Token::Eq => String::from_str("Eq"),
            Token::NotEq => String::from_str("NotEq"),
            Token::Comma => String::from_str("Comma"),
            Token::Semicolon => String::from_str("Semicolon"),
            Token::Lparen => String::from_str("Lparen"),
            Token::Rparen => String::from_str("Rparen"),
            Token::Lbrace => String::from_str("Lbrace"),
            Token::Rbrace => String::from_str("Rbrace"),
            Token::Function => String::from_str("Function"),
            Token::Let => String::from_str("Let"),
            Token::True => String::from_str("True"),
            Token::False => String::from_str("False"),
            Token::If => String::from_str("If"),
            Token::Else => String::from_str("Else"),
            Token::Return => String::from_str("Return"),
        }
    }

    /// The token as it is written in source text, for the operators; for
    /// every other token, its `debug_string`.
    pub fn to_string(&self) -> (s: String)
        ensures
            s@ == self@.text(),
    {
        match self {
            Token::Assign => String::from_str("="),
            Token::Plus => String::from_str("+"),
            Token::Minus => String::from_str("-"),
            Token::Bang => String::from_str("!"),
            Token::Asterisk => String::from_str("*"),
            Token::Slash => String::from_str("/"),
            Token::Gt => String::from_str(">"),
            Token::Lt => String::from_str("<"),
            Token::Eq => String::from_str("=="),
            Token::NotEq => String::from_str("!="),
            _ => self.debug_string(),
        }
    }
}

/// Looks a scanned word up in the keyword table: the keyword's token where
/// the word is one, else an identifier that carries the word.
pub fn lookup_ident(ident: &str) -> (token: Token)
    ensures
        token@ == keyword_or_ident(ident@),
{
    if str_eq(ident, "fn") {
        Token::Function
    } else if str_eq(ident, "let") {
        Token::Let
    } else if str_eq(ident, "true") {
        Token::True
    } else if str_eq(ident, "false") {
        Token::False
    } else if str_eq(ident, "if") {
        Token::If
    } else if str_eq(ident, "else") {
        Token::Else
    } else if str_eq(ident, "return") {
        Token::Return
    } else {
        Token::Ident(String::from_str(ident))
    }
}

} // verus!
