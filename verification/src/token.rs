//! Tokens of the Monkey language.
use vstd::prelude::*;
use crate::text::str_eq;

verus! {

/// The kind of a token.
#[derive(PartialEq, Eq, Structural, Clone, Copy, Debug)]
pub enum TokenType {
    ILLEGAL,
    EOF,
    IDENT,
    INT,
    ASSIGN,
    PLUS,
    COMMA,
    SEMICOLON,
    LPAREN,
    RPAREN,
    LBRACE,
    RBRACE,
    FUNCTION,
    LET,
    MINUS,
    BANG,
    ASTERISK,
    SLASH,
    LT,
    GT,
    TRUE,
    FALSE,
    IF,
    ELSE,
    RETURN,
    EQ,
    NOTEQ,
    STRING,
    LBRACKET,
    RBRACKET,
    COLON,
}

/// A token: its kind and the text it was read from.
#[derive(Debug)]
pub struct Token {
    pub tk_type: TokenType,
    pub literal: String,
}

impl Token {
    /// A copy of this token.
    pub fn duplicate(&self) -> (r: Token)
        ensures
            r == *self,
    {
        Token { tk_type: self.tk_type, literal: self.literal.clone() }
    }
}

/// The keyword kind of an identifier's text, `IDENT` when it is no keyword.
pub open spec fn spec_lookup_ident(ident: Seq<char>) -> TokenType {
    if ident == "fn"@ {
        TokenType::FUNCTION
    } else if ident == "let"@ {
        TokenType::LET
    } else if ident == "true"@ {
        TokenType::TRUE
    } else if ident == "false"@ {
        TokenType::FALSE
    } else if ident == "if"@ {
        TokenType::IF
    } else if ident == "else"@ {
        TokenType::ELSE
    } else if ident == "return"@ {
        TokenType::RETURN
    } else {
        TokenType::IDENT
    }
}

/// Classifies an identifier's text as a keyword or a plain identifier.
pub fn lookup_ident(ident: &str) -> (t: TokenType)
    ensures
        t == spec_lookup_ident(ident@),
{
    if str_eq(ident, "fn") {
        TokenType::FUNCTION
    } else if str_eq(ident, "let") {
        TokenType::LET
    } else if str_eq(ident, "true") {
        TokenType::TRUE
    } else if str_eq(ident, "false") {
        TokenType::FALSE
    } else if str_eq(ident, "if") {
        TokenType::IF
    } else if str_eq(ident, "else") {
        TokenType::ELSE
    } else if str_eq(ident, "return") {
        TokenType::RETURN
    } else {
        TokenType::IDENT
    }
}

} // verus!
