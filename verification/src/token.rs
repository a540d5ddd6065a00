//! Typed lexemes produced by the lexer and consumed by the parser.

use vstd::prelude::*;

verus! {

/// The kind of a token. Keyword-shaped identifiers (`if`, `for`, `let`, `in`)
/// are lexed as plain `Ident`: keyword-ness is decided by the parser through
/// a string comparison, not by a distinct token kind.
#[derive(Clone, Copy, PartialEq, Eq, Structural, Debug)]
pub enum TokenType {
    Ident,
    Number,
    LeftParen,
    RightParen,
    LeftBrace,
    RightBrace,
    Colon,
    Arrow,
    Plus,
    Minus,
    Gt,
    Lt,
    GtEquals,
    LtEquals,
    NotEquals,
    EqualsEquals,
    Equals,
    Ampersand,
    Percent,
    Eof,
}

/// One lexeme: its kind and its text. Immutable once produced.
#[derive(Clone, PartialEq, Eq, Debug)]
pub struct Token {
    pub tok_type: TokenType,
    pub val: String,
}

/// Mathematical image of a token: the kind together with the lexeme text
/// as a sequence of characters.
pub ghost struct TokenModel {
    pub kind: TokenType,
    pub text: Seq<char>,
}

impl View for Token {
    type V = TokenModel;

    open spec fn view(&self) -> TokenModel {
        TokenModel { kind: self.tok_type, text: self.val@ }
    }
}

impl Token {
    /// A token of the given kind with an empty lexeme.
    pub fn new(tok_type: TokenType) -> (t: Token)
        ensures
            t@.kind == tok_type,
            t@.text == Seq::<char>::empty(),
    {
        Token { tok_type, val: String::new() }
    }
}

} // verus!
