//! The tokens of the first version of the language: arithmetic, `var` and `if`.
use crate::utils::location::Location;
use vstd::prelude::*;

verus! {

/// The kind of a token.
#[derive(Debug, Clone, Copy, PartialEq, Eq, Structural)]
pub enum TokenType {
    // generic signs
    Equals,
    Assign,
    LParen,
    RParen,
    LBrace,
    RBrace,
    SemiColon,
    // maths signs
    Add,
    Minus,
    Divide,
    Multiply,
    Modulo,
    // keywords
    VarKeyword,
    Ifkeyword,
    // identifier
    Identifier,
    // literals
    IntLiteral,
    StringLiteral,
}

/// A token: its kind, where it starts, and the text it stands for.
#[derive(Debug)]
pub struct Token {
    pub ttype: TokenType,
    pub location: Location,
    pub value: String,
}

/// The value of a token: its kind, its location's value and its text.
pub type TokenV = (TokenType, (usize, usize, Seq<char>), Seq<char>);

impl Token {
    pub open spec fn view(&self) -> TokenV {
        (self.ttype, self.location.view(), self.value@)
    }
}

/// The values of a sequence of tokens.
pub open spec fn tokens_view(s: Seq<Token>) -> Seq<TokenV> {
    s.map_values(|t: Token| t.view())
}

} // verus!
