//! The tokens of the source language.
use crate::utils::location::Location;
use crate::utils::text::{concat3, dec, usize_to_string};
use vstd::prelude::*;

verus! {

/// The kind of a token.
#[derive(Debug, Clone, Copy, PartialEq, Eq, Structural)]
pub enum TokenType {
    // boolish
    Equals,
    NotEquals,
    LessThan,
    GreaterThan,
    LessThanEquals,
    GreaterThanEquals,
    // generic signs
    Assign,
    LParen,
    RParen,
    LBrace,
    RBrace,
    LBracket,
    RBracket,
    SemiColon,
    Colon,
    DoubleColon,
    Comma,
    Period,
    Ampersand,
    Star,
    // maths signs
    Add,
    Minus,
    Divide,
    Multiply,
    Modulo,
    Not,
    // boolean values
    True,
    False,
    // keywords
    VarKeyword,
    IfKeyword,
    ElseKeyword,
    WhileKeyword,
    ForKeyword,
    FnKeyword,
    PubKeyword,
    UseKeyword,
    ReturnKeyword,
    ExternKeyword,
    StructKeyword,
    SizeOfKeyword,
    BreakKeyword,
    // identifier
    Identifier,
    // literals
    IntLiteral,
    StringLiteral,
    CharLiteral,
    // when lexing, parsing, etc fails.
    Niltoken,
}

/// The name of a token kind, as `{:?}` writes it.
pub open spec fn token_type_text(t: TokenType) -> Seq<char> {
    match t {
        TokenType::Equals => "Equals"@,
        TokenType::NotEquals => "NotEquals"@,
        TokenType::LessThan => "LessThan"@,
        TokenType::GreaterThan => "GreaterThan"@,
        TokenType::LessThanEquals => "LessThanEquals"@,
        TokenType::GreaterThanEquals => "GreaterThanEquals"@,
        TokenType::Assign => "Assign"@,
        TokenType::LParen => "LParen"@,
        TokenType::RParen => "RParen"@,
        TokenType::LBrace => "LBrace"@,
        TokenType::RBrace => "RBrace"@,
        TokenType::LBracket => "LBracket"@,
        TokenType::RBracket => "RBracket"@,
        TokenType::SemiColon => "SemiColon"@,
        TokenType::Colon => "Colon"@,
        TokenType::DoubleColon => "DoubleColon"@,
        TokenType::Comma => "Comma"@,
        TokenType::Period => "Period"@,
        TokenType::Ampersand => "Ampersand"@,
        TokenType::Star => "Star"@,
        TokenType::Add => "Add"@,
        TokenType::Minus => "Minus"@,
        TokenType::Divide => "Divide"@,
        TokenType::Multiply => "Multiply"@,
        TokenType::Modulo => "Modulo"@,
        TokenType::Not => "Not"@,
        TokenType::True => "True"@,
        TokenType::False => "False"@,
        TokenType::VarKeyword => "VarKeyword"@,
        TokenType::IfKeyword => "IfKeyword"@,
        TokenType::ElseKeyword => "ElseKeyword"@,
        TokenType::WhileKeyword => "WhileKeyword"@,
        TokenType::ForKeyword => "ForKeyword"@,
        TokenType::FnKeyword => "FnKeyword"@,
        TokenType::PubKeyword => "PubKeyword"@,
        TokenType::UseKeyword => "UseKeyword"@,
        TokenType::ReturnKeyword => "ReturnKeyword"@,
        TokenType::ExternKeyword => "ExternKeyword"@,
        TokenType::StructKeyword => "StructKeyword"@,
        TokenType::SizeOfKeyword => "SizeOfKeyword"@,
        TokenType::BreakKeyword => "BreakKeyword"@,
        TokenType::Identifier => "Identifier"@,
        TokenType::IntLiteral => "IntLiteral"@,
        TokenType::StringLiteral => "StringLiteral"@,
        TokenType::CharLiteral => "CharLiteral"@,
        TokenType::Niltoken => "Niltoken"@,
    }
}

/// The name of a token kind, as `{:?}` writes it.
pub fn token_type_name(t: TokenType) -> (res: &'static str)
    ensures
        res@ == token_type_text(t),
{
    match t {
        TokenType::Equals => "Equals",
        TokenType::NotEquals => "NotEquals",
        TokenType::LessThan => "LessThan",
        TokenType::GreaterThan => "GreaterThan",
        TokenType::LessThanEquals => "LessThanEquals",
        TokenType::GreaterThanEquals => "GreaterThanEquals",
        TokenType::Assign => "Assign",
        TokenType::LParen => "LParen",
        TokenType::RParen => "RParen",
        TokenType::LBrace => "LBrace",
        TokenType::RBrace => "RBrace",
        TokenType::LBracket => "LBracket",
        TokenType::RBracket => "RBracket",
        TokenType::SemiColon => "SemiColon",
        TokenType::Colon => "Colon",
        TokenType::DoubleColon => "DoubleColon",
        TokenType::Comma => "Comma",
        TokenType::Period => "Period",
        TokenType::Ampersand => "Ampersand",
        TokenType::Star => "Star",
        TokenType::Add => "Add",
        TokenType::Minus => "Minus",
        TokenType::Divide => "Divide",
        TokenType::Multiply => "Multiply",
        TokenType::Modulo => "Modulo",
        TokenType::Not => "Not",
        TokenType::True => "True",
        TokenType::False => "False",
        TokenType::VarKeyword => "VarKeyword",
        TokenType::IfKeyword => "IfKeyword",
        TokenType::ElseKeyword => "ElseKeyword",
        TokenType::WhileKeyword => "WhileKeyword",
        TokenType::ForKeyword => "ForKeyword",
        TokenType::FnKeyword => "FnKeyword",
        TokenType::PubKeyword => "PubKeyword",
        TokenType::UseKeyword => "UseKeyword",
        TokenType::ReturnKeyword => "ReturnKeyword",
        TokenType::ExternKeyword => "ExternKeyword",
        TokenType::StructKeyword => "StructKeyword",
        TokenType::SizeOfKeyword => "SizeOfKeyword",
        TokenType::BreakKeyword => "BreakKeyword",
        TokenType::Identifier => "Identifier",
        TokenType::IntLiteral => "IntLiteral",
        TokenType::StringLiteral => "StringLiteral",
        TokenType::CharLiteral => "CharLiteral",
        TokenType::Niltoken => "Niltoken",
    }
}

/// A token: its kind, where it starts, and the text it stands for.
#[derive(Debug)]
pub struct Token {
    pub ttype: TokenType,
    pub location: Location,
    pub value: String,
}

/// The value of a token: its kind, its location's value and its text.
pub type TokenV = (TokenType, (usize, usize, Seq<char>), Seq<char>);

impl Token {
    pub open spec fn view(&self) -> TokenV {
        (self.ttype, self.location.view(), self.value@)
    }

    /// How the token is written: its kind, its line and column, and its text.
    pub fn to_text(&self) -> (res: String)
        ensures
            res@ == "Token { Type: "@ + token_type_text(self.ttype) + ", Location: ("@ + dec(
                self.location.line as nat,
            ) + ", "@ + dec(self.location.col as nat) + "), Value: "@ + self.value@ + " }"@,
    {
        let line = usize_to_string(self.location.line);
        let col = usize_to_string(self.location.col);
        let a = concat3("Token { Type: ", token_type_name(self.ttype), ", Location: (");
        let b = concat3(a.as_str(), line.as_str(), ", ");
        let c = concat3(b.as_str(), col.as_str(), "), Value: ");
        concat3(c.as_str(), self.value.as_str(), " }")
    }

    /// A copy of this token.
    pub fn duplicate(&self) -> (res: Token)
        ensures
            res.view() == self.view(),
    {
        Token { ttype: self.ttype, location: self.location.duplicate(), value: self.value.clone() }
    }
}

/// The values of a sequence of tokens.
pub open spec fn tokens_view(s: Seq<Token>) -> Seq<TokenV> {
    s.map_values(|t: Token| t.view())
}

} // verus!
