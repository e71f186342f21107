//! Tokens of the textual assembly surface.

use vstd::prelude::*;

verus! {

/// The kind and payload of one token.
#[derive(Debug, Clone, PartialEq)]
pub enum TokenType {
    /// A label definition: a run of letters directly followed by `:`.
    Identifier(String),
    /// A bare word: a mnemonic, or a label used as a branch operand.
    Str(String),
    /// A numeric literal.
    Num(i16),
}

/// One token, with the source line it was read from.
#[derive(Debug, Clone, PartialEq)]
pub struct Token {
    pub token_type: TokenType,
    pub line: usize,
}

/// The mathematical view of a token's kind: the payload as a character
/// sequence or a number.
pub enum TokenTypeModel {
    Identifier(Seq<char>),
    Str(Seq<char>),
    Num(i16),
}

/// The mathematical view of a token.
pub struct TokenModel {
    pub token_type: TokenTypeModel,
    pub line: int,
}

impl View for TokenType {
    type V = TokenTypeModel;

    open spec fn view(&self) -> TokenTypeModel {
        match self {
            TokenType::Identifier(name) => TokenTypeModel::Identifier(name@),
            TokenType::Str(text) => TokenTypeModel::Str(text@),
            TokenType::Num(value) => TokenTypeModel::Num(*value),
        }
    }
}

impl View for Token {
    type V = TokenModel;

    open spec fn view(&self) -> TokenModel {
        TokenModel { token_type: self.token_type@, line: self.line as int }
    }
}

impl DeepView for Token {
    type V = TokenModel;

    open spec fn deep_view(&self) -> TokenModel {
        self@
    }
}

impl Token {
    /// A token of the given kind on the given line.
    pub fn new(token_type: TokenType, line: usize) -> (token: Token)
        ensures
            token@.token_type == token_type@,
            token@.line == line as int,
    {
        Token { token_type, line }
    }
}

} // verus!
