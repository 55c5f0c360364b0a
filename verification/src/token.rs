use vstd::prelude::*;

use crate::token_type::TokenType;

verus! {

/// The mathematical content of a token: its kind, the exact source text it
/// was scanned from, and the 1-based source line it ends on.
#[verifier::ext_equal]
pub ghost struct TokenV {
    pub kind: TokenType,
    pub lexeme: Seq<char>,
    pub line: int,
}

/// One lexical unit.  Immutable once created.
#[derive(Clone, PartialEq, Debug)]
pub struct Token {
    pub token_type: TokenType,
    pub lexeme: String,
    pub line: i64,
}

impl View for Token {
    type V = TokenV;

    open spec fn view(&self) -> TokenV {
        TokenV { kind: self.token_type, lexeme: self.lexeme@, line: self.line as int }
    }
}

impl DeepView for Token {
    type V = TokenV;

    open spec fn deep_view(&self) -> TokenV {
        self.view()
    }
}

impl Token {
    pub fn new(token_type: TokenType, lexeme: &str, line: i64) -> (r: Token)
        ensures
            r@ == (TokenV { kind: token_type, lexeme: lexeme@, line: line as int }),
    {
        Token { token_type, lexeme: lexeme.to_owned(), line }
    }

    /// An exact copy of this token.
    pub fn dup(&self) -> (r: Token)
        ensures
            r@ == self@,
    {
        Token { token_type: self.token_type, lexeme: self.lexeme.clone(), line: self.line }
    }
}

} // verus!
