use vstd::prelude::*;

verus! {

/// The closed set of lexical token kinds.
#[derive(Clone, Copy, PartialEq, Eq, Structural, Debug)]
pub enum TokenType {
    // Single-character tokens.
    LeftParen,
    RightParen,
    LeftBrace,
    RightBrace,
    Comma,
    Dot,
    Minus,
    Plus,
    Slash,
    Star,
    // Statement separators.
    SemiColon,
    NewLine,
    // One- or two-character operators.
    BangEqual,
    Equal,
    EqualEqual,
    Greater,
    GreaterEqual,
    Less,
    LessEqual,
    // Literals.
    Identifier,
    String,
    Number,
    // Keywords.
    Class,
    Fun,
    This,
    Var,
    Print,
    True,
    False,
    And,
    Else,
    For,
    If,
    Not,
    Null,
    Or,
    Return,
    Super,
    While,
    // End of the token stream.
    EOF,
}

} // verus!
