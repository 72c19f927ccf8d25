use vstd::prelude::*;

verus! {

/// The fixed set of token kinds.
#[derive(Debug, Clone, Copy, PartialEq, Eq, Structural)]
pub enum TokenType {
    // Single-character tokens.
    LeftParen,
    RightParen,
    LeftBrace,
    RightBrace,
    Comma,
    Dot,
    Minus,
    Plus,
    Semicolon,
    Slash,
    Star,
    // One or two character tokens.
    Bang,
    BangEqual,
    Equal,
    EqualEqual,
    Greater,
    GreaterEqual,
    Less,
    LessEqual,
    // Literals.
    Identifier,
    String,
    Number,
    // Keywords.
    And,
    Class,
    Else,
    False,
    Fun,
    For,
    If,
    Nil,
    Or,
    Print,
    Return,
    Super,
    This,
    True,
    Var,
    While,
    // End of input.
    Eof,
}

/// The payload of a literal token: the text of a string literal, or the
/// decimal digits of a number literal exactly as written (`123.45`).
/// At most one of the two is present.
#[derive(Debug, Clone)]
pub struct Literal {
    pub string: Option<String>,
    pub number: Option<String>,
}

pub struct LiteralView {
    pub string: Option<Seq<char>>,
    pub number: Option<Seq<char>>,
}

pub open spec fn opt_string_view(s: Option<String>) -> Option<Seq<char>> {
    match s {
        Some(t) => Some(t@),
        None => None,
    }
}

pub open spec fn opt_literal_view(l: Option<Literal>) -> Option<LiteralView> {
    match l {
        Some(x) => Some(x@),
        None => None,
    }
}

impl View for Literal {
    type V = LiteralView;

    open spec fn view(&self) -> LiteralView {
        LiteralView { string: opt_string_view(self.string), number: opt_string_view(self.number) }
    }
}

impl Literal {
    pub fn new(string: Option<String>, number: Option<String>) -> (r: Self)
        requires
            !(string is Some && number is Some),
        ensures
            r.string == string,
            r.number == number,
    {
        Self { string, number }
    }

    /// A copy with the same payload.
    pub fn duplicate(&self) -> (r: Self)
        ensures
            r == *self,
    {
        Literal { string: clone_opt_string(&self.string), number: clone_opt_string(&self.number) }
    }
}

fn clone_opt_string(s: &Option<String>) -> (r: Option<String>)
    ensures
        r == *s,
{
    match s {
        Some(t) => Some(t.clone()),
        None => None,
    }
}

/// One token: its kind, the source text it was read from (absent only for
/// the end-of-input token), its literal payload, and the 1-based line and
/// column of its first character.
#[derive(Debug, Clone)]
pub struct Token {
    pub token_type: TokenType,
    pub lexeme: Option<String>,
    pub literal: Option<Literal>,
    pub line: usize,
    pub col: usize,
}

pub struct TokenView {
    pub kind: TokenType,
    pub lexeme: Option<Seq<char>>,
    pub literal: Option<LiteralView>,
    pub line: nat,
    pub col: nat,
}

impl View for Token {
    type V = TokenView;

    open spec fn view(&self) -> TokenView {
        TokenView {
            kind: self.token_type,
            lexeme: opt_string_view(self.lexeme),
            literal: opt_literal_view(self.literal),
            line: self.line as nat,
            col: self.col as nat,
        }
    }
}

impl Token {
    pub fn new(
        token_type: TokenType,
        lexeme: Option<String>,
        literal: Option<Literal>,
        line: usize,
        col: usize,
    ) -> (r: Token)
        ensures
            r.token_type == token_type,
            r.lexeme == lexeme,
            r.literal == literal,
            r.line == line,
            r.col == col,
    {
        Self { token_type, lexeme, literal, line, col }
    }

    /// A copy of this token, field for field.
    pub fn duplicate(&self) -> (r: Token)
        ensures
            r == *self,
    {
        let literal = match &self.literal {
            Some(l) => Some(l.duplicate()),
            None => None,
        };
        Token {
            token_type: self.token_type,
            lexeme: clone_opt_string(&self.lexeme),
            literal,
            line: self.line,
            col: self.col,
        }
    }
}

} // verus!
