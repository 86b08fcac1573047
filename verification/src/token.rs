//! The token vocabulary shared by the scanner, the parser and the evaluator.

use vstd::prelude::*;
use vstd::string::*;

verus! {

/// The closed set of token kinds.
#[derive(Copy, Clone, Debug, PartialEq, Eq, Structural)]
pub enum TokenType {
    LeftParen,
    RightParen,
    LeftBrace,
    RightBrace,
    Comma,
    Dot,
    Minus,
    Plus,
    Semicolon,
    Slash,
    Star,
    // One or two character tokens.
    Bang,
    BangEqual,
    Equal,
    EqualEqual,
    Greater,
    GreaterEqual,
    Less,
    LessEqual,
    Identifier,
    String,
    Number,
    And,
    Class,
    Else,
    False,
    Fun,
    For,
    If,
    Nil,
    Or,
    Print,
    Return,
    Super,
    This,
    True,
    Var,
    While,
    EOF,
}

/// The name under which a kind is displayed: the kind's own name.
pub open spec fn kind_name(kind: TokenType) -> Seq<char> {
    match kind {
        TokenType::LeftParen => "LeftParen"@,
        TokenType::RightParen => "RightParen"@,
        TokenType::LeftBrace => "LeftBrace"@,
        TokenType::RightBrace => "RightBrace"@,
        TokenType::Comma => "Comma"@,
        TokenType::Dot => "Dot"@,
        TokenType::Minus => "Minus"@,
        TokenType::Plus => "Plus"@,
        TokenType::Semicolon => "Semicolon"@,
        TokenType::Slash => "Slash"@,
        TokenType::Star => "Star"@,
        TokenType::Bang => "Bang"@,
        TokenType::BangEqual => "BangEqual"@,
        TokenType::Equal => "Equal"@,
        TokenType::EqualEqual => "EqualEqual"@,
        TokenType::Greater => "Greater"@,
        TokenType::GreaterEqual => "GreaterEqual"@,
        TokenType::Less => "Less"@,
        TokenType::LessEqual => "LessEqual"@,
        TokenType::Identifier => "Identifier"@,
        TokenType::String => "String"@,
        TokenType::Number => "Number"@,
        TokenType::And => "And"@,
        TokenType::Class => "Class"@,
        TokenType::Else => "Else"@,
        TokenType::False => "False"@,
        TokenType::Fun => "Fun"@,
        TokenType::For => "For"@,
        TokenType::If => "If"@,
        TokenType::Nil => "Nil"@,
        TokenType::Or => "Or"@,
        TokenType::Print => "Print"@,
        TokenType::Return => "Return"@,
        TokenType::Super => "Super"@,
        TokenType::This => "This"@,
        TokenType::True => "True"@,
        TokenType::Var => "Var"@,
        TokenType::While => "While"@,
        TokenType::EOF => "EOF"@,
    }
}

impl TokenType {
    /// The name under which the kind is displayed.
    pub fn to_string(&self) -> (s: String)
        ensures
            s@ == kind_name(*self),
    {
        let s = match self {
            TokenType::LeftParen => "LeftParen",
            TokenType::RightParen => "RightParen",
            TokenType::LeftBrace => "LeftBrace",
            TokenType::RightBrace => "RightBrace",
            TokenType::Comma => "Comma",
            TokenType::Dot => "Dot",
            TokenType::Minus => "Minus",
            TokenType::Plus => "Plus",
            TokenType::Semicolon => "Semicolon",
            TokenType::Slash => "Slash",
            TokenType::Star => "Star",
            TokenType::Bang => "Bang",
            TokenType::BangEqual => "BangEqual",
            TokenType::Equal => "Equal",
            TokenType::EqualEqual => "EqualEqual",
            TokenType::Greater => "Greater",
            TokenType::GreaterEqual => "GreaterEqual",
            TokenType::Less => "Less",
            TokenType::LessEqual => "LessEqual",
            TokenType::Identifier => "Identifier",
            TokenType::String => "String",
            TokenType::Number => "Number",
            TokenType::And => "And",
            TokenType::Class => "Class",
            TokenType::Else => "Else",
            TokenType::False => "False",
            TokenType::Fun => "Fun",
            TokenType::For => "For",
            TokenType::If => "If",
            TokenType::Nil => "Nil",
            TokenType::Or => "Or",
            TokenType::Print => "Print",
            TokenType::Return => "Return",
            TokenType::Super => "Super",
            TokenType::This => "This",
            TokenType::True => "True",
            TokenType::Var => "Var",
            TokenType::While => "While",
            TokenType::EOF => "EOF",
        };
        String::from_str(s)
    }
}

/// The kind of the one-character operator `c`, for the four characters that
/// may be followed by `=`.
pub open spec fn single_operator(c: char) -> Option<TokenType> {
    if c == '!' {
        Some(TokenType::Bang)
    } else if c == '=' {
        Some(TokenType::Equal)
    } else if c == '<' {
        Some(TokenType::Less)
    } else if c == '>' {
        Some(TokenType::Greater)
    } else {
        None
    }
}

/// The kind of the two-character operator made of `c` and `=`.
pub open spec fn double_operator(c: char) -> Option<TokenType> {
    if c == '!' {
        Some(TokenType::BangEqual)
    } else if c == '=' {
        Some(TokenType::EqualEqual)
    } else if c == '<' {
        Some(TokenType::LessEqual)
    } else if c == '>' {
        Some(TokenType::GreaterEqual)
    } else {
        None
    }
}

/// The kind of the operator that starts with `c` when the character after it
/// is `next` (`None` at the end of the text).
pub open spec fn operator_kind(c: char, next: Option<char>) -> Option<TokenType> {
    if next == Some('=') {
        double_operator(c)
    } else {
        single_operator(c)
    }
}

/// Classifies `c` followed by `o` as a one- or two-character operator.
pub fn get_double_token_type_with_possible_equals(c: &char, o: Option<&char>) -> (t: Option<
    TokenType,
>)
    ensures
        t == operator_kind(
            *c,
            match o {
                Some(x) => Some(*x),
                None => None,
            },
        ),
{
    match o {
        Some(x) => {
            if *x == '=' {
                let c = *c;
                if c == '!' {
                    Some(TokenType::BangEqual)
                } else if c == '=' {
                    Some(TokenType::EqualEqual)
                } else if c == '<' {
                    Some(TokenType::LessEqual)
                } else if c == '>' {
                    Some(TokenType::GreaterEqual)
                } else {
                    None
                }
            } else {
                get_double_token_type(c)
            }
        },
        None => get_double_token_type(c),
    }
}

/// Classifies `c` as a one-character operator.
pub fn get_double_token_type(c: &char) -> (t: Option<TokenType>)
    ensures
        t == single_operator(*c),
{
    let c = *c;
    if c == '!' {
        Some(TokenType::Bang)
    } else if c == '=' {
        Some(TokenType::Equal)
    } else if c == '<' {
        Some(TokenType::Less)
    } else if c == '>' {
        Some(TokenType::Greater)
    } else {
        None
    }
}

/// One lexical unit. `float_literal` holds the IEEE-754 binary64 bit pattern
/// of a number literal.
#[derive(Debug)]
pub struct Token {
    pub tok_type: TokenType,
    pub lexeme: String,
    pub line: i64,
    pub bool_literal: bool,
    pub float_literal: u64,
    pub string_literal: String,
}

/// The mathematical content of a `Token`.
pub struct TokenView {
    pub tok_type: TokenType,
    pub lexeme: Seq<char>,
    pub line: int,
    pub bool_literal: bool,
    pub float_literal: u64,
    pub string_literal: Seq<char>,
}

impl View for Token {
    type V = TokenView;

    open spec fn view(&self) -> TokenView {
        TokenView {
            tok_type: self.tok_type,
            lexeme: self.lexeme@,
            line: self.line as int,
            bool_literal: self.bool_literal,
            float_literal: self.float_literal,
            string_literal: self.string_literal@,
        }
    }
}

impl Clone for Token {
    fn clone(&self) -> (t: Token)
        ensures
            t@ == self@,
    {
        Token {
            tok_type: self.tok_type,
            lexeme: self.lexeme.clone(),
            line: self.line,
            bool_literal: self.bool_literal,
            float_literal: self.float_literal,
            string_literal: self.string_literal.clone(),
        }
    }
}

impl TokenView {
    /// The payload is determined by the kind: only `True` carries `true`,
    /// only `Number` a bit pattern other than zero, only `String` a text.
    pub open spec fn payload_matches_kind(self) -> bool {
        &&& self.bool_literal == (self.tok_type == TokenType::True)
        &&& self.tok_type != TokenType::Number ==> self.float_literal == 0
        &&& self.tok_type != TokenType::String ==> self.string_literal == Seq::<char>::empty()
    }
}

/// The sequence of views of `tokens`.
pub open spec fn token_views(tokens: Seq<Token>) -> Seq<TokenView> {
    Seq::new(tokens.len(), |i: int| tokens[i]@)
}

/// Assembles a token from its six parts.
pub fn build_token(
    tok_type: TokenType,
    lexeme: String,
    line: i64,
    bool_literal: bool,
    float_literal: u64,
    string_literal: String,
) -> (t: Token)
    ensures
        t@ == (TokenView {
            tok_type,
            lexeme: lexeme@,
            line: line as int,
            bool_literal,
            float_literal,
            string_literal: string_literal@,
        }),
{
    Token { tok_type, lexeme, line, bool_literal, float_literal, string_literal }
}

} // verus!
