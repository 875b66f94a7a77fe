//! The token model: token kinds, literal values, and the `Token` record
//! produced by the scanner and consumed by the parser.

use vstd::prelude::*;

verus! {

/// The closed set of token kinds: punctuation, one- and two-character
/// operators, literals, keywords, and the terminal `Eof`.
#[derive(Clone, Copy, PartialEq, Eq, Structural, Debug)]
pub enum TokenType {
    LeftParen,
    RightParen,
    LeftBrace,
    RightBrace,
    Comma,
    Dot,
    Minus,
    Plus,
    Semicolon,
    Slash,
    Star,
    Bang,
    BangEqual,
    Equal,
    EqualEqual,
    Greater,
    GreaterEqual,
    Less,
    LessEqual,
    Identifier,
    String,
    Number,
    And,
    Class,
    Else,
    False,
    Fun,
    For,
    If,
    Nil,
    Or,
    Print,
    Return,
    Super,
    This,
    True,
    Var,
    While,
    Eof,
}

/// A literal value carried by a token or by an AST literal node.
///
/// A number literal is kept as its exact decimal text in canonical form: no
/// redundant leading zeros in the integer part, no trailing zeros in the
/// fraction, and no decimal point when the fraction is empty.  Callers that
/// need a machine number convert this text at the boundary; keeping the text
/// exact avoids committing the core to any particular machine representation.
#[derive(Clone, PartialEq, Debug)]
pub enum Value {
    Text(String),
    Number(String),
    Boolean(bool),
    Null,
}

/// The mathematical model of a `Value`: the same variants over `Seq<char>`.
pub enum ValueModel {
    Text(Seq<char>),
    Number(Seq<char>),
    Boolean(bool),
    Null,
}

impl View for Value {
    type V = ValueModel;

    open spec fn view(&self) -> ValueModel {
        match self {
            Value::Text(s) => ValueModel::Text(s@),
            Value::Number(s) => ValueModel::Number(s@),
            Value::Boolean(b) => ValueModel::Boolean(*b),
            Value::Null => ValueModel::Null,
        }
    }
}

/// The textual form of a literal value: text renders verbatim, a number as
/// its canonical decimal text, and booleans and null as their keywords.
pub open spec fn value_text(v: ValueModel) -> Seq<char> {
    match v {
        ValueModel::Text(s) => s,
        ValueModel::Number(s) => s,
        ValueModel::Boolean(b) => if b {
            "true"@
        } else {
            "false"@
        },
        ValueModel::Null => "nil"@,
    }
}

impl Value {
    /// An equal value; unlike `clone`, its contract says so.
    pub fn duplicate(&self) -> (v: Value)
        ensures
            v@ == self@,
    {
        match self {
            Value::Text(s) => Value::Text(s.clone()),
            Value::Number(s) => Value::Number(s.clone()),
            Value::Boolean(b) => Value::Boolean(*b),
            Value::Null => Value::Null,
        }
    }

    /// The textual form of this value, as `value_text` describes it.
    pub fn to_string(&self) -> (r: String)
        ensures
            r@ == value_text(self@),
    {
        match self {
            Value::Text(s) => s.clone(),
            Value::Number(s) => s.clone(),
            Value::Boolean(b) => {
                if *b {
                    "true".to_owned()
                } else {
                    "false".to_owned()
                }
            },
            Value::Null => "nil".to_owned(),
        }
    }
}

/// A classified lexeme: its kind, the exact source substring it was scanned
/// from, its literal value, and the source line it ends on.  Immutable once
/// created.
#[derive(Clone, PartialEq, Debug)]
pub struct Token {
    pub type_of: TokenType,
    pub lexeme: String,
    pub literal: Value,
    pub line: u32,
}

/// The mathematical model of a `Token`.
pub struct TokenModel {
    pub type_of: TokenType,
    pub lexeme: Seq<char>,
    pub literal: ValueModel,
    pub line: u32,
}

impl View for Token {
    type V = TokenModel;

    open spec fn view(&self) -> TokenModel {
        TokenModel {
            type_of: self.type_of,
            lexeme: self.lexeme@,
            literal: self.literal@,
            line: self.line,
        }
    }
}

/// The name of a token kind, used by the debuggable rendering of a token.
pub open spec fn kind_text(t: TokenType) -> Seq<char> {
    match t {
        TokenType::LeftParen => "LeftParen"@,
        TokenType::RightParen => "RightParen"@,
        TokenType::LeftBrace => "LeftBrace"@,
        TokenType::RightBrace => "RightBrace"@,
        TokenType::Comma => "Comma"@,
        TokenType::Dot => "Dot"@,
        TokenType::Minus => "Minus"@,
        TokenType::Plus => "Plus"@,
        TokenType::Semicolon => "Semicolon"@,
        TokenType::Slash => "Slash"@,
        TokenType::Star => "Star"@,
        TokenType::Bang => "Bang"@,
        TokenType::BangEqual => "BangEqual"@,
        TokenType::Equal => "Equal"@,
        TokenType::EqualEqual => "EqualEqual"@,
        TokenType::Greater => "Greater"@,
        TokenType::GreaterEqual => "GreaterEqual"@,
        TokenType::Less => "Less"@,
        TokenType::LessEqual => "LessEqual"@,
        TokenType::Identifier => "Identifier"@,
        TokenType::String => "String"@,
        TokenType::Number => "Number"@,
        TokenType::And => "And"@,
        TokenType::Class => "Class"@,
        TokenType::Else => "Else"@,
        TokenType::False => "False"@,
        TokenType::Fun => "Fun"@,
        TokenType::For => "For"@,
        TokenType::If => "If"@,
        TokenType::Nil => "Nil"@,
        TokenType::Or => "Or"@,
        TokenType::Print => "Print"@,
        TokenType::Return => "Return"@,
        TokenType::Super => "Super"@,
        TokenType::This => "This"@,
        TokenType::True => "True"@,
        TokenType::Var => "Var"@,
        TokenType::While => "While"@,
        TokenType::Eof => "Eof"@,
    }
}

/// A well-formed token stream: finite, terminated by exactly one `Eof`
/// token, with no token after it.
pub open spec fn tokens_wf(ts: Seq<TokenModel>) -> bool {
    &&& ts.len() >= 1
    &&& ts.last().type_of == TokenType::Eof
    &&& forall|k: int| 0 <= k < ts.len() - 1 ==> ts[k].type_of != TokenType::Eof
}

/// The debuggable rendering of a token: `kind lexeme literal`.
pub open spec fn token_text(t: TokenModel) -> Seq<char> {
    kind_text(t.type_of) + " "@ + t.lexeme + " "@ + value_text(t.literal)
}

impl Token {
    /// Builds a token from its parts.
    pub fn new(type_of: TokenType, lexeme: &str, literal: Value, line: u32) -> (t: Token)
        ensures
            t@ == (TokenModel { type_of, lexeme: lexeme@, literal: literal@, line }),
    {
        Token { type_of, lexeme: lexeme.to_owned(), literal, line }
    }

    /// An equal token; unlike `clone`, its contract says so.
    pub fn duplicate(&self) -> (t: Token)
        ensures
            t@ == self@,
    {
        Token {
            type_of: self.type_of,
            lexeme: self.lexeme.clone(),
            literal: self.literal.duplicate(),
            line: self.line,
        }
    }

    /// Renders this token as `kind lexeme literal`, suitable for debugging
    /// a token stream by printing it.
    pub fn to_string(&self) -> (r: String)
        ensures
            r@ == token_text(self@),
    {
        let mut s = String::new();
        s.append(kind_name(self.type_of));
        s.append(" ");
        s.append(self.lexeme.as_str());
        s.append(" ");
        let lit = self.literal.to_string();
        s.append(lit.as_str());
        proof {
            assert(s@ =~= token_text(self@));
        }
        s
    }
}

/// The name of a token kind as executable text; agrees with `kind_text`.
pub fn kind_name(t: TokenType) -> (r: &'static str)
    ensures
        r@ == kind_text(t),
{
    match t {
        TokenType::LeftParen => "LeftParen",
        TokenType::RightParen => "RightParen",
        TokenType::LeftBrace => "LeftBrace",
        TokenType::RightBrace => "RightBrace",
        TokenType::Comma => "Comma",
        TokenType::Dot => "Dot",
        TokenType::Minus => "Minus",
        TokenType::Plus => "Plus",
        TokenType::Semicolon => "Semicolon",
        TokenType::Slash => "Slash",
        TokenType::Star => "Star",
        TokenType::Bang => "Bang",
        TokenType::BangEqual => "BangEqual",
        TokenType::Equal => "Equal",
        TokenType::EqualEqual => "EqualEqual",
        TokenType::Greater => "Greater",
        TokenType::GreaterEqual => "GreaterEqual",
        TokenType::Less => "Less",
        TokenType::LessEqual => "LessEqual",
        TokenType::Identifier => "Identifier",
        TokenType::String => "String",
        TokenType::Number => "Number",
        TokenType::And => "And",
        TokenType::Class => "Class",
        TokenType::Else => "Else",
        TokenType::False => "False",
        TokenType::Fun => "Fun",
        TokenType::For => "For",
        TokenType::If => "If",
        TokenType::Nil => "Nil",
        TokenType::Or => "Or",
        TokenType::Print => "Print",
        TokenType::Return => "Return",
        TokenType::Super => "Super",
        TokenType::This => "This",
        TokenType::True => "True",
        TokenType::Var => "Var",
        TokenType::While => "While",
        TokenType::Eof => "Eof",
    }
}

} // verus!
