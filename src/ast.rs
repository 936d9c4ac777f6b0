//! Tokens and the syntax tree built from them.
use vstd::prelude::*;

verus! {

/// The kind of a lexical unit. The text of literals and identifiers lives in
/// the token's `literal` field.
#[derive(Debug, Clone, Copy, PartialEq, Eq, Structural)]
pub enum TokenKind {
    // Single-character tokens.
    LeftParen,
    RightParen,
    LeftBrace,
    RightBrace,
    Coma,
    Dot,
    Minus,
    Plus,
    Semicolon,
    Slash,
    Star,
    // One or two character tokens.
    Bang,
    BangEqual,
    Equal,
    EqualEqual,
    Greater,
    GreaterEqual,
    Less,
    LessEqual,
    // Literals.
    Identifier,
    String,
    Number,
    // Keywords.
    And,
    Class,
    Else,
    False,
    Function,
    For,
    If,
    Nil,
    Or,
    Print,
    Return,
    Super,
    This,
    True,
    Var,
    While,
    EOF,
}

/// A lexical unit: its kind, the line it starts on, the exact source text it
/// was scanned from, and its payload (an identifier's name, a string's
/// contents between the quotes, a number's digits; empty for other kinds).
#[derive(Debug, PartialEq)]
pub struct Token {
    pub kind: TokenKind,
    pub line: usize,
    pub lexeme: String,
    pub literal: String,
}

/// The mathematical content of a [`Token`].
pub struct TokenModel {
    pub kind: TokenKind,
    pub line: nat,
    pub lexeme: Seq<char>,
    pub literal: Seq<char>,
}

impl View for Token {
    type V = TokenModel;

    open spec fn view(&self) -> TokenModel {
        TokenModel {
            kind: self.kind,
            line: self.line as nat,
            lexeme: self.lexeme@,
            literal: self.literal@,
        }
    }
}

/// The views of a sequence of tokens.
pub open spec fn tokens_view(ts: Seq<Token>) -> Seq<TokenModel> {
    ts.map_values(|t: Token| t@)
}

impl Token {
    /// A copy of this token.
    pub fn duplicate(&self) -> (r: Token)
        ensures
            r == *self,
    {
        Token {
            kind: self.kind,
            line: self.line,
            lexeme: self.lexeme.clone(),
            literal: self.literal.clone(),
        }
    }
}

/// Binary operators.
#[derive(Debug, Clone, Copy, PartialEq, Eq, Structural)]
pub enum BinaryOp {
    Plus,
    Minus,
    Slash,
    Star,
    Equal,
    NotEqual,
    Greater,
    GreaterEqual,
    Less,
    LessEqual,
}

/// Unary operators: logical not and numeric negation.
#[derive(Debug, Clone, Copy, PartialEq, Eq, Structural)]
pub enum UnaryOp {
    Not,
    Neg,
}

/// A literal as written in the source: a number keeps its digits.
#[derive(Debug, PartialEq)]
pub enum LiteralValue {
    Number(String),
    String(String),
    True,
    False,
    Nil,
}

/// Expressions. `Binary` and `Unary` carry the line of their operator.
#[derive(Debug, PartialEq)]
pub enum Expr {
    Binary(Box<Expr>, BinaryOp, Box<Expr>, usize),
    Unary(UnaryOp, Box<Expr>, usize),
    Grouping(Box<Expr>),
    Literal(LiteralValue),
    Variable(Token),
    Assign(Token, Box<Expr>),
}

/// Statements.
#[derive(Debug, PartialEq)]
pub enum Stmt {
    Expression(Box<Expr>),
    Var(Token, Option<Box<Expr>>),
    Print(Box<Expr>),
    Block(Vec<Stmt>),
}

} // verus!

verus! {

/// The mathematical content of a [`Stmt`]: a block holds a sequence.
pub enum StmtModel {
    Expression(Expr),
    Var(Token, Option<Box<Expr>>),
    Print(Expr),
    Block(Seq<StmtModel>),
}

pub open spec fn stmt_model(s: &Stmt) -> StmtModel
    decreases s,
{
    match s {
        Stmt::Expression(e) => StmtModel::Expression(**e),
        Stmt::Var(name, init) => StmtModel::Var(*name, *init),
        Stmt::Print(e) => StmtModel::Print(**e),
        Stmt::Block(body) => StmtModel::Block(stmts_model(body@)),
    }
}

pub open spec fn stmts_model(v: Seq<Stmt>) -> Seq<StmtModel>
    decreases v,
{
    Seq::new(
        v.len(),
        |i: int|
            if 0 <= i < v.len() {
                stmt_model(&v[i])
            } else {
                StmtModel::Block(Seq::empty())
            },
    )
}

pub proof fn lemma_stmts_model_push(v: Seq<Stmt>, x: Stmt)
    ensures
        stmts_model(v.push(x)) == stmts_model(v).push(stmt_model(&x)),
{
    assert(stmts_model(v.push(x)) =~= stmts_model(v).push(stmt_model(&x)));
}

} // verus!
