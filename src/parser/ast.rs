//! The syntax tree that the parser builds and the generator walks.
use vstd::prelude::*;

use crate::error::Span;
use crate::lexer::TokenKind;

verus! {

/// An expression; operator precedence is already resolved into the tree's shape.
#[derive(Debug)]
pub enum Expr {
    /// An integer literal's value and the radix it was written in.
    Int { value: i64, radix: u32 },
    /// A floating-point literal's digits.
    Float(String),
    Str(String),
    Rune(char),
    Bool(bool),
    Nil,
    Ident(String),
    /// `operand.member`
    Selector(Box<Expr>, String),
    /// `callee(args...)`
    Call(Box<Expr>, Vec<Expr>),
    /// `operand[index]`
    Index(Box<Expr>, Box<Expr>),
    /// A prefix operator (`+ - ! ^ & * <-`) and its operand.
    Unary(TokenKind, Box<Expr>, Span),
    /// A binary operator between two operands.
    Binary(Box<Expr>, TokenKind, Box<Expr>),
    Paren(Box<Expr>),
}

/// A statement. `Case` appears only among the cases of a `Switch`.
#[derive(Debug)]
pub enum Stmt {
    Expr(Expr),
    /// `var` or `const` with an optional type and an optional initial value.
    VarDecl { name: String, ty: Option<String>, value: Option<Expr>, constant: bool },
    /// `name := value`
    ShortVar { name: String, value: Expr },
    /// Plain or compound assignment; `op` is the assignment token.
    Assign { target: Expr, op: TokenKind, value: Expr },
    IncDec { target: Expr, inc: bool },
    Block(Vec<Stmt>),
    If { cond: Expr, then_block: Vec<Stmt>, else_branch: Option<Box<Stmt>> },
    /// Condition-only, three-clause or endless `for`.
    For { init: Option<Box<Stmt>>, cond: Option<Expr>, post: Option<Box<Stmt>>, body: Vec<Stmt> },
    /// `for key := range over`
    Range { key: String, over: Expr, body: Vec<Stmt> },
    Switch { tag: Option<Expr>, cases: Vec<Stmt> },
    /// One `case` of a switch; no values means `default`.
    Case { values: Vec<Expr>, body: Vec<Stmt> },
    Return(Option<Expr>),
    Break,
    Continue,
    Fallthrough,
    Goto(String),
    Go(Expr, Span),
    Defer(Expr, Span),
    /// `channel <- value`
    Send(Expr, Expr, Span),
    Select(Span),
}

/// A function parameter: its name and its type as written.
#[derive(Debug)]
pub struct Param {
    pub name: String,
    pub ty: String,
}

#[derive(Debug)]
pub struct FuncDecl {
    pub name: String,
    pub params: Vec<Param>,
    pub ret: Option<String>,
    pub body: Vec<Stmt>,
    pub span: Span,
}

/// A top-level declaration.
#[derive(Debug)]
pub enum Decl {
    Func(FuncDecl),
    /// A package-level `var` or `const` (always a `Stmt::VarDecl`).
    Var(Stmt, Span),
    /// A `type` declaration; only its name is kept.
    Type(String, Span),
}

/// A whole source file.
#[derive(Debug)]
pub struct Program {
    pub package: String,
    pub imports: Vec<String>,
    pub decls: Vec<Decl>,
}

} // verus!
