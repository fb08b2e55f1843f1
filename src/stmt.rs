use vstd::prelude::*;
use std::rc::Rc;
use crate::expr::Expr;
use crate::token::Token;

verus! {

/// A function declaration: its name, its parameters and its body.
pub struct FunctionDecl {
    pub name: Token,
    pub params: Vec<Token>,
    pub body: Vec<Stmt>,
}

/// A statement.
pub enum Stmt {
    Block(Vec<Stmt>),
    Expression(Expr),
    Print(Expr),
    /// name, initializer
    Var(Token, Option<Expr>),
    /// condition, then branch, else branch
    If(Expr, Box<Stmt>, Option<Box<Stmt>>),
    /// condition, body
    While(Expr, Box<Stmt>),
    /// name, parameters and body, shared with the procedures made from it
    Function(Rc<FunctionDecl>),
    /// keyword, value
    Return(Token, Expr),
}

} // verus!
