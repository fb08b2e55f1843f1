//! Parse trees as mathematical values, and the grammar of the language as spec functions
//! over token sequences: each function gives, for a start position, the tree read from there
//! and the position after it, or the parse error met first.

use vstd::prelude::*;
use crate::expr::Expr;
use crate::parser::{ParseError, ParseErrorKind, MAX_ARGS};
use crate::stmt::Stmt;
use crate::token::{Token, TokenType};
use crate::vari::VariTypes;

verus! {

broadcast use vstd::std_specs::vec::axiom_vec_index_decreases;

/// An expression tree with its lists as sequences.
pub enum SExpr {
    Binary(Box<SExpr>, Token, Box<SExpr>),
    Call(Box<SExpr>, Token, Seq<SExpr>),
    Unary(Token, Box<SExpr>),
    Grouping(Box<SExpr>),
    Struct(Seq<(Seq<char>, SExpr)>),
    Get(Box<SExpr>, Seq<char>),
    SetProperty(Box<SExpr>, Seq<char>, Box<SExpr>),
    Literal(VariTypes),
    Variable(Token),
    Assign(Token, Box<SExpr>),
    Logical(Box<SExpr>, Token, Box<SExpr>),
}

/// A statement tree with its lists as sequences.
pub enum SStmt {
    Block(Seq<SStmt>),
    Expression(SExpr),
    Print(SExpr),
    Var(Token, Option<SExpr>),
    If(SExpr, Box<SStmt>, Option<Box<SStmt>>),
    While(SExpr, Box<SStmt>),
    Function(Token, Seq<Token>, Seq<SStmt>),
    Return(Token, SExpr),
}

/// The tree of an expression.
pub closed spec fn view_expr(e: Expr) -> SExpr
    decreases e,
{
    match e {
        Expr::Binary { lhs, op, rhs } => SExpr::Binary(Box::new(view_expr(*lhs)), op, Box::new(view_expr(*rhs))),
        Expr::Call { callee, paren, args } => SExpr::Call(Box::new(view_expr(*callee)), paren,
            Seq::new(args@.len(), |i: int| if 0 <= i < args@.len() { view_expr(args[i]) } else { SExpr::Literal(VariTypes::Nil) })),
        Expr::Unary { op, rhs } => SExpr::Unary(op, Box::new(view_expr(*rhs))),
        Expr::Grouping { expr } => SExpr::Grouping(Box::new(view_expr(*expr))),
        Expr::Struct { values } => SExpr::Struct(
            Seq::new(values@.len(), |i: int| if 0 <= i < values@.len() { (values[i].0@, view_expr(values[i].1)) } else { (Seq::empty(), SExpr::Literal(VariTypes::Nil)) })),
        Expr::Get { expr, name } => SExpr::Get(Box::new(view_expr(*expr)), name@),
        Expr::SetProperty { expr, name, value } => SExpr::SetProperty(Box::new(view_expr(*expr)), name@, Box::new(view_expr(*value))),
        Expr::Literal { value } => SExpr::Literal(*value),
        Expr::Variable { value } => SExpr::Variable(value),
        Expr::Assign { name, value_expr } => SExpr::Assign(name, Box::new(view_expr(*value_expr))),
        Expr::Logical { lhs, operator, rhs } => SExpr::Logical(Box::new(view_expr(*lhs)), operator, Box::new(view_expr(*rhs))),
    }
}

/// The trees of a list of expressions.
pub open spec fn views(es: Seq<Expr>) -> Seq<SExpr> {
    Seq::new(es.len(), |i: int| view_expr(es[i]))
}

/// The fields of a struct literal as names and trees.
pub open spec fn field_views(fs: Seq<(String, Expr)>) -> Seq<(Seq<char>, SExpr)> {
    Seq::new(fs.len(), |i: int| (fs[i].0@, view_expr(fs[i].1)))
}

pub open spec fn opt_view(e: Option<Expr>) -> Option<SExpr> {
    match e {
        Some(x) => Some(view_expr(x)),
        None => None,
    }
}

/// The tree of a statement.
pub closed spec fn view_stmt(s: Stmt) -> SStmt
    decreases s,
{
    match s {
        Stmt::Block(b) => SStmt::Block(Seq::new(b@.len(), |i: int| if 0 <= i < b@.len() { view_stmt(b[i]) } else { SStmt::Block(Seq::empty()) })),
        Stmt::Expression(e) => SStmt::Expression(view_expr(e)),
        Stmt::Print(e) => SStmt::Print(view_expr(e)),
        Stmt::Var(name, init) => SStmt::Var(name, opt_view(init)),
        Stmt::If(c, t, e) => SStmt::If(view_expr(c), Box::new(view_stmt(*t)), match e {
            Some(x) => Some(Box::new(view_stmt(*x))),
            None => None,
        }),
        Stmt::While(c, b) => SStmt::While(view_expr(c), Box::new(view_stmt(*b))),
        Stmt::Function(d) => SStmt::Function(d.name, d.params@,
            Seq::new(d.body@.len(), |i: int| if 0 <= i < d.body@.len() { view_stmt(d.body[i]) } else { SStmt::Block(Seq::empty()) })),
        Stmt::Return(k, e) => SStmt::Return(k, view_expr(e)),
    }
}

/// The trees of a list of statements.
pub open spec fn view_stmts(ss: Seq<Stmt>) -> Seq<SStmt> {
    Seq::new(ss.len(), |i: int| view_stmt(ss[i]))
}

/// The form of each tree, one step down.
pub proof fn unfold_view_expr(e: Expr)
    ensures
        e matches Expr::Binary { lhs, op, rhs } ==> view_expr(e) == SExpr::Binary(Box::new(view_expr(*lhs)), op, Box::new(view_expr(*rhs))),
        e matches Expr::Call { callee, paren, args } ==> view_expr(e) == SExpr::Call(Box::new(view_expr(*callee)), paren, views(args@)),
        e matches Expr::Unary { op, rhs } ==> view_expr(e) == SExpr::Unary(op, Box::new(view_expr(*rhs))),
        e matches Expr::Grouping { expr } ==> view_expr(e) == SExpr::Grouping(Box::new(view_expr(*expr))),
        e matches Expr::Struct { values } ==> view_expr(e) == SExpr::Struct(field_views(values@)),
        e matches Expr::Get { expr, name } ==> view_expr(e) == SExpr::Get(Box::new(view_expr(*expr)), name@),
        e matches Expr::SetProperty { expr, name, value } ==> view_expr(e) == SExpr::SetProperty(Box::new(view_expr(*expr)), name@, Box::new(view_expr(*value))),
        e matches Expr::Literal { value } ==> view_expr(e) == SExpr::Literal(*value),
        e matches Expr::Variable { value } ==> view_expr(e) == SExpr::Variable(value),
        e matches Expr::Assign { name, value_expr } ==> view_expr(e) == SExpr::Assign(name, Box::new(view_expr(*value_expr))),
        e matches Expr::Logical { lhs, operator, rhs } ==> view_expr(e) == SExpr::Logical(Box::new(view_expr(*lhs)), operator, Box::new(view_expr(*rhs))),
        (view_expr(e) is Variable) == (e is Variable),
        (view_expr(e) is Get) == (e is Get),
{
    reveal_with_fuel(view_expr, 1);
    if let Expr::Call { callee, paren, args } = e {
        assert(view_expr(e)->Call_2 =~= views(args@));
    }
    if let Expr::Struct { values } = e {
        assert(view_expr(e)->Struct_0 =~= field_views(values@));
    }
}

/// The form of each statement tree, one step down.
pub proof fn unfold_view_stmt(s: Stmt)
    ensures
        s matches Stmt::Block(b) ==> view_stmt(s) == SStmt::Block(view_stmts(b@)),
        s matches Stmt::Expression(e) ==> view_stmt(s) == SStmt::Expression(view_expr(e)),
        s matches Stmt::Print(e) ==> view_stmt(s) == SStmt::Print(view_expr(e)),
        s matches Stmt::Var(name, init) ==> view_stmt(s) == SStmt::Var(name, opt_view(init)),
        s matches Stmt::If(c, t, e) ==> view_stmt(s) == SStmt::If(view_expr(c), Box::new(view_stmt(*t)), match e {
            Some(x) => Some(Box::new(view_stmt(*x))),
            None => None,
        }),
        s matches Stmt::While(c, b) ==> view_stmt(s) == SStmt::While(view_expr(c), Box::new(view_stmt(*b))),
        s matches Stmt::Function(d) ==> view_stmt(s) == SStmt::Function(d.name, d.params@, view_stmts(d.body@)),
        s matches Stmt::Return(k, e) ==> view_stmt(s) == SStmt::Return(k, view_expr(e)),
{
    reveal_with_fuel(view_stmt, 1);
    if let Stmt::Block(b) = s {
        assert(view_stmt(s)->Block_0 =~= view_stmts(b@));
    }
    if let Stmt::Function(d) = s {
        assert(view_stmt(s)->Function_2 =~= view_stmts(d.body@));
    }
}

/// The kind of the token at `p` is `k`, and it is not the end of the input.
pub open spec fn checks(ts: Seq<Token>, p: int, k: TokenType) -> bool {
    0 <= p < ts.len() && ts[p].token_type != TokenType::EOF && ts[p].token_type == k
}

pub open spec fn at_end(ts: Seq<Token>, p: int) -> bool {
    0 <= p < ts.len() && ts[p].token_type == TokenType::EOF
}

/// The error for a position outside the tokens (never met by a parser whose tokens end with
/// an end-of-file token).
pub open spec fn no_token() -> ParseError {
    ParseError { kind: ParseErrorKind::ExpectedExpression, line: 0 }
}

pub open spec fn error_at(ts: Seq<Token>, p: int, kind: ParseErrorKind) -> ParseError {
    ParseError { kind, line: if 0 <= p < ts.len() { ts[p].line } else { 0 } }
}

/// The position after a token of kind `k` at `p`, or the error for its absence.
pub open spec fn expect(ts: Seq<Token>, p: int, k: TokenType) -> Result<int, ParseError> {
    if checks(ts, p, k) { Ok(p + 1) } else { Err(error_at(ts, p, ParseErrorKind::Expected(k))) }
}

/// The outcome of an expression parser: the tree and the position after it, or the error.
pub open spec fn outcome(r: Result<Expr, ParseError>, p: int) -> Result<(SExpr, int), ParseError> {
    match r {
        Ok(e) => Ok((view_expr(e), p)),
        Err(x) => Err(x),
    }
}

/// The outcome of a statement parser.
pub open spec fn stmt_outcome(r: Result<Stmt, ParseError>, p: int) -> Result<(SStmt, int), ParseError> {
    match r {
        Ok(s) => Ok((view_stmt(s), p)),
        Err(x) => Err(x),
    }
}

/// The outcome of a parser of an optional expression.
pub open spec fn opt_outcome(r: Result<Option<Expr>, ParseError>, p: int) -> Result<(Option<SExpr>, int), ParseError> {
    match r {
        Ok(e) => Ok((opt_view(e), p)),
        Err(x) => Err(x),
    }
}

/// The outcome of a parser of statement lists.
pub open spec fn stmts_outcome(r: Result<Vec<Stmt>, ParseError>, p: int) -> Result<(Seq<SStmt>, int), ParseError> {
    match r {
        Ok(s) => Ok((view_stmts(s@), p)),
        Err(x) => Err(x),
    }
}

/// A position `q` reached from `p` that moved forward (`strict`) or stayed, within the tokens.
pub open spec fn moved(ts: Seq<Token>, p: int, q: int, strict: bool) -> bool {
    (if strict { q > p } else { q >= p }) && q <= ts.len()
}

/// The literal tree of a number or string token.
pub open spec fn literal_of(t: Token) -> SExpr {
    SExpr::Literal(match t.literal { Some(b) => *b, None => VariTypes::Nil })
}

/// The assignment built from a target and a value, or the error at the "=" at `p`.
pub open spec fn assign_to(ts: Seq<Token>, p: int, target: SExpr, value: SExpr) -> Result<SExpr, ParseError> {
    match target {
        SExpr::Variable(name) => Ok(SExpr::Assign(name, Box::new(value))),
        SExpr::Get(object, name) => Ok(SExpr::SetProperty(object, name, Box::new(value))),
        _ => Err(error_at(ts, p, ParseErrorKind::InvalidAssignmentTarget)),
    }
}

/// The call node for arguments `args` closed by the ")" at `p`.
pub open spec fn call_node(ts: Seq<Token>, p: int, callee: SExpr, args: Seq<SExpr>) -> Result<(SExpr, int), ParseError> {
    if args.len() > MAX_ARGS {
        Err(error_at(ts, p, ParseErrorKind::TooManyArguments))
    } else {
        Ok((SExpr::Call(Box::new(callee), ts[p], args), p + 1))
    }
}

/// The `for` loop desugared: `{ init; while (cond) { body; step; } }`, with `true` for a
/// missing condition and no step statement for a missing step.
pub open spec fn for_tree(init: SStmt, cond: Option<SExpr>, step: Option<SExpr>, body: SStmt) -> SStmt {
    let looped = match step {
        Some(s) => SStmt::Block(seq![body, SStmt::Expression(s)]),
        None => body,
    };
    let c = match cond {
        Some(c) => c,
        None => SExpr::Literal(VariTypes::Boolean(true)),
    };
    SStmt::Block(seq![init, SStmt::While(c, Box::new(looped))])
}

/// expression → assignment
pub closed spec fn expression(ts: Seq<Token>, p: int) -> Result<(SExpr, int), ParseError>
    decreases ts.len() - p, 120int,
{
    assignment(ts, p)
}

pub proof fn unfold_expression(ts: Seq<Token>, p: int)
    ensures
        expression(ts, p) == (assignment(ts, p)),
{
}

/// assignment → (call ".")? IDENTIFIER "=" assignment | logic_or: a variable target gives an
/// assignment, a property target a property write, any other target an error at the "=".
pub closed spec fn assignment(ts: Seq<Token>, p: int) -> Result<(SExpr, int), ParseError>
    decreases ts.len() - p, 110int,
{
    match logic_or(ts, p) {
        Ok((lhs, p1)) => if !moved(ts, p, p1, false) {
            Err(no_token())
        } else if checks(ts, p1, TokenType::EQUAL) {
            match assignment(ts, p1 + 1) {
                Ok((value, p2)) => match assign_to(ts, p1, lhs, value) {
                    Ok(a) => Ok((a, p2)),
                    Err(x) => Err(x),
                },
                Err(e) => Err(e),
            }
        } else {
            Ok((lhs, p1))
        },
        Err(e) => Err(e),
    }
}

pub proof fn unfold_assignment(ts: Seq<Token>, p: int)
    ensures
        assignment(ts, p) == (match logic_or(ts, p) {
        Ok((lhs, p1)) => if !moved(ts, p, p1, false) {
            Err(no_token())
        } else if checks(ts, p1, TokenType::EQUAL) {
            match assignment(ts, p1 + 1) {
                Ok((value, p2)) => match assign_to(ts, p1, lhs, value) {
                    Ok(a) => Ok((a, p2)),
                    Err(x) => Err(x),
                },
                Err(e) => Err(e),
            }
        } else {
            Ok((lhs, p1))
        },
        Err(e) => Err(e),
    }),
{
}

/// The operators and operands of logic_or from `p` on, folded to the left onto `lhs`.
pub closed spec fn logic_or_rest(ts: Seq<Token>, p: int, lhs: SExpr) -> Result<(SExpr, int), ParseError>
    decreases ts.len() - p, 100int,
{
    if p < 0 || p >= ts.len() {
        Err(no_token())
    } else if checks(ts, p, TokenType::OR) {
        match logic_and(ts, p + 1) {
            Ok((rhs, p2)) => if !moved(ts, p, p2, true) {
                Err(no_token())
            } else {
                logic_or_rest(ts, p2, SExpr::Logical(Box::new(lhs), ts[p], Box::new(rhs)))
            },
            Err(e) => Err(e),
        }
    } else {
        Ok((lhs, p))
    }
}

pub proof fn unfold_logic_or_rest(ts: Seq<Token>, p: int, lhs: SExpr)
    ensures
        logic_or_rest(ts, p, lhs) == (if p < 0 || p >= ts.len() {
        Err(no_token())
    } else if checks(ts, p, TokenType::OR) {
        match logic_and(ts, p + 1) {
            Ok((rhs, p2)) => if !moved(ts, p, p2, true) {
                Err(no_token())
            } else {
                logic_or_rest(ts, p2, SExpr::Logical(Box::new(lhs), ts[p], Box::new(rhs)))
            },
            Err(e) => Err(e),
        }
    } else {
        Ok((lhs, p))
    }),
{
}

/// logic_or → logic_and ("or" logic_and)*, left-associative
pub closed spec fn logic_or(ts: Seq<Token>, p: int) -> Result<(SExpr, int), ParseError>
    decreases ts.len() - p, 101int,
{
    match logic_and(ts, p) {
        Ok((lhs, p1)) => if !moved(ts, p, p1, false) { Err(no_token()) } else { logic_or_rest(ts, p1, lhs) },
        Err(e) => Err(e),
    }
}

pub proof fn unfold_logic_or(ts: Seq<Token>, p: int)
    ensures
        logic_or(ts, p) == (match logic_and(ts, p) {
        Ok((lhs, p1)) => if !moved(ts, p, p1, false) { Err(no_token()) } else { logic_or_rest(ts, p1, lhs) },
        Err(e) => Err(e),
    }),
{
}

/// The operators and operands of logic_and from `p` on, folded to the left onto `lhs`.
pub closed spec fn logic_and_rest(ts: Seq<Token>, p: int, lhs: SExpr) -> Result<(SExpr, int), ParseError>
    decreases ts.len() - p, 90int,
{
    if p < 0 || p >= ts.len() {
        Err(no_token())
    } else if checks(ts, p, TokenType::AND) {
        match equality(ts, p + 1) {
            Ok((rhs, p2)) => if !moved(ts, p, p2, true) {
                Err(no_token())
            } else {
                logic_and_rest(ts, p2, SExpr::Logical(Box::new(lhs), ts[p], Box::new(rhs)))
            },
            Err(e) => Err(e),
        }
    } else {
        Ok((lhs, p))
    }
}

pub proof fn unfold_logic_and_rest(ts: Seq<Token>, p: int, lhs: SExpr)
    ensures
        logic_and_rest(ts, p, lhs) == (if p < 0 || p >= ts.len() {
        Err(no_token())
    } else if checks(ts, p, TokenType::AND) {
        match equality(ts, p + 1) {
            Ok((rhs, p2)) => if !moved(ts, p, p2, true) {
                Err(no_token())
            } else {
                logic_and_rest(ts, p2, SExpr::Logical(Box::new(lhs), ts[p], Box::new(rhs)))
            },
            Err(e) => Err(e),
        }
    } else {
        Ok((lhs, p))
    }),
{
}

/// logic_and → equality ("and" equality)*, left-associative
pub closed spec fn logic_and(ts: Seq<Token>, p: int) -> Result<(SExpr, int), ParseError>
    decreases ts.len() - p, 91int,
{
    match equality(ts, p) {
        Ok((lhs, p1)) => if !moved(ts, p, p1, false) { Err(no_token()) } else { logic_and_rest(ts, p1, lhs) },
        Err(e) => Err(e),
    }
}

pub proof fn unfold_logic_and(ts: Seq<Token>, p: int)
    ensures
        logic_and(ts, p) == (match equality(ts, p) {
        Ok((lhs, p1)) => if !moved(ts, p, p1, false) { Err(no_token()) } else { logic_and_rest(ts, p1, lhs) },
        Err(e) => Err(e),
    }),
{
}

/// The operators and operands of equality from `p` on, folded to the left onto `lhs`.
pub closed spec fn equality_rest(ts: Seq<Token>, p: int, lhs: SExpr) -> Result<(SExpr, int), ParseError>
    decreases ts.len() - p, 80int,
{
    if p < 0 || p >= ts.len() {
        Err(no_token())
    } else if checks(ts, p, TokenType::NE) || checks(ts, p, TokenType::ISEQ) {
        match comparison(ts, p + 1) {
            Ok((rhs, p2)) => if !moved(ts, p, p2, true) {
                Err(no_token())
            } else {
                equality_rest(ts, p2, SExpr::Binary(Box::new(lhs), ts[p], Box::new(rhs)))
            },
            Err(e) => Err(e),
        }
    } else {
        Ok((lhs, p))
    }
}

pub proof fn unfold_equality_rest(ts: Seq<Token>, p: int, lhs: SExpr)
    ensures
        equality_rest(ts, p, lhs) == (if p < 0 || p >= ts.len() {
        Err(no_token())
    } else if checks(ts, p, TokenType::NE) || checks(ts, p, TokenType::ISEQ) {
        match comparison(ts, p + 1) {
            Ok((rhs, p2)) => if !moved(ts, p, p2, true) {
                Err(no_token())
            } else {
                equality_rest(ts, p2, SExpr::Binary(Box::new(lhs), ts[p], Box::new(rhs)))
            },
            Err(e) => Err(e),
        }
    } else {
        Ok((lhs, p))
    }),
{
}

/// equality → comparison (("!=" | "==") comparison)*, left-associative
pub closed spec fn equality(ts: Seq<Token>, p: int) -> Result<(SExpr, int), ParseError>
    decreases ts.len() - p, 81int,
{
    match comparison(ts, p) {
        Ok((lhs, p1)) => if !moved(ts, p, p1, false) { Err(no_token()) } else { equality_rest(ts, p1, lhs) },
        Err(e) => Err(e),
    }
}

pub proof fn unfold_equality(ts: Seq<Token>, p: int)
    ensures
        equality(ts, p) == (match comparison(ts, p) {
        Ok((lhs, p1)) => if !moved(ts, p, p1, false) { Err(no_token()) } else { equality_rest(ts, p1, lhs) },
        Err(e) => Err(e),
    }),
{
}

/// The operators and operands of comparison from `p` on, folded to the left onto `lhs`.
pub closed spec fn comparison_rest(ts: Seq<Token>, p: int, lhs: SExpr) -> Result<(SExpr, int), ParseError>
    decreases ts.len() - p, 70int,
{
    if p < 0 || p >= ts.len() {
        Err(no_token())
    } else if checks(ts, p, TokenType::GT) || checks(ts, p, TokenType::GE) || checks(ts, p, TokenType::LT) || checks(ts, p, TokenType::LE) {
        match term(ts, p + 1) {
            Ok((rhs, p2)) => if !moved(ts, p, p2, true) {
                Err(no_token())
            } else {
                comparison_rest(ts, p2, SExpr::Binary(Box::new(lhs), ts[p], Box::new(rhs)))
            },
            Err(e) => Err(e),
        }
    } else {
        Ok((lhs, p))
    }
}

pub proof fn unfold_comparison_rest(ts: Seq<Token>, p: int, lhs: SExpr)
    ensures
        comparison_rest(ts, p, lhs) == (if p < 0 || p >= ts.len() {
        Err(no_token())
    } else if checks(ts, p, TokenType::GT) || checks(ts, p, TokenType::GE) || checks(ts, p, TokenType::LT) || checks(ts, p, TokenType::LE) {
        match term(ts, p + 1) {
            Ok((rhs, p2)) => if !moved(ts, p, p2, true) {
                Err(no_token())
            } else {
                comparison_rest(ts, p2, SExpr::Binary(Box::new(lhs), ts[p], Box::new(rhs)))
            },
            Err(e) => Err(e),
        }
    } else {
        Ok((lhs, p))
    }),
{
}

/// comparison → term ((">" | ">=" | "<" | "<=") term)*, left-associative
pub closed spec fn comparison(ts: Seq<Token>, p: int) -> Result<(SExpr, int), ParseError>
    decreases ts.len() - p, 71int,
{
    match term(ts, p) {
        Ok((lhs, p1)) => if !moved(ts, p, p1, false) { Err(no_token()) } else { comparison_rest(ts, p1, lhs) },
        Err(e) => Err(e),
    }
}

pub proof fn unfold_comparison(ts: Seq<Token>, p: int)
    ensures
        comparison(ts, p) == (match term(ts, p) {
        Ok((lhs, p1)) => if !moved(ts, p, p1, false) { Err(no_token()) } else { comparison_rest(ts, p1, lhs) },
        Err(e) => Err(e),
    }),
{
}

/// The operators and operands of term from `p` on, folded to the left onto `lhs`.
pub closed spec fn term_rest(ts: Seq<Token>, p: int, lhs: SExpr) -> Result<(SExpr, int), ParseError>
    decreases ts.len() - p, 60int,
{
    if p < 0 || p >= ts.len() {
        Err(no_token())
    } else if checks(ts, p, TokenType::MINUS) || checks(ts, p, TokenType::PLUS) || checks(ts, p, TokenType::MODULO) {
        match factor(ts, p + 1) {
            Ok((rhs, p2)) => if !moved(ts, p, p2, true) {
                Err(no_token())
            } else {
                term_rest(ts, p2, SExpr::Binary(Box::new(lhs), ts[p], Box::new(rhs)))
            },
            Err(e) => Err(e),
        }
    } else {
        Ok((lhs, p))
    }
}

pub proof fn unfold_term_rest(ts: Seq<Token>, p: int, lhs: SExpr)
    ensures
        term_rest(ts, p, lhs) == (if p < 0 || p >= ts.len() {
        Err(no_token())
    } else if checks(ts, p, TokenType::MINUS) || checks(ts, p, TokenType::PLUS) || checks(ts, p, TokenType::MODULO) {
        match factor(ts, p + 1) {
            Ok((rhs, p2)) => if !moved(ts, p, p2, true) {
                Err(no_token())
            } else {
                term_rest(ts, p2, SExpr::Binary(Box::new(lhs), ts[p], Box::new(rhs)))
            },
            Err(e) => Err(e),
        }
    } else {
        Ok((lhs, p))
    }),
{
}

/// term → factor (("-" | "+" | "%") factor)*, left-associative
pub closed spec fn term(ts: Seq<Token>, p: int) -> Result<(SExpr, int), ParseError>
    decreases ts.len() - p, 61int,
{
    match factor(ts, p) {
        Ok((lhs, p1)) => if !moved(ts, p, p1, false) { Err(no_token()) } else { term_rest(ts, p1, lhs) },
        Err(e) => Err(e),
    }
}

pub proof fn unfold_term(ts: Seq<Token>, p: int)
    ensures
        term(ts, p) == (match factor(ts, p) {
        Ok((lhs, p1)) => if !moved(ts, p, p1, false) { Err(no_token()) } else { term_rest(ts, p1, lhs) },
        Err(e) => Err(e),
    }),
{
}

/// The operators and operands of factor from `p` on, folded to the left onto `lhs`.
pub closed spec fn factor_rest(ts: Seq<Token>, p: int, lhs: SExpr) -> Result<(SExpr, int), ParseError>
    decreases ts.len() - p, 50int,
{
    if p < 0 || p >= ts.len() {
        Err(no_token())
    } else if checks(ts, p, TokenType::SLASH) || checks(ts, p, TokenType::STAR) {
        match unary(ts, p + 1) {
            Ok((rhs, p2)) => if !moved(ts, p, p2, true) {
                Err(no_token())
            } else {
                factor_rest(ts, p2, SExpr::Binary(Box::new(lhs), ts[p], Box::new(rhs)))
            },
            Err(e) => Err(e),
        }
    } else {
        Ok((lhs, p))
    }
}

pub proof fn unfold_factor_rest(ts: Seq<Token>, p: int, lhs: SExpr)
    ensures
        factor_rest(ts, p, lhs) == (if p < 0 || p >= ts.len() {
        Err(no_token())
    } else if checks(ts, p, TokenType::SLASH) || checks(ts, p, TokenType::STAR) {
        match unary(ts, p + 1) {
            Ok((rhs, p2)) => if !moved(ts, p, p2, true) {
                Err(no_token())
            } else {
                factor_rest(ts, p2, SExpr::Binary(Box::new(lhs), ts[p], Box::new(rhs)))
            },
            Err(e) => Err(e),
        }
    } else {
        Ok((lhs, p))
    }),
{
}

/// factor → unary (("/" | "*") unary)*, left-associative
pub closed spec fn factor(ts: Seq<Token>, p: int) -> Result<(SExpr, int), ParseError>
    decreases ts.len() - p, 51int,
{
    match unary(ts, p) {
        Ok((lhs, p1)) => if !moved(ts, p, p1, false) { Err(no_token()) } else { factor_rest(ts, p1, lhs) },
        Err(e) => Err(e),
    }
}

pub proof fn unfold_factor(ts: Seq<Token>, p: int)
    ensures
        factor(ts, p) == (match unary(ts, p) {
        Ok((lhs, p1)) => if !moved(ts, p, p1, false) { Err(no_token()) } else { factor_rest(ts, p1, lhs) },
        Err(e) => Err(e),
    }),
{
}

/// unary → ("!" | "-") unary | call
pub closed spec fn unary(ts: Seq<Token>, p: int) -> Result<(SExpr, int), ParseError>
    decreases ts.len() - p, 40int,
{
    if checks(ts, p, TokenType::NOT) || checks(ts, p, TokenType::MINUS) {
        match unary(ts, p + 1) {
            Ok((rhs, p2)) => Ok((SExpr::Unary(ts[p], Box::new(rhs)), p2)),
            Err(e) => Err(e),
        }
    } else {
        call(ts, p)
    }
}

pub proof fn unfold_unary(ts: Seq<Token>, p: int)
    ensures
        unary(ts, p) == (if checks(ts, p, TokenType::NOT) || checks(ts, p, TokenType::MINUS) {
        match unary(ts, p + 1) {
            Ok((rhs, p2)) => Ok((SExpr::Unary(ts[p], Box::new(rhs)), p2)),
            Err(e) => Err(e),
        }
    } else {
        call(ts, p)
    }),
{
}

/// call → primary ("(" arguments? ")" | "." IDENTIFIER)*
pub closed spec fn call(ts: Seq<Token>, p: int) -> Result<(SExpr, int), ParseError>
    decreases ts.len() - p, 31int,
{
    match primary(ts, p) {
        Ok((e, p1)) => if !moved(ts, p, p1, false) { Err(no_token()) } else { call_rest(ts, p1, e) },
        Err(e) => Err(e),
    }
}

pub proof fn unfold_call(ts: Seq<Token>, p: int)
    ensures
        call(ts, p) == (match primary(ts, p) {
        Ok((e, p1)) => if !moved(ts, p, p1, false) { Err(no_token()) } else { call_rest(ts, p1, e) },
        Err(e) => Err(e),
    }),
{
}

/// The calls and property reads that follow `e`, from `p` on.
pub closed spec fn call_rest(ts: Seq<Token>, p: int, e: SExpr) -> Result<(SExpr, int), ParseError>
    decreases ts.len() - p, 30int,
{
    if p < 0 || p >= ts.len() {
        Err(no_token())
    } else if checks(ts, p, TokenType::LPAREN) {
        match finish_call(ts, p + 1, e) {
            Ok((c, p2)) => if !moved(ts, p, p2, true) { Err(no_token()) } else { call_rest(ts, p2, c) },
            Err(x) => Err(x),
        }
    } else if checks(ts, p, TokenType::DOT) {
        match expect(ts, p + 1, TokenType::IDENTIFIER) {
            Ok(p2) => call_rest(ts, p2, SExpr::Get(Box::new(e), ts[p + 1].lexeme@)),
            Err(x) => Err(x),
        }
    } else {
        Ok((e, p))
    }
}

pub proof fn unfold_call_rest(ts: Seq<Token>, p: int, e: SExpr)
    ensures
        call_rest(ts, p, e) == (if p < 0 || p >= ts.len() {
        Err(no_token())
    } else if checks(ts, p, TokenType::LPAREN) {
        match finish_call(ts, p + 1, e) {
            Ok((c, p2)) => if !moved(ts, p, p2, true) { Err(no_token()) } else { call_rest(ts, p2, c) },
            Err(x) => Err(x),
        }
    } else if checks(ts, p, TokenType::DOT) {
        match expect(ts, p + 1, TokenType::IDENTIFIER) {
            Ok(p2) => call_rest(ts, p2, SExpr::Get(Box::new(e), ts[p + 1].lexeme@)),
            Err(x) => Err(x),
        }
    } else {
        Ok((e, p))
    }),
{
}

/// The arguments of a call from `p` (after its "(") and its ")": the call node, or an error
/// for more than the maximum number of arguments at the ")".
pub closed spec fn finish_call(ts: Seq<Token>, p: int, callee: SExpr) -> Result<(SExpr, int), ParseError>
    decreases ts.len() - p, 130int,
{
    if checks(ts, p, TokenType::RPAREN) {
        call_node(ts, p, callee, Seq::empty())
    } else {
        match expression(ts, p) {
            Ok((a, p1)) => if !moved(ts, p, p1, true) { Err(no_token()) } else { arguments_rest(ts, p1, callee, seq![a]) },
            Err(x) => Err(x),
        }
    }
}

pub proof fn unfold_finish_call(ts: Seq<Token>, p: int, callee: SExpr)
    ensures
        finish_call(ts, p, callee) == (if checks(ts, p, TokenType::RPAREN) {
        call_node(ts, p, callee, Seq::empty())
    } else {
        match expression(ts, p) {
            Ok((a, p1)) => if !moved(ts, p, p1, true) { Err(no_token()) } else { arguments_rest(ts, p1, callee, seq![a]) },
            Err(x) => Err(x),
        }
    }),
{
}

/// The arguments after the first, each preceded by ",", then the ")".
pub closed spec fn arguments_rest(ts: Seq<Token>, p: int, callee: SExpr, acc: Seq<SExpr>) -> Result<(SExpr, int), ParseError>
    decreases ts.len() - p, 125int,
{
    if p < 0 || p >= ts.len() {
        Err(no_token())
    } else if checks(ts, p, TokenType::COMMA) {
        match expression(ts, p + 1) {
            Ok((a, p2)) => if !moved(ts, p, p2, true) { Err(no_token()) } else { arguments_rest(ts, p2, callee, acc.push(a)) },
            Err(x) => Err(x),
        }
    } else {
        match expect(ts, p, TokenType::RPAREN) {
            Ok(_) => call_node(ts, p, callee, acc),
            Err(x) => Err(x),
        }
    }
}

pub proof fn unfold_arguments_rest(ts: Seq<Token>, p: int, callee: SExpr, acc: Seq<SExpr>)
    ensures
        arguments_rest(ts, p, callee, acc) == (if p < 0 || p >= ts.len() {
        Err(no_token())
    } else if checks(ts, p, TokenType::COMMA) {
        match expression(ts, p + 1) {
            Ok((a, p2)) => if !moved(ts, p, p2, true) { Err(no_token()) } else { arguments_rest(ts, p2, callee, acc.push(a)) },
            Err(x) => Err(x),
        }
    } else {
        match expect(ts, p, TokenType::RPAREN) {
            Ok(_) => call_node(ts, p, callee, acc),
            Err(x) => Err(x),
        }
    }),
{
}

/// primary → NUMBER | STRING | "true" | "false" | "nil" | IDENTIFIER | "(" expression ")"
///         | "{" (IDENTIFIER ":" expression ("," IDENTIFIER ":" expression)*)? "}"
pub closed spec fn primary(ts: Seq<Token>, p: int) -> Result<(SExpr, int), ParseError>
    decreases ts.len() - p, 10int,
{
    if checks(ts, p, TokenType::FALSE) {
        Ok((SExpr::Literal(VariTypes::Boolean(false)), p + 1))
    } else if checks(ts, p, TokenType::TRUE) {
        Ok((SExpr::Literal(VariTypes::Boolean(true)), p + 1))
    } else if checks(ts, p, TokenType::NIL) {
        Ok((SExpr::Literal(VariTypes::Nil), p + 1))
    } else if checks(ts, p, TokenType::NUMBER) || checks(ts, p, TokenType::STRING) {
        Ok((literal_of(ts[p]), p + 1))
    } else if checks(ts, p, TokenType::IDENTIFIER) {
        Ok((SExpr::Variable(ts[p]), p + 1))
    } else if checks(ts, p, TokenType::LPAREN) {
        match expression(ts, p + 1) {
            Ok((e, p1)) => match expect(ts, p1, TokenType::RPAREN) {
                Ok(p2) => Ok((SExpr::Grouping(Box::new(e)), p2)),
                Err(x) => Err(x),
            },
            Err(x) => Err(x),
        }
    } else if checks(ts, p, TokenType::LBRACE) {
        if checks(ts, p + 1, TokenType::RBRACE) {
            Ok((SExpr::Struct(Seq::empty()), p + 2))
        } else {
            fields(ts, p + 1, Seq::empty())
        }
    } else {
        Err(error_at(ts, p, ParseErrorKind::ExpectedExpression))
    }
}

pub proof fn unfold_primary(ts: Seq<Token>, p: int)
    ensures
        primary(ts, p) == (if checks(ts, p, TokenType::FALSE) {
        Ok((SExpr::Literal(VariTypes::Boolean(false)), p + 1))
    } else if checks(ts, p, TokenType::TRUE) {
        Ok((SExpr::Literal(VariTypes::Boolean(true)), p + 1))
    } else if checks(ts, p, TokenType::NIL) {
        Ok((SExpr::Literal(VariTypes::Nil), p + 1))
    } else if checks(ts, p, TokenType::NUMBER) || checks(ts, p, TokenType::STRING) {
        Ok((literal_of(ts[p]), p + 1))
    } else if checks(ts, p, TokenType::IDENTIFIER) {
        Ok((SExpr::Variable(ts[p]), p + 1))
    } else if checks(ts, p, TokenType::LPAREN) {
        match expression(ts, p + 1) {
            Ok((e, p1)) => match expect(ts, p1, TokenType::RPAREN) {
                Ok(p2) => Ok((SExpr::Grouping(Box::new(e)), p2)),
                Err(x) => Err(x),
            },
            Err(x) => Err(x),
        }
    } else if checks(ts, p, TokenType::LBRACE) {
        if checks(ts, p + 1, TokenType::RBRACE) {
            Ok((SExpr::Struct(Seq::empty()), p + 2))
        } else {
            fields(ts, p + 1, Seq::empty())
        }
    } else {
        Err(error_at(ts, p, ParseErrorKind::ExpectedExpression))
    }),
{
}

/// The fields of a struct literal from `p` on and its closing "}".
pub closed spec fn fields(ts: Seq<Token>, p: int, acc: Seq<(Seq<char>, SExpr)>) -> Result<(SExpr, int), ParseError>
    decreases ts.len() - p, 15int,
{
    if p < 0 || p >= ts.len() {
        Err(no_token())
    } else {
        match expect(ts, p, TokenType::IDENTIFIER) {
            Ok(p1) => match expect(ts, p1, TokenType::COLON) {
                Ok(p2) => match expression(ts, p2) {
                    Ok((e, p3)) => if !moved(ts, p, p3, true) {
                        Err(no_token())
                    } else if checks(ts, p3, TokenType::COMMA) {
                        fields(ts, p3 + 1, acc.push((ts[p].lexeme@, e)))
                    } else {
                        match expect(ts, p3, TokenType::RBRACE) {
                            Ok(p4) => Ok((SExpr::Struct(acc.push((ts[p].lexeme@, e))), p4)),
                            Err(x) => Err(x),
                        }
                    },
                    Err(x) => Err(x),
                },
                Err(x) => Err(x),
            },
            Err(x) => Err(x),
        }
    }
}

pub proof fn unfold_fields(ts: Seq<Token>, p: int, acc: Seq<(Seq<char>, SExpr)>)
    ensures
        fields(ts, p, acc) == (if p < 0 || p >= ts.len() {
        Err(no_token())
    } else {
        match expect(ts, p, TokenType::IDENTIFIER) {
            Ok(p1) => match expect(ts, p1, TokenType::COLON) {
                Ok(p2) => match expression(ts, p2) {
                    Ok((e, p3)) => if !moved(ts, p, p3, true) {
                        Err(no_token())
                    } else if checks(ts, p3, TokenType::COMMA) {
                        fields(ts, p3 + 1, acc.push((ts[p].lexeme@, e)))
                    } else {
                        match expect(ts, p3, TokenType::RBRACE) {
                            Ok(p4) => Ok((SExpr::Struct(acc.push((ts[p].lexeme@, e))), p4)),
                            Err(x) => Err(x),
                        }
                    },
                    Err(x) => Err(x),
                },
                Err(x) => Err(x),
            },
            Err(x) => Err(x),
        }
    }),
{
}

/// declaration → funDecl | varDecl | structDecl | statement; `struct` declares as `let` does.
pub closed spec fn declaration(ts: Seq<Token>, p: int) -> Result<(SStmt, int), ParseError>
    decreases ts.len() - p, 30int,
{
    if checks(ts, p, TokenType::FUN) {
        fun_decl(ts, p + 1)
    } else if checks(ts, p, TokenType::LET) || checks(ts, p, TokenType::STRUCT) {
        var_decl(ts, p + 1)
    } else {
        statement(ts, p)
    }
}

pub proof fn unfold_declaration(ts: Seq<Token>, p: int)
    ensures
        declaration(ts, p) == (if checks(ts, p, TokenType::FUN) {
        fun_decl(ts, p + 1)
    } else if checks(ts, p, TokenType::LET) || checks(ts, p, TokenType::STRUCT) {
        var_decl(ts, p + 1)
    } else {
        statement(ts, p)
    }),
{
}

/// statement → printStmt | returnStmt | block | whileStmt | forStmt | ifStmt | exprStmt,
/// chosen by the leading token.
pub closed spec fn statement(ts: Seq<Token>, p: int) -> Result<(SStmt, int), ParseError>
    decreases ts.len() - p, 29int,
{
    if checks(ts, p, TokenType::PRINT) {
        match expression(ts, p + 1) {
            Ok((e, p1)) => match expect(ts, p1, TokenType::SEMICOLON) {
                Ok(p2) => Ok((SStmt::Print(e), p2)),
                Err(x) => Err(x),
            },
            Err(x) => Err(x),
        }
    } else if checks(ts, p, TokenType::RETURN) {
        return_stmt(ts, p + 1)
    } else if checks(ts, p, TokenType::LBRACE) {
        match block(ts, p + 1, Seq::empty()) {
            Ok((b, p1)) => Ok((SStmt::Block(b), p1)),
            Err(x) => Err(x),
        }
    } else if checks(ts, p, TokenType::WHILE) {
        while_stmt(ts, p + 1)
    } else if checks(ts, p, TokenType::FOR) {
        for_stmt(ts, p + 1)
    } else if checks(ts, p, TokenType::IF) {
        if_stmt(ts, p + 1)
    } else {
        expr_stmt(ts, p)
    }
}

pub proof fn unfold_statement(ts: Seq<Token>, p: int)
    ensures
        statement(ts, p) == (if checks(ts, p, TokenType::PRINT) {
        match expression(ts, p + 1) {
            Ok((e, p1)) => match expect(ts, p1, TokenType::SEMICOLON) {
                Ok(p2) => Ok((SStmt::Print(e), p2)),
                Err(x) => Err(x),
            },
            Err(x) => Err(x),
        }
    } else if checks(ts, p, TokenType::RETURN) {
        return_stmt(ts, p + 1)
    } else if checks(ts, p, TokenType::LBRACE) {
        match block(ts, p + 1, Seq::empty()) {
            Ok((b, p1)) => Ok((SStmt::Block(b), p1)),
            Err(x) => Err(x),
        }
    } else if checks(ts, p, TokenType::WHILE) {
        while_stmt(ts, p + 1)
    } else if checks(ts, p, TokenType::FOR) {
        for_stmt(ts, p + 1)
    } else if checks(ts, p, TokenType::IF) {
        if_stmt(ts, p + 1)
    } else {
        expr_stmt(ts, p)
    }),
{
}

/// exprStmt → expression ";"
pub closed spec fn expr_stmt(ts: Seq<Token>, p: int) -> Result<(SStmt, int), ParseError>
    decreases ts.len() - p, 25int,
{
    match expression(ts, p) {
        Ok((e, p1)) => match expect(ts, p1, TokenType::SEMICOLON) {
            Ok(p2) => Ok((SStmt::Expression(e), p2)),
            Err(x) => Err(x),
        },
        Err(x) => Err(x),
    }
}

pub proof fn unfold_expr_stmt(ts: Seq<Token>, p: int)
    ensures
        expr_stmt(ts, p) == (match expression(ts, p) {
        Ok((e, p1)) => match expect(ts, p1, TokenType::SEMICOLON) {
            Ok(p2) => Ok((SStmt::Expression(e), p2)),
            Err(x) => Err(x),
        },
        Err(x) => Err(x),
    }),
{
}

/// returnStmt → "return" expression? ";" from after the keyword; a missing value is `nil`.
pub closed spec fn return_stmt(ts: Seq<Token>, p: int) -> Result<(SStmt, int), ParseError>
    decreases ts.len() - p, 25int,
{
    if checks(ts, p, TokenType::SEMICOLON) {
        Ok((SStmt::Return(ts[p - 1], SExpr::Literal(VariTypes::Nil)), p + 1))
    } else {
        match expression(ts, p) {
            Ok((e, p1)) => match expect(ts, p1, TokenType::SEMICOLON) {
                Ok(p2) => Ok((SStmt::Return(ts[p - 1], e), p2)),
                Err(x) => Err(x),
            },
            Err(x) => Err(x),
        }
    }
}

pub proof fn unfold_return_stmt(ts: Seq<Token>, p: int)
    ensures
        return_stmt(ts, p) == (if checks(ts, p, TokenType::SEMICOLON) {
        Ok((SStmt::Return(ts[p - 1], SExpr::Literal(VariTypes::Nil)), p + 1))
    } else {
        match expression(ts, p) {
            Ok((e, p1)) => match expect(ts, p1, TokenType::SEMICOLON) {
                Ok(p2) => Ok((SStmt::Return(ts[p - 1], e), p2)),
                Err(x) => Err(x),
            },
            Err(x) => Err(x),
        }
    }),
{
}

/// varDecl → "let" IDENTIFIER ("=" expression)? ";" from after the keyword.
pub closed spec fn var_decl(ts: Seq<Token>, p: int) -> Result<(SStmt, int), ParseError>
    decreases ts.len() - p, 25int,
{
    match expect(ts, p, TokenType::IDENTIFIER) {
        Ok(p1) => if checks(ts, p1, TokenType::EQUAL) {
            match expression(ts, p1 + 1) {
                Ok((e, p2)) => match expect(ts, p2, TokenType::SEMICOLON) {
                    Ok(p3) => Ok((SStmt::Var(ts[p], Some(e)), p3)),
                    Err(x) => Err(x),
                },
                Err(x) => Err(x),
            }
        } else {
            match expect(ts, p1, TokenType::SEMICOLON) {
                Ok(p3) => Ok((SStmt::Var(ts[p], None), p3)),
                Err(x) => Err(x),
            }
        },
        Err(x) => Err(x),
    }
}

pub proof fn unfold_var_decl(ts: Seq<Token>, p: int)
    ensures
        var_decl(ts, p) == (match expect(ts, p, TokenType::IDENTIFIER) {
        Ok(p1) => if checks(ts, p1, TokenType::EQUAL) {
            match expression(ts, p1 + 1) {
                Ok((e, p2)) => match expect(ts, p2, TokenType::SEMICOLON) {
                    Ok(p3) => Ok((SStmt::Var(ts[p], Some(e)), p3)),
                    Err(x) => Err(x),
                },
                Err(x) => Err(x),
            }
        } else {
            match expect(ts, p1, TokenType::SEMICOLON) {
                Ok(p3) => Ok((SStmt::Var(ts[p], None), p3)),
                Err(x) => Err(x),
            }
        },
        Err(x) => Err(x),
    }),
{
}

/// whileStmt → "while" "(" expression ")" statement from after the keyword.
pub closed spec fn while_stmt(ts: Seq<Token>, p: int) -> Result<(SStmt, int), ParseError>
    decreases ts.len() - p, 28int,
{
    match expect(ts, p, TokenType::LPAREN) {
        Ok(p1) => match expression(ts, p1) {
            Ok((c, p2)) => if !moved(ts, p, p2, true) { Err(no_token()) } else { match expect(ts, p2, TokenType::RPAREN) {
                Ok(p3) => match statement(ts, p3) {
                    Ok((b, p4)) => Ok((SStmt::While(c, Box::new(b)), p4)),
                    Err(x) => Err(x),
                },
                Err(x) => Err(x),
            } },
            Err(x) => Err(x),
        },
        Err(x) => Err(x),
    }
}

pub proof fn unfold_while_stmt(ts: Seq<Token>, p: int)
    ensures
        while_stmt(ts, p) == (match expect(ts, p, TokenType::LPAREN) {
        Ok(p1) => match expression(ts, p1) {
            Ok((c, p2)) => if !moved(ts, p, p2, true) { Err(no_token()) } else { match expect(ts, p2, TokenType::RPAREN) {
                Ok(p3) => match statement(ts, p3) {
                    Ok((b, p4)) => Ok((SStmt::While(c, Box::new(b)), p4)),
                    Err(x) => Err(x),
                },
                Err(x) => Err(x),
            } },
            Err(x) => Err(x),
        },
        Err(x) => Err(x),
    }),
{
}

/// ifStmt → "if" "(" expression ")" statement ("else" statement)? from after the keyword.
pub closed spec fn if_stmt(ts: Seq<Token>, p: int) -> Result<(SStmt, int), ParseError>
    decreases ts.len() - p, 28int,
{
    match expect(ts, p, TokenType::LPAREN) {
        Ok(p1) => match expression(ts, p1) {
            Ok((c, p2)) => if !moved(ts, p, p2, true) { Err(no_token()) } else { match expect(ts, p2, TokenType::RPAREN) {
                Ok(p3) => match statement(ts, p3) {
                    Ok((t, p4)) => if !moved(ts, p, p4, true) {
                        Err(no_token())
                    } else if checks(ts, p4, TokenType::ELSE) {
                        match statement(ts, p4 + 1) {
                            Ok((e, p5)) => Ok((SStmt::If(c, Box::new(t), Some(Box::new(e))), p5)),
                            Err(x) => Err(x),
                        }
                    } else {
                        Ok((SStmt::If(c, Box::new(t), None), p4))
                    },
                    Err(x) => Err(x),
                },
                Err(x) => Err(x),
            } },
            Err(x) => Err(x),
        },
        Err(x) => Err(x),
    }
}

pub proof fn unfold_if_stmt(ts: Seq<Token>, p: int)
    ensures
        if_stmt(ts, p) == (match expect(ts, p, TokenType::LPAREN) {
        Ok(p1) => match expression(ts, p1) {
            Ok((c, p2)) => if !moved(ts, p, p2, true) { Err(no_token()) } else { match expect(ts, p2, TokenType::RPAREN) {
                Ok(p3) => match statement(ts, p3) {
                    Ok((t, p4)) => if !moved(ts, p, p4, true) {
                        Err(no_token())
                    } else if checks(ts, p4, TokenType::ELSE) {
                        match statement(ts, p4 + 1) {
                            Ok((e, p5)) => Ok((SStmt::If(c, Box::new(t), Some(Box::new(e))), p5)),
                            Err(x) => Err(x),
                        }
                    } else {
                        Ok((SStmt::If(c, Box::new(t), None), p4))
                    },
                    Err(x) => Err(x),
                },
                Err(x) => Err(x),
            } },
            Err(x) => Err(x),
        },
        Err(x) => Err(x),
    }),
{
}

/// The initializer of a `for`: nothing (a no-op), a `let`, or an expression statement.
pub closed spec fn for_init(ts: Seq<Token>, p: int) -> Result<(SStmt, int), ParseError>
    decreases ts.len() - p, 27int,
{
    if checks(ts, p, TokenType::SEMICOLON) {
        Ok((SStmt::Expression(SExpr::Literal(VariTypes::Nil)), p + 1))
    } else if checks(ts, p, TokenType::LET) {
        var_decl(ts, p + 1)
    } else {
        expr_stmt(ts, p)
    }
}

pub proof fn unfold_for_init(ts: Seq<Token>, p: int)
    ensures
        for_init(ts, p) == (if checks(ts, p, TokenType::SEMICOLON) {
        Ok((SStmt::Expression(SExpr::Literal(VariTypes::Nil)), p + 1))
    } else if checks(ts, p, TokenType::LET) {
        var_decl(ts, p + 1)
    } else {
        expr_stmt(ts, p)
    }),
{
}

/// The optional condition of a `for` and its ";".
pub closed spec fn for_cond(ts: Seq<Token>, p: int) -> Result<(Option<SExpr>, int), ParseError>
    decreases ts.len() - p, 26int,
{
    if checks(ts, p, TokenType::SEMICOLON) {
        Ok((None, p + 1))
    } else {
        match expression(ts, p) {
            Ok((c, p1)) => match expect(ts, p1, TokenType::SEMICOLON) {
                Ok(p2) => Ok((Some(c), p2)),
                Err(x) => Err(x),
            },
            Err(x) => Err(x),
        }
    }
}

pub proof fn unfold_for_cond(ts: Seq<Token>, p: int)
    ensures
        for_cond(ts, p) == (if checks(ts, p, TokenType::SEMICOLON) {
        Ok((None, p + 1))
    } else {
        match expression(ts, p) {
            Ok((c, p1)) => match expect(ts, p1, TokenType::SEMICOLON) {
                Ok(p2) => Ok((Some(c), p2)),
                Err(x) => Err(x),
            },
            Err(x) => Err(x),
        }
    }),
{
}

/// The optional step of a `for` and its ")".
pub closed spec fn for_step(ts: Seq<Token>, p: int) -> Result<(Option<SExpr>, int), ParseError>
    decreases ts.len() - p, 26int,
{
    if checks(ts, p, TokenType::RPAREN) {
        Ok((None, p + 1))
    } else {
        match expression(ts, p) {
            Ok((c, p1)) => match expect(ts, p1, TokenType::RPAREN) {
                Ok(p2) => Ok((Some(c), p2)),
                Err(x) => Err(x),
            },
            Err(x) => Err(x),
        }
    }
}

pub proof fn unfold_for_step(ts: Seq<Token>, p: int)
    ensures
        for_step(ts, p) == (if checks(ts, p, TokenType::RPAREN) {
        Ok((None, p + 1))
    } else {
        match expression(ts, p) {
            Ok((c, p1)) => match expect(ts, p1, TokenType::RPAREN) {
                Ok(p2) => Ok((Some(c), p2)),
                Err(x) => Err(x),
            },
            Err(x) => Err(x),
        }
    }),
{
}

/// forStmt → "for" "(" (varDecl | exprStmt | ";") expression? ";" expression? ")" statement
/// from after the keyword, desugared by `for_tree`.
pub closed spec fn for_stmt(ts: Seq<Token>, p: int) -> Result<(SStmt, int), ParseError>
    decreases ts.len() - p, 28int,
{
    match expect(ts, p, TokenType::LPAREN) {
        Ok(p1) => match for_init(ts, p1) {
            Ok((init, p2)) => if !moved(ts, p, p2, true) {
                Err(no_token())
            } else {
                match for_cond(ts, p2) {
                    Ok((cond, p3)) => if !moved(ts, p, p3, true) {
                        Err(no_token())
                    } else {
                        match for_step(ts, p3) {
                            Ok((step, p4)) => if !moved(ts, p, p4, true) {
                                Err(no_token())
                            } else {
                                match statement(ts, p4) {
                                    Ok((body, p5)) => Ok((for_tree(init, cond, step, body), p5)),
                                    Err(x) => Err(x),
                                }
                            },
                            Err(x) => Err(x),
                        }
                    },
                    Err(x) => Err(x),
                }
            },
            Err(x) => Err(x),
        },
        Err(x) => Err(x),
    }
}

pub proof fn unfold_for_stmt(ts: Seq<Token>, p: int)
    ensures
        for_stmt(ts, p) == (match expect(ts, p, TokenType::LPAREN) {
        Ok(p1) => match for_init(ts, p1) {
            Ok((init, p2)) => if !moved(ts, p, p2, true) {
                Err(no_token())
            } else {
                match for_cond(ts, p2) {
                    Ok((cond, p3)) => if !moved(ts, p, p3, true) {
                        Err(no_token())
                    } else {
                        match for_step(ts, p3) {
                            Ok((step, p4)) => if !moved(ts, p, p4, true) {
                                Err(no_token())
                            } else {
                                match statement(ts, p4) {
                                    Ok((body, p5)) => Ok((for_tree(init, cond, step, body), p5)),
                                    Err(x) => Err(x),
                                }
                            },
                            Err(x) => Err(x),
                        }
                    },
                    Err(x) => Err(x),
                }
            },
            Err(x) => Err(x),
        },
        Err(x) => Err(x),
    }),
{
}

/// The parameters after the first, each preceded by ",", then the ")".
pub closed spec fn params(ts: Seq<Token>, p: int, acc: Seq<Token>) -> Result<(Seq<Token>, int), ParseError>
    decreases ts.len() - p, 24int,
{
    if p < 0 || p >= ts.len() {
        Err(no_token())
    } else if checks(ts, p, TokenType::COMMA) {
        match expect(ts, p + 1, TokenType::IDENTIFIER) {
            Ok(p2) => params(ts, p2, acc.push(ts[p + 1])),
            Err(x) => Err(x),
        }
    } else {
        match expect(ts, p, TokenType::RPAREN) {
            Ok(p2) => Ok((acc, p2)),
            Err(x) => Err(x),
        }
    }
}

pub proof fn unfold_params(ts: Seq<Token>, p: int, acc: Seq<Token>)
    ensures
        params(ts, p, acc) == (if p < 0 || p >= ts.len() {
        Err(no_token())
    } else if checks(ts, p, TokenType::COMMA) {
        match expect(ts, p + 1, TokenType::IDENTIFIER) {
            Ok(p2) => params(ts, p2, acc.push(ts[p + 1])),
            Err(x) => Err(x),
        }
    } else {
        match expect(ts, p, TokenType::RPAREN) {
            Ok(p2) => Ok((acc, p2)),
            Err(x) => Err(x),
        }
    }),
{
}

/// funDecl → "fun" IDENTIFIER "(" parameters? ")" block from after the keyword.
pub closed spec fn fun_decl(ts: Seq<Token>, p: int) -> Result<(SStmt, int), ParseError>
    decreases ts.len() - p, 31int,
{
    match expect(ts, p, TokenType::IDENTIFIER) {
        Ok(p1) => match expect(ts, p1, TokenType::LPAREN) {
            Ok(p2) => match (if checks(ts, p2, TokenType::RPAREN) {
                Ok((Seq::<Token>::empty(), p2 + 1))
            } else {
                match expect(ts, p2, TokenType::IDENTIFIER) {
                    Ok(p3) => params(ts, p3, seq![ts[p2]]),
                    Err(x) => Err(x),
                }
            }) {
                Ok((ps, p4)) => if !moved(ts, p, p4, true) {
                    Err(no_token())
                } else {
                    match expect(ts, p4, TokenType::LBRACE) {
                        Ok(p5) => match block(ts, p5, Seq::empty()) {
                            Ok((body, p6)) => Ok((SStmt::Function(ts[p], ps, body), p6)),
                            Err(x) => Err(x),
                        },
                        Err(x) => Err(x),
                    }
                },
                Err(x) => Err(x),
            },
            Err(x) => Err(x),
        },
        Err(x) => Err(x),
    }
}

pub proof fn unfold_fun_decl(ts: Seq<Token>, p: int)
    ensures
        fun_decl(ts, p) == (match expect(ts, p, TokenType::IDENTIFIER) {
        Ok(p1) => match expect(ts, p1, TokenType::LPAREN) {
            Ok(p2) => match (if checks(ts, p2, TokenType::RPAREN) {
                Ok((Seq::<Token>::empty(), p2 + 1))
            } else {
                match expect(ts, p2, TokenType::IDENTIFIER) {
                    Ok(p3) => params(ts, p3, seq![ts[p2]]),
                    Err(x) => Err(x),
                }
            }) {
                Ok((ps, p4)) => if !moved(ts, p, p4, true) {
                    Err(no_token())
                } else {
                    match expect(ts, p4, TokenType::LBRACE) {
                        Ok(p5) => match block(ts, p5, Seq::empty()) {
                            Ok((body, p6)) => Ok((SStmt::Function(ts[p], ps, body), p6)),
                            Err(x) => Err(x),
                        },
                        Err(x) => Err(x),
                    }
                },
                Err(x) => Err(x),
            },
            Err(x) => Err(x),
        },
        Err(x) => Err(x),
    }),
{
}

/// block → "{" declaration* "}" from after the "{", with `acc` the statements read so far.
pub closed spec fn block(ts: Seq<Token>, p: int, acc: Seq<SStmt>) -> Result<(Seq<SStmt>, int), ParseError>
    decreases ts.len() - p, 40int,
{
    if p < 0 || p >= ts.len() {
        Err(no_token())
    } else if checks(ts, p, TokenType::RBRACE) || at_end(ts, p) {
        match expect(ts, p, TokenType::RBRACE) {
            Ok(p1) => Ok((acc, p1)),
            Err(x) => Err(x),
        }
    } else {
        match declaration(ts, p) {
            Ok((s, p1)) => if !moved(ts, p, p1, true) { Err(no_token()) } else { block(ts, p1, acc.push(s)) },
            Err(x) => Err(x),
        }
    }
}

pub proof fn unfold_block(ts: Seq<Token>, p: int, acc: Seq<SStmt>)
    ensures
        block(ts, p, acc) == (if p < 0 || p >= ts.len() {
        Err(no_token())
    } else if checks(ts, p, TokenType::RBRACE) || at_end(ts, p) {
        match expect(ts, p, TokenType::RBRACE) {
            Ok(p1) => Ok((acc, p1)),
            Err(x) => Err(x),
        }
    } else {
        match declaration(ts, p) {
            Ok((s, p1)) => if !moved(ts, p, p1, true) { Err(no_token()) } else { block(ts, p1, acc.push(s)) },
            Err(x) => Err(x),
        }
    }),
{
}

/// program → declaration* EOF from `p`, with `acc` the statements read so far.
pub closed spec fn program(ts: Seq<Token>, p: int, acc: Seq<SStmt>) -> Result<Seq<SStmt>, ParseError>
    decreases ts.len() - p, 50int,
{
    if p < 0 || p >= ts.len() {
        Err(no_token())
    } else if at_end(ts, p) {
        Ok(acc)
    } else {
        match declaration(ts, p) {
            Ok((s, p1)) => if !moved(ts, p, p1, true) { Err(no_token()) } else { program(ts, p1, acc.push(s)) },
            Err(x) => Err(x),
        }
    }
}

pub proof fn unfold_program(ts: Seq<Token>, p: int, acc: Seq<SStmt>)
    ensures
        program(ts, p, acc) == (if p < 0 || p >= ts.len() {
        Err(no_token())
    } else if at_end(ts, p) {
        Ok(acc)
    } else {
        match declaration(ts, p) {
            Ok((s, p1)) => if !moved(ts, p, p1, true) { Err(no_token()) } else { program(ts, p1, acc.push(s)) },
            Err(x) => Err(x),
        }
    }),
{
}

/// The statements of a whole token sequence, or its first parse error.
pub open spec fn parse_tokens(ts: Seq<Token>) -> Result<Seq<SStmt>, ParseError> {
    program(ts, 0, Seq::empty())
}

/// Parsing is deterministic: equal token sequences give equal trees, or the same error.
pub proof fn lemma_parse_deterministic(t1: Seq<Token>, t2: Seq<Token>)
    requires
        t1 == t2,
    ensures
        parse_tokens(t1) == parse_tokens(t2),
{
}

} // verus!
