use vstd::prelude::*;
use std::rc::Rc;
use crate::expr::Expr;
use crate::stmt::{FunctionDecl, Stmt};
use crate::token::{Token, TokenType};
use crate::vari::VariTypes;
use crate::syntax;
use crate::syntax::{field_views, opt_outcome, outcome, stmt_outcome, stmts_outcome, view_expr, view_stmt, view_stmts, views, SExpr, SStmt};

verus! {

/// What a parse error is about.
#[derive(PartialEq, Eq, Structural, Clone, Copy, Debug)]
pub enum ParseErrorKind {
    /// a token of this kind was expected next
    Expected(TokenType),
    ExpectedExpression,
    InvalidAssignmentTarget,
    TooManyArguments,
}

/// A parse error and the line of the token at which it was found.
#[derive(PartialEq, Eq, Structural, Clone, Copy, Debug)]
pub struct ParseError {
    pub kind: ParseErrorKind,
    pub line: usize,
}

/// The most arguments a call may pass.
pub const MAX_ARGS: usize = 255;

/// A recursive-descent parser over a token sequence that ends with an end-of-file token.
pub struct Parser {
    pub tokens: Vec<Token>,
    pub current: usize,
}

pub open spec fn ends_with_eof(ts: Seq<Token>) -> bool {
    ts.len() > 0 && ts.last().token_type == TokenType::EOF
}

/// `after` is `before` with the position moved forward (or kept), the tokens unchanged.
pub open spec fn moved_on(before: Parser, after: Parser) -> bool {
    &&& after.tokens == before.tokens
    &&& after.wf()
    &&& before.current <= after.current
}

impl Parser {
    pub open spec fn wf(&self) -> bool {
        ends_with_eof(self.tokens@) && self.current < self.tokens@.len()
    }

    /// A parser at the first token. An end-of-file token is added when the sequence does not
    /// end with one.
    pub fn new(tokens: Vec<Token>) -> (r: Self)
        ensures
            r.wf(),
            r.current == 0,
            ends_with_eof(tokens@) ==> r.tokens@ == tokens@,
            !ends_with_eof(tokens@) ==> r.tokens@.drop_last() == tokens@ && r.tokens@.last().token_type == TokenType::EOF,
    {
        let mut tokens = tokens;
        let n = tokens.len();
        if n == 0 || tokens[n - 1].token_type != TokenType::EOF {
            let line = if n == 0 { 1 } else { tokens[n - 1].line };
            let ghost before = tokens@;
            tokens.push(Token::new(TokenType::EOF, String::new(), line, None));
            assert(tokens@.drop_last() =~= before);
        }
        Parser { tokens, current: 0 }
    }

    fn peek(&self) -> (r: &Token)
        requires
            self.wf(),
        ensures
            *r == self.tokens@[self.current as int],
    {
        &self.tokens[self.current]
    }

    fn done(&self) -> (r: bool)
        requires
            self.wf(),
        ensures
            r == (self.tokens@[self.current as int].token_type == TokenType::EOF),
            !r ==> self.current + 1 < self.tokens@.len(),
    {
        self.tokens[self.current].token_type == TokenType::EOF
    }

    /// Whether the next token has kind `k` (never at the end).
    fn check(&self, k: TokenType) -> (r: bool)
        requires
            self.wf(),
        ensures
            r == (self.tokens@[self.current as int].token_type != TokenType::EOF && self.tokens@[self.current as int].token_type == k),
            r ==> self.current + 1 < self.tokens@.len(),
    {
        if self.done() {
            return false;
        }
        self.tokens[self.current].token_type == k
    }

    fn advance(&mut self)
        requires
            old(self).wf(),
        ensures
            moved_on(*old(self), *final(self)),
            old(self).tokens@[old(self).current as int].token_type != TokenType::EOF ==> final(self).current == old(self).current + 1,
    {
        if !self.done() && self.current < self.tokens.len() - 1 {
            self.current = self.current + 1;
        }
    }

    /// The token just consumed.
    fn prev_token(&self) -> (r: Token)
        requires
            self.wf(),
            self.current > 0,
        ensures
            r == self.tokens@[self.current - 1],
    {
        self.tokens[self.current - 1].clone()
    }

    /// Consumes a token of kind `k` and returns it; an error if the next token has another kind.
    fn consume(&mut self, k: TokenType) -> (r: Result<Token, ParseError>)
        requires
            old(self).wf(),
        ensures
            moved_on(*old(self), *final(self)),
            r is Ok ==> final(self).current == old(self).current + 1 && r->Ok_0 == old(self).tokens@[old(self).current as int]
                && r->Ok_0.token_type == k,
            r is Err ==> r->Err_0 == (ParseError { kind: ParseErrorKind::Expected(k), line: old(self).tokens@[old(self).current as int].line }),
            (r is Ok) == syntax::checks(old(self).tokens@, old(self).current as int, k),
    {
        if self.check(k) {
            self.advance();
            return Ok(self.prev_token());
        }
        Err(ParseError { kind: ParseErrorKind::Expected(k), line: self.peek().line })
    }
}


impl Parser {
    /// expression → assignment
    fn expression(&mut self) -> (r: Result<Expr, ParseError>)
        requires
            old(self).wf(),
        ensures
            moved_on(*old(self), *final(self)),
            r is Ok ==> final(self).current > old(self).current,
            syntax::expression(old(self).tokens@, old(self).current as int) == outcome(r, final(self).current as int),
        decreases old(self).tokens@.len() - old(self).current, 12int,
    {
        proof { syntax::unfold_expression(self.tokens@, self.current as int); }
        self.assignment()
    }

    /// assignment → (call ".")? IDENTIFIER "=" assignment | logic_or
    fn assignment(&mut self) -> (r: Result<Expr, ParseError>)
        requires
            old(self).wf(),
        ensures
            moved_on(*old(self), *final(self)),
            r is Ok ==> final(self).current > old(self).current,
            syntax::assignment(old(self).tokens@, old(self).current as int) == outcome(r, final(self).current as int),
        decreases old(self).tokens@.len() - old(self).current, 11int,
    {
        let ghost ts = self.tokens@;
        let ghost p0 = self.current as int;
        proof { syntax::unfold_assignment(ts, p0); }
        let expr = match self.or() {
            Ok(x) => x,
            Err(x) => return Err(x),
        };
        proof { syntax::unfold_view_expr(expr); }
        if self.check(TokenType::EQUAL) {
            let equals = self.peek().clone();
            self.advance();
            let value = match self.assignment() {
                Ok(x) => x,
                Err(x) => return Err(x),
            };
            let r = match expr {
                Expr::Variable { value: name } => Ok(Expr::Assign { name, value_expr: Box::new(value) }),
                Expr::Get { expr: object, name } => Ok(Expr::SetProperty { expr: object, name, value: Box::new(value) }),
                _ => Err(ParseError { kind: ParseErrorKind::InvalidAssignmentTarget, line: equals.line }),
            };
            proof {
                if r is Ok {
                    syntax::unfold_view_expr(r->Ok_0);
                }
            }
            return r;
        }
        Ok(expr)
    }

    /// logic_or → logic_and ("or" logic_and)*
    fn or(&mut self) -> (r: Result<Expr, ParseError>)
        requires
            old(self).wf(),
        ensures
            moved_on(*old(self), *final(self)),
            r is Ok ==> final(self).current > old(self).current,
            syntax::logic_or(old(self).tokens@, old(self).current as int) == outcome(r, final(self).current as int),
        decreases old(self).tokens@.len() - old(self).current, 10int,
    {
        let ghost ts = self.tokens@;
        let ghost p0 = self.current as int;
        proof { syntax::unfold_logic_or(ts, p0); }
        let mut expr = match self.and() {
            Ok(x) => x,
            Err(x) => return Err(x),
        };
        loop
            invariant
                moved_on(*old(self), *self),
                self.current > old(self).current,
                ts == self.tokens@,
                p0 == old(self).current,
                syntax::logic_or(ts, p0) == syntax::logic_or_rest(ts, self.current as int, view_expr(expr)),
            ensures
                moved_on(*old(self), *self),
                self.current > old(self).current,
                ts == self.tokens@,
                syntax::logic_or(ts, p0) == syntax::logic_or_rest(ts, self.current as int, view_expr(expr)),
                !(syntax::checks(ts, self.current as int, TokenType::OR)),
            decreases self.tokens@.len() - self.current,
        {
            proof { syntax::unfold_logic_or_rest(ts, self.current as int, view_expr(expr)); }
            if !(self.check(TokenType::OR)) {
                break;
            }
            let op = self.peek().clone();
            self.advance();
            let rhs = match self.and() {
                Ok(x) => x,
                Err(x) => return Err(x),
            };
            expr = Expr::Logical { lhs: Box::new(expr), operator: op, rhs: Box::new(rhs) };
            proof { syntax::unfold_view_expr(expr); }
        }
        proof { syntax::unfold_logic_or_rest(ts, self.current as int, view_expr(expr)); }
        Ok(expr)
    }

    /// logic_and → equality ("and" equality)*
    fn and(&mut self) -> (r: Result<Expr, ParseError>)
        requires
            old(self).wf(),
        ensures
            moved_on(*old(self), *final(self)),
            r is Ok ==> final(self).current > old(self).current,
            syntax::logic_and(old(self).tokens@, old(self).current as int) == outcome(r, final(self).current as int),
        decreases old(self).tokens@.len() - old(self).current, 9int,
    {
        let ghost ts = self.tokens@;
        let ghost p0 = self.current as int;
        proof { syntax::unfold_logic_and(ts, p0); }
        let mut expr = match self.equality() {
            Ok(x) => x,
            Err(x) => return Err(x),
        };
        loop
            invariant
                moved_on(*old(self), *self),
                self.current > old(self).current,
                ts == self.tokens@,
                p0 == old(self).current,
                syntax::logic_and(ts, p0) == syntax::logic_and_rest(ts, self.current as int, view_expr(expr)),
            ensures
                moved_on(*old(self), *self),
                self.current > old(self).current,
                ts == self.tokens@,
                syntax::logic_and(ts, p0) == syntax::logic_and_rest(ts, self.current as int, view_expr(expr)),
                !(syntax::checks(ts, self.current as int, TokenType::AND)),
            decreases self.tokens@.len() - self.current,
        {
            proof { syntax::unfold_logic_and_rest(ts, self.current as int, view_expr(expr)); }
            if !(self.check(TokenType::AND)) {
                break;
            }
            let op = self.peek().clone();
            self.advance();
            let rhs = match self.equality() {
                Ok(x) => x,
                Err(x) => return Err(x),
            };
            expr = Expr::Logical { lhs: Box::new(expr), operator: op, rhs: Box::new(rhs) };
            proof { syntax::unfold_view_expr(expr); }
        }
        proof { syntax::unfold_logic_and_rest(ts, self.current as int, view_expr(expr)); }
        Ok(expr)
    }

    /// equality → comparison (("!=" | "==") comparison)*
    fn equality(&mut self) -> (r: Result<Expr, ParseError>)
        requires
            old(self).wf(),
        ensures
            moved_on(*old(self), *final(self)),
            r is Ok ==> final(self).current > old(self).current,
            syntax::equality(old(self).tokens@, old(self).current as int) == outcome(r, final(self).current as int),
        decreases old(self).tokens@.len() - old(self).current, 8int,
    {
        let ghost ts = self.tokens@;
        let ghost p0 = self.current as int;
        proof { syntax::unfold_equality(ts, p0); }
        let mut expr = match self.comparison() {
            Ok(x) => x,
            Err(x) => return Err(x),
        };
        loop
            invariant
                moved_on(*old(self), *self),
                self.current > old(self).current,
                ts == self.tokens@,
                p0 == old(self).current,
                syntax::equality(ts, p0) == syntax::equality_rest(ts, self.current as int, view_expr(expr)),
            ensures
                moved_on(*old(self), *self),
                self.current > old(self).current,
                ts == self.tokens@,
                syntax::equality(ts, p0) == syntax::equality_rest(ts, self.current as int, view_expr(expr)),
                !(syntax::checks(ts, self.current as int, TokenType::NE) || syntax::checks(ts, self.current as int, TokenType::ISEQ)),
            decreases self.tokens@.len() - self.current,
        {
            proof { syntax::unfold_equality_rest(ts, self.current as int, view_expr(expr)); }
            if !(self.check(TokenType::NE) || self.check(TokenType::ISEQ)) {
                break;
            }
            let op = self.peek().clone();
            self.advance();
            let rhs = match self.comparison() {
                Ok(x) => x,
                Err(x) => return Err(x),
            };
            expr = Expr::Binary { lhs: Box::new(expr), op: op, rhs: Box::new(rhs) };
            proof { syntax::unfold_view_expr(expr); }
        }
        proof { syntax::unfold_equality_rest(ts, self.current as int, view_expr(expr)); }
        Ok(expr)
    }

    /// comparison → term ((">" | ">=" | "<" | "<=") term)*
    fn comparison(&mut self) -> (r: Result<Expr, ParseError>)
        requires
            old(self).wf(),
        ensures
            moved_on(*old(self), *final(self)),
            r is Ok ==> final(self).current > old(self).current,
            syntax::comparison(old(self).tokens@, old(self).current as int) == outcome(r, final(self).current as int),
        decreases old(self).tokens@.len() - old(self).current, 7int,
    {
        let ghost ts = self.tokens@;
        let ghost p0 = self.current as int;
        proof { syntax::unfold_comparison(ts, p0); }
        let mut expr = match self.term() {
            Ok(x) => x,
            Err(x) => return Err(x),
        };
        loop
            invariant
                moved_on(*old(self), *self),
                self.current > old(self).current,
                ts == self.tokens@,
                p0 == old(self).current,
                syntax::comparison(ts, p0) == syntax::comparison_rest(ts, self.current as int, view_expr(expr)),
            ensures
                moved_on(*old(self), *self),
                self.current > old(self).current,
                ts == self.tokens@,
                syntax::comparison(ts, p0) == syntax::comparison_rest(ts, self.current as int, view_expr(expr)),
                !(syntax::checks(ts, self.current as int, TokenType::GT) || syntax::checks(ts, self.current as int, TokenType::GE) || syntax::checks(ts, self.current as int, TokenType::LT) || syntax::checks(ts, self.current as int, TokenType::LE)),
            decreases self.tokens@.len() - self.current,
        {
            proof { syntax::unfold_comparison_rest(ts, self.current as int, view_expr(expr)); }
            if !(self.check(TokenType::GT) || self.check(TokenType::GE) || self.check(TokenType::LT) || self.check(TokenType::LE)) {
                break;
            }
            let op = self.peek().clone();
            self.advance();
            let rhs = match self.term() {
                Ok(x) => x,
                Err(x) => return Err(x),
            };
            expr = Expr::Binary { lhs: Box::new(expr), op: op, rhs: Box::new(rhs) };
            proof { syntax::unfold_view_expr(expr); }
        }
        proof { syntax::unfold_comparison_rest(ts, self.current as int, view_expr(expr)); }
        Ok(expr)
    }

    /// term → factor (("-" | "+" | "%") factor)*
    fn term(&mut self) -> (r: Result<Expr, ParseError>)
        requires
            old(self).wf(),
        ensures
            moved_on(*old(self), *final(self)),
            r is Ok ==> final(self).current > old(self).current,
            syntax::term(old(self).tokens@, old(self).current as int) == outcome(r, final(self).current as int),
        decreases old(self).tokens@.len() - old(self).current, 6int,
    {
        let ghost ts = self.tokens@;
        let ghost p0 = self.current as int;
        proof { syntax::unfold_term(ts, p0); }
        let mut expr = match self.factor() {
            Ok(x) => x,
            Err(x) => return Err(x),
        };
        loop
            invariant
                moved_on(*old(self), *self),
                self.current > old(self).current,
                ts == self.tokens@,
                p0 == old(self).current,
                syntax::term(ts, p0) == syntax::term_rest(ts, self.current as int, view_expr(expr)),
            ensures
                moved_on(*old(self), *self),
                self.current > old(self).current,
                ts == self.tokens@,
                syntax::term(ts, p0) == syntax::term_rest(ts, self.current as int, view_expr(expr)),
                !(syntax::checks(ts, self.current as int, TokenType::MINUS) || syntax::checks(ts, self.current as int, TokenType::PLUS) || syntax::checks(ts, self.current as int, TokenType::MODULO)),
            decreases self.tokens@.len() - self.current,
        {
            proof { syntax::unfold_term_rest(ts, self.current as int, view_expr(expr)); }
            if !(self.check(TokenType::MINUS) || self.check(TokenType::PLUS) || self.check(TokenType::MODULO)) {
                break;
            }
            let op = self.peek().clone();
            self.advance();
            let rhs = match self.factor() {
                Ok(x) => x,
                Err(x) => return Err(x),
            };
            expr = Expr::Binary { lhs: Box::new(expr), op: op, rhs: Box::new(rhs) };
            proof { syntax::unfold_view_expr(expr); }
        }
        proof { syntax::unfold_term_rest(ts, self.current as int, view_expr(expr)); }
        Ok(expr)
    }

    /// factor → unary (("/" | "*") unary)*
    fn factor(&mut self) -> (r: Result<Expr, ParseError>)
        requires
            old(self).wf(),
        ensures
            moved_on(*old(self), *final(self)),
            r is Ok ==> final(self).current > old(self).current,
            syntax::factor(old(self).tokens@, old(self).current as int) == outcome(r, final(self).current as int),
        decreases old(self).tokens@.len() - old(self).current, 5int,
    {
        let ghost ts = self.tokens@;
        let ghost p0 = self.current as int;
        proof { syntax::unfold_factor(ts, p0); }
        let mut expr = match self.unary() {
            Ok(x) => x,
            Err(x) => return Err(x),
        };
        loop
            invariant
                moved_on(*old(self), *self),
                self.current > old(self).current,
                ts == self.tokens@,
                p0 == old(self).current,
                syntax::factor(ts, p0) == syntax::factor_rest(ts, self.current as int, view_expr(expr)),
            ensures
                moved_on(*old(self), *self),
                self.current > old(self).current,
                ts == self.tokens@,
                syntax::factor(ts, p0) == syntax::factor_rest(ts, self.current as int, view_expr(expr)),
                !(syntax::checks(ts, self.current as int, TokenType::SLASH) || syntax::checks(ts, self.current as int, TokenType::STAR)),
            decreases self.tokens@.len() - self.current,
        {
            proof { syntax::unfold_factor_rest(ts, self.current as int, view_expr(expr)); }
            if !(self.check(TokenType::SLASH) || self.check(TokenType::STAR)) {
                break;
            }
            let op = self.peek().clone();
            self.advance();
            let rhs = match self.unary() {
                Ok(x) => x,
                Err(x) => return Err(x),
            };
            expr = Expr::Binary { lhs: Box::new(expr), op: op, rhs: Box::new(rhs) };
            proof { syntax::unfold_view_expr(expr); }
        }
        proof { syntax::unfold_factor_rest(ts, self.current as int, view_expr(expr)); }
        Ok(expr)
    }

    /// unary → ("!" | "-") unary | call
    fn unary(&mut self) -> (r: Result<Expr, ParseError>)
        requires
            old(self).wf(),
        ensures
            moved_on(*old(self), *final(self)),
            r is Ok ==> final(self).current > old(self).current,
            syntax::unary(old(self).tokens@, old(self).current as int) == outcome(r, final(self).current as int),
        decreases old(self).tokens@.len() - old(self).current, 4int,
    {
        proof { syntax::unfold_unary(self.tokens@, self.current as int); }
        if self.check(TokenType::NOT) || self.check(TokenType::MINUS) {
            let op = self.peek().clone();
            self.advance();
            let rhs = match self.unary() {
                Ok(x) => x,
                Err(x) => return Err(x),
            };
            let r = Expr::Unary { op, rhs: Box::new(rhs) };
            proof { syntax::unfold_view_expr(r); }
            return Ok(r);
        }
        self.call()
    }

    /// call → primary ("(" arguments? ")" | "." IDENTIFIER)*
    fn call(&mut self) -> (r: Result<Expr, ParseError>)
        requires
            old(self).wf(),
        ensures
            moved_on(*old(self), *final(self)),
            r is Ok ==> final(self).current > old(self).current,
            syntax::call(old(self).tokens@, old(self).current as int) == outcome(r, final(self).current as int),
        decreases old(self).tokens@.len() - old(self).current, 3int,
    {
        let ghost ts = self.tokens@;
        let ghost p0 = self.current as int;
        proof { syntax::unfold_call(ts, p0); }
        let mut expr = match self.primary() {
            Ok(x) => x,
            Err(x) => return Err(x),
        };
        loop
            invariant
                moved_on(*old(self), *self),
                self.current > old(self).current,
                ts == self.tokens@,
                p0 == old(self).current,
                syntax::call(ts, p0) == syntax::call_rest(ts, self.current as int, view_expr(expr)),
            ensures
                moved_on(*old(self), *self),
                self.current > old(self).current,
                ts == self.tokens@,
                syntax::call(ts, p0) == syntax::call_rest(ts, self.current as int, view_expr(expr)),
                !syntax::checks(ts, self.current as int, TokenType::LPAREN),
                !syntax::checks(ts, self.current as int, TokenType::DOT),
            decreases self.tokens@.len() - self.current,
        {
            proof { syntax::unfold_call_rest(ts, self.current as int, view_expr(expr)); }
            if self.check(TokenType::LPAREN) {
                self.advance();
                expr = match self.finish_call(expr) {
                    Ok(x) => x,
                    Err(x) => return Err(x),
                };
            } else if self.check(TokenType::DOT) {
                self.advance();
                let name = match self.consume(TokenType::IDENTIFIER) {
                    Ok(x) => x,
                    Err(x) => return Err(x),
                };
                expr = Expr::Get { expr: Box::new(expr), name: name.lexeme };
                proof { syntax::unfold_view_expr(expr); }
            } else {
                break;
            }
        }
        proof { syntax::unfold_call_rest(ts, self.current as int, view_expr(expr)); }
        Ok(expr)
    }

    /// The arguments of a call whose "(" has been consumed, and its ")".
    fn finish_call(&mut self, callee: Expr) -> (r: Result<Expr, ParseError>)
        requires
            old(self).wf(),
        ensures
            moved_on(*old(self), *final(self)),
            r is Ok ==> final(self).current > old(self).current,
            syntax::finish_call(old(self).tokens@, old(self).current as int, view_expr(callee)) == outcome(r, final(self).current as int),
        decreases old(self).tokens@.len() - old(self).current, 13int,
    {
        let ghost ts = self.tokens@;
        let ghost p0 = self.current as int;
        proof { syntax::unfold_finish_call(ts, p0, view_expr(callee)); }
        let mut args: Vec<Expr> = Vec::new();
        if !self.check(TokenType::RPAREN) {
            let first = match self.expression() {
                Ok(x) => x,
                Err(x) => return Err(x),
            };
            args.push(first);
            assert(views(args@) =~= seq![view_expr(first)]);
            loop
                invariant
                    moved_on(*old(self), *self),
                    ts == self.tokens@,
                    p0 == old(self).current,
                    self.current > p0,
                    syntax::finish_call(ts, p0, view_expr(callee)) == syntax::arguments_rest(ts, self.current as int, view_expr(callee), views(args@)),
                ensures
                    moved_on(*old(self), *self),
                    ts == self.tokens@,
                    self.current > p0,
                    syntax::finish_call(ts, p0, view_expr(callee)) == syntax::arguments_rest(ts, self.current as int, view_expr(callee), views(args@)),
                    !syntax::checks(ts, self.current as int, TokenType::COMMA),
                decreases self.tokens@.len() - self.current,
            {
                proof { syntax::unfold_arguments_rest(ts, self.current as int, view_expr(callee), views(args@)); }
                if !self.check(TokenType::COMMA) {
                    break;
                }
                self.advance();
                let a = match self.expression() {
                    Ok(x) => x,
                    Err(x) => return Err(x),
                };
                let ghost before = args@;
                args.push(a);
                assert(views(args@) =~= views(before).push(view_expr(a)));
            }
            proof { syntax::unfold_arguments_rest(ts, self.current as int, view_expr(callee), views(args@)); }
        } else {
            assert(views(args@) =~= Seq::<SExpr>::empty());
        }
        let paren = match self.consume(TokenType::RPAREN) {
            Ok(x) => x,
            Err(x) => return Err(x),
        };
        if args.len() > MAX_ARGS {
            return Err(ParseError { kind: ParseErrorKind::TooManyArguments, line: paren.line });
        }
        let r = Expr::Call { callee: Box::new(callee), paren, args };
        proof { syntax::unfold_view_expr(r); }
        Ok(r)
    }

    /// primary → NUMBER | STRING | "true" | "false" | "nil" | IDENTIFIER | "(" expression ")"
    ///         | "{" (IDENTIFIER ":" expression ("," IDENTIFIER ":" expression)*)? "}"
    fn primary(&mut self) -> (r: Result<Expr, ParseError>)
        requires
            old(self).wf(),
        ensures
            moved_on(*old(self), *final(self)),
            r is Ok ==> final(self).current > old(self).current,
            syntax::primary(old(self).tokens@, old(self).current as int) == outcome(r, final(self).current as int),
        decreases old(self).tokens@.len() - old(self).current, 1int,
    {
        let ghost ts = self.tokens@;
        let ghost p0 = self.current as int;
        proof { syntax::unfold_primary(ts, p0); }
        if self.check(TokenType::FALSE) {
            self.advance();
            let r = Expr::Literal { value: Box::new(VariTypes::Boolean(false)) };
            proof { syntax::unfold_view_expr(r); }
            return Ok(r);
        }
        if self.check(TokenType::TRUE) {
            self.advance();
            let r = Expr::Literal { value: Box::new(VariTypes::Boolean(true)) };
            proof { syntax::unfold_view_expr(r); }
            return Ok(r);
        }
        if self.check(TokenType::NIL) {
            self.advance();
            let r = Expr::Literal { value: Box::new(VariTypes::Nil) };
            proof { syntax::unfold_view_expr(r); }
            return Ok(r);
        }
        if self.check(TokenType::NUMBER) || self.check(TokenType::STRING) {
            let t = self.peek().clone();
            self.advance();
            let value = match t.literal {
                Some(v) => v,
                None => Box::new(VariTypes::Nil),
            };
            let r = Expr::Literal { value };
            proof { syntax::unfold_view_expr(r); }
            return Ok(r);
        }
        if self.check(TokenType::IDENTIFIER) {
            let t = self.peek().clone();
            self.advance();
            let r = Expr::Variable { value: t };
            proof { syntax::unfold_view_expr(r); }
            return Ok(r);
        }
        if self.check(TokenType::LPAREN) {
            self.advance();
            let expr = match self.expression() {
                Ok(x) => x,
                Err(x) => return Err(x),
            };
            match self.consume(TokenType::RPAREN) {
                Ok(x) => x,
                Err(x) => return Err(x),
            };
            let r = Expr::Grouping { expr: Box::new(expr) };
            proof { syntax::unfold_view_expr(r); }
            return Ok(r);
        }
        if self.check(TokenType::LBRACE) {
            self.advance();
            let mut values: Vec<(String, Expr)> = Vec::new();
            if self.check(TokenType::RBRACE) {
                self.advance();
                let r = Expr::Struct { values };
                proof { syntax::unfold_view_expr(r); }
                assert(field_views(values@) =~= Seq::empty());
                return Ok(r);
            }
            assert(field_views(values@) =~= Seq::empty());
            loop
                invariant
                    moved_on(*old(self), *self),
                    self.current > old(self).current,
                    ts == self.tokens@,
                    p0 == old(self).current,
                    syntax::primary(ts, p0) == syntax::fields(ts, self.current as int, field_views(values@)),
                decreases self.tokens@.len() - self.current,
            {
                let ghost p = self.current as int;
                proof { syntax::unfold_fields(ts, p, field_views(values@)); }
                let name = match self.consume(TokenType::IDENTIFIER) {
                    Ok(x) => x,
                    Err(x) => return Err(x),
                };
                match self.consume(TokenType::COLON) {
                    Ok(x) => x,
                    Err(x) => return Err(x),
                };
                let e = match self.expression() {
                    Ok(x) => x,
                    Err(x) => return Err(x),
                };
                let ghost before = values@;
                values.push((name.lexeme, e));
                assert(field_views(values@) =~= field_views(before).push((ts[p].lexeme@, view_expr(e))));
                if self.check(TokenType::COMMA) {
                    self.advance();
                } else {
                    match self.consume(TokenType::RBRACE) {
                        Ok(x) => x,
                        Err(x) => return Err(x),
                    };
                    let r = Expr::Struct { values };
                    proof { syntax::unfold_view_expr(r); }
                    return Ok(r);
                }
            }
        }
        Err(ParseError { kind: ParseErrorKind::ExpectedExpression, line: self.peek().line })
    }
}

impl Parser {
    /// block → "{" declaration* "}", with the "{" already consumed.
    fn block(&mut self) -> (r: Result<Vec<Stmt>, ParseError>)
        requires
            old(self).wf(),
        ensures
            moved_on(*old(self), *final(self)),
            r is Ok ==> final(self).current > old(self).current,
            syntax::block(old(self).tokens@, old(self).current as int, Seq::empty()) == stmts_outcome(r, final(self).current as int),
        decreases old(self).tokens@.len() - old(self).current, 40int,
    {
        let ghost ts = self.tokens@;
        let ghost p0 = self.current as int;
        let mut statements: Vec<Stmt> = Vec::new();
        assert(view_stmts(statements@) =~= Seq::<SStmt>::empty());
        loop
            invariant
                moved_on(*old(self), *self),
                ts == self.tokens@,
                p0 == old(self).current,
                syntax::block(ts, p0, Seq::empty()) == syntax::block(ts, self.current as int, view_stmts(statements@)),
            ensures
                moved_on(*old(self), *self),
                ts == self.tokens@,
                syntax::block(ts, p0, Seq::empty()) == syntax::block(ts, self.current as int, view_stmts(statements@)),
                syntax::checks(ts, self.current as int, TokenType::RBRACE) || syntax::at_end(ts, self.current as int),
            decreases self.tokens@.len() - self.current,
        {
            proof { syntax::unfold_block(ts, self.current as int, view_stmts(statements@)); }
            if self.check(TokenType::RBRACE) || self.done() {
                break;
            }
            let s = match self.declaration() {
                Ok(x) => x,
                Err(x) => return Err(x),
            };
            let ghost before = statements@;
            statements.push(s);
            assert(view_stmts(statements@) =~= view_stmts(before).push(view_stmt(s)));
        }
        proof { syntax::unfold_block(ts, self.current as int, view_stmts(statements@)); }
        match self.consume(TokenType::RBRACE) {
            Ok(x) => x,
            Err(x) => return Err(x),
        };
        Ok(statements)
    }

    /// The initializer of a `for`: nothing, a `let`, or an expression statement.
    fn for_init(&mut self) -> (r: Result<Stmt, ParseError>)
        requires
            old(self).wf(),
        ensures
            moved_on(*old(self), *final(self)),
            r is Ok ==> final(self).current > old(self).current,
            syntax::for_init(old(self).tokens@, old(self).current as int) == stmt_outcome(r, final(self).current as int),
        decreases old(self).tokens@.len() - old(self).current, 27int,
    {
        proof { syntax::unfold_for_init(self.tokens@, self.current as int); }
        if self.check(TokenType::SEMICOLON) {
            self.advance();
            let r = Stmt::Expression(Expr::Literal { value: Box::new(VariTypes::Nil) });
            proof { syntax::unfold_view_stmt(r); syntax::unfold_view_expr(Expr::Literal { value: Box::new(VariTypes::Nil) }); }
            return Ok(r);
        }
        if self.check(TokenType::LET) {
            self.advance();
            return self.var_decl();
        }
        self.expr_stmt()
    }

    /// The optional condition of a `for` and its ";".
    fn for_cond(&mut self) -> (r: Result<Option<Expr>, ParseError>)
        requires
            old(self).wf(),
        ensures
            moved_on(*old(self), *final(self)),
            r is Ok ==> final(self).current > old(self).current,
            syntax::for_cond(old(self).tokens@, old(self).current as int) == opt_outcome(r, final(self).current as int),
        decreases old(self).tokens@.len() - old(self).current, 26int,
    {
        proof { syntax::unfold_for_cond(self.tokens@, self.current as int); }
        if self.check(TokenType::SEMICOLON) {
            self.advance();
            return Ok(None);
        }
        let c = match self.expression() {
            Ok(x) => x,
            Err(x) => return Err(x),
        };
        match self.consume(TokenType::SEMICOLON) {
            Ok(x) => x,
            Err(x) => return Err(x),
        };
        Ok(Some(c))
    }

    /// The optional step of a `for` and its ")".
    fn for_step(&mut self) -> (r: Result<Option<Expr>, ParseError>)
        requires
            old(self).wf(),
        ensures
            moved_on(*old(self), *final(self)),
            r is Ok ==> final(self).current > old(self).current,
            syntax::for_step(old(self).tokens@, old(self).current as int) == opt_outcome(r, final(self).current as int),
        decreases old(self).tokens@.len() - old(self).current, 26int,
    {
        proof { syntax::unfold_for_step(self.tokens@, self.current as int); }
        if self.check(TokenType::RPAREN) {
            self.advance();
            return Ok(None);
        }
        let c = match self.expression() {
            Ok(x) => x,
            Err(x) => return Err(x),
        };
        match self.consume(TokenType::RPAREN) {
            Ok(x) => x,
            Err(x) => return Err(x),
        };
        Ok(Some(c))
    }

    /// The statement for `for (init; cond; step) body` with "for" consumed: the block
    /// `{ init; while (cond) { body; step; } }`, where a missing condition is `true`, a missing
    /// initializer does nothing and a missing step is left out.
    fn for_stmt(&mut self) -> (r: Result<Stmt, ParseError>)
        requires
            old(self).wf(),
        ensures
            moved_on(*old(self), *final(self)),
            r is Ok ==> final(self).current > old(self).current,
            syntax::for_stmt(old(self).tokens@, old(self).current as int) == stmt_outcome(r, final(self).current as int),
        decreases old(self).tokens@.len() - old(self).current, 28int,
    {
        let ghost ts = self.tokens@;
        let ghost p0 = self.current as int;
        proof { syntax::unfold_for_stmt(ts, p0); }
        match self.consume(TokenType::LPAREN) {
            Ok(x) => x,
            Err(x) => return Err(x),
        };
        let initializer = match self.for_init() {
            Ok(x) => x,
            Err(x) => return Err(x),
        };
        let condition = match self.for_cond() {
            Ok(x) => x,
            Err(x) => return Err(x),
        };
        let step = match self.for_step() {
            Ok(x) => x,
            Err(x) => return Err(x),
        };
        let mut body = match self.statement() {
            Ok(x) => x,
            Err(x) => return Err(x),
        };
        let ghost vbody = view_stmt(body);
        match step {
            Some(e) => {
                let ghost ve = view_expr(e);
                let ex = Stmt::Expression(e);
                proof { syntax::unfold_view_stmt(ex); }
                let ghost b0 = body;
                body = Stmt::Block(vec![body, ex]);
                proof { syntax::unfold_view_stmt(body); }
                assert(view_stmts(seq![b0, ex]) =~= seq![vbody, SStmt::Expression(ve)]);
            },
            None => {},
        }
        let cond = match condition {
            Some(c) => c,
            None => Expr::Literal { value: Box::new(VariTypes::Boolean(true)) },
        };
        proof { syntax::unfold_view_expr(Expr::Literal { value: Box::new(VariTypes::Boolean(true)) }); }
        let looped = Stmt::While(cond, Box::new(body));
        proof { syntax::unfold_view_stmt(looped); }
        let ghost i0 = initializer;
        let r = Stmt::Block(vec![initializer, looped]);
        proof { syntax::unfold_view_stmt(r); }
        assert(view_stmts(seq![i0, looped]) =~= seq![view_stmt(i0), view_stmt(looped)]);
        Ok(r)
    }

    /// ifStmt → "if" "(" expression ")" statement ("else" statement)?, with "if" consumed.
    fn if_stmt(&mut self) -> (r: Result<Stmt, ParseError>)
        requires
            old(self).wf(),
        ensures
            moved_on(*old(self), *final(self)),
            r is Ok ==> final(self).current > old(self).current,
            syntax::if_stmt(old(self).tokens@, old(self).current as int) == stmt_outcome(r, final(self).current as int),
        decreases old(self).tokens@.len() - old(self).current, 28int,
    {
        proof { syntax::unfold_if_stmt(self.tokens@, self.current as int); }
        match self.consume(TokenType::LPAREN) {
            Ok(x) => x,
            Err(x) => return Err(x),
        };
        let condition = match self.expression() {
            Ok(x) => x,
            Err(x) => return Err(x),
        };
        match self.consume(TokenType::RPAREN) {
            Ok(x) => x,
            Err(x) => return Err(x),
        };
        let then_branch = match self.statement() {
            Ok(x) => x,
            Err(x) => return Err(x),
        };
        let mut else_branch: Option<Box<Stmt>> = None;
        if self.check(TokenType::ELSE) {
            self.advance();
            else_branch = Some(Box::new(match self.statement() {
                Ok(x) => x,
                Err(x) => return Err(x),
            }));
        }
        let r = Stmt::If(condition, Box::new(then_branch), else_branch);
        proof { syntax::unfold_view_stmt(r); }
        Ok(r)
    }

    /// returnStmt → "return" expression? ";", with "return" consumed; a missing value is `nil`.
    fn return_stmt(&mut self) -> (r: Result<Stmt, ParseError>)
        requires
            old(self).wf(),
            old(self).current > 0,
        ensures
            moved_on(*old(self), *final(self)),
            r is Ok ==> final(self).current > old(self).current,
            syntax::return_stmt(old(self).tokens@, old(self).current as int) == stmt_outcome(r, final(self).current as int),
        decreases old(self).tokens@.len() - old(self).current, 25int,
    {
        proof {
            syntax::unfold_return_stmt(self.tokens@, self.current as int);
            syntax::unfold_view_expr(Expr::Literal { value: Box::new(VariTypes::Nil) });
        }
        let keyword = self.prev_token();
        let mut value = Expr::Literal { value: Box::new(VariTypes::Nil) };
        if !self.check(TokenType::SEMICOLON) {
            value = match self.expression() {
                Ok(x) => x,
                Err(x) => return Err(x),
            };
        }
        match self.consume(TokenType::SEMICOLON) {
            Ok(x) => x,
            Err(x) => return Err(x),
        };
        let r = Stmt::Return(keyword, value);
        proof { syntax::unfold_view_stmt(r); }
        Ok(r)
    }

    /// whileStmt → "while" "(" expression ")" statement, with "while" consumed.
    fn while_stmt(&mut self) -> (r: Result<Stmt, ParseError>)
        requires
            old(self).wf(),
        ensures
            moved_on(*old(self), *final(self)),
            r is Ok ==> final(self).current > old(self).current,
            syntax::while_stmt(old(self).tokens@, old(self).current as int) == stmt_outcome(r, final(self).current as int),
        decreases old(self).tokens@.len() - old(self).current, 28int,
    {
        proof { syntax::unfold_while_stmt(self.tokens@, self.current as int); }
        match self.consume(TokenType::LPAREN) {
            Ok(x) => x,
            Err(x) => return Err(x),
        };
        let condition = match self.expression() {
            Ok(x) => x,
            Err(x) => return Err(x),
        };
        match self.consume(TokenType::RPAREN) {
            Ok(x) => x,
            Err(x) => return Err(x),
        };
        let body = match self.statement() {
            Ok(x) => x,
            Err(x) => return Err(x),
        };
        let r = Stmt::While(condition, Box::new(body));
        proof { syntax::unfold_view_stmt(r); }
        Ok(r)
    }

    /// exprStmt → expression ";"
    fn expr_stmt(&mut self) -> (r: Result<Stmt, ParseError>)
        requires
            old(self).wf(),
        ensures
            moved_on(*old(self), *final(self)),
            r is Ok ==> final(self).current > old(self).current,
            syntax::expr_stmt(old(self).tokens@, old(self).current as int) == stmt_outcome(r, final(self).current as int),
        decreases old(self).tokens@.len() - old(self).current, 25int,
    {
        proof { syntax::unfold_expr_stmt(self.tokens@, self.current as int); }
        let expr = match self.expression() {
            Ok(x) => x,
            Err(x) => return Err(x),
        };
        match self.consume(TokenType::SEMICOLON) {
            Ok(x) => x,
            Err(x) => return Err(x),
        };
        let r = Stmt::Expression(expr);
        proof { syntax::unfold_view_stmt(r); }
        Ok(r)
    }

    /// funDecl → "fun" IDENTIFIER "(" parameters? ")" block, with "fun" consumed.
    fn fun_decl(&mut self) -> (r: Result<Stmt, ParseError>)
        requires
            old(self).wf(),
        ensures
            moved_on(*old(self), *final(self)),
            r is Ok ==> final(self).current > old(self).current,
            syntax::fun_decl(old(self).tokens@, old(self).current as int) == stmt_outcome(r, final(self).current as int),
        decreases old(self).tokens@.len() - old(self).current, 31int,
    {
        let ghost ts = self.tokens@;
        let ghost p0 = self.current as int;
        proof { syntax::unfold_fun_decl(ts, p0); }
        let name = match self.consume(TokenType::IDENTIFIER) {
            Ok(x) => x,
            Err(x) => return Err(x),
        };
        match self.consume(TokenType::LPAREN) {
            Ok(x) => x,
            Err(x) => return Err(x),
        };
        let mut params: Vec<Token> = Vec::new();
        if !self.check(TokenType::RPAREN) {
            let ghost p2 = self.current as int;
            let first = match self.consume(TokenType::IDENTIFIER) {
                Ok(x) => x,
                Err(x) => return Err(x),
            };
            params.push(first);
            let ghost whole = syntax::params(ts, self.current as int, seq![ts[p2]]);
            assert(params@ =~= seq![ts[p2]]);
            loop
                invariant
                    moved_on(*old(self), *self),
                    self.current > p0,
                    ts == self.tokens@,
                    p0 == old(self).current,
                    whole == syntax::params(ts, self.current as int, params@),
                    whole is Err ==> syntax::fun_decl(ts, p0) == Err::<(SStmt, int), ParseError>(whole->Err_0),
                ensures
                    moved_on(*old(self), *self),
                    self.current > p0,
                    ts == self.tokens@,
                    whole == syntax::params(ts, self.current as int, params@),
                    !syntax::checks(ts, self.current as int, TokenType::COMMA),
                decreases self.tokens@.len() - self.current,
            {
                proof { syntax::unfold_params(ts, self.current as int, params@); }
                if !self.check(TokenType::COMMA) {
                    break;
                }
                self.advance();
                let t = match self.consume(TokenType::IDENTIFIER) {
                    Ok(x) => x,
                    Err(x) => return Err(x),
                };
                params.push(t);
            }
            proof { syntax::unfold_params(ts, self.current as int, params@); }
        }
        match self.consume(TokenType::RPAREN) {
            Ok(x) => x,
            Err(x) => return Err(x),
        };
        match self.consume(TokenType::LBRACE) {
            Ok(x) => x,
            Err(x) => return Err(x),
        };
        let body = match self.block() {
            Ok(x) => x,
            Err(x) => return Err(x),
        };
        let d = Rc::new(FunctionDecl { name, params, body });
        let r = Stmt::Function(d);
        proof { syntax::unfold_view_stmt(r); }
        Ok(r)
    }

    /// varDecl → "let" IDENTIFIER ("=" expression)? ";", with "let" consumed.
    fn var_decl(&mut self) -> (r: Result<Stmt, ParseError>)
        requires
            old(self).wf(),
        ensures
            moved_on(*old(self), *final(self)),
            r is Ok ==> final(self).current > old(self).current,
            syntax::var_decl(old(self).tokens@, old(self).current as int) == stmt_outcome(r, final(self).current as int),
        decreases old(self).tokens@.len() - old(self).current, 25int,
    {
        proof { syntax::unfold_var_decl(self.tokens@, self.current as int); }
        let name = match self.consume(TokenType::IDENTIFIER) {
            Ok(x) => x,
            Err(x) => return Err(x),
        };
        let mut initializer: Option<Expr> = None;
        if self.check(TokenType::EQUAL) {
            self.advance();
            initializer = Some(match self.expression() {
                Ok(x) => x,
                Err(x) => return Err(x),
            });
        }
        match self.consume(TokenType::SEMICOLON) {
            Ok(x) => x,
            Err(x) => return Err(x),
        };
        let r = Stmt::Var(name, initializer);
        proof { syntax::unfold_view_stmt(r); }
        Ok(r)
    }

    /// declaration → funDecl | varDecl | structDecl | statement; `struct NAME = e;` declares
    /// as `let` does.
    fn declaration(&mut self) -> (r: Result<Stmt, ParseError>)
        requires
            old(self).wf(),
        ensures
            moved_on(*old(self), *final(self)),
            r is Ok ==> final(self).current > old(self).current,
            syntax::declaration(old(self).tokens@, old(self).current as int) == stmt_outcome(r, final(self).current as int),
        decreases old(self).tokens@.len() - old(self).current, 30int,
    {
        proof { syntax::unfold_declaration(self.tokens@, self.current as int); }
        if self.check(TokenType::FUN) {
            self.advance();
            return self.fun_decl();
        }
        if self.check(TokenType::LET) || self.check(TokenType::STRUCT) {
            self.advance();
            return self.var_decl();
        }
        self.statement()
    }

    /// statement → printStmt | returnStmt | block | whileStmt | forStmt | ifStmt | exprStmt
    fn statement(&mut self) -> (r: Result<Stmt, ParseError>)
        requires
            old(self).wf(),
        ensures
            moved_on(*old(self), *final(self)),
            r is Ok ==> final(self).current > old(self).current,
            syntax::statement(old(self).tokens@, old(self).current as int) == stmt_outcome(r, final(self).current as int),
        decreases old(self).tokens@.len() - old(self).current, 29int,
    {
        proof { syntax::unfold_statement(self.tokens@, self.current as int); }
        if self.check(TokenType::PRINT) {
            self.advance();
            let value = match self.expression() {
                Ok(x) => x,
                Err(x) => return Err(x),
            };
            match self.consume(TokenType::SEMICOLON) {
                Ok(x) => x,
                Err(x) => return Err(x),
            };
            let r = Stmt::Print(value);
            proof { syntax::unfold_view_stmt(r); }
            return Ok(r);
        }
        if self.check(TokenType::RETURN) {
            self.advance();
            return self.return_stmt();
        }
        if self.check(TokenType::LBRACE) {
            self.advance();
            let statements = match self.block() {
                Ok(x) => x,
                Err(x) => return Err(x),
            };
            let r = Stmt::Block(statements);
            proof { syntax::unfold_view_stmt(r); }
            return Ok(r);
        }
        if self.check(TokenType::WHILE) {
            self.advance();
            return self.while_stmt();
        }
        if self.check(TokenType::FOR) {
            self.advance();
            return self.for_stmt();
        }
        if self.check(TokenType::IF) {
            self.advance();
            return self.if_stmt();
        }
        self.expr_stmt()
    }

    /// program → declaration* EOF: the statements up to the end-of-file token, or the first
    /// parse error. The result is exactly what `parse_tokens` gives for the tokens.
    pub fn parse(&mut self) -> (r: Result<Vec<Stmt>, ParseError>)
        requires
            old(self).wf(),
        ensures
            moved_on(*old(self), *final(self)),
            syntax::program(old(self).tokens@, old(self).current as int, Seq::empty()) == match r {
                Ok(s) => Ok::<Seq<SStmt>, ParseError>(view_stmts(s@)),
                Err(x) => Err(x),
            },
            old(self).current == 0 ==> syntax::parse_tokens(old(self).tokens@) == match r {
                Ok(s) => Ok::<Seq<SStmt>, ParseError>(view_stmts(s@)),
                Err(x) => Err(x),
            },
    {
        let ghost ts = self.tokens@;
        let mut statements: Vec<Stmt> = Vec::new();
        assert(view_stmts(statements@) =~= Seq::<SStmt>::empty());
        loop
            invariant
                moved_on(*old(self), *self),
                ts == self.tokens@,
                syntax::program(ts, old(self).current as int, Seq::empty()) == syntax::program(ts, self.current as int, view_stmts(statements@)),
            ensures
                moved_on(*old(self), *self),
                ts == self.tokens@,
                syntax::program(ts, old(self).current as int, Seq::empty()) == syntax::program(ts, self.current as int, view_stmts(statements@)),
                syntax::at_end(ts, self.current as int),
            decreases self.tokens@.len() - self.current,
        {
            proof { syntax::unfold_program(ts, self.current as int, view_stmts(statements@)); }
            if self.done() {
                break;
            }
            let s = match self.declaration() {
                Ok(x) => x,
                Err(x) => return Err(x),
            };
            let ghost before = statements@;
            statements.push(s);
            assert(view_stmts(statements@) =~= view_stmts(before).push(view_stmt(s)));
        }
        proof { syntax::unfold_program(ts, self.current as int, view_stmts(statements@)); }
        Ok(statements)
    }
}

} // verus!
