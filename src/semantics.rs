//! The meaning of programs: a big-step relation between a state before, a state after and an
//! outcome, for expressions, lists of expressions, statements, blocks and calls. Each relation
//! carries a nesting budget that every nested step spends, as the interpreter does.

use vstd::prelude::*;
use crate::environment::{assign_in, define_in, find_name, lookup, FrameView};
use crate::expr::Expr;
use crate::interpreter::{binary_result, is_binary_op, truthy, unary_outcome, value_text};
use crate::procedure::{Native, Procedure};
use crate::stmt::Stmt;
use crate::token::{Token, TokenType};
use crate::vari::{RuntimeErrorKind, VariError, VariTypes};

verus! {

/// What execution reads and changes: the scopes, the active scope, the structs and the lines
/// printed.
pub struct State {
    pub frames: Seq<FrameView>,
    pub env: usize,
    pub structs: Seq<FrameView>,
    pub output: Seq<Seq<char>>,
}

pub open spec fn rt(kind: RuntimeErrorKind, line: usize) -> VariError {
    VariError::Runtime { kind, line }
}

pub open spec fn empty_frame(enclosing: Option<usize>) -> FrameView {
    FrameView { names: Seq::empty(), values: Seq::empty(), enclosing }
}

/// A witness marker for the existential steps of the relations below.
pub open spec fn pick<A, B>(a: A, b: B) -> bool {
    true
}

/// The values after the first, or the error.
pub open spec fn rest_values(r: Result<Seq<VariTypes>, VariError>) -> Result<Seq<VariTypes>, VariError> {
    match r {
        Ok(ws) => Ok(ws.drop_first()),
        Err(x) => Err(x),
    }
}

/// `vs` followed by the values of `rest`, or the error of `rest`.
pub open spec fn prepend_values(vs: Seq<VariTypes>, rest: Result<Seq<VariTypes>, VariError>) -> Result<Seq<VariTypes>, VariError> {
    match rest {
        Ok(ws) => Ok(vs + ws),
        Err(x) => Err(x),
    }
}

/// The values of a vector of results, as a sequence.
pub open spec fn values_of(r: Result<Vec<VariTypes>, VariError>) -> Result<Seq<VariTypes>, VariError> {
    match r {
        Ok(vs) => Ok(vs@),
        Err(x) => Err(x),
    }
}

pub open spec fn arity_of(p: Procedure) -> usize {
    match p {
        Procedure::Native { arity, .. } => arity,
        Procedure::User { arity, .. } => arity,
    }
}

/// Scope `h` after binding the first `n` parameters to the first `n` arguments, in order.
pub open spec fn bind_params(fs: Seq<FrameView>, h: int, params: Seq<Token>, args: Seq<VariTypes>, n: nat) -> Seq<FrameView>
    decreases n,
{
    if n == 0 {
        fs
    } else {
        define_in(bind_params(fs, h, params, args, (n - 1) as nat), h, params[n - 1].lexeme@, args[n - 1])
    }
}

/// Struct `h` after installing the first `n` fields, in order.
pub open spec fn define_fields(fs: Seq<FrameView>, h: int, names: Seq<Seq<char>>, vals: Seq<VariTypes>, n: nat) -> Seq<FrameView>
    decreases n,
{
    if n == 0 {
        fs
    } else {
        define_in(define_fields(fs, h, names, vals, (n - 1) as nat), h, names[n - 1], vals[n - 1])
    }
}

pub open spec fn field_names(values: Seq<(String, Expr)>) -> Seq<Seq<char>> {
    values.map_values(|p: (String, Expr)| p.0@)
}

pub open spec fn field_exprs(values: Seq<(String, Expr)>) -> Seq<Expr> {
    values.map_values(|p: (String, Expr)| p.1)
}

/// Evaluating `e` from `s0` ends in `s1` with outcome `r`.
pub open spec fn eval_rel(e: Expr, s0: State, s1: State, r: Result<VariTypes, VariError>, depth: int) -> bool
    decreases depth, 1int, 0int,
{
    if depth <= 0 {
        s1 == s0 && r == Err::<VariTypes, VariError>(rt(RuntimeErrorKind::TooDeep, 0))
    } else {
        let d = depth - 1;
        match e {
            Expr::Literal { value } => s1 == s0 && r == Ok::<VariTypes, VariError>(*value),
            Expr::Grouping { expr } => eval_rel(*expr, s0, s1, r, d),
            Expr::Variable { value } => s1 == s0 && r == match lookup(s0.frames, s0.env as int, value.lexeme@) {
                Some(v) => Ok::<VariTypes, VariError>(v),
                None => Err(rt(RuntimeErrorKind::UndefinedVariable, value.line)),
            },
            Expr::Assign { name, value_expr } => exists|sm: State, res: Result<VariTypes, VariError>|
                #[trigger] pick(sm, res) && eval_rel(*value_expr, s0, sm, res, d) && match res {
                    Err(x) => s1 == sm && r == Err::<VariTypes, VariError>(x),
                    Ok(v) => match assign_in(sm.frames, sm.env as int, name.lexeme@, v) {
                        Some(fs) => s1 == State { frames: fs, ..sm } && r == Ok::<VariTypes, VariError>(v),
                        None => s1 == sm && r == Err::<VariTypes, VariError>(rt(RuntimeErrorKind::UndefinedVariable, name.line)),
                    },
                },
            Expr::Unary { op, rhs } => exists|sm: State, res: Result<VariTypes, VariError>|
                #[trigger] pick(sm, res) && eval_rel(*rhs, s0, sm, res, d) && s1 == sm && match res {
                    Err(x) => r == Err::<VariTypes, VariError>(x),
                    Ok(v) => if op.token_type == TokenType::NOT || op.token_type == TokenType::MINUS {
                        r == match unary_outcome(op.token_type, v) {
                            Ok(x) => Ok::<VariTypes, VariError>(x),
                            Err(kind) => Err(rt(kind, op.line)),
                        }
                    } else {
                        r == Err::<VariTypes, VariError>(rt(RuntimeErrorKind::OperandMustBeNumber, op.line))
                    },
                },
            Expr::Binary { lhs, op, rhs } => exists|sm: State, res: Result<VariTypes, VariError>|
                #[trigger] pick(sm, res) && eval_rel(*lhs, s0, sm, res, d) && match res {
                    Err(x) => s1 == sm && r == Err::<VariTypes, VariError>(x),
                    Ok(a) => exists|res2: Result<VariTypes, VariError>| #[trigger] pick(s1, res2) && eval_rel(*rhs, sm, s1, res2, d) && match res2 {
                        Err(x) => r == Err::<VariTypes, VariError>(x),
                        Ok(b) => if is_binary_op(op.token_type) {
                            binary_result(op.token_type, a, b, op.line, r)
                        } else {
                            r == Err::<VariTypes, VariError>(rt(RuntimeErrorKind::OperandsMustBeNumbers, op.line))
                        },
                    },
                },
            Expr::Logical { lhs, operator, rhs } => exists|sm: State, res: Result<VariTypes, VariError>|
                #[trigger] pick(sm, res) && eval_rel(*lhs, s0, sm, res, d) && match res {
                    Err(x) => s1 == sm && r == Err::<VariTypes, VariError>(x),
                    Ok(v) => if (operator.token_type == TokenType::OR) == truthy(v) {
                        s1 == sm && r == Ok::<VariTypes, VariError>(v)
                    } else {
                        eval_rel(*rhs, sm, s1, r, d)
                    },
                },
            Expr::Call { callee, paren, args } => exists|sm: State, res: Result<VariTypes, VariError>|
                #[trigger] pick(sm, res) && eval_rel(*callee, s0, sm, res, d) && match res {
                    Err(x) => s1 == sm && r == Err::<VariTypes, VariError>(x),
                    Ok(f) => exists|sm2: State, vals: Result<Seq<VariTypes>, VariError>|
                        #[trigger] pick(sm2, vals) && args_rel(args@, sm, sm2, vals, depth) && match vals {
                            Err(x) => s1 == sm2 && r == Err::<VariTypes, VariError>(x),
                            Ok(vs) => match f {
                                VariTypes::Callable(p) => if vs.len() != arity_of(p) {
                                    s1 == sm2 && r == Err::<VariTypes, VariError>(rt(RuntimeErrorKind::ArityMismatch, paren.line))
                                } else {
                                    call_rel(p, vs, paren.line, sm2, s1, r, d)
                                },
                                _ => s1 == sm2 && r == Err::<VariTypes, VariError>(rt(RuntimeErrorKind::NotCallable, paren.line)),
                            },
                        },
                },
            Expr::Get { expr, name } => exists|sm: State, res: Result<VariTypes, VariError>|
                #[trigger] pick(sm, res) && eval_rel(*expr, s0, sm, res, d) && s1 == sm && match res {
                    Err(x) => r == Err::<VariTypes, VariError>(x),
                    Ok(VariTypes::Struct(h)) => if h < sm.structs.len() {
                        r == Ok::<VariTypes, VariError>(match find_name(sm.structs[h as int].names, name@) {
                            Some(i) => sm.structs[h as int].values[i],
                            None => VariTypes::Nil,
                        })
                    } else {
                        r == Err::<VariTypes, VariError>(rt(RuntimeErrorKind::NotAStruct, 0))
                    },
                    Ok(_) => r == Err::<VariTypes, VariError>(rt(RuntimeErrorKind::NotAStruct, 0)),
                },
            Expr::SetProperty { expr, name, value } => exists|sm: State, res: Result<VariTypes, VariError>|
                #[trigger] pick(sm, res) && eval_rel(*expr, s0, sm, res, d) && match res {
                    Err(x) => s1 == sm && r == Err::<VariTypes, VariError>(x),
                    Ok(VariTypes::Struct(h)) => exists|sm2: State, res2: Result<VariTypes, VariError>|
                        #[trigger] pick(sm2, res2) && eval_rel(*value, sm, sm2, res2, d) && match res2 {
                            Err(x) => s1 == sm2 && r == Err::<VariTypes, VariError>(x),
                            Ok(v) => if h < sm2.structs.len() {
                                s1 == State { structs: define_in(sm2.structs, h as int, name@, v), ..sm2 } && r == Ok::<VariTypes, VariError>(v)
                            } else {
                                s1 == sm2 && r == Err::<VariTypes, VariError>(rt(RuntimeErrorKind::NotAStruct, 0))
                            },
                        },
                    Ok(_) => s1 == sm && r == Err::<VariTypes, VariError>(rt(RuntimeErrorKind::NotAStruct, 0)),
                },
            Expr::Struct { values } => exists|sm: State, vals: Result<Seq<VariTypes>, VariError>|
                #[trigger] pick(sm, vals) && args_rel(field_exprs(values@), s0, sm, vals, depth) && match vals {
                    Err(x) => s1 == sm && r == Err::<VariTypes, VariError>(x),
                    Ok(vs) => s1 == State {
                        structs: define_fields(sm.structs.push(empty_frame(None)), sm.structs.len() as int, field_names(values@), vs, values@.len()),
                        ..sm
                    } && r == Ok::<VariTypes, VariError>(VariTypes::Struct(sm.structs.len() as usize)),
                },
        }
    }
}

/// Evaluating `args` left to right from `s0` ends in `s1` with their values, or with the
/// first error.
pub open spec fn args_rel(args: Seq<Expr>, s0: State, s1: State, r: Result<Seq<VariTypes>, VariError>, depth: int) -> bool
    decreases depth, 0int, args.len() as int,
{
    if args.len() == 0 {
        s1 == s0 && r == Ok::<Seq<VariTypes>, VariError>(Seq::empty())
    } else if depth <= 0 {
        s1 == s0 && r == Err::<Seq<VariTypes>, VariError>(rt(RuntimeErrorKind::TooDeep, 0))
    } else {
        exists|sm: State, res: Result<VariTypes, VariError>|
            #[trigger] pick(sm, res) && eval_rel(args[0], s0, sm, res, depth - 1) && match res {
                Err(x) => s1 == sm && r == Err::<Seq<VariTypes>, VariError>(x),
                Ok(v) => args_rel(args.drop_first(), sm, s1, rest_values(r), depth)
                    && (r matches Ok(ws) ==> ws.len() > 0 && ws[0] == v),
            }
    }
}

/// Executing `stmt` from `s0` ends in `s1` with outcome `r`.
pub open spec fn exec_rel(stmt: Stmt, s0: State, s1: State, r: Result<(), VariError>, depth: int) -> bool
    decreases depth, 2int, 0int,
{
    if depth <= 0 {
        s1 == s0 && r == Err::<(), VariError>(rt(RuntimeErrorKind::TooDeep, 0))
    } else {
        let d = depth - 1;
        match stmt {
            Stmt::Expression(e) => exists|res: Result<VariTypes, VariError>| #[trigger] pick(s1, res) && eval_rel(e, s0, s1, res, d)
                && (r is Ok) == (res is Ok) && (res matches Err(x) ==> r == Err::<(), VariError>(x)),
            Stmt::Print(e) => exists|sm: State, res: Result<VariTypes, VariError>|
                #[trigger] pick(sm, res) && eval_rel(e, s0, sm, res, d) && match res {
                    Err(x) => s1 == sm && r == Err::<(), VariError>(x),
                    Ok(v) => s1 == State { output: sm.output.push(value_text(v)), ..sm } && r is Ok,
                },
            Stmt::Var(name, init) => match init {
                Some(e) => exists|sm: State, res: Result<VariTypes, VariError>|
                    #[trigger] pick(sm, res) && eval_rel(e, s0, sm, res, d) && match res {
                        Err(x) => s1 == sm && r == Err::<(), VariError>(x),
                        Ok(v) => s1 == State { frames: define_in(sm.frames, sm.env as int, name.lexeme@, v), ..sm } && r is Ok,
                    },
                None => s1 == State { frames: define_in(s0.frames, s0.env as int, name.lexeme@, VariTypes::Nil), ..s0 } && r is Ok,
            },
            Stmt::Block(stmts) => block_rel(stmts@, s0.frames.len() as usize,
                State { frames: s0.frames.push(empty_frame(Some(s0.env))), ..s0 }, s1, r, d),
            Stmt::If(cond, then_branch, else_branch) => exists|sm: State, res: Result<VariTypes, VariError>|
                #[trigger] pick(sm, res) && eval_rel(cond, s0, sm, res, d) && match res {
                    Err(x) => s1 == sm && r == Err::<(), VariError>(x),
                    Ok(v) => if truthy(v) {
                        exec_rel(*then_branch, sm, s1, r, d)
                    } else {
                        match else_branch {
                            Some(s) => exec_rel(*s, sm, s1, r, d),
                            None => s1 == sm && r is Ok,
                        }
                    },
                },
            Stmt::While(cond, body) => loop_rel(cond, *body, s0, s1, r, depth, depth),
            Stmt::Function(decl) => s1 == State {
                frames: define_in(s0.frames, s0.env as int, decl.name.lexeme@,
                    VariTypes::Callable(Procedure::User { arity: decl.params@.len() as usize, decl, closure: s0.env })),
                ..s0
            } && r is Ok,
            Stmt::Return(_, e) => exists|sm: State, res: Result<VariTypes, VariError>|
                #[trigger] pick(sm, res) && eval_rel(e, s0, sm, res, d) && s1 == sm && r == match res {
                    Ok(v) => Err::<(), VariError>(VariError::Return(v)),
                    Err(x) => Err(x),
                },
        }
    }
}

/// A `while` loop with at most `k` more rounds: each round evaluates the condition and, while
/// it is true, runs the body; running out of rounds is an error.
pub open spec fn loop_rel(cond: Expr, body: Stmt, s0: State, s1: State, r: Result<(), VariError>, depth: int, k: int) -> bool
    decreases depth, 1int, k,
{
    if k <= 0 || depth <= 0 {
        s1 == s0 && r == Err::<(), VariError>(rt(RuntimeErrorKind::TooDeep, 0))
    } else {
        let d = depth - 1;
        exists|sm: State, res: Result<VariTypes, VariError>|
            #[trigger] pick(sm, res) && eval_rel(cond, s0, sm, res, d) && match res {
                Err(x) => s1 == sm && r == Err::<(), VariError>(x),
                Ok(v) => if !truthy(v) {
                    s1 == sm && r is Ok
                } else {
                    exists|sm2: State, rb: Result<(), VariError>| #[trigger] pick(sm2, rb) && exec_rel(body, sm, sm2, rb, d) && match rb {
                        Err(x) => s1 == sm2 && r == Err::<(), VariError>(x),
                        Ok(()) => loop_rel(cond, body, sm2, s1, r, depth, k - 1),
                    }
                },
            }
    }
}

/// Executing `stmts` in order from `s0`, stopping at the first one that does not complete
/// normally.
pub open spec fn seq_rel(stmts: Seq<Stmt>, s0: State, s1: State, r: Result<(), VariError>, depth: int) -> bool
    decreases depth, 3int, stmts.len() as int,
{
    if stmts.len() == 0 {
        s1 == s0 && r is Ok
    } else {
        exists|sm: State, r1: Result<(), VariError>| #[trigger] pick(sm, r1) && exec_rel(stmts[0], s0, sm, r1, depth) && match r1 {
            Err(x) => s1 == sm && r == Err::<(), VariError>(x),
            Ok(()) => seq_rel(stmts.drop_first(), sm, s1, r, depth),
        }
    }
}

/// Executing `stmts` with `scope` as the active scope; afterwards the scope active before is
/// active again, however the statements ended.
pub open spec fn block_rel(stmts: Seq<Stmt>, scope: usize, s0: State, s1: State, r: Result<(), VariError>, depth: int) -> bool
    decreases depth, 4int, 0int,
{
    exists|sm: State| #[trigger] pick(sm, r) && seq_rel(stmts, State { env: scope, ..s0 }, sm, r, depth) && s1 == State { env: s0.env, ..sm }
}

/// Calling `p` on `args` from `s0` ends in `s1` with outcome `r`. The built-in clock yields
/// some whole, non-negative number.
pub open spec fn call_rel(p: Procedure, args: Seq<VariTypes>, line: usize, s0: State, s1: State, r: Result<VariTypes, VariError>, depth: int) -> bool
    decreases depth, 5int, 0int,
{
    if depth <= 0 {
        s1 == s0 && r == Err::<VariTypes, VariError>(rt(RuntimeErrorKind::TooDeep, line))
    } else {
        match p {
            Procedure::Native { body, .. } => match body {
                Native::Clock => s1 == s0 && (r matches Ok(VariTypes::Num(n)) && n.den == 1 && n.num >= 0),
            },
            Procedure::User { decl, closure, .. } => if closure >= s0.frames.len() {
                s1 == s0 && r == Err::<VariTypes, VariError>(rt(RuntimeErrorKind::NotCallable, line))
            } else {
                let scope = s0.frames.len() as int;
                let n = if decl.params@.len() < args.len() { decl.params@.len() } else { args.len() };
                let fs = bind_params(s0.frames.push(empty_frame(Some(closure))), scope, decl.params@, args, n);
                exists|sm: State, rb: Result<(), VariError>|
                    #[trigger] pick(sm, rb) && block_rel(decl.body@, scope as usize, State { frames: fs, ..s0 }, sm, rb, depth - 1)
                        && s1 == sm && r == match rb {
                        Ok(()) => Ok::<VariTypes, VariError>(VariTypes::Nil),
                        Err(VariError::Return(v)) => Ok(v),
                        Err(x) => Err(x),
                    }
            },
        }
    }
}



/// A block gives back the scope that was active before it, however its statements ended:
/// normally, through a `return`, or with an error.
pub proof fn lemma_block_restores_scope(stmts: Seq<Stmt>, scope: usize, s0: State, s1: State, r: Result<(), VariError>, depth: int)
    requires
        block_rel(stmts, scope, s0, s1, r, depth),
    ensures
        s1.env == s0.env,
{
    let sm = choose|sm: State| #[trigger] pick(sm, r) && seq_rel(stmts, State { env: scope, ..s0 }, sm, r, depth) && s1 == State { env: s0.env, ..sm };
}

/// In `false and X` the right operand is never evaluated: whatever `X` is, the result is
/// `false` and the state is unchanged.
pub proof fn lemma_false_and_skips(x: Expr, operator: Token, s0: State, s1: State, r: Result<VariTypes, VariError>, depth: int)
    requires
        operator.token_type == TokenType::AND,
        depth > 1,
        eval_rel(Expr::Logical {
            lhs: Box::new(Expr::Literal { value: Box::new(VariTypes::Boolean(false)) }),
            operator,
            rhs: Box::new(x),
        }, s0, s1, r, depth),
    ensures
        s1 == s0,
        r == Ok::<VariTypes, VariError>(VariTypes::Boolean(false)),
{
    let lit = Expr::Literal { value: Box::new(VariTypes::Boolean(false)) };
    let (sm, res) = choose|sm: State, res: Result<VariTypes, VariError>| #[trigger] pick(sm, res) && eval_rel(lit, s0, sm, res, depth - 1) && match res {
        Err(x) => s1 == sm && r == Err::<VariTypes, VariError>(x),
        Ok(v) => if (operator.token_type == TokenType::OR) == truthy(v) {
            s1 == sm && r == Ok::<VariTypes, VariError>(v)
        } else {
            eval_rel(x, sm, s1, r, depth - 1)
        },
    };
    assert(sm == s0 && res == Ok::<VariTypes, VariError>(VariTypes::Boolean(false)));
}

/// In `true or X` the right operand is never evaluated: whatever `X` is, the result is
/// `true` and the state is unchanged.
pub proof fn lemma_true_or_skips(x: Expr, operator: Token, s0: State, s1: State, r: Result<VariTypes, VariError>, depth: int)
    requires
        operator.token_type == TokenType::OR,
        depth > 1,
        eval_rel(Expr::Logical {
            lhs: Box::new(Expr::Literal { value: Box::new(VariTypes::Boolean(true)) }),
            operator,
            rhs: Box::new(x),
        }, s0, s1, r, depth),
    ensures
        s1 == s0,
        r == Ok::<VariTypes, VariError>(VariTypes::Boolean(true)),
{
    let lit = Expr::Literal { value: Box::new(VariTypes::Boolean(true)) };
    let (sm, res) = choose|sm: State, res: Result<VariTypes, VariError>| #[trigger] pick(sm, res) && eval_rel(lit, s0, sm, res, depth - 1) && match res {
        Err(x) => s1 == sm && r == Err::<VariTypes, VariError>(x),
        Ok(v) => if (operator.token_type == TokenType::OR) == truthy(v) {
            s1 == sm && r == Ok::<VariTypes, VariError>(v)
        } else {
            eval_rel(x, sm, s1, r, depth - 1)
        },
    };
    assert(sm == s0 && res == Ok::<VariTypes, VariError>(VariTypes::Boolean(true)));
}

/// A `return` ends the statements it stands in: when the first statement returns a value,
/// the statements after it are not executed, the state is left as it was, and the `return`
/// signal carries the value outwards.
pub proof fn lemma_return_skips_rest(keyword: Token, value: VariTypes, rest: Seq<Stmt>, s0: State, s1: State, r: Result<(), VariError>, depth: int)
    requires
        depth > 1,
        seq_rel(seq![Stmt::Return(keyword, Expr::Literal { value: Box::new(value) })] + rest, s0, s1, r, depth),
    ensures
        s1 == s0,
        r == Err::<(), VariError>(VariError::Return(value)),
{
    let stmts = seq![Stmt::Return(keyword, Expr::Literal { value: Box::new(value) })] + rest;
    let ret = stmts[0];
    let e = Expr::Literal { value: Box::new(value) };
    let (sm, r1) = choose|sm: State, r1: Result<(), VariError>| #[trigger] pick(sm, r1) && exec_rel(ret, s0, sm, r1, depth) && match r1 {
        Err(x) => s1 == sm && r == Err::<(), VariError>(x),
        Ok(()) => seq_rel(stmts.drop_first(), sm, s1, r, depth),
    };
    let (sm2, res) = choose|sm2: State, res: Result<VariTypes, VariError>| #[trigger] pick(sm2, res) && eval_rel(e, s0, sm2, res, depth - 1)
        && sm == sm2 && r1 == match res {
            Ok(v) => Err::<(), VariError>(VariError::Return(v)),
            Err(x) => Err(x),
        };
    assert(sm2 == s0 && res == Ok::<VariTypes, VariError>(value));
}

} // verus!
