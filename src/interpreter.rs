use vstd::prelude::*;
use crate::environment::{lookup, Environment, FrameView};
use crate::expr::Expr;
use crate::number::{number_text, spec_add, spec_sub, spec_mul, spec_div, spec_rem, spec_neg, spec_cmp, Number};
use crate::procedure::{share_decl, Native, Procedure};
use crate::stmt::Stmt;
use crate::text::{push_str, text};
use crate::token::TokenType;
use crate::vari::{RuntimeErrorKind, VariError, VariTypes};
use crate::semantics::{pick, rest_values, args_rel, bind_params, block_rel, call_rel, define_fields, empty_frame, eval_rel, exec_rel, field_exprs, field_names, loop_rel, prepend_values, rt, seq_rel, values_of, State};

verus! {

/// Truthiness: `nil` and `false` are false, every other value is true.
pub open spec fn truthy(v: VariTypes) -> bool {
    match v {
        VariTypes::Nil => false,
        VariTypes::Boolean(b) => b,
        _ => true,
    }
}

/// Equality of values: `nil` equals only `nil`; numbers, strings and booleans compare by
/// content; values of different kinds, structs and procedures are never equal.
pub open spec fn values_equal(a: VariTypes, b: VariTypes) -> bool {
    match (a, b) {
        (VariTypes::Nil, VariTypes::Nil) => true,
        (VariTypes::Num(x), VariTypes::Num(y)) => x.den > 0 && y.den > 0 && spec_cmp(x, y) == 0,
        (VariTypes::String(x), VariTypes::String(y)) => x@ == y@,
        (VariTypes::Boolean(x), VariTypes::Boolean(y)) => x == y,
        _ => false,
    }
}

/// The text that `print` writes for a value.
pub open spec fn value_text(v: VariTypes) -> Seq<char> {
    match v {
        VariTypes::Nil => seq!['n', 'i', 'l'],
        VariTypes::Boolean(b) => if b { seq!['t', 'r', 'u', 'e'] } else { seq!['f', 'a', 'l', 's', 'e'] },
        VariTypes::Num(n) => if n.den > 0 { number_text(n) } else { seq!['?'] },
        VariTypes::String(s) => s@,
        VariTypes::Struct(_) => seq!['[', 'o', 'b', 'j', 'e', 'c', 't', ']'],
        VariTypes::Callable(p) => match p {
            Procedure::User { decl, .. } => seq!['<', 'f', 'n', ' '] + decl.name.lexeme@ + seq!['>'],
            Procedure::Native { name, .. } => seq!['<', 'n', 'a', 't', 'i', 'v', 'e', ' ', 'f', 'n', ' '] + name@ + seq!['>'],
        },
    }
}

/// The printed lines as text.
pub open spec fn lines_view(o: Seq<String>) -> Seq<Seq<char>> {
    o.map_values(|s: String| s@)
}

pub open spec fn is_prefix<T>(a: Seq<T>, b: Seq<T>) -> bool {
    a.len() <= b.len() && forall|i: int| 0 <= i < a.len() ==> a[i] == b[i]
}

/// The outcome of an arithmetic on numbers: its value, or the error it raises.
pub open spec fn arithmetic(r: Option<Number>, zero_divisor: bool) -> Result<VariTypes, RuntimeErrorKind> {
    match r {
        Some(n) => Ok(VariTypes::Num(n)),
        None => Err(if zero_divisor { RuntimeErrorKind::DivisionByZero } else { RuntimeErrorKind::NumberOverflow }),
    }
}

/// What a binary operator yields on two values, except for `+` on two strings (see
/// `binary_concat`): its value, or the error it raises.
pub open spec fn binary_outcome(op: TokenType, a: VariTypes, b: VariTypes) -> Result<VariTypes, RuntimeErrorKind> {
    if op == TokenType::ISEQ {
        Ok(VariTypes::Boolean(values_equal(a, b)))
    } else if op == TokenType::NE {
        Ok(VariTypes::Boolean(!values_equal(a, b)))
    } else {
        match (a, b) {
            (VariTypes::Num(x), VariTypes::Num(y)) => {
                if !(x.den > 0 && y.den > 0) {
                    Err(RuntimeErrorKind::MalformedNumber)
                } else if op == TokenType::PLUS {
                    arithmetic(spec_add(x, y), false)
                } else if op == TokenType::MINUS {
                    arithmetic(spec_sub(x, y), false)
                } else if op == TokenType::STAR {
                    arithmetic(spec_mul(x, y), false)
                } else if op == TokenType::SLASH {
                    arithmetic(spec_div(x, y), y.num == 0)
                } else if op == TokenType::MODULO {
                    arithmetic(spec_rem(x, y), y.num == 0)
                } else if op == TokenType::GT {
                    Ok(VariTypes::Boolean(spec_cmp(x, y) > 0))
                } else if op == TokenType::GE {
                    Ok(VariTypes::Boolean(spec_cmp(x, y) >= 0))
                } else if op == TokenType::LT {
                    Ok(VariTypes::Boolean(spec_cmp(x, y) < 0))
                } else {
                    Ok(VariTypes::Boolean(spec_cmp(x, y) <= 0))
                }
            },
            (VariTypes::String(_), VariTypes::String(_)) => {
                if op == TokenType::PLUS {
                    // a concatenation; see binary_concat
                    Ok(VariTypes::Nil)
                } else {
                    Err(RuntimeErrorKind::OperandsMustBeNumbers)
                }
            },
            _ => {
                if op == TokenType::PLUS {
                    Err(RuntimeErrorKind::OperandsMustBeNumbersOrStrings)
                } else {
                    Err(RuntimeErrorKind::OperandsMustBeNumbers)
                }
            },
        }
    }
}

/// `op` on `a` and `b` is `+` on two strings.
pub open spec fn binary_concat(op: TokenType, a: VariTypes, b: VariTypes) -> bool {
    op == TokenType::PLUS && a is String && b is String
}

/// `r` is what the binary operator `op` yields on `a` and `b`, with errors on `line`.
pub open spec fn binary_result(op: TokenType, a: VariTypes, b: VariTypes, line: usize, r: Result<VariTypes, VariError>) -> bool {
    if binary_concat(op, a, b) {
        r matches Ok(VariTypes::String(s)) && s@ == a->String_0@ + b->String_0@
    } else {
        match binary_outcome(op, a, b) {
            Ok(v) => r == Ok::<VariTypes, VariError>(v),
            Err(kind) => r == Err::<VariTypes, VariError>(VariError::Runtime { kind, line }),
        }
    }
}

/// The binary operators.
pub open spec fn is_binary_op(op: TokenType) -> bool {
    op == TokenType::PLUS || op == TokenType::MINUS || op == TokenType::STAR || op == TokenType::SLASH
        || op == TokenType::MODULO || op == TokenType::GT || op == TokenType::GE || op == TokenType::LT
        || op == TokenType::LE || op == TokenType::ISEQ || op == TokenType::NE
}

/// What unary `op` yields on `v`.
pub open spec fn unary_outcome(op: TokenType, v: VariTypes) -> Result<VariTypes, RuntimeErrorKind> {
    if op == TokenType::NOT {
        Ok(VariTypes::Boolean(!truthy(v)))
    } else {
        match v {
            VariTypes::Num(n) => if n.den > 0 { arithmetic(spec_neg(n), false) } else { Err(RuntimeErrorKind::MalformedNumber) },
            _ => Err(RuntimeErrorKind::OperandMustBeNumber),
        }
    }
}

fn runtime(kind: RuntimeErrorKind, line: usize) -> (r: VariError)
    ensures
        r == (VariError::Runtime { kind, line }),
{
    VariError::Runtime { kind, line }
}

fn num_result(r: Option<Number>, zero_divisor: bool, line: usize) -> (out: Result<VariTypes, VariError>)
    ensures
        out == (match arithmetic(r, zero_divisor) {
            Ok(v) => Ok::<VariTypes, VariError>(v),
            Err(kind) => Err(VariError::Runtime { kind, line }),
        }),
{
    match r {
        Some(n) => Ok(VariTypes::Num(n)),
        None => Err(runtime(if zero_divisor { RuntimeErrorKind::DivisionByZero } else { RuntimeErrorKind::NumberOverflow }, line)),
    }
}

/// Whether two values are of the same kind.
pub fn same_kind(a: &VariTypes, b: &VariTypes) -> (r: bool)
    ensures
        r == (match (*a, *b) {
            (VariTypes::Nil, VariTypes::Nil) => true,
            (VariTypes::Num(_), VariTypes::Num(_)) => true,
            (VariTypes::String(_), VariTypes::String(_)) => true,
            (VariTypes::Boolean(_), VariTypes::Boolean(_)) => true,
            (VariTypes::Struct(_), VariTypes::Struct(_)) => true,
            (VariTypes::Callable(_), VariTypes::Callable(_)) => true,
            _ => false,
        }),
{
    match (a, b) {
        (VariTypes::Nil, VariTypes::Nil) => true,
        (VariTypes::Num(_), VariTypes::Num(_)) => true,
        (VariTypes::String(_), VariTypes::String(_)) => true,
        (VariTypes::Boolean(_), VariTypes::Boolean(_)) => true,
        (VariTypes::Struct(_), VariTypes::Struct(_)) => true,
        (VariTypes::Callable(_), VariTypes::Callable(_)) => true,
        _ => false,
    }
}

/// Truthiness of a value.
pub fn is_true(v: &VariTypes) -> (r: bool)
    ensures
        r == truthy(*v),
{
    match v {
        VariTypes::Nil => false,
        VariTypes::Boolean(b) => *b,
        _ => true,
    }
}

/// Equality of two values.
pub fn is_equal(a: &VariTypes, b: &VariTypes) -> (r: bool)
    ensures
        r == values_equal(*a, *b),
{
    if !same_kind(a, b) {
        return false;
    }
    match (a, b) {
        (VariTypes::Nil, VariTypes::Nil) => true,
        (VariTypes::Num(x), VariTypes::Num(y)) => x.den > 0 && y.den > 0 && x.compare(y) == 0,
        (VariTypes::String(x), VariTypes::String(y)) => *x == *y,
        (VariTypes::Boolean(x), VariTypes::Boolean(y)) => *x == *y,
        _ => false,
    }
}

/// The text that `print` writes for a value.
pub fn stringify(v: &VariTypes) -> (r: String)
    ensures
        r@ == value_text(*v),
{
    let r = match v {
        VariTypes::Nil => text("nil"),
        VariTypes::Boolean(b) => if *b { text("true") } else { text("false") },
        VariTypes::Num(n) => if n.den > 0 { n.to_text() } else { text("?") },
        VariTypes::String(s) => s.clone(),
        VariTypes::Struct(_) => text("[object]"),
        VariTypes::Callable(p) => match p {
            Procedure::User { decl, .. } => {
                let mut out = text("<fn ");
                push_str(&mut out, &decl.name.lexeme);
                push_str(&mut out, &text(">"));
                out
            },
            Procedure::Native { name, .. } => {
                let mut out = text("<native fn ");
                push_str(&mut out, name);
                push_str(&mut out, &text(">"));
                out
            },
        },
    };
    proof {
        reveal_strlit("nil");
        reveal_strlit("true");
        reveal_strlit("false");
        reveal_strlit("?");
        reveal_strlit("[object]");
        reveal_strlit("<fn ");
        reveal_strlit(">");
        reveal_strlit("<native fn ");
        assert(r@ =~= value_text(*v));
    }
    r
}

/// Applies the binary operator `op` to two values; errors are reported on `line`.
pub fn binary_op(op: TokenType, a: &VariTypes, b: &VariTypes, line: usize) -> (r: Result<VariTypes, VariError>)
    requires
        is_binary_op(op),
    ensures
        binary_result(op, *a, *b, line, r),
{
    if op == TokenType::ISEQ {
        return Ok(VariTypes::Boolean(is_equal(a, b)));
    }
    if op == TokenType::NE {
        return Ok(VariTypes::Boolean(!is_equal(a, b)));
    }
    match (a, b) {
        (VariTypes::Num(x), VariTypes::Num(y)) => {
            if !(x.den > 0 && y.den > 0) {
                return Err(runtime(RuntimeErrorKind::MalformedNumber, line));
            }
            match op {
                TokenType::PLUS => num_result(x.add(y), false, line),
                TokenType::MINUS => num_result(x.sub(y), false, line),
                TokenType::STAR => num_result(x.mul(y), false, line),
                TokenType::SLASH => num_result(x.div(y), y.num == 0, line),
                TokenType::MODULO => num_result(x.rem(y), y.num == 0, line),
                TokenType::GT => Ok(VariTypes::Boolean(x.compare(y) > 0)),
                TokenType::GE => Ok(VariTypes::Boolean(x.compare(y) >= 0)),
                TokenType::LT => Ok(VariTypes::Boolean(x.compare(y) < 0)),
                _ => Ok(VariTypes::Boolean(x.compare(y) <= 0)),
            }
        },
        (VariTypes::String(x), VariTypes::String(y)) => {
            if op == TokenType::PLUS {
                let mut s = x.clone();
                push_str(&mut s, y);
                Ok(VariTypes::String(s))
            } else {
                Err(runtime(RuntimeErrorKind::OperandsMustBeNumbers, line))
            }
        },
        _ => {
            if op == TokenType::PLUS {
                Err(runtime(RuntimeErrorKind::OperandsMustBeNumbersOrStrings, line))
            } else {
                Err(runtime(RuntimeErrorKind::OperandsMustBeNumbers, line))
            }
        },
    }
}

/// Applies unary `op` (`!` or `-`) to a value; errors are reported on `line`.
pub fn unary_op(op: TokenType, v: &VariTypes, line: usize) -> (r: Result<VariTypes, VariError>)
    requires
        op == TokenType::NOT || op == TokenType::MINUS,
    ensures
        r == (match unary_outcome(op, *v) {
            Ok(x) => Ok::<VariTypes, VariError>(x),
            Err(kind) => Err(VariError::Runtime { kind, line }),
        }),
{
    if op == TokenType::NOT {
        return Ok(VariTypes::Boolean(!is_true(v)));
    }
    match v {
        VariTypes::Num(n) => {
            if n.den > 0 {
                num_result(n.neg(), false, line)
            } else {
                Err(runtime(RuntimeErrorKind::MalformedNumber, line))
            }
        },
        _ => Err(runtime(RuntimeErrorKind::OperandMustBeNumber, line)),
    }
}


/// Relies on `SystemTime::now`, `duration_since(UNIX_EPOCH)` and `Duration::as_millis`: the
/// milliseconds since the POSIX epoch, or `None` for a clock set before it. Nothing is
/// promised of the value.
#[verifier::external_body]
fn now_millis() -> (r: Option<u128>) {
    match std::time::SystemTime::now().duration_since(std::time::UNIX_EPOCH) {
        Ok(d) => Some(d.as_millis()),
        Err(_) => None,
    }
}

/// The built-in `clock`: the milliseconds since the POSIX epoch, as a whole number.
pub fn clock(_args: &Vec<VariTypes>) -> (r: VariTypes)
    ensures
        r matches VariTypes::Num(n) && n.den == 1 && n.num >= 0,
{
    // a clock set before the epoch reads as the epoch; one beyond the range of a number reads
    // as the largest number
    let n: i64 = match now_millis() {
        Some(ms) => if ms <= 0x7fff_ffff_ffff_ffff { ms as i64 } else { 0x7fff_ffff_ffff_ffff },
        None => 0,
    };
    VariTypes::Num(Number::from_int(n))
}

/// How deeply blocks, expressions and calls may nest.
pub const MAX_DEPTH: u64 = 0xffff_ffff_ffff_ffff;

/// The evaluator: the store of scopes, the global scope and the active one, the store of
/// structs, and the lines written by `print`.
pub struct Interpreter {
    pub globals: usize,
    pub env: usize,
    pub environment: Environment,
    pub structs: Environment,
    pub output: Vec<String>,
}

/// What every step of execution keeps: the scopes and struct stores stay well formed, the
/// global and the active scope stay where they were, no scope or struct is removed, and what
/// was printed stays printed.
pub open spec fn keeps(before: Interpreter, after: Interpreter) -> bool {
    &&& after.environment.wf()
    &&& after.structs.wf()
    &&& after.globals == before.globals
    &&& after.env == before.env
    &&& before.environment@.len() <= after.environment@.len()
    &&& before.structs@.len() <= after.structs@.len()
    &&& is_prefix(before.output@, after.output@)
}

impl Interpreter {
    /// The text that `print` writes for a value.
    pub fn stringify(&self, v: &VariTypes) -> (r: String)
        ensures
            r@ == value_text(*v),
    {
        stringify(v)
    }

    /// What execution reads and changes.
    pub open spec fn state(&self) -> State {
        State { frames: self.environment@, env: self.env, structs: self.structs@, output: lines_view(self.output@) }
    }

    pub open spec fn wf(&self) -> bool {
        &&& self.environment.wf()
        &&& self.structs.wf()
        &&& self.globals < self.environment@.len()
        &&& self.env < self.environment@.len()
    }

    /// An interpreter whose global scope holds the built-in `clock`, with a fresh scope
    /// enclosed by it as the active one.
    pub fn new() -> (r: Self)
        ensures
            r.wf(),
            r.globals == 0,
            r.env == 1,
            r.environment@.len() == 2,
            r.environment@[1].enclosing == Some(0usize),
            r.environment@[1].names.len() == 0,
            r.environment@[0].names == seq![seq!['c', 'l', 'o', 'c', 'k']],
            r.environment@[0].values.len() == 1,
            r.environment@[0].values[0] matches VariTypes::Callable(Procedure::Native { name, arity, body })
                && name@ == seq!['c', 'l', 'o', 'c', 'k'] && arity == 0 && body == Native::Clock,
            lookup(r.environment@, 0, seq!['c', 'l', 'o', 'c', 'k']) == Some(r.environment@[0].values[0]),
            r.output@.len() == 0,
            r.structs@.len() == 0,
    {
        let mut environment = Environment::new();
        let clock_name = text("clock");
        proof { reveal_strlit("clock"); }
        assert(clock_name@ =~= seq!['c', 'l', 'o', 'c', 'k']);
        let clock = Procedure::Native { name: clock_name, arity: 0, body: Native::Clock };
        let name = text("clock");
        proof { reveal_strlit("clock"); }
        assert(name@ =~= seq!['c', 'l', 'o', 'c', 'k']);
        environment.define(0, name, VariTypes::Callable(clock));
        assert(environment@[0].names =~= seq![seq!['c', 'l', 'o', 'c', 'k']]);
        let env = environment.from(0);
        let structs = Environment { frames: Vec::new() };
        assert(structs@ =~= Seq::<FrameView>::empty());
        Interpreter { globals: 0, env, environment, structs, output: Vec::new() }
    }

    /// Evaluates an expression.
    pub fn evaluate(&mut self, expr: &Expr) -> (r: Result<VariTypes, VariError>)
        requires
            old(self).wf(),
        ensures
            final(self).wf(),
            keeps(*old(self), *final(self)),
            eval_rel(*expr, old(self).state(), final(self).state(), r, MAX_DEPTH as int),
    {
        self.eval(expr, MAX_DEPTH)
    }

    /// Evaluates `args` left to right, stopping at the first error.
    fn eval_args(&mut self, args: &Vec<Expr>, depth: u64) -> (r: Result<Vec<VariTypes>, VariError>)
        requires
            old(self).wf(),
            depth > 0,
        ensures
            final(self).wf(),
            keeps(*old(self), *final(self)),
            args_rel(args@, old(self).state(), final(self).state(), values_of(r), depth as int),
        decreases depth, 1int,
    {
        let ghost s0 = self.state();
        let ghost n = args@.len() as int;
        let mut vals: Vec<VariTypes> = Vec::new();
        let mut i: usize = 0;
        proof {
            assert(args@.subrange(0, n) =~= args@);
            assert forall|sf: State, rest: Result<Seq<VariTypes>, VariError>|
                #[trigger] args_rel(args@.subrange(0, n), s0, sf, rest, depth as int)
                implies args_rel(args@, s0, sf, prepend_values(vals@, rest), depth as int) by {
                assert(vals@ =~= Seq::<VariTypes>::empty());
                match rest {
                    Ok(ws) => { assert(vals@ + ws =~= ws); },
                    Err(_) => {},
                }
            }
        }
        while i < args.len()
            invariant
                self.wf(),
                keeps(*old(self), *self),
                i <= args@.len(),
                n == args@.len(),
                depth > 0,
                s0 == old(self).state(),
                forall|sf: State, rest: Result<Seq<VariTypes>, VariError>|
                    #[trigger] args_rel(args@.subrange(i as int, n), self.state(), sf, rest, depth as int)
                    ==> args_rel(args@, s0, sf, prepend_values(vals@, rest), depth as int),
            decreases args@.len() - i,
        {
            let ghost cur = self.state();
            let ghost sub = args@.subrange(i as int, n);
            assert(sub[0] == args@[i as int]);
            assert(sub.drop_first() =~= args@.subrange(i + 1, n));
            let res = self.eval(&args[i], depth - 1);
            proof { assert(pick(self.state(), res)); }
            let ghost nxt = self.state();
            match res {
                Err(x) => {
                    assert(args_rel(sub, cur, nxt, Err::<Seq<VariTypes>, VariError>(x), depth as int));
                    return Err(x);
                },
                Ok(v) => {
                    proof {
                        assert forall|sf: State, rest: Result<Seq<VariTypes>, VariError>|
                            #[trigger] args_rel(args@.subrange(i + 1, n), nxt, sf, rest, depth as int)
                            implies args_rel(args@, s0, sf, prepend_values(vals@.push(v), rest), depth as int) by {
                            assert(pick(nxt, Ok::<VariTypes, VariError>(v)));
                            assert(eval_rel(sub[0], cur, nxt, Ok::<VariTypes, VariError>(v), depth as int - 1));
                            assert(args_rel(sub.drop_first(), nxt, sf, rest, depth as int));
                            match rest {
                                Ok(ws) => {
                                    assert((seq![v] + ws).drop_first() =~= ws);
                                    assert((seq![v] + ws)[0] == v);
                                },
                                Err(_) => {},
                            }
                            assert(rest_values(prepend_values(seq![v], rest)) == rest);
                            assert(args_rel(sub, cur, sf, prepend_values(seq![v], rest), depth as int));
                            match rest {
                                Ok(ws) => { assert(vals@ + (seq![v] + ws) =~= vals@.push(v) + ws); },
                                Err(_) => {},
                            }
                        }
                    }
                    vals.push(v);
                },
            }
            i = i + 1;
        }
        proof {
            assert(args@.subrange(i as int, n) =~= Seq::<Expr>::empty());
            assert(args_rel(args@.subrange(i as int, n), self.state(), self.state(), Ok::<Seq<VariTypes>, VariError>(Seq::empty()), depth as int));
            assert(vals@ + Seq::<VariTypes>::empty() =~= vals@);
        }
        Ok(vals)
    }

    /// Evaluates the field expressions of a struct literal left to right.
    fn eval_fields(&mut self, values: &Vec<(String, Expr)>, depth: u64) -> (r: Result<Vec<VariTypes>, VariError>)
        requires
            old(self).wf(),
            depth > 0,
        ensures
            final(self).wf(),
            keeps(*old(self), *final(self)),
            args_rel(field_exprs(values@), old(self).state(), final(self).state(), values_of(r), depth as int),
            r matches Ok(vs) ==> vs@.len() == values@.len(),
        decreases depth, 1int,
    {
        let ghost s0 = self.state();
        let ghost es = field_exprs(values@);
        let ghost n = values@.len() as int;
        let mut vals: Vec<VariTypes> = Vec::new();
        let mut i: usize = 0;
        proof {
            assert(es.subrange(0, n) =~= es);
            assert forall|sf: State, rest: Result<Seq<VariTypes>, VariError>|
                #[trigger] args_rel(es.subrange(0, n), s0, sf, rest, depth as int)
                implies args_rel(es, s0, sf, prepend_values(vals@, rest), depth as int) by {
                assert(vals@ =~= Seq::<VariTypes>::empty());
                match rest {
                    Ok(ws) => { assert(vals@ + ws =~= ws); },
                    Err(_) => {},
                }
            }
        }
        while i < values.len()
            invariant
                self.wf(),
                keeps(*old(self), *self),
                i <= values@.len(),
                n == values@.len(),
                es == field_exprs(values@),
                vals@.len() == i,
                depth > 0,
                s0 == old(self).state(),
                forall|sf: State, rest: Result<Seq<VariTypes>, VariError>|
                    #[trigger] args_rel(es.subrange(i as int, n), self.state(), sf, rest, depth as int)
                    ==> args_rel(es, s0, sf, prepend_values(vals@, rest), depth as int),
            decreases values@.len() - i,
        {
            let ghost cur = self.state();
            let ghost sub = es.subrange(i as int, n);
            assert(sub[0] == values@[i as int].1);
            assert(sub.drop_first() =~= es.subrange(i + 1, n));
            let res = self.eval(&values[i].1, depth - 1);
            proof { assert(pick(self.state(), res)); }
            let ghost nxt = self.state();
            match res {
                Err(x) => {
                    assert(args_rel(sub, cur, nxt, Err::<Seq<VariTypes>, VariError>(x), depth as int));
                    return Err(x);
                },
                Ok(v) => {
                    proof {
                        assert forall|sf: State, rest: Result<Seq<VariTypes>, VariError>|
                            #[trigger] args_rel(es.subrange(i + 1, n), nxt, sf, rest, depth as int)
                            implies args_rel(es, s0, sf, prepend_values(vals@.push(v), rest), depth as int) by {
                            assert(pick(nxt, Ok::<VariTypes, VariError>(v)));
                            assert(eval_rel(sub[0], cur, nxt, Ok::<VariTypes, VariError>(v), depth as int - 1));
                            assert(args_rel(sub.drop_first(), nxt, sf, rest, depth as int));
                            match rest {
                                Ok(ws) => {
                                    assert((seq![v] + ws).drop_first() =~= ws);
                                    assert((seq![v] + ws)[0] == v);
                                },
                                Err(_) => {},
                            }
                            assert(rest_values(prepend_values(seq![v], rest)) == rest);
                            assert(args_rel(sub, cur, sf, prepend_values(seq![v], rest), depth as int));
                            match rest {
                                Ok(ws) => { assert(vals@ + (seq![v] + ws) =~= vals@.push(v) + ws); },
                                Err(_) => {},
                            }
                        }
                    }
                    vals.push(v);
                },
            }
            i = i + 1;
        }
        proof {
            assert(es.subrange(i as int, n) =~= Seq::<Expr>::empty());
            assert(args_rel(es.subrange(i as int, n), self.state(), self.state(), Ok::<Seq<VariTypes>, VariError>(Seq::empty()), depth as int));
            assert(vals@ + Seq::<VariTypes>::empty() =~= vals@);
        }
        Ok(vals)
    }

    /// Evaluates an expression within the nesting budget `depth`.
    pub fn eval(&mut self, expr: &Expr, depth: u64) -> (r: Result<VariTypes, VariError>)
        requires
            old(self).wf(),
        ensures
            final(self).wf(),
            keeps(*old(self), *final(self)),
            eval_rel(*expr, old(self).state(), final(self).state(), r, depth as int),
        decreases depth, 3int,
    {
        if depth == 0 {
            return Err(runtime(RuntimeErrorKind::TooDeep, 0));
        }
        let ghost s0 = self.state();
        let d: u64 = depth - 1;
        match expr {
            Expr::Literal { value } => Ok((**value).clone()),
            Expr::Grouping { expr } => self.eval(&**expr, d),
            Expr::Variable { value } => {
                match self.environment.get(self.env, &value.lexeme) {
                    Some(v) => Ok(v),
                    None => Err(runtime(RuntimeErrorKind::UndefinedVariable, value.line)),
                }
            },
            Expr::Assign { .. } => self.eval_assign(expr, depth),
            Expr::Unary { .. } => self.eval_unary(expr, depth),
            Expr::Binary { .. } => self.eval_binary(expr, depth),
            Expr::Logical { .. } => self.eval_logical(expr, depth),
            Expr::Call { .. } => self.eval_call(expr, depth),
            Expr::Get { .. } => self.eval_get(expr, depth),
            Expr::SetProperty { .. } => self.eval_set(expr, depth),
            Expr::Struct { .. } => self.eval_struct(expr, depth),
        }
    }

    fn eval_assign(&mut self, expr: &Expr, depth: u64) -> (r: Result<VariTypes, VariError>)
        requires
            old(self).wf(),
            depth > 0,
            expr is Assign,
        ensures
            final(self).wf(),
            keeps(*old(self), *final(self)),
            eval_rel(*expr, old(self).state(), final(self).state(), r, depth as int),
        decreases depth, 2int,
    {
        let ghost s0 = self.state();
        let d: u64 = depth - 1;
        match expr {
            Expr::Assign { name, value_expr } => {
                let res = self.eval(&**value_expr, d);
                proof { assert(pick(self.state(), res)); }
                match res {
                    Err(x) => Err(x),
                    Ok(v) => {
                        if self.environment.assign(self.env, &name.lexeme, v.clone()) {
                            Ok(v)
                        } else {
                            Err(runtime(RuntimeErrorKind::UndefinedVariable, name.line))
                        }
                    },
                }
            },
            _ => {
                proof { assert(false); }
                Err(runtime(RuntimeErrorKind::TooDeep, 0))
            },
        }
    }

    fn eval_unary(&mut self, expr: &Expr, depth: u64) -> (r: Result<VariTypes, VariError>)
        requires
            old(self).wf(),
            depth > 0,
            expr is Unary,
        ensures
            final(self).wf(),
            keeps(*old(self), *final(self)),
            eval_rel(*expr, old(self).state(), final(self).state(), r, depth as int),
        decreases depth, 2int,
    {
        let ghost s0 = self.state();
        let d: u64 = depth - 1;
        match expr {
            Expr::Unary { op, rhs } => {
                let res = self.eval(&**rhs, d);
                proof { assert(pick(self.state(), res)); }
                match res {
                    Err(x) => Err(x),
                    Ok(v) => {
                        if op.token_type == TokenType::NOT || op.token_type == TokenType::MINUS {
                            unary_op(op.token_type, &v, op.line)
                        } else {
                            Err(runtime(RuntimeErrorKind::OperandMustBeNumber, op.line))
                        }
                    },
                }
            },
            _ => {
                proof { assert(false); }
                Err(runtime(RuntimeErrorKind::TooDeep, 0))
            },
        }
    }

    fn eval_binary(&mut self, expr: &Expr, depth: u64) -> (r: Result<VariTypes, VariError>)
        requires
            old(self).wf(),
            depth > 0,
            expr is Binary,
        ensures
            final(self).wf(),
            keeps(*old(self), *final(self)),
            eval_rel(*expr, old(self).state(), final(self).state(), r, depth as int),
        decreases depth, 2int,
    {
        let ghost s0 = self.state();
        let d: u64 = depth - 1;
        match expr {
            Expr::Binary { lhs, op, rhs } => {
                let res1 = self.eval(&**lhs, d);
                proof { assert(pick(self.state(), res1)); }
                let ghost sm = self.state();
                match res1 {
                    Err(x) => Err(x),
                    Ok(left) => {
                        let res2 = self.eval(&**rhs, d);
                        proof { assert(pick(self.state(), res2)); }
                        let ghost s1 = self.state();
                        let out = match res2 {
                            Err(x) => Err(x),
                            Ok(right) => {
                                if is_binary_operator(op.token_type) {
                                    binary_op(op.token_type, &left, &right, op.line)
                                } else {
                                    Err(runtime(RuntimeErrorKind::OperandsMustBeNumbers, op.line))
                                }
                            },
                        };
                        assert(eval_rel(**rhs, sm, s1, res2, d as int));
                        out
                    },
                }
            },
            _ => {
                proof { assert(false); }
                Err(runtime(RuntimeErrorKind::TooDeep, 0))
            },
        }
    }

    fn eval_logical(&mut self, expr: &Expr, depth: u64) -> (r: Result<VariTypes, VariError>)
        requires
            old(self).wf(),
            depth > 0,
            expr is Logical,
        ensures
            final(self).wf(),
            keeps(*old(self), *final(self)),
            eval_rel(*expr, old(self).state(), final(self).state(), r, depth as int),
        decreases depth, 2int,
    {
        let ghost s0 = self.state();
        let d: u64 = depth - 1;
        match expr {
            Expr::Logical { lhs, operator, rhs } => {
                let res = self.eval(&**lhs, d);
                proof { assert(pick(self.state(), res)); }
                match res {
                    Err(x) => Err(x),
                    Ok(left) => {
                        if operator.token_type == TokenType::OR {
                            if is_true(&left) {
                                return Ok(left);
                            }
                        } else {
                            if !is_true(&left) {
                                return Ok(left);
                            }
                        }
                        self.eval(&**rhs, d)
                    },
                }
            },
            _ => {
                proof { assert(false); }
                Err(runtime(RuntimeErrorKind::TooDeep, 0))
            },
        }
    }

    fn eval_call(&mut self, expr: &Expr, depth: u64) -> (r: Result<VariTypes, VariError>)
        requires
            old(self).wf(),
            depth > 0,
            expr is Call,
        ensures
            final(self).wf(),
            keeps(*old(self), *final(self)),
            eval_rel(*expr, old(self).state(), final(self).state(), r, depth as int),
        decreases depth, 2int,
    {
        let ghost s0 = self.state();
        let d: u64 = depth - 1;
        match expr {
            Expr::Call { callee, paren, args } => {
                let res = self.eval(&**callee, d);
                proof { assert(pick(self.state(), res)); }
                let ghost sm = self.state();
                match res {
                    Err(x) => Err(x),
                    Ok(f) => {
                        let vals = self.eval_args(args, depth);
                        proof { assert(pick(self.state(), values_of(vals))); }
                        let ghost sm2 = self.state();
                        let ghost gv = values_of(vals);
                        assert(args_rel(args@, sm, sm2, gv, depth as int));
                        match vals {
                            Err(x) => Err(x),
                            Ok(vs) => match f {
                                VariTypes::Callable(p) => {
                                    if vs.len() != p.arity() {
                                        return Err(runtime(RuntimeErrorKind::ArityMismatch, paren.line));
                                    }
                                    p.call(self, vs, paren.line, d)
                                },
                                _ => Err(runtime(RuntimeErrorKind::NotCallable, paren.line)),
                            },
                        }
                    },
                }
            },
            _ => {
                proof { assert(false); }
                Err(runtime(RuntimeErrorKind::TooDeep, 0))
            },
        }
    }

    fn eval_get(&mut self, expr: &Expr, depth: u64) -> (r: Result<VariTypes, VariError>)
        requires
            old(self).wf(),
            depth > 0,
            expr is Get,
        ensures
            final(self).wf(),
            keeps(*old(self), *final(self)),
            eval_rel(*expr, old(self).state(), final(self).state(), r, depth as int),
        decreases depth, 2int,
    {
        let ghost s0 = self.state();
        let d: u64 = depth - 1;
        match expr {
            Expr::Get { expr, name } => {
                let res = self.eval(&**expr, d);
                proof { assert(pick(self.state(), res)); }
                match res {
                    Err(x) => Err(x),
                    Ok(obj) => match obj {
                        VariTypes::Struct(h) => {
                            if h >= self.structs.frames.len() {
                                return Err(runtime(RuntimeErrorKind::NotAStruct, 0));
                            }
                            match self.structs.get_local(h, name) {
                                Some(v) => Ok(v),
                                None => Ok(VariTypes::Nil),
                            }
                        },
                        _ => Err(runtime(RuntimeErrorKind::NotAStruct, 0)),
                    },
                }
            },
            _ => {
                proof { assert(false); }
                Err(runtime(RuntimeErrorKind::TooDeep, 0))
            },
        }
    }

    fn eval_set(&mut self, expr: &Expr, depth: u64) -> (r: Result<VariTypes, VariError>)
        requires
            old(self).wf(),
            depth > 0,
            expr is SetProperty,
        ensures
            final(self).wf(),
            keeps(*old(self), *final(self)),
            eval_rel(*expr, old(self).state(), final(self).state(), r, depth as int),
        decreases depth, 2int,
    {
        let ghost s0 = self.state();
        let d: u64 = depth - 1;
        match expr {
            Expr::SetProperty { expr, name, value } => {
                let res = self.eval(&**expr, d);
                proof { assert(pick(self.state(), res)); }
                let ghost sm = self.state();
                match res {
                    Err(x) => Err(x),
                    Ok(obj) => match obj {
                        VariTypes::Struct(h) => {
                            let res2 = self.eval(&**value, d);
                            proof { assert(pick(self.state(), res2)); }
                            let ghost sm2 = self.state();
                            assert(eval_rel(**value, sm, sm2, res2, d as int));
                            match res2 {
                                Err(x) => Err(x),
                                Ok(v) => {
                                    if h >= self.structs.frames.len() {
                                        return Err(runtime(RuntimeErrorKind::NotAStruct, 0));
                                    }
                                    self.structs.define(h, name.clone(), v.clone());
                                    Ok(v)
                                },
                            }
                        },
                        _ => Err(runtime(RuntimeErrorKind::NotAStruct, 0)),
                    },
                }
            },
            _ => {
                proof { assert(false); }
                Err(runtime(RuntimeErrorKind::TooDeep, 0))
            },
        }
    }

    fn eval_struct(&mut self, expr: &Expr, depth: u64) -> (r: Result<VariTypes, VariError>)
        requires
            old(self).wf(),
            depth > 0,
            expr is Struct,
        ensures
            final(self).wf(),
            keeps(*old(self), *final(self)),
            eval_rel(*expr, old(self).state(), final(self).state(), r, depth as int),
        decreases depth, 2int,
    {
        let ghost s0 = self.state();
        let d: u64 = depth - 1;
        match expr {
            Expr::Struct { values } => {
                let res = self.eval_fields(values, depth);
                proof { assert(pick(self.state(), values_of(res))); }
                let ghost sm = self.state();
                let ghost gv = values_of(res);
                assert(args_rel(field_exprs(values@), s0, sm, gv, depth as int));
                match res {
                    Err(x) => Err(x),
                    Ok(fields) => {
                        let h = self.structs.add_root();
                        let ghost base = self.structs@;
                        let mut k: usize = 0;
                        while k < values.len()
                            invariant
                                self.wf(),
                                keeps(*old(self), *self),
                                k <= values@.len(),
                                fields@.len() == values@.len(),
                                h < self.structs@.len(),
                                h == sm.structs.len(),
                                base == sm.structs.push(empty_frame(None)),
                                self.structs@ == define_fields(base, h as int, field_names(values@), fields@, k as nat),
                                self.state() == (State { structs: self.structs@, ..sm }),
                            decreases values@.len() - k,
                        {
                            assert(field_names(values@)[k as int] == values@[k as int].0@);
                            self.structs.define(h, values[k].0.clone(), fields[k].clone());
                            k = k + 1;
                        }
                        Ok(VariTypes::Struct(h))
                    },
                }
            },
            _ => {
                proof { assert(false); }
                Err(runtime(RuntimeErrorKind::TooDeep, 0))
            },
        }
    }

}

fn is_binary_operator(op: TokenType) -> (r: bool)
    ensures
        r == is_binary_op(op),
{
    op == TokenType::PLUS || op == TokenType::MINUS || op == TokenType::STAR || op == TokenType::SLASH
        || op == TokenType::MODULO || op == TokenType::GT || op == TokenType::GE || op == TokenType::LT
        || op == TokenType::LE || op == TokenType::ISEQ || op == TokenType::NE
}


impl Interpreter {
    /// Executes a statement within the nesting budget `depth`.
    pub fn execute(&mut self, stmt: &Stmt, depth: u64) -> (r: Result<(), VariError>)
        requires
            old(self).wf(),
        ensures
            final(self).wf(),
            keeps(*old(self), *final(self)),
            exec_rel(*stmt, old(self).state(), final(self).state(), r, depth as int),
        decreases depth, 2int,
    {
        if depth == 0 {
            return Err(runtime(RuntimeErrorKind::TooDeep, 0));
        }
        let ghost s0 = self.state();
        let d: u64 = depth - 1;
        match stmt {
            Stmt::Expression(e) => {
                let res = self.eval(e, d);
                proof { assert(pick(self.state(), res)); }
                match res {
                    Ok(_) => Ok(()),
                    Err(x) => Err(x),
                }
            },
            Stmt::Print(e) => {
                let res = self.eval(e, d);
                proof { assert(pick(self.state(), res)); }
                match res {
                    Err(x) => Err(x),
                    Ok(v) => {
                        let line = stringify(&v);
                        let ghost before = self.output@;
                        self.output.push(line);
                        assert(lines_view(self.output@) =~= lines_view(before).push(value_text(v)));
                        Ok(())
                    },
                }
            },
            Stmt::Var(name, init) => {
                match init {
                    Some(e) => {
                        let res = self.eval(e, d);
                        proof { assert(pick(self.state(), res)); }
                        match res {
                            Err(x) => Err(x),
                            Ok(v) => {
                                self.environment.define(self.env, name.lexeme.clone(), v);
                                        Ok(())
                            },
                        }
                    },
                    None => {
                        self.environment.define(self.env, name.lexeme.clone(), VariTypes::Nil);
                        Ok(())
                    },
                }
            },
            Stmt::Block(stmts) => {
                let scope = self.environment.from(self.env);
                self.execute_block(stmts, scope, d)
            },
            Stmt::If(cond, then_branch, else_branch) => {
                let res = self.eval(cond, d);
                proof { assert(pick(self.state(), res)); }
                match res {
                    Err(x) => Err(x),
                    Ok(c) => {
                        if is_true(&c) {
                            self.execute(&**then_branch, d)
                        } else {
                            match else_branch {
                                Some(s) => self.execute(&**s, d),
                                None => Ok(()),
                            }
                        }
                    },
                }
            },
            Stmt::While(cond, body) => {
                let mut rounds: u64 = 0;
                while rounds < depth
                    invariant
                        self.wf(),
                        keeps(*old(self), *self),
                        depth > 0,
                        d == depth - 1,
                        rounds <= depth,
                        *stmt == Stmt::While(*cond, *body),
                        s0 == old(self).state(),
                        forall|sf: State, rf: Result<(), VariError>|
                            #[trigger] loop_rel(*cond, **body, self.state(), sf, rf, depth as int, (depth - rounds) as int)
                            ==> exec_rel(*stmt, s0, sf, rf, depth as int),
                    decreases depth - rounds,
                {
                    let ghost cur = self.state();
                    let ghost k = (depth - rounds) as int;
                    let res = self.eval(cond, d);
                    proof { assert(pick(self.state(), res)); }
                    let ghost sm = self.state();
                    match res {
                        Err(x) => {
                            assert(loop_rel(*cond, **body, cur, sm, Err::<(), VariError>(x), depth as int, k));
                            return Err(x);
                        },
                        Ok(c) => {
                            if !is_true(&c) {
                                assert(loop_rel(*cond, **body, cur, sm, Ok::<(), VariError>(()), depth as int, k));
                                return Ok(());
                            }
                            let rb = self.execute(&**body, d);
                            proof { assert(pick(self.state(), rb)); }
                            let ghost sm2 = self.state();
                            match rb {
                                Err(x) => {
                                    assert(exec_rel(**body, sm, sm2, Err::<(), VariError>(x), d as int));
                                    assert(loop_rel(*cond, **body, cur, sm2, Err::<(), VariError>(x), depth as int, k));
                                    return Err(x);
                                },
                                Ok(_) => {
                                    rounds = rounds + 1;
                                    proof {
                                        assert forall|sf: State, rf: Result<(), VariError>|
                                            #[trigger] loop_rel(*cond, **body, sm2, sf, rf, depth as int, (depth - rounds) as int)
                                            implies exec_rel(*stmt, s0, sf, rf, depth as int) by {
                                            assert(pick(sm, res));
                                            assert(pick(sm2, rb));
                                            assert(exec_rel(**body, sm, sm2, rb, d as int));
                                            assert(loop_rel(*cond, **body, cur, sf, rf, depth as int, k));
                                        }
                                    }
                                },
                            }
                        },
                    }
                }
                assert(loop_rel(*cond, **body, self.state(), self.state(), Err::<(), VariError>(rt(RuntimeErrorKind::TooDeep, 0)), depth as int, (depth - rounds) as int));
                assert(exec_rel(*stmt, s0, self.state(), Err::<(), VariError>(rt(RuntimeErrorKind::TooDeep, 0)), depth as int));
                Err(runtime(RuntimeErrorKind::TooDeep, 0))
            },
            Stmt::Function(decl) => {
                let arity = decl.params.len();
                let procedure = Procedure::User { arity, decl: share_decl(decl), closure: self.env };
                self.environment.define(self.env, decl.name.lexeme.clone(), VariTypes::Callable(procedure));
                Ok(())
            },
            Stmt::Return(_, e) => {
                let res = self.eval(e, d);
                proof { assert(pick(self.state(), res)); }
                match res {
                    Ok(v) => Err(VariError::Return(v)),
                    Err(x) => Err(x),
                }
            },
        }
    }

    /// Executes statements in scope `scope`, then makes the scope that was active before
    /// active again, however the statements ended.
    pub fn execute_block(&mut self, stmts: &Vec<Stmt>, scope: usize, depth: u64) -> (r: Result<(), VariError>)
        requires
            old(self).wf(),
            scope < old(self).environment@.len(),
        ensures
            final(self).wf(),
            keeps(*old(self), *final(self)),
            final(self).env == old(self).env,
            block_rel(stmts@, scope, old(self).state(), final(self).state(), r, depth as int),
        decreases depth, 3int,
    {
        let ghost s0 = self.state();
        let saved = self.env;
        self.env = scope;
        let ghost entered = *self;
        let ghost se = self.state();
        let ghost n = stmts@.len() as int;
        let mut i: usize = 0;
        let mut result: Result<(), VariError> = Ok(());
        assert(stmts@.subrange(0, n) =~= stmts@);
        while i < stmts.len()
            invariant
                self.wf(),
                keeps(entered, *self),
                i <= stmts@.len(),
                n == stmts@.len(),
                saved == s0.env,
                saved < self.environment@.len(),
                se == (State { env: scope, ..s0 }),
                result is Ok,
                s0 == old(self).state(),
                self.env == scope,
                self.globals == old(self).globals,
                old(self).environment@.len() <= self.environment@.len(),
                old(self).structs@.len() <= self.structs@.len(),
                is_prefix(old(self).output@, self.output@),
                forall|sf: State, rf: Result<(), VariError>|
                    #[trigger] seq_rel(stmts@.subrange(i as int, n), self.state(), sf, rf, depth as int)
                    ==> seq_rel(stmts@, se, sf, rf, depth as int),
            decreases stmts@.len() - i,
        {
            let ghost cur = self.state();
            let ghost sub = stmts@.subrange(i as int, n);
            assert(sub[0] == stmts@[i as int]);
            assert(sub.drop_first() =~= stmts@.subrange(i + 1, n));
            let res = self.execute(&stmts[i], depth);
            proof { assert(pick(self.state(), res)); }
            let ghost nxt = self.state();
            match res {
                Ok(_) => {
                    proof {
                        assert forall|sf: State, rf: Result<(), VariError>|
                            #[trigger] seq_rel(stmts@.subrange(i + 1, n), nxt, sf, rf, depth as int)
                            implies seq_rel(stmts@, se, sf, rf, depth as int) by {
                            assert(pick(nxt, res));
                            assert(exec_rel(sub[0], cur, nxt, res, depth as int));
                            assert(seq_rel(sub, cur, sf, rf, depth as int));
                        }
                    }
                },
                Err(e) => {
                    assert(exec_rel(sub[0], cur, nxt, Err::<(), VariError>(e), depth as int));
                    assert(seq_rel(sub, cur, nxt, Err::<(), VariError>(e), depth as int));
                    self.env = saved;
                    assert(pick(nxt, Err::<(), VariError>(e)));
                    assert(seq_rel(stmts@, State { env: scope, ..s0 }, nxt, Err::<(), VariError>(e), depth as int));
                    assert(self.state() == (State { env: s0.env, ..nxt }));
                    return Err(e);
                },
            }
            i = i + 1;
        }
        let ghost last = self.state();
        assert(pick(last, result));
        assert(stmts@.subrange(i as int, n) =~= Seq::<Stmt>::empty());
        assert(seq_rel(stmts@.subrange(i as int, n), last, last, Ok::<(), VariError>(()), depth as int));
        self.env = saved;
        assert(self.state() == (State { env: s0.env, ..last }));
        result
    }

    /// Executes the statements of a program in the active scope, stopping at the first
    /// error. A `return` outside any function stops the program as an error does.
    pub fn interpret(&mut self, statements: &Vec<Stmt>) -> (r: Result<(), VariError>)
        requires
            old(self).wf(),
        ensures
            final(self).wf(),
            keeps(*old(self), *final(self)),
            seq_rel(statements@, old(self).state(), final(self).state(), r, MAX_DEPTH as int),
    {
        let ghost s0 = self.state();
        let ghost n = statements@.len() as int;
        let mut i: usize = 0;
        assert(statements@.subrange(0, n) =~= statements@);
        while i < statements.len()
            invariant
                self.wf(),
                keeps(*old(self), *self),
                i <= statements@.len(),
                n == statements@.len(),
                s0 == old(self).state(),
                forall|sf: State, rf: Result<(), VariError>|
                    #[trigger] seq_rel(statements@.subrange(i as int, n), self.state(), sf, rf, MAX_DEPTH as int)
                    ==> seq_rel(statements@, s0, sf, rf, MAX_DEPTH as int),
            decreases statements@.len() - i,
        {
            let ghost cur = self.state();
            let ghost sub = statements@.subrange(i as int, n);
            assert(sub[0] == statements@[i as int]);
            assert(sub.drop_first() =~= statements@.subrange(i + 1, n));
            let res = self.execute(&statements[i], MAX_DEPTH);
            proof { assert(pick(self.state(), res)); }
            let ghost nxt = self.state();
            match res {
                Ok(_) => {
                    proof {
                        assert forall|sf: State, rf: Result<(), VariError>|
                            #[trigger] seq_rel(statements@.subrange(i + 1, n), nxt, sf, rf, MAX_DEPTH as int)
                            implies seq_rel(statements@, s0, sf, rf, MAX_DEPTH as int) by {
                            assert(pick(nxt, res));
                            assert(exec_rel(sub[0], cur, nxt, res, MAX_DEPTH as int));
                            assert(seq_rel(sub, cur, sf, rf, MAX_DEPTH as int));
                        }
                    }
                },
                Err(e) => {
                    assert(exec_rel(sub[0], cur, nxt, Err::<(), VariError>(e), MAX_DEPTH as int));
                    assert(seq_rel(sub, cur, nxt, Err::<(), VariError>(e), MAX_DEPTH as int));
                    return Err(e);
                },
            }
            i = i + 1;
        }
        assert(statements@.subrange(i as int, n) =~= Seq::<Stmt>::empty());
        assert(seq_rel(statements@.subrange(i as int, n), self.state(), self.state(), Ok::<(), VariError>(()), MAX_DEPTH as int));
        Ok(())
    }
}

impl Procedure {
    /// Calls the procedure on `args`. A user function runs its body in a fresh scope enclosed
    /// by the scope it closes over, with each parameter bound to its argument; it yields the
    /// value of the `return` that ends it, or `nil`.
    pub fn call(&self, interpreter: &mut Interpreter, args: Vec<VariTypes>, line: usize, depth: u64) -> (r: Result<VariTypes, VariError>)
        requires
            old(interpreter).wf(),
        ensures
            final(interpreter).wf(),
            keeps(*old(interpreter), *final(interpreter)),
            call_rel(*self, args@, line, old(interpreter).state(), final(interpreter).state(), r, depth as int),
        decreases depth, 4int,
    {
        if depth == 0 {
            return Err(runtime(RuntimeErrorKind::TooDeep, line));
        }
        let ghost s0 = interpreter.state();
        match self {
            Procedure::Native { body, .. } => match body {
                Native::Clock => Ok(clock(&args)),
            },
            Procedure::User { decl, closure, .. } => {
                if *closure >= interpreter.environment.frames.len() {
                    return Err(runtime(RuntimeErrorKind::NotCallable, line));
                }
                let scope = interpreter.environment.from(*closure);
                let ghost base = interpreter.environment@;
                let mut i: usize = 0;
                while i < decl.params.len() && i < args.len()
                    invariant
                        interpreter.wf(),
                        keeps(*old(interpreter), *interpreter),
                        scope < interpreter.environment@.len(),
                        scope == s0.frames.len(),
                        base == s0.frames.push(empty_frame(Some(*closure))),
                        i <= decl.params@.len(),
                        i <= args@.len(),
                        interpreter.environment@ == bind_params(base, scope as int, decl.params@, args@, i as nat),
                        interpreter.state() == (State { frames: interpreter.environment@, ..s0 }),
                    decreases decl.params@.len() - i,
                {
                    interpreter.environment.define(scope, decl.params[i].lexeme.clone(), args[i].clone());
                    i = i + 1;
                }
                let ghost sb = interpreter.state();
                let rb = interpreter.execute_block(&decl.body, scope, depth - 1);
                proof { assert(pick(interpreter.state(), rb)); }
                let ghost sm = interpreter.state();
                assert(block_rel(decl.body@, scope, sb, sm, rb, depth as int - 1));
                match rb {
                    Ok(_) => Ok(VariTypes::Nil),
                    Err(VariError::Return(v)) => Ok(v),
                    Err(e) => Err(e),
                }
            },
        }
    }
}

} // verus!
