use vstd::prelude::*;
use crate::number::Number;
use crate::procedure::Procedure;
use crate::interpreter::{keeps, Interpreter, MAX_DEPTH};
use crate::semantics::{pick, seq_rel, State};
use crate::stmt::Stmt;
use crate::syntax::{parse_tokens, view_stmts};
use crate::token::{Token, TokenType};
use crate::lexer::{errors_view, lemma_lex_ends_with_eof, lex, tokens_view, LexError, Lexer};
use crate::number::{decimal_digits, push_digits};
use crate::parser::{ParseError, Parser};
use crate::text::{push_str, text};

verus! {

/// A runtime value.
pub enum VariTypes {
    Nil,
    Num(Number),
    String(String),
    Boolean(bool),
    /// A handle to a struct in the interpreter's struct store.
    Struct(usize),
    Callable(Procedure),
}

impl Clone for VariTypes {
    fn clone(&self) -> (r: Self)
        ensures
            r == *self,
    {
        match self {
            VariTypes::Nil => VariTypes::Nil,
            VariTypes::Num(n) => VariTypes::Num(*n),
            VariTypes::String(s) => VariTypes::String(s.clone()),
            VariTypes::Boolean(b) => VariTypes::Boolean(*b),
            VariTypes::Struct(h) => VariTypes::Struct(*h),
            VariTypes::Callable(p) => VariTypes::Callable(p.clone()),
        }
    }
}

/// The runtime errors.
#[derive(PartialEq, Eq, Structural, Clone, Copy, Debug)]
pub enum RuntimeErrorKind {
    UndefinedVariable,
    /// the operand of unary `-` is not a number
    OperandMustBeNumber,
    /// the operands of an arithmetic or comparison operator are not both numbers
    OperandsMustBeNumbers,
    /// the operands of `+` are neither two numbers nor two strings
    OperandsMustBeNumbersOrStrings,
    /// a number whose denominator is not positive
    MalformedNumber,
    NumberOverflow,
    DivisionByZero,
    NotCallable,
    ArityMismatch,
    /// a property was read or written on a value that is not a struct
    NotAStruct,
    /// the nesting of blocks, expressions and calls went past the interpreter's budget
    TooDeep,
}

/// What stops the execution of statements: a `return` on its way to the call that catches
/// it, or a runtime error.
pub enum VariError {
    Return(VariTypes),
    Runtime { kind: RuntimeErrorKind, line: usize },
}


/// Why a run of a source text stopped early.
pub enum RunError {
    /// the text has lexical errors; nothing was executed
    Lex(Vec<LexError>),
    /// the text does not parse; nothing was executed
    Parse(ParseError),
    Runtime { kind: RuntimeErrorKind, line: usize },
    /// a `return` outside any function
    TopLevelReturn,
}

/// The outcome of a run whose statements ended with `rr`.
pub open spec fn run_outcome(rr: Result<(), VariError>, r: Result<(), RunError>) -> bool {
    &&& (r is Ok) == (rr is Ok)
    &&& (rr matches Err(VariError::Return(_)) ==> r matches Err(RunError::TopLevelReturn))
    &&& (rr matches Err(VariError::Runtime { kind, line }) ==> r == Err::<(), RunError>(RunError::Runtime { kind, line }))
}

/// What running the tokens `ts` does, from state `s0` to `s1` with result `r`: a parse error
/// is returned and nothing is executed; otherwise the parsed statements are executed, and the
/// run ends as they do.
pub open spec fn run_follows(ts: Seq<Token>, s0: State, s1: State, r: Result<(), RunError>) -> bool {
    match parse_tokens(ts) {
        Err(e) => s1 == s0 && r == Err::<(), RunError>(RunError::Parse(e)),
        Ok(tree) => exists|ss: Seq<Stmt>, rr: Result<(), VariError>| #[trigger] pick(ss, rr)
            && view_stmts(ss) == tree && seq_rel(ss, s0, s1, rr, MAX_DEPTH as int) && run_outcome(rr, r),
    }
}

/// `Error on line N: LOCATION MESSAGE`.
pub open spec fn report_text(line: usize, location: Seq<char>, msg: Seq<char>) -> Seq<char> {
    seq!['E', 'r', 'r', 'o', 'r', ' ', 'o', 'n', ' ', 'l', 'i', 'n', 'e', ' '] + decimal_digits(line as nat)
        + seq![':', ' '] + location + seq![' '] + msg
}

/// A session: an interpreter whose global scope lasts from one run to the next, and whether
/// any run has failed.
pub struct Vari {
    pub had_error: bool,
    pub interpreter: Interpreter,
}

impl Vari {
    pub fn new() -> (r: Self)
        ensures
            r.interpreter.wf(),
            !r.had_error,
            r.interpreter.output@.len() == 0,
    {
        Vari { had_error: false, interpreter: Interpreter::new() }
    }

    /// The report line for an error.
    pub fn report(&self, line: usize, location: &String, msg: &String) -> (r: String)
        ensures
            r@ == report_text(line, location@, msg@),
    {
        let mut out = text("Error on line ");
        push_digits(&mut out, line as u64);
        push_str(&mut out, &text(": "));
        push_str(&mut out, location);
        push_str(&mut out, &text(" "));
        push_str(&mut out, msg);
        proof {
            reveal_strlit("Error on line ");
            reveal_strlit(": ");
            reveal_strlit(" ");
        }
        assert(out@ =~= report_text(line, location@, msg@));
        out
    }

    /// The report line for an error with no location.
    pub fn error(&self, line: usize, msg: &String) -> (r: String)
        ensures
            r@ == report_text(line, Seq::empty(), msg@),
    {
        let location = String::new();
        self.report(line, &location, msg)
    }

    /// Reads, parses and executes a source text. Lines that `print` writes are added to the
    /// interpreter's output. A text with lexical errors or a parse error is not executed.
    pub fn run(&mut self, source: String) -> (r: Result<(), RunError>)
        requires
            old(self).interpreter.wf(),
            source@.len() < usize::MAX,
        ensures
            final(self).interpreter.wf(),
            keeps(old(self).interpreter, final(self).interpreter),
            final(self).had_error == (old(self).had_error || r is Err),
            lex(source@).1.len() > 0 ==> final(self).interpreter == old(self).interpreter,
            lex(source@).1.len() > 0 ==> (r matches Err(RunError::Lex(es)) && errors_view(es@) == lex(source@).1),
            r is Ok ==> lex(source@).1.len() == 0,
            r matches Err(RunError::Parse(_)) ==> final(self).interpreter == old(self).interpreter,
            lex(source@).1.len() == 0 ==> exists|ts: Seq<Token>| #[trigger] tokens_view(ts) == lex(source@).0
                && run_follows(ts, old(self).interpreter.state(), final(self).interpreter.state(), r),
    {
        let ghost src = source@;
        let mut lexer = Lexer::new(source);
        let tokens = lexer.scan_tokens();
        proof {
            lemma_lex_ends_with_eof(src, 0);
            assert(tokens_view(tokens@).last() == tokens@.last()@);
        }
        if lexer.errors.len() > 0 {
            self.had_error = true;
            return Err(RunError::Lex(lexer.errors));
        }
        let ghost ts = tokens@;
        let mut parser = Parser::new(tokens);
        let statements = match parser.parse() {
            Ok(s) => s,
            Err(e) => {
                self.had_error = true;
                assert(tokens_view(ts) == lex(src).0);
                return Err(RunError::Parse(e));
            },
        };
        let ghost s0 = self.interpreter.state();
        let rr = self.interpreter.interpret(&statements);
        proof {
            assert(pick(statements@, rr));
            assert(tokens_view(ts) == lex(src).0);
        }
        match rr {
            Ok(()) => Ok(()),
            Err(e) => {
                self.had_error = true;
                match e {
                    VariError::Return(_) => Err(RunError::TopLevelReturn),
                    VariError::Runtime { kind, line } => Err(RunError::Runtime { kind, line }),
                }
            },
        }
    }

    /// Hands over the lines printed so far and clears them.
    pub fn take_output(&mut self) -> (r: Vec<String>)
        ensures
            r@ == old(self).interpreter.output@,
            final(self).interpreter.output@.len() == 0,
            final(self).interpreter.environment == old(self).interpreter.environment,
            final(self).interpreter.structs == old(self).interpreter.structs,
            final(self).interpreter.env == old(self).interpreter.env,
            final(self).interpreter.globals == old(self).interpreter.globals,
            final(self).had_error == old(self).had_error,
    {
        let mut out: Vec<String> = Vec::new();
        std::mem::swap(&mut out, &mut self.interpreter.output);
        out
    }
}

} // verus!
