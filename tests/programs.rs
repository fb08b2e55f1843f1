use vari::lexer::{LexErrorKind, Lexer};
use vari::parser::{ParseErrorKind, Parser};
use vari::token::TokenType;
use vari::vari::{RunError, RuntimeErrorKind, Vari};

fn output_of(src: &str) -> Vec<String> {
    let mut v = Vari::new();
    let r = v.run(src.to_string());
    assert!(r.is_ok(), "run failed on {}", src);
    v.take_output()
}

fn error_of(src: &str) -> RunError {
    let mut v = Vari::new();
    match v.run(src.to_string()) {
        Ok(()) => panic!("expected an error from {}", src),
        Err(e) => {
            assert!(v.had_error);
            e
        }
    }
}

fn runtime_kind(src: &str) -> RuntimeErrorKind {
    match error_of(src) {
        RunError::Runtime { kind, .. } => kind,
        _ => panic!("expected a runtime error from {}", src),
    }
}

#[test]
fn precedence_of_product_over_sum() {
    assert_eq!(output_of("print 1 + 2 * 3;"), vec!["7"]);
}

#[test]
fn block_shadowing_is_undone_after_the_block() {
    assert_eq!(output_of("let a = 1; { let a = 2; print a; } print a;"), vec!["2", "1"]);
}

#[test]
fn closure_counter_keeps_its_state() {
    let src = "fun mk() { let x = 0; fun inc() { x = x + 1; return x; } return inc; } let c = mk(); print c(); print c(); print c();";
    assert_eq!(output_of(src), vec!["1", "2", "3"]);
}

#[test]
fn recursive_fibonacci() {
    let src = "fun fib(n) { if (n <= 1) return n; return fib(n-1) + fib(n-2); } print fib(10);";
    assert_eq!(output_of(src), vec!["55"]);
}

#[test]
fn while_loop_counts() {
    assert_eq!(output_of("let i = 0; while (i < 3) { print i; i = i + 1; }"), vec!["0", "1", "2"]);
}

#[test]
fn equality_across_kinds() {
    let src = "print \"hi\" == \"hi\"; print nil == false; print 1 == true;";
    assert_eq!(output_of(src), vec!["true", "false", "false"]);
}

#[test]
fn return_unwinds_nested_blocks() {
    let src = "fun f() { { { return 1; print 2; } print 3; } print 4; } print f();";
    assert_eq!(output_of(src), vec!["1"]);
}

#[test]
fn short_circuit_skips_the_right_operand() {
    let src = "let n = 0; fun bump() { n = n + 1; return true; } print false and bump(); print true or bump(); print n;";
    assert_eq!(output_of(src), vec!["false", "true", "0"]);
}

#[test]
fn logical_operators_return_an_operand() {
    let src = "print nil or \"x\"; print 1 and 2; print false or nil; print 0 and 5;";
    assert_eq!(output_of(src), vec!["x", "2", "nil", "5"]);
}

#[test]
fn closure_sees_later_writes_to_its_scope() {
    let src = "let x = 1; fun get() { return x; } x = 2; print get(); fun set() { x = 3; } set(); print x;";
    assert_eq!(output_of(src), vec!["2", "3"]);
}

#[test]
fn scope_is_restored_after_return_from_block() {
    let src = "let a = \"outer\"; fun f() { let a = \"inner\"; { return a; } } print f(); print a;";
    assert_eq!(output_of(src), vec!["inner", "outer"]);
}

#[test]
fn for_loop_desugars() {
    assert_eq!(output_of("for (let i = 0; i < 3; i = i + 1) print i;"), vec!["0", "1", "2"]);
    assert_eq!(output_of("let j = 5; for (; j < 7;) { print j; j = j + 1; }"), vec!["5", "6"]);
}

#[test]
fn if_else_branches() {
    assert_eq!(output_of("if (0) print \"t\"; else print \"f\"; if (nil) print \"t\"; else print \"f\";"), vec!["t", "f"]);
}

#[test]
fn arithmetic_formulas() {
    assert_eq!(output_of("print 7 / 2; print 1 / 3; print 10 % 3; print -7 % 3; print 0.1 + 0.2; print 2 - 5;"),
        vec!["3.5", "0.3333333333333333", "1", "-1", "0.3", "-3"]);
    assert_eq!(output_of("print 1.5 * 2; print 45.67; print -(3);"), vec!["3", "45.67", "-3"]);
}

#[test]
fn comparisons() {
    assert_eq!(output_of("print 1 < 2; print 2 <= 2; print 3 > 4; print 4 >= 5; print 1 != 2;"),
        vec!["true", "true", "false", "false", "true"]);
}

#[test]
fn string_concatenation_and_truthiness() {
    assert_eq!(output_of("print \"ab\" + \"cd\"; print !\"\"; print !nil; print !0;"), vec!["abcd", "false", "true", "false"]);
}

#[test]
fn printing_procedures() {
    assert_eq!(output_of("fun f() {} print f; print clock;"), vec!["<fn f>", "<native fn clock>"]);
}

#[test]
fn clock_gives_a_number() {
    assert_eq!(output_of("let t = clock(); print t > 0;"), vec!["true"]);
}

#[test]
fn structs_get_and_set() {
    let src = "let p = { x: 1, y: 2 }; print p.x; p.y = 5; print p.y; print p.z; struct q = {}; q.a = \"v\"; print q.a; print p;";
    assert_eq!(output_of(src), vec!["1", "5", "nil", "v", "[object]"]);
}

#[test]
fn function_without_return_gives_nil() {
    assert_eq!(output_of("fun f(a, b) { let c = a + b; } print f(1, 2);"), vec!["nil"]);
}

#[test]
fn runtime_errors() {
    assert_eq!(runtime_kind("print x;"), RuntimeErrorKind::UndefinedVariable);
    assert_eq!(runtime_kind("y = 1;"), RuntimeErrorKind::UndefinedVariable);
    assert_eq!(runtime_kind("print -\"a\";"), RuntimeErrorKind::OperandMustBeNumber);
    assert_eq!(runtime_kind("print 1 - \"a\";"), RuntimeErrorKind::OperandsMustBeNumbers);
    assert_eq!(runtime_kind("print 1 + \"a\";"), RuntimeErrorKind::OperandsMustBeNumbersOrStrings);
    assert_eq!(runtime_kind("print 1 / 0;"), RuntimeErrorKind::DivisionByZero);
    assert_eq!(runtime_kind("print 1 % 0;"), RuntimeErrorKind::DivisionByZero);
    assert_eq!(runtime_kind("print 9223372036854775807 + 1;"), RuntimeErrorKind::NumberOverflow);
    assert_eq!(runtime_kind("let a = 1; a();"), RuntimeErrorKind::NotCallable);
    assert_eq!(runtime_kind("fun f(a) {} f();"), RuntimeErrorKind::ArityMismatch);
    assert_eq!(runtime_kind("let a = 1; print a.b;"), RuntimeErrorKind::NotAStruct);
    assert_eq!(runtime_kind("let a = 1; a.b = 2;"), RuntimeErrorKind::NotAStruct);
}

#[test]
fn runtime_error_line() {
    match error_of("let a = 1;\nprint a - nil;") {
        RunError::Runtime { kind, line } => {
            assert_eq!(kind, RuntimeErrorKind::OperandsMustBeNumbers);
            assert_eq!(line, 2);
        }
        _ => panic!("expected a runtime error"),
    }
}

#[test]
fn top_level_return_is_an_error() {
    assert!(matches!(error_of("return 1;"), RunError::TopLevelReturn));
}

#[test]
fn lexical_errors_stop_the_run() {
    let mut v = Vari::new();
    match v.run("print 1; @ print 2; \"open".to_string()) {
        Err(RunError::Lex(errors)) => {
            assert_eq!(errors.len(), 2);
            assert_eq!(errors[0].kind, LexErrorKind::UnexpectedCharacter);
            assert_eq!(errors[1].kind, LexErrorKind::UnterminatedString);
        }
        _ => panic!("expected lexical errors"),
    }
    assert!(v.take_output().is_empty());
}

#[test]
fn too_long_number_literal() {
    match error_of("print 99999999999999999999;") {
        RunError::Lex(errors) => assert_eq!(errors[0].kind, LexErrorKind::InvalidNumber),
        _ => panic!("expected a lexical error"),
    }
}

#[test]
fn parse_errors() {
    let kind = |src: &str| match error_of(src) {
        RunError::Parse(e) => e.kind,
        _ => panic!("expected a parse error from {}", src),
    };
    assert_eq!(kind("print (1;"), ParseErrorKind::Expected(TokenType::RPAREN));
    assert_eq!(kind("1 = 2;"), ParseErrorKind::InvalidAssignmentTarget);
    assert_eq!(kind("print ;"), ParseErrorKind::ExpectedExpression);
    assert_eq!(kind("print 1"), ParseErrorKind::Expected(TokenType::SEMICOLON));
    let args = vec!["1"; 256].join(", ");
    assert_eq!(kind(&format!("fun f() {{}} f({});", args)), ParseErrorKind::TooManyArguments);
}

#[test]
fn globals_survive_between_runs() {
    let mut v = Vari::new();
    assert!(v.run("let a = 40;".to_string()).is_ok());
    assert!(v.run("print a + 2;".to_string()).is_ok());
    assert_eq!(v.take_output(), vec!["42"]);
}

#[test]
fn lexer_tokens_and_lines() {
    let mut lexer = Lexer::new("let s = \"a\nb\"; # note\nx >= 1.25 != y".to_string());
    let tokens = lexer.scan_tokens();
    let kinds: Vec<TokenType> = tokens.iter().map(|t| t.token_type).collect();
    assert_eq!(kinds, vec![TokenType::LET, TokenType::IDENTIFIER, TokenType::EQUAL, TokenType::STRING, TokenType::SEMICOLON,
        TokenType::IDENTIFIER, TokenType::GE, TokenType::NUMBER, TokenType::NE, TokenType::IDENTIFIER, TokenType::EOF]);
    assert_eq!(tokens[3].lexeme, "\"a\nb\"");
    assert_eq!(tokens[3].line, 2);
    assert_eq!(tokens[5].line, 3);
    assert_eq!(tokens[10].line, 3);
    assert!(lexer.errors.is_empty());
}

#[test]
fn lexemes_rebuild_the_source() {
    let src = "fun add(a, b) {\n  return a + b;\n}\nprint add(1, 2.5) == \"x y\";";
    let mut lexer = Lexer::new(src.to_string());
    let tokens = lexer.scan_tokens();
    let joined: String = tokens.iter().map(|t| t.lexeme.clone()).collect::<Vec<_>>().join("");
    let strip = |s: &str| s.chars().filter(|c| !c.is_whitespace()).collect::<String>();
    assert_eq!(strip(&joined), strip(src));
}

#[test]
fn parsing_twice_gives_the_same_tree() {
    let mut lexer = Lexer::new("a = b or c and d == 1 + 2 * -3;".to_string());
    let tokens = lexer.scan_tokens();
    let first = Parser::new(tokens.clone()).parse().ok().unwrap();
    let second = Parser::new(tokens).parse().ok().unwrap();
    let show = |s: &vari::stmt::Stmt| match s {
        vari::stmt::Stmt::Expression(e) => vari::expr::AstPrinter::new().print(e),
        _ => String::new(),
    };
    assert_eq!(show(&first[0]), "( = a ( or b ( and c ( == d ( + 1 ( * 2 ( - 3)))))))");
    assert_eq!(show(&first[0]), show(&second[0]));
}

#[test]
fn error_report_text() {
    let v = Vari::new();
    assert_eq!(v.error(12, &"Unexpected character".to_string()), "Error on line 12:  Unexpected character");
}

#[test]
fn clock_is_whole_milliseconds() {
    match vari::interpreter::clock(&vec![]) {
        vari::vari::VariTypes::Num(n) => {
            assert_eq!(n.den, 1);
            assert!(n.num > 1_600_000_000_000);
        }
        _ => panic!("clock must give a number"),
    }
}

#[test]
fn interpreter_stringify_numbers() {
    let interp = vari::interpreter::Interpreter::new();
    let third = vari::vari::VariTypes::Num(vari::number::Number { num: -1, den: 3 });
    assert_eq!(interp.stringify(&third), "-0.3333333333333333");
    let whole = vari::vari::VariTypes::Num(vari::number::Number::from_int(120));
    assert_eq!(interp.stringify(&whole), "120");
}

fn tree_of(src: &str) -> String {
    let mut lexer = Lexer::new(src.to_string());
    let tokens = lexer.scan_tokens();
    let stmts = Parser::new(tokens).parse().ok().unwrap();
    match &stmts[0] {
        vari::stmt::Stmt::Expression(e) => vari::expr::AstPrinter::new().print(e),
        _ => String::new(),
    }
}

#[test]
fn operators_fold_to_the_left() {
    assert_eq!(tree_of("a or b or c;"), "( or ( or a b) c)");
    assert_eq!(tree_of("a - b + c * d % e;"), "( % ( + ( - a b) ( * c d)) e)");
}

#[test]
fn assignment_folds_to_the_right() {
    assert_eq!(tree_of("a = b = c;"), "( = a ( = b c))");
    assert_eq!(tree_of("p.x = 1;"), "( = . p x 1)");
}
