use vstd::prelude::*;
use crate::token::Token;
use crate::vari::VariTypes;
use crate::interpreter::{stringify, value_text};
use crate::text::{push_char, push_str, text};

verus! {

/// An expression.
#[allow(inconsistent_fields)]
pub enum Expr {
    Binary {
        lhs: Box<Expr>,
        op: Token,
        rhs: Box<Expr>,
    },
    Call {
        callee: Box<Expr>,
        paren: Token,
        args: Vec<Expr>,
    },
    Unary {
        op: Token,
        rhs: Box<Expr>,
    },
    Grouping {
        expr: Box<Expr>,
    },
    /// A struct literal: its fields in the order written.
    Struct {
        values: Vec<(String, Expr)>,
    },
    Get {
        expr: Box<Expr>,
        name: String,
    },
    SetProperty {
        expr: Box<Expr>,
        name: String,
        value: Box<Expr>,
    },
    Literal {
        value: Box<VariTypes>,
    },
    Variable {
        value: Token,
    },
    Assign {
        name: Token,
        value_expr: Box<Expr>,
    },
    Logical {
        lhs: Box<Expr>,
        operator: Token,
        rhs: Box<Expr>,
    },
}


/// The parenthesized text of an expression, for inspecting parse trees: an operator node is
/// `( op operand...)`, a grouping `( group e)`, a literal the text `print` writes for it.
pub open spec fn ast_text(e: Expr) -> Seq<char>
    decreases e,
{
    match e {
        Expr::Binary { lhs, op, rhs } => seq!['(', ' '] + op.lexeme@ + seq![' '] + ast_text(*lhs) + seq![' '] + ast_text(*rhs) + seq![')'],
        Expr::Logical { lhs, operator, rhs } => seq!['(', ' '] + operator.lexeme@ + seq![' '] + ast_text(*lhs) + seq![' '] + ast_text(*rhs) + seq![')'],
        Expr::Unary { op, rhs } => seq!['(', ' '] + op.lexeme@ + seq![' '] + ast_text(*rhs) + seq![')'],
        Expr::Grouping { expr } => seq!['(', ' ', 'g', 'r', 'o', 'u', 'p', ' '] + ast_text(*expr) + seq![')'],
        Expr::Literal { value } => value_text(*value),
        Expr::Variable { value } => value.lexeme@,
        Expr::Assign { name, value_expr } => seq!['(', ' ', '=', ' '] + name.lexeme@ + seq![' '] + ast_text(*value_expr) + seq![')'],
        Expr::Call { callee, .. } => seq!['(', ' ', 'c', 'a', 'l', 'l', ' '] + ast_text(*callee) + seq![')'],
        Expr::Get { expr, name } => seq!['(', ' ', '.', ' '] + ast_text(*expr) + seq![' '] + name@ + seq![')'],
        Expr::SetProperty { expr, name, value } => seq!['(', ' ', '=', ' ', '.', ' '] + ast_text(*expr) + seq![' '] + name@ + seq![' '] + ast_text(*value) + seq![')'],
        Expr::Struct { .. } => seq!['(', ' ', 's', 't', 'r', 'u', 'c', 't', ')'],
    }
}

/// Each text preceded by a space.
pub open spec fn spaced(parts: Seq<Seq<char>>) -> Seq<char>
    decreases parts.len(),
{
    if parts.len() == 0 {
        Seq::empty()
    } else {
        spaced(parts.drop_last()) + seq![' '] + parts.last()
    }
}

/// Writes expressions in a parenthesized prefix form.
pub struct AstPrinter;

impl AstPrinter {
    pub fn new() -> Self {
        AstPrinter
    }

    /// `( name a b ...)` for the texts `parts`, each after a space.
    fn parenthesize(&mut self, name: &String, parts: &Vec<String>) -> (r: String)
        ensures
            r@ == seq!['(', ' '] + name@ + spaced(parts@.map_values(|p: String| p@)) + seq![')'],
    {
        let ghost ps = parts@.map_values(|p: String| p@);
        let mut out = text("( ");
        push_str(&mut out, name);
        proof { reveal_strlit("( "); }
        let mut i: usize = 0;
        while i < parts.len()
            invariant
                i <= parts@.len(),
                ps == parts@.map_values(|p: String| p@),
                out@ == seq!['(', ' '] + name@ + spaced(ps.subrange(0, i as int)),
            decreases parts@.len() - i,
        {
            push_char(&mut out, ' ');
            push_str(&mut out, &parts[i]);
            assert(ps.subrange(0, i + 1).drop_last() =~= ps.subrange(0, i as int));
            i = i + 1;
        }
        push_char(&mut out, ')');
        assert(ps.subrange(0, parts@.len() as int) =~= ps);
        out
    }

    /// The parenthesized text of an expression.
    pub fn print(&mut self, expr: &Expr) -> (r: String)
        ensures
            r@ == ast_text(*expr),
    {
        self.visit(expr)
    }

    fn visit(&mut self, expr: &Expr) -> (r: String)
        ensures
            r@ == ast_text(*expr),
        decreases *expr,
    {
        let r = match expr {
            Expr::Binary { lhs, op, rhs } => {
                let parts = vec![self.visit(&**lhs), self.visit(&**rhs)];
                self.parenthesize(&op.lexeme, &parts)
            },
            Expr::Logical { lhs, operator, rhs } => {
                let parts = vec![self.visit(&**lhs), self.visit(&**rhs)];
                self.parenthesize(&operator.lexeme, &parts)
            },
            Expr::Unary { op, rhs } => {
                let parts = vec![self.visit(&**rhs)];
                self.parenthesize(&op.lexeme, &parts)
            },
            Expr::Grouping { expr } => {
                let parts = vec![self.visit(&**expr)];
                self.parenthesize(&text("group"), &parts)
            },
            Expr::Literal { value } => stringify(&**value),
            Expr::Variable { value } => value.lexeme.clone(),
            Expr::Assign { name, value_expr } => {
                let mut out = text("( = ");
                push_str(&mut out, &name.lexeme);
                push_char(&mut out, ' ');
                push_str(&mut out, &self.visit(&**value_expr));
                push_char(&mut out, ')');
                out
            },
            Expr::Call { callee, .. } => {
                let parts = vec![self.visit(&**callee)];
                self.parenthesize(&text("call"), &parts)
            },
            Expr::Get { expr, name } => {
                let mut out = text("( . ");
                push_str(&mut out, &self.visit(&**expr));
                push_char(&mut out, ' ');
                push_str(&mut out, name);
                push_char(&mut out, ')');
                out
            },
            Expr::SetProperty { expr, name, value } => {
                let mut out = text("( = . ");
                push_str(&mut out, &self.visit(&**expr));
                push_char(&mut out, ' ');
                push_str(&mut out, name);
                push_char(&mut out, ' ');
                push_str(&mut out, &self.visit(&**value));
                push_char(&mut out, ')');
                out
            },
            Expr::Struct { .. } => text("( struct)"),
        };
        proof {
            reveal_with_fuel(spaced, 3);
            reveal_strlit("group");
            reveal_strlit("call");
            reveal_strlit("( = ");
            reveal_strlit("( . ");
            reveal_strlit("( = . ");
            reveal_strlit("( struct)");
            assert(r@ =~= ast_text(*expr));
        }
        r
    }
}

} // verus!
