use vstd::prelude::*;
use crate::number::number_debug_text;
use crate::text::{push_char, push_str, text};
use crate::vari::VariTypes;

verus! {

/// The kinds of tokens.
#[derive(PartialEq, Eq, Structural, Clone, Copy, Debug)]
pub enum TokenType {
    // Single-character tokens.
    LPAREN,
    RPAREN,
    LBRACE,
    RBRACE,
    COMMA,
    DOT,
    MINUS,
    PLUS,
    SEMICOLON,
    COLON,
    SLASH,
    STAR,
    MODULO,
    // One or two character tokens.
    NOT,
    NE,
    EQUAL,
    ISEQ,
    GT,
    GE,
    LT,
    LE,
    // Literals.
    IDENTIFIER,
    STRING,
    NUMBER,
    // Keywords.
    AND,
    CLASS,
    STRUCT,
    ELSE,
    FALSE,
    FUN,
    FOR,
    IF,
    NIL,
    OR,
    PRINT,
    RETURN,
    SUPER,
    THIS,
    TRUE,
    LET,
    WHILE,
    EOF,
}

/// The name of a token kind, as written in the enum.
pub open spec fn kind_name(k: TokenType) -> Seq<char> {
    match k {
        TokenType::LPAREN => seq!['L', 'P', 'A', 'R', 'E', 'N'],
        TokenType::RPAREN => seq!['R', 'P', 'A', 'R', 'E', 'N'],
        TokenType::LBRACE => seq!['L', 'B', 'R', 'A', 'C', 'E'],
        TokenType::RBRACE => seq!['R', 'B', 'R', 'A', 'C', 'E'],
        TokenType::COMMA => seq!['C', 'O', 'M', 'M', 'A'],
        TokenType::DOT => seq!['D', 'O', 'T'],
        TokenType::MINUS => seq!['M', 'I', 'N', 'U', 'S'],
        TokenType::PLUS => seq!['P', 'L', 'U', 'S'],
        TokenType::SEMICOLON => seq!['S', 'E', 'M', 'I', 'C', 'O', 'L', 'O', 'N'],
        TokenType::COLON => seq!['C', 'O', 'L', 'O', 'N'],
        TokenType::SLASH => seq!['S', 'L', 'A', 'S', 'H'],
        TokenType::STAR => seq!['S', 'T', 'A', 'R'],
        TokenType::MODULO => seq!['M', 'O', 'D', 'U', 'L', 'O'],
        TokenType::NOT => seq!['N', 'O', 'T'],
        TokenType::NE => seq!['N', 'E'],
        TokenType::EQUAL => seq!['E', 'Q', 'U', 'A', 'L'],
        TokenType::ISEQ => seq!['I', 'S', 'E', 'Q'],
        TokenType::GT => seq!['G', 'T'],
        TokenType::GE => seq!['G', 'E'],
        TokenType::LT => seq!['L', 'T'],
        TokenType::LE => seq!['L', 'E'],
        TokenType::IDENTIFIER => seq!['I', 'D', 'E', 'N', 'T', 'I', 'F', 'I', 'E', 'R'],
        TokenType::STRING => seq!['S', 'T', 'R', 'I', 'N', 'G'],
        TokenType::NUMBER => seq!['N', 'U', 'M', 'B', 'E', 'R'],
        TokenType::AND => seq!['A', 'N', 'D'],
        TokenType::CLASS => seq!['C', 'L', 'A', 'S', 'S'],
        TokenType::STRUCT => seq!['S', 'T', 'R', 'U', 'C', 'T'],
        TokenType::ELSE => seq!['E', 'L', 'S', 'E'],
        TokenType::FALSE => seq!['F', 'A', 'L', 'S', 'E'],
        TokenType::FUN => seq!['F', 'U', 'N'],
        TokenType::FOR => seq!['F', 'O', 'R'],
        TokenType::IF => seq!['I', 'F'],
        TokenType::NIL => seq!['N', 'I', 'L'],
        TokenType::OR => seq!['O', 'R'],
        TokenType::PRINT => seq!['P', 'R', 'I', 'N', 'T'],
        TokenType::RETURN => seq!['R', 'E', 'T', 'U', 'R', 'N'],
        TokenType::SUPER => seq!['S', 'U', 'P', 'E', 'R'],
        TokenType::THIS => seq!['T', 'H', 'I', 'S'],
        TokenType::TRUE => seq!['T', 'R', 'U', 'E'],
        TokenType::LET => seq!['L', 'E', 'T'],
        TokenType::WHILE => seq!['W', 'H', 'I', 'L', 'E'],
        TokenType::EOF => seq!['E', 'O', 'F'],
    }
}

impl TokenType {
    /// The name of the kind, as written in the enum.
    pub fn name(&self) -> (r: String)
        ensures
            r@ == kind_name(*self),
    {
        let r = match self {
            TokenType::LPAREN => text("LPAREN"),
            TokenType::RPAREN => text("RPAREN"),
            TokenType::LBRACE => text("LBRACE"),
            TokenType::RBRACE => text("RBRACE"),
            TokenType::COMMA => text("COMMA"),
            TokenType::DOT => text("DOT"),
            TokenType::MINUS => text("MINUS"),
            TokenType::PLUS => text("PLUS"),
            TokenType::SEMICOLON => text("SEMICOLON"),
            TokenType::COLON => text("COLON"),
            TokenType::SLASH => text("SLASH"),
            TokenType::STAR => text("STAR"),
            TokenType::MODULO => text("MODULO"),
            TokenType::NOT => text("NOT"),
            TokenType::NE => text("NE"),
            TokenType::EQUAL => text("EQUAL"),
            TokenType::ISEQ => text("ISEQ"),
            TokenType::GT => text("GT"),
            TokenType::GE => text("GE"),
            TokenType::LT => text("LT"),
            TokenType::LE => text("LE"),
            TokenType::IDENTIFIER => text("IDENTIFIER"),
            TokenType::STRING => text("STRING"),
            TokenType::NUMBER => text("NUMBER"),
            TokenType::AND => text("AND"),
            TokenType::CLASS => text("CLASS"),
            TokenType::STRUCT => text("STRUCT"),
            TokenType::ELSE => text("ELSE"),
            TokenType::FALSE => text("FALSE"),
            TokenType::FUN => text("FUN"),
            TokenType::FOR => text("FOR"),
            TokenType::IF => text("IF"),
            TokenType::NIL => text("NIL"),
            TokenType::OR => text("OR"),
            TokenType::PRINT => text("PRINT"),
            TokenType::RETURN => text("RETURN"),
            TokenType::SUPER => text("SUPER"),
            TokenType::THIS => text("THIS"),
            TokenType::TRUE => text("TRUE"),
            TokenType::LET => text("LET"),
            TokenType::WHILE => text("WHILE"),
            TokenType::EOF => text("EOF"),
        };
        proof {
            reveal_strlit("LPAREN");
            reveal_strlit("RPAREN");
            reveal_strlit("LBRACE");
            reveal_strlit("RBRACE");
            reveal_strlit("COMMA");
            reveal_strlit("DOT");
            reveal_strlit("MINUS");
            reveal_strlit("PLUS");
            reveal_strlit("SEMICOLON");
            reveal_strlit("COLON");
            reveal_strlit("SLASH");
            reveal_strlit("STAR");
            reveal_strlit("MODULO");
            reveal_strlit("NOT");
            reveal_strlit("NE");
            reveal_strlit("EQUAL");
            reveal_strlit("ISEQ");
            reveal_strlit("GT");
            reveal_strlit("GE");
            reveal_strlit("LT");
            reveal_strlit("LE");
            reveal_strlit("IDENTIFIER");
            reveal_strlit("STRING");
            reveal_strlit("NUMBER");
            reveal_strlit("AND");
            reveal_strlit("CLASS");
            reveal_strlit("STRUCT");
            reveal_strlit("ELSE");
            reveal_strlit("FALSE");
            reveal_strlit("FUN");
            reveal_strlit("FOR");
            reveal_strlit("IF");
            reveal_strlit("NIL");
            reveal_strlit("OR");
            reveal_strlit("PRINT");
            reveal_strlit("RETURN");
            reveal_strlit("SUPER");
            reveal_strlit("THIS");
            reveal_strlit("TRUE");
            reveal_strlit("LET");
            reveal_strlit("WHILE");
            reveal_strlit("EOF");
        }
        assert(r@ =~= kind_name(*self));
        r
    }
}

/// A token: its kind, the source text it was read from, its line, and for number and
/// string literals the value it denotes.
pub struct Token {
    pub token_type: TokenType,
    pub lexeme: String,
    pub line: usize,
    pub literal: Option<Box<VariTypes>>,
}

impl Clone for Token {
    fn clone(&self) -> (r: Self)
        ensures
            r == *self,
    {
        let literal = match &self.literal {
            Some(b) => Some(Box::new((**b).clone())),
            None => None,
        };
        Token { token_type: self.token_type, lexeme: self.lexeme.clone(), line: self.line, literal }
    }
}

/// The literal that a token carries, as text (the form `Some(Num(1.0))`, `Some(String("a"))`
/// or `None`).
pub open spec fn literal_text(lit: Option<Box<VariTypes>>) -> Seq<char> {
    match lit {
        None => seq!['N', 'o', 'n', 'e'],
        Some(b) => match *b {
            VariTypes::Num(n) => seq!['S', 'o', 'm', 'e', '(', 'N', 'u', 'm', '(']
                + number_debug_text(n) + seq![')', ')'],
            VariTypes::String(s) => seq!['S', 'o', 'm', 'e', '(', 'S', 't', 'r', 'i', 'n', 'g', '(', '"']
                + s@ + seq!['"', ')', ')'],
            _ => seq!['S', 'o', 'm', 'e', '(', '?', ')'],
        },
    }
}

impl Token {
    pub fn new(t: TokenType, lex: String, lno: usize, lit: Option<Box<VariTypes>>) -> (r: Self)
        ensures
            r.token_type == t,
            r.lexeme == lex,
            r.line == lno,
            r.literal == lit,
    {
        Token { token_type: t, lexeme: lex, line: lno, literal: lit }
    }

    /// The kind's name, the lexeme and the literal, separated by single spaces.
    pub fn to_string(self) -> (r: String)
        requires
            self.literal matches Some(b) ==> (*b matches VariTypes::Num(n) ==> n.wf()),
        ensures
            r@ == kind_name(self.token_type) + seq![' '] + self.lexeme@ + seq![' '] + literal_text(self.literal),
    {
        let kind = self.token_type.name();
        let mut out = kind.clone();
        push_char(&mut out, ' ');
        push_str(&mut out, &self.lexeme);
        push_char(&mut out, ' ');
        let lit = match &self.literal {
            None => text("None"),
            Some(b) => match &**b {
                VariTypes::Num(n) => {
                    let mut s = text("Some(Num(");
                    push_str(&mut s, &n.to_debug_text());
                    push_str(&mut s, &text("))"));
                    s
                },
                VariTypes::String(v) => {
                    let mut s = text("Some(String(\"");
                    push_str(&mut s, v);
                    push_str(&mut s, &text("\"))"));
                    s
                },
                _ => text("Some(?)"),
            },
        };
        push_str(&mut out, &lit);
        proof {
            reveal_strlit("None");
            reveal_strlit("Some(Num(");
            reveal_strlit("))");
            reveal_strlit("Some(String(\"");
            reveal_strlit("\"))");
            reveal_strlit("Some(?)");
            assert(lit@ =~= literal_text(self.literal));
            assert(out@ =~= kind@ + seq![' '] + self.lexeme@ + seq![' '] + literal_text(self.literal));
        }
        out
    }
}

} // verus!
