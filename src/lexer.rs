use vstd::prelude::*;
use crate::number::{make_number, Number};
use crate::text::{chars_of, string_of};
use crate::token::{Token, TokenType};
use crate::vari::VariTypes;

verus! {

/// What went wrong while reading a lexeme.
#[derive(PartialEq, Eq, Structural, Clone, Copy, Debug)]
pub enum LexErrorKind {
    UnexpectedCharacter,
    UnterminatedString,
    InvalidNumber,
}

/// A lexical error and the line on which it was found.
#[derive(PartialEq, Eq, Structural, Clone, Copy, Debug)]
pub struct LexError {
    pub kind: LexErrorKind,
    pub line: usize,
}

/// The literal carried by a token, as a mathematical value.
pub enum SpecLiteral {
    NoValue,
    Num(Number),
    Str(Seq<char>),
}

/// A token as a mathematical value.
pub struct SpecToken {
    pub kind: TokenType,
    pub lexeme: Seq<char>,
    pub line: nat,
    pub literal: SpecLiteral,
}

impl View for Token {
    type V = SpecToken;

    open spec fn view(&self) -> SpecToken {
        SpecToken {
            kind: self.token_type,
            lexeme: self.lexeme@,
            line: self.line as nat,
            literal: match self.literal {
                Some(b) => match *b {
                    VariTypes::Num(n) => SpecLiteral::Num(n),
                    VariTypes::String(s) => SpecLiteral::Str(s@),
                    _ => SpecLiteral::NoValue,
                },
                None => SpecLiteral::NoValue,
            },
        }
    }
}

pub open spec fn errors_view(es: Seq<LexError>) -> Seq<(LexErrorKind, nat)> {
    es.map_values(|e: LexError| (e.kind, e.line as nat))
}

pub open spec fn tokens_view(ts: Seq<Token>) -> Seq<SpecToken> {
    ts.map_values(|t: Token| t@)
}

pub open spec fn is_digit_char(c: char) -> bool {
    '0' <= c <= '9'
}

pub open spec fn is_alpha_char(c: char) -> bool {
    ('a' <= c <= 'z') || ('A' <= c <= 'Z') || c == '_'
}

pub open spec fn is_alphanumeric_char(c: char) -> bool {
    is_alpha_char(c) || is_digit_char(c)
}

/// The number of newlines in `s`.
pub open spec fn newlines(s: Seq<char>) -> nat
    decreases s.len(),
{
    if s.len() == 0 {
        0
    } else {
        newlines(s.drop_last()) + if s.last() == '\n' { 1nat } else { 0nat }
    }
}

/// The line on which position `i` of the source lies.
pub open spec fn line_at(src: Seq<char>, i: int) -> nat {
    1 + newlines(src.subrange(0, i))
}

/// The first position at or after `i` that holds no digit.
pub open spec fn digits_end(src: Seq<char>, i: int) -> int
    decreases src.len() - i,
{
    if i < 0 || i >= src.len() || !is_digit_char(src[i]) {
        i
    } else {
        digits_end(src, i + 1)
    }
}

/// The first position at or after `i` that holds neither a letter, a digit nor `_`.
pub open spec fn alnum_end(src: Seq<char>, i: int) -> int
    decreases src.len() - i,
{
    if i < 0 || i >= src.len() || !is_alphanumeric_char(src[i]) {
        i
    } else {
        alnum_end(src, i + 1)
    }
}

/// The first position at or after `i` that holds `c`, or the end of the source.
pub open spec fn find_char(src: Seq<char>, i: int, c: char) -> int
    decreases src.len() - i,
{
    if i < 0 || i >= src.len() || src[i] == c {
        i
    } else {
        find_char(src, i + 1, c)
    }
}

/// The value of the digits of `s`, ignoring a decimal point.
pub open spec fn digits_value(s: Seq<char>) -> nat
    decreases s.len(),
{
    if s.len() == 0 {
        0
    } else if s.last() == '.' {
        digits_value(s.drop_last())
    } else {
        digits_value(s.drop_last()) * 10 + ((s.last() as int) - ('0' as int)) as nat
    }
}

/// The number of characters after the decimal point of `s` (zero without one).
pub open spec fn fraction_len(s: Seq<char>) -> nat
    decreases s.len(),
{
    if s.len() == 0 || s.last() == '.' {
        0
    } else if s.drop_last().contains('.') {
        fraction_len(s.drop_last()) + 1
    } else {
        0
    }
}

pub open spec fn pow10(k: nat) -> nat
    decreases k,
{
    if k == 0 { 1 } else { 10 * pow10((k - 1) as nat) }
}

/// The most fractional digits a number literal may have.
pub const MAX_FRACTION_DIGITS: usize = 18;

/// The number that a number lexeme denotes, if its digits fit.
pub open spec fn number_literal(lexeme: Seq<char>) -> Option<Number> {
    if fraction_len(lexeme) <= MAX_FRACTION_DIGITS && digits_value(lexeme) <= i64::MAX {
        make_number(digits_value(lexeme) as int, pow10(fraction_len(lexeme)) as int)
    } else {
        None
    }
}

/// The kind of a word: a keyword's own kind, or `IDENTIFIER`.
pub open spec fn keyword_type(w: Seq<char>) -> TokenType {
    if w == seq!['a', 'n', 'd'] { TokenType::AND }
    else if w == seq!['c', 'l', 'a', 's', 's'] { TokenType::CLASS }
    else if w == seq!['e', 'l', 's', 'e'] { TokenType::ELSE }
    else if w == seq!['f', 'a', 'l', 's', 'e'] { TokenType::FALSE }
    else if w == seq!['f', 'o', 'r'] { TokenType::FOR }
    else if w == seq!['f', 'u', 'n'] { TokenType::FUN }
    else if w == seq!['i', 'f'] { TokenType::IF }
    else if w == seq!['l', 'e', 't'] { TokenType::LET }
    else if w == seq!['n', 'i', 'l'] { TokenType::NIL }
    else if w == seq!['o', 'r'] { TokenType::OR }
    else if w == seq!['p', 'r', 'i', 'n', 't'] { TokenType::PRINT }
    else if w == seq!['r', 'e', 't', 'u', 'r', 'n'] { TokenType::RETURN }
    else if w == seq!['s', 't', 'r', 'u', 'c', 't'] { TokenType::STRUCT }
    else if w == seq!['s', 'u', 'p', 'e', 'r'] { TokenType::SUPER }
    else if w == seq!['t', 'h', 'i', 's'] { TokenType::THIS }
    else if w == seq!['t', 'r', 'u', 'e'] { TokenType::TRUE }
    else if w == seq!['w', 'h', 'i', 'l', 'e'] { TokenType::WHILE }
    else { TokenType::IDENTIFIER }
}

/// What one scan from a position yields.
pub enum Scan {
    /// whitespace or a comment
    Skip,
    Tok(TokenType),
    Fail(LexErrorKind),
}

/// The kind of a single-character token.
pub open spec fn single_char_kind(c: char) -> Option<TokenType> {
    if c == '(' { Some(TokenType::LPAREN) }
    else if c == ')' { Some(TokenType::RPAREN) }
    else if c == '{' { Some(TokenType::LBRACE) }
    else if c == '}' { Some(TokenType::RBRACE) }
    else if c == ',' { Some(TokenType::COMMA) }
    else if c == '.' { Some(TokenType::DOT) }
    else if c == '*' { Some(TokenType::STAR) }
    else if c == '/' { Some(TokenType::SLASH) }
    else if c == '%' { Some(TokenType::MODULO) }
    else if c == '+' { Some(TokenType::PLUS) }
    else if c == '-' { Some(TokenType::MINUS) }
    else if c == ';' { Some(TokenType::SEMICOLON) }
    else if c == ':' { Some(TokenType::COLON) }
    else { None }
}

/// For the characters that may start a two-character operator: the kind alone and the kind
/// when followed by `=`.
pub open spec fn operator_kinds(c: char) -> Option<(TokenType, TokenType)> {
    if c == '=' { Some((TokenType::EQUAL, TokenType::ISEQ)) }
    else if c == '!' { Some((TokenType::NOT, TokenType::NE)) }
    else if c == '<' { Some((TokenType::LT, TokenType::LE)) }
    else if c == '>' { Some((TokenType::GT, TokenType::GE)) }
    else { None }
}

pub open spec fn is_blank(c: char) -> bool {
    c == ' ' || c == '\r' || c == '\t' || c == '\n'
}

/// The end of a number lexeme that starts at `start`: digits, then optionally a point
/// followed by at least one digit and the digits after it.
pub open spec fn number_end(src: Seq<char>, start: int) -> int {
    let e1 = digits_end(src, start + 1);
    if e1 + 1 < src.len() && src[e1] == '.' && is_digit_char(src[e1 + 1]) {
        digits_end(src, e1 + 2)
    } else {
        e1
    }
}

/// Scans one lexeme at `start` (which lies in the source): what it is, and where it ends.
pub open spec fn scan_at(src: Seq<char>, start: int) -> (Scan, int) {
    let c = src[start];
    if single_char_kind(c) is Some {
        (Scan::Tok(single_char_kind(c)->0), start + 1)
    } else if operator_kinds(c) is Some {
        let (alone, with_eq) = operator_kinds(c)->0;
        if start + 1 < src.len() && src[start + 1] == '=' {
            (Scan::Tok(with_eq), start + 2)
        } else {
            (Scan::Tok(alone), start + 1)
        }
    } else if is_blank(c) {
        (Scan::Skip, start + 1)
    } else if c == '#' {
        (Scan::Skip, find_char(src, start + 1, '\n'))
    } else if c == '"' {
        let e = find_char(src, start + 1, '"');
        if e >= src.len() {
            (Scan::Fail(LexErrorKind::UnterminatedString), e)
        } else {
            (Scan::Tok(TokenType::STRING), e + 1)
        }
    } else if is_digit_char(c) {
        let e = number_end(src, start);
        if number_literal(src.subrange(start, e)) is Some {
            (Scan::Tok(TokenType::NUMBER), e)
        } else {
            (Scan::Fail(LexErrorKind::InvalidNumber), e)
        }
    } else if is_alpha_char(c) {
        let e = alnum_end(src, start + 1);
        (Scan::Tok(keyword_type(src.subrange(start, e))), e)
    } else {
        (Scan::Fail(LexErrorKind::UnexpectedCharacter), start + 1)
    }
}

/// The literal that a token of kind `k` with lexeme `lx` carries.
pub open spec fn literal_for(k: TokenType, lx: Seq<char>) -> SpecLiteral {
    if k == TokenType::STRING {
        SpecLiteral::Str(lx.subrange(1, lx.len() - 1))
    } else if k == TokenType::NUMBER && number_literal(lx) is Some {
        SpecLiteral::Num(number_literal(lx)->0)
    } else {
        SpecLiteral::NoValue
    }
}

/// The token made of `src[start..end]`.
pub open spec fn token_at(src: Seq<char>, k: TokenType, start: int, end: int) -> SpecToken {
    SpecToken {
        kind: k,
        lexeme: src.subrange(start, end),
        line: line_at(src, end),
        literal: literal_for(k, src.subrange(start, end)),
    }
}

pub open spec fn eof_token(src: Seq<char>) -> SpecToken {
    SpecToken { kind: TokenType::EOF, lexeme: Seq::empty(), line: line_at(src, src.len() as int), literal: SpecLiteral::NoValue }
}

/// What the lexeme at `pos` adds: a token, an error, or nothing.
pub open spec fn scan_item(src: Seq<char>, pos: int) -> (Seq<SpecToken>, Seq<(LexErrorKind, nat)>) {
    let (s, e) = scan_at(src, pos);
    match s {
        Scan::Skip => (Seq::empty(), Seq::empty()),
        Scan::Tok(k) => (seq![token_at(src, k, pos, e)], Seq::empty()),
        Scan::Fail(kind) => (Seq::empty(), seq![(kind, line_at(src, e))]),
    }
}

/// The tokens read from position `pos` to the end, and the errors met on the way.
pub open spec fn lex_from(src: Seq<char>, pos: int) -> (Seq<SpecToken>, Seq<(LexErrorKind, nat)>)
    decreases src.len() - pos,
{
    if pos < 0 || pos >= src.len() {
        (seq![eof_token(src)], Seq::empty())
    } else {
        let e = scan_at(src, pos).1;
        if e <= pos || e > src.len() {
            (seq![eof_token(src)], Seq::empty())
        } else {
            let (ts, es) = lex_from(src, e);
            let (t, x) = scan_item(src, pos);
            (t + ts, x + es)
        }
    }
}

/// The tokens of a source text (ending with an end-of-file token) and its lexical errors.
pub open spec fn lex(src: Seq<char>) -> (Seq<SpecToken>, Seq<(LexErrorKind, nat)>) {
    lex_from(src, 0)
}

} // verus!

verus! {

fn is_digit(c: char) -> (r: bool)
    ensures
        r == is_digit_char(c),
{
    c >= '0' && c <= '9'
}

fn is_alpha(c: char) -> (r: bool)
    ensures
        r == is_alpha_char(c),
{
    (c >= 'a' && c <= 'z') || (c >= 'A' && c <= 'Z') || c == '_'
}

fn is_alphanumeric(c: char) -> (r: bool)
    ensures
        r == is_alphanumeric_char(c),
{
    is_alpha(c) || is_digit(c)
}

fn single_kind(c: char) -> (r: Option<TokenType>)
    ensures
        r == single_char_kind(c),
{
    match c {
        '(' => Some(TokenType::LPAREN),
        ')' => Some(TokenType::RPAREN),
        '{' => Some(TokenType::LBRACE),
        '}' => Some(TokenType::RBRACE),
        ',' => Some(TokenType::COMMA),
        '.' => Some(TokenType::DOT),
        '*' => Some(TokenType::STAR),
        '/' => Some(TokenType::SLASH),
        '%' => Some(TokenType::MODULO),
        '+' => Some(TokenType::PLUS),
        '-' => Some(TokenType::MINUS),
        ';' => Some(TokenType::SEMICOLON),
        ':' => Some(TokenType::COLON),
        _ => None,
    }
}

fn operator_kind(c: char) -> (r: Option<(TokenType, TokenType)>)
    ensures
        r == operator_kinds(c),
{
    match c {
        '=' => Some((TokenType::EQUAL, TokenType::ISEQ)),
        '!' => Some((TokenType::NOT, TokenType::NE)),
        '<' => Some((TokenType::LT, TokenType::LE)),
        '>' => Some((TokenType::GT, TokenType::GE)),
        _ => None,
    }
}

/// Whether `cs[start..end]` spells `w`.
fn word_is(cs: &Vec<char>, start: usize, end: usize, w: &[char]) -> (r: bool)
    requires
        start <= end <= cs@.len(),
    ensures
        r == (cs@.subrange(start as int, end as int) == w@),
{
    if end - start != w.len() {
        return false;
    }
    let mut i: usize = 0;
    while i < w.len()
        invariant
            end - start == w@.len(),
            start <= end <= cs@.len(),
            i <= w@.len(),
            forall|j: int| 0 <= j < i ==> cs@[start + j] == w@[j],
        decreases w@.len() - i,
    {
        if cs[start + i] != w[i] {
            assert(cs@.subrange(start as int, end as int)[i as int] != w@[i as int]);
            return false;
        }
        i = i + 1;
    }
    assert(cs@.subrange(start as int, end as int) =~= w@);
    true
}

/// The kind of the word `cs[start..end]`.
fn keyword_kind(cs: &Vec<char>, start: usize, end: usize) -> (r: TokenType)
    requires
        start <= end <= cs@.len(),
    ensures
        r == keyword_type(cs@.subrange(start as int, end as int)),
{
    let ghost w = cs@.subrange(start as int, end as int);
    if word_is(cs, start, end, &['a', 'n', 'd']) { return TokenType::AND; }
    if word_is(cs, start, end, &['c', 'l', 'a', 's', 's']) { return TokenType::CLASS; }
    if word_is(cs, start, end, &['e', 'l', 's', 'e']) { return TokenType::ELSE; }
    if word_is(cs, start, end, &['f', 'a', 'l', 's', 'e']) { return TokenType::FALSE; }
    if word_is(cs, start, end, &['f', 'o', 'r']) { return TokenType::FOR; }
    if word_is(cs, start, end, &['f', 'u', 'n']) { return TokenType::FUN; }
    if word_is(cs, start, end, &['i', 'f']) { return TokenType::IF; }
    if word_is(cs, start, end, &['l', 'e', 't']) { return TokenType::LET; }
    if word_is(cs, start, end, &['n', 'i', 'l']) { return TokenType::NIL; }
    if word_is(cs, start, end, &['o', 'r']) { return TokenType::OR; }
    if word_is(cs, start, end, &['p', 'r', 'i', 'n', 't']) { return TokenType::PRINT; }
    if word_is(cs, start, end, &['r', 'e', 't', 'u', 'r', 'n']) { return TokenType::RETURN; }
    if word_is(cs, start, end, &['s', 't', 'r', 'u', 'c', 't']) { return TokenType::STRUCT; }
    if word_is(cs, start, end, &['s', 'u', 'p', 'e', 'r']) { return TokenType::SUPER; }
    if word_is(cs, start, end, &['t', 'h', 'i', 's']) { return TokenType::THIS; }
    if word_is(cs, start, end, &['t', 'r', 'u', 'e']) { return TokenType::TRUE; }
    if word_is(cs, start, end, &['w', 'h', 'i', 'l', 'e']) { return TokenType::WHILE; }
    TokenType::IDENTIFIER
}

} // verus!

verus! {

proof fn lemma_digits_value_prefix(s: Seq<char>, i: int)
    requires
        0 <= i <= s.len(),
    ensures
        digits_value(s.subrange(0, i)) <= digits_value(s),
    decreases s.len(),
{
    if i == s.len() {
        assert(s.subrange(0, i) =~= s);
    } else {
        lemma_digits_value_prefix(s.drop_last(), i);
        assert(s.drop_last().subrange(0, i) =~= s.subrange(0, i));
    }
}

proof fn lemma_pow10_mono(a: nat, b: nat)
    requires
        a <= b,
    ensures
        pow10(a) <= pow10(b),
    decreases b - a,
{
    if a < b {
        lemma_pow10_mono(a, (b - 1) as nat);
    }
}

/// The number that the lexeme `cs[start..end]` denotes, if its digits fit.
fn number_value(cs: &Vec<char>, start: usize, end: usize) -> (r: Option<Number>)
    requires
        start <= end <= cs@.len(),
        forall|j: int| start <= j < end ==> is_digit_char(cs@[j]) || cs@[j] == '.',
    ensures
        r == number_literal(cs@.subrange(start as int, end as int)),
{
    let ghost lx = cs@.subrange(start as int, end as int);
    let mut acc: u64 = 0;
    let mut frac: usize = 0;
    let mut seen_dot = false;
    let mut i = start;
    while i < end
        invariant
            start <= i <= end <= cs@.len(),
            lx == cs@.subrange(start as int, end as int),
            forall|j: int| start <= j < end ==> is_digit_char(cs@[j]) || cs@[j] == '.',
            acc == digits_value(lx.subrange(0, i - start)),
            acc <= i64::MAX,
            frac == fraction_len(lx.subrange(0, i - start)),
            frac <= i - start,
            seen_dot == lx.subrange(0, i - start).contains('.'),
        decreases end - i,
    {
        let c = cs[i];
        let ghost pre = lx.subrange(0, i - start);
        let ghost next = lx.subrange(0, i + 1 - start);
        assert(next.drop_last() =~= pre);
        assert(next.last() == c);
        if c == '.' {
            frac = 0;
            seen_dot = true;
            assert(next.contains('.')) by {
                assert(next[next.len() - 1] == '.');
            }
        } else {
            let d = (c as u32 - '0' as u32) as u64;
            let big: u128 = (acc as u128) * 10 + (d as u128);
            if big > i64::MAX as u128 {
                proof {
                    lemma_digits_value_prefix(lx, i + 1 - start);
                }
                return None;
            }
            acc = big as u64;
            if seen_dot {
                frac = frac + 1;
            }
            assert(next.contains('.') == pre.contains('.')) by {
                if next.contains('.') {
                    let k = choose|k: int| 0 <= k < next.len() && next[k] == '.';
                    assert(k < pre.len());
                    assert(pre[k] == '.');
                }
                if pre.contains('.') {
                    let k = choose|k: int| 0 <= k < pre.len() && pre[k] == '.';
                    assert(next[k] == '.');
                }
            }
        }
        i = i + 1;
    }
    assert(lx.subrange(0, end - start) =~= lx);
    if frac > MAX_FRACTION_DIGITS {
        return None;
    }
    let mut den: u64 = 1;
    let mut k: usize = 0;
    proof {
        lemma_pow10_mono(frac as nat, 18);
        reveal_with_fuel(pow10, 19);
        assert(pow10(18) == 1000000000000000000);
    }
    while k < frac
        invariant
            k <= frac <= 18,
            den == pow10(k as nat),
            pow10(frac as nat) <= 1000000000000000000,
        decreases frac - k,
    {
        proof {
            lemma_pow10_mono((k + 1) as nat, frac as nat);
        }
        den = den * 10;
        k = k + 1;
    }
    crate::number::make(acc as i128, den as i128)
}

/// A lexer over one source text. It reads the text lexeme by lexeme, collecting tokens and
/// lexical errors.
pub struct Lexer {
    pub source: Vec<char>,
    pub tokens: Vec<Token>,
    pub errors: Vec<LexError>,
    pub line: usize,
    pub current: usize,
    pub start: usize,
}

impl Lexer {
    /// The lexer's state agrees with `lex`: what it has collected so far, followed by what
    /// the rest of the text yields, is what the whole text yields.
    pub open spec fn wf(&self) -> bool {
        &&& self.source@.len() < usize::MAX
        &&& self.current <= self.source@.len()
        &&& self.line == line_at(self.source@, self.current as int)
        &&& self.line <= self.current + 1
        &&& tokens_view(self.tokens@) + lex_from(self.source@, self.current as int).0 == lex(self.source@).0
        &&& errors_view(self.errors@) + lex_from(self.source@, self.current as int).1 == lex(self.source@).1
    }

    pub fn new(src: String) -> (r: Self)
        requires
            src@.len() < usize::MAX,
        ensures
            r.source@ == src@,
            r.wf(),
    {
        let source = chars_of(src.as_str());
        let r = Lexer { source, tokens: Vec::new(), errors: Vec::new(), line: 1, current: 0, start: 0 };
        assert(r.source@.subrange(0, 0) =~= Seq::<char>::empty());
        assert(tokens_view(r.tokens@) =~= Seq::empty());
        assert(errors_view(r.errors@) =~= Seq::empty());
        assert(tokens_view(r.tokens@) + lex_from(r.source@, 0).0 =~= lex(r.source@).0);
        assert(errors_view(r.errors@) + lex_from(r.source@, 0).1 =~= lex(r.source@).1);
        r
    }

    fn done(&self) -> (r: bool)
        ensures
            r == (self.current >= self.source@.len()),
    {
        self.current >= self.source.len()
    }

    fn advance(&mut self) -> (c: char)
        requires
            old(self).current < old(self).source@.len() < usize::MAX,
            old(self).line == line_at(old(self).source@, old(self).current as int),
            old(self).line <= old(self).current + 1,
        ensures
            c == old(self).source@[old(self).current as int],
            final(self).current == old(self).current + 1,
            final(self).line == line_at(final(self).source@, final(self).current as int),
            final(self).line <= final(self).current + 1,
            final(self).source == old(self).source,
            final(self).tokens == old(self).tokens,
            final(self).errors == old(self).errors,
            final(self).start == old(self).start,
    {
        let c = self.source[self.current];
        let ghost src = self.source@;
        let ghost i = self.current as int;
        assert(src.subrange(0, i + 1).drop_last() =~= src.subrange(0, i));
        self.current = self.current + 1;
        if c == '\n' {
            self.line = self.line + 1;
        }
        c
    }

    fn match_expected(&mut self, expected: char) -> (r: bool)
        requires
            old(self).current <= old(self).source@.len() < usize::MAX,
            old(self).line == line_at(old(self).source@, old(self).current as int),
            old(self).line <= old(self).current + 1,
        ensures
            r == (old(self).current < old(self).source@.len() && old(self).source@[old(self).current as int] == expected),
            final(self).current == if r { old(self).current + 1 } else { old(self).current as int },
            final(self).line == line_at(final(self).source@, final(self).current as int),
            final(self).line <= final(self).current + 1,
            final(self).source == old(self).source,
            final(self).tokens == old(self).tokens,
            final(self).errors == old(self).errors,
            final(self).start == old(self).start,
    {
        if self.done() || self.source[self.current] != expected {
            return false;
        }
        self.advance();
        true
    }

    /// Moves past the characters up to the next `c` (or the end).
    fn skip_until(&mut self, c: char)
        requires
            old(self).current <= old(self).source@.len() < usize::MAX,
            old(self).line == line_at(old(self).source@, old(self).current as int),
            old(self).line <= old(self).current + 1,
        ensures
            final(self).current == find_char(old(self).source@, old(self).current as int, c),
            old(self).current <= final(self).current <= final(self).source@.len(),
            final(self).line == line_at(final(self).source@, final(self).current as int),
            final(self).line <= final(self).current + 1,
            final(self).source == old(self).source,
            final(self).tokens == old(self).tokens,
            final(self).errors == old(self).errors,
            final(self).start == old(self).start,
    {
        while !self.done() && self.source[self.current] != c
            invariant
                self.current <= self.source@.len() < usize::MAX,
                self.line == line_at(self.source@, self.current as int),
                self.line <= self.current + 1,
                find_char(self.source@, self.current as int, c) == find_char(old(self).source@, old(self).current as int, c),
                self.source == old(self).source,
                self.tokens == old(self).tokens,
                self.errors == old(self).errors,
                self.start == old(self).start,
                self.current >= old(self).current,
            decreases self.source@.len() - self.current,
        {
            self.advance();
        }
    }

    fn skip_digits(&mut self)
        requires
            old(self).current <= old(self).source@.len() < usize::MAX,
            old(self).line == line_at(old(self).source@, old(self).current as int),
            old(self).line <= old(self).current + 1,
        ensures
            final(self).current == digits_end(old(self).source@, old(self).current as int),
            old(self).current <= final(self).current <= final(self).source@.len(),
            final(self).line == line_at(final(self).source@, final(self).current as int),
            final(self).line <= final(self).current + 1,
            final(self).source == old(self).source,
            final(self).tokens == old(self).tokens,
            final(self).errors == old(self).errors,
            final(self).start == old(self).start,
    {
        while !self.done() && is_digit(self.source[self.current])
            invariant
                self.current <= self.source@.len() < usize::MAX,
                self.line == line_at(self.source@, self.current as int),
                self.line <= self.current + 1,
                digits_end(self.source@, self.current as int) == digits_end(old(self).source@, old(self).current as int),
                self.source == old(self).source,
                self.tokens == old(self).tokens,
                self.errors == old(self).errors,
                self.start == old(self).start,
                self.current >= old(self).current,
            decreases self.source@.len() - self.current,
        {
            self.advance();
        }
    }

    fn skip_alphanumeric(&mut self)
        requires
            old(self).current <= old(self).source@.len() < usize::MAX,
            old(self).line == line_at(old(self).source@, old(self).current as int),
            old(self).line <= old(self).current + 1,
        ensures
            final(self).current == alnum_end(old(self).source@, old(self).current as int),
            old(self).current <= final(self).current <= final(self).source@.len(),
            final(self).line == line_at(final(self).source@, final(self).current as int),
            final(self).line <= final(self).current + 1,
            final(self).source == old(self).source,
            final(self).tokens == old(self).tokens,
            final(self).errors == old(self).errors,
            final(self).start == old(self).start,
    {
        while !self.done() && is_alphanumeric(self.source[self.current])
            invariant
                self.current <= self.source@.len() < usize::MAX,
                self.line == line_at(self.source@, self.current as int),
                self.line <= self.current + 1,
                alnum_end(self.source@, self.current as int) == alnum_end(old(self).source@, old(self).current as int),
                self.source == old(self).source,
                self.tokens == old(self).tokens,
                self.errors == old(self).errors,
                self.start == old(self).start,
                self.current >= old(self).current,
            decreases self.source@.len() - self.current,
        {
            self.advance();
        }
    }
}

} // verus!

verus! {

proof fn lemma_digits_end(src: Seq<char>, i: int)
    requires
        0 <= i <= src.len(),
    ensures
        i <= digits_end(src, i) <= src.len(),
        forall|j: int| i <= j < digits_end(src, i) ==> is_digit_char(src[j]),
    decreases src.len() - i,
{
    if i < src.len() && is_digit_char(src[i]) {
        lemma_digits_end(src, i + 1);
    }
}

proof fn lemma_tokens_view_push(ts: Seq<Token>, t: Token)
    ensures
        tokens_view(ts.push(t)) == tokens_view(ts).push(t@),
{
    assert(tokens_view(ts.push(t)) =~= tokens_view(ts).push(t@));
}

proof fn lemma_errors_view_push(es: Seq<LexError>, e: LexError)
    ensures
        errors_view(es.push(e)) == errors_view(es).push((e.kind, e.line as nat)),
{
    assert(errors_view(es.push(e)) =~= errors_view(es).push((e.kind, e.line as nat)));
}

/// `after` is `before` once the lexeme at `pos` has been read: its token or error has been
/// collected and the position stands at the lexeme's end.
pub open spec fn scanned(before: Lexer, after: Lexer, pos: int) -> bool {
    let src = before.source@;
    &&& after.source == before.source
    &&& after.current == scan_at(src, pos).1
    &&& pos < after.current <= src.len()
    &&& after.line == line_at(src, after.current as int)
    &&& after.line <= after.current + 1
    &&& tokens_view(after.tokens@) == tokens_view(before.tokens@) + scan_item(src, pos).0
    &&& errors_view(after.errors@) == errors_view(before.errors@) + scan_item(src, pos).1
}

impl Lexer {
    /// Collects a token of kind `k` made of the text from `start` to the current position.
    fn add_token_with_literal(&mut self, k: TokenType, literal: Option<Box<VariTypes>>)
        requires
            old(self).start <= old(self).current <= old(self).source@.len(),
        ensures
            final(self).tokens@ == old(self).tokens@.push(Token {
                token_type: k,
                lexeme: final(self).tokens@.last().lexeme,
                line: old(self).line,
                literal,
            }),
            final(self).tokens@.last().lexeme@ == old(self).source@.subrange(old(self).start as int, old(self).current as int),
            final(self).source == old(self).source,
            final(self).errors == old(self).errors,
            final(self).current == old(self).current,
            final(self).line == old(self).line,
            final(self).start == old(self).start,
    {
        let lexeme = string_of(&self.source, self.start, self.current);
        let t = Token::new(k, lexeme, self.line, literal);
        self.tokens.push(t);
    }

    fn add_token(&mut self, k: TokenType)
        requires
            old(self).start <= old(self).current <= old(self).source@.len(),
        ensures
            final(self).tokens@ == old(self).tokens@.push(Token {
                token_type: k,
                lexeme: final(self).tokens@.last().lexeme,
                line: old(self).line,
                literal: None,
            }),
            final(self).tokens@.last().lexeme@ == old(self).source@.subrange(old(self).start as int, old(self).current as int),
            final(self).source == old(self).source,
            final(self).errors == old(self).errors,
            final(self).current == old(self).current,
            final(self).line == old(self).line,
            final(self).start == old(self).start,
    {
        self.add_token_with_literal(k, None);
    }

    fn error(&mut self, kind: LexErrorKind)
        ensures
            final(self).errors@ == old(self).errors@.push(LexError { kind, line: old(self).line }),
            final(self).source == old(self).source,
            final(self).tokens == old(self).tokens,
            final(self).current == old(self).current,
            final(self).line == old(self).line,
            final(self).start == old(self).start,
    {
        self.errors.push(LexError { kind, line: self.line });
    }

    fn consume_num_literal(&mut self, Ghost(before): Ghost<Lexer>)
        requires
            old(self).source == before.source,
            old(self).tokens == before.tokens,
            old(self).errors == before.errors,
            old(self).start == before.current,
            old(self).current == old(self).start + 1 <= old(self).source@.len() < usize::MAX,
            is_digit_char(old(self).source@[old(self).start as int]),
            old(self).line == line_at(old(self).source@, old(self).current as int),
            old(self).line <= old(self).current + 1,
        ensures
            scanned(before, *final(self), before.current as int),
    {
        let ghost src = self.source@;
        let ghost pos = self.start as int;
        proof { lemma_digits_end(src, pos + 1); }
        self.skip_digits();
        let ghost e1 = self.current as int;
        if self.current + 1 < self.source.len() && self.source[self.current] == '.' && is_digit(self.source[self.current + 1]) {
            self.advance();
            self.advance();
            proof { lemma_digits_end(src, e1 + 2); }
            self.skip_digits();
        }
        assert(self.current == number_end(src, pos));
        assert forall|j: int| self.start <= j < self.current implies is_digit_char(src[j]) || src[j] == '.' by {
            if j > pos && j < e1 {
            }
        }
        let v = number_value(&self.source, self.start, self.current);
        match v {
            Some(n) => {
                self.add_token_with_literal(TokenType::NUMBER, Some(Box::new(VariTypes::Num(n))));
                proof { lemma_tokens_view_push(before.tokens@, self.tokens@.last()); }
                assert(tokens_view(self.tokens@) =~= tokens_view(before.tokens@) + scan_item(src, pos).0);
            },
            None => {
                self.error(LexErrorKind::InvalidNumber);
                proof { lemma_errors_view_push(before.errors@, self.errors@.last()); }
                assert(errors_view(self.errors@) =~= errors_view(before.errors@) + scan_item(src, pos).1);
            },
        }
    }
}

} // verus!

verus! {

proof fn lemma_find_char(src: Seq<char>, i: int, c: char)
    requires
        0 <= i <= src.len(),
    ensures
        i <= find_char(src, i, c) <= src.len(),
    decreases src.len() - i,
{
    if i < src.len() && src[i] != c {
        lemma_find_char(src, i + 1, c);
    }
}

impl Lexer {
    fn consume_string_literal(&mut self, Ghost(before): Ghost<Lexer>)
        requires
            old(self).source == before.source,
            old(self).tokens == before.tokens,
            old(self).errors == before.errors,
            old(self).start == before.current,
            old(self).current == old(self).start + 1 <= old(self).source@.len() < usize::MAX,
            old(self).source@[old(self).start as int] == '"',
            old(self).line == line_at(old(self).source@, old(self).current as int),
            old(self).line <= old(self).current + 1,
        ensures
            scanned(before, *final(self), before.current as int),
    {
        let ghost src = self.source@;
        let ghost pos = self.start as int;
        self.skip_until('"');
        if self.done() {
            self.error(LexErrorKind::UnterminatedString);
            proof { lemma_errors_view_push(before.errors@, self.errors@.last()); }
            assert(errors_view(self.errors@) =~= errors_view(before.errors@) + scan_item(src, pos).1);
            return;
        }
        // the closing quote
        self.advance();
        let value = string_of(&self.source, self.start + 1, self.current - 1);
        self.add_token_with_literal(TokenType::STRING, Some(Box::new(VariTypes::String(value))));
        proof { lemma_tokens_view_push(before.tokens@, self.tokens@.last()); }
        let ghost lx = src.subrange(pos, self.current as int);
        assert(lx.subrange(1, lx.len() - 1) =~= src.subrange(pos + 1, self.current - 1));
        assert(tokens_view(self.tokens@) =~= tokens_view(before.tokens@) + scan_item(src, pos).0);
    }

    fn consume_identifier(&mut self, Ghost(before): Ghost<Lexer>)
        requires
            old(self).source == before.source,
            old(self).tokens == before.tokens,
            old(self).errors == before.errors,
            old(self).start == before.current,
            old(self).current == old(self).start + 1 <= old(self).source@.len() < usize::MAX,
            is_alpha_char(old(self).source@[old(self).start as int]),
            old(self).line == line_at(old(self).source@, old(self).current as int),
            old(self).line <= old(self).current + 1,
        ensures
            scanned(before, *final(self), before.current as int),
    {
        let ghost src = self.source@;
        let ghost pos = self.start as int;
        self.skip_alphanumeric();
        let kind = keyword_kind(&self.source, self.start, self.current);
        self.add_token(kind);
        proof { lemma_tokens_view_push(before.tokens@, self.tokens@.last()); }
        assert(tokens_view(self.tokens@) =~= tokens_view(before.tokens@) + scan_item(src, pos).0);
    }

    /// Reads the lexeme that starts at the current position.
    fn scan_token(&mut self)
        requires
            old(self).current < old(self).source@.len() < usize::MAX,
            old(self).line == line_at(old(self).source@, old(self).current as int),
            old(self).line <= old(self).current + 1,
        ensures
            scanned(*old(self), *final(self), old(self).current as int),
    {
        let ghost before = *self;
        let ghost src = self.source@;
        let ghost pos = self.current as int;
        self.start = self.current;
        let c = self.advance();
        match single_kind(c) {
            Some(k) => {
                self.add_token(k);
                proof { lemma_tokens_view_push(before.tokens@, self.tokens@.last()); }
                assert(tokens_view(self.tokens@) =~= tokens_view(before.tokens@) + scan_item(src, pos).0);
                return;
            },
            None => {},
        }
        match operator_kind(c) {
            Some((alone, with_eq)) => {
                if self.match_expected('=') {
                    self.add_token(with_eq);
                } else {
                    self.add_token(alone);
                }
                proof { lemma_tokens_view_push(before.tokens@, self.tokens@.last()); }
                assert(tokens_view(self.tokens@) =~= tokens_view(before.tokens@) + scan_item(src, pos).0);
                return;
            },
            None => {},
        }
        if c == ' ' || c == '\r' || c == '\t' || c == '\n' {
            assert(tokens_view(self.tokens@) =~= tokens_view(before.tokens@) + scan_item(src, pos).0);
            assert(errors_view(self.errors@) =~= errors_view(before.errors@) + scan_item(src, pos).1);
            return;
        }
        if c == '#' {
            // a comment runs to the end of the line
            self.skip_until('\n');
            assert(tokens_view(self.tokens@) =~= tokens_view(before.tokens@) + scan_item(src, pos).0);
            assert(errors_view(self.errors@) =~= errors_view(before.errors@) + scan_item(src, pos).1);
            return;
        }
        if c == '"' {
            self.consume_string_literal(Ghost(before));
        } else if is_digit(c) {
            self.consume_num_literal(Ghost(before));
        } else if is_alpha(c) {
            self.consume_identifier(Ghost(before));
        } else {
            self.error(LexErrorKind::UnexpectedCharacter);
            proof { lemma_errors_view_push(before.errors@, self.errors@.last()); }
            assert(errors_view(self.errors@) =~= errors_view(before.errors@) + scan_item(src, pos).1);
        }
    }

    /// Reads the rest of the text and returns all tokens, ending with an end-of-file token.
    pub fn scan_tokens(&mut self) -> (r: Vec<Token>)
        requires
            old(self).wf(),
        ensures
            tokens_view(r@) == lex(old(self).source@).0,
            errors_view(final(self).errors@) == lex(old(self).source@).1,
            final(self).source == old(self).source,
    {
        let ghost src = self.source@;
        while !self.done()
            invariant
                self.wf(),
                self.source@ == src,
                self.source == old(self).source,
            decreases self.source@.len() - self.current,
        {
            let ghost before = *self;
            let ghost pos = self.current as int;
            self.scan_token();
            assert(tokens_view(self.tokens@) + lex_from(src, self.current as int).0 =~= tokens_view(before.tokens@) + lex_from(src, pos).0);
            assert(errors_view(self.errors@) + lex_from(src, self.current as int).1 =~= errors_view(before.errors@) + lex_from(src, pos).1);
        }
        let eof = Token::new(TokenType::EOF, String::new(), self.line, None);
        let ghost collected = self.tokens@;
        self.tokens.push(eof);
        proof {
            lemma_tokens_view_push(collected, eof);
        }
        assert(tokens_view(self.tokens@) =~= lex(src).0);
        self.tokens.clone()
    }
}


proof fn lemma_alnum_end(src: Seq<char>, i: int)
    requires
        0 <= i <= src.len(),
    ensures
        i <= alnum_end(src, i) <= src.len(),
    decreases src.len() - i,
{
    if i < src.len() && is_alphanumeric_char(src[i]) {
        lemma_alnum_end(src, i + 1);
    }
}

/// Every scan moves forward and stays within the text.
pub proof fn lemma_scan_moves_on(src: Seq<char>, pos: int)
    requires
        0 <= pos < src.len(),
    ensures
        pos < scan_at(src, pos).1 <= src.len(),
{
    lemma_find_char(src, pos + 1, '\n');
    lemma_find_char(src, pos + 1, '"');
    lemma_digits_end(src, pos + 1);
    let e1 = digits_end(src, pos + 1);
    if 0 <= e1 + 2 <= src.len() {
        lemma_digits_end(src, e1 + 2);
    }
    lemma_alnum_end(src, pos + 1);
}

/// The text without its blanks (spaces, tabs, carriage returns and newlines).
pub open spec fn strip_blanks(s: Seq<char>) -> Seq<char> {
    s.filter(|c: char| !is_blank(c))
}

/// The lexemes of `ts`, one after the other.
pub open spec fn joined_lexemes(ts: Seq<SpecToken>) -> Seq<char>
    decreases ts.len(),
{
    if ts.len() == 0 {
        Seq::empty()
    } else {
        ts[0].lexeme + joined_lexemes(ts.drop_first())
    }
}

proof fn lemma_rebuild_from(src: Seq<char>, pos: int)
    requires
        0 <= pos <= src.len(),
        !src.contains('#'),
        lex_from(src, pos).1.len() == 0,
    ensures
        strip_blanks(joined_lexemes(lex_from(src, pos).0)) == strip_blanks(src.subrange(pos, src.len() as int)),
    decreases src.len() - pos,
{
    broadcast use Seq::filter_distributes_over_add;
    let pred = |c: char| !is_blank(c);
    if pos == src.len() {
        let eof = seq![eof_token(src)];
        assert(eof.drop_first() =~= Seq::<SpecToken>::empty());
        assert(joined_lexemes(eof) =~= Seq::<char>::empty()) by {
            reveal_with_fuel(joined_lexemes, 2);
        }
        assert(src.subrange(pos, pos) =~= Seq::<char>::empty());
        assert(Seq::<char>::empty().filter(pred) =~= Seq::<char>::empty()) by {
            reveal(Seq::filter);
        }
    } else {
        lemma_scan_moves_on(src, pos);
        let e = scan_at(src, pos).1;
        let (ts, es) = lex_from(src, e);
        let (t, x) = scan_item(src, pos);
        lemma_rebuild_from(src, e);
        let whole = src.subrange(pos, src.len() as int);
        let head = src.subrange(pos, e);
        let tail = src.subrange(e, src.len() as int);
        assert(whole =~= head + tail);
        assert(strip_blanks(whole) == strip_blanks(head) + strip_blanks(tail)) by {
            Seq::filter_distributes_over_add(head, tail, pred);
        }
        assert(src[pos] != '#') by {
            if src[pos] == '#' {
                assert(src.contains('#'));
            }
        }
        match scan_at(src, pos).0 {
            Scan::Skip => {
                assert(e == pos + 1);
                assert(head =~= seq![src[pos]]);
                assert(strip_blanks(head) =~= Seq::<char>::empty()) by {
                    reveal_with_fuel(Seq::filter, 2);
                    assert(head.drop_last() =~= Seq::<char>::empty());
                }
                assert(t + ts =~= ts);
            },
            Scan::Tok(k) => {
                let tok = token_at(src, k, pos, e);
                assert((seq![tok] + ts).drop_first() =~= ts);
                assert(joined_lexemes(seq![tok] + ts) == head + joined_lexemes(ts));
                assert(strip_blanks(head + joined_lexemes(ts)) == strip_blanks(head) + strip_blanks(joined_lexemes(ts))) by {
                    Seq::filter_distributes_over_add(head, joined_lexemes(ts), pred);
                }
            },
            Scan::Fail(_) => {
                assert(lex_from(src, pos).1.len() > 0);
            },
        }
    }
}

/// Lexing loses only blanks: for a text without comments (no `#`) that lexes without errors,
/// the lexemes of its tokens, joined, equal the text once blanks are removed from both.
pub proof fn lemma_lexemes_rebuild_source(src: Seq<char>)
    requires
        !src.contains('#'),
        lex(src).1.len() == 0,
    ensures
        strip_blanks(joined_lexemes(lex(src).0)) == strip_blanks(src),
{
    lemma_rebuild_from(src, 0);
    assert(src.subrange(0, src.len() as int) =~= src);
}

/// The tokens of every text end with the end-of-file token.
pub proof fn lemma_lex_ends_with_eof(src: Seq<char>, pos: int)
    requires
        0 <= pos <= src.len(),
    ensures
        lex_from(src, pos).0.len() > 0,
        lex_from(src, pos).0.last() == eof_token(src),
    decreases src.len() - pos,
{
    if pos < src.len() {
        lemma_scan_moves_on(src, pos);
        let e = scan_at(src, pos).1;
        lemma_lex_ends_with_eof(src, e);
        let (ts, _) = lex_from(src, e);
        let (t, _) = scan_item(src, pos);
        assert((t + ts).last() == ts.last());
    }
}

} // verus!
