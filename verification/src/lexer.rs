//! The lexer: source text to tokens. Identifiers, keywords, integer, float
//! and string literals, and operators (the longest one that matches);
//! blanks and `//` comments are skipped.

use vstd::prelude::*;

use crate::text::{concat3, owned, text_of};
use crate::value::{FloatOps, Value, ValueV};

verus! {

/// The kinds of tokens.
#[derive(Debug, Clone, Copy, PartialEq, Eq, Structural)]
pub enum TokenKind {
    NoToken,
    Error,
    Done,
    Ident,
    Int,
    Float,
    String,
    LetKw,
    FunKw,
    AnonClosure,
    IfKw,
    ElseKw,
    WhileKw,
    ForKw,
    ReturnKw,
    TrueKw,
    FalseKw,
    NilKw,
    NsKw,
    LParen,
    RParen,
    LBrace,
    RBrace,
    LBracket,
    RBracket,
    Semicolon,
    Comma,
    Dot,
    Colon,
    Question,
    Add,
    Subtract,
    Multiply,
    Divide,
    Modulo,
    Power,
    And,
    Or,
    XOr,
    Not,
    LNot,
    LAnd,
    LOr,
    LShift,
    RShift,
    Equal,
    NEqual,
    Less,
    LessEqual,
    Greater,
    GreaterEqual,
    Assign,
    AddAssign,
    SubtractAssign,
    MultiplyAssign,
    DivideAssign,
    ModuloAssign,
    PowerAssign,
    AndAssign,
    OrAssign,
    XOrAssign,
    LShiftAssign,
    RShiftAssign,
}

/// A token: its kind, its text (for an error token, the message), where it
/// starts, and for a literal its value.
pub struct Token {
    pub kind: TokenKind,
    pub lexeme: String,
    pub line: usize,
    pub col: usize,
    pub value: Value,
}

impl Token {
    /// A token that stands for nothing yet.
    pub fn none() -> (r: Token)
        ensures
            r.kind == TokenKind::NoToken,
            r.lexeme@ == Seq::<char>::empty(),
            r.line == 1,
            r.col == 1,
            r.value == Value::Nil,
    {
        Token { kind: TokenKind::NoToken, lexeme: String::new(), line: 1, col: 1, value: Value::Nil }
    }

    /// A copy of the token.
    pub fn duplicate(&self) -> (r: Token)
        ensures
            r == *self,
    {
        Token {
            kind: self.kind,
            lexeme: self.lexeme.clone(),
            line: self.line,
            col: self.col,
            value: self.value.copy(),
        }
    }
}

/// The characters of a text.
pub fn text_chars(s: &str) -> (r: Vec<char>)
    ensures
        r@ == s@,
{
    let n = s.unicode_len();
    let mut v: Vec<char> = Vec::new();
    let mut i: usize = 0;
    while i < n
        invariant
            n == s@.len(),
            i <= n,
            v@ == s@.subrange(0, i as int),
        decreases n - i,
    {
        v.push(s.get_char(i));
        assert(s@.subrange(0, i + 1) == s@.subrange(0, i as int).push(s@[i as int]));
        i = i + 1;
    }
    v
}

pub open spec fn spec_is_digit(c: char) -> bool {
    '0' <= c <= '9'
}

/// Letters and `_` start identifiers.
pub open spec fn spec_is_alpha(c: char) -> bool {
    ('a' <= c <= 'z') || ('A' <= c <= 'Z') || c == '_'
}

pub open spec fn spec_is_blank(c: char) -> bool {
    c == ' ' || c == '\t' || c == '\r' || c == '\n'
}

fn is_digit(c: char) -> (r: bool)
    ensures
        r == spec_is_digit(c),
{
    '0' <= c && c <= '9'
}

fn is_alpha(c: char) -> (r: bool)
    ensures
        r == spec_is_alpha(c),
{
    ('a' <= c && c <= 'z') || ('A' <= c && c <= 'Z') || c == '_'
}

/// The kind of a word: the keyword it spells, else an identifier.
pub open spec fn spec_keyword(w: Seq<char>) -> TokenKind {
    if w == "let"@ {
        TokenKind::LetKw
    } else if w == "fun"@ {
        TokenKind::FunKw
    } else if w == "if"@ {
        TokenKind::IfKw
    } else if w == "else"@ {
        TokenKind::ElseKw
    } else if w == "while"@ {
        TokenKind::WhileKw
    } else if w == "for"@ {
        TokenKind::ForKw
    } else if w == "return"@ {
        TokenKind::ReturnKw
    } else if w == "true"@ {
        TokenKind::TrueKw
    } else if w == "false"@ {
        TokenKind::FalseKw
    } else if w == "nil"@ {
        TokenKind::NilKw
    } else if w == "ns"@ {
        TokenKind::NsKw
    } else {
        TokenKind::Ident
    }
}

/// Whether a text spells a given word.
fn spells(w: &String, k: &str) -> (r: bool)
    ensures
        r == (w@ == k@),
{
    w.eq(&owned(k))
}

/// The kind of a word (see `spec_keyword`).
pub fn keyword(w: &String) -> (r: TokenKind)
    ensures
        r == spec_keyword(w@),
{
    if spells(w, "let") {
        TokenKind::LetKw
    } else if spells(w, "fun") {
        TokenKind::FunKw
    } else if spells(w, "if") {
        TokenKind::IfKw
    } else if spells(w, "else") {
        TokenKind::ElseKw
    } else if spells(w, "while") {
        TokenKind::WhileKw
    } else if spells(w, "for") {
        TokenKind::ForKw
    } else if spells(w, "return") {
        TokenKind::ReturnKw
    } else if spells(w, "true") {
        TokenKind::TrueKw
    } else if spells(w, "false") {
        TokenKind::FalseKw
    } else if spells(w, "nil") {
        TokenKind::NilKw
    } else if spells(w, "ns") {
        TokenKind::NsKw
    } else {
        TokenKind::Ident
    }
}

/// The number that a sequence of decimal digits denotes.
pub open spec fn spec_digits_value(s: Seq<char>) -> int
    decreases s.len(),
{
    if s.len() == 0 {
        0
    } else {
        spec_digits_value(s.drop_last()) * 10 + (s.last() as int - '0' as int)
    }
}

/// The operator that starts at `i`, as its kind and length: the longest
/// that matches; `None` when no operator starts there.
pub open spec fn spec_operator(s: Seq<char>, i: int) -> Option<(TokenKind, int)> {
    let c = s[i];
    let c1 = if i + 1 < s.len() { s[i + 1] } else { '\0' };
    let c2 = if i + 2 < s.len() { s[i + 2] } else { '\0' };
    if c == '(' {
        Some((TokenKind::LParen, 1))
    } else if c == ')' {
        Some((TokenKind::RParen, 1))
    } else if c == '{' {
        Some((TokenKind::LBrace, 1))
    } else if c == '}' {
        Some((TokenKind::RBrace, 1))
    } else if c == '[' {
        Some((TokenKind::LBracket, 1))
    } else if c == ']' {
        Some((TokenKind::RBracket, 1))
    } else if c == ';' {
        Some((TokenKind::Semicolon, 1))
    } else if c == ',' {
        Some((TokenKind::Comma, 1))
    } else if c == '.' {
        Some((TokenKind::Dot, 1))
    } else if c == ':' {
        Some((TokenKind::Colon, 1))
    } else if c == '?' {
        Some((TokenKind::Question, 1))
    } else if c == '~' {
        Some((TokenKind::Not, 1))
    } else if c == '+' {
        if c1 == '=' { Some((TokenKind::AddAssign, 2)) } else { Some((TokenKind::Add, 1)) }
    } else if c == '-' {
        if c1 == '=' { Some((TokenKind::SubtractAssign, 2)) } else { Some((TokenKind::Subtract, 1)) }
    } else if c == '*' {
        if c1 == '*' {
            if c2 == '=' { Some((TokenKind::PowerAssign, 3)) } else { Some((TokenKind::Power, 2)) }
        } else if c1 == '=' {
            Some((TokenKind::MultiplyAssign, 2))
        } else {
            Some((TokenKind::Multiply, 1))
        }
    } else if c == '/' {
        if c1 == '=' { Some((TokenKind::DivideAssign, 2)) } else { Some((TokenKind::Divide, 1)) }
    } else if c == '%' {
        if c1 == '=' { Some((TokenKind::ModuloAssign, 2)) } else { Some((TokenKind::Modulo, 1)) }
    } else if c == '&' {
        if c1 == '&' {
            Some((TokenKind::LAnd, 2))
        } else if c1 == '=' {
            Some((TokenKind::AndAssign, 2))
        } else {
            Some((TokenKind::And, 1))
        }
    } else if c == '|' {
        if c1 == '|' {
            Some((TokenKind::LOr, 2))
        } else if c1 == '=' {
            Some((TokenKind::OrAssign, 2))
        } else {
            Some((TokenKind::Or, 1))
        }
    } else if c == '^' {
        if c1 == '=' { Some((TokenKind::XOrAssign, 2)) } else { Some((TokenKind::XOr, 1)) }
    } else if c == '!' {
        if c1 == '=' { Some((TokenKind::NEqual, 2)) } else { Some((TokenKind::LNot, 1)) }
    } else if c == '=' {
        if c1 == '=' { Some((TokenKind::Equal, 2)) } else { Some((TokenKind::Assign, 1)) }
    } else if c == '<' {
        if c1 == '<' {
            if c2 == '=' { Some((TokenKind::LShiftAssign, 3)) } else { Some((TokenKind::LShift, 2)) }
        } else if c1 == '=' {
            Some((TokenKind::LessEqual, 2))
        } else {
            Some((TokenKind::Less, 1))
        }
    } else if c == '>' {
        if c1 == '>' {
            if c2 == '=' { Some((TokenKind::RShiftAssign, 3)) } else { Some((TokenKind::RShift, 2)) }
        } else if c1 == '=' {
            Some((TokenKind::GreaterEqual, 2))
        } else {
            Some((TokenKind::Greater, 1))
        }
    } else {
        None
    }
}

/// How an operator or punctuation token is written in source text; empty
/// for the other kinds.
pub open spec fn op_text(k: TokenKind) -> Seq<char> {
    match k {
        TokenKind::LParen => seq!['('],
        TokenKind::RParen => seq![')'],
        TokenKind::LBrace => seq!['{'],
        TokenKind::RBrace => seq!['}'],
        TokenKind::LBracket => seq!['['],
        TokenKind::RBracket => seq![']'],
        TokenKind::Semicolon => seq![';'],
        TokenKind::Comma => seq![','],
        TokenKind::Dot => seq!['.'],
        TokenKind::Colon => seq![':'],
        TokenKind::Question => seq!['?'],
        TokenKind::Not => seq!['~'],
        TokenKind::Add => seq!['+'],
        TokenKind::AddAssign => seq!['+', '='],
        TokenKind::Subtract => seq!['-'],
        TokenKind::SubtractAssign => seq!['-', '='],
        TokenKind::Multiply => seq!['*'],
        TokenKind::MultiplyAssign => seq!['*', '='],
        TokenKind::Power => seq!['*', '*'],
        TokenKind::PowerAssign => seq!['*', '*', '='],
        TokenKind::Divide => seq!['/'],
        TokenKind::DivideAssign => seq!['/', '='],
        TokenKind::Modulo => seq!['%'],
        TokenKind::ModuloAssign => seq!['%', '='],
        TokenKind::And => seq!['&'],
        TokenKind::LAnd => seq!['&', '&'],
        TokenKind::AndAssign => seq!['&', '='],
        TokenKind::Or => seq!['|'],
        TokenKind::LOr => seq!['|', '|'],
        TokenKind::OrAssign => seq!['|', '='],
        TokenKind::XOr => seq!['^'],
        TokenKind::XOrAssign => seq!['^', '='],
        TokenKind::LNot => seq!['!'],
        TokenKind::NEqual => seq!['!', '='],
        TokenKind::Assign => seq!['='],
        TokenKind::Equal => seq!['=', '='],
        TokenKind::Less => seq!['<'],
        TokenKind::LessEqual => seq!['<', '='],
        TokenKind::LShift => seq!['<', '<'],
        TokenKind::LShiftAssign => seq!['<', '<', '='],
        TokenKind::Greater => seq!['>'],
        TokenKind::GreaterEqual => seq!['>', '='],
        TokenKind::RShift => seq!['>', '>'],
        TokenKind::RShiftAssign => seq!['>', '>', '='],
        _ => Seq::empty(),
    }
}

/// An operator token spells its kind: the operator read at `i` is the
/// text of its kind (see `op_text`), found there in the source; and it is
/// the longest such text, so no operator whose text also starts at `i` is
/// longer.
pub proof fn lemma_operator_spells(s: Seq<char>, i: int, k2: TokenKind)
    requires
        0 <= i < s.len(),
    ensures
        spec_operator(s, i) matches Some((k, n)) ==> n == op_text(k).len() && i + n <= s.len()
            && s.subrange(i, i + n) == op_text(k),
        op_text(k2).len() > 0 && i + op_text(k2).len() <= s.len() && s.subrange(
            i,
            i + op_text(k2).len(),
        ) == op_text(k2) ==> (spec_operator(s, i) matches Some((k, n)) && n >= op_text(k2).len()),
{
    if let Some((k, n)) = spec_operator(s, i) {
        if n == 1 {
            assert(s.subrange(i, i + n) =~= seq![s[i]]);
        } else if n == 2 {
            assert(s.subrange(i, i + n) =~= seq![s[i], s[i + 1]]);
        } else {
            assert(s.subrange(i, i + n) =~= seq![s[i], s[i + 1], s[i + 2]]);
        }
    }
    let t = op_text(k2);
    if t.len() > 0 && i + t.len() <= s.len() && s.subrange(i, i + t.len()) == t {
        assert(s[i] == s.subrange(i, i + t.len())[0]);
        if t.len() >= 2 {
            assert(s[i + 1] == s.subrange(i, i + t.len())[1]);
        }
        if t.len() >= 3 {
            assert(s[i + 2] == s.subrange(i, i + t.len())[2]);
        }
    }
}

/// The operator that starts at `i` (see `spec_operator`).
fn operator(s: &Vec<char>, i: usize) -> (r: Option<(TokenKind, usize)>)
    requires
        i < s@.len(),
    ensures
        match spec_operator(s@, i as int) {
            Some((k, n)) => r == Some((k, n as usize)),
            None => r is None,
        },
{
    let c = s[i];
    let n = s.len();
    let c1 = if n - i > 1 { s[i + 1] } else { '\0' };
    let c2 = if n - i > 2 { s[i + 2] } else { '\0' };
    if c == '(' {
        Some((TokenKind::LParen, 1))
    } else if c == ')' {
        Some((TokenKind::RParen, 1))
    } else if c == '{' {
        Some((TokenKind::LBrace, 1))
    } else if c == '}' {
        Some((TokenKind::RBrace, 1))
    } else if c == '[' {
        Some((TokenKind::LBracket, 1))
    } else if c == ']' {
        Some((TokenKind::RBracket, 1))
    } else if c == ';' {
        Some((TokenKind::Semicolon, 1))
    } else if c == ',' {
        Some((TokenKind::Comma, 1))
    } else if c == '.' {
        Some((TokenKind::Dot, 1))
    } else if c == ':' {
        Some((TokenKind::Colon, 1))
    } else if c == '?' {
        Some((TokenKind::Question, 1))
    } else if c == '~' {
        Some((TokenKind::Not, 1))
    } else if c == '+' {
        if c1 == '=' { Some((TokenKind::AddAssign, 2)) } else { Some((TokenKind::Add, 1)) }
    } else if c == '-' {
        if c1 == '=' { Some((TokenKind::SubtractAssign, 2)) } else { Some((TokenKind::Subtract, 1)) }
    } else if c == '*' {
        if c1 == '*' {
            if c2 == '=' { Some((TokenKind::PowerAssign, 3)) } else { Some((TokenKind::Power, 2)) }
        } else if c1 == '=' {
            Some((TokenKind::MultiplyAssign, 2))
        } else {
            Some((TokenKind::Multiply, 1))
        }
    } else if c == '/' {
        if c1 == '=' { Some((TokenKind::DivideAssign, 2)) } else { Some((TokenKind::Divide, 1)) }
    } else if c == '%' {
        if c1 == '=' { Some((TokenKind::ModuloAssign, 2)) } else { Some((TokenKind::Modulo, 1)) }
    } else if c == '&' {
        if c1 == '&' {
            Some((TokenKind::LAnd, 2))
        } else if c1 == '=' {
            Some((TokenKind::AndAssign, 2))
        } else {
            Some((TokenKind::And, 1))
        }
    } else if c == '|' {
        if c1 == '|' {
            Some((TokenKind::LOr, 2))
        } else if c1 == '=' {
            Some((TokenKind::OrAssign, 2))
        } else {
            Some((TokenKind::Or, 1))
        }
    } else if c == '^' {
        if c1 == '=' { Some((TokenKind::XOrAssign, 2)) } else { Some((TokenKind::XOr, 1)) }
    } else if c == '!' {
        if c1 == '=' { Some((TokenKind::NEqual, 2)) } else { Some((TokenKind::LNot, 1)) }
    } else if c == '=' {
        if c1 == '=' { Some((TokenKind::Equal, 2)) } else { Some((TokenKind::Assign, 1)) }
    } else if c == '<' {
        if c1 == '<' {
            if c2 == '=' { Some((TokenKind::LShiftAssign, 3)) } else { Some((TokenKind::LShift, 2)) }
        } else if c1 == '=' {
            Some((TokenKind::LessEqual, 2))
        } else {
            Some((TokenKind::Less, 1))
        }
    } else if c == '>' {
        if c1 == '>' {
            if c2 == '=' { Some((TokenKind::RShiftAssign, 3)) } else { Some((TokenKind::RShift, 2)) }
        } else if c1 == '=' {
            Some((TokenKind::GreaterEqual, 2))
        } else {
            Some((TokenKind::Greater, 1))
        }
    } else {
        None
    }
}


/// A `//` comment starts at `i`.
pub open spec fn comment_start(s: Seq<char>, i: int) -> bool {
    0 <= i && i + 1 < s.len() && s[i] == '/' && s[i + 1] == '/'
}

/// The position of the first newline from `i` on, or the end of the text.
pub open spec fn line_end(s: Seq<char>, i: int) -> int
    decreases s.len() - i,
{
    if i >= s.len() {
        s.len() as int
    } else if s[i] == '\n' {
        i
    } else {
        line_end(s, i + 1)
    }
}

/// Blanks and comments (each up to its newline) lead from `a` exactly to
/// `b`.
pub open spec fn gap(s: Seq<char>, a: int, b: int) -> bool
    decreases b - a,
{
    if a >= b {
        a == b
    } else if spec_is_blank(s[a]) {
        gap(s, a + 1, b)
    } else if comment_start(s, a) && a < line_end(s, a) <= b {
        gap(s, line_end(s, a), b)
    } else {
        false
    }
}

/// A token starts at `i`: it is within the text and neither a blank nor
/// the start of a comment is there.
pub open spec fn token_start(s: Seq<char>, i: int) -> bool {
    0 <= i < s.len() && !spec_is_blank(s[i]) && !comment_start(s, i)
}

proof fn lemma_line_end(s: Seq<char>, i: int)
    requires
        0 <= i,
    ensures
        i <= line_end(s, i) <= s.len() || (i > s.len() && line_end(s, i) == s.len()),
        line_end(s, i) < s.len() ==> s[line_end(s, i)] == '\n',
        i < s.len() && s[i] != '\n' ==> line_end(s, i) == line_end(s, i + 1),
    decreases s.len() - i,
{
    if i < s.len() && s[i] != '\n' {
        lemma_line_end(s, i + 1);
    }
}

proof fn lemma_gap_blank(s: Seq<char>, a: int, p: int)
    requires
        0 <= a <= p < s.len(),
        gap(s, a, p),
        spec_is_blank(s[p]),
    ensures
        gap(s, a, p + 1),
    decreases p - a,
{
    if a < p {
        if spec_is_blank(s[a]) {
            lemma_gap_blank(s, a + 1, p);
        } else {
            lemma_gap_blank(s, line_end(s, a), p);
        }
    } else {
        assert(gap(s, p + 1, p + 1));
    }
}

proof fn lemma_gap_comment(s: Seq<char>, a: int, p: int)
    requires
        0 <= a <= p,
        gap(s, a, p),
        comment_start(s, p),
    ensures
        p < line_end(s, p),
        gap(s, a, line_end(s, p)),
    decreases p - a,
{
    lemma_line_end(s, p);
    lemma_line_end(s, p + 1);
    if a < p {
        if spec_is_blank(s[a]) {
            lemma_gap_comment(s, a + 1, p);
        } else {
            lemma_line_end(s, a);
            lemma_gap_comment(s, line_end(s, a), p);
        }
    } else {
        assert(gap(s, line_end(s, p), line_end(s, p)));
    }
}

pub open spec fn is_word_char(c: char) -> bool {
    spec_is_alpha(c) || spec_is_digit(c)
}

/// The word that starts at `a` ends at `b`: word characters up to `b` and
/// none at `b`.
pub open spec fn word_at(s: Seq<char>, a: int, b: int) -> bool {
    &&& 0 <= a < b <= s.len()
    &&& forall|i: int| a <= i < b ==> is_word_char(#[trigger] s[i])
    &&& (b == s.len() || !is_word_char(s[b]))
}

/// The digits that start at `a` end at `b`.
pub open spec fn digits_at(s: Seq<char>, a: int, b: int) -> bool {
    &&& 0 <= a < b <= s.len()
    &&& forall|i: int| a <= i < b ==> spec_is_digit(#[trigger] s[i])
    &&& (b == s.len() || !spec_is_digit(s[b]))
}

/// A fraction follows at `d`: a `.` and a digit.
pub open spec fn fraction_at(s: Seq<char>, d: int) -> bool {
    0 <= d && d + 1 < s.len() && s[d] == '.' && spec_is_digit(s[d + 1])
}

/// The number that starts at `a` ends at `b`: its digits, and for a float
/// a `.` and the digits of its fraction.
pub open spec fn number_at(s: Seq<char>, a: int, b: int, float: bool) -> bool {
    if float {
        exists|d: int| #[trigger] digits_at(s, a, d) && fraction_at(s, d) && digits_at(s, d + 1, b)
    } else {
        digits_at(s, a, b) && !fraction_at(s, b)
    }
}

/// The string literal that starts at `a` ends at `b`: the first `"` after
/// the opening one is at `b - 1`.
pub open spec fn string_at(s: Seq<char>, a: int, b: int) -> bool {
    &&& 0 <= a && a + 2 <= b <= s.len()
    &&& s[a] == '"'
    &&& s[b - 1] == '"'
    &&& forall|i: int| a < i < b - 1 ==> #[trigger] s[i] != '"'
}

/// No `"` closes the string literal that starts at `a`.
pub open spec fn unterminated_at(s: Seq<char>, a: int) -> bool {
    forall|i: int| a < i < s.len() ==> #[trigger] s[i] != '"'
}

/// `fn` right before `(` starts an anonymous function at `a`.
pub open spec fn anon_at(s: Seq<char>, a: int) -> bool {
    0 <= a && a + 2 < s.len() && s[a] == 'f' && s[a + 1] == 'n' && s[a + 2] == '('
}

/// What a token read from `s[start..end]` is, by its first character: a
/// word is an anonymous-function start or its keyword (else an
/// identifier); a digit starts a number, an integer too large for 64 bits
/// being an error, and a float an error where the embedding program cannot
/// read it; `"` a string, whose value is the text between the quotes;
/// anything else the longest operator there, or an error when there is
/// none.
pub open spec fn token_read(t: Token, s: Seq<char>, start: int, end: int) -> bool {
    let c = s[start];
    if spec_is_alpha(c) {
        if anon_at(s, start) {
            t.kind == TokenKind::AnonClosure && t.lexeme@ == "fn("@ && end == start + 3
        } else {
            t.kind == spec_keyword(t.lexeme@) && word_at(s, start, end)
        }
    } else if spec_is_digit(c) {
        ||| (t.kind == TokenKind::Int && number_at(s, start, end, false) && spec_digits_value(
            s.subrange(start, end),
        ) <= i64::MAX)
        ||| (t.kind == TokenKind::Error && number_at(s, start, end, false) && spec_digits_value(
            s.subrange(start, end),
        ) > i64::MAX)
        ||| (t.kind == TokenKind::Float && number_at(s, start, end, true))
        ||| (t.kind == TokenKind::Error && number_at(s, start, end, true))
    } else if c == '"' {
        ||| (t.kind == TokenKind::String && string_at(s, start, end) && t.value@ == ValueV::Str(
            s.subrange(start + 1, end - 1),
        ))
        ||| (t.kind == TokenKind::Error && unterminated_at(s, start) && end == s.len())
    } else {
        match spec_operator(s, start) {
            Some((k, n)) => t.kind == k && end == start + n,
            None => t.kind == TokenKind::Error && end == start + 1,
        }
    }
}

/// A token `t` other than `Done` is read from `s` after position `a`, ending
/// at `b`: blanks and comments lead from `a` to where it starts, and it is
/// read there (see `token_read`); but for an error token its text is what
/// it covers, and an integer carries the value of its digits.
pub open spec fn token_between(t: Token, s: Seq<char>, a: int, b: int) -> bool {
    &&& t.kind != TokenKind::Done
    &&& exists|start: int|
        #[trigger] gap(s, a, start) && token_start(s, start) && start < b && token_read(
            t,
            s,
            start,
            b,
        ) && (t.kind != TokenKind::Error ==> t.lexeme@ == s.subrange(start, b))
    &&& t.kind == TokenKind::Int ==> t.value == Value::Int(spec_digits_value(t.lexeme@) as i64)
        && spec_digits_value(t.lexeme@) <= i64::MAX
}

/// `toks` are the tokens of `s`, token `i` read after position `ends[i]`
/// and the next one after the position where it ended; `Done` comes last,
/// where only blanks and comments are left.
pub open spec fn tokens_of(s: Seq<char>, toks: Seq<Token>, ends: Seq<int>) -> bool {
    &&& toks.len() > 0
    &&& ends.len() == toks.len()
    &&& ends[0] == 0
    &&& forall|i: int|
        0 <= i < toks.len() - 1 ==> token_between(#[trigger] toks[i], s, ends[i], ends[i + 1])
    &&& toks.last().kind == TokenKind::Done
    &&& gap(s, ends.last(), s.len() as int)
}

/// The state of the lexer over a source text: the characters, the position
/// of the next one, its line and column, and the name of the file.
pub struct Lexer {
    pub chars: Vec<char>,
    pub pos: usize,
    pub line: usize,
    pub col: usize,
    pub file_name: String,
}

/// A token of a kind, with its text and place.
fn token(kind: TokenKind, lexeme: String, line: usize, col: usize, value: Value) -> (r: Token)
    ensures
        r == (Token { kind, lexeme, line, col, value }),
{
    Token { kind, lexeme, line, col, value }
}

impl Lexer {
    /// The position lies within the text, and line and column within what
    /// was read.
    pub open spec fn wf(&self) -> bool {
        &&& self.pos <= self.chars@.len()
        &&& 1 <= self.line <= self.pos + 1
        &&& 1 <= self.col <= self.pos + 1
    }

    /// What a step of the lexer keeps: the text, the file name, and a
    /// position that only moves on.
    pub open spec fn moves_on(&self, old: Lexer) -> bool {
        &&& self.wf()
        &&& self.chars == old.chars
        &&& self.file_name == old.file_name
        &&& self.pos >= old.pos
    }

    /// A lexer at the start of `text`.
    pub fn new_from_text(text: &str, file_name: &str) -> (r: Lexer)
        ensures
            r.chars@ == text@,
            r.pos == 0,
            r.line == 1,
            r.col == 1,
            r.file_name@ == file_name@,
            r.wf(),
    {
        Lexer { chars: text_chars(text), pos: 0, line: 1, col: 1, file_name: owned(file_name) }
    }

    /// The name of the file the text comes from.
    pub fn file_name(&self) -> (r: String)
        ensures
            r == self.file_name,
    {
        self.file_name.clone()
    }

    /// Moves past one character; a newline starts the next line.
    fn bump(&mut self)
        requires
            old(self).wf(),
            old(self).pos < old(self).chars@.len(),
        ensures
            final(self).moves_on(*old(self)),
            final(self).pos == old(self).pos + 1,
    {
        let n = self.chars.len();
        if self.chars[self.pos] == '\n' {
            if self.line < usize::MAX {
                self.line = self.line + 1;
            }
            self.col = 1;
        } else if self.col < usize::MAX {
            self.col = self.col + 1;
        }
        self.pos = self.pos + 1;
    }

    /// Skips blanks and `//` comments.
    fn skip_blanks(&mut self)
        requires
            old(self).wf(),
        ensures
            final(self).moves_on(*old(self)),
            gap(final(self).chars@, old(self).pos as int, final(self).pos as int),
            final(self).pos < final(self).chars@.len() ==> token_start(
                final(self).chars@,
                final(self).pos as int,
            ),
    {
        while self.pos < self.chars.len()
            invariant
                self.moves_on(*old(self)),
                gap(self.chars@, old(self).pos as int, self.pos as int),
            decreases self.chars@.len() - self.pos,
        {
            let c = self.chars[self.pos];
            if c == ' ' || c == '\t' || c == '\r' || c == '\n' {
                proof {
                    lemma_gap_blank(self.chars@, old(self).pos as int, self.pos as int);
                }
                self.bump();
            } else if c == '/' && self.chars.len() - self.pos > 1 && self.chars[self.pos + 1] == '/' {
                let ghost k = self.pos as int;
                proof {
                    lemma_gap_comment(self.chars@, old(self).pos as int, k);
                    lemma_line_end(self.chars@, k);
                    lemma_line_end(self.chars@, k + 1);
                }
                self.bump();
                self.bump();
                let ghost p0 = self.pos;
                while self.pos < self.chars.len() && self.chars[self.pos] != '\n'
                    invariant
                        self.moves_on(*old(self)),
                        self.pos >= p0,
                        k + 2 <= self.pos <= self.chars@.len(),
                        line_end(self.chars@, k) == line_end(self.chars@, self.pos as int),
                        gap(self.chars@, old(self).pos as int, line_end(self.chars@, k)),
                    decreases self.chars@.len() - self.pos,
                {
                    proof {
                        lemma_line_end(self.chars@, self.pos as int);
                    }
                    self.bump();
                }
                proof {
                    lemma_line_end(self.chars@, self.pos as int);
                }
            } else {
                return;
            }
        }
    }

    /// A word: an identifier or a keyword; `fn` right before `(` starts an
    /// anonymous function.
    fn scan_word(&mut self) -> (t: Token)
        requires
            old(self).wf(),
            old(self).pos < old(self).chars@.len(),
            spec_is_alpha(old(self).chars@[old(self).pos as int]),
        ensures
            final(self).moves_on(*old(self)),
            final(self).pos > old(self).pos,
            t.lexeme@ == old(self).chars@.subrange(old(self).pos as int, final(self).pos as int),
            token_read(t, old(self).chars@, old(self).pos as int, final(self).pos as int),
            t.value == Value::Nil,
    {
        let start = self.pos;
        let line = self.line;
        let col = self.col;
        self.bump();
        while self.pos < self.chars.len() && (is_alpha(self.chars[self.pos]) || is_digit(
            self.chars[self.pos],
        ))
            invariant
                self.moves_on(*old(self)),
                self.pos > start,
                start == old(self).pos,
                forall|i: int| start <= i < self.pos ==> is_word_char(#[trigger] self.chars@[i]),
            decreases self.chars@.len() - self.pos,
        {
            self.bump();
        }
        assert(word_at(self.chars@, start as int, self.pos as int));
        let word = text_of(&self.chars, start, self.pos);
        if self.pos - start == 2 && self.chars[start] == 'f' && self.chars[start + 1] == 'n'
            && self.pos < self.chars.len() && self.chars[self.pos] == '(' {
            self.bump();
            let w = text_of(&self.chars, start, self.pos);
            proof {
                reveal_strlit("fn(");
                assert(w@ =~= "fn("@);
            }
            return token(TokenKind::AnonClosure, w, line, col, Value::Nil);
        }
        let k = keyword(&word);
        token(k, word, line, col, Value::Nil)
    }

    /// A number: decimal digits, with a fraction after a `.` for a float.
    /// An integer too large for 64 bits, or a float the program cannot
    /// read, gives an error token.
    #[verifier::rlimit(30)]
    fn scan_number<F: FloatOps>(&mut self, fl: &F) -> (t: Token)
        requires
            old(self).wf(),
            old(self).pos < old(self).chars@.len(),
            spec_is_digit(old(self).chars@[old(self).pos as int]),
        ensures
            final(self).moves_on(*old(self)),
            final(self).pos > old(self).pos,
            t.kind == TokenKind::Int || t.kind == TokenKind::Float || t.kind == TokenKind::Error,
            t.kind != TokenKind::Error ==> t.lexeme@ == old(self).chars@.subrange(
                old(self).pos as int,
                final(self).pos as int,
            ),
            t.kind == TokenKind::Int ==> t.value == Value::Int(spec_digits_value(t.lexeme@) as i64)
                && spec_digits_value(t.lexeme@) <= i64::MAX,
            t.kind == TokenKind::Float ==> t.value is Float,
            token_read(t, old(self).chars@, old(self).pos as int, final(self).pos as int),
    {
        let start = self.pos;
        let line = self.line;
        let col = self.col;
        let mut v: i64 = 0;
        let mut too_big = false;
        while self.pos < self.chars.len() && is_digit(self.chars[self.pos])
            invariant
                self.moves_on(*old(self)),
                start == old(self).pos,
                forall|j: int| start <= j < self.pos ==> spec_is_digit(#[trigger] self.chars@[j]),
                !too_big ==> v == spec_digits_value(self.chars@.subrange(start as int, self.pos as int)),
                too_big ==> spec_digits_value(self.chars@.subrange(start as int, self.pos as int))
                    > i64::MAX,
                v >= 0,
            decreases self.chars@.len() - self.pos,
        {
            let c = self.chars[self.pos];
            let d = (c as u32 - '0' as u32) as i64;
            let ghost before = self.chars@.subrange(start as int, self.pos as int);
            if !too_big {
                match v.checked_mul(10) {
                    Some(m) => match m.checked_add(d) {
                        Some(a) => {
                            v = a;
                        },
                        None => {
                            too_big = true;
                        },
                    },
                    None => {
                        too_big = true;
                    },
                }
            }
            self.bump();
            assert(self.chars@.subrange(start as int, self.pos as int).drop_last() =~= before);
        }
        assert(digits_at(self.chars@, start as int, self.pos as int));
        if self.chars.len() - self.pos > 1 && self.chars[self.pos] == '.' && is_digit(
            self.chars[self.pos + 1],
        ) {
            let ghost d = self.pos as int;
            assert(fraction_at(self.chars@, d));
            self.bump();
            while self.pos < self.chars.len() && is_digit(self.chars[self.pos])
                invariant
                    self.moves_on(*old(self)),
                    self.pos > start,
                    start == old(self).pos,
                    d + 1 <= self.pos,
                    forall|j: int| d + 1 <= j < self.pos ==> spec_is_digit(#[trigger] self.chars@[j]),
                decreases self.chars@.len() - self.pos,
            {
                self.bump();
            }
            assert(digits_at(self.chars@, d + 1, self.pos as int));
            assert(number_at(self.chars@, start as int, self.pos as int, true));
            let text = text_of(&self.chars, start, self.pos);
            return match fl.parse_literal(text.as_str()) {
                Some(bits) => token(TokenKind::Float, text, line, col, Value::Float(bits)),
                None => token(TokenKind::Error, owned("invalid number literal"), line, col, Value::Nil),
            };
        }
        assert(number_at(self.chars@, start as int, self.pos as int, false));
        let text = text_of(&self.chars, start, self.pos);
        if too_big {
            token(TokenKind::Error, owned("integer literal is too large"), line, col, Value::Nil)
        } else {
            token(TokenKind::Int, text, line, col, Value::Int(v))
        }
    }

    /// A string literal: the characters up to the next `"`; an error token
    /// when the text ends first.
    fn scan_string(&mut self) -> (t: Token)
        requires
            old(self).wf(),
            old(self).pos < old(self).chars@.len(),
            old(self).chars@[old(self).pos as int] == '"',
        ensures
            final(self).moves_on(*old(self)),
            final(self).pos > old(self).pos,
            t.kind == TokenKind::String || t.kind == TokenKind::Error,
            t.kind == TokenKind::String ==> t.lexeme@ == old(self).chars@.subrange(
                old(self).pos as int,
                final(self).pos as int,
            ) && t.value@ == ValueV::Str(
                old(self).chars@.subrange(old(self).pos + 1, final(self).pos - 1),
            ),
            token_read(t, old(self).chars@, old(self).pos as int, final(self).pos as int),
    {
        let start = self.pos;
        let line = self.line;
        let col = self.col;
        self.bump();
        while self.pos < self.chars.len() && self.chars[self.pos] != '"'
            invariant
                self.moves_on(*old(self)),
                self.pos > start,
                start == old(self).pos,
                forall|i: int| start < i < self.pos ==> #[trigger] self.chars@[i] != '"',
            decreases self.chars@.len() - self.pos,
        {
            self.bump();
        }
        if self.pos >= self.chars.len() {
            assert(unterminated_at(self.chars@, start as int));
            return token(TokenKind::Error, owned("unterminated string"), line, col, Value::Nil);
        }
        let content = text_of(&self.chars, start + 1, self.pos);
        self.bump();
        assert(string_at(self.chars@, start as int, self.pos as int));
        let text = text_of(&self.chars, start, self.pos);
        token(TokenKind::String, text, line, col, Value::String(content))
    }

    /// The next token: a word, a number, a string or an operator after the
    /// blanks; `Done` at the end of the text; an error token for a
    /// character that starts none of them.
    #[verifier::rlimit(30)]
    pub fn scan<F: FloatOps>(&mut self, fl: &F) -> (t: Token)
        requires
            old(self).wf(),
        ensures
            final(self).moves_on(*old(self)),
            t.kind != TokenKind::NoToken,
            t.kind == TokenKind::Done ==> final(self).pos == final(self).chars@.len(),
            t.kind != TokenKind::Done ==> final(self).pos > old(self).pos,
            t.kind == TokenKind::Done ==> gap(
                old(self).chars@,
                old(self).pos as int,
                old(self).chars@.len() as int,
            ),
            t.kind != TokenKind::Done ==> exists|start: int|
                #[trigger] gap(old(self).chars@, old(self).pos as int, start) && token_start(
                    old(self).chars@,
                    start,
                ) && start < final(self).pos && token_read(
                    t,
                    old(self).chars@,
                    start,
                    final(self).pos as int,
                ) && (t.kind != TokenKind::Error ==> t.lexeme@ == old(self).chars@.subrange(
                    start,
                    final(self).pos as int,
                )),
            t.kind == TokenKind::Int ==> t.value == Value::Int(spec_digits_value(t.lexeme@) as i64)
                && spec_digits_value(t.lexeme@) <= i64::MAX,
    {
        self.skip_blanks();
        let ghost after_blanks = self.pos as int;
        if self.pos >= self.chars.len() {
            return token(TokenKind::Done, String::new(), self.line, self.col, Value::Nil);
        }
        let c = self.chars[self.pos];
        assert(!spec_is_blank(self.chars@[after_blanks]));
        if is_alpha(c) {
            let t = self.scan_word();
            assert(token_read(t, old(self).chars@, after_blanks, self.pos as int));
            return t;
        }
        if is_digit(c) {
            let t = self.scan_number(fl);
            assert(token_read(t, old(self).chars@, after_blanks, self.pos as int));
            return t;
        }
        if c == '"' {
            let t = self.scan_string();
            assert(token_read(t, old(self).chars@, after_blanks, self.pos as int));
            return t;
        }
        let line = self.line;
        let col = self.col;
        let start = self.pos;
        match operator(&self.chars, self.pos) {
            Some((kind, n)) => {
                let mut k: usize = 0;
                while k < n
                    invariant
                        self.moves_on(*old(self)),
                        start == after_blanks,
                        self.pos == start + k,
                        k <= n,
                        spec_operator(self.chars@, start as int) == Some((kind, n as int)),
                        start + n <= self.chars@.len(),
                    decreases n - k,
                {
                    self.bump();
                    k = k + 1;
                }
                let text = text_of(&self.chars, start, self.pos);
                let t = token(kind, text, line, col, Value::Nil);
                assert(token_read(t, old(self).chars@, after_blanks, self.pos as int));
                t
            },
            None => {
                self.bump();
                let mut msg = owned("unexpected character '");
                crate::text::push_char(&mut msg, c);
                msg.append("'");
                let t = token(TokenKind::Error, msg, line, col, Value::Nil);
                assert(token_read(t, old(self).chars@, after_blanks, self.pos as int));
                t
            },
        }
    }
}

/// The tokens of a text, `Done` last (see `tokens_of`).
pub fn tokenize<F: FloatOps>(text: &str, file_name: &str, fl: &F) -> (r: Vec<Token>)
    ensures
        exists|ends: Seq<int>| #[trigger] tokens_of(text@, r@, ends),
        r@.len() > 0,
        r@.last().kind == TokenKind::Done,
        forall|i: int| 0 <= i < r@.len() - 1 ==> (#[trigger] r@[i]).kind != TokenKind::Done,
        forall|i: int| 0 <= i < r@.len() ==> (#[trigger] r@[i]).kind != TokenKind::NoToken,
{
    let mut lx = Lexer::new_from_text(text, file_name);
    let mut out: Vec<Token> = Vec::new();
    let ghost mut ends: Seq<int> = seq![0int];
    loop
        invariant
            lx.wf(),
            lx.chars@ == text@,
            ends.len() == out@.len() + 1,
            ends[0] == 0,
            ends.last() == lx.pos,
            forall|i: int|
                0 <= i < out@.len() ==> token_between(#[trigger] out@[i], text@, ends[i], ends[i + 1]),
            forall|i: int| 0 <= i < out@.len() ==> (#[trigger] out@[i]).kind != TokenKind::Done,
            forall|i: int| 0 <= i < out@.len() ==> (#[trigger] out@[i]).kind != TokenKind::NoToken,
        decreases lx.chars@.len() - lx.pos,
    {
        let ghost p0 = lx.pos as int;
        let t = lx.scan(fl);
        if t.kind == TokenKind::Done {
            out.push(t);
            proof {
                assert forall|i: int| 0 <= i < out@.len() - 1 implies token_between(
                    #[trigger] out@[i],
                    text@,
                    ends[i],
                    ends[i + 1],
                ) by {
                    assert(out@[i] == out@.drop_last()[i]);
                }
                assert(tokens_of(text@, out@, ends));
            }
            return out;
        }
        out.push(t);
        proof {
            let e2 = ends.push(lx.pos as int);
            assert(token_between(t, text@, p0, lx.pos as int));
            assert forall|i: int| 0 <= i < out@.len() implies token_between(
                #[trigger] out@[i],
                text@,
                e2[i],
                e2[i + 1],
            ) by {
                if i < out@.len() - 1 {
                    assert(out@[i] == out@.drop_last()[i]);
                }
            }
            ends = e2;
        }
    }
}

} // verus!
