//! The scanner of the grammar checker: source text to a token stream that
//! records the line and column of each token and ends in an `Eof` token.
//!
//! Blanks and comments separate tokens: `// ...` runs to the end of the
//! line, `/* ... */` to the first `*/` or the end of the text.  Text where
//! no token starts (a lone `&` or `|`, a string without its closing quote,
//! any character outside the token language) stops the scanner; `scans`
//! says that a text has no such place, and the scanner is for those texts.

use vstd::prelude::*;
use vstd::string::StringSliceAdditionalSpecFns;
use crate::lexer::{
    col_of, digits_end, escape_of, ident_end, is_digit, is_ident_char, is_ident_start, is_space, lemma_boff_mono,
    lemma_boff_total, lemma_line_col_bound, lemma_runs_advance, line_end, line_of,
};
use crate::text::{
    chars_of, debug_quoted, debug_str, decimal, push_char, push_decimal, push_str, same_text, string_of, text_eq,
};

verus! {

/// The kinds of tokens.  Literal and identifier tokens carry their text (a
/// string literal with its escapes resolved).
#[derive(Debug, Clone)]
pub enum TokenKind {
    Def, Var, Return, If, Else, Then, For, In, Struct,
    TI32, TF64, TStr, TBool, TVoid,
    IntLit(String), FloatLit(String), StrLit(String),
    True, False, Ident(String),
    Plus, Minus, Star, Slash, Lt, Le, Gt, Ge, EqEq, Neq,
    AndAnd, OrOr, Bang, Assign,
    LParen, RParen, LBracket, RBracket, LBrace, RBrace,
    Colon, Semi, Comma, Arrow, Dot,
    Eof,
}

/// A kind is seen as its variant's position in the declaration and the
/// characters it carries (none for the kinds without text).
impl View for TokenKind {
    type V = (nat, Seq<char>);

    open spec fn view(&self) -> (nat, Seq<char>) {
        match self {
            TokenKind::Def => (0nat, Seq::<char>::empty()),
            TokenKind::Var => (1nat, Seq::<char>::empty()),
            TokenKind::Return => (2nat, Seq::<char>::empty()),
            TokenKind::If => (3nat, Seq::<char>::empty()),
            TokenKind::Else => (4nat, Seq::<char>::empty()),
            TokenKind::Then => (5nat, Seq::<char>::empty()),
            TokenKind::For => (6nat, Seq::<char>::empty()),
            TokenKind::In => (7nat, Seq::<char>::empty()),
            TokenKind::Struct => (8nat, Seq::<char>::empty()),
            TokenKind::TI32 => (9nat, Seq::<char>::empty()),
            TokenKind::TF64 => (10nat, Seq::<char>::empty()),
            TokenKind::TStr => (11nat, Seq::<char>::empty()),
            TokenKind::TBool => (12nat, Seq::<char>::empty()),
            TokenKind::TVoid => (13nat, Seq::<char>::empty()),
            TokenKind::IntLit(s) => (14nat, s@),
            TokenKind::FloatLit(s) => (15nat, s@),
            TokenKind::StrLit(s) => (16nat, s@),
            TokenKind::True => (17nat, Seq::<char>::empty()),
            TokenKind::False => (18nat, Seq::<char>::empty()),
            TokenKind::Ident(s) => (19nat, s@),
            TokenKind::Plus => (20nat, Seq::<char>::empty()),
            TokenKind::Minus => (21nat, Seq::<char>::empty()),
            TokenKind::Star => (22nat, Seq::<char>::empty()),
            TokenKind::Slash => (23nat, Seq::<char>::empty()),
            TokenKind::Lt => (24nat, Seq::<char>::empty()),
            TokenKind::Le => (25nat, Seq::<char>::empty()),
            TokenKind::Gt => (26nat, Seq::<char>::empty()),
            TokenKind::Ge => (27nat, Seq::<char>::empty()),
            TokenKind::EqEq => (28nat, Seq::<char>::empty()),
            TokenKind::Neq => (29nat, Seq::<char>::empty()),
            TokenKind::AndAnd => (30nat, Seq::<char>::empty()),
            TokenKind::OrOr => (31nat, Seq::<char>::empty()),
            TokenKind::Bang => (32nat, Seq::<char>::empty()),
            TokenKind::Assign => (33nat, Seq::<char>::empty()),
            TokenKind::LParen => (34nat, Seq::<char>::empty()),
            TokenKind::RParen => (35nat, Seq::<char>::empty()),
            TokenKind::LBracket => (36nat, Seq::<char>::empty()),
            TokenKind::RBracket => (37nat, Seq::<char>::empty()),
            TokenKind::LBrace => (38nat, Seq::<char>::empty()),
            TokenKind::RBrace => (39nat, Seq::<char>::empty()),
            TokenKind::Colon => (40nat, Seq::<char>::empty()),
            TokenKind::Semi => (41nat, Seq::<char>::empty()),
            TokenKind::Comma => (42nat, Seq::<char>::empty()),
            TokenKind::Arrow => (43nat, Seq::<char>::empty()),
            TokenKind::Dot => (44nat, Seq::<char>::empty()),
            TokenKind::Eof => (45nat, Seq::<char>::empty()),
        }
    }
}

/// The name `{:?}` prints for the kind with the given position.
pub open spec fn kind_name(t: nat) -> Seq<char> {
    if t == 0 { "Def"@ }
    else if t == 1 { "Var"@ }
    else if t == 2 { "Return"@ }
    else if t == 3 { "If"@ }
    else if t == 4 { "Else"@ }
    else if t == 5 { "Then"@ }
    else if t == 6 { "For"@ }
    else if t == 7 { "In"@ }
    else if t == 8 { "Struct"@ }
    else if t == 9 { "TI32"@ }
    else if t == 10 { "TF64"@ }
    else if t == 11 { "TStr"@ }
    else if t == 12 { "TBool"@ }
    else if t == 13 { "TVoid"@ }
    else if t == 17 { "True"@ }
    else if t == 18 { "False"@ }
    else if t == 20 { "Plus"@ }
    else if t == 21 { "Minus"@ }
    else if t == 22 { "Star"@ }
    else if t == 23 { "Slash"@ }
    else if t == 24 { "Lt"@ }
    else if t == 25 { "Le"@ }
    else if t == 26 { "Gt"@ }
    else if t == 27 { "Ge"@ }
    else if t == 28 { "EqEq"@ }
    else if t == 29 { "Neq"@ }
    else if t == 30 { "AndAnd"@ }
    else if t == 31 { "OrOr"@ }
    else if t == 32 { "Bang"@ }
    else if t == 33 { "Assign"@ }
    else if t == 34 { "LParen"@ }
    else if t == 35 { "RParen"@ }
    else if t == 36 { "LBracket"@ }
    else if t == 37 { "RBracket"@ }
    else if t == 38 { "LBrace"@ }
    else if t == 39 { "RBrace"@ }
    else if t == 40 { "Colon"@ }
    else if t == 41 { "Semi"@ }
    else if t == 42 { "Comma"@ }
    else if t == 43 { "Arrow"@ }
    else if t == 44 { "Dot"@ }
    else { "Eof"@ }
}

/// What `{:?}` prints for a kind: its name, and for the kinds with text the
/// quoted text in brackets.
pub open spec fn debug_of(k: (nat, Seq<char>)) -> Seq<char> {
    if k.0 == 14 {
        "IntLit("@ + debug_str(k.1) + ")"@
    } else if k.0 == 15 {
        "FloatLit("@ + debug_str(k.1) + ")"@
    } else if k.0 == 16 {
        "StrLit("@ + debug_str(k.1) + ")"@
    } else if k.0 == 19 {
        "Ident("@ + debug_str(k.1) + ")"@
    } else {
        kind_name(k.0)
    }
}

impl TokenKind {
    /// The position of the kind's variant in the declaration.
    pub fn tag(&self) -> (t: u8)
        ensures
            t as nat == self@.0,
    {
        match self {
            TokenKind::Def => 0,
            TokenKind::Var => 1,
            TokenKind::Return => 2,
            TokenKind::If => 3,
            TokenKind::Else => 4,
            TokenKind::Then => 5,
            TokenKind::For => 6,
            TokenKind::In => 7,
            TokenKind::Struct => 8,
            TokenKind::TI32 => 9,
            TokenKind::TF64 => 10,
            TokenKind::TStr => 11,
            TokenKind::TBool => 12,
            TokenKind::TVoid => 13,
            TokenKind::IntLit(_) => 14,
            TokenKind::FloatLit(_) => 15,
            TokenKind::StrLit(_) => 16,
            TokenKind::True => 17,
            TokenKind::False => 18,
            TokenKind::Ident(_) => 19,
            TokenKind::Plus => 20,
            TokenKind::Minus => 21,
            TokenKind::Star => 22,
            TokenKind::Slash => 23,
            TokenKind::Lt => 24,
            TokenKind::Le => 25,
            TokenKind::Gt => 26,
            TokenKind::Ge => 27,
            TokenKind::EqEq => 28,
            TokenKind::Neq => 29,
            TokenKind::AndAnd => 30,
            TokenKind::OrOr => 31,
            TokenKind::Bang => 32,
            TokenKind::Assign => 33,
            TokenKind::LParen => 34,
            TokenKind::RParen => 35,
            TokenKind::LBracket => 36,
            TokenKind::RBracket => 37,
            TokenKind::LBrace => 38,
            TokenKind::RBrace => 39,
            TokenKind::Colon => 40,
            TokenKind::Semi => 41,
            TokenKind::Comma => 42,
            TokenKind::Arrow => 43,
            TokenKind::Dot => 44,
            TokenKind::Eof => 45,
        }
    }

    /// What `{:?}` prints for the kind.
    pub fn debug_name(&self) -> (r: String)
        ensures
            r@ == debug_of(self@),
    {
        match self {
            TokenKind::Def => string_of("Def"),
            TokenKind::Var => string_of("Var"),
            TokenKind::Return => string_of("Return"),
            TokenKind::If => string_of("If"),
            TokenKind::Else => string_of("Else"),
            TokenKind::Then => string_of("Then"),
            TokenKind::For => string_of("For"),
            TokenKind::In => string_of("In"),
            TokenKind::Struct => string_of("Struct"),
            TokenKind::TI32 => string_of("TI32"),
            TokenKind::TF64 => string_of("TF64"),
            TokenKind::TStr => string_of("TStr"),
            TokenKind::TBool => string_of("TBool"),
            TokenKind::TVoid => string_of("TVoid"),
            TokenKind::IntLit(s) => {
                let mut r = string_of("IntLit(");
                let q = debug_quoted(s.as_str());
                push_str(&mut r, q.as_str());
                push_str(&mut r, ")");
                r
            },
            TokenKind::FloatLit(s) => {
                let mut r = string_of("FloatLit(");
                let q = debug_quoted(s.as_str());
                push_str(&mut r, q.as_str());
                push_str(&mut r, ")");
                r
            },
            TokenKind::StrLit(s) => {
                let mut r = string_of("StrLit(");
                let q = debug_quoted(s.as_str());
                push_str(&mut r, q.as_str());
                push_str(&mut r, ")");
                r
            },
            TokenKind::True => string_of("True"),
            TokenKind::False => string_of("False"),
            TokenKind::Ident(s) => {
                let mut r = string_of("Ident(");
                let q = debug_quoted(s.as_str());
                push_str(&mut r, q.as_str());
                push_str(&mut r, ")");
                r
            },
            TokenKind::Plus => string_of("Plus"),
            TokenKind::Minus => string_of("Minus"),
            TokenKind::Star => string_of("Star"),
            TokenKind::Slash => string_of("Slash"),
            TokenKind::Lt => string_of("Lt"),
            TokenKind::Le => string_of("Le"),
            TokenKind::Gt => string_of("Gt"),
            TokenKind::Ge => string_of("Ge"),
            TokenKind::EqEq => string_of("EqEq"),
            TokenKind::Neq => string_of("Neq"),
            TokenKind::AndAnd => string_of("AndAnd"),
            TokenKind::OrOr => string_of("OrOr"),
            TokenKind::Bang => string_of("Bang"),
            TokenKind::Assign => string_of("Assign"),
            TokenKind::LParen => string_of("LParen"),
            TokenKind::RParen => string_of("RParen"),
            TokenKind::LBracket => string_of("LBracket"),
            TokenKind::RBracket => string_of("RBracket"),
            TokenKind::LBrace => string_of("LBrace"),
            TokenKind::RBrace => string_of("RBrace"),
            TokenKind::Colon => string_of("Colon"),
            TokenKind::Semi => string_of("Semi"),
            TokenKind::Comma => string_of("Comma"),
            TokenKind::Arrow => string_of("Arrow"),
            TokenKind::Dot => string_of("Dot"),
            TokenKind::Eof => string_of("Eof"),
        }
    }
}

/// Two kinds are equal when they are the same variant carrying the same text.
impl PartialEq for TokenKind {
    fn eq(&self, other: &Self) -> (r: bool) {
        if self.tag() != other.tag() {
            return false;
        }
        match (self, other) {
            (TokenKind::IntLit(a), TokenKind::IntLit(b)) => same_text(a, b),
            (TokenKind::FloatLit(a), TokenKind::FloatLit(b)) => same_text(a, b),
            (TokenKind::StrLit(a), TokenKind::StrLit(b)) => same_text(a, b),
            (TokenKind::Ident(a), TokenKind::Ident(b)) => same_text(a, b),
            _ => true,
        }
    }
}

impl vstd::std_specs::cmp::PartialEqSpecImpl for TokenKind {
    open spec fn obeys_eq_spec() -> bool {
        true
    }

    open spec fn eq_spec(&self, other: &TokenKind) -> bool {
        self@ == other@
    }
}

/// One token: its kind and the 1-based line and column (in characters)
/// where it starts.
#[derive(Debug, Clone)]
pub struct Token {
    pub kind: TokenKind,
    pub line: usize,
    pub col: usize,
}

/// A token as the specifications see it.
pub struct TokV {
    pub kind: (nat, Seq<char>),
    pub line: nat,
    pub col: nat,
}

impl View for Token {
    type V = TokV;

    open spec fn view(&self) -> TokV {
        TokV { kind: self.kind@, line: self.line as nat, col: self.col as nat }
    }
}

/// The tokens of a stream as the specifications see them.
pub open spec fn toks_v(ts: Seq<Token>) -> Seq<TokV> {
    Seq::new(ts.len(), |k: int| ts[k]@)
}

// ── The token language ──────────────────────────────────────────────────

/// The end of a block comment whose body starts at `i`: just after the
/// first `*/`, or the end of the text when there is none.
pub open spec fn comment_close(cs: Seq<char>, i: nat) -> nat
    decreases cs.len() - i,
{
    if i >= cs.len() {
        i
    } else if cs[i as int] == '*' && i + 1 < cs.len() && cs[i as int + 1] == '/' {
        i + 2
    } else {
        comment_close(cs, i + 1)
    }
}

pub proof fn lemma_comment_close(cs: Seq<char>, i: nat)
    requires
        i <= cs.len(),
    ensures
        i <= comment_close(cs, i) <= cs.len(),
    decreases cs.len() - i,
{
    if i < cs.len() {
        lemma_comment_close(cs, i + 1);
    }
}

/// Where the blanks and comments starting at `i` end.
pub open spec fn skip_from(cs: Seq<char>, i: nat) -> nat
    decreases cs.len() - i,
{
    if i >= cs.len() {
        i
    } else if is_space(cs[i as int]) {
        skip_from(cs, i + 1)
    } else if cs[i as int] == '/' && i + 1 < cs.len() && cs[i as int + 1] == '/' {
        proof {
            lemma_runs_advance(cs, i + 1);
        }
        skip_from(cs, line_end(cs, i + 1))
    } else if cs[i as int] == '/' && i + 1 < cs.len() && cs[i as int + 1] == '*' {
        proof {
            lemma_comment_close(cs, i + 2);
        }
        skip_from(cs, comment_close(cs, i + 2))
    } else {
        i
    }
}

pub proof fn lemma_skip_from(cs: Seq<char>, i: nat)
    requires
        i <= cs.len(),
    ensures
        i <= skip_from(cs, i) <= cs.len(),
        skip_from(cs, i) < cs.len() ==> {
            let c = cs[skip_from(cs, i) as int];
            &&& !is_space(c)
            &&& c == '/' ==> !(skip_from(cs, i) + 1 < cs.len() && cs[skip_from(cs, i) + 1int] == '/')
            &&& c == '/' ==> !(skip_from(cs, i) + 1 < cs.len() && cs[skip_from(cs, i) + 1int] == '*')
        },
    decreases cs.len() - i,
{
    if i < cs.len() {
        if is_space(cs[i as int]) {
            lemma_skip_from(cs, i + 1);
        } else if cs[i as int] == '/' && i + 1 < cs.len() && cs[i as int + 1] == '/' {
            lemma_runs_advance(cs, i + 1);
            lemma_skip_from(cs, line_end(cs, i + 1));
        } else if cs[i as int] == '/' && i + 1 < cs.len() && cs[i as int + 1] == '*' {
            lemma_comment_close(cs, i + 2);
            lemma_skip_from(cs, comment_close(cs, i + 2));
        }
    }
}

/// The body of a string literal starting at `i`: its value (escapes
/// resolved), the index after the closing quote, and whether the quote
/// was found before the text ran out.
pub open spec fn read_str(cs: Seq<char>, i: nat) -> (Seq<char>, nat, bool)
    decreases cs.len() - i,
{
    if i >= cs.len() {
        (Seq::empty(), i, false)
    } else if cs[i as int] == '"' {
        (Seq::empty(), i + 1, true)
    } else if cs[i as int] == '\\' {
        if i + 1 >= cs.len() {
            (Seq::empty(), i + 1, false)
        } else {
            let r = read_str(cs, i + 2);
            (escape_of(cs[i as int + 1]) + r.0, r.1, r.2)
        }
    } else {
        let r = read_str(cs, i + 1);
        (seq![cs[i as int]] + r.0, r.1, r.2)
    }
}

pub proof fn lemma_read_str(cs: Seq<char>, i: nat)
    requires
        i <= cs.len(),
    ensures
        i <= read_str(cs, i).1 <= cs.len(),
        read_str(cs, i).2 ==> i < read_str(cs, i).1,
    decreases cs.len() - i,
{
    if i < cs.len() {
        if cs[i as int] == '\\' {
            if i + 1 < cs.len() {
                lemma_read_str(cs, i + 2);
            }
        } else if cs[i as int] != '"' {
            lemma_read_str(cs, i + 1);
        }
    }
}

/// The keyword spelled by `w`, if any.
pub open spec fn keyword(w: Seq<char>) -> Option<(nat, Seq<char>)> {
    if w == "def"@ { Some(TokenKind::Def@) }
    else if w == "var"@ { Some(TokenKind::Var@) }
    else if w == "return"@ { Some(TokenKind::Return@) }
    else if w == "if"@ { Some(TokenKind::If@) }
    else if w == "else"@ { Some(TokenKind::Else@) }
    else if w == "then"@ { Some(TokenKind::Then@) }
    else if w == "for"@ { Some(TokenKind::For@) }
    else if w == "in"@ { Some(TokenKind::In@) }
    else if w == "struct"@ { Some(TokenKind::Struct@) }
    else if w == "i32"@ { Some(TokenKind::TI32@) }
    else if w == "f64"@ { Some(TokenKind::TF64@) }
    else if w == "str"@ { Some(TokenKind::TStr@) }
    else if w == "bool"@ { Some(TokenKind::TBool@) }
    else if w == "void"@ { Some(TokenKind::TVoid@) }
    else if w == "true"@ { Some(TokenKind::True@) }
    else if w == "false"@ { Some(TokenKind::False@) }
    else { None }
}

/// What the scanner finds at a position where no blank or comment starts.
pub enum Step {
    /// A token of the given kind, ending just before the given index.
    Tok((nat, Seq<char>), nat),
    /// No token starts here.
    Stuck,
}

/// The character after `j` is `c`.
pub open spec fn next_is(cs: Seq<char>, j: nat, c: char) -> bool {
    j + 1 < cs.len() && cs[j as int + 1] == c
}

/// A token of a kind without text, ending just before `e`.
pub open spec fn tok(k: TokenKind, e: nat) -> Step {
    Step::Tok(k@, e)
}

/// The token that starts at `j < cs.len()`.
pub open spec fn step_at(cs: Seq<char>, j: nat) -> Step {
    let c = cs[j as int];
    if c == '(' { tok(TokenKind::LParen, j + 1) }
    else if c == ')' { tok(TokenKind::RParen, j + 1) }
    else if c == '[' { tok(TokenKind::LBracket, j + 1) }
    else if c == ']' { tok(TokenKind::RBracket, j + 1) }
    else if c == '{' { tok(TokenKind::LBrace, j + 1) }
    else if c == '}' { tok(TokenKind::RBrace, j + 1) }
    else if c == ':' { tok(TokenKind::Colon, j + 1) }
    else if c == ';' { tok(TokenKind::Semi, j + 1) }
    else if c == ',' { tok(TokenKind::Comma, j + 1) }
    else if c == '.' { tok(TokenKind::Dot, j + 1) }
    else if c == '+' { tok(TokenKind::Plus, j + 1) }
    else if c == '*' { tok(TokenKind::Star, j + 1) }
    else if c == '/' { tok(TokenKind::Slash, j + 1) }
    else if c == '!' {
        if next_is(cs, j, '=') { tok(TokenKind::Neq, j + 2) } else { tok(TokenKind::Bang, j + 1) }
    } else if c == '=' {
        if next_is(cs, j, '=') { tok(TokenKind::EqEq, j + 2) } else { tok(TokenKind::Assign, j + 1) }
    } else if c == '<' {
        if next_is(cs, j, '=') { tok(TokenKind::Le, j + 2) } else { tok(TokenKind::Lt, j + 1) }
    } else if c == '>' {
        if next_is(cs, j, '=') { tok(TokenKind::Ge, j + 2) } else { tok(TokenKind::Gt, j + 1) }
    } else if c == '&' {
        if next_is(cs, j, '&') { tok(TokenKind::AndAnd, j + 2) } else { Step::Stuck }
    } else if c == '|' {
        if next_is(cs, j, '|') { tok(TokenKind::OrOr, j + 2) } else { Step::Stuck }
    } else if c == '-' {
        if next_is(cs, j, '>') { tok(TokenKind::Arrow, j + 2) } else { tok(TokenKind::Minus, j + 1) }
    } else if c == '"' {
        let r = read_str(cs, j + 1);
        if r.2 { Step::Tok((16nat, r.0), r.1) } else { Step::Stuck }
    } else if is_digit(c) {
        let d = digits_end(cs, j);
        if d < cs.len() && cs[d as int] == '.' {
            let e = digits_end(cs, d + 1);
            Step::Tok((15nat, cs.subrange(j as int, e as int)), e)
        } else {
            Step::Tok((14nat, cs.subrange(j as int, d as int)), d)
        }
    } else if is_ident_start(c) {
        let e = ident_end(cs, j);
        let w = cs.subrange(j as int, e as int);
        match keyword(w) {
            Some(k) => Step::Tok(k, e),
            None => Step::Tok((19nat, w), e),
        }
    } else {
        Step::Stuck
    }
}

/// A token moves past at least one character and stays within the text.
pub proof fn lemma_step_at(cs: Seq<char>, j: nat)
    requires
        j < cs.len(),
    ensures
        step_at(cs, j) matches Step::Tok(_, e) ==> j < e <= cs.len(),
{
    lemma_runs_advance(cs, j);
    lemma_runs_advance(cs, j + 1);
    lemma_read_str(cs, j + 1);
    let d = digits_end(cs, j);
    if d < cs.len() {
        lemma_runs_advance(cs, d + 1);
    }
}

/// The tokens of `cs` from index `i` on (without the closing `Eof`), or
/// `None` when the scanner gets stuck.
pub open spec fn scan_from(cs: Seq<char>, i: nat) -> Option<Seq<TokV>>
    decreases cs.len() - i,
{
    if i > cs.len() {
        Some(Seq::empty())
    } else {
        let j = skip_from(cs, i);
        if j >= cs.len() {
            Some(Seq::empty())
        } else {
            proof {
                lemma_skip_from(cs, i);
                lemma_step_at(cs, j);
            }
            match step_at(cs, j) {
                Step::Tok(k, e) => match scan_from(cs, e) {
                    Some(rest) => Some(seq![TokV { kind: k, line: line_of(cs, j), col: col_of(cs, j) }] + rest),
                    None => None,
                },
                Step::Stuck => None,
            }
        }
    }
}

/// The text has no place where the scanner gets stuck.
pub open spec fn scans(cs: Seq<char>) -> bool {
    scan_from(cs, 0) is Some
}

/// The `Eof` token at the end of `cs`.
pub open spec fn eof_tok(cs: Seq<char>) -> TokV {
    TokV { kind: TokenKind::Eof@, line: line_of(cs, cs.len()), col: col_of(cs, cs.len()) }
}

/// The token stream of a text that scans: its tokens and the closing `Eof`.
pub open spec fn lexed(cs: Seq<char>) -> Seq<TokV> {
    match scan_from(cs, 0) {
        Some(ts) => ts.push(eof_tok(cs)),
        None => Seq::empty(),
    }
}

// ── The scanner ─────────────────────────────────────────────────────────

/// The runs of characters the scanner reads in one go.
pub enum CharClass {
    /// `0`-`9`
    Digit,
    /// ASCII letters, digits and `_`
    IdentChar,
}

pub open spec fn run_end(cs: Seq<char>, i: nat, class: CharClass) -> nat {
    match class {
        CharClass::Digit => digits_end(cs, i),
        CharClass::IdentChar => ident_end(cs, i),
    }
}

pub open spec fn in_class(class: CharClass, c: char) -> bool {
    match class {
        CharClass::Digit => is_digit(c),
        CharClass::IdentChar => is_ident_char(c),
    }
}

impl CharClass {
    pub fn holds(&self, c: char) -> (r: bool)
        ensures
            r == in_class(*self, c),
    {
        match self {
            CharClass::Digit => '0' <= c && c <= '9',
            CharClass::IdentChar => ('a' <= c && c <= 'z') || ('A' <= c && c <= 'Z') || c == '_' || ('0' <= c
                && c <= '9'),
        }
    }
}

/// The scanner's state: the text, the index of the next character, and the
/// line and column of that character.
pub struct Lexer {
    pub chars: Vec<char>,
    pub pos: usize,
    pub line: usize,
    pub col: usize,
}

impl Lexer {
    /// The position is inside the text and the line and column are those of
    /// the position.
    pub open spec fn wf(&self) -> bool {
        &&& self.pos <= self.chars@.len() < usize::MAX
        &&& self.line == line_of(self.chars@, self.pos as nat)
        &&& self.col == col_of(self.chars@, self.pos as nat)
    }

    /// A scanner at the start of `source`.
    pub fn new(source: &str) -> (r: Lexer)
        requires
            source.spec_bytes().len() < usize::MAX,
        ensures
            r.wf(),
            r.chars@ == source@,
            r.pos == 0,
    {
        let chars = chars_of(source);
        proof {
            lemma_boff_total(chars@);
            lemma_boff_mono(chars@, 0, chars@.len());
        }
        Lexer { chars, pos: 0, line: 1, col: 1 }
    }

    /// The next character, if any.
    pub fn peek(&self) -> (r: Option<char>)
        ensures
            r == (if self.pos < self.chars@.len() {
                Some(self.chars@[self.pos as int])
            } else {
                None::<char>
            }),
    {
        if self.pos < self.chars.len() {
            Some(self.chars[self.pos])
        } else {
            None
        }
    }

    /// Takes the next character, if any, keeping the line and column.
    pub fn advance(&mut self) -> (r: Option<char>)
        requires
            old(self).wf(),
        ensures
            final(self).wf(),
            final(self).chars@ == old(self).chars@,
            old(self).pos < old(self).chars@.len() ==> r == Some(old(self).chars@[old(self).pos as int])
                && final(self).pos == old(self).pos + 1,
            old(self).pos >= old(self).chars@.len() ==> r is None && final(self).pos == old(self).pos,
    {
        if self.pos < self.chars.len() {
            let ch = self.chars[self.pos];
            proof {
                lemma_line_col_bound(self.chars@, self.pos as nat);
            }
            self.pos += 1;
            if ch == '\n' {
                self.line += 1;
                self.col = 1;
            } else {
                self.col += 1;
            }
            Some(ch)
        } else {
            None
        }
    }

    /// Skips blanks and comments.  A `/` that starts no comment is left for
    /// the token reader.
    #[verifier::loop_isolation(false)]
    pub fn skip_whitespace_and_comments(&mut self)
        requires
            old(self).wf(),
        ensures
            final(self).wf(),
            final(self).chars@ == old(self).chars@,
            final(self).pos == skip_from(old(self).chars@, old(self).pos as nat),
    {
        let ghost cs = self.chars@;
        let ghost p0 = self.pos as nat;
        loop
            invariant
                self.wf(),
                self.chars@ == cs,
                skip_from(cs, p0) == skip_from(cs, self.pos as nat),
            decreases cs.len() - self.pos,
        {
            match self.peek() {
                Some(' ') | Some('\t') | Some('\r') | Some('\n') => {
                    self.advance();
                },
                Some('/') => {
                    let ghost i = self.pos as nat;
                    self.advance();
                    match self.peek() {
                        Some('/') => {
                            loop
                                invariant
                                    self.wf(),
                                    self.chars@ == cs,
                                    i + 1 <= self.pos,
                                    line_end(cs, i + 1) == line_end(cs, self.pos as nat),
                                decreases cs.len() - self.pos,
                            {
                                match self.peek() {
                                    Some(c) => {
                                        if c == '\n' {
                                            break;
                                        }
                                        self.advance();
                                    },
                                    None => break,
                                }
                            }
                        },
                        Some('*') => {
                            self.advance();
                            loop
                                invariant
                                    self.wf(),
                                    self.chars@ == cs,
                                    i + 2 <= self.pos,
                                    comment_close(cs, i + 2) == comment_close(cs, self.pos as nat),
                                decreases cs.len() - self.pos,
                            {
                                match self.advance() {
                                    None => break,
                                    Some('*') => {
                                        if let Some('/') = self.peek() {
                                            self.advance();
                                            break;
                                        }
                                    },
                                    _ => {},
                                }
                            }
                        },
                        _ => {
                            // a single '/' is an operator: step back to it
                            self.pos -= 1;
                            self.col -= 1;
                            break;
                        },
                    }
                },
                _ => break,
            }
        }
    }

    /// Reads the run of characters of `class` that starts here.
    #[verifier::loop_isolation(false)]
    pub fn read_while(&mut self, class: CharClass) -> (r: String)
        requires
            old(self).wf(),
        ensures
            final(self).wf(),
            final(self).chars@ == old(self).chars@,
            final(self).pos == run_end(old(self).chars@, old(self).pos as nat, class),
            r@ == old(self).chars@.subrange(old(self).pos as int, final(self).pos as int),
    {
        let ghost cs = self.chars@;
        let ghost p0 = self.pos as nat;
        let mut s = String::new();
        loop
            invariant
                self.wf(),
                self.chars@ == cs,
                p0 <= self.pos,
                run_end(cs, p0, class) == run_end(cs, self.pos as nat, class),
                s@ == cs.subrange(p0 as int, self.pos as int),
            decreases cs.len() - self.pos,
        {
            match self.peek() {
                Some(c) => {
                    if !class.holds(c) {
                        break;
                    }
                    self.advance();
                    push_char(&mut s, c);
                    assert(s@ =~= cs.subrange(p0 as int, self.pos as int));
                },
                None => break,
            }
        }
        s
    }

    /// Reads the body of a string literal whose opening quote was just
    /// taken: its value and whether the closing quote was found.
    #[verifier::loop_isolation(false)]
    pub fn read_string(&mut self) -> (r: (String, bool))
        requires
            old(self).wf(),
        ensures
            final(self).wf(),
            final(self).chars@ == old(self).chars@,
            (r.0@, final(self).pos as nat, r.1) == read_str(old(self).chars@, old(self).pos as nat),
    {
        let ghost cs = self.chars@;
        let ghost p0 = self.pos as nat;
        let mut s = String::new();
        loop
            invariant
                self.wf(),
                self.chars@ == cs,
                read_str(cs, p0) == (s@ + read_str(cs, self.pos as nat).0, read_str(cs, self.pos as nat).1,
                    read_str(cs, self.pos as nat).2),
            decreases cs.len() - self.pos,
        {
            let ghost i = self.pos as nat;
            match self.advance() {
                None => {
                    assert(s@ + Seq::<char>::empty() =~= s@);
                    return (s, false);
                },
                Some('"') => {
                    assert(s@ + Seq::<char>::empty() =~= s@);
                    return (s, true);
                },
                Some('\\') => {
                    match self.advance() {
                        Some(c) => {
                            let ghost before = s@;
                            if c == 'n' {
                                push_char(&mut s, '\n');
                            } else if c == 't' {
                                push_char(&mut s, '\t');
                            } else if c == '\\' {
                                push_char(&mut s, '\\');
                            } else if c == '"' {
                                push_char(&mut s, '"');
                            } else if c == '0' {
                                push_char(&mut s, '\0');
                            } else {
                                push_char(&mut s, '\\');
                                push_char(&mut s, c);
                            }
                            assert(s@ =~= before + escape_of(c));
                            assert(before + (escape_of(c) + read_str(cs, self.pos as nat).0) =~= s@ + read_str(
                                cs,
                                self.pos as nat,
                            ).0);
                        },
                        None => {
                            assert(s@ + Seq::<char>::empty() =~= s@);
                            return (s, false);
                        },
                    }
                },
                Some(c) => {
                    let ghost before = s@;
                    push_char(&mut s, c);
                    assert(before + (seq![c] + read_str(cs, self.pos as nat).0) =~= s@ + read_str(
                        cs,
                        self.pos as nat,
                    ).0);
                },
            }
        }
    }

    /// Reads the token that starts here (after any blanks and comments).
    pub fn next_kind(&mut self) -> (r: TokenKind)
        requires
            old(self).wf(),
            old(self).pos < old(self).chars@.len(),
            step_at(old(self).chars@, old(self).pos as nat) is Tok,
        ensures
            final(self).wf(),
            final(self).chars@ == old(self).chars@,
            step_at(old(self).chars@, old(self).pos as nat) == Step::Tok(r@, final(self).pos as nat),
    {
        let ghost cs = self.chars@;
        let ghost j = self.pos as nat;
        let c = self.chars[self.pos];
        match c {
            '(' => { self.advance(); TokenKind::LParen },
            ')' => { self.advance(); TokenKind::RParen },
            '[' => { self.advance(); TokenKind::LBracket },
            ']' => { self.advance(); TokenKind::RBracket },
            '{' => { self.advance(); TokenKind::LBrace },
            '}' => { self.advance(); TokenKind::RBrace },
            ':' => { self.advance(); TokenKind::Colon },
            ';' => { self.advance(); TokenKind::Semi },
            ',' => { self.advance(); TokenKind::Comma },
            '.' => { self.advance(); TokenKind::Dot },
            '+' => { self.advance(); TokenKind::Plus },
            '*' => { self.advance(); TokenKind::Star },
            '/' => { self.advance(); TokenKind::Slash },
            '!' => {
                self.advance();
                match self.peek() {
                    Some('=') => { self.advance(); TokenKind::Neq },
                    _ => TokenKind::Bang,
                }
            },
            '=' => {
                self.advance();
                match self.peek() {
                    Some('=') => { self.advance(); TokenKind::EqEq },
                    _ => TokenKind::Assign,
                }
            },
            '<' => {
                self.advance();
                match self.peek() {
                    Some('=') => { self.advance(); TokenKind::Le },
                    _ => TokenKind::Lt,
                }
            },
            '>' => {
                self.advance();
                match self.peek() {
                    Some('=') => { self.advance(); TokenKind::Ge },
                    _ => TokenKind::Gt,
                }
            },
            '&' => {
                // the requirement says a second '&' follows
                self.advance();
                self.advance();
                TokenKind::AndAnd
            },
            '|' => {
                // the requirement says a second '|' follows
                self.advance();
                self.advance();
                TokenKind::OrOr
            },
            '-' => {
                self.advance();
                match self.peek() {
                    Some('>') => { self.advance(); TokenKind::Arrow },
                    _ => TokenKind::Minus,
                }
            },
            '"' => {
                // the requirement says the closing quote is there
                self.advance();
                let (s, _closed) = self.read_string();
                TokenKind::StrLit(s)
            },
            _ => {
                if '0' <= c && c <= '9' {
                    let int_part = self.read_while(CharClass::Digit);
                    proof {
                        lemma_runs_advance(cs, j);
                    }
                    match self.peek() {
                        Some('.') => {
                            let ghost d = self.pos as nat;
                            self.advance();
                            let frac_part = self.read_while(CharClass::Digit);
                            proof {
                                lemma_runs_advance(cs, d + 1);
                                assert(cs[d as int] == '.');
                            }
                            let mut text = int_part;
                            push_char(&mut text, '.');
                            push_str(&mut text, frac_part.as_str());
                            assert(text@ =~= cs.subrange(j as int, self.pos as int));
                            TokenKind::FloatLit(text)
                        },
                        _ => TokenKind::IntLit(int_part),
                    }
                } else {
                    // the requirement leaves only a letter or '_' here
                    let ident = self.read_while(CharClass::IdentChar);
                    word_kind(ident)
                }
            },
        }
    }

    /// Reads all tokens from here on and closes them with `Eof`.
    #[verifier::loop_isolation(false)]
    pub fn tokenize(&mut self) -> (r: Vec<Token>)
        requires
            old(self).wf(),
            scan_from(old(self).chars@, old(self).pos as nat) is Some,
        ensures
            final(self).wf(),
            final(self).chars@ == old(self).chars@,
            toks_v(r@) == scan_from(old(self).chars@, old(self).pos as nat)->0.push(eof_tok(old(self).chars@)),
    {
        let ghost cs = self.chars@;
        let ghost p0 = self.pos as nat;
        let mut tokens: Vec<Token> = Vec::new();
        assert(toks_v(tokens@) + scan_from(cs, p0)->0 =~= scan_from(cs, p0)->0);
        loop
            invariant
                self.wf(),
                self.chars@ == cs,
                scan_from(cs, self.pos as nat) is Some,
                scan_from(cs, p0)->0 == toks_v(tokens@) + scan_from(cs, self.pos as nat)->0,
            decreases cs.len() - self.pos,
        {
            let ghost i = self.pos as nat;
            self.skip_whitespace_and_comments();
            proof {
                lemma_skip_from(cs, i);
                lemma_skip_idem(cs, i);
            }
            let line = self.line;
            let col = self.col;
            if self.pos >= self.chars.len() {
                break;
            }
            proof {
                lemma_step_at(cs, self.pos as nat);
            }
            let ghost j = self.pos as nat;
            let kind = self.next_kind();
            let ghost before = toks_v(tokens@);
            let t = Token { kind, line, col };
            tokens.push(t);
            assert(toks_v(tokens@) =~= before.push(t@));
            assert(seq![t@] + scan_from(cs, self.pos as nat)->0 == scan_from(cs, j)->0);
            assert(before + scan_from(cs, j)->0 =~= toks_v(tokens@) + scan_from(cs, self.pos as nat)->0);
        }
        proof {
            lemma_skip_from(cs, p0);
        }
        let ghost before = toks_v(tokens@);
        let t = Token { kind: TokenKind::Eof, line: self.line, col: self.col };
        tokens.push(t);
        assert(toks_v(tokens@) =~= before.push(t@));
        assert(before + Seq::<TokV>::empty() =~= before);
        tokens
    }
}

/// Skipping twice skips no more than skipping once.
pub proof fn lemma_skip_idem(cs: Seq<char>, i: nat)
    requires
        i <= cs.len(),
    ensures
        skip_from(cs, skip_from(cs, i)) == skip_from(cs, i),
        scan_from(cs, skip_from(cs, i)) == scan_from(cs, i),
{
    lemma_skip_from(cs, i);
    let j = skip_from(cs, i);
    assert(skip_from(cs, j) == j);
}

/// The kind of a word: its keyword, or an identifier.
pub fn word_kind(w: String) -> (r: TokenKind)
    ensures
        r@ == match keyword(w@) {
            Some(k) => k,
            None => (19nat, w@),
        },
{
    let t = w.as_str();
    if text_eq(t, "def") { TokenKind::Def }
    else if text_eq(t, "var") { TokenKind::Var }
    else if text_eq(t, "return") { TokenKind::Return }
    else if text_eq(t, "if") { TokenKind::If }
    else if text_eq(t, "else") { TokenKind::Else }
    else if text_eq(t, "then") { TokenKind::Then }
    else if text_eq(t, "for") { TokenKind::For }
    else if text_eq(t, "in") { TokenKind::In }
    else if text_eq(t, "struct") { TokenKind::Struct }
    else if text_eq(t, "i32") { TokenKind::TI32 }
    else if text_eq(t, "f64") { TokenKind::TF64 }
    else if text_eq(t, "str") { TokenKind::TStr }
    else if text_eq(t, "bool") { TokenKind::TBool }
    else if text_eq(t, "void") { TokenKind::TVoid }
    else if text_eq(t, "true") { TokenKind::True }
    else if text_eq(t, "false") { TokenKind::False }
    else { TokenKind::Ident(w) }
}

// ── Where the scanner gets stuck ────────────────────────────────────────

/// The message for the place `j` where no token starts.
pub open spec fn stuck_msg(cs: Seq<char>, j: nat) -> Seq<char> {
    let c = cs[j as int];
    let at = decimal(line_of(cs, j)) + ":"@ + decimal(col_of(cs, j));
    if c == '&' {
        "unexpected '&' at "@ + at
    } else if c == '|' {
        "unexpected '|' at "@ + at
    } else if c == '"' {
        "unterminated string at "@ + at
    } else {
        "unexpected character '"@ + seq![c] + "' at "@ + at
    }
}

/// The message for the first place from `i` on where the scanner gets
/// stuck, if there is one.
pub open spec fn first_stuck(cs: Seq<char>, i: nat) -> Option<Seq<char>>
    decreases cs.len() - i,
{
    if i > cs.len() {
        None
    } else {
        let j = skip_from(cs, i);
        if j >= cs.len() {
            None
        } else {
            proof {
                lemma_skip_from(cs, i);
                lemma_step_at(cs, j);
            }
            match step_at(cs, j) {
                Step::Tok(_, e) => first_stuck(cs, e),
                Step::Stuck => Some(stuck_msg(cs, j)),
            }
        }
    }
}

/// The scanner gets stuck somewhere exactly when there is a first place.
pub proof fn lemma_first_stuck(cs: Seq<char>, i: nat)
    ensures
        first_stuck(cs, i) is None <==> scan_from(cs, i) is Some,
    decreases cs.len() - i,
{
    if i <= cs.len() {
        let j = skip_from(cs, i);
        if j < cs.len() {
            lemma_skip_from(cs, i);
            lemma_step_at(cs, j);
            if let Step::Tok(_, e) = step_at(cs, j) {
                lemma_first_stuck(cs, e);
            }
        }
    }
}

/// Whether a string body starting at `i` finds its closing quote.
fn string_closes(cs: &Vec<char>, i: usize) -> (r: bool)
    requires
        i <= cs@.len() < usize::MAX,
    ensures
        r == read_str(cs@, i as nat).2,
{
    let mut j = i;
    while j < cs.len()
        invariant
            i <= j <= cs@.len() < usize::MAX,
            read_str(cs@, i as nat).2 == read_str(cs@, j as nat).2,
        decreases cs@.len() - j,
    {
        let c = cs[j];
        if c == '"' {
            return true;
        } else if c == '\\' {
            if j + 1 >= cs.len() {
                return false;
            }
            j = j + 2;
        } else {
            j = j + 1;
        }
    }
    false
}

impl Lexer {
    /// The message for the place here if no token starts at it.
    pub fn stuck_here(&self) -> (r: Option<String>)
        requires
            self.wf(),
            self.pos < self.chars@.len(),
        ensures
            r is Some <==> step_at(self.chars@, self.pos as nat) is Stuck,
            r matches Some(m) ==> m@ == stuck_msg(self.chars@, self.pos as nat),
    {
        let c = self.chars[self.pos];
        let has_next = self.pos + 1 < self.chars.len();
        let stuck = if c == '&' {
            !(has_next && self.chars[self.pos + 1] == '&')
        } else if c == '|' {
            !(has_next && self.chars[self.pos + 1] == '|')
        } else if c == '"' {
            !string_closes(&self.chars, self.pos + 1)
        } else {
            let symbol = c == '(' || c == ')' || c == '[' || c == ']' || c == '{' || c == '}' || c == ':' || c
                == ';' || c == ',' || c == '.' || c == '+' || c == '*' || c == '/' || c == '!' || c == '=' || c
                == '<' || c == '>' || c == '-';
            let digit = '0' <= c && c <= '9';
            let letter = ('a' <= c && c <= 'z') || ('A' <= c && c <= 'Z') || c == '_';
            !(symbol || digit || letter)
        };
        if !stuck {
            return None;
        }
        let mut m = if c == '&' {
            string_of("unexpected '&' at ")
        } else if c == '|' {
            string_of("unexpected '|' at ")
        } else if c == '"' {
            string_of("unterminated string at ")
        } else {
            let mut t = string_of("unexpected character '");
            push_char(&mut t, c);
            push_str(&mut t, "' at ");
            t
        };
        proof {
            lemma_line_col_bound(self.chars@, self.pos as nat);
        }
        let ghost before = m@;
        push_decimal(&mut m, self.line);
        push_str(&mut m, ":");
        push_decimal(&mut m, self.col);
        assert(m@ =~= before + (decimal(self.line as nat) + ":"@ + decimal(self.col as nat)));
        Some(m)
    }
}

/// The message of the first place in `source` where no token starts, or
/// `None` when the whole text scans.
#[verifier::loop_isolation(false)]
pub fn scan_error(source: &str) -> (r: Option<String>)
    requires
        source.spec_bytes().len() < usize::MAX,
    ensures
        r is None <==> scans(source@),
        r matches Some(m) ==> Some(m@) == first_stuck(source@, 0),
{
    let mut lx = Lexer::new(source);
    let ghost cs = lx.chars@;
    proof {
        lemma_first_stuck(cs, 0);
    }
    loop
        invariant
            lx.wf(),
            lx.chars@ == cs,
            cs == source@,
            first_stuck(cs, 0) == first_stuck(cs, lx.pos as nat),
        decreases cs.len() - lx.pos,
    {
        let ghost i = lx.pos as nat;
        lx.skip_whitespace_and_comments();
        proof {
            lemma_skip_from(cs, i);
            lemma_skip_from(cs, lx.pos as nat);
        }
        if lx.pos >= lx.chars.len() {
            return None;
        }
        proof {
            lemma_step_at(cs, lx.pos as nat);
        }
        match lx.stuck_here() {
            Some(m) => {
                return Some(m);
            },
            None => {
                lx.next_kind();
            },
        }
    }
}

/// Blanks (space, tab, carriage return, newline) between tokens are
/// skipped: from the start of a run of blanks the scanner reaches the same
/// place, and reads the same tokens, as from its end; a character that is
/// neither a blank nor the start of a comment is not skipped.
pub proof fn law_scanner_skips_blanks(cs: Seq<char>, i: nat, j: nat)
    requires
        i <= j <= cs.len(),
        forall|k: int| i <= k < j ==> cs[k] == ' ' || cs[k] == '\t' || cs[k] == '\r' || cs[k] == '\n',
    ensures
        skip_from(cs, i) == skip_from(cs, j),
        scan_from(cs, i) == scan_from(cs, j),
        j < cs.len() && !(cs[j as int] == ' ' || cs[j as int] == '\t' || cs[j as int] == '\r' || cs[j as int]
            == '\n' || cs[j as int] == '/') ==> skip_from(cs, j) == j,
    decreases j - i,
{
    if i < j {
        assert(is_space(cs[i as int]));
        law_scanner_skips_blanks(cs, i + 1, j);
    }
}

} // verus!
