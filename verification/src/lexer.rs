//! Lexer: Kang source text to a token stream ending in an `Eof` sentinel.
//!
//! Tokens are found by longest match; keywords win over identifiers of the
//! same spelling.  Blanks, `// line` and `/* block */` comments separate
//! tokens and are dropped.

use std::ops::Range;
use vstd::prelude::*;
use vstd::utf8::{encode_scalar, encode_utf8};
use vstd::string::{StrSliceExecFns, StringSliceAdditionalSpecFns};
use crate::error::LexError;
use crate::stats::{clock_now, micros_since, LexStats};
use crate::text::{
    chars_of, debug_quoted, debug_str, push_char, push_chars, push_decimal, push_str, same_text,
    string_of, decimal,
};

verus! {

/// The kinds of Kang tokens.  Literal and identifier tokens carry their text
/// (a string literal with its escapes resolved).
#[derive(Debug, Clone)]
pub enum TokenKind {
    Def, Var, Return, If, Else, Then, For, In, Struct, Import, From,
    TI32, TF64, TStr, TBool, TVoid,
    True, False,
    Plus, Minus, Star, Slash, Lt, Le, Gt, Ge, EqEq, Neq, AndAnd, OrOr, Bang, Assign, Arrow,
    LParen, RParen, LBracket, RBracket, LBrace, RBrace, Colon, Semi, Comma, Dot,
    FloatLit(String),
    IntLit(String),
    StrLit(String),
    Ident(String),
    Comment,
    Eof,
}

/// A token kind is seen as its variant's position in the declaration and
/// the characters it carries (none for the kinds without text).
impl View for TokenKind {
    type V = (nat, Seq<char>);

    open spec fn view(&self) -> (nat, Seq<char>) {
        match self {
            TokenKind::Def => (0nat, Seq::<char>::empty()),
            TokenKind::Var => (1nat, Seq::<char>::empty()),
            TokenKind::Return => (2nat, Seq::<char>::empty()),
            TokenKind::If => (3nat, Seq::<char>::empty()),
            TokenKind::Else => (4nat, Seq::<char>::empty()),
            TokenKind::Then => (5nat, Seq::<char>::empty()),
            TokenKind::For => (6nat, Seq::<char>::empty()),
            TokenKind::In => (7nat, Seq::<char>::empty()),
            TokenKind::Struct => (8nat, Seq::<char>::empty()),
            TokenKind::Import => (9nat, Seq::<char>::empty()),
            TokenKind::From => (10nat, Seq::<char>::empty()),
            TokenKind::TI32 => (11nat, Seq::<char>::empty()),
            TokenKind::TF64 => (12nat, Seq::<char>::empty()),
            TokenKind::TStr => (13nat, Seq::<char>::empty()),
            TokenKind::TBool => (14nat, Seq::<char>::empty()),
            TokenKind::TVoid => (15nat, Seq::<char>::empty()),
            TokenKind::True => (16nat, Seq::<char>::empty()),
            TokenKind::False => (17nat, Seq::<char>::empty()),
            TokenKind::Plus => (18nat, Seq::<char>::empty()),
            TokenKind::Minus => (19nat, Seq::<char>::empty()),
            TokenKind::Star => (20nat, Seq::<char>::empty()),
            TokenKind::Slash => (21nat, Seq::<char>::empty()),
            TokenKind::Lt => (22nat, Seq::<char>::empty()),
            TokenKind::Le => (23nat, Seq::<char>::empty()),
            TokenKind::Gt => (24nat, Seq::<char>::empty()),
            TokenKind::Ge => (25nat, Seq::<char>::empty()),
            TokenKind::EqEq => (26nat, Seq::<char>::empty()),
            TokenKind::Neq => (27nat, Seq::<char>::empty()),
            TokenKind::AndAnd => (28nat, Seq::<char>::empty()),
            TokenKind::OrOr => (29nat, Seq::<char>::empty()),
            TokenKind::Bang => (30nat, Seq::<char>::empty()),
            TokenKind::Assign => (31nat, Seq::<char>::empty()),
            TokenKind::Arrow => (32nat, Seq::<char>::empty()),
            TokenKind::LParen => (33nat, Seq::<char>::empty()),
            TokenKind::RParen => (34nat, Seq::<char>::empty()),
            TokenKind::LBracket => (35nat, Seq::<char>::empty()),
            TokenKind::RBracket => (36nat, Seq::<char>::empty()),
            TokenKind::LBrace => (37nat, Seq::<char>::empty()),
            TokenKind::RBrace => (38nat, Seq::<char>::empty()),
            TokenKind::Colon => (39nat, Seq::<char>::empty()),
            TokenKind::Semi => (40nat, Seq::<char>::empty()),
            TokenKind::Comma => (41nat, Seq::<char>::empty()),
            TokenKind::Dot => (42nat, Seq::<char>::empty()),
            TokenKind::FloatLit(s) => (43nat, s@),
            TokenKind::IntLit(s) => (44nat, s@),
            TokenKind::StrLit(s) => (45nat, s@),
            TokenKind::Ident(s) => (46nat, s@),
            TokenKind::Comment => (47nat, Seq::<char>::empty()),
            TokenKind::Eof => (48nat, Seq::<char>::empty()),
        }
    }
}

impl TokenKind {
    pub fn tag(&self) -> (t: u8)
        ensures
            t as nat == self@.0,
    {
        match self {
            TokenKind::Def => 0,
            TokenKind::Var => 1,
            TokenKind::Return => 2,
            TokenKind::If => 3,
            TokenKind::Else => 4,
            TokenKind::Then => 5,
            TokenKind::For => 6,
            TokenKind::In => 7,
            TokenKind::Struct => 8,
            TokenKind::Import => 9,
            TokenKind::From => 10,
            TokenKind::TI32 => 11,
            TokenKind::TF64 => 12,
            TokenKind::TStr => 13,
            TokenKind::TBool => 14,
            TokenKind::TVoid => 15,
            TokenKind::True => 16,
            TokenKind::False => 17,
            TokenKind::Plus => 18,
            TokenKind::Minus => 19,
            TokenKind::Star => 20,
            TokenKind::Slash => 21,
            TokenKind::Lt => 22,
            TokenKind::Le => 23,
            TokenKind::Gt => 24,
            TokenKind::Ge => 25,
            TokenKind::EqEq => 26,
            TokenKind::Neq => 27,
            TokenKind::AndAnd => 28,
            TokenKind::OrOr => 29,
            TokenKind::Bang => 30,
            TokenKind::Assign => 31,
            TokenKind::Arrow => 32,
            TokenKind::LParen => 33,
            TokenKind::RParen => 34,
            TokenKind::LBracket => 35,
            TokenKind::RBracket => 36,
            TokenKind::LBrace => 37,
            TokenKind::RBrace => 38,
            TokenKind::Colon => 39,
            TokenKind::Semi => 40,
            TokenKind::Comma => 41,
            TokenKind::Dot => 42,
            TokenKind::FloatLit(_) => 43,
            TokenKind::IntLit(_) => 44,
            TokenKind::StrLit(_) => 45,
            TokenKind::Ident(_) => 46,
            TokenKind::Comment => 47,
            TokenKind::Eof => 48,
        }
    }

    pub fn debug_name(&self) -> (r: String)
        ensures
            r@ == debug_of(*self),
    {
        match self {
            TokenKind::Def => string_of("Def"),
            TokenKind::Var => string_of("Var"),
            TokenKind::Return => string_of("Return"),
            TokenKind::If => string_of("If"),
            TokenKind::Else => string_of("Else"),
            TokenKind::Then => string_of("Then"),
            TokenKind::For => string_of("For"),
            TokenKind::In => string_of("In"),
            TokenKind::Struct => string_of("Struct"),
            TokenKind::Import => string_of("Import"),
            TokenKind::From => string_of("From"),
            TokenKind::TI32 => string_of("TI32"),
            TokenKind::TF64 => string_of("TF64"),
            TokenKind::TStr => string_of("TStr"),
            TokenKind::TBool => string_of("TBool"),
            TokenKind::TVoid => string_of("TVoid"),
            TokenKind::True => string_of("True"),
            TokenKind::False => string_of("False"),
            TokenKind::Plus => string_of("Plus"),
            TokenKind::Minus => string_of("Minus"),
            TokenKind::Star => string_of("Star"),
            TokenKind::Slash => string_of("Slash"),
            TokenKind::Lt => string_of("Lt"),
            TokenKind::Le => string_of("Le"),
            TokenKind::Gt => string_of("Gt"),
            TokenKind::Ge => string_of("Ge"),
            TokenKind::EqEq => string_of("EqEq"),
            TokenKind::Neq => string_of("Neq"),
            TokenKind::AndAnd => string_of("AndAnd"),
            TokenKind::OrOr => string_of("OrOr"),
            TokenKind::Bang => string_of("Bang"),
            TokenKind::Assign => string_of("Assign"),
            TokenKind::Arrow => string_of("Arrow"),
            TokenKind::LParen => string_of("LParen"),
            TokenKind::RParen => string_of("RParen"),
            TokenKind::LBracket => string_of("LBracket"),
            TokenKind::RBracket => string_of("RBracket"),
            TokenKind::LBrace => string_of("LBrace"),
            TokenKind::RBrace => string_of("RBrace"),
            TokenKind::Colon => string_of("Colon"),
            TokenKind::Semi => string_of("Semi"),
            TokenKind::Comma => string_of("Comma"),
            TokenKind::Dot => string_of("Dot"),
            TokenKind::FloatLit(s) => {
                let mut r = string_of("FloatLit(");
                let q = debug_quoted(s.as_str());
                push_str(&mut r, q.as_str());
                push_str(&mut r, ")");
                r
            }
            TokenKind::IntLit(s) => {
                let mut r = string_of("IntLit(");
                let q = debug_quoted(s.as_str());
                push_str(&mut r, q.as_str());
                push_str(&mut r, ")");
                r
            }
            TokenKind::StrLit(s) => {
                let mut r = string_of("StrLit(");
                let q = debug_quoted(s.as_str());
                push_str(&mut r, q.as_str());
                push_str(&mut r, ")");
                r
            }
            TokenKind::Ident(s) => {
                let mut r = string_of("Ident(");
                let q = debug_quoted(s.as_str());
                push_str(&mut r, q.as_str());
                push_str(&mut r, ")");
                r
            }
            TokenKind::Comment => string_of("Comment"),
            TokenKind::Eof => string_of("Eof"),
        }
    }
}

/// Two kinds are equal when they are the same variant carrying the same text.
impl PartialEq for TokenKind {
    fn eq(&self, other: &Self) -> (r: bool) {
        if self.tag() != other.tag() {
            return false;
        }
        match (self, other) {
            (TokenKind::FloatLit(a), TokenKind::FloatLit(b)) => same_text(a, b),
            (TokenKind::IntLit(a), TokenKind::IntLit(b)) => same_text(a, b),
            (TokenKind::StrLit(a), TokenKind::StrLit(b)) => same_text(a, b),
            (TokenKind::Ident(a), TokenKind::Ident(b)) => same_text(a, b),
            _ => true,
        }
    }
}

impl vstd::std_specs::cmp::PartialEqSpecImpl for TokenKind {
    open spec fn obeys_eq_spec() -> bool {
        true
    }

    open spec fn eq_spec(&self, other: &TokenKind) -> bool {
        self@ == other@
    }
}

/// One token: its kind, the 1-based line and column (in characters) where
/// it starts, and its byte range in the source.
/// A kind is `Eof` exactly when its tag says so.
pub proof fn lemma_eof_tag(k: TokenKind)
    ensures
        (k is Eof) == (k@.0 == 48),
{
}

#[derive(Debug, Clone)]
pub struct Token {
    pub kind: TokenKind,
    pub line: usize,
    pub col: usize,
    pub span: Range<usize>,
}

/// The text `format_tokens` shows for a token: its literal or identifier
/// text, or the fixed spelling of the kind.
pub open spec fn lexeme_of(k: TokenKind) -> Seq<char> {
    match k {
        TokenKind::Def => "def"@,
        TokenKind::Var => "var"@,
        TokenKind::Return => "return"@,
        TokenKind::If => "if"@,
        TokenKind::Else => "else"@,
        TokenKind::Then => "then"@,
        TokenKind::For => "for"@,
        TokenKind::In => "in"@,
        TokenKind::Struct => "struct"@,
        TokenKind::Import => "import"@,
        TokenKind::From => "from"@,
        TokenKind::TI32 => "i32"@,
        TokenKind::TF64 => "f64"@,
        TokenKind::TStr => "str"@,
        TokenKind::TBool => "bool"@,
        TokenKind::TVoid => "void"@,
        TokenKind::True => "true"@,
        TokenKind::False => "false"@,
        TokenKind::Plus => "+"@,
        TokenKind::Minus => "-"@,
        TokenKind::Star => "*"@,
        TokenKind::Slash => "/"@,
        TokenKind::Lt => "<"@,
        TokenKind::Le => "<="@,
        TokenKind::Gt => ">"@,
        TokenKind::Ge => ">="@,
        TokenKind::EqEq => "=="@,
        TokenKind::Neq => "!="@,
        TokenKind::AndAnd => "&&"@,
        TokenKind::OrOr => "||"@,
        TokenKind::Bang => "!"@,
        TokenKind::Assign => "="@,
        TokenKind::Arrow => "->"@,
        TokenKind::LParen => "("@,
        TokenKind::RParen => ")"@,
        TokenKind::LBracket => "["@,
        TokenKind::RBracket => "]"@,
        TokenKind::LBrace => "{"@,
        TokenKind::RBrace => "}"@,
        TokenKind::Colon => ":"@,
        TokenKind::Semi => ";"@,
        TokenKind::Comma => ","@,
        TokenKind::Dot => "."@,
        TokenKind::FloatLit(s) => s@,
        TokenKind::IntLit(s) => s@,
        TokenKind::StrLit(s) => s@,
        TokenKind::Ident(s) => s@,
        TokenKind::Comment => ""@,
        TokenKind::Eof => ""@,
    }
}

/// The text a token shows in the token listing.
pub fn token_lexeme(t: &Token) -> (r: String)
    ensures
        r@ == lexeme_of(t.kind),
{
    match &t.kind {
        TokenKind::Def => string_of("def"),
        TokenKind::Var => string_of("var"),
        TokenKind::Return => string_of("return"),
        TokenKind::If => string_of("if"),
        TokenKind::Else => string_of("else"),
        TokenKind::Then => string_of("then"),
        TokenKind::For => string_of("for"),
        TokenKind::In => string_of("in"),
        TokenKind::Struct => string_of("struct"),
        TokenKind::Import => string_of("import"),
        TokenKind::From => string_of("from"),
        TokenKind::TI32 => string_of("i32"),
        TokenKind::TF64 => string_of("f64"),
        TokenKind::TStr => string_of("str"),
        TokenKind::TBool => string_of("bool"),
        TokenKind::TVoid => string_of("void"),
        TokenKind::True => string_of("true"),
        TokenKind::False => string_of("false"),
        TokenKind::Plus => string_of("+"),
        TokenKind::Minus => string_of("-"),
        TokenKind::Star => string_of("*"),
        TokenKind::Slash => string_of("/"),
        TokenKind::Lt => string_of("<"),
        TokenKind::Le => string_of("<="),
        TokenKind::Gt => string_of(">"),
        TokenKind::Ge => string_of(">="),
        TokenKind::EqEq => string_of("=="),
        TokenKind::Neq => string_of("!="),
        TokenKind::AndAnd => string_of("&&"),
        TokenKind::OrOr => string_of("||"),
        TokenKind::Bang => string_of("!"),
        TokenKind::Assign => string_of("="),
        TokenKind::Arrow => string_of("->"),
        TokenKind::LParen => string_of("("),
        TokenKind::RParen => string_of(")"),
        TokenKind::LBracket => string_of("["),
        TokenKind::RBracket => string_of("]"),
        TokenKind::LBrace => string_of("{"),
        TokenKind::RBrace => string_of("}"),
        TokenKind::Colon => string_of(":"),
        TokenKind::Semi => string_of(";"),
        TokenKind::Comma => string_of(","),
        TokenKind::Dot => string_of("."),
        TokenKind::FloatLit(s) => s.clone(),
        TokenKind::IntLit(s) => s.clone(),
        TokenKind::StrLit(s) => s.clone(),
        TokenKind::Ident(s) => s.clone(),
        TokenKind::Comment => string_of(""),
        TokenKind::Eof => string_of(""),
    }
}
/// The name of a token's kind in the token listing: the variant's name in
/// upper case (`LPAREN`, `TI32`), the literal kinds written `INT_LIT`,
/// `FLOAT_LIT` and `STR_LIT`; the text a token carries is not part of it.
pub open spec fn kind_name(k: TokenKind) -> Seq<char> {
    match k {
        TokenKind::Def => "DEF"@,
        TokenKind::Var => "VAR"@,
        TokenKind::Return => "RETURN"@,
        TokenKind::If => "IF"@,
        TokenKind::Else => "ELSE"@,
        TokenKind::Then => "THEN"@,
        TokenKind::For => "FOR"@,
        TokenKind::In => "IN"@,
        TokenKind::Struct => "STRUCT"@,
        TokenKind::Import => "IMPORT"@,
        TokenKind::From => "FROM"@,
        TokenKind::TI32 => "TI32"@,
        TokenKind::TF64 => "TF64"@,
        TokenKind::TStr => "TSTR"@,
        TokenKind::TBool => "TBOOL"@,
        TokenKind::TVoid => "TVOID"@,
        TokenKind::True => "TRUE"@,
        TokenKind::False => "FALSE"@,
        TokenKind::Plus => "PLUS"@,
        TokenKind::Minus => "MINUS"@,
        TokenKind::Star => "STAR"@,
        TokenKind::Slash => "SLASH"@,
        TokenKind::Lt => "LT"@,
        TokenKind::Le => "LE"@,
        TokenKind::Gt => "GT"@,
        TokenKind::Ge => "GE"@,
        TokenKind::EqEq => "EQEQ"@,
        TokenKind::Neq => "NEQ"@,
        TokenKind::AndAnd => "ANDAND"@,
        TokenKind::OrOr => "OROR"@,
        TokenKind::Bang => "BANG"@,
        TokenKind::Assign => "ASSIGN"@,
        TokenKind::Arrow => "ARROW"@,
        TokenKind::LParen => "LPAREN"@,
        TokenKind::RParen => "RPAREN"@,
        TokenKind::LBracket => "LBRACKET"@,
        TokenKind::RBracket => "RBRACKET"@,
        TokenKind::LBrace => "LBRACE"@,
        TokenKind::RBrace => "RBRACE"@,
        TokenKind::Colon => "COLON"@,
        TokenKind::Semi => "SEMI"@,
        TokenKind::Comma => "COMMA"@,
        TokenKind::Dot => "DOT"@,
        TokenKind::FloatLit(_) => "FLOAT_LIT"@,
        TokenKind::IntLit(_) => "INT_LIT"@,
        TokenKind::StrLit(_) => "STR_LIT"@,
        TokenKind::Ident(_) => "IDENT"@,
        TokenKind::Comment => "COMMENT"@,
        TokenKind::Eof => "EOF"@,
    }
}

/// The name of a token's kind in the token listing (see `kind_name`).
pub fn listing_name(k: &TokenKind) -> (r: &'static str)
    ensures
        r@ == kind_name(*k),
{
    match k {
        TokenKind::Def => "DEF",
        TokenKind::Var => "VAR",
        TokenKind::Return => "RETURN",
        TokenKind::If => "IF",
        TokenKind::Else => "ELSE",
        TokenKind::Then => "THEN",
        TokenKind::For => "FOR",
        TokenKind::In => "IN",
        TokenKind::Struct => "STRUCT",
        TokenKind::Import => "IMPORT",
        TokenKind::From => "FROM",
        TokenKind::TI32 => "TI32",
        TokenKind::TF64 => "TF64",
        TokenKind::TStr => "TSTR",
        TokenKind::TBool => "TBOOL",
        TokenKind::TVoid => "TVOID",
        TokenKind::True => "TRUE",
        TokenKind::False => "FALSE",
        TokenKind::Plus => "PLUS",
        TokenKind::Minus => "MINUS",
        TokenKind::Star => "STAR",
        TokenKind::Slash => "SLASH",
        TokenKind::Lt => "LT",
        TokenKind::Le => "LE",
        TokenKind::Gt => "GT",
        TokenKind::Ge => "GE",
        TokenKind::EqEq => "EQEQ",
        TokenKind::Neq => "NEQ",
        TokenKind::AndAnd => "ANDAND",
        TokenKind::OrOr => "OROR",
        TokenKind::Bang => "BANG",
        TokenKind::Assign => "ASSIGN",
        TokenKind::Arrow => "ARROW",
        TokenKind::LParen => "LPAREN",
        TokenKind::RParen => "RPAREN",
        TokenKind::LBracket => "LBRACKET",
        TokenKind::RBracket => "RBRACKET",
        TokenKind::LBrace => "LBRACE",
        TokenKind::RBrace => "RBRACE",
        TokenKind::Colon => "COLON",
        TokenKind::Semi => "SEMI",
        TokenKind::Comma => "COMMA",
        TokenKind::Dot => "DOT",
        TokenKind::FloatLit(_) => "FLOAT_LIT",
        TokenKind::IntLit(_) => "INT_LIT",
        TokenKind::StrLit(_) => "STR_LIT",
        TokenKind::Ident(_) => "IDENT",
        TokenKind::Comment => "COMMENT",
        TokenKind::Eof => "EOF",
    }
}

/// One line of the token listing: the kind's name, the
/// lexeme quoted, and the position.
pub open spec fn token_line(t: Token) -> Seq<char> {
    kind_name(t.kind) + " "@ + debug_str(lexeme_of(t.kind)) + " @ "@ + decimal(t.line as nat) + ":"@
        + decimal(t.col as nat) + "\n"@
}

/// The token listing: one line per token.
pub open spec fn tokens_text(ts: Seq<Token>) -> Seq<char>
    decreases ts.len(),
{
    if ts.len() == 0 {
        Seq::empty()
    } else {
        tokens_text(ts.drop_last()) + token_line(ts.last())
    }
}

/// Lists the tokens, one per line: `KIND "lexeme" @ line:col`.
pub fn format_tokens(tokens: &[Token]) -> (r: String)
    ensures
        r@ == tokens_text(tokens@),
{
    let mut out = String::new();
    let mut i: usize = 0;
    while i < tokens.len()
        invariant
            i <= tokens@.len(),
            out@ == tokens_text(tokens@.take(i as int)),
        decreases tokens@.len() - i,
    {
        let t = &tokens[i];
        let name = listing_name(&t.kind);
        let lexeme = token_lexeme(t);
        let q = debug_quoted(lexeme.as_str());
        push_str(&mut out, name);
        push_str(&mut out, " ");
        push_str(&mut out, q.as_str());
        push_str(&mut out, " @ ");
        push_decimal(&mut out, t.line);
        push_str(&mut out, ":");
        push_decimal(&mut out, t.col);
        push_str(&mut out, "\n");
        assert(tokens@.take(i + 1).drop_last() =~= tokens@.take(i as int));
        i += 1;
    }
    assert(tokens@.take(tokens@.len() as int) =~= tokens@);
    out
}

/// What `{:?}` prints for a token kind.
pub open spec fn debug_of(k: TokenKind) -> Seq<char> {
    match k {
        TokenKind::Def => "Def"@,
        TokenKind::Var => "Var"@,
        TokenKind::Return => "Return"@,
        TokenKind::If => "If"@,
        TokenKind::Else => "Else"@,
        TokenKind::Then => "Then"@,
        TokenKind::For => "For"@,
        TokenKind::In => "In"@,
        TokenKind::Struct => "Struct"@,
        TokenKind::Import => "Import"@,
        TokenKind::From => "From"@,
        TokenKind::TI32 => "TI32"@,
        TokenKind::TF64 => "TF64"@,
        TokenKind::TStr => "TStr"@,
        TokenKind::TBool => "TBool"@,
        TokenKind::TVoid => "TVoid"@,
        TokenKind::True => "True"@,
        TokenKind::False => "False"@,
        TokenKind::Plus => "Plus"@,
        TokenKind::Minus => "Minus"@,
        TokenKind::Star => "Star"@,
        TokenKind::Slash => "Slash"@,
        TokenKind::Lt => "Lt"@,
        TokenKind::Le => "Le"@,
        TokenKind::Gt => "Gt"@,
        TokenKind::Ge => "Ge"@,
        TokenKind::EqEq => "EqEq"@,
        TokenKind::Neq => "Neq"@,
        TokenKind::AndAnd => "AndAnd"@,
        TokenKind::OrOr => "OrOr"@,
        TokenKind::Bang => "Bang"@,
        TokenKind::Assign => "Assign"@,
        TokenKind::Arrow => "Arrow"@,
        TokenKind::LParen => "LParen"@,
        TokenKind::RParen => "RParen"@,
        TokenKind::LBracket => "LBracket"@,
        TokenKind::RBracket => "RBracket"@,
        TokenKind::LBrace => "LBrace"@,
        TokenKind::RBrace => "RBrace"@,
        TokenKind::Colon => "Colon"@,
        TokenKind::Semi => "Semi"@,
        TokenKind::Comma => "Comma"@,
        TokenKind::Dot => "Dot"@,
        TokenKind::FloatLit(s) => "FloatLit("@ + debug_str(s@) + ")"@,
        TokenKind::IntLit(s) => "IntLit("@ + debug_str(s@) + ")"@,
        TokenKind::StrLit(s) => "StrLit("@ + debug_str(s@) + ")"@,
        TokenKind::Ident(s) => "Ident("@ + debug_str(s@) + ")"@,
        TokenKind::Comment => "Comment"@,
        TokenKind::Eof => "Eof"@,
    }
}

// ── The token language ──────────────────────────────────────────────────

pub open spec fn is_space(c: char) -> bool {
    c == ' ' || c == '\t' || c == '\r' || c == '\n'
}

pub open spec fn is_digit(c: char) -> bool {
    '0' <= c && c <= '9'
}

pub open spec fn is_ident_start(c: char) -> bool {
    ('a' <= c && c <= 'z') || ('A' <= c && c <= 'Z') || c == '_'
}

pub open spec fn is_ident_char(c: char) -> bool {
    is_ident_start(c) || is_digit(c)
}

/// The end of the run of digits starting at `i`.
pub open spec fn digits_end(cs: Seq<char>, i: nat) -> nat
    decreases cs.len() - i,
{
    if i < cs.len() && is_digit(cs[i as int]) {
        digits_end(cs, i + 1)
    } else {
        i
    }
}

/// The end of the run of identifier characters starting at `i`.
pub open spec fn ident_end(cs: Seq<char>, i: nat) -> nat
    decreases cs.len() - i,
{
    if i < cs.len() && is_ident_char(cs[i as int]) {
        ident_end(cs, i + 1)
    } else {
        i
    }
}

/// The end of a `//` comment whose text starts at `i`: the next newline
/// (not included) or the end of the input.
pub open spec fn line_end(cs: Seq<char>, i: nat) -> nat
    decreases cs.len() - i,
{
    if i < cs.len() && cs[i as int] != '\n' {
        line_end(cs, i + 1)
    } else {
        i
    }
}

/// The end of a block comment whose body starts at `i`, matching the body
/// pattern `([^*] | \*[^/])* \*/`; `star` says that the previous character
/// was a `*` that still waits for its partner.  `None` when the input ends
/// first.
pub open spec fn block_end(cs: Seq<char>, i: nat, star: bool) -> Option<nat>
    decreases cs.len() - i,
{
    if i >= cs.len() {
        None
    } else if star {
        if cs[i as int] == '/' {
            Some(i + 1)
        } else {
            block_end(cs, i + 1, false)
        }
    } else if cs[i as int] == '*' {
        block_end(cs, i + 1, true)
    } else {
        block_end(cs, i + 1, false)
    }
}

/// Scans a string literal whose body starts at `i`, matching
/// `([^"\\] | \\.)* "` (`.` is any character but a newline): `Ok` with the
/// index after the closing quote, or `Err` with the index where the pattern
/// can go no further.  `esc` says that a backslash was just read.
pub open spec fn str_end(cs: Seq<char>, i: nat, esc: bool) -> Result<nat, nat>
    decreases cs.len() - i,
{
    if i >= cs.len() {
        Err(cs.len())
    } else if esc {
        if cs[i as int] == '\n' {
            Err(i)
        } else {
            str_end(cs, i + 1, false)
        }
    } else if cs[i as int] == '"' {
        Ok(i + 1)
    } else if cs[i as int] == '\\' {
        str_end(cs, i + 1, true)
    } else {
        str_end(cs, i + 1, false)
    }
}

/// The text a backslash followed by `c` stands for in a string literal.
pub open spec fn escape_of(c: char) -> Seq<char> {
    if c == 'n' {
        seq!['\n']
    } else if c == 't' {
        seq!['\t']
    } else if c == '\\' {
        seq!['\\']
    } else if c == '"' {
        seq!['"']
    } else if c == '0' {
        seq!['\0']
    } else {
        seq!['\\', c]
    }
}

/// The value of a string literal's body: each escape replaced by the text
/// it stands for.
pub open spec fn unescape(s: Seq<char>) -> Seq<char>
    decreases s.len(),
{
    if s.len() == 0 {
        Seq::empty()
    } else if s[0] == '\\' {
        if s.len() == 1 {
            seq!['\\']
        } else {
            escape_of(s[1]) + unescape(s.subrange(2, s.len() as int))
        }
    } else {
        seq![s[0]] + unescape(s.subrange(1, s.len() as int))
    }
}

/// The keyword spelled by `w`, if any.
pub open spec fn keyword_of(w: Seq<char>) -> Option<TokenKind> {
    if w == "def"@ { Some(TokenKind::Def) }
    else if w == "var"@ { Some(TokenKind::Var) }
    else if w == "return"@ { Some(TokenKind::Return) }
    else if w == "if"@ { Some(TokenKind::If) }
    else if w == "else"@ { Some(TokenKind::Else) }
    else if w == "then"@ { Some(TokenKind::Then) }
    else if w == "for"@ { Some(TokenKind::For) }
    else if w == "in"@ { Some(TokenKind::In) }
    else if w == "struct"@ { Some(TokenKind::Struct) }
    else if w == "import"@ { Some(TokenKind::Import) }
    else if w == "from"@ { Some(TokenKind::From) }
    else if w == "i32"@ { Some(TokenKind::TI32) }
    else if w == "f64"@ { Some(TokenKind::TF64) }
    else if w == "str"@ { Some(TokenKind::TStr) }
    else if w == "bool"@ { Some(TokenKind::TBool) }
    else if w == "void"@ { Some(TokenKind::TVoid) }
    else if w == "true"@ { Some(TokenKind::True) }
    else if w == "false"@ { Some(TokenKind::False) }
    else { None }
}

/// The two-character operator spelled by `a b`, if any.
pub open spec fn op2(a: char, b: char) -> Option<TokenKind> {
    if a == '<' && b == '=' { Some(TokenKind::Le) }
    else if a == '>' && b == '=' { Some(TokenKind::Ge) }
    else if a == '=' && b == '=' { Some(TokenKind::EqEq) }
    else if a == '!' && b == '=' { Some(TokenKind::Neq) }
    else if a == '&' && b == '&' { Some(TokenKind::AndAnd) }
    else if a == '|' && b == '|' { Some(TokenKind::OrOr) }
    else if a == '-' && b == '>' { Some(TokenKind::Arrow) }
    else { None }
}

/// The one-character operator or delimiter spelled by `c`, if any.
pub open spec fn op1(c: char) -> Option<TokenKind> {
    if c == '+' { Some(TokenKind::Plus) }
    else if c == '-' { Some(TokenKind::Minus) }
    else if c == '*' { Some(TokenKind::Star) }
    else if c == '/' { Some(TokenKind::Slash) }
    else if c == '<' { Some(TokenKind::Lt) }
    else if c == '>' { Some(TokenKind::Gt) }
    else if c == '!' { Some(TokenKind::Bang) }
    else if c == '=' { Some(TokenKind::Assign) }
    else if c == '(' { Some(TokenKind::LParen) }
    else if c == ')' { Some(TokenKind::RParen) }
    else if c == '[' { Some(TokenKind::LBracket) }
    else if c == ']' { Some(TokenKind::RBracket) }
    else if c == '{' { Some(TokenKind::LBrace) }
    else if c == '}' { Some(TokenKind::RBrace) }
    else if c == ':' { Some(TokenKind::Colon) }
    else if c == ';' { Some(TokenKind::Semi) }
    else if c == ',' { Some(TokenKind::Comma) }
    else if c == '.' { Some(TokenKind::Dot) }
    else { None }
}

/// What the lexer finds at one position.
pub enum LexStep {
    /// A blank; scanning goes on at the given index.
    Blank(nat),
    /// A comment ending just before the given index.
    Comment(nat),
    /// A token of the given kind ending just before the given index.
    Token((nat, Seq<char>), nat),
    /// No token starts here; the offending text ends before the given index.
    Fail(nat),
}

pub open spec fn number_step(cs: Seq<char>, i: nat) -> LexStep {
    let d = digits_end(cs, i);
    if d + 1 < cs.len() && cs[d as int] == '.' && is_digit(cs[d as int + 1]) {
        let e = digits_end(cs, d + 1);
        LexStep::Token((43nat, cs.subrange(i as int, e as int)), e)
    } else {
        LexStep::Token((44nat, cs.subrange(i as int, d as int)), d)
    }
}

pub open spec fn word_step(cs: Seq<char>, i: nat) -> LexStep {
    let e = ident_end(cs, i);
    let w = cs.subrange(i as int, e as int);
    match keyword_of(w) {
        Some(k) => LexStep::Token(k@, e),
        None => LexStep::Token((46nat, w), e),
    }
}

pub open spec fn string_step(cs: Seq<char>, i: nat) -> LexStep {
    match str_end(cs, i + 1, false) {
        Ok(j) => LexStep::Token((45nat, unescape(cs.subrange(i as int + 1, j - 1))), j),
        Err(j) => LexStep::Fail(j),
    }
}

/// The longest match at index `i < cs.len()`.
pub open spec fn lex_step(cs: Seq<char>, i: nat) -> LexStep
    recommends
        i < cs.len(),
{
    let c = cs[i as int];
    if is_space(c) {
        LexStep::Blank(i + 1)
    } else if c == '/' && i + 1 < cs.len() && cs[i as int + 1] == '/' {
        LexStep::Comment(line_end(cs, i + 2))
    } else if c == '/' && i + 1 < cs.len() && cs[i as int + 1] == '*' && block_end(cs, i + 2, false) is Some {
        LexStep::Comment(block_end(cs, i + 2, false)->0)
    } else if is_digit(c) {
        number_step(cs, i)
    } else if is_ident_start(c) {
        word_step(cs, i)
    } else if c == '"' {
        string_step(cs, i)
    } else if i + 1 < cs.len() && op2(c, cs[i as int + 1]) is Some {
        LexStep::Token(op2(c, cs[i as int + 1])->0@, i + 2)
    } else if op1(c) is Some {
        LexStep::Token(op1(c)->0@, i + 1)
    } else {
        LexStep::Fail(i + 1)
    }
}

/// The UTF-8 length of a character.
pub open spec fn char_width(c: char) -> nat {
    encode_scalar(c as u32).len()
}

/// The byte offset of character index `i`.
pub open spec fn boff(cs: Seq<char>, i: nat) -> nat
    decreases i,
{
    if i == 0 || i > cs.len() {
        0
    } else {
        boff(cs, (i - 1) as nat) + char_width(cs[i - 1])
    }
}

/// The 1-based line of character index `i`.
pub open spec fn line_of(cs: Seq<char>, i: nat) -> nat
    decreases i,
{
    if i == 0 || i > cs.len() {
        1
    } else {
        line_of(cs, (i - 1) as nat) + if cs[i - 1] == '\n' { 1nat } else { 0nat }
    }
}

/// The 1-based column (in characters) of character index `i`.
pub open spec fn col_of(cs: Seq<char>, i: nat) -> nat
    decreases i,
{
    if i == 0 || i > cs.len() {
        1
    } else if cs[i - 1] == '\n' {
        1
    } else {
        col_of(cs, (i - 1) as nat) + 1
    }
}

/// A token found by the lexer: its kind and the character indices it spans.
pub struct SpecToken {
    pub kind: (nat, Seq<char>),
    pub start: nat,
    pub end: nat,
}

/// The outcome of lexing from some index on: the tokens and the number of
/// comment bytes, or the character range of the first offending text.
pub enum LexOutcome {
    Tokens(Seq<SpecToken>, nat),
    Failed(nat, nat),
}

pub proof fn lemma_runs_advance(cs: Seq<char>, i: nat)
    ensures
        digits_end(cs, i) >= i,
        ident_end(cs, i) >= i,
        line_end(cs, i) >= i,
        block_end(cs, i, false) matches Some(j) ==> j > i,
        block_end(cs, i, true) matches Some(j) ==> j > i,
        str_end(cs, i, false) matches Ok(j) ==> j > i,
        str_end(cs, i, true) matches Ok(j) ==> j > i,
        i <= cs.len() ==> (str_end(cs, i, false) matches Err(j) ==> j >= i && j <= cs.len()),
        i <= cs.len() ==> (str_end(cs, i, true) matches Err(j) ==> j >= i && j <= cs.len()),
        digits_end(cs, i) <= cs.len() || digits_end(cs, i) == i,
        ident_end(cs, i) <= cs.len() || ident_end(cs, i) == i,
        line_end(cs, i) <= cs.len() || line_end(cs, i) == i,
        block_end(cs, i, false) matches Some(j) ==> j <= cs.len(),
        block_end(cs, i, true) matches Some(j) ==> j <= cs.len(),
        str_end(cs, i, false) matches Ok(j) ==> j <= cs.len(),
        str_end(cs, i, true) matches Ok(j) ==> j <= cs.len(),
    decreases cs.len() - i,
{
    if i < cs.len() {
        lemma_runs_advance(cs, i + 1);
    }
}

/// Every step moves past at least one character and stays within the input.
pub proof fn lemma_step_advances(cs: Seq<char>, i: nat)
    requires
        i < cs.len(),
    ensures
        match lex_step(cs, i) {
            LexStep::Blank(j) => i < j <= cs.len(),
            LexStep::Comment(j) => i < j <= cs.len(),
            LexStep::Token(_, j) => i < j <= cs.len(),
            LexStep::Fail(j) => i < j <= cs.len(),
        },
{
    lemma_runs_advance(cs, i);
    lemma_runs_advance(cs, i + 1);
    lemma_runs_advance(cs, i + 2);
    let d = digits_end(cs, i);
    lemma_runs_advance(cs, d + 1);
}

/// Lexing from character index `i` to the end of the input.
pub open spec fn lex_from(cs: Seq<char>, i: nat) -> LexOutcome
    decreases cs.len() - i,
{
    if i >= cs.len() {
        LexOutcome::Tokens(Seq::empty(), 0)
    } else {
        proof {
            lemma_step_advances(cs, i);
        }
        match lex_step(cs, i) {
            LexStep::Blank(j) => lex_from(cs, j),
            LexStep::Comment(j) => match lex_from(cs, j) {
                LexOutcome::Tokens(ts, cb) => LexOutcome::Tokens(
                    ts,
                    cb + (boff(cs, j) - boff(cs, i)) as nat,
                ),
                LexOutcome::Failed(a, b) => LexOutcome::Failed(a, b),
            },
            LexStep::Token(k, j) => match lex_from(cs, j) {
                LexOutcome::Tokens(ts, cb) => LexOutcome::Tokens(
                    seq![SpecToken { kind: k, start: i, end: j }] + ts,
                    cb,
                ),
                LexOutcome::Failed(a, b) => LexOutcome::Failed(a, b),
            },
            LexStep::Fail(j) => LexOutcome::Failed(i, j),
        }
    }
}

/// `tok` is the exec token for the spec token `st` of the characters `cs`.
pub open spec fn token_matches(cs: Seq<char>, tok: Token, st: SpecToken) -> bool {
    &&& tok.kind@ == st.kind
    &&& tok.span.start == boff(cs, st.start)
    &&& tok.span.end == boff(cs, st.end)
    &&& tok.line == line_of(cs, st.start)
    &&& tok.col == col_of(cs, st.start)
}

/// The message of a lexical error over the offending characters.
pub open spec fn lex_error_msg(bad: Seq<char>) -> Seq<char> {
    "无法识别的字符 '"@ + bad + "'"@
}

// ── Lemmas on positions ─────────────────────────────────────────────────

pub proof fn lemma_line_col_bound(cs: Seq<char>, i: nat)
    ensures
        1 <= line_of(cs, i) <= i + 1,
        1 <= col_of(cs, i) <= i + 1,
    decreases i,
{
    if i > 0 && i <= cs.len() {
        lemma_line_col_bound(cs, (i - 1) as nat);
    }
}

pub proof fn lemma_boff_mono(cs: Seq<char>, a: nat, b: nat)
    requires
        a <= b <= cs.len(),
    ensures
        boff(cs, a) + (b - a) <= boff(cs, b),
    decreases b - a,
{
    if a < b {
        lemma_boff_mono(cs, a, (b - 1) as nat);
        assert(char_width(cs[b - 1]) >= 1);
    }
}

proof fn lemma_boff_cons(c: char, rest: Seq<char>, k: nat)
    requires
        1 <= k <= rest.len() + 1,
    ensures
        boff(seq![c] + rest, k) == char_width(c) + boff(rest, (k - 1) as nat),
    decreases k,
{
    let cs = seq![c] + rest;
    reveal_with_fuel(boff, 2);
    if k > 1 {
        lemma_boff_cons(c, rest, (k - 1) as nat);
        assert(cs[k - 1] == rest[k - 2]);
        assert(boff(rest, (k - 1) as nat) == boff(rest, (k - 2) as nat) + char_width(rest[k - 2]));
    } else {
        assert(cs[0] == c);
        assert(boff(cs, 0) == 0);
    }
}

/// The byte offset of the end of `cs` is the length of its UTF-8 encoding.
pub proof fn lemma_boff_total(cs: Seq<char>)
    ensures
        boff(cs, cs.len()) == encode_utf8(cs).len(),
    decreases cs.len(),
{
    if cs.len() > 0 {
        let rest = cs.drop_first();
        lemma_boff_total(rest);
        assert(cs == seq![cs[0]] + rest);
        lemma_boff_cons(cs[0], rest, cs.len());
    }
}

// ── The scanner ─────────────────────────────────────────────────────────

fn is_space_c(c: char) -> (r: bool)
    ensures
        r == is_space(c),
{
    c == ' ' || c == '\t' || c == '\r' || c == '\n'
}

fn is_digit_c(c: char) -> (r: bool)
    ensures
        r == is_digit(c),
{
    '0' <= c && c <= '9'
}

fn is_ident_start_c(c: char) -> (r: bool)
    ensures
        r == is_ident_start(c),
{
    ('a' <= c && c <= 'z') || ('A' <= c && c <= 'Z') || c == '_'
}

fn is_ident_char_c(c: char) -> (r: bool)
    ensures
        r == is_ident_char(c),
{
    is_ident_start_c(c) || is_digit_c(c)
}

/// The UTF-8 length of `c`.
pub fn width_of(c: char) -> (w: usize)
    ensures
        w == char_width(c),
        1 <= w <= 4,
{
    let v = c as u32;
    if v <= 0x7F {
        1
    } else if v <= 0x7FF {
        2
    } else if v <= 0xFFFF {
        3
    } else {
        4
    }
}

fn digits_end_x(cs: &Vec<char>, i: usize) -> (e: usize)
    requires
        i <= cs@.len(),
    ensures
        e == digits_end(cs@, i as nat),
        i <= e <= cs@.len(),
{
    let mut j = i;
    while j < cs.len() && is_digit_c(cs[j])
        invariant
            i <= j <= cs@.len(),
            digits_end(cs@, i as nat) == digits_end(cs@, j as nat),
        decreases cs@.len() - j,
    {
        j += 1;
    }
    j
}

fn ident_end_x(cs: &Vec<char>, i: usize) -> (e: usize)
    requires
        i <= cs@.len(),
    ensures
        e == ident_end(cs@, i as nat),
        i <= e <= cs@.len(),
{
    let mut j = i;
    while j < cs.len() && is_ident_char_c(cs[j])
        invariant
            i <= j <= cs@.len(),
            ident_end(cs@, i as nat) == ident_end(cs@, j as nat),
        decreases cs@.len() - j,
    {
        j += 1;
    }
    j
}

fn line_end_x(cs: &Vec<char>, i: usize) -> (e: usize)
    requires
        i <= cs@.len(),
    ensures
        e == line_end(cs@, i as nat),
        i <= e <= cs@.len(),
{
    let mut j = i;
    while j < cs.len() && cs[j] != '\n'
        invariant
            i <= j <= cs@.len(),
            line_end(cs@, i as nat) == line_end(cs@, j as nat),
        decreases cs@.len() - j,
    {
        j += 1;
    }
    j
}

fn block_end_x(cs: &Vec<char>, i: usize) -> (r: Option<usize>)
    requires
        i <= cs@.len(),
    ensures
        match r {
            Some(j) => block_end(cs@, i as nat, false) == Some(j as nat),
            None => block_end(cs@, i as nat, false) is None,
        },
{
    let mut j = i;
    let mut star = false;
    while j < cs.len()
        invariant
            i <= j <= cs@.len(),
            block_end(cs@, i as nat, false) == block_end(cs@, j as nat, star),
        decreases cs@.len() - j,
    {
        if star {
            if cs[j] == '/' {
                return Some(j + 1);
            }
            star = false;
        } else if cs[j] == '*' {
            star = true;
        }
        j += 1;
    }
    None
}

fn str_end_x(cs: &Vec<char>, i: usize) -> (r: Result<usize, usize>)
    requires
        i <= cs@.len(),
    ensures
        match r {
            Ok(j) => str_end(cs@, i as nat, false) == Ok::<nat, nat>(j as nat),
            Err(j) => str_end(cs@, i as nat, false) == Err::<nat, nat>(j as nat),
        },
{
    let mut j = i;
    let mut esc = false;
    while j < cs.len()
        invariant
            i <= j <= cs@.len(),
            str_end(cs@, i as nat, false) == str_end(cs@, j as nat, esc),
        decreases cs@.len() - j,
    {
        let c = cs[j];
        if esc {
            if c == '\n' {
                return Err(j);
            }
            esc = false;
        } else if c == '"' {
            return Ok(j + 1);
        } else if c == '\\' {
            esc = true;
        }
        j += 1;
    }
    Err(cs.len())
}

/// The value of the string literal body `cs[from..to]`.
fn unescape_x(cs: &Vec<char>, from: usize, to: usize) -> (r: String)
    requires
        from <= to <= cs@.len(),
    ensures
        r@ == unescape(cs@.subrange(from as int, to as int)),
{
    let mut out = String::new();
    let mut k = from;
    while k < to
        invariant
            from <= k <= to <= cs@.len(),
            out@ + unescape(cs@.subrange(k as int, to as int)) == unescape(
                cs@.subrange(from as int, to as int),
            ),
        decreases to - k,
    {
        let ghost rest = cs@.subrange(k as int, to as int);
        let c = cs[k];
        if c == '\\' {
            if k + 1 == to {
                push_char(&mut out, '\\');
                assert(cs@.subrange(to as int, to as int) =~= Seq::<char>::empty());
                k = to;
            } else {
                let e = cs[k + 1];
                assert(rest.subrange(2, rest.len() as int) =~= cs@.subrange(k + 2, to as int));
                if e == 'n' {
                    push_char(&mut out, '\n');
                } else if e == 't' {
                    push_char(&mut out, '\t');
                } else if e == '\\' {
                    push_char(&mut out, '\\');
                } else if e == '"' {
                    push_char(&mut out, '"');
                } else if e == '0' {
                    push_char(&mut out, '\0');
                } else {
                    push_char(&mut out, '\\');
                    push_char(&mut out, e);
                }
                assert(out@ + unescape(cs@.subrange(k + 2, to as int)) == unescape(
                    cs@.subrange(from as int, to as int),
                ));
                k = k + 2;
            }
        } else {
            push_char(&mut out, c);
            assert(rest.subrange(1, rest.len() as int) =~= cs@.subrange(k + 1, to as int));
            k = k + 1;
        }
    }
    assert(cs@.subrange(to as int, to as int) =~= Seq::<char>::empty());
    out
}

/// Whether `cs[from..to]` spells `w`.
fn word_is(cs: &Vec<char>, from: usize, to: usize, w: &str) -> (r: bool)
    requires
        from <= to <= cs@.len(),
    ensures
        r == (cs@.subrange(from as int, to as int) == w@),
{
    let n = w.unicode_len();
    if to - from != n {
        return false;
    }
    let mut k: usize = 0;
    while k < n
        invariant
            n == w@.len(),
            to - from == n,
            from <= to <= cs@.len(),
            k <= n,
            forall|m: int| 0 <= m < k ==> cs@[from + m] == w@[m],
        decreases n - k,
    {
        if cs[from + k] != w.get_char(k) {
            assert(cs@.subrange(from as int, to as int)[k as int] != w@[k as int]);
            return false;
        }
        k += 1;
    }
    assert(cs@.subrange(from as int, to as int) =~= w@);
    true
}

fn keyword_x(cs: &Vec<char>, from: usize, to: usize) -> (r: Option<TokenKind>)
    requires
        from <= to <= cs@.len(),
    ensures
        r == keyword_of(cs@.subrange(from as int, to as int)),
{
    if word_is(cs, from, to, "def") { Some(TokenKind::Def) }
    else if word_is(cs, from, to, "var") { Some(TokenKind::Var) }
    else if word_is(cs, from, to, "return") { Some(TokenKind::Return) }
    else if word_is(cs, from, to, "if") { Some(TokenKind::If) }
    else if word_is(cs, from, to, "else") { Some(TokenKind::Else) }
    else if word_is(cs, from, to, "then") { Some(TokenKind::Then) }
    else if word_is(cs, from, to, "for") { Some(TokenKind::For) }
    else if word_is(cs, from, to, "in") { Some(TokenKind::In) }
    else if word_is(cs, from, to, "struct") { Some(TokenKind::Struct) }
    else if word_is(cs, from, to, "import") { Some(TokenKind::Import) }
    else if word_is(cs, from, to, "from") { Some(TokenKind::From) }
    else if word_is(cs, from, to, "i32") { Some(TokenKind::TI32) }
    else if word_is(cs, from, to, "f64") { Some(TokenKind::TF64) }
    else if word_is(cs, from, to, "str") { Some(TokenKind::TStr) }
    else if word_is(cs, from, to, "bool") { Some(TokenKind::TBool) }
    else if word_is(cs, from, to, "void") { Some(TokenKind::TVoid) }
    else if word_is(cs, from, to, "true") { Some(TokenKind::True) }
    else if word_is(cs, from, to, "false") { Some(TokenKind::False) }
    else { None }
}

fn op2_x(a: char, b: char) -> (r: Option<TokenKind>)
    ensures
        r == op2(a, b),
{
    if a == '<' && b == '=' { Some(TokenKind::Le) }
    else if a == '>' && b == '=' { Some(TokenKind::Ge) }
    else if a == '=' && b == '=' { Some(TokenKind::EqEq) }
    else if a == '!' && b == '=' { Some(TokenKind::Neq) }
    else if a == '&' && b == '&' { Some(TokenKind::AndAnd) }
    else if a == '|' && b == '|' { Some(TokenKind::OrOr) }
    else if a == '-' && b == '>' { Some(TokenKind::Arrow) }
    else { None }
}

fn op1_x(c: char) -> (r: Option<TokenKind>)
    ensures
        r == op1(c),
{
    if c == '+' { Some(TokenKind::Plus) }
    else if c == '-' { Some(TokenKind::Minus) }
    else if c == '*' { Some(TokenKind::Star) }
    else if c == '/' { Some(TokenKind::Slash) }
    else if c == '<' { Some(TokenKind::Lt) }
    else if c == '>' { Some(TokenKind::Gt) }
    else if c == '!' { Some(TokenKind::Bang) }
    else if c == '=' { Some(TokenKind::Assign) }
    else if c == '(' { Some(TokenKind::LParen) }
    else if c == ')' { Some(TokenKind::RParen) }
    else if c == '[' { Some(TokenKind::LBracket) }
    else if c == ']' { Some(TokenKind::RBracket) }
    else if c == '{' { Some(TokenKind::LBrace) }
    else if c == '}' { Some(TokenKind::RBrace) }
    else if c == ':' { Some(TokenKind::Colon) }
    else if c == ';' { Some(TokenKind::Semi) }
    else if c == ',' { Some(TokenKind::Comma) }
    else if c == '.' { Some(TokenKind::Dot) }
    else { None }
}

/// What the scanner found at one index, in exec form.
enum Found {
    Blank(usize),
    Comment(usize),
    Token(TokenKind, usize),
    Fail(usize),
}

spec fn found_is(f: Found, step: LexStep) -> bool {
    match (f, step) {
        (Found::Blank(j), LexStep::Blank(k)) => j == k,
        (Found::Comment(j), LexStep::Comment(k)) => j == k,
        (Found::Token(t, j), LexStep::Token(v, k)) => j == k && t@ == v,
        (Found::Fail(j), LexStep::Fail(k)) => j == k,
        _ => false,
    }
}

/// One step of the scanner at index `i`.
fn scan_at(cs: &Vec<char>, i: usize) -> (f: Found)
    requires
        i < cs@.len(),
    ensures
        found_is(f, lex_step(cs@, i as nat)),
{
    proof {
        lemma_runs_advance(cs@, i as nat);
        lemma_runs_advance(cs@, i as nat + 1);
    }
    let n = cs.len();
    let c = cs[i];
    if is_space_c(c) {
        return Found::Blank(i + 1);
    }
    if c == '/' && i + 1 < n && cs[i + 1] == '/' {
        return Found::Comment(line_end_x(cs, i + 2));
    }
    if c == '/' && i + 1 < n && cs[i + 1] == '*' {
        match block_end_x(cs, i + 2) {
            Some(j) => {
                return Found::Comment(j);
            },
            None => {},
        }
    }
    if is_digit_c(c) {
        let d = digits_end_x(cs, i);
        if d < n - 1 && cs[d] == '.' && is_digit_c(cs[d + 1]) {
            let e = digits_end_x(cs, d + 1);
            let text = crate::text::string_from_chars(cs, i, e);
            return Found::Token(TokenKind::FloatLit(text), e);
        } else {
            let text = crate::text::string_from_chars(cs, i, d);
            return Found::Token(TokenKind::IntLit(text), d);
        }
    }
    if is_ident_start_c(c) {
        let e = ident_end_x(cs, i);
        match keyword_x(cs, i, e) {
            Some(k) => {
                return Found::Token(k, e);
            },
            None => {
                let text = crate::text::string_from_chars(cs, i, e);
                return Found::Token(TokenKind::Ident(text), e);
            },
        }
    }
    if c == '"' {
        match str_end_x(cs, i + 1) {
            Ok(j) => {
                let text = unescape_x(cs, i + 1, j - 1);
                return Found::Token(TokenKind::StrLit(text), j);
            },
            Err(j) => {
                return Found::Fail(j);
            },
        }
    }
    if i + 1 < n {
        match op2_x(c, cs[i + 1]) {
            Some(k) => {
                return Found::Token(k, i + 2);
            },
            None => {},
        }
    }
    match op1_x(c) {
        Some(k) => Found::Token(k, i + 1),
        None => Found::Fail(i + 1),
    }
}

/// Lexing `toks` (with `cb` comment bytes) in front of the outcome `rest`.
pub open spec fn join_outcome(toks: Seq<SpecToken>, cb: nat, rest: LexOutcome) -> LexOutcome {
    match rest {
        LexOutcome::Tokens(ts, c) => LexOutcome::Tokens(toks + ts, cb + c),
        LexOutcome::Failed(a, b) => LexOutcome::Failed(a, b),
    }
}

/// `tokens` is the stream for the spec tokens `toks` of `cs`, closed by the
/// `Eof` sentinel at the end of the input.
pub open spec fn stream_matches(cs: Seq<char>, tokens: Seq<Token>, toks: Seq<SpecToken>) -> bool {
    &&& tokens.len() == toks.len() + 1
    &&& forall|k: int| 0 <= k < toks.len() ==> token_matches(cs, #[trigger] tokens[k], toks[k])
    &&& token_matches(
        cs,
        tokens[toks.len() as int],
        SpecToken { kind: TokenKind::Eof@, start: cs.len(), end: cs.len() },
    )
}

/// How many tokens of `ts` have the debug name `key`.
pub open spec fn count_named(ts: Seq<Token>, key: Seq<char>) -> nat
    decreases ts.len(),
{
    if ts.len() == 0 {
        0
    } else {
        count_named(ts.drop_last(), key) + if debug_of(ts.last().kind) == key { 1nat } else { 0nat }
    }
}

/// `counts` pairs every debug name occurring in `ts` with its number of
/// occurrences, each name once.
pub open spec fn counts_exact(ts: Seq<Token>, counts: Seq<(String, usize)>) -> bool {
    &&& forall|e: int| 0 <= e < counts.len() ==> #[trigger] counts[e].1 == count_named(ts, counts[e].0@)
    &&& forall|e1: int, e2: int|
        0 <= e1 < e2 < counts.len() ==> (#[trigger] counts[e1]).0@ != (#[trigger] counts[e2]).0@
    &&& forall|k: int|
        0 <= k < ts.len() ==> exists|e: int| 0 <= e < counts.len() && (#[trigger] counts[e]).0@ == debug_of((#[trigger] ts[k]).kind)
}

/// Moves the position `(line, col, byte)` from character `from` to `to`.
fn advance_x(cs: &Vec<char>, from: usize, to: usize, line: usize, col: usize, b: usize) -> (r: (
    usize,
    usize,
    usize,
))
    requires
        from <= to <= cs@.len() < usize::MAX,
        boff(cs@, cs@.len() as nat) <= usize::MAX,
        line == line_of(cs@, from as nat),
        col == col_of(cs@, from as nat),
        b == boff(cs@, from as nat),
    ensures
        r.0 == line_of(cs@, to as nat),
        r.1 == col_of(cs@, to as nat),
        r.2 == boff(cs@, to as nat),
{
    let mut k = from;
    let mut line = line;
    let mut col = col;
    let mut b = b;
    while k < to
        invariant
            from <= k <= to <= cs@.len() < usize::MAX,
            boff(cs@, cs@.len() as nat) <= usize::MAX,
            line == line_of(cs@, k as nat),
            col == col_of(cs@, k as nat),
            b == boff(cs@, k as nat),
        decreases to - k,
    {
        proof {
            lemma_line_col_bound(cs@, k as nat);
            lemma_boff_mono(cs@, (k + 1) as nat, cs@.len() as nat);
        }
        let c = cs[k];
        b = b + width_of(c);
        if c == '\n' {
            line = line + 1;
            col = 1;
        } else {
            col = col + 1;
        }
        k = k + 1;
    }
    (line, col, b)
}

proof fn lemma_count_absent(ts: Seq<Token>, key: Seq<char>, keys: Seq<String>)
    requires
        forall|j: int| 0 <= j < ts.len() ==> exists|e: int| 0 <= e < keys.len() && (#[trigger] keys[e])@ == debug_of((#[trigger] ts[j]).kind),
        forall|m: int| 0 <= m < keys.len() ==> (#[trigger] keys[m])@ != key,
    ensures
        count_named(ts, key) == 0,
    decreases ts.len(),
{
    if ts.len() > 0 {
        let last = ts.len() - 1;
        let e = choose|e: int| 0 <= e < keys.len() && (#[trigger] keys[e])@ == debug_of(ts[last].kind);
        assert(keys[e]@ != key);
        let pre = ts.drop_last();
        assert forall|j: int| 0 <= j < pre.len() implies exists|e: int| 0 <= e < keys.len() && (#[trigger] keys[e])@ == debug_of((#[trigger] pre[j]).kind) by {
            assert(pre[j] == ts[j]);
        }
        lemma_count_absent(pre, key, keys);
    }
}

/// The index of `name` among `keys`, if it is there.
fn find_key(keys: &Vec<String>, name: &String) -> (r: Option<usize>)
    ensures
        match r {
            Some(e) => e < keys@.len() && keys@[e as int]@ == name@,
            None => forall|m: int| 0 <= m < keys@.len() ==> (#[trigger] keys@[m])@ != name@,
        },
{
    let mut e: usize = 0;
    while e < keys.len()
        invariant
            e <= keys@.len(),
            forall|m: int| 0 <= m < e ==> (#[trigger] keys@[m])@ != name@,
        decreases keys@.len() - e,
    {
        if same_text(&keys[e], name) {
            return Some(e);
        }
        e += 1;
    }
    None
}

fn count_kinds(tokens: &Vec<Token>) -> (counts: Vec<(String, usize)>)
    ensures
        counts_exact(tokens@, counts@),
{
    let mut keys: Vec<String> = Vec::new();
    let mut vals: Vec<usize> = Vec::new();
    let mut k: usize = 0;
    while k < tokens.len()
        invariant
            k <= tokens@.len(),
            keys@.len() == vals@.len(),
            forall|e: int| 0 <= e < vals@.len() ==> #[trigger] vals@[e] == count_named(tokens@.take(k as int), keys@[e]@),
            forall|e: int| 0 <= e < vals@.len() ==> #[trigger] vals@[e] <= k,
            forall|e1: int, e2: int| 0 <= e1 < e2 < keys@.len() ==> (#[trigger] keys@[e1])@ != (#[trigger] keys@[e2])@,
            forall|j: int| 0 <= j < k ==> exists|e: int| 0 <= e < keys@.len() && (#[trigger] keys@[e])@ == debug_of((#[trigger] tokens@[j]).kind),
        decreases tokens@.len() - k,
    {
        let name = tokens[k].kind.debug_name();
        let ghost pre = tokens@.take(k as int);
        let ghost post = tokens@.take(k + 1);
        assert(post.drop_last() =~= pre);
        assert(post.last() == tokens@[k as int]);
        let ghost ok = keys@;
        let fe = find_key(&keys, &name);
        let found = fe.is_some();
        let e: usize = match fe { Some(x) => x, None => keys.len() };
        let ghost ov = vals@;
        proof {
            if !found {
                lemma_count_absent(pre, name@, ok);
            }
        }
        if found {
            let v = vals[e];
            vals.set(e, v + 1);
        } else {
            keys.push(name);
            vals.push(1);
        }
        assert forall|e3: int| 0 <= e3 < vals@.len() implies #[trigger] vals@[e3] == count_named(post, keys@[e3]@) by {
            assert(count_named(post, keys@[e3]@) == count_named(pre, keys@[e3]@) + if debug_of(tokens@[k as int].kind) == keys@[e3]@ { 1nat } else { 0nat });
            if e3 < ok.len() && e3 != e {
                assert(ok[e3]@ != name@);
            }
        }
        assert forall|j: int| 0 <= j < k + 1 implies exists|e2: int| 0 <= e2 < keys@.len() && (#[trigger] keys@[e2])@ == debug_of((#[trigger] tokens@[j]).kind) by {
            if j < k {
                let e2 = choose|e2: int| 0 <= e2 < ok.len() && (#[trigger] ok[e2])@ == debug_of(tokens@[j].kind);
                assert(keys@[e2] == ok[e2]);
            } else {
                assert(keys@[e as int]@ == debug_of(tokens@[j].kind));
            }
        }
        k += 1;
    }
    assert(tokens@.take(tokens@.len() as int) =~= tokens@);
    let mut counts: Vec<(String, usize)> = Vec::new();
    let mut m: usize = 0;
    while m < keys.len()
        invariant
            m <= keys@.len() == vals@.len(),
            counts@.len() == m,
            forall|e: int| 0 <= e < m ==> (#[trigger] counts@[e]).0@ == keys@[e]@ && counts@[e].1 == vals@[e],
        decreases keys@.len() - m,
    {
        counts.push((keys[m].clone(), vals[m]));
        m += 1;
    }
    assert forall|k2: int| 0 <= k2 < tokens@.len() implies exists|e: int| 0 <= e < counts@.len() && (#[trigger] counts@[e]).0@ == debug_of((#[trigger] tokens@[k2]).kind) by {
        let e = choose|e: int| 0 <= e < keys@.len() && (#[trigger] keys@[e])@ == debug_of(tokens@[k2].kind);
        assert(counts@[e].0@ == keys@[e]@);
    }
    assert forall|e1: int, e2: int| 0 <= e1 < e2 < counts@.len() implies (#[trigger] counts@[e1]).0@ != (#[trigger] counts@[e2]).0@ by {
        assert(keys@[e1]@ != keys@[e2]@);
    }
    counts
}

/// Turns Kang source into tokens, gathering the lexer figures.
///
/// On success the stream is the longest-match tokenization of the source
/// (`lex_from`) with its positions, closed by an `Eof` token at the end of
/// the input; `stats` receives the token count, the comment bytes and the
/// count per kind.  On the first character that starts no token the error
/// names the offending text and its position, and `stats` keeps its counts.
pub fn tokenize(source: &str, stats: &mut LexStats) -> (r: Result<Vec<Token>, LexError>)
    requires
        source.spec_bytes().len() < usize::MAX,
    ensures
        match lex_from(source@, 0) {
            LexOutcome::Tokens(toks, cb) => {
                &&& r matches Ok(tokens)
                &&& stream_matches(source@, tokens@, toks)
                &&& final(stats).token_count == tokens@.len()
                &&& final(stats).comment_bytes == cb
                &&& counts_exact(tokens@, final(stats).token_counts_by_kind@)
            },
            LexOutcome::Failed(a, b) => {
                &&& r matches Err(e)
                &&& e.span.start == boff(source@, a)
                &&& e.span.end == boff(source@, b)
                &&& e.line == line_of(source@, a)
                &&& e.col == col_of(source@, a)
                &&& e.msg@ == lex_error_msg(source@.subrange(a as int, b as int))
                &&& final(stats).token_count == old(stats).token_count
                &&& final(stats).comment_bytes == old(stats).comment_bytes
                &&& final(stats).token_counts_by_kind == old(stats).token_counts_by_kind
            },
        },
{
    let start = clock_now();
    let cs = chars_of(source);
    let n = cs.len();
    proof {
        lemma_boff_total(cs@);
        lemma_boff_mono(cs@, 0, n as nat);
    }
    let mut tokens: Vec<Token> = Vec::new();
    let mut i: usize = 0;
    let mut b: usize = 0;
    let mut line: usize = 1;
    let mut col: usize = 1;
    let mut comment_bytes: usize = 0;
    let ghost mut toks: Seq<SpecToken> = Seq::empty();
    assert(toks + Seq::<SpecToken>::empty() =~= toks);
    while i < n
        invariant
            i <= n == cs@.len() < usize::MAX,
            cs@ == source@,
            boff(cs@, n as nat) <= usize::MAX,
            b == boff(cs@, i as nat),
            line == line_of(cs@, i as nat),
            col == col_of(cs@, i as nat),
            comment_bytes <= b,
            tokens@.len() == toks.len(),
            forall|k: int| 0 <= k < toks.len() ==> token_matches(cs@, #[trigger] tokens@[k], toks[k]),
            lex_from(cs@, 0) == join_outcome(toks, comment_bytes as nat, lex_from(cs@, i as nat)),
            *stats == *old(stats),
        decreases n - i,
    {
        proof {
            lemma_step_advances(cs@, i as nat);
            match lex_step(cs@, i as nat) {
                LexStep::Blank(j) => lemma_boff_mono(cs@, i as nat, j),
                LexStep::Comment(j) => lemma_boff_mono(cs@, i as nat, j),
                LexStep::Token(_, j) => lemma_boff_mono(cs@, i as nat, j),
                LexStep::Fail(j) => lemma_boff_mono(cs@, i as nat, j),
            }
        }
        let f = scan_at(&cs, i);
        match f {
            Found::Blank(j) => {
                let p = advance_x(&cs, i, j, line, col, b);
                line = p.0;
                col = p.1;
                b = p.2;
                i = j;
            },
            Found::Comment(j) => {
                let ghost old_i = i;
                let p = advance_x(&cs, i, j, line, col, b);
                proof {
                    lemma_boff_mono(cs@, i as nat, j as nat);
                }
                comment_bytes = comment_bytes + (p.2 - b);
                line = p.0;
                col = p.1;
                b = p.2;
                i = j;
                proof {
                    match lex_from(cs@, j as nat) {
                        LexOutcome::Tokens(ts, c) => {},
                        LexOutcome::Failed(x, y) => {},
                    }
                }
            },
            Found::Token(kind, j) => {
                let ghost st = SpecToken { kind: kind@, start: i as nat, end: j as nat };
                let p = advance_x(&cs, i, j, line, col, b);
                tokens.push(Token { kind, line, col, span: Range { start: b, end: p.2 } });
                proof {
                    match lex_from(cs@, j as nat) {
                        LexOutcome::Tokens(ts, c) => {
                            assert(toks + (seq![st] + ts) =~= toks.push(st) + ts);
                        },
                        LexOutcome::Failed(x, y) => {},
                    }
                    toks = toks.push(st);
                }
                line = p.0;
                col = p.1;
                b = p.2;
                i = j;
            },
            Found::Fail(j) => {
                let p = advance_x(&cs, i, j, line, col, b);
                let mut msg = string_of("无法识别的字符 '");
                push_chars(&mut msg, &cs, i, j);
                push_str(&mut msg, "'");
                assert(lex_from(cs@, i as nat) == LexOutcome::Failed(i as nat, j as nat));
                assert(msg@ == lex_error_msg(cs@.subrange(i as int, j as int)));
                stats.duration_us = micros_since(&start);
                return Err(LexError { msg, line, col, span: Range { start: b, end: p.2 } });
            },
        }
    }
    assert(toks + Seq::<SpecToken>::empty() =~= toks);
    assert(lex_from(cs@, 0) == LexOutcome::Tokens(toks, comment_bytes as nat));
    let ghost before = tokens@;
    tokens.push(Token { kind: TokenKind::Eof, line, col, span: Range { start: b, end: b } });
    assert(forall|k: int| 0 <= k < toks.len() ==> tokens@[k] == before[k]);
    stats.duration_us = micros_since(&start);
    stats.token_count = tokens.len();
    stats.comment_bytes = comment_bytes;
    stats.token_counts_by_kind = count_kinds(&tokens);
    assert(stream_matches(cs@, tokens@, toks));
    Ok(tokens)
}

// ── Laws of the token stream ────────────────────────────────────────────

proof fn lemma_step_kind(cs: Seq<char>, i: nat)
    requires
        i < cs.len(),
    ensures
        lex_step(cs, i) matches LexStep::Token(k, _) ==> k.0 < 47,
{
}

/// The tokens lexed from `i` on lie between `i` and the end, in order,
/// and none is a comment or the end marker.
proof fn lemma_lex_shape(cs: Seq<char>, i: nat, ts: Seq<SpecToken>, cb: nat)
    requires
        i <= cs.len(),
        lex_from(cs, i) == LexOutcome::Tokens(ts, cb),
    ensures
        forall|k: int| 0 <= k < ts.len() ==> i <= (#[trigger] ts[k]).start < ts[k].end <= cs.len(),
        forall|k: int| 0 <= k < ts.len() ==> (#[trigger] ts[k]).kind.0 < 47,
        forall|k: int, l: int| 0 <= k < l < ts.len() ==> (#[trigger] ts[k]).end <= (#[trigger] ts[l]).start,
    decreases cs.len() - i,
{
    if i < cs.len() {
        lemma_step_advances(cs, i);
        lemma_step_kind(cs, i);
        match lex_step(cs, i) {
            LexStep::Blank(j) => lemma_lex_shape(cs, j, ts, cb),
            LexStep::Comment(j) => {
                if let LexOutcome::Tokens(rest, cb2) = lex_from(cs, j) {
                    lemma_lex_shape(cs, j, rest, cb2);
                }
            },
            LexStep::Token(kd, j) => {
                if let LexOutcome::Tokens(rest, cb2) = lex_from(cs, j) {
                    lemma_lex_shape(cs, j, rest, cb2);
                    assert(ts == seq![SpecToken { kind: kd, start: i, end: j }] + rest);
                    assert forall|k: int| 0 < k < ts.len() implies ts[k] == rest[k - 1] by {}
                    assert forall|k: int, l: int| 0 <= k < l < ts.len() implies (#[trigger] ts[k]).end
                        <= (#[trigger] ts[l]).start by {
                        if k > 0 {
                            assert(ts[k] == rest[k - 1] && ts[l] == rest[l - 1]);
                        } else {
                            assert(ts[l] == rest[l - 1]);
                        }
                    }
                }
            },
            LexStep::Fail(_) => {},
        }
    }
}

/// The token stream of a text that lexes: it ends with the one end marker,
/// at the end of the text in bytes; no token before it is an end marker or a
/// comment; each token stands at the line and column of its first
/// character (lines counted by newlines, columns by characters since the
/// last newline); and each token ends before the next one starts.
pub proof fn law_token_stream(cs: Seq<char>, tokens: Seq<Token>, toks: Seq<SpecToken>, cb: nat)
    requires
        lex_from(cs, 0) == LexOutcome::Tokens(toks, cb),
        stream_matches(cs, tokens, toks),
    ensures
        tokens.len() >= 1,
        tokens.last().kind@ == TokenKind::Eof@,
        tokens.last().span.start == encode_utf8(cs).len(),
        tokens.last().span.end == encode_utf8(cs).len(),
        forall|k: int| 0 <= k < tokens.len() - 1 ==> (#[trigger] tokens[k]).kind@ != TokenKind::Eof@ && tokens[k].kind@
            != TokenKind::Comment@,
        forall|k: int| 0 <= k < tokens.len() ==> exists|s: nat| s <= cs.len() && (#[trigger] tokens[k]).span.start
            == boff(cs, s) && tokens[k].line == line_of(cs, s) && tokens[k].col == col_of(cs, s),
        forall|k: int| 0 <= k < tokens.len() - 1 ==> (#[trigger] tokens[k]).span.end <= tokens[k + 1].span.start,
{
    lemma_lex_shape(cs, 0, toks, cb);
    lemma_boff_total(cs);
    let n = toks.len() as int;
    assert forall|k: int| 0 <= k < tokens.len() implies exists|s: nat| s <= cs.len() && (#[trigger] tokens[k]).span.start
        == boff(cs, s) && tokens[k].line == line_of(cs, s) && tokens[k].col == col_of(cs, s) by {
        if k < n {
            assert(token_matches(cs, tokens[k], toks[k]));
            let s = toks[k].start;
            assert(s <= cs.len());
        } else {
            let s = cs.len();
            assert(tokens[k].span.start == boff(cs, s));
        }
    }
    assert forall|k: int| 0 <= k < tokens.len() - 1 implies (#[trigger] tokens[k]).span.end <= tokens[k + 1].span.start by {
        assert(token_matches(cs, tokens[k], toks[k]));
        if k + 1 < n {
            assert(token_matches(cs, tokens[k + 1], toks[k + 1]));
            assert(toks[k].end <= toks[k + 1].start);
            lemma_boff_mono(cs, toks[k].end, toks[k + 1].start);
        } else {
            lemma_boff_mono(cs, toks[k].end, cs.len());
        }
    }
    assert forall|k: int| 0 <= k < tokens.len() - 1 implies (#[trigger] tokens[k]).kind@ != TokenKind::Eof@
        && tokens[k].kind@ != TokenKind::Comment@ by {
        assert(token_matches(cs, tokens[k], toks[k]));
        assert(toks[k].kind.0 < 47);
    }
}

/// The sum of the figures of a count by kind.
pub open spec fn count_total(counts: Seq<(String, usize)>) -> nat
    decreases counts.len(),
{
    if counts.len() == 0 {
        0
    } else {
        count_total(counts.drop_last()) + counts.last().1 as nat
    }
}

spec fn sum_named(ts: Seq<Token>, keys: Seq<Seq<char>>) -> nat
    decreases keys.len(),
{
    if keys.len() == 0 {
        0
    } else {
        sum_named(ts, keys.drop_last()) + count_named(ts, keys.last())
    }
}

spec fn hits(keys: Seq<Seq<char>>, x: Seq<char>) -> nat
    decreases keys.len(),
{
    if keys.len() == 0 {
        0
    } else {
        hits(keys.drop_last(), x) + if keys.last() == x { 1nat } else { 0nat }
    }
}

proof fn lemma_sum_named_last(ts: Seq<Token>, keys: Seq<Seq<char>>)
    requires
        ts.len() > 0,
    ensures
        sum_named(ts, keys) == sum_named(ts.drop_last(), keys) + hits(keys, debug_of(ts.last().kind)),
    decreases keys.len(),
{
    if keys.len() > 0 {
        lemma_sum_named_last(ts, keys.drop_last());
    }
}

proof fn lemma_hits_distinct(keys: Seq<Seq<char>>, x: Seq<char>)
    requires
        forall|a: int, b: int| 0 <= a < b < keys.len() ==> keys[a] != keys[b],
    ensures
        hits(keys, x) == if keys.contains(x) { 1nat } else { 0nat },
    decreases keys.len(),
{
    if keys.len() > 0 {
        let d = keys.drop_last();
        lemma_hits_distinct(d, x);
        if keys.last() == x {
            if d.contains(x) {
                let a = choose|a: int| 0 <= a < d.len() && d[a] == x;
                assert(keys[a] == keys[keys.len() - 1]);
            }
        } else {
            if keys.contains(x) {
                let a = choose|a: int| 0 <= a < keys.len() && keys[a] == x;
                assert(d[a] == x);
            }
        }
    }
}

proof fn lemma_sum_named_total(ts: Seq<Token>, keys: Seq<Seq<char>>)
    requires
        forall|a: int, b: int| 0 <= a < b < keys.len() ==> keys[a] != keys[b],
        forall|k: int| 0 <= k < ts.len() ==> keys.contains(debug_of((#[trigger] ts[k]).kind)),
    ensures
        sum_named(ts, keys) == ts.len(),
    decreases ts.len(),
{
    if ts.len() == 0 {
        lemma_sum_empty(keys);
        assert(ts =~= Seq::<Token>::empty());
    } else {
        let d = ts.drop_last();
        assert forall|k: int| 0 <= k < d.len() implies keys.contains(debug_of((#[trigger] d[k]).kind)) by {
            assert(d[k] == ts[k]);
        }
        lemma_sum_named_total(d, keys);
        lemma_sum_named_last(ts, keys);
        lemma_hits_distinct(keys, debug_of(ts.last().kind));
        assert(keys.contains(debug_of(ts[ts.len() - 1].kind)));
    }
}

proof fn lemma_sum_empty(keys: Seq<Seq<char>>)
    ensures
        sum_named(Seq::<Token>::empty(), keys) == 0,
    decreases keys.len(),
{
    if keys.len() > 0 {
        lemma_sum_empty(keys.drop_last());
    }
}

proof fn lemma_total_is_sum(ts: Seq<Token>, counts: Seq<(String, usize)>)
    requires
        forall|e: int| 0 <= e < counts.len() ==> #[trigger] counts[e].1 == count_named(ts, counts[e].0@),
    ensures
        count_total(counts) == sum_named(ts, Seq::new(counts.len(), |e: int| counts[e].0@)),
    decreases counts.len(),
{
    if counts.len() > 0 {
        let d = counts.drop_last();
        assert forall|e: int| 0 <= e < d.len() implies #[trigger] d[e].1 == count_named(ts, d[e].0@) by {
            assert(d[e] == counts[e]);
        }
        lemma_total_is_sum(ts, d);
        let ks = Seq::new(counts.len(), |e: int| counts[e].0@);
        assert(ks.drop_last() =~= Seq::new(d.len(), |e: int| d[e].0@));
        assert(counts.last().1 == count_named(ts, counts[counts.len() - 1].0@));
    }
}

/// The figures of a count by kind add up to the number of tokens.
pub proof fn law_counts_add_up(ts: Seq<Token>, counts: Seq<(String, usize)>)
    requires
        counts_exact(ts, counts),
    ensures
        count_total(counts) == ts.len(),
{
    let ks = Seq::new(counts.len(), |e: int| counts[e].0@);
    lemma_total_is_sum(ts, counts);
    assert forall|k: int| 0 <= k < ts.len() implies ks.contains(debug_of((#[trigger] ts[k]).kind)) by {
        let e = choose|e: int| 0 <= e < counts.len() && (#[trigger] counts[e]).0@ == debug_of(ts[k].kind);
        assert(ks[e] == debug_of(ts[k].kind));
    }
    assert forall|a: int, b: int| 0 <= a < b < ks.len() implies ks[a] != ks[b] by {
        assert(counts[a].0@ != counts[b].0@);
    }
    lemma_sum_named_total(ts, ks);
}

/// How many characters of `cs` follow its last line feed (all of them
/// when there is none).
pub open spec fn after_last_newline(cs: Seq<char>) -> nat
    decreases cs.len(),
{
    if cs.len() == 0 {
        0
    } else if cs.last() == '\n' {
        0
    } else {
        after_last_newline(cs.drop_last()) + 1
    }
}

/// The line of character index `s` is one more than the line feeds before
/// it; its column is one more than the characters since the last of them.
pub proof fn lemma_line_col_closed(cs: Seq<char>, s: nat)
    requires
        s <= cs.len(),
    ensures
        line_of(cs, s) == 1 + crate::text::newline_count(cs.take(s as int)),
        col_of(cs, s) == 1 + after_last_newline(cs.take(s as int)),
    decreases s,
{
    if s > 0 {
        lemma_line_col_closed(cs, (s - 1) as nat);
        assert(cs.take(s as int).drop_last() =~= cs.take(s - 1));
        assert(cs.take(s as int).last() == cs[s - 1]);
    } else {
        assert(cs.take(0) =~= Seq::<char>::empty());
    }
}

/// The characters `i .. j` of `cs` are all blanks: spaces, tabs, carriage
/// returns or newlines.
pub open spec fn only_blanks(cs: Seq<char>, i: nat, j: nat) -> bool {
    forall|k: int| i <= k < j ==> cs[k] == ' ' || cs[k] == '\t' || cs[k] == '\r' || cs[k] == '\n'
}

/// Blanks (space, tab, carriage return, newline) between tokens are
/// skipped: lexing from the start of a run of blanks gives what lexing from
/// its end gives, so a text of blanks alone has no tokens; no other
/// character is skipped as a blank.
pub proof fn law_blanks_are_skipped(cs: Seq<char>, i: nat, j: nat)
    requires
        i <= j <= cs.len(),
        only_blanks(cs, i, j),
    ensures
        lex_from(cs, i) == lex_from(cs, j),
        j == cs.len() ==> lex_from(cs, i) == LexOutcome::Tokens(Seq::empty(), 0),
        j < cs.len() && !only_blanks(cs, j, j + 1) ==> !(lex_step(cs, j) is Blank),
    decreases j - i,
{
    if i < j {
        assert(is_space(cs[i as int]));
        assert(lex_step(cs, i) == LexStep::Blank(i + 1));
        assert(only_blanks(cs, i + 1, j));
        law_blanks_are_skipped(cs, i + 1, j);
    }
}

} // verus!
