//! Error values of every stage, and their one-line descriptions.

use std::ops::Range;
use vstd::prelude::*;
use crate::text::{debug_quoted, debug_str, decimal, push_decimal, push_str, string_of};

verus! {

/// The error a run of the pipeline stops with: the first error of the stage
/// that failed.
#[derive(Debug, Clone)]
pub enum KangError {
    Lex(LexError),
    Parse(ParseError),
    Semantic(SemanticError),
    CodeGen(CodeGenError),
}

/// An input character that starts no token.
#[derive(Debug, Clone)]
pub struct LexError {
    pub msg: String,
    pub line: usize,
    pub col: usize,
    pub span: Range<usize>,
}

/// A syntax error; `is_incomplete` marks an error found at the end of the
/// input, which the REPL answers by reading another line.
#[derive(Debug, Clone)]
pub struct ParseError {
    pub msg: String,
    pub line: usize,
    pub col: usize,
    pub span: Range<usize>,
    pub is_incomplete: bool,
}

/// A violation of one of the semantic rules.
#[derive(Debug, Clone)]
pub struct SemanticError {
    pub msg: String,
    pub line: usize,
    pub col: usize,
    pub span: Range<usize>,
}

/// A failure while producing machine code.
#[derive(Debug, Clone)]
pub struct CodeGenError {
    pub msg: String,
}

/// `prefix` + `msg` + " at " + line + ":" + col.
pub open spec fn located(prefix: Seq<char>, msg: Seq<char>, line: usize, col: usize) -> Seq<char> {
    prefix + msg + " at "@ + decimal(line as nat) + ":"@ + decimal(col as nat)
}

/// The one-line description of an error.
pub open spec fn describe_spec(e: KangError) -> Seq<char> {
    match e {
        KangError::Lex(x) => located("词法错误: "@, x.msg@, x.line, x.col),
        KangError::Parse(x) => located("语法错误: "@, x.msg@, x.line, x.col),
        KangError::Semantic(x) => located("语义错误: "@, x.msg@, x.line, x.col),
        KangError::CodeGen(x) => "代码生成错误: "@ + x.msg@,
    }
}

fn located_text(prefix: &str, msg: &String, line: usize, col: usize) -> (r: String)
    ensures
        r@ == located(prefix@, msg@, line, col),
{
    let mut s = string_of(prefix);
    push_str(&mut s, msg.as_str());
    push_str(&mut s, " at ");
    push_decimal(&mut s, line);
    push_str(&mut s, ":");
    push_decimal(&mut s, col);
    s
}

impl KangError {
    /// The text the CLI prints for this error (its `Display` form).
    pub fn describe(&self) -> (r: String)
        ensures
            r@ == describe_spec(*self),
    {
        match self {
            KangError::Lex(x) => located_text("词法错误: ", &x.msg, x.line, x.col),
            KangError::Parse(x) => located_text("语法错误: ", &x.msg, x.line, x.col),
            KangError::Semantic(x) => located_text("语义错误: ", &x.msg, x.line, x.col),
            KangError::CodeGen(x) => {
                let mut s = string_of("代码生成错误: ");
                push_str(&mut s, x.msg.as_str());
                s
            },
        }
    }
}

/// What `{:?}` prints for a lexical error with these fields.
pub open spec fn lex_debug(msg: Seq<char>, line: nat, col: nat, start: nat, end: nat) -> Seq<char> {
    "LexError { msg: "@ + debug_str(msg) + ", line: "@ + decimal(line) + ", col: "@ + decimal(col)
        + ", span: "@ + decimal(start) + ".."@ + decimal(end) + " }"@
}

/// What `{:?}` prints for a syntax error with these fields.
pub open spec fn parse_debug(msg: Seq<char>, line: usize, col: usize, start: usize, end: usize, inc: bool) -> Seq<char> {
    "ParseError { msg: "@ + debug_str(msg) + ", line: "@ + decimal(line as nat) + ", col: "@ + decimal(col as nat)
        + ", span: "@ + decimal(start as nat) + ".."@ + decimal(end as nat) + ", is_incomplete: "@
        + (if inc { "true"@ } else { "false"@ }) + " }"@
}

/// `a` + `{:?}` of `msg` + ", line: " + line + ", col: " + col + ", span: " + start + ".." + end.
fn debug_fields(a: &str, msg: &String, line: usize, col: usize, span: &Range<usize>) -> (r: String)
    ensures
        r@ == a@ + debug_str(msg@) + ", line: "@ + decimal(line as nat) + ", col: "@ + decimal(col as nat)
            + ", span: "@ + decimal(span.start as nat) + ".."@ + decimal(span.end as nat),
{
    let mut s = string_of(a);
    let q = debug_quoted(msg.as_str());
    push_str(&mut s, q.as_str());
    push_str(&mut s, ", line: ");
    push_decimal(&mut s, line);
    push_str(&mut s, ", col: ");
    push_decimal(&mut s, col);
    push_str(&mut s, ", span: ");
    push_decimal(&mut s, span.start);
    push_str(&mut s, "..");
    push_decimal(&mut s, span.end);
    s
}

impl LexError {
    /// The error as `{:?}` prints it.
    pub fn debug_text(&self) -> (r: String)
        ensures
            r@ == lex_debug(self.msg@, self.line as nat, self.col as nat, self.span.start as nat, self.span.end as nat),
    {
        let mut s = debug_fields("LexError { msg: ", &self.msg, self.line, self.col, &self.span);
        push_str(&mut s, " }");
        s
    }
}

impl ParseError {
    /// The error as `{:?}` prints it.
    pub fn debug_text(&self) -> (r: String)
        ensures
            r@ == parse_debug(self.msg@, self.line, self.col, self.span.start, self.span.end, self.is_incomplete),
    {
        let mut s = debug_fields("ParseError { msg: ", &self.msg, self.line, self.col, &self.span);
        push_str(&mut s, ", is_incomplete: ");
        if self.is_incomplete {
            push_str(&mut s, "true");
        } else {
            push_str(&mut s, "false");
        }
        push_str(&mut s, " }");
        s
    }
}

} // verus!
