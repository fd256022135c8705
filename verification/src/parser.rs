//! Parser: recursive descent (LL(1)) from a token stream to the syntax tree.
//!
//! The grammar is written out below as spec functions (`p_*`), one per
//! nonterminal, each taking the token stream and a position and giving the
//! node read there and the position after it, or the position and message of
//! the first error.  Every executable `parse_*` function is proved to compute
//! exactly its spec function.  Positions are token indices; a node's span is
//! the span of the token that follows it.  A stream is well formed when it
//! ends in the `Eof` token, as the lexer's streams do.

use std::ops::Range;
use vstd::prelude::*;
use crate::ast::{ev as ev_of, sv as sv_of,
    evf, evs, lemma_evs, lemma_svs, span_v, svs, vbs, BaseType, BaseTypeV, BinOp, Expr, ExprV, LValue,
    LValueV, ReturnType, ReturnTypeV, SpanV, Stmt, StmtV, Type, TypeV, UnaryOp, VarBinding,
    VarBindingV, StructDef, StructDefV, FuncDef, FuncDefV, ImportStmt, ImportV, TopLevel, TopLevelV,
    Program, typed_names, lemma_evf, lemma_evs_take, lemma_svs_take, lemma_evf_take,
};
use crate::error::ParseError;
use crate::stats::{clock_now, micros_since, ParseStats};
use crate::lexer::{debug_of, lemma_eof_tag, Token, TokenKind};
use crate::text::{decimal, push_decimal, push_str, string_of};

verus! {

/// Default bound on the nesting of expressions and blocks.
pub const DEFAULT_MAX_DEPTH: usize = 256;

/// Default bound on the length of a token stream.
pub const DEFAULT_MAX_TOKENS: usize = 1_000_000;

/// The outcome of reading one nonterminal: the value and the position after
/// it, or the position of the offending token, the message, and whether the
/// error is one of running out of input.
pub enum PR<T> {
    Read(T, nat),
    Fail(nat, Seq<char>, bool),
}

/// The stream ends in the `Eof` token (and, as any stream in memory, its
/// length fits a `usize`).
pub open spec fn wf(ts: Seq<Token>) -> bool {
    0 < ts.len() <= usize::MAX && ts.last().kind is Eof
}

/// The end marker that stands in for an empty stream: at no position.
pub open spec fn eof_sentinel() -> Token {
    Token { kind: TokenKind::Eof, line: 0, col: 0, span: Range { start: 0, end: 0 } }
}

/// The stream the parser reads: an empty one is read as the lone end marker.
pub open spec fn read_stream(ts: Seq<Token>) -> Seq<Token> {
    if ts.len() == 0 {
        seq![eof_sentinel()]
    } else {
        ts
    }
}

/// A stream the parser takes: the lexer's, closed by its end marker, or an
/// empty one.
pub open spec fn accepted(ts: Seq<Token>) -> bool {
    ts.len() == 0 || wf(ts)
}

/// The lone end marker, for an empty stream.
fn sentinel_stream() -> (r: Vec<Token>)
    ensures
        r@ == seq![eof_sentinel()],
        wf(r@),
{
    let mut v: Vec<Token> = Vec::new();
    v.push(Token { kind: TokenKind::Eof, line: 0, col: 0, span: Range { start: 0, end: 0 } });
    proof {
        crate::lexer::lemma_eof_tag(TokenKind::Eof);
    }
    assert(v@ =~= seq![eof_sentinel()]);
    v
}

/// A stream the lexer produced is one the parser takes.
pub proof fn lemma_stream_wf(cs: Seq<char>, tokens: Seq<Token>, toks: Seq<crate::lexer::SpecToken>)
    requires
        crate::lexer::stream_matches(cs, tokens, toks),
        tokens.len() <= usize::MAX,
    ensures
        wf(tokens),
{
    crate::lexer::lemma_eof_tag(tokens.last().kind);
    crate::lexer::lemma_eof_tag(TokenKind::Eof);
}

/// The kind of the token at `p` (`Eof` past the end).
pub open spec fn kind(ts: Seq<Token>, p: nat) -> TokenKind {
    if p < ts.len() {
        ts[p as int].kind
    } else {
        TokenKind::Eof
    }
}

pub open spec fn at_kind(ts: Seq<Token>, p: nat, k: TokenKind) -> bool {
    kind(ts, p)@ == k@
}

/// The span of the token at `p`, which is what a node ending before `p` carries.
pub open spec fn sp(ts: Seq<Token>, p: nat) -> SpanV {
    if p < ts.len() {
        span_v(ts[p as int].span)
    } else {
        (0, 0)
    }
}

/// An error at the token at `p`.
pub open spec fn err_here<T>(ts: Seq<Token>, p: nat, msg: Seq<char>) -> PR<T> {
    PR::Fail(p, msg, kind(ts, p) is Eof)
}

pub open spec fn got(ts: Seq<Token>, p: nat) -> Seq<char> {
    "，但得到 "@ + debug_of(kind(ts, p))
}

pub open spec fn expect_msg(ts: Seq<Token>, p: nat, k: TokenKind) -> Seq<char> {
    "期望 "@ + debug_of(k) + got(ts, p)
}

pub open spec fn depth_msg(ctx: Seq<char>, lim: nat) -> Seq<char> {
    ctx + " 嵌套深度超过限制 "@ + decimal(lim)
}

pub open spec fn lvalue_msg() -> Seq<char> {
    "赋值左侧必须是变量、索引或字段访问，但得到表达式"@
}

/// The exec error `e` is the error `(at, msg, inc)` of the stream `ts`.
pub open spec fn err_matches(ts: Seq<Token>, e: ParseError, at: nat, msg: Seq<char>, inc: bool) -> bool {
    &&& at < ts.len()
    &&& e.msg@ == msg
    &&& e.line == ts[at as int].line
    &&& e.col == ts[at as int].col
    &&& span_v(e.span) == span_v(ts[at as int].span)
    &&& e.is_incomplete == inc
}

/// The exec result `r` is the outcome `s`, the value seen through `f`.
pub open spec fn res<T, V>(ts: Seq<Token>, r: Result<(T, usize), ParseError>, s: PR<V>, f: spec_fn(T) -> V) -> bool {
    match s {
        PR::Read(v, q) => r matches Ok(x) && f(x.0) == v && x.1 == q,
        PR::Fail(at, msg, inc) => r matches Err(e) && err_matches(ts, e, at, msg, inc),
    }
}

/// A successful read moved forward and stayed inside the stream.
pub open spec fn moved<T>(ts: Seq<Token>, r: Result<(T, usize), ParseError>, p: nat) -> bool {
    r matches Ok(x) ==> p < x.1 < ts.len()
}

/// Like `moved`, for reads that may take no token.
pub open spec fn stayed<T>(ts: Seq<Token>, r: Result<(T, usize), ParseError>, p: nat) -> bool {
    r matches Ok(x) ==> p <= x.1 < ts.len()
}

// ── The grammar: types ──────────────────────────────────────────────────

/// `tok`
pub open spec fn p_expect(ts: Seq<Token>, p: nat, k: TokenKind) -> PR<()> {
    if at_kind(ts, p, k) {
        PR::Read((), p + 1)
    } else {
        err_here(ts, p, expect_msg(ts, p, k))
    }
}

/// IDENT
pub open spec fn p_ident(ts: Seq<Token>, p: nat) -> PR<Seq<char>> {
    match kind(ts, p) {
        TokenKind::Ident(n) => PR::Read(n@, p + 1),
        _ => err_here(ts, p, "期望标识符"@ + got(ts, p)),
    }
}

/// BaseType = "i32" | "f64" | "str" | "bool" | "void" | IDENT [ "." IDENT ]
pub open spec fn p_base(ts: Seq<Token>, p: nat) -> PR<BaseTypeV> {
    match kind(ts, p) {
        TokenKind::TI32 => PR::Read(BaseTypeV::I32, p + 1),
        TokenKind::TF64 => PR::Read(BaseTypeV::F64, p + 1),
        TokenKind::TStr => PR::Read(BaseTypeV::Str, p + 1),
        TokenKind::TBool => PR::Read(BaseTypeV::Bool, p + 1),
        TokenKind::TVoid => PR::Read(BaseTypeV::Void, p + 1),
        TokenKind::Ident(n) => if at_kind(ts, p + 1, TokenKind::Dot) {
            match p_ident(ts, p + 2) {
                PR::Read(s, q) => PR::Read(BaseTypeV::UserDef(n@ + "."@ + s), q),
                PR::Fail(a, m, i) => PR::Fail(a, m, i),
            }
        } else {
            PR::Read(BaseTypeV::UserDef(n@), p + 1)
        },
        _ => err_here(ts, p, "期望类型"@ + got(ts, p)),
    }
}

/// Type = BaseType | "[" BaseType "]"
pub open spec fn p_type(ts: Seq<Token>, p: nat) -> PR<TypeV> {
    if at_kind(ts, p, TokenKind::LBracket) {
        match p_base(ts, p + 1) {
            PR::Read(b, q) => match p_expect(ts, q, TokenKind::RBracket) {
                PR::Read(_, q2) => PR::Read(TypeV::Array(b), q2),
                PR::Fail(a, m, i) => PR::Fail(a, m, i),
            },
            PR::Fail(a, m, i) => PR::Fail(a, m, i),
        }
    } else {
        match p_base(ts, p) {
            PR::Read(b, q) => PR::Read(TypeV::Base(b), q),
            PR::Fail(a, m, i) => PR::Fail(a, m, i),
        }
    }
}

/// ReturnType = Type | "(" Type "," Type ")"
pub open spec fn p_ret(ts: Seq<Token>, p: nat) -> PR<ReturnTypeV> {
    if at_kind(ts, p, TokenKind::LParen) {
        match p_type(ts, p + 1) {
            PR::Read(t1, q1) => match p_expect(ts, q1, TokenKind::Comma) {
                PR::Read(_, q2) => match p_type(ts, q2) {
                    PR::Read(t2, q3) => match p_expect(ts, q3, TokenKind::RParen) {
                        PR::Read(_, q4) => PR::Read(ReturnTypeV::Pair(t1, t2), q4),
                        PR::Fail(a, m, i) => PR::Fail(a, m, i),
                    },
                    PR::Fail(a, m, i) => PR::Fail(a, m, i),
                },
                PR::Fail(a, m, i) => PR::Fail(a, m, i),
            },
            PR::Fail(a, m, i) => PR::Fail(a, m, i),
        }
    } else {
        match p_type(ts, p) {
            PR::Read(t, q) => PR::Read(ReturnTypeV::Single(t), q),
            PR::Fail(a, m, i) => PR::Fail(a, m, i),
        }
    }
}

// ── The grammar: expressions ────────────────────────────────────────────
//
// Binary operators come in six levels, loosest first: `||`, `&&`,
// `== !=`, `< <= > >=`, `+ -`, `* /`; each level is left associative.

/// The operator of precedence level `level` (1 to 6) that the kind `k` spells.
pub open spec fn level_op(level: nat, k: TokenKind) -> Option<BinOp> {
    if level == 1 {
        match k {
            TokenKind::OrOr => Some(BinOp::Or),
            _ => None,
        }
    } else if level == 2 {
        match k {
            TokenKind::AndAnd => Some(BinOp::And),
            _ => None,
        }
    } else if level == 3 {
        match k {
            TokenKind::EqEq => Some(BinOp::Eq),
            TokenKind::Neq => Some(BinOp::Neq),
            _ => None,
        }
    } else if level == 4 {
        match k {
            TokenKind::Lt => Some(BinOp::Lt),
            TokenKind::Le => Some(BinOp::Le),
            TokenKind::Gt => Some(BinOp::Gt),
            TokenKind::Ge => Some(BinOp::Ge),
            _ => None,
        }
    } else if level == 5 {
        match k {
            TokenKind::Plus => Some(BinOp::Add),
            TokenKind::Minus => Some(BinOp::Sub),
            _ => None,
        }
    } else if level == 6 {
        match k {
            TokenKind::Star => Some(BinOp::Mul),
            TokenKind::Slash => Some(BinOp::Div),
            _ => None,
        }
    } else {
        None
    }
}

/// Expr = OrExpr, one level deeper than the enclosing expression.
pub open spec fn p_expr(ts: Seq<Token>, lim: nat, d: nat, p: nat) -> PR<ExprV>
    decreases ts.len() - p, 13nat,
{
    if p >= ts.len() {
        err_here(ts, p, Seq::empty())
    } else if d + 1 > lim {
        err_here(ts, p, depth_msg("表达式"@, lim))
    } else {
        p_bin(ts, lim, d + 1, 1, p)
    }
}

/// Level `level` (1 to 6) of the binary operators: operands of the next
/// level, joined from the left.
pub open spec fn p_bin(ts: Seq<Token>, lim: nat, d: nat, level: nat, p: nat) -> PR<ExprV>
    decreases ts.len() - p, 13 - level,
{
    if p >= ts.len() || level > 6 {
        err_here(ts, p, Seq::empty())
    } else {
        let first = if level == 6 {
            p_unary(ts, lim, d, p)
        } else {
            p_bin(ts, lim, d, level + 1, p)
        };
        match first {
            PR::Read(l, q) => if p < q < ts.len() {
                bin_tail(ts, lim, d, level, l, q)
            } else {
                PR::Read(l, q)
            },
            PR::Fail(a, m, i) => PR::Fail(a, m, i),
        }
    }
}

/// `{ op operand }` after the left operand `l` of level `level`.
pub open spec fn bin_tail(ts: Seq<Token>, lim: nat, d: nat, level: nat, l: ExprV, q: nat) -> PR<ExprV>
    decreases ts.len() - q, 0nat,
{
    if q >= ts.len() || level < 1 || level > 6 {
        PR::Read(l, q)
    } else {
        match level_op(level, kind(ts, q)) {
            Some(op) => {
                let right = if level == 6 {
                    p_unary(ts, lim, d, q + 1)
                } else {
                    p_bin(ts, lim, d, level + 1, q + 1)
                };
                match right {
                    PR::Read(r, q2) => if q < q2 < ts.len() {
                        bin_tail(ts, lim, d, level, ExprV::Binary(Box::new(l), op, Box::new(r), sp(ts, q2)), q2)
                    } else {
                        PR::Read(l, q)
                    },
                    PR::Fail(a, m, i) => PR::Fail(a, m, i),
                }
            },
            None => PR::Read(l, q),
        }
    }
}

/// UnaryExpr = ("-" | "!") UnaryExpr | PostfixExpr
pub open spec fn p_unary(ts: Seq<Token>, lim: nat, d: nat, p: nat) -> PR<ExprV>
    decreases ts.len() - p, 6nat,
{
    if p >= ts.len() {
        err_here(ts, p, Seq::empty())
    } else if at_kind(ts, p, TokenKind::Minus) || at_kind(ts, p, TokenKind::Bang) {
        let op = if at_kind(ts, p, TokenKind::Minus) { UnaryOp::Neg } else { UnaryOp::Not };
        match p_unary(ts, lim, d, p + 1) {
            PR::Read(e, q) => PR::Read(ExprV::Unary(op, Box::new(e), sp(ts, q)), q),
            PR::Fail(a, m, i) => PR::Fail(a, m, i),
        }
    } else {
        match p_primary(ts, lim, d, p) {
            PR::Read(e, q) => if p < q < ts.len() {
                postfix_tail(ts, lim, d, e, q)
            } else {
                PR::Read(e, q)
            },
            PR::Fail(a, m, i) => PR::Fail(a, m, i),
        }
    }
}

/// `{ "(" [Args] ")" | "[" Expr "]" | "." IDENT }` after the operand `e`.
pub open spec fn postfix_tail(ts: Seq<Token>, lim: nat, d: nat, e: ExprV, q: nat) -> PR<ExprV>
    decreases ts.len() - q, 0nat,
{
    if q >= ts.len() {
        PR::Read(e, q)
    } else {
        match kind(ts, q) {
            TokenKind::LParen => match p_args(ts, lim, d, q + 1) {
                PR::Read(args, q2) => match p_expect(ts, q2, TokenKind::RParen) {
                    PR::Read(_, q3) => if q < q3 < ts.len() {
                        postfix_tail(ts, lim, d, ExprV::Call(Box::new(e), args, sp(ts, q3)), q3)
                    } else {
                        PR::Read(e, q)
                    },
                    PR::Fail(a, m, i) => PR::Fail(a, m, i),
                },
                PR::Fail(a, m, i) => PR::Fail(a, m, i),
            },
            TokenKind::LBracket => match p_expr(ts, lim, d, q + 1) {
                PR::Read(ix, q2) => match p_expect(ts, q2, TokenKind::RBracket) {
                    PR::Read(_, q3) => if q < q3 < ts.len() {
                        postfix_tail(ts, lim, d, ExprV::Index(Box::new(e), Box::new(ix), sp(ts, q3)), q3)
                    } else {
                        PR::Read(e, q)
                    },
                    PR::Fail(a, m, i) => PR::Fail(a, m, i),
                },
                PR::Fail(a, m, i) => PR::Fail(a, m, i),
            },
            TokenKind::Dot => match p_ident(ts, q + 1) {
                PR::Read(f, q2) => if q < q2 < ts.len() {
                    postfix_tail(ts, lim, d, ExprV::Field(Box::new(e), f, sp(ts, q2)), q2)
                } else {
                    PR::Read(e, q)
                },
                PR::Fail(a, m, i) => PR::Fail(a, m, i),
            },
            _ => PR::Read(e, q),
        }
    }
}

/// The name a type keyword stands for when it starts an expression.
pub open spec fn keyword_name(k: TokenKind) -> Option<Seq<char>> {
    match k {
        TokenKind::TI32 => Some("i32"@),
        TokenKind::TF64 => Some("f64"@),
        TokenKind::TStr => Some("str"@),
        TokenKind::TBool => Some("bool"@),
        _ => None,
    }
}

/// Primary = INT_LIT | FLOAT_LIT | STR_LIT | "true" | "false" | "[" [Args] "]"
///         | "(" Expr ")" | IDENT [ "." IDENT ] StructTail | IDENT
///         | ("i32" | "f64" | "str" | "bool") [ StructTail ]
pub open spec fn p_primary(ts: Seq<Token>, lim: nat, d: nat, p: nat) -> PR<ExprV>
    decreases ts.len() - p, 5nat,
{
    if p >= ts.len() {
        err_here(ts, p, Seq::empty())
    } else {
        match kind(ts, p) {
            TokenKind::IntLit(v) => PR::Read(ExprV::IntLit(v@, sp(ts, p)), p + 1),
            TokenKind::FloatLit(v) => PR::Read(ExprV::FloatLit(v@, sp(ts, p)), p + 1),
            TokenKind::StrLit(v) => PR::Read(ExprV::StrLit(v@, sp(ts, p)), p + 1),
            TokenKind::True => PR::Read(ExprV::BoolLit(true, sp(ts, p)), p + 1),
            TokenKind::False => PR::Read(ExprV::BoolLit(false, sp(ts, p)), p + 1),
            TokenKind::Ident(n) => if at_kind(ts, p + 1, TokenKind::Dot) && kind(ts, p + 2) is Ident && at_kind(
                ts,
                p + 3,
                TokenKind::LBrace,
            ) {
                p_struct_tail(ts, lim, d, n@ + "."@ + kind(ts, p + 2)->Ident_0@, p + 3)
            } else if at_kind(ts, p + 1, TokenKind::LBrace) {
                p_struct_tail(ts, lim, d, n@, p + 1)
            } else {
                PR::Read(ExprV::Ident(n@, sp(ts, p)), p + 1)
            },
            TokenKind::LBracket => match p_args(ts, lim, d, p + 1) {
                PR::Read(elems, q) => match p_expect(ts, q, TokenKind::RBracket) {
                    PR::Read(_, q2) => PR::Read(ExprV::ArrayLit(elems, sp(ts, q2)), q2),
                    PR::Fail(a, m, i) => PR::Fail(a, m, i),
                },
                PR::Fail(a, m, i) => PR::Fail(a, m, i),
            },
            TokenKind::LParen => match p_expr(ts, lim, d, p + 1) {
                PR::Read(e, q) => match p_expect(ts, q, TokenKind::RParen) {
                    PR::Read(_, q2) => PR::Read(e, q2),
                    PR::Fail(a, m, i) => PR::Fail(a, m, i),
                },
                PR::Fail(a, m, i) => PR::Fail(a, m, i),
            },
            k => match keyword_name(k) {
                Some(name) => if at_kind(ts, p + 1, TokenKind::LBrace) {
                    p_struct_tail(ts, lim, d, name, p + 1)
                } else {
                    PR::Read(ExprV::Ident(name, sp(ts, p)), p + 1)
                },
                None => err_here(ts, p, "表达式开头有未预期的 token: "@ + debug_of(k)),
            },
        }
    }
}

/// StructTail = "{" [ FieldInit { "," FieldInit } ] "}", for the struct `name`.
pub open spec fn p_struct_tail(ts: Seq<Token>, lim: nat, d: nat, name: Seq<char>, p: nat) -> PR<ExprV>
    decreases ts.len() - p, 4nat,
{
    if p >= ts.len() {
        err_here(ts, p, Seq::empty())
    } else {
        match p_expect(ts, p, TokenKind::LBrace) {
            PR::Read(_, q) => {
                let fs = if at_kind(ts, q, TokenKind::RBrace) {
                    PR::Read(Seq::empty(), q)
                } else if q > p {
                    p_field_inits(ts, lim, d, q)
                } else {
                    err_here(ts, q, Seq::empty())
                };
                match fs {
                    PR::Read(fields, q2) => match p_expect(ts, q2, TokenKind::RBrace) {
                        PR::Read(_, q3) => PR::Read(ExprV::StructLit(name, fields, sp(ts, q3)), q3),
                        PR::Fail(a, m, i) => PR::Fail(a, m, i),
                    },
                    PR::Fail(a, m, i) => PR::Fail(a, m, i),
                }
            },
            PR::Fail(a, m, i) => PR::Fail(a, m, i),
        }
    }
}

/// FieldInit = IDENT ":" Expr
pub open spec fn p_field_init(ts: Seq<Token>, lim: nat, d: nat, p: nat) -> PR<(Seq<char>, ExprV)>
    decreases ts.len() - p, 3nat,
{
    if p >= ts.len() {
        err_here(ts, p, Seq::empty())
    } else {
        match p_ident(ts, p) {
            PR::Read(n, q) => match p_expect(ts, q, TokenKind::Colon) {
                PR::Read(_, q2) => if q2 > p {
                    match p_expr(ts, lim, d, q2) {
                        PR::Read(v, q3) => PR::Read((n, v), q3),
                        PR::Fail(a, m, i) => PR::Fail(a, m, i),
                    }
                } else {
                    err_here(ts, q2, Seq::empty())
                },
                PR::Fail(a, m, i) => PR::Fail(a, m, i),
            },
            PR::Fail(a, m, i) => PR::Fail(a, m, i),
        }
    }
}

/// FieldInit { "," FieldInit }
pub open spec fn p_field_inits(ts: Seq<Token>, lim: nat, d: nat, p: nat) -> PR<Seq<(Seq<char>, ExprV)>>
    decreases ts.len() - p, 4nat,
{
    if p >= ts.len() {
        err_here(ts, p, Seq::empty())
    } else {
        match p_field_init(ts, lim, d, p) {
            PR::Read(f, q) => if p < q < ts.len() {
                inits_tail(ts, lim, d, seq![f], q)
            } else {
                PR::Read(seq![f], q)
            },
            PR::Fail(a, m, i) => PR::Fail(a, m, i),
        }
    }
}

pub open spec fn inits_tail(ts: Seq<Token>, lim: nat, d: nat, acc: Seq<(Seq<char>, ExprV)>, q: nat) -> PR<
    Seq<(Seq<char>, ExprV)>,
>
    decreases ts.len() - q, 0nat,
{
    if q >= ts.len() {
        PR::Read(acc, q)
    } else if at_kind(ts, q, TokenKind::Comma) {
        match p_field_init(ts, lim, d, q + 1) {
            PR::Read(f, q2) => if q < q2 < ts.len() {
                inits_tail(ts, lim, d, acc.push(f), q2)
            } else {
                PR::Read(acc, q)
            },
            PR::Fail(a, m, i) => PR::Fail(a, m, i),
        }
    } else {
        PR::Read(acc, q)
    }
}

/// The token at `p` closes an argument list.
pub open spec fn at_arg_end(ts: Seq<Token>, p: nat) -> bool {
    at_kind(ts, p, TokenKind::RParen) || at_kind(ts, p, TokenKind::RBracket) || at_kind(ts, p, TokenKind::RBrace)
}

/// Args = [ Expr { "," Expr } ], empty before a closing bracket.
pub open spec fn p_args(ts: Seq<Token>, lim: nat, d: nat, p: nat) -> PR<Seq<ExprV>>
    decreases ts.len() - p, 14nat,
{
    if p >= ts.len() {
        err_here(ts, p, Seq::empty())
    } else if at_arg_end(ts, p) {
        PR::Read(Seq::empty(), p)
    } else {
        match p_expr(ts, lim, d, p) {
            PR::Read(e, q) => if p < q < ts.len() {
                args_tail(ts, lim, d, seq![e], q)
            } else {
                PR::Read(seq![e], q)
            },
            PR::Fail(a, m, i) => PR::Fail(a, m, i),
        }
    }
}

pub open spec fn args_tail(ts: Seq<Token>, lim: nat, d: nat, acc: Seq<ExprV>, q: nat) -> PR<Seq<ExprV>>
    decreases ts.len() - q, 0nat,
{
    if q >= ts.len() {
        PR::Read(acc, q)
    } else if at_kind(ts, q, TokenKind::Comma) {
        match p_expr(ts, lim, d, q + 1) {
            PR::Read(e, q2) => if q < q2 < ts.len() {
                args_tail(ts, lim, d, acc.push(e), q2)
            } else {
                PR::Read(acc, q)
            },
            PR::Fail(a, m, i) => PR::Fail(a, m, i),
        }
    } else {
        PR::Read(acc, q)
    }
}


// ── Reading: tokens and types ───────────────────────────────────────────

proof fn lemma_next_inside(ts: Seq<Token>, p: nat)
    requires
        wf(ts),
        p < ts.len(),
        !(ts[p as int].kind is Eof),
    ensures
        p + 1 < ts.len(),
{
}

/// The error at the token at `at`.
fn err_at(ts: &[Token], at: usize, msg: String) -> (e: ParseError)
    requires
        at < ts@.len(),
    ensures
        err_matches(ts@, e, at as nat, msg@, kind(ts@, at as nat) is Eof),
{
    let t = &ts[at];
    let inc = match t.kind {
        TokenKind::Eof => true,
        _ => false,
    };
    ParseError { msg, line: t.line, col: t.col, span: Range { start: t.span.start, end: t.span.end }, is_incomplete: inc }
}

/// `prefix` followed by "，但得到 " and the kind of the token at `p`.
fn got_msg(prefix: &str, ts: &[Token], p: usize) -> (r: String)
    requires
        p < ts@.len(),
    ensures
        r@ == prefix@ + got(ts@, p as nat),
{
    let mut s = string_of(prefix);
    push_str(&mut s, "，但得到 ");
    let k = ts[p].kind.debug_name();
    push_str(&mut s, k.as_str());
    s
}

fn span_at(ts: &[Token], q: usize) -> (r: Range<usize>)
    requires
        q < ts@.len(),
    ensures
        span_v(r) == sp(ts@, q as nat),
{
    Range { start: ts[q].span.start, end: ts[q].span.end }
}

fn kind_is(ts: &[Token], p: usize, k: &TokenKind) -> (r: bool)
    requires
        p < ts@.len(),
    ensures
        r == at_kind(ts@, p as nat, *k),
        r && !(*k is Eof) ==> !(ts@[p as int].kind is Eof),
{
    proof {
        lemma_eof_tag(*k);
        lemma_eof_tag(ts@[p as int].kind);
    }
    ts[p].kind.eq(k)
}

fn expect(ts: &[Token], p: usize, k: TokenKind) -> (r: Result<((), usize), ParseError>)
    requires
        wf(ts@),
        p < ts@.len(),
        !(k is Eof),
    ensures
        match p_expect(ts@, p as nat, k) {
            PR::Read(_, q) => r matches Ok(x) && x.1 == q,
            PR::Fail(at, msg, inc) => r matches Err(e) && err_matches(ts@, e, at, msg, inc),
        },
        moved(ts@, r, p as nat),
{
    if kind_is(ts, p, &k) {
        proof {
            lemma_next_inside(ts@, p as nat);
        }
        Ok(((), p + 1))
    } else {
        let mut m = string_of("期望 ");
        let kn = k.debug_name();
        push_str(&mut m, kn.as_str());
        push_str(&mut m, "，但得到 ");
        let g = ts[p].kind.debug_name();
        push_str(&mut m, g.as_str());
        assert(m@ =~= expect_msg(ts@, p as nat, k));
        Err(err_at(ts, p, m))
    }
}

fn expect_ident(ts: &[Token], p: usize) -> (r: Result<(String, usize), ParseError>)
    requires
        wf(ts@),
        p < ts@.len(),
    ensures
        res(ts@, r, p_ident(ts@, p as nat), |x: String| x@),
        moved(ts@, r, p as nat),
{
    match &ts[p].kind {
        TokenKind::Ident(n) => Ok((n.clone(), p + 1)),
        _ => Err(err_at(ts, p, got_msg("期望标识符", ts, p))),
    }
}

fn parse_base_type(ts: &[Token], p: usize) -> (r: Result<(BaseType, usize), ParseError>)
    requires
        wf(ts@),
        p < ts@.len(),
    ensures
        res(ts@, r, p_base(ts@, p as nat), |x: BaseType| x@),
        moved(ts@, r, p as nat),
{
    match &ts[p].kind {
        TokenKind::TI32 => Ok((BaseType::I32, p + 1)),
        TokenKind::TF64 => Ok((BaseType::F64, p + 1)),
        TokenKind::TStr => Ok((BaseType::Str, p + 1)),
        TokenKind::TBool => Ok((BaseType::Bool, p + 1)),
        TokenKind::TVoid => Ok((BaseType::Void, p + 1)),
        TokenKind::Ident(n) => {
            if kind_is(ts, p + 1, &TokenKind::Dot) {
                match expect_ident(ts, p + 2) {
                    Ok((sfx, q)) => {
                        let mut name = n.clone();
                        push_str(&mut name, ".");
                        push_str(&mut name, sfx.as_str());
                        Ok((BaseType::UserDef(name), q))
                    },
                    Err(e) => Err(e),
                }
            } else {
                Ok((BaseType::UserDef(n.clone()), p + 1))
            }
        },
        _ => Err(err_at(ts, p, got_msg("期望类型", ts, p))),
    }
}

fn parse_type(ts: &[Token], p: usize) -> (r: Result<(Type, usize), ParseError>)
    requires
        wf(ts@),
        p < ts@.len(),
    ensures
        res(ts@, r, p_type(ts@, p as nat), |x: Type| x@),
        moved(ts@, r, p as nat),
{
    if kind_is(ts, p, &TokenKind::LBracket) {
        proof {
            lemma_next_inside(ts@, p as nat);
        }
        let (b, q) = match parse_base_type(ts, p + 1) {
            Ok(x) => x,
            Err(e) => return Err(e),
        };
        match expect(ts, q, TokenKind::RBracket) {
            Ok((_, q2)) => Ok((Type::Array(b), q2)),
            Err(e) => Err(e),
        }
    } else {
        match parse_base_type(ts, p) {
            Ok((b, q)) => Ok((Type::Base(b), q)),
            Err(e) => Err(e),
        }
    }
}

fn parse_return_type(ts: &[Token], p: usize) -> (r: Result<(ReturnType, usize), ParseError>)
    requires
        wf(ts@),
        p < ts@.len(),
    ensures
        res(ts@, r, p_ret(ts@, p as nat), |x: ReturnType| x@),
        moved(ts@, r, p as nat),
{
    if kind_is(ts, p, &TokenKind::LParen) {
        proof {
            lemma_next_inside(ts@, p as nat);
        }
        let (t1, q1) = match parse_type(ts, p + 1) {
            Ok(x) => x,
            Err(e) => return Err(e),
        };
        let (_, q2) = match expect(ts, q1, TokenKind::Comma) {
            Ok(x) => x,
            Err(e) => return Err(e),
        };
        let (t2, q3) = match parse_type(ts, q2) {
            Ok(x) => x,
            Err(e) => return Err(e),
        };
        match expect(ts, q3, TokenKind::RParen) {
            Ok((_, q4)) => Ok((ReturnType::Pair(t1, t2), q4)),
            Err(e) => Err(e),
        }
    } else {
        match parse_type(ts, p) {
            Ok((t, q)) => Ok((ReturnType::Single(t), q)),
            Err(e) => Err(e),
        }
    }
}


// ── Reading: expressions ────────────────────────────────────────────────

fn level_op_x(level: usize, k: &TokenKind) -> (r: Option<BinOp>)
    ensures
        r == level_op(level as nat, *k),
{
    match (level, k) {
        (1, TokenKind::OrOr) => Some(BinOp::Or),
        (2, TokenKind::AndAnd) => Some(BinOp::And),
        (3, TokenKind::EqEq) => Some(BinOp::Eq),
        (3, TokenKind::Neq) => Some(BinOp::Neq),
        (4, TokenKind::Lt) => Some(BinOp::Lt),
        (4, TokenKind::Le) => Some(BinOp::Le),
        (4, TokenKind::Gt) => Some(BinOp::Gt),
        (4, TokenKind::Ge) => Some(BinOp::Ge),
        (5, TokenKind::Plus) => Some(BinOp::Add),
        (5, TokenKind::Minus) => Some(BinOp::Sub),
        (6, TokenKind::Star) => Some(BinOp::Mul),
        (6, TokenKind::Slash) => Some(BinOp::Div),
        _ => None,
    }
}

/// Reads an expression at `p`, one nesting level below `d`.
fn parse_expr_at(ts: &[Token], lim: usize, d: usize, p: usize) -> (r: Result<(Expr, usize), ParseError>)
    requires
        wf(ts@),
        p < ts@.len(),
    ensures
        res(ts@, r, p_expr(ts@, lim as nat, d as nat, p as nat), |x: Expr| x@),
        moved(ts@, r, p as nat),
    decreases ts@.len() - p, 13nat,
{
    if d >= lim {
        let mut m = string_of("表达式");
        push_str(&mut m, " 嵌套深度超过限制 ");
        push_decimal(&mut m, lim);
        return Err(err_at(ts, p, m));
    }
    parse_bin(ts, lim, d + 1, 1, p)
}

/// Reads the binary operators of level `level` and tighter.
fn parse_bin(ts: &[Token], lim: usize, d: usize, level: usize, p: usize) -> (r: Result<(Expr, usize), ParseError>)
    requires
        wf(ts@),
        p < ts@.len(),
        1 <= level <= 6,
    ensures
        res(ts@, r, p_bin(ts@, lim as nat, d as nat, level as nat, p as nat), |x: Expr| x@),
        moved(ts@, r, p as nat),
    decreases ts@.len() - p, 13 - level,
{
    let first = if level == 6 {
        parse_unary(ts, lim, d, p)
    } else {
        parse_bin(ts, lim, d, level + 1, p)
    };
    let (mut left, mut q) = match first {
        Ok(x) => x,
        Err(e) => return Err(e),
    };
    loop
        invariant
            wf(ts@),
            p < q < ts@.len(),
            1 <= level <= 6,
            p_bin(ts@, lim as nat, d as nat, level as nat, p as nat) == bin_tail(
                ts@,
                lim as nat,
                d as nat,
                level as nat,
                left@,
                q as nat,
            ),
        decreases ts@.len() - q,
    {
        match level_op_x(level, &ts[q].kind) {
            None => return Ok((left, q)),
            Some(op) => {
                proof {
                    assert(!(ts@[q as int].kind is Eof));
                    lemma_next_inside(ts@, q as nat);
                }
                let right = if level == 6 {
                    parse_unary(ts, lim, d, q + 1)
                } else {
                    parse_bin(ts, lim, d, level + 1, q + 1)
                };
                let (rt, q2) = match right {
                    Ok(x) => x,
                    Err(e) => return Err(e),
                };
                let sp2 = span_at(ts, q2);
                left = Expr::Binary { left: Box::new(left), op, right: Box::new(rt), span: sp2 };
                q = q2;
            },
        }
    }
}

fn parse_unary(ts: &[Token], lim: usize, d: usize, p: usize) -> (r: Result<(Expr, usize), ParseError>)
    requires
        wf(ts@),
        p < ts@.len(),
    ensures
        res(ts@, r, p_unary(ts@, lim as nat, d as nat, p as nat), |x: Expr| x@),
        moved(ts@, r, p as nat),
    decreases ts@.len() - p, 6nat,
{
    let minus = kind_is(ts, p, &TokenKind::Minus);
    if minus || kind_is(ts, p, &TokenKind::Bang) {
        let op = if minus { UnaryOp::Neg } else { UnaryOp::Not };
        proof {
            lemma_next_inside(ts@, p as nat);
        }
        return match parse_unary(ts, lim, d, p + 1) {
            Ok((e, q)) => Ok((Expr::Unary { op, expr: Box::new(e), span: span_at(ts, q) }, q)),
            Err(e) => Err(e),
        };
    }
    let (mut e, mut q) = match parse_primary(ts, lim, d, p) {
        Ok(x) => x,
        Err(err) => return Err(err),
    };
    loop
        invariant
            wf(ts@),
            p < q < ts@.len(),
            p_unary(ts@, lim as nat, d as nat, p as nat) == postfix_tail(ts@, lim as nat, d as nat, e@, q as nat),
        decreases ts@.len() - q,
    {
        match &ts[q].kind {
            TokenKind::LParen => {
                proof {
                    lemma_next_inside(ts@, q as nat);
                }
                let (args, q2) = match parse_args(ts, lim, d, q + 1) {
                    Ok(x) => x,
                    Err(err) => return Err(err),
                };
                let (_, q3) = match expect(ts, q2, TokenKind::RParen) {
                    Ok(x) => x,
                    Err(err) => return Err(err),
                };
                e = Expr::Call { func: Box::new(e), args, span: span_at(ts, q3) };
                q = q3;
            },
            TokenKind::LBracket => {
                proof {
                    lemma_next_inside(ts@, q as nat);
                }
                let (ix, q2) = match parse_expr_at(ts, lim, d, q + 1) {
                    Ok(x) => x,
                    Err(err) => return Err(err),
                };
                let (_, q3) = match expect(ts, q2, TokenKind::RBracket) {
                    Ok(x) => x,
                    Err(err) => return Err(err),
                };
                e = Expr::Index { array: Box::new(e), index: Box::new(ix), span: span_at(ts, q3) };
                q = q3;
            },
            TokenKind::Dot => {
                proof {
                    lemma_next_inside(ts@, q as nat);
                }
                let (f, q2) = match expect_ident(ts, q + 1) {
                    Ok(x) => x,
                    Err(err) => return Err(err),
                };
                e = Expr::FieldAccess { obj: Box::new(e), field: f, span: span_at(ts, q2) };
                q = q2;
            },
            _ => return Ok((e, q)),
        }
    }
}

fn parse_primary(ts: &[Token], lim: usize, d: usize, p: usize) -> (r: Result<(Expr, usize), ParseError>)
    requires
        wf(ts@),
        p < ts@.len(),
    ensures
        res(ts@, r, p_primary(ts@, lim as nat, d as nat, p as nat), |x: Expr| x@),
        moved(ts@, r, p as nat),
    decreases ts@.len() - p, 5nat,
{
    let k = &ts[p].kind;
    if !(match k { TokenKind::Eof => true, _ => false }) {
        proof {
            lemma_next_inside(ts@, p as nat);
        }
    }
    match k {
        TokenKind::IntLit(v) => Ok((Expr::IntLit(v.clone(), span_at(ts, p)), p + 1)),
        TokenKind::FloatLit(v) => Ok((Expr::FloatLit(v.clone(), span_at(ts, p)), p + 1)),
        TokenKind::StrLit(v) => Ok((Expr::StrLit(v.clone(), span_at(ts, p)), p + 1)),
        TokenKind::True => Ok((Expr::BoolLit(true, span_at(ts, p)), p + 1)),
        TokenKind::False => Ok((Expr::BoolLit(false, span_at(ts, p)), p + 1)),
        TokenKind::Ident(n) => {
            if kind_is(ts, p + 1, &TokenKind::Dot) {
                proof {
                    lemma_next_inside(ts@, (p + 1) as nat);
                }
                match &ts[p + 2].kind {
                    TokenKind::Ident(sfx) => {
                        proof {
                            lemma_next_inside(ts@, (p + 2) as nat);
                        }
                        if kind_is(ts, p + 3, &TokenKind::LBrace) {
                            let mut name = n.clone();
                            push_str(&mut name, ".");
                            push_str(&mut name, sfx.as_str());
                            return parse_struct_tail(ts, lim, d, name, p + 3);
                        }
                    },
                    _ => {},
                }
            }
            if kind_is(ts, p + 1, &TokenKind::LBrace) {
                parse_struct_tail(ts, lim, d, n.clone(), p + 1)
            } else {
                Ok((Expr::Ident(n.clone(), span_at(ts, p)), p + 1))
            }
        },
        TokenKind::LBracket => {
            let (elems, q) = match parse_args(ts, lim, d, p + 1) {
                Ok(x) => x,
                Err(e) => return Err(e),
            };
            match expect(ts, q, TokenKind::RBracket) {
                Ok((_, q2)) => Ok((Expr::ArrayLit(elems, span_at(ts, q2)), q2)),
                Err(e) => Err(e),
            }
        },
        TokenKind::LParen => {
            let (e, q) = match parse_expr_at(ts, lim, d, p + 1) {
                Ok(x) => x,
                Err(e) => return Err(e),
            };
            match expect(ts, q, TokenKind::RParen) {
                Ok((_, q2)) => Ok((e, q2)),
                Err(e) => Err(e),
            }
        },
        TokenKind::TI32 => call_or_ident(ts, lim, d, "i32", p + 1),
        TokenKind::TF64 => call_or_ident(ts, lim, d, "f64", p + 1),
        TokenKind::TStr => call_or_ident(ts, lim, d, "str", p + 1),
        TokenKind::TBool => call_or_ident(ts, lim, d, "bool", p + 1),
        _ => {
            let mut m = string_of("表达式开头有未预期的 token: ");
            let g = k.debug_name();
            push_str(&mut m, g.as_str());
            Err(err_at(ts, p, m))
        },
    }
}

/// A type keyword used as a name: a struct literal when `{` follows, else
/// the bare name (which a call may follow).
fn call_or_ident(ts: &[Token], lim: usize, d: usize, name: &str, p: usize) -> (r: Result<(Expr, usize), ParseError>)
    requires
        wf(ts@),
        0 < p < ts@.len(),
    ensures
        (if at_kind(ts@, p as nat, TokenKind::LBrace) {
            res(ts@, r, p_struct_tail(ts@, lim as nat, d as nat, name@, p as nat), |x: Expr| x@)
        } else {
            res(ts@, r, PR::Read(ExprV::Ident(name@, sp(ts@, (p - 1) as nat)), p as nat), |x: Expr| x@)
        }),
        moved(ts@, r, (p - 1) as nat),
    decreases ts@.len() - p, 5nat,
{
    if kind_is(ts, p, &TokenKind::LBrace) {
        parse_struct_tail(ts, lim, d, string_of(name), p)
    } else {
        Ok((Expr::Ident(string_of(name), span_at(ts, p - 1)), p))
    }
}

fn parse_struct_tail(ts: &[Token], lim: usize, d: usize, name: String, p: usize) -> (r: Result<(Expr, usize), ParseError>)
    requires
        wf(ts@),
        p < ts@.len(),
    ensures
        res(ts@, r, p_struct_tail(ts@, lim as nat, d as nat, name@, p as nat), |x: Expr| x@),
        moved(ts@, r, p as nat),
    decreases ts@.len() - p, 4nat,
{
    let (_, q) = match expect(ts, p, TokenKind::LBrace) {
        Ok(x) => x,
        Err(e) => return Err(e),
    };
    let (fields, q2) = if kind_is(ts, q, &TokenKind::RBrace) {
        let v: Vec<(String, Expr)> = Vec::new();
        assert(evf(v@) =~= Seq::<(Seq<char>, ExprV)>::empty());
        (v, q)
    } else {
        match parse_field_inits(ts, lim, d, q) {
            Ok(x) => x,
            Err(e) => return Err(e),
        }
    };
    match expect(ts, q2, TokenKind::RBrace) {
        Ok((_, q3)) => Ok((Expr::StructLit { name, fields, span: span_at(ts, q3) }, q3)),
        Err(e) => Err(e),
    }
}

fn parse_field_init(ts: &[Token], lim: usize, d: usize, p: usize) -> (r: Result<((String, Expr), usize), ParseError>)
    requires
        wf(ts@),
        p < ts@.len(),
    ensures
        res(ts@, r, p_field_init(ts@, lim as nat, d as nat, p as nat), |x: (String, Expr)| (x.0@, x.1@)),
        moved(ts@, r, p as nat),
    decreases ts@.len() - p, 3nat,
{
    let (n, q) = match expect_ident(ts, p) {
        Ok(x) => x,
        Err(e) => return Err(e),
    };
    let (_, q2) = match expect(ts, q, TokenKind::Colon) {
        Ok(x) => x,
        Err(e) => return Err(e),
    };
    match parse_expr_at(ts, lim, d, q2) {
        Ok((v, q3)) => Ok(((n, v), q3)),
        Err(e) => Err(e),
    }
}

fn parse_field_inits(ts: &[Token], lim: usize, d: usize, p: usize) -> (r: Result<(Vec<(String, Expr)>, usize), ParseError>)
    requires
        wf(ts@),
        p < ts@.len(),
    ensures
        res(ts@, r, p_field_inits(ts@, lim as nat, d as nat, p as nat), |x: Vec<(String, Expr)>| evf(x@)),
        moved(ts@, r, p as nat),
    decreases ts@.len() - p, 4nat,
{
    let (f, mut q) = match parse_field_init(ts, lim, d, p) {
        Ok(x) => x,
        Err(e) => return Err(e),
    };
    let mut acc: Vec<(String, Expr)> = Vec::new();
    acc.push(f);
    proof {
        assert(acc@.drop_last() =~= Seq::<(String, Expr)>::empty());
        assert(evf(acc@.drop_last()) =~= Seq::<(Seq<char>, ExprV)>::empty());
        assert(evf(acc@) =~= seq![(acc@[0].0@, acc@[0].1@)]);
    }
    loop
        invariant
            wf(ts@),
            p < q < ts@.len(),
            p_field_inits(ts@, lim as nat, d as nat, p as nat) == inits_tail(ts@, lim as nat, d as nat, evf(acc@), q as nat),
        decreases ts@.len() - q,
    {
        if !kind_is(ts, q, &TokenKind::Comma) {
            return Ok((acc, q));
        }
        proof {
            lemma_next_inside(ts@, q as nat);
        }
        let (f2, q2) = match parse_field_init(ts, lim, d, q + 1) {
            Ok(x) => x,
            Err(e) => return Err(e),
        };
        let ghost old_acc = acc@;
        acc.push(f2);
        proof {
            assert(acc@.drop_last() =~= old_acc);
        }
        q = q2;
    }
}

fn parse_args(ts: &[Token], lim: usize, d: usize, p: usize) -> (r: Result<(Vec<Expr>, usize), ParseError>)
    requires
        wf(ts@),
        p < ts@.len(),
    ensures
        res(ts@, r, p_args(ts@, lim as nat, d as nat, p as nat), |x: Vec<Expr>| evs(x@)),
        stayed(ts@, r, p as nat),
    decreases ts@.len() - p, 14nat,
{
    if kind_is(ts, p, &TokenKind::RParen) || kind_is(ts, p, &TokenKind::RBracket) || kind_is(ts, p, &TokenKind::RBrace) {
        let v: Vec<Expr> = Vec::new();
        assert(evs(v@) =~= Seq::<ExprV>::empty());
        return Ok((v, p));
    }
    let (e, mut q) = match parse_expr_at(ts, lim, d, p) {
        Ok(x) => x,
        Err(err) => return Err(err),
    };
    let mut acc: Vec<Expr> = Vec::new();
    acc.push(e);
    proof {
        assert(acc@.drop_last() =~= Seq::<Expr>::empty());
        assert(evs(acc@.drop_last()) =~= Seq::<ExprV>::empty());
        assert(evs(acc@) =~= seq![acc@[0]@]);
    }
    loop
        invariant
            wf(ts@),
            p < q < ts@.len(),
            p_args(ts@, lim as nat, d as nat, p as nat) == args_tail(ts@, lim as nat, d as nat, evs(acc@), q as nat),
        decreases ts@.len() - q,
    {
        if !kind_is(ts, q, &TokenKind::Comma) {
            return Ok((acc, q));
        }
        proof {
            lemma_next_inside(ts@, q as nat);
        }
        let (e2, q2) = match parse_expr_at(ts, lim, d, q + 1) {
            Ok(x) => x,
            Err(err) => return Err(err),
        };
        let ghost old_acc = acc@;
        acc.push(e2);
        proof {
            assert(acc@.drop_last() =~= old_acc);
        }
        q = q2;
    }
}


// ── The grammar: statements ────────────────────────────────────────────

/// The left value an expression names when it stands before `=`, with the
/// span `span`: a name, an index or a field access; nothing else.
pub open spec fn to_lvalue(e: ExprV, span: SpanV) -> Option<LValueV> {
    match e {
        ExprV::Ident(n, _) => Some(LValueV::Ident(n, span)),
        ExprV::Index(a, i, _) => Some(LValueV::Index(*a, *i, span)),
        ExprV::Field(o, f, _) => Some(LValueV::Field(*o, f, span)),
        _ => None,
    }
}

/// VarBinding = IDENT ":" Type | "_"
pub open spec fn p_binding(ts: Seq<Token>, p: nat) -> PR<VarBindingV> {
    match kind(ts, p) {
        TokenKind::Ident(n) if n@ == "_"@ => PR::Read(VarBindingV::Discard, p + 1),
        _ => match p_ident(ts, p) {
            PR::Read(n, q) => match p_expect(ts, q, TokenKind::Colon) {
                PR::Read(_, q2) => match p_type(ts, q2) {
                    PR::Read(t, q3) => PR::Read(VarBindingV::Named(n, t), q3),
                    PR::Fail(a, m, i) => PR::Fail(a, m, i),
                },
                PR::Fail(a, m, i) => PR::Fail(a, m, i),
            },
            PR::Fail(a, m, i) => PR::Fail(a, m, i),
        },
    }
}

/// VarBinding [ "," VarBinding ]
pub open spec fn p_bindings(ts: Seq<Token>, p: nat) -> PR<Seq<VarBindingV>> {
    match p_binding(ts, p) {
        PR::Read(b1, q) => if at_kind(ts, q, TokenKind::Comma) {
            match p_binding(ts, q + 1) {
                PR::Read(b2, q2) => PR::Read(seq![b1, b2], q2),
                PR::Fail(a, m, i) => PR::Fail(a, m, i),
            }
        } else {
            PR::Read(seq![b1], q)
        },
        PR::Fail(a, m, i) => PR::Fail(a, m, i),
    }
}

/// VarDecl = "var" VarBinding [ "," VarBinding ] "=" Expr ";"
pub open spec fn p_var_decl(ts: Seq<Token>, lim: nat, d: nat, p: nat) -> PR<StmtV> {
    match p_expect(ts, p, TokenKind::Var) {
        PR::Read(_, q1) => match p_bindings(ts, q1) {
            PR::Read(bs, q2) => match p_expect(ts, q2, TokenKind::Assign) {
                PR::Read(_, q3) => match p_expr(ts, lim, d, q3) {
                    PR::Read(init, q4) => match p_expect(ts, q4, TokenKind::Semi) {
                        PR::Read(_, q5) => PR::Read(StmtV::VarDecl(bs, init, sp(ts, q5)), q5),
                        PR::Fail(a, m, i) => PR::Fail(a, m, i),
                    },
                    PR::Fail(a, m, i) => PR::Fail(a, m, i),
                },
                PR::Fail(a, m, i) => PR::Fail(a, m, i),
            },
            PR::Fail(a, m, i) => PR::Fail(a, m, i),
        },
        PR::Fail(a, m, i) => PR::Fail(a, m, i),
    }
}

/// Expr [ "," Expr ]
pub open spec fn p_values(ts: Seq<Token>, lim: nat, d: nat, p: nat) -> PR<Seq<ExprV>> {
    match p_expr(ts, lim, d, p) {
        PR::Read(v1, q) => if at_kind(ts, q, TokenKind::Comma) {
            match p_expr(ts, lim, d, q + 1) {
                PR::Read(v2, q2) => PR::Read(seq![v1, v2], q2),
                PR::Fail(a, m, i) => PR::Fail(a, m, i),
            }
        } else {
            PR::Read(seq![v1], q)
        },
        PR::Fail(a, m, i) => PR::Fail(a, m, i),
    }
}

/// ReturnStmt = "return" [ Expr [ "," Expr ] ] ";"
pub open spec fn p_return(ts: Seq<Token>, lim: nat, d: nat, p: nat) -> PR<StmtV> {
    match p_expect(ts, p, TokenKind::Return) {
        PR::Read(_, q) => {
            let vals = if at_kind(ts, q, TokenKind::Semi) {
                PR::Read(Seq::empty(), q)
            } else {
                p_values(ts, lim, d, q)
            };
            match vals {
                PR::Read(vs, q2) => match p_expect(ts, q2, TokenKind::Semi) {
                    PR::Read(_, q3) => PR::Read(StmtV::Return(vs, sp(ts, q3)), q3),
                    PR::Fail(a, m, i) => PR::Fail(a, m, i),
                },
                PR::Fail(a, m, i) => PR::Fail(a, m, i),
            }
        },
        PR::Fail(a, m, i) => PR::Fail(a, m, i),
    }
}

/// An expression statement, or an assignment when `=` follows the
/// expression (whose left side must then be a left value).
pub open spec fn p_expr_or_assign(ts: Seq<Token>, lim: nat, d: nat, p: nat) -> PR<StmtV> {
    match p_expr(ts, lim, d, p) {
        PR::Read(e, q) => if at_kind(ts, q, TokenKind::Assign) {
            match p_expr(ts, lim, d, q + 1) {
                PR::Read(v, q2) => match p_expect(ts, q2, TokenKind::Semi) {
                    PR::Read(_, q3) => match to_lvalue(e, sp(ts, p)) {
                        Some(lv) => PR::Read(StmtV::Assign(lv, v, sp(ts, q3)), q3),
                        None => PR::Fail(p, lvalue_msg(), false),
                    },
                    PR::Fail(a, m, i) => PR::Fail(a, m, i),
                },
                PR::Fail(a, m, i) => PR::Fail(a, m, i),
            }
        } else {
            match p_expect(ts, q, TokenKind::Semi) {
                PR::Read(_, q2) => PR::Read(StmtV::Expr(e, sp(ts, q2)), q2),
                PR::Fail(a, m, i) => PR::Fail(a, m, i),
            }
        },
        PR::Fail(a, m, i) => PR::Fail(a, m, i),
    }
}

/// Stmt = VarDecl | ReturnStmt | IfStmt | ForStmt | Block | ExprStmt | AssignStmt
pub open spec fn p_stmt(ts: Seq<Token>, lim: nat, d: nat, p: nat) -> PR<StmtV>
    decreases ts.len() - p, 9nat,
{
    if p >= ts.len() {
        err_here(ts, p, Seq::empty())
    } else {
        match kind(ts, p) {
            TokenKind::Var => p_var_decl(ts, lim, d, p),
            TokenKind::Return => p_return(ts, lim, d, p),
            TokenKind::If => p_if(ts, lim, d, p),
            TokenKind::For => p_for(ts, lim, d, p),
            TokenKind::LBrace => p_block(ts, lim, d, p),
            _ => p_expr_or_assign(ts, lim, d, p),
        }
    }
}

/// Block = "{" { Stmt } "}", one nesting level below `d`; the statements.
pub open spec fn p_block_body(ts: Seq<Token>, lim: nat, d: nat, p: nat) -> PR<Seq<StmtV>>
    decreases ts.len() - p, 7nat,
{
    if p >= ts.len() {
        err_here(ts, p, Seq::empty())
    } else if d + 1 > lim {
        err_here(ts, p, depth_msg("语句块"@, lim))
    } else {
        match p_expect(ts, p, TokenKind::LBrace) {
            PR::Read(_, q) => if p < q < ts.len() {
                block_items(ts, lim, d + 1, Seq::empty(), q)
            } else {
                err_here(ts, q, Seq::empty())
            },
            PR::Fail(a, m, i) => PR::Fail(a, m, i),
        }
    }
}

/// `{ Stmt } "}"` after the statements `acc`.
pub open spec fn block_items(ts: Seq<Token>, lim: nat, d: nat, acc: Seq<StmtV>, q: nat) -> PR<Seq<StmtV>>
    decreases ts.len() - q, 10nat,
{
    if q >= ts.len() {
        PR::Read(acc, q)
    } else if at_kind(ts, q, TokenKind::RBrace) || at_kind(ts, q, TokenKind::Eof) {
        match p_expect(ts, q, TokenKind::RBrace) {
            PR::Read(_, q2) => PR::Read(acc, q2),
            PR::Fail(a, m, i) => PR::Fail(a, m, i),
        }
    } else {
        match p_stmt(ts, lim, d, q) {
            PR::Read(s, q2) => if q < q2 < ts.len() {
                block_items(ts, lim, d, acc.push(s), q2)
            } else {
                PR::Read(acc, q)
            },
            PR::Fail(a, m, i) => PR::Fail(a, m, i),
        }
    }
}

/// A block as a statement.
pub open spec fn p_block(ts: Seq<Token>, lim: nat, d: nat, p: nat) -> PR<StmtV>
    decreases ts.len() - p, 8nat,
{
    match p_block_body(ts, lim, d, p) {
        PR::Read(ss, q) => PR::Read(StmtV::Block(ss, sp(ts, q)), q),
        PR::Fail(a, m, i) => PR::Fail(a, m, i),
    }
}

/// IfStmt = "if" Expr "then" Stmt [ "else" Stmt ]
pub open spec fn p_if(ts: Seq<Token>, lim: nat, d: nat, p: nat) -> PR<StmtV>
    decreases ts.len() - p, 3nat,
{
    match p_expect(ts, p, TokenKind::If) {
        PR::Read(_, q) => match p_expr(ts, lim, d, q) {
            PR::Read(c, q1) => match p_expect(ts, q1, TokenKind::Then) {
                PR::Read(_, q2) => if p < q2 < ts.len() {
                    match p_stmt(ts, lim, d, q2) {
                        PR::Read(t, q3) => if at_kind(ts, q3, TokenKind::Else) && p < q3 && q3 + 1 < ts.len() {
                            match p_stmt(ts, lim, d, q3 + 1) {
                                PR::Read(e, q4) => PR::Read(
                                    StmtV::If(c, Box::new(t), Some(Box::new(e)), sp(ts, q4)),
                                    q4,
                                ),
                                PR::Fail(a, m, i) => PR::Fail(a, m, i),
                            }
                        } else {
                            PR::Read(StmtV::If(c, Box::new(t), None, sp(ts, q3)), q3)
                        },
                        PR::Fail(a, m, i) => PR::Fail(a, m, i),
                    }
                } else {
                    err_here(ts, q2, Seq::empty())
                },
                PR::Fail(a, m, i) => PR::Fail(a, m, i),
            },
            PR::Fail(a, m, i) => PR::Fail(a, m, i),
        },
        PR::Fail(a, m, i) => PR::Fail(a, m, i),
    }
}

/// The header of a for loop up to its step expression:
/// `"for" "var" IDENT ":" Type "=" Expr "," Expr ","`.
pub open spec fn p_for_head(ts: Seq<Token>, lim: nat, d: nat, p: nat) -> PR<(Seq<char>, TypeV, ExprV, ExprV)> {
    match p_expect(ts, p, TokenKind::For) {
        PR::Read(_, q1) => match p_expect(ts, q1, TokenKind::Var) {
            PR::Read(_, q2) => match p_ident(ts, q2) {
                PR::Read(n, q3) => match p_expect(ts, q3, TokenKind::Colon) {
                    PR::Read(_, q4) => match p_type(ts, q4) {
                        PR::Read(t, q5) => match p_expect(ts, q5, TokenKind::Assign) {
                            PR::Read(_, q6) => match p_expr(ts, lim, d, q6) {
                                PR::Read(a, q7) => match p_expect(ts, q7, TokenKind::Comma) {
                                    PR::Read(_, q8) => match p_expr(ts, lim, d, q8) {
                                        PR::Read(b, q9) => match p_expect(ts, q9, TokenKind::Comma) {
                                            PR::Read(_, q10) => PR::Read((n, t, a, b), q10),
                                            PR::Fail(x, m, i) => PR::Fail(x, m, i),
                                        },
                                        PR::Fail(x, m, i) => PR::Fail(x, m, i),
                                    },
                                    PR::Fail(x, m, i) => PR::Fail(x, m, i),
                                },
                                PR::Fail(x, m, i) => PR::Fail(x, m, i),
                            },
                            PR::Fail(x, m, i) => PR::Fail(x, m, i),
                        },
                        PR::Fail(x, m, i) => PR::Fail(x, m, i),
                    },
                    PR::Fail(x, m, i) => PR::Fail(x, m, i),
                },
                PR::Fail(x, m, i) => PR::Fail(x, m, i),
            },
            PR::Fail(x, m, i) => PR::Fail(x, m, i),
        },
        PR::Fail(x, m, i) => PR::Fail(x, m, i),
    }
}

/// The step of a for loop, an assignment without `;`, then `in`:
/// `LValue "=" Expr "in"`.
pub open spec fn p_for_step(ts: Seq<Token>, lim: nat, d: nat, p: nat) -> PR<(LValueV, ExprV)> {
    match p_expr(ts, lim, d, p) {
        PR::Read(full, q1) => match p_expect(ts, q1, TokenKind::Assign) {
            PR::Read(_, q2) => match p_expr(ts, lim, d, q2) {
                PR::Read(v, q3) => match to_lvalue(full, sp(ts, p)) {
                    Some(lv) => match p_expect(ts, q3, TokenKind::In) {
                        PR::Read(_, q4) => PR::Read((lv, v), q4),
                        PR::Fail(x, m, i) => PR::Fail(x, m, i),
                    },
                    None => PR::Fail(p, lvalue_msg(), false),
                },
                PR::Fail(x, m, i) => PR::Fail(x, m, i),
            },
            PR::Fail(x, m, i) => PR::Fail(x, m, i),
        },
        PR::Fail(x, m, i) => PR::Fail(x, m, i),
    }
}

/// ForStmt = "for" "var" IDENT ":" Type "=" Expr "," Expr "," LValue "=" Expr "in" Block
pub open spec fn p_for(ts: Seq<Token>, lim: nat, d: nat, p: nat) -> PR<StmtV>
    decreases ts.len() - p, 3nat,
{
    match p_for_head(ts, lim, d, p) {
        PR::Read(h, q1) => match p_for_step(ts, lim, d, q1) {
            PR::Read(st, q2) => if p < q2 < ts.len() {
                match p_block(ts, lim, d, q2) {
                    PR::Read(body, q3) => PR::Read(
                        StmtV::For(h.0, h.1, h.2, h.3, st.0, st.1, Box::new(body), sp(ts, q3)),
                        q3,
                    ),
                    PR::Fail(x, m, i) => PR::Fail(x, m, i),
                }
            } else {
                err_here(ts, q2, Seq::empty())
            },
            PR::Fail(x, m, i) => PR::Fail(x, m, i),
        },
        PR::Fail(x, m, i) => PR::Fail(x, m, i),
    }
}


// ── Reading: statements ─────────────────────────────────────────────────

fn is_underscore(n: &String) -> (r: bool)
    ensures
        r == (n@ == "_"@),
{
    proof {
        reveal_strlit("_");
    }
    let s = n.as_str();
    if s.unicode_len() == 1 {
        let c = s.get_char(0);
        assert(c == '_' ==> s@ =~= "_"@);
        c == '_'
    } else {
        false
    }
}

/// The left value `e` names, with the span `span`.
fn expr_to_lvalue(e: Expr, span: Range<usize>) -> (r: Option<LValue>)
    ensures
        match to_lvalue(e@, span_v(span)) {
            Some(lv) => r matches Some(x) && x@ == lv,
            None => r is None,
        },
{
    match e {
        Expr::Ident(name, _) => Some(LValue::Ident(name, span)),
        Expr::Index { array, index, .. } => Some(LValue::Index { array, index, span }),
        Expr::FieldAccess { obj, field, .. } => Some(LValue::FieldAccess { obj, field, span }),
        _ => None,
    }
}

/// The error of an expression that cannot be assigned to, at its first token.
fn lvalue_err(ts: &[Token], at: usize) -> (e: ParseError)
    requires
        at < ts@.len(),
    ensures
        err_matches(ts@, e, at as nat, lvalue_msg(), false),
{
    let t = &ts[at];
    ParseError {
        msg: string_of("赋值左侧必须是变量、索引或字段访问，但得到表达式"),
        line: t.line,
        col: t.col,
        span: Range { start: t.span.start, end: t.span.end },
        is_incomplete: false,
    }
}

fn parse_binding(ts: &[Token], p: usize) -> (r: Result<(VarBinding, usize), ParseError>)
    requires
        wf(ts@),
        p < ts@.len(),
    ensures
        res(ts@, r, p_binding(ts@, p as nat), |x: VarBinding| x@),
        moved(ts@, r, p as nat),
{
    match &ts[p].kind {
        TokenKind::Ident(n) => {
            if is_underscore(n) {
                proof {
                    lemma_next_inside(ts@, p as nat);
                }
                return Ok((VarBinding::Discard, p + 1));
            }
        },
        _ => {},
    }
    let (name, q) = match expect_ident(ts, p) {
        Ok(x) => x,
        Err(e) => return Err(e),
    };
    let (_, q2) = match expect(ts, q, TokenKind::Colon) {
        Ok(x) => x,
        Err(e) => return Err(e),
    };
    match parse_type(ts, q2) {
        Ok((ty, q3)) => Ok((VarBinding::Named { name, ty }, q3)),
        Err(e) => Err(e),
    }
}

fn parse_bindings(ts: &[Token], p: usize) -> (r: Result<(Vec<VarBinding>, usize), ParseError>)
    requires
        wf(ts@),
        p < ts@.len(),
    ensures
        res(ts@, r, p_bindings(ts@, p as nat), |x: Vec<VarBinding>| vbs(x@)),
        moved(ts@, r, p as nat),
{
    let (b1, q) = match parse_binding(ts, p) {
        Ok(x) => x,
        Err(e) => return Err(e),
    };
    let mut v: Vec<VarBinding> = Vec::new();
    v.push(b1);
    if kind_is(ts, q, &TokenKind::Comma) {
        let (b2, q2) = match parse_binding(ts, q + 1) {
            Ok(x) => x,
            Err(e) => return Err(e),
        };
        v.push(b2);
        assert(vbs(v@) =~= seq![v@[0]@, v@[1]@]);
        Ok((v, q2))
    } else {
        assert(vbs(v@) =~= seq![v@[0]@]);
        Ok((v, q))
    }
}

fn parse_var_decl(ts: &[Token], lim: usize, d: usize, p: usize) -> (r: Result<(Stmt, usize), ParseError>)
    requires
        wf(ts@),
        p < ts@.len(),
    ensures
        res(ts@, r, p_var_decl(ts@, lim as nat, d as nat, p as nat), |x: Stmt| x@),
        moved(ts@, r, p as nat),
{
    let (_, q1) = match expect(ts, p, TokenKind::Var) {
        Ok(x) => x,
        Err(e) => return Err(e),
    };
    let (bindings, q2) = match parse_bindings(ts, q1) {
        Ok(x) => x,
        Err(e) => return Err(e),
    };
    let (_, q3) = match expect(ts, q2, TokenKind::Assign) {
        Ok(x) => x,
        Err(e) => return Err(e),
    };
    let (init, q4) = match parse_expr_at(ts, lim, d, q3) {
        Ok(x) => x,
        Err(e) => return Err(e),
    };
    match expect(ts, q4, TokenKind::Semi) {
        Ok((_, q5)) => Ok((Stmt::VarDecl { bindings, init: Box::new(init), span: span_at(ts, q5) }, q5)),
        Err(e) => Err(e),
    }
}

fn parse_values(ts: &[Token], lim: usize, d: usize, p: usize) -> (r: Result<(Vec<Expr>, usize), ParseError>)
    requires
        wf(ts@),
        p < ts@.len(),
    ensures
        res(ts@, r, p_values(ts@, lim as nat, d as nat, p as nat), |x: Vec<Expr>| evs(x@)),
        moved(ts@, r, p as nat),
{
    let (v1, q) = match parse_expr_at(ts, lim, d, p) {
        Ok(x) => x,
        Err(e) => return Err(e),
    };
    let mut v: Vec<Expr> = Vec::new();
    v.push(v1);
    if kind_is(ts, q, &TokenKind::Comma) {
        let (v2, q2) = match parse_expr_at(ts, lim, d, q + 1) {
            Ok(x) => x,
            Err(e) => return Err(e),
        };
        v.push(v2);
        proof {
            lemma_evs(v@);
            assert(evs(v@) =~= seq![v@[0]@, v@[1]@]);
        }
        Ok((v, q2))
    } else {
        proof {
            lemma_evs(v@);
            assert(evs(v@) =~= seq![v@[0]@]);
        }
        Ok((v, q))
    }
}

fn parse_return(ts: &[Token], lim: usize, d: usize, p: usize) -> (r: Result<(Stmt, usize), ParseError>)
    requires
        wf(ts@),
        p < ts@.len(),
    ensures
        res(ts@, r, p_return(ts@, lim as nat, d as nat, p as nat), |x: Stmt| x@),
        moved(ts@, r, p as nat),
{
    let (_, q) = match expect(ts, p, TokenKind::Return) {
        Ok(x) => x,
        Err(e) => return Err(e),
    };
    let (values, q2) = if kind_is(ts, q, &TokenKind::Semi) {
        let v: Vec<Expr> = Vec::new();
        assert(evs(v@) =~= Seq::<ExprV>::empty());
        (v, q)
    } else {
        match parse_values(ts, lim, d, q) {
            Ok(x) => x,
            Err(e) => return Err(e),
        }
    };
    match expect(ts, q2, TokenKind::Semi) {
        Ok((_, q3)) => Ok((Stmt::Return { values, span: span_at(ts, q3) }, q3)),
        Err(e) => Err(e),
    }
}

fn parse_expr_or_assign(ts: &[Token], lim: usize, d: usize, p: usize) -> (r: Result<(Stmt, usize), ParseError>)
    requires
        wf(ts@),
        p < ts@.len(),
    ensures
        res(ts@, r, p_expr_or_assign(ts@, lim as nat, d as nat, p as nat), |x: Stmt| x@),
        moved(ts@, r, p as nat),
{
    let (e, q) = match parse_expr_at(ts, lim, d, p) {
        Ok(x) => x,
        Err(err) => return Err(err),
    };
    if kind_is(ts, q, &TokenKind::Assign) {
        let (v, q2) = match parse_expr_at(ts, lim, d, q + 1) {
            Ok(x) => x,
            Err(err) => return Err(err),
        };
        let (_, q3) = match expect(ts, q2, TokenKind::Semi) {
            Ok(x) => x,
            Err(err) => return Err(err),
        };
        match expr_to_lvalue(e, span_at(ts, p)) {
            Some(lv) => Ok((Stmt::Assign { lvalue: lv, value: Box::new(v), span: span_at(ts, q3) }, q3)),
            None => Err(lvalue_err(ts, p)),
        }
    } else {
        match expect(ts, q, TokenKind::Semi) {
            Ok((_, q2)) => Ok((Stmt::Expr(Box::new(e), span_at(ts, q2)), q2)),
            Err(err) => Err(err),
        }
    }
}

fn parse_stmt_at(ts: &[Token], lim: usize, d: usize, p: usize) -> (r: Result<(Stmt, usize), ParseError>)
    requires
        wf(ts@),
        p < ts@.len(),
    ensures
        res(ts@, r, p_stmt(ts@, lim as nat, d as nat, p as nat), |x: Stmt| x@),
        moved(ts@, r, p as nat),
    decreases ts@.len() - p, 9nat,
{
    match &ts[p].kind {
        TokenKind::Var => parse_var_decl(ts, lim, d, p),
        TokenKind::Return => parse_return(ts, lim, d, p),
        TokenKind::If => parse_if(ts, lim, d, p),
        TokenKind::For => parse_for(ts, lim, d, p),
        TokenKind::LBrace => parse_block_at(ts, lim, d, p),
        _ => parse_expr_or_assign(ts, lim, d, p),
    }
}

fn parse_block_body(ts: &[Token], lim: usize, d: usize, p: usize) -> (r: Result<(Vec<Stmt>, usize), ParseError>)
    requires
        wf(ts@),
        p < ts@.len(),
    ensures
        res(ts@, r, p_block_body(ts@, lim as nat, d as nat, p as nat), |x: Vec<Stmt>| svs(x@)),
        moved(ts@, r, p as nat),
    decreases ts@.len() - p, 7nat,
{
    if d >= lim {
        let mut m = string_of("语句块");
        push_str(&mut m, " 嵌套深度超过限制 ");
        push_decimal(&mut m, lim);
        return Err(err_at(ts, p, m));
    }
    let (_, mut q) = match expect(ts, p, TokenKind::LBrace) {
        Ok(x) => x,
        Err(e) => return Err(e),
    };
    let mut stmts: Vec<Stmt> = Vec::new();
    assert(svs(stmts@) =~= Seq::<StmtV>::empty());
    loop
        invariant
            wf(ts@),
            p < q < ts@.len(),
            d < lim,
            p_block_body(ts@, lim as nat, d as nat, p as nat) == block_items(
                ts@,
                lim as nat,
                (d + 1) as nat,
                svs(stmts@),
                q as nat,
            ),
        decreases ts@.len() - q,
    {
        if kind_is(ts, q, &TokenKind::RBrace) || kind_is(ts, q, &TokenKind::Eof) {
            return match expect(ts, q, TokenKind::RBrace) {
                Ok((_, q2)) => Ok((stmts, q2)),
                Err(e) => Err(e),
            };
        }
        let (st, q2) = match parse_stmt_at(ts, lim, d + 1, q) {
            Ok(x) => x,
            Err(e) => return Err(e),
        };
        let ghost old_stmts = stmts@;
        stmts.push(st);
        proof {
            assert(stmts@.drop_last() =~= old_stmts);
        }
        q = q2;
    }
}

fn parse_block_at(ts: &[Token], lim: usize, d: usize, p: usize) -> (r: Result<(Stmt, usize), ParseError>)
    requires
        wf(ts@),
        p < ts@.len(),
    ensures
        res(ts@, r, p_block(ts@, lim as nat, d as nat, p as nat), |x: Stmt| x@),
        moved(ts@, r, p as nat),
    decreases ts@.len() - p, 8nat,
{
    match parse_block_body(ts, lim, d, p) {
        Ok((stmts, q)) => Ok((Stmt::Block(stmts, span_at(ts, q)), q)),
        Err(e) => Err(e),
    }
}

fn parse_if(ts: &[Token], lim: usize, d: usize, p: usize) -> (r: Result<(Stmt, usize), ParseError>)
    requires
        wf(ts@),
        p < ts@.len(),
    ensures
        res(ts@, r, p_if(ts@, lim as nat, d as nat, p as nat), |x: Stmt| x@),
        moved(ts@, r, p as nat),
    decreases ts@.len() - p, 3nat,
{
    let (_, q) = match expect(ts, p, TokenKind::If) {
        Ok(x) => x,
        Err(e) => return Err(e),
    };
    let (c, q1) = match parse_expr_at(ts, lim, d, q) {
        Ok(x) => x,
        Err(e) => return Err(e),
    };
    let (_, q2) = match expect(ts, q1, TokenKind::Then) {
        Ok(x) => x,
        Err(e) => return Err(e),
    };
    let (t, q3) = match parse_stmt_at(ts, lim, d, q2) {
        Ok(x) => x,
        Err(e) => return Err(e),
    };
    if kind_is(ts, q3, &TokenKind::Else) {
        proof {
            lemma_next_inside(ts@, q3 as nat);
        }
        match parse_stmt_at(ts, lim, d, q3 + 1) {
            Ok((e, q4)) => Ok((
                Stmt::If {
                    condition: Box::new(c),
                    then_branch: Box::new(t),
                    else_branch: Some(Box::new(e)),
                    span: span_at(ts, q4),
                },
                q4,
            )),
            Err(err) => Err(err),
        }
    } else {
        Ok((
            Stmt::If { condition: Box::new(c), then_branch: Box::new(t), else_branch: None, span: span_at(ts, q3) },
            q3,
        ))
    }
}

fn parse_for_head(ts: &[Token], lim: usize, d: usize, p: usize) -> (r: Result<((String, Type, Expr, Expr), usize), ParseError>)
    requires
        wf(ts@),
        p < ts@.len(),
    ensures
        res(ts@, r, p_for_head(ts@, lim as nat, d as nat, p as nat), |x: (String, Type, Expr, Expr)| (x.0@, x.1@, x.2@, x.3@)),
        moved(ts@, r, p as nat),
{
    let (_, q1) = match expect(ts, p, TokenKind::For) {
        Ok(x) => x,
        Err(e) => return Err(e),
    };
    let (_, q2) = match expect(ts, q1, TokenKind::Var) {
        Ok(x) => x,
        Err(e) => return Err(e),
    };
    let (n, q3) = match expect_ident(ts, q2) {
        Ok(x) => x,
        Err(e) => return Err(e),
    };
    let (_, q4) = match expect(ts, q3, TokenKind::Colon) {
        Ok(x) => x,
        Err(e) => return Err(e),
    };
    let (t, q5) = match parse_type(ts, q4) {
        Ok(x) => x,
        Err(e) => return Err(e),
    };
    let (_, q6) = match expect(ts, q5, TokenKind::Assign) {
        Ok(x) => x,
        Err(e) => return Err(e),
    };
    let (a, q7) = match parse_expr_at(ts, lim, d, q6) {
        Ok(x) => x,
        Err(e) => return Err(e),
    };
    let (_, q8) = match expect(ts, q7, TokenKind::Comma) {
        Ok(x) => x,
        Err(e) => return Err(e),
    };
    let (b, q9) = match parse_expr_at(ts, lim, d, q8) {
        Ok(x) => x,
        Err(e) => return Err(e),
    };
    match expect(ts, q9, TokenKind::Comma) {
        Ok((_, q10)) => Ok(((n, t, a, b), q10)),
        Err(e) => Err(e),
    }
}

fn parse_for_step(ts: &[Token], lim: usize, d: usize, p: usize) -> (r: Result<((LValue, Expr), usize), ParseError>)
    requires
        wf(ts@),
        p < ts@.len(),
    ensures
        res(ts@, r, p_for_step(ts@, lim as nat, d as nat, p as nat), |x: (LValue, Expr)| (x.0@, x.1@)),
        moved(ts@, r, p as nat),
{
    let (full, q1) = match parse_expr_at(ts, lim, d, p) {
        Ok(x) => x,
        Err(e) => return Err(e),
    };
    let (_, q2) = match expect(ts, q1, TokenKind::Assign) {
        Ok(x) => x,
        Err(e) => return Err(e),
    };
    let (v, q3) = match parse_expr_at(ts, lim, d, q2) {
        Ok(x) => x,
        Err(e) => return Err(e),
    };
    let lv = match expr_to_lvalue(full, span_at(ts, p)) {
        Some(x) => x,
        None => return Err(lvalue_err(ts, p)),
    };
    match expect(ts, q3, TokenKind::In) {
        Ok((_, q4)) => Ok(((lv, v), q4)),
        Err(e) => Err(e),
    }
}

fn parse_for(ts: &[Token], lim: usize, d: usize, p: usize) -> (r: Result<(Stmt, usize), ParseError>)
    requires
        wf(ts@),
        p < ts@.len(),
    ensures
        res(ts@, r, p_for(ts@, lim as nat, d as nat, p as nat), |x: Stmt| x@),
        moved(ts@, r, p as nat),
    decreases ts@.len() - p, 3nat,
{
    let ((var_name, var_type, start, end), q1) = match parse_for_head(ts, lim, d, p) {
        Ok(x) => x,
        Err(e) => return Err(e),
    };
    let ((step_lvalue, step_expr), q2) = match parse_for_step(ts, lim, d, q1) {
        Ok(x) => x,
        Err(e) => return Err(e),
    };
    match parse_block_at(ts, lim, d, q2) {
        Ok((body, q3)) => Ok((
            Stmt::For {
                var_name,
                var_type,
                start: Box::new(start),
                end: Box::new(end),
                step_lvalue,
                step_expr: Box::new(step_expr),
                body: Box::new(body),
                span: span_at(ts, q3),
            },
            q3,
        )),
        Err(e) => Err(e),
    }
}


// ── The grammar: top level ──────────────────────────────────────────────

/// IDENT ":" Type
pub open spec fn p_param(ts: Seq<Token>, p: nat) -> PR<(Seq<char>, TypeV)> {
    match p_ident(ts, p) {
        PR::Read(n, q) => match p_expect(ts, q, TokenKind::Colon) {
            PR::Read(_, q2) => match p_type(ts, q2) {
                PR::Read(t, q3) => PR::Read((n, t), q3),
                PR::Fail(a, m, i) => PR::Fail(a, m, i),
            },
            PR::Fail(a, m, i) => PR::Fail(a, m, i),
        },
        PR::Fail(a, m, i) => PR::Fail(a, m, i),
    }
}

/// `{ "," Param }` after the parameters `acc`.
pub open spec fn params_tail(ts: Seq<Token>, acc: Seq<(Seq<char>, TypeV)>, q: nat) -> PR<Seq<(Seq<char>, TypeV)>>
    decreases ts.len() - q,
{
    if q >= ts.len() {
        PR::Read(acc, q)
    } else if at_kind(ts, q, TokenKind::Comma) {
        match p_param(ts, q + 1) {
            PR::Read(x, q2) => if q < q2 < ts.len() {
                params_tail(ts, acc.push(x), q2)
            } else {
                PR::Read(acc, q)
            },
            PR::Fail(a, m, i) => PR::Fail(a, m, i),
        }
    } else {
        PR::Read(acc, q)
    }
}

/// `{ IDENT ":" Type ";" } "}"` after the fields `acc` (the `}` not taken).
pub open spec fn struct_fields(ts: Seq<Token>, acc: Seq<(Seq<char>, TypeV)>, q: nat) -> PR<Seq<(Seq<char>, TypeV)>>
    decreases ts.len() - q,
{
    if q >= ts.len() || at_kind(ts, q, TokenKind::RBrace) || at_kind(ts, q, TokenKind::Eof) {
        PR::Read(acc, q)
    } else {
        match p_param(ts, q) {
            PR::Read(x, q2) => match p_expect(ts, q2, TokenKind::Semi) {
                PR::Read(_, q3) => if q < q3 < ts.len() {
                    struct_fields(ts, acc.push(x), q3)
                } else {
                    PR::Read(acc, q)
                },
                PR::Fail(a, m, i) => PR::Fail(a, m, i),
            },
            PR::Fail(a, m, i) => PR::Fail(a, m, i),
        }
    }
}

/// StructDef = "struct" IDENT "{" { IDENT ":" Type ";" } "}"
pub open spec fn p_struct_def(ts: Seq<Token>, p: nat) -> PR<StructDefV> {
    match p_expect(ts, p, TokenKind::Struct) {
        PR::Read(_, q1) => match p_ident(ts, q1) {
            PR::Read(n, q2) => match p_expect(ts, q2, TokenKind::LBrace) {
                PR::Read(_, q3) => match struct_fields(ts, Seq::empty(), q3) {
                    PR::Read(fs, q4) => match p_expect(ts, q4, TokenKind::RBrace) {
                        PR::Read(_, q5) => PR::Read(StructDefV { name: n, fields: fs }, q5),
                        PR::Fail(a, m, i) => PR::Fail(a, m, i),
                    },
                    PR::Fail(a, m, i) => PR::Fail(a, m, i),
                },
                PR::Fail(a, m, i) => PR::Fail(a, m, i),
            },
            PR::Fail(a, m, i) => PR::Fail(a, m, i),
        },
        PR::Fail(a, m, i) => PR::Fail(a, m, i),
    }
}

/// "def" IDENT "(" [ Param { "," Param } ] ")" "->": the name and the parameters.
pub open spec fn p_func_head(ts: Seq<Token>, p: nat) -> PR<(Seq<char>, Seq<(Seq<char>, TypeV)>)> {
    match p_expect(ts, p, TokenKind::Def) {
        PR::Read(_, q1) => match p_ident(ts, q1) {
            PR::Read(n, q2) => match p_expect(ts, q2, TokenKind::LParen) {
                PR::Read(_, q3) => {
                    let ps = if at_kind(ts, q3, TokenKind::RParen) {
                        PR::Read(Seq::empty(), q3)
                    } else {
                        match p_param(ts, q3) {
                            PR::Read(x, q4) => params_tail(ts, seq![x], q4),
                            PR::Fail(a, m, i) => PR::Fail(a, m, i),
                        }
                    };
                    match ps {
                        PR::Read(params, q5) => match p_expect(ts, q5, TokenKind::RParen) {
                            PR::Read(_, q6) => match p_expect(ts, q6, TokenKind::Arrow) {
                                PR::Read(_, q7) => PR::Read((n, params), q7),
                                PR::Fail(a, m, i) => PR::Fail(a, m, i),
                            },
                            PR::Fail(a, m, i) => PR::Fail(a, m, i),
                        },
                        PR::Fail(a, m, i) => PR::Fail(a, m, i),
                    }
                },
                PR::Fail(a, m, i) => PR::Fail(a, m, i),
            },
            PR::Fail(a, m, i) => PR::Fail(a, m, i),
        },
        PR::Fail(a, m, i) => PR::Fail(a, m, i),
    }
}

/// FuncDef = "def" IDENT "(" [ Params ] ")" "->" ReturnType Block
pub open spec fn p_func_def(ts: Seq<Token>, lim: nat, p: nat) -> PR<FuncDefV> {
    match p_func_head(ts, p) {
        PR::Read(h, q1) => match p_ret(ts, q1) {
            PR::Read(rt, q2) => match p_block_body(ts, lim, 0, q2) {
                PR::Read(body, q3) => PR::Read(FuncDefV { name: h.0, params: h.1, ret: rt, body }, q3),
                PR::Fail(a, m, i) => PR::Fail(a, m, i),
            },
            PR::Fail(a, m, i) => PR::Fail(a, m, i),
        },
        PR::Fail(a, m, i) => PR::Fail(a, m, i),
    }
}

/// `{ "," IDENT }` after the names `acc`.
pub open spec fn names_tail(ts: Seq<Token>, acc: Seq<Seq<char>>, q: nat) -> PR<Seq<Seq<char>>>
    decreases ts.len() - q,
{
    if q >= ts.len() {
        PR::Read(acc, q)
    } else if at_kind(ts, q, TokenKind::Comma) {
        match p_ident(ts, q + 1) {
            PR::Read(x, q2) => if q < q2 < ts.len() {
                names_tail(ts, acc.push(x), q2)
            } else {
                PR::Read(acc, q)
            },
            PR::Fail(a, m, i) => PR::Fail(a, m, i),
        }
    } else {
        PR::Read(acc, q)
    }
}

/// ImportItems = [ IDENT { "," IDENT } ], empty before `}`.
pub open spec fn p_import_items(ts: Seq<Token>, p: nat) -> PR<Seq<Seq<char>>> {
    if at_kind(ts, p, TokenKind::RBrace) {
        PR::Read(Seq::empty(), p)
    } else {
        match p_ident(ts, p) {
            PR::Read(x, q) => names_tail(ts, seq![x], q),
            PR::Fail(a, m, i) => PR::Fail(a, m, i),
        }
    }
}

/// STR_LIT
pub open spec fn p_path(ts: Seq<Token>, p: nat) -> PR<Seq<char>> {
    match kind(ts, p) {
        TokenKind::StrLit(s) => PR::Read(s@, p + 1),
        _ => err_here(ts, p, "期望字符串路径"@ + got(ts, p)),
    }
}

/// ImportStmt = "import" IDENT "{" ImportItems "}" "from" STR_LIT ";"
pub open spec fn p_import(ts: Seq<Token>, p: nat) -> PR<ImportV> {
    match p_expect(ts, p, TokenKind::Import) {
        PR::Read(_, q1) => match p_ident(ts, q1) {
            PR::Read(alias, q2) => match p_expect(ts, q2, TokenKind::LBrace) {
                PR::Read(_, q3) => match p_import_items(ts, q3) {
                    PR::Read(items, q4) => match p_expect(ts, q4, TokenKind::RBrace) {
                        PR::Read(_, q5) => match p_expect(ts, q5, TokenKind::From) {
                            PR::Read(_, q6) => match p_path(ts, q6) {
                                PR::Read(path, q7) => match p_expect(ts, q7, TokenKind::Semi) {
                                    PR::Read(_, q8) => PR::Read(ImportV { alias, items, path }, q8),
                                    PR::Fail(a, m, i) => PR::Fail(a, m, i),
                                },
                                PR::Fail(a, m, i) => PR::Fail(a, m, i),
                            },
                            PR::Fail(a, m, i) => PR::Fail(a, m, i),
                        },
                        PR::Fail(a, m, i) => PR::Fail(a, m, i),
                    },
                    PR::Fail(a, m, i) => PR::Fail(a, m, i),
                },
                PR::Fail(a, m, i) => PR::Fail(a, m, i),
            },
            PR::Fail(a, m, i) => PR::Fail(a, m, i),
        },
        PR::Fail(a, m, i) => PR::Fail(a, m, i),
    }
}

/// TopLevel = StructDef | FuncDef | ImportStmt
pub open spec fn p_item(ts: Seq<Token>, lim: nat, p: nat) -> PR<TopLevelV> {
    match kind(ts, p) {
        TokenKind::Struct => match p_struct_def(ts, p) {
            PR::Read(x, q) => PR::Read(TopLevelV::Struct(x), q),
            PR::Fail(a, m, i) => PR::Fail(a, m, i),
        },
        TokenKind::Def => match p_func_def(ts, lim, p) {
            PR::Read(x, q) => PR::Read(TopLevelV::Func(x), q),
            PR::Fail(a, m, i) => PR::Fail(a, m, i),
        },
        TokenKind::Import => match p_import(ts, p) {
            PR::Read(x, q) => PR::Read(TopLevelV::Import(x), q),
            PR::Fail(a, m, i) => PR::Fail(a, m, i),
        },
        k => err_here(ts, p, "期望 struct、def 或 import"@ + got(ts, p)),
    }
}

/// `{ TopLevel }` up to `Eof`, after the items `acc`.
pub open spec fn p_items(ts: Seq<Token>, lim: nat, acc: Seq<TopLevelV>, p: nat) -> PR<Seq<TopLevelV>>
    decreases ts.len() - p,
{
    if p >= ts.len() || at_kind(ts, p, TokenKind::Eof) {
        PR::Read(acc, p)
    } else {
        match p_item(ts, lim, p) {
            PR::Read(x, q) => if p < q < ts.len() {
                p_items(ts, lim, acc.push(x), q)
            } else {
                PR::Read(acc, p)
            },
            PR::Fail(a, m, i) => PR::Fail(a, m, i),
        }
    }
}

/// Program = { TopLevel } Eof
pub open spec fn p_program(ts: Seq<Token>, lim: nat) -> PR<Seq<TopLevelV>> {
    p_items(ts, lim, Seq::empty(), 0)
}


// ── Reading: top level ──────────────────────────────────────────────────

fn parse_param(ts: &[Token], p: usize) -> (r: Result<((String, Type), usize), ParseError>)
    requires
        wf(ts@),
        p < ts@.len(),
    ensures
        res(ts@, r, p_param(ts@, p as nat), |x: (String, Type)| (x.0@, x.1@)),
        moved(ts@, r, p as nat),
{
    let (n, q) = match expect_ident(ts, p) {
        Ok(x) => x,
        Err(e) => return Err(e),
    };
    let (_, q2) = match expect(ts, q, TokenKind::Colon) {
        Ok(x) => x,
        Err(e) => return Err(e),
    };
    match parse_type(ts, q2) {
        Ok((t, q3)) => Ok(((n, t), q3)),
        Err(e) => Err(e),
    }
}

#[verifier::loop_isolation(false)]
fn parse_struct_def(ts: &[Token], p: usize) -> (r: Result<(StructDef, usize), ParseError>)
    requires
        wf(ts@),
        p < ts@.len(),
    ensures
        res(ts@, r, p_struct_def(ts@, p as nat), |x: StructDef| x@),
        moved(ts@, r, p as nat),
{
    let (_, q1) = match expect(ts, p, TokenKind::Struct) {
        Ok(x) => x,
        Err(e) => return Err(e),
    };
    let (name, q2) = match expect_ident(ts, q1) {
        Ok(x) => x,
        Err(e) => return Err(e),
    };
    let (_, mut q) = match expect(ts, q2, TokenKind::LBrace) {
        Ok(x) => x,
        Err(e) => return Err(e),
    };
    let ghost q3 = q;
    let mut fields: Vec<(String, Type)> = Vec::new();
    assert(typed_names(fields@) =~= Seq::<(Seq<char>, TypeV)>::empty());
    while !(kind_is(ts, q, &TokenKind::RBrace) || kind_is(ts, q, &TokenKind::Eof))
        invariant
            wf(ts@),
            p < q < ts@.len(),
            struct_fields(ts@, Seq::empty(), q3 as nat) == struct_fields(ts@, typed_names(fields@), q as nat),
        decreases ts@.len() - q,
    {
        let (f, q4) = match parse_param(ts, q) {
            Ok(x) => x,
            Err(e) => return Err(e),
        };
        let (_, q5) = match expect(ts, q4, TokenKind::Semi) {
            Ok(x) => x,
            Err(e) => return Err(e),
        };
        let ghost old_fields = fields@;
        fields.push(f);
        assert(typed_names(fields@) =~= typed_names(old_fields).push((f.0@, f.1@)));
        q = q5;
    }
    match expect(ts, q, TokenKind::RBrace) {
        Ok((_, q6)) => Ok((StructDef { name, fields }, q6)),
        Err(e) => Err(e),
    }
}

#[verifier::loop_isolation(false)]
fn parse_func_head(ts: &[Token], p: usize) -> (r: Result<((String, Vec<(String, Type)>), usize), ParseError>)
    requires
        wf(ts@),
        p < ts@.len(),
    ensures
        res(ts@, r, p_func_head(ts@, p as nat), |x: (String, Vec<(String, Type)>)| (x.0@, typed_names(x.1@))),
        moved(ts@, r, p as nat),
{
    let (_, q1) = match expect(ts, p, TokenKind::Def) {
        Ok(x) => x,
        Err(e) => return Err(e),
    };
    let (name, q2) = match expect_ident(ts, q1) {
        Ok(x) => x,
        Err(e) => return Err(e),
    };
    let (_, q3) = match expect(ts, q2, TokenKind::LParen) {
        Ok(x) => x,
        Err(e) => return Err(e),
    };
    let mut params: Vec<(String, Type)> = Vec::new();
    let mut q = q3;
    if !kind_is(ts, q3, &TokenKind::RParen) {
        let (x, q4) = match parse_param(ts, q3) {
            Ok(x) => x,
            Err(e) => return Err(e),
        };
        params.push(x);
        q = q4;
        assert(typed_names(params@) =~= seq![(x.0@, x.1@)]);
        loop
            invariant
                wf(ts@),
                p < q < ts@.len(),
                !at_kind(ts@, q3 as nat, TokenKind::RParen),
                match p_param(ts@, q3 as nat) {
                    PR::Read(x0, q40) => params_tail(ts@, seq![x0], q40),
                    PR::Fail(a, m, i) => PR::Fail(a, m, i),
                } == params_tail(ts@, typed_names(params@), q as nat),
            decreases ts@.len() - q,
        {
            if !kind_is(ts, q, &TokenKind::Comma) {
                break;
            }
            proof {
                lemma_next_inside(ts@, q as nat);
            }
            let (y, q5) = match parse_param(ts, q + 1) {
                Ok(x) => x,
                Err(e) => return Err(e),
            };
            let ghost old_params = params@;
            params.push(y);
            assert(typed_names(params@) =~= typed_names(old_params).push((y.0@, y.1@)));
            q = q5;
        }
    } else {
        assert(typed_names(params@) =~= Seq::<(Seq<char>, TypeV)>::empty());
    }
    let (_, q6) = match expect(ts, q, TokenKind::RParen) {
        Ok(x) => x,
        Err(e) => return Err(e),
    };
    match expect(ts, q6, TokenKind::Arrow) {
        Ok((_, q7)) => Ok(((name, params), q7)),
        Err(e) => Err(e),
    }
}

fn parse_func_def(ts: &[Token], lim: usize, p: usize) -> (r: Result<(FuncDef, usize), ParseError>)
    requires
        wf(ts@),
        p < ts@.len(),
    ensures
        res(ts@, r, p_func_def(ts@, lim as nat, p as nat), |x: FuncDef| x@),
        moved(ts@, r, p as nat),
{
    let ((name, params), q1) = match parse_func_head(ts, p) {
        Ok(x) => x,
        Err(e) => return Err(e),
    };
    let (return_type, q2) = match parse_return_type(ts, q1) {
        Ok(x) => x,
        Err(e) => return Err(e),
    };
    match parse_block_body(ts, lim, 0, q2) {
        Ok((body, q3)) => Ok((FuncDef { name, params, return_type, body }, q3)),
        Err(e) => Err(e),
    }
}

fn parse_import_items(ts: &[Token], p: usize) -> (r: Result<(Vec<String>, usize), ParseError>)
    requires
        wf(ts@),
        p < ts@.len(),
    ensures
        res(ts@, r, p_import_items(ts@, p as nat), |x: Vec<String>| x@.map_values(|s: String| s@)),
        stayed(ts@, r, p as nat),
{
    let mut items: Vec<String> = Vec::new();
    if kind_is(ts, p, &TokenKind::RBrace) {
        assert(items@.map_values(|s: String| s@) =~= Seq::<Seq<char>>::empty());
        return Ok((items, p));
    }
    let (x, mut q) = match expect_ident(ts, p) {
        Ok(x) => x,
        Err(e) => return Err(e),
    };
    items.push(x);
    assert(items@.map_values(|s: String| s@) =~= seq![x@]);
    loop
        invariant
            wf(ts@),
            p < q < ts@.len(),
            p_import_items(ts@, p as nat) == names_tail(ts@, items@.map_values(|s: String| s@), q as nat),
        decreases ts@.len() - q,
    {
        if !kind_is(ts, q, &TokenKind::Comma) {
            return Ok((items, q));
        }
        proof {
            lemma_next_inside(ts@, q as nat);
        }
        let (y, q2) = match expect_ident(ts, q + 1) {
            Ok(x) => x,
            Err(e) => return Err(e),
        };
        let ghost old_items = items@;
        items.push(y);
        assert(items@.map_values(|s: String| s@) =~= old_items.map_values(|s: String| s@).push(y@));
        q = q2;
    }
}

fn parse_import(ts: &[Token], p: usize) -> (r: Result<(ImportStmt, usize), ParseError>)
    requires
        wf(ts@),
        p < ts@.len(),
    ensures
        res(ts@, r, p_import(ts@, p as nat), |x: ImportStmt| x@),
        moved(ts@, r, p as nat),
{
    let (_, q1) = match expect(ts, p, TokenKind::Import) {
        Ok(x) => x,
        Err(e) => return Err(e),
    };
    let (alias, q2) = match expect_ident(ts, q1) {
        Ok(x) => x,
        Err(e) => return Err(e),
    };
    let (_, q3) = match expect(ts, q2, TokenKind::LBrace) {
        Ok(x) => x,
        Err(e) => return Err(e),
    };
    let (items, q4) = match parse_import_items(ts, q3) {
        Ok(x) => x,
        Err(e) => return Err(e),
    };
    let (_, q5) = match expect(ts, q4, TokenKind::RBrace) {
        Ok(x) => x,
        Err(e) => return Err(e),
    };
    let (_, q6) = match expect(ts, q5, TokenKind::From) {
        Ok(x) => x,
        Err(e) => return Err(e),
    };
    let (path, q7) = match &ts[q6].kind {
        TokenKind::StrLit(s) => {
            proof {
                lemma_next_inside(ts@, q6 as nat);
            }
            (s.clone(), q6 + 1)
        },
        _ => return Err(err_at(ts, q6, got_msg("期望字符串路径", ts, q6))),
    };
    match expect(ts, q7, TokenKind::Semi) {
        Ok((_, q8)) => Ok((ImportStmt { alias, items, path }, q8)),
        Err(e) => Err(e),
    }
}

fn parse_item(ts: &[Token], lim: usize, p: usize) -> (r: Result<(TopLevel, usize), ParseError>)
    requires
        wf(ts@),
        p < ts@.len(),
    ensures
        res(ts@, r, p_item(ts@, lim as nat, p as nat), |x: TopLevel| x@),
        moved(ts@, r, p as nat),
{
    match &ts[p].kind {
        TokenKind::Struct => match parse_struct_def(ts, p) {
            Ok((x, q)) => Ok((TopLevel::Struct(x), q)),
            Err(e) => Err(e),
        },
        TokenKind::Def => match parse_func_def(ts, lim, p) {
            Ok((x, q)) => Ok((TopLevel::Func(x), q)),
            Err(e) => Err(e),
        },
        TokenKind::Import => match parse_import(ts, p) {
            Ok((x, q)) => Ok((TopLevel::Import(x), q)),
            Err(e) => Err(e),
        },
        _ => Err(err_at(ts, p, got_msg("期望 struct、def 或 import", ts, p))),
    }
}

/// Reads a whole program.
fn parse_program(ts: &[Token], lim: usize) -> (r: Result<Program, ParseError>)
    requires
        wf(ts@),
    ensures
        match p_program(ts@, lim as nat) {
            PR::Read(items, _) => r matches Ok(prog) && prog@ == items,
            PR::Fail(at, msg, inc) => r matches Err(e) && err_matches(ts@, e, at, msg, inc),
        },
{
    let mut items: Vec<TopLevel> = Vec::new();
    let mut q: usize = 0;
    assert(items@.map_values(|t: TopLevel| t@) =~= Seq::<TopLevelV>::empty());
    while !kind_is(ts, q, &TokenKind::Eof)
        invariant
            wf(ts@),
            q < ts@.len(),
            p_program(ts@, lim as nat) == p_items(ts@, lim as nat, items@.map_values(|t: TopLevel| t@), q as nat),
        decreases ts@.len() - q,
    {
        let (x, q2) = match parse_item(ts, lim, q) {
            Ok(x) => x,
            Err(e) => return Err(e),
        };
        let ghost old_items = items@;
        items.push(x);
        assert(items@.map_values(|t: TopLevel| t@) =~= old_items.map_values(|t: TopLevel| t@).push(x@));
        q = q2;
    }
    Ok(Program { items })
}


// ── Figures of a tree: nesting depth and node counts ────────────────────
//
// Both are reported in `usize` and stop growing at `usize::MAX`.

/// `x`, or `usize::MAX` when `x` exceeds it.
pub open spec fn sat(x: int) -> int {
    if x < usize::MAX { x } else { usize::MAX as int }
}

pub open spec fn max2(a: nat, b: nat) -> nat {
    if a >= b { a } else { b }
}

pub open spec fn expr_depth(e: ExprV) -> nat
    decreases e,
{
    match e {
        ExprV::Binary(l, _, r, _) => 1 + max2(expr_depth(*l), expr_depth(*r)),
        ExprV::Unary(_, x, _) => 1 + expr_depth(*x),
        ExprV::Call(f, args, _) => 1 + max2(expr_depth(*f), exprs_depth(args)),
        ExprV::Index(a, i, _) => 1 + max2(expr_depth(*a), expr_depth(*i)),
        ExprV::Field(o, _, _) => 1 + expr_depth(*o),
        ExprV::StructLit(_, fs, _) => 1 + fields_depth(fs),
        ExprV::ArrayLit(v, _) => 1 + exprs_depth(v),
        _ => 1,
    }
}

/// The greatest depth among the expressions, 0 for none.
pub open spec fn exprs_depth(s: Seq<ExprV>) -> nat
    decreases s,
{
    if s.len() == 0 {
        0
    } else {
        max2(exprs_depth(s.drop_last()), expr_depth(s.last()))
    }
}

pub open spec fn fields_depth(s: Seq<(Seq<char>, ExprV)>) -> nat
    decreases s,
{
    if s.len() == 0 {
        0
    } else {
        max2(fields_depth(s.drop_last()), expr_depth(s.last().1))
    }
}

pub open spec fn stmt_depth(s: StmtV) -> nat
    decreases s,
{
    match s {
        StmtV::VarDecl(_, init, _) => 1 + expr_depth(init),
        StmtV::Assign(_, v, _) => 1 + expr_depth(v),
        StmtV::Return(vs, _) => 1 + exprs_depth(vs),
        StmtV::If(c, t, e, _) => 1 + max2(
            max2(expr_depth(c), stmt_depth(*t)),
            match e {
                Some(x) => stmt_depth(*x),
                None => 0,
            },
        ),
        StmtV::For(_, _, a, b, _, x, body, _) => 1 + max2(
            max2(max2(expr_depth(a), expr_depth(b)), expr_depth(x)),
            stmt_depth(*body),
        ),
        StmtV::Expr(e, _) => 1 + expr_depth(e),
        StmtV::Block(ss, _) => 1 + stmts_depth(ss),
    }
}

pub open spec fn stmts_depth(s: Seq<StmtV>) -> nat
    decreases s,
{
    if s.len() == 0 {
        0
    } else {
        max2(stmts_depth(s.drop_last()), stmt_depth(s.last()))
    }
}

pub open spec fn item_depth(t: TopLevelV) -> nat {
    match t {
        TopLevelV::Struct(_) => 2,
        TopLevelV::Func(f) => 2 + stmts_depth(f.body),
        TopLevelV::Import(_) => 1,
    }
}

/// The depth of a program: the greatest depth of its items, 0 for none.
pub open spec fn program_depth(s: Seq<TopLevelV>) -> nat
    decreases s.len(),
{
    if s.len() == 0 {
        0
    } else {
        max2(program_depth(s.drop_last()), item_depth(s.last()))
    }
}

/// The node kinds that are counted, by number.
pub open spec fn node_kind_name(k: nat) -> Seq<char> {
    if k == 0 { "struct-def"@ } else if k == 1 { "func-def"@ } else if k == 2 { "import"@ }
    else if k == 3 { "var-decl"@ } else if k == 4 { "assign"@ } else if k == 5 { "return"@ }
    else if k == 6 { "if"@ } else if k == 7 { "for"@ } else if k == 8 { "expr-stmt"@ }
    else if k == 9 { "block"@ } else if k == 10 { "binary"@ } else if k == 11 { "unary"@ }
    else if k == 12 { "call"@ } else if k == 13 { "index"@ } else if k == 14 { "field-access"@ }
    else if k == 15 { "int-lit"@ } else if k == 16 { "float-lit"@ } else if k == 17 { "str-lit"@ }
    else if k == 18 { "bool-lit"@ } else if k == 19 { "ident"@ } else if k == 20 { "array-lit"@ }
    else { "struct-lit"@ }
}

pub open spec fn expr_kind(e: ExprV) -> nat {
    match e {
        ExprV::Binary(..) => 10,
        ExprV::Unary(..) => 11,
        ExprV::Call(..) => 12,
        ExprV::Index(..) => 13,
        ExprV::Field(..) => 14,
        ExprV::IntLit(..) => 15,
        ExprV::FloatLit(..) => 16,
        ExprV::StrLit(..) => 17,
        ExprV::BoolLit(..) => 18,
        ExprV::Ident(..) => 19,
        ExprV::ArrayLit(..) => 20,
        ExprV::StructLit(..) => 21,
    }
}

pub open spec fn stmt_kind(s: StmtV) -> nat {
    match s {
        StmtV::VarDecl(..) => 3,
        StmtV::Assign(..) => 4,
        StmtV::Return(..) => 5,
        StmtV::If(..) => 6,
        StmtV::For(..) => 7,
        StmtV::Expr(..) => 8,
        StmtV::Block(..) => 9,
    }
}

pub open spec fn one(b: bool) -> nat {
    if b { 1 } else { 0 }
}

/// The nodes of kind `k` in an expression (a left value's parts are not counted).
pub open spec fn expr_tally(e: ExprV, k: nat) -> nat
    decreases e,
{
    one(expr_kind(e) == k) + match e {
        ExprV::Binary(l, _, r, _) => expr_tally(*l, k) + expr_tally(*r, k),
        ExprV::Unary(_, x, _) => expr_tally(*x, k),
        ExprV::Call(f, args, _) => expr_tally(*f, k) + exprs_tally(args, k),
        ExprV::Index(a, i, _) => expr_tally(*a, k) + expr_tally(*i, k),
        ExprV::Field(o, _, _) => expr_tally(*o, k),
        ExprV::StructLit(_, fs, _) => fields_tally(fs, k),
        ExprV::ArrayLit(v, _) => exprs_tally(v, k),
        _ => 0,
    }
}

pub open spec fn exprs_tally(s: Seq<ExprV>, k: nat) -> nat
    decreases s,
{
    if s.len() == 0 {
        0
    } else {
        exprs_tally(s.drop_last(), k) + expr_tally(s.last(), k)
    }
}

pub open spec fn fields_tally(s: Seq<(Seq<char>, ExprV)>, k: nat) -> nat
    decreases s,
{
    if s.len() == 0 {
        0
    } else {
        fields_tally(s.drop_last(), k) + expr_tally(s.last().1, k)
    }
}

pub open spec fn stmt_tally(s: StmtV, k: nat) -> nat
    decreases s,
{
    one(stmt_kind(s) == k) + match s {
        StmtV::VarDecl(_, init, _) => expr_tally(init, k),
        StmtV::Assign(_, v, _) => expr_tally(v, k),
        StmtV::Return(vs, _) => exprs_tally(vs, k),
        StmtV::If(c, t, e, _) => expr_tally(c, k) + stmt_tally(*t, k) + match e {
            Some(x) => stmt_tally(*x, k),
            None => 0,
        },
        StmtV::For(_, _, a, b, _, x, body, _) => expr_tally(a, k) + expr_tally(b, k) + expr_tally(x, k)
            + stmt_tally(*body, k),
        StmtV::Expr(e, _) => expr_tally(e, k),
        StmtV::Block(ss, _) => stmts_tally(ss, k),
    }
}

pub open spec fn stmts_tally(s: Seq<StmtV>, k: nat) -> nat
    decreases s,
{
    if s.len() == 0 {
        0
    } else {
        stmts_tally(s.drop_last(), k) + stmt_tally(s.last(), k)
    }
}

pub open spec fn item_tally(t: TopLevelV, k: nat) -> nat {
    match t {
        TopLevelV::Struct(_) => one(k == 0),
        TopLevelV::Func(f) => one(k == 1) + stmts_tally(f.body, k),
        TopLevelV::Import(_) => one(k == 2),
    }
}

/// The nodes of kind `k` in a program.
pub open spec fn program_tally(s: Seq<TopLevelV>, k: nat) -> nat
    decreases s.len(),
{
    if s.len() == 0 {
        0
    } else {
        program_tally(s.drop_last(), k) + item_tally(s.last(), k)
    }
}

/// The count list of the kinds `k` and above: each kind that occurs, in
/// order, with its (capped) count.
pub open spec fn tally_list(s: Seq<TopLevelV>, k: nat) -> Seq<(Seq<char>, usize)>
    decreases 22 - k,
{
    if k >= 22 {
        Seq::empty()
    } else if program_tally(s, k) > 0 {
        seq![(node_kind_name(k), sat(program_tally(s, k) as int) as usize)] + tally_list(s, k + 1)
    } else {
        tally_list(s, k + 1)
    }
}

/// The capped sum of the counts of the kinds `k` and above (each capped).
pub open spec fn tally_total(s: Seq<TopLevelV>, k: nat) -> int
    decreases 22 - k,
{
    if k >= 22 {
        0
    } else {
        sat(sat(program_tally(s, k) as int) + tally_total(s, k + 1))
    }
}

pub open spec fn count_func(s: Seq<TopLevelV>) -> nat
    decreases s.len(),
{
    if s.len() == 0 {
        0
    } else {
        count_func(s.drop_last()) + one(s.last() is Func)
    }
}

pub open spec fn count_struct(s: Seq<TopLevelV>) -> nat
    decreases s.len(),
{
    if s.len() == 0 {
        0
    } else {
        count_struct(s.drop_last()) + one(s.last() is Struct)
    }
}


fn sat_inc(x: usize) -> (r: usize)
    ensures
        r == sat(x + 1),
{
    if x < usize::MAX { x + 1 } else { usize::MAX }
}

fn sat_add(x: usize, y: usize) -> (r: usize)
    ensures
        r == sat(x + y),
{
    if x <= usize::MAX - y { x + y } else { usize::MAX }
}

fn max_of(a: usize, b: usize) -> (r: usize)
    ensures
        r == (if a >= b { a } else { b }),
{
    if a >= b { a } else { b }
}

#[verifier::loop_isolation(false)]
fn depth_exprs(v: &Vec<Expr>) -> (r: usize)
    ensures
        r == sat(exprs_depth(evs(v@)) as int),
    decreases v, 0nat,
{
    let mut m: usize = 0;
    let mut i: usize = 0;
    assert(v@.take(0) =~= Seq::<Expr>::empty());
    while i < v.len()
        invariant
            i <= v@.len(),
            m == sat(exprs_depth(evs(v@.take(i as int))) as int),
        decreases v@.len() - i,
    {
        proof {
            assert(decreases_to!(v => v@[i as int]));
            lemma_evs_take(v@, i as int);
            let x = evs(v@.take(i as int));
            assert(x.push(ev_of(&v@[i as int])).drop_last() =~= x);
        }
        let d = depth_expr(&v[i]);
        m = max_of(m, d);
        i += 1;
    }
    assert(v@.take(v@.len() as int) =~= v@);
    m
}

#[verifier::loop_isolation(false)]
fn depth_fields(v: &Vec<(String, Expr)>) -> (r: usize)
    ensures
        r == sat(fields_depth(evf(v@)) as int),
    decreases v, 0nat,
{
    let mut m: usize = 0;
    let mut i: usize = 0;
    assert(v@.take(0) =~= Seq::<(String, Expr)>::empty());
    while i < v.len()
        invariant
            i <= v@.len(),
            m == sat(fields_depth(evf(v@.take(i as int))) as int),
        decreases v@.len() - i,
    {
        proof {
            assert(decreases_to!(v => v@[i as int].1));
            lemma_evf_take(v@, i as int);
            let x = evf(v@.take(i as int));
            assert(x.push((v@[i as int].0@, ev_of(&v@[i as int].1))).drop_last() =~= x);
        }
        let d = depth_expr(&v[i].1);
        m = max_of(m, d);
        i += 1;
    }
    assert(v@.take(v@.len() as int) =~= v@);
    m
}

fn depth_expr(e: &Expr) -> (r: usize)
    ensures
        r == sat(expr_depth(e@) as int),
    decreases e, 1nat,
{
    match e {
        Expr::Binary { left, right, .. } => sat_inc(max_of(depth_expr(&**left), depth_expr(&**right))),
        Expr::Unary { expr, .. } => sat_inc(depth_expr(&**expr)),
        Expr::Call { func, args, .. } => sat_inc(max_of(depth_expr(&**func), depth_exprs(args))),
        Expr::Index { array, index, .. } => sat_inc(max_of(depth_expr(&**array), depth_expr(&**index))),
        Expr::FieldAccess { obj, .. } => sat_inc(depth_expr(&**obj)),
        Expr::StructLit { fields, .. } => sat_inc(depth_fields(fields)),
        Expr::ArrayLit(v, _) => sat_inc(depth_exprs(v)),
        _ => 1,
    }
}

#[verifier::loop_isolation(false)]
fn depth_stmts(v: &Vec<Stmt>) -> (r: usize)
    ensures
        r == sat(stmts_depth(svs(v@)) as int),
    decreases v, 0nat,
{
    let mut m: usize = 0;
    let mut i: usize = 0;
    assert(v@.take(0) =~= Seq::<Stmt>::empty());
    while i < v.len()
        invariant
            i <= v@.len(),
            m == sat(stmts_depth(svs(v@.take(i as int))) as int),
        decreases v@.len() - i,
    {
        proof {
            assert(decreases_to!(v => v@[i as int]));
            lemma_svs_take(v@, i as int);
            let x = svs(v@.take(i as int));
            assert(x.push(sv_of(&v@[i as int])).drop_last() =~= x);
        }
        let d = depth_stmt(&v[i]);
        m = max_of(m, d);
        i += 1;
    }
    assert(v@.take(v@.len() as int) =~= v@);
    m
}

fn depth_stmt(s: &Stmt) -> (r: usize)
    ensures
        r == sat(stmt_depth(s@) as int),
    decreases s, 1nat,
{
    match s {
        Stmt::VarDecl { init, .. } => sat_inc(depth_expr(&**init)),
        Stmt::Assign { value, .. } => sat_inc(depth_expr(&**value)),
        Stmt::Return { values, .. } => sat_inc(depth_exprs(values)),
        Stmt::If { condition, then_branch, else_branch, .. } => {
            let c = depth_expr(&**condition);
            let t = depth_stmt(&**then_branch);
            let e = match else_branch {
                Some(x) => depth_stmt(&**x),
                None => 0,
            };
            sat_inc(max_of(max_of(c, t), e))
        },
        Stmt::For { start, end, step_expr, body, .. } => {
            let a = depth_expr(&**start);
            let b = depth_expr(&**end);
            let x = depth_expr(&**step_expr);
            let y = depth_stmt(&**body);
            sat_inc(max_of(max_of(max_of(a, b), x), y))
        },
        Stmt::Expr(e, _) => sat_inc(depth_expr(&**e)),
        Stmt::Block(v, _) => sat_inc(depth_stmts(v)),
    }
}

/// The nesting depth of a program (capped at `usize::MAX`).
pub fn ast_depth(program: &Program) -> (r: usize)
    ensures
        r == sat(program_depth(program@) as int),
{
    let mut m: usize = 0;
    let mut i: usize = 0;
    let ghost items = program.items@;
    assert(items.take(0).map_values(|t: TopLevel| t@) =~= Seq::<TopLevelV>::empty());
    while i < program.items.len()
        invariant
            i <= items.len(),
            items == program.items@,
            m == sat(program_depth(items.take(i as int).map_values(|t: TopLevel| t@)) as int),
        decreases items.len() - i,
    {
        let d = match &program.items[i] {
            TopLevel::Struct(_) => 2,
            TopLevel::Func(f) => sat_add(2, depth_stmts(&f.body)),
            TopLevel::Import(_) => 1,
        };
        proof {
            let x = items.take(i as int).map_values(|t: TopLevel| t@);
            assert(items.take(i + 1).map_values(|t: TopLevel| t@) =~= x.push(items[i as int]@));
            assert(x.push(items[i as int]@).drop_last() =~= x);
        }
        m = max_of(m, d);
        i += 1;
    }
    assert(items.take(items.len() as int) =~= items);
    m
}


/// The counters hold, for every kind `k`, the capped sum of `base[k]` and `extra(k)`.
pub open spec fn tallied(c: Seq<usize>, base: Seq<usize>, extra: spec_fn(nat) -> nat) -> bool {
    &&& c.len() == 22
    &&& forall|k: int| 0 <= k < 22 ==> #[trigger] c[k] == sat(base[k] + extra(k as nat))
}

fn bump(c: &mut Vec<usize>, k: usize)
    requires
        old(c)@.len() == 22,
        k < 22,
    ensures
        tallied(final(c)@, old(c)@, |j: nat| one(j == k)),
{
    let v = c[k];
    c.set(k, sat_inc(v));
}

#[verifier::loop_isolation(false)]
fn tally_exprs(v: &Vec<Expr>, c: &mut Vec<usize>)
    requires
        old(c)@.len() == 22,
    ensures
        tallied(final(c)@, old(c)@, |k: nat| exprs_tally(evs(v@), k)),
    decreases v, 0nat,
{
    let mut i: usize = 0;
    assert(v@.take(0) =~= Seq::<Expr>::empty());
    while i < v.len()
        invariant
            i <= v@.len(),
            tallied(c@, old(c)@, |k: nat| exprs_tally(evs(v@.take(i as int)), k)),
        decreases v@.len() - i,
    {
        proof {
            assert(decreases_to!(v => v@[i as int]));
            lemma_evs_take(v@, i as int);
            let x = evs(v@.take(i as int));
            assert(x.push(ev_of(&v@[i as int])).drop_last() =~= x);
        }
        tally_expr(&v[i], c);
        i += 1;
    }
    assert(v@.take(v@.len() as int) =~= v@);
}

#[verifier::loop_isolation(false)]
fn tally_fields(v: &Vec<(String, Expr)>, c: &mut Vec<usize>)
    requires
        old(c)@.len() == 22,
    ensures
        tallied(final(c)@, old(c)@, |k: nat| fields_tally(evf(v@), k)),
    decreases v, 0nat,
{
    let mut i: usize = 0;
    assert(v@.take(0) =~= Seq::<(String, Expr)>::empty());
    while i < v.len()
        invariant
            i <= v@.len(),
            tallied(c@, old(c)@, |k: nat| fields_tally(evf(v@.take(i as int)), k)),
        decreases v@.len() - i,
    {
        proof {
            assert(decreases_to!(v => v@[i as int].1));
            lemma_evf_take(v@, i as int);
            let x = evf(v@.take(i as int));
            assert(x.push((v@[i as int].0@, ev_of(&v@[i as int].1))).drop_last() =~= x);
        }
        tally_expr(&v[i].1, c);
        i += 1;
    }
    assert(v@.take(v@.len() as int) =~= v@);
}

fn tally_expr(e: &Expr, c: &mut Vec<usize>)
    requires
        old(c)@.len() == 22,
    ensures
        tallied(final(c)@, old(c)@, |k: nat| expr_tally(e@, k)),
    decreases e, 1nat,
{
    match e {
        Expr::Binary { left, right, .. } => {
            bump(c, 10);
            tally_expr(&**left, c);
            tally_expr(&**right, c);
        },
        Expr::Unary { expr, .. } => {
            bump(c, 11);
            tally_expr(&**expr, c);
        },
        Expr::Call { func, args, .. } => {
            bump(c, 12);
            tally_expr(&**func, c);
            tally_exprs(args, c);
        },
        Expr::Index { array, index, .. } => {
            bump(c, 13);
            tally_expr(&**array, c);
            tally_expr(&**index, c);
        },
        Expr::FieldAccess { obj, .. } => {
            bump(c, 14);
            tally_expr(&**obj, c);
        },
        Expr::IntLit(..) => bump(c, 15),
        Expr::FloatLit(..) => bump(c, 16),
        Expr::StrLit(..) => bump(c, 17),
        Expr::BoolLit(..) => bump(c, 18),
        Expr::Ident(..) => bump(c, 19),
        Expr::ArrayLit(v, _) => {
            bump(c, 20);
            tally_exprs(v, c);
        },
        Expr::StructLit { fields, .. } => {
            bump(c, 21);
            tally_fields(fields, c);
        },
    }
}

#[verifier::loop_isolation(false)]
fn tally_stmts(v: &Vec<Stmt>, c: &mut Vec<usize>)
    requires
        old(c)@.len() == 22,
    ensures
        tallied(final(c)@, old(c)@, |k: nat| stmts_tally(svs(v@), k)),
    decreases v, 0nat,
{
    let mut i: usize = 0;
    assert(v@.take(0) =~= Seq::<Stmt>::empty());
    while i < v.len()
        invariant
            i <= v@.len(),
            tallied(c@, old(c)@, |k: nat| stmts_tally(svs(v@.take(i as int)), k)),
        decreases v@.len() - i,
    {
        proof {
            assert(decreases_to!(v => v@[i as int]));
            lemma_svs_take(v@, i as int);
            let x = svs(v@.take(i as int));
            assert(x.push(sv_of(&v@[i as int])).drop_last() =~= x);
        }
        tally_stmt(&v[i], c);
        i += 1;
    }
    assert(v@.take(v@.len() as int) =~= v@);
}

fn tally_stmt(s: &Stmt, c: &mut Vec<usize>)
    requires
        old(c)@.len() == 22,
    ensures
        tallied(final(c)@, old(c)@, |k: nat| stmt_tally(s@, k)),
    decreases s, 1nat,
{
    match s {
        Stmt::VarDecl { init, .. } => {
            bump(c, 3);
            tally_expr(&**init, c);
        },
        Stmt::Assign { value, .. } => {
            bump(c, 4);
            tally_expr(&**value, c);
        },
        Stmt::Return { values, .. } => {
            bump(c, 5);
            tally_exprs(values, c);
        },
        Stmt::If { condition, then_branch, else_branch, .. } => {
            bump(c, 6);
            tally_expr(&**condition, c);
            tally_stmt(&**then_branch, c);
            match else_branch {
                Some(x) => tally_stmt(&**x, c),
                None => {},
            }
        },
        Stmt::For { start, end, step_expr, body, .. } => {
            bump(c, 7);
            tally_expr(&**start, c);
            tally_expr(&**end, c);
            tally_expr(&**step_expr, c);
            tally_stmt(&**body, c);
        },
        Stmt::Expr(e, _) => {
            bump(c, 8);
            tally_expr(&**e, c);
        },
        Stmt::Block(v, _) => {
            bump(c, 9);
            tally_stmts(v, c);
        },
    }
}

fn node_kind_str(k: usize) -> (r: &'static str)
    requires
        k < 22,
    ensures
        r@ == node_kind_name(k as nat),
{
    if k == 0 { "struct-def" } else if k == 1 { "func-def" } else if k == 2 { "import" }
    else if k == 3 { "var-decl" } else if k == 4 { "assign" } else if k == 5 { "return" }
    else if k == 6 { "if" } else if k == 7 { "for" } else if k == 8 { "expr-stmt" }
    else if k == 9 { "block" } else if k == 10 { "binary" } else if k == 11 { "unary" }
    else if k == 12 { "call" } else if k == 13 { "index" } else if k == 14 { "field-access" }
    else if k == 15 { "int-lit" } else if k == 16 { "float-lit" } else if k == 17 { "str-lit" }
    else if k == 18 { "bool-lit" } else if k == 19 { "ident" } else if k == 20 { "array-lit" }
    else { "struct-lit" }
}

/// The count of each node kind in a program, kinds in a fixed order, only
/// those that occur; and the (capped) total.
pub fn count_nodes(program: &Program) -> (r: (Vec<(String, usize)>, usize))
    ensures
        r.0@.map_values(|x: (String, usize)| (x.0@, x.1)) == tally_list(program@, 0),
        r.1 == tally_total(program@, 0),
{
    let mut c: Vec<usize> = Vec::new();
    let mut k: usize = 0;
    while k < 22
        invariant
            k <= 22,
            c@.len() == k,
            forall|j: int| 0 <= j < k ==> c@[j] == 0,
        decreases 22 - k,
    {
        c.push(0);
        k += 1;
    }
    let ghost c0 = c@;
    let ghost items = program.items@;
    let mut i: usize = 0;
    assert(items.take(0).map_values(|t: TopLevel| t@) =~= Seq::<TopLevelV>::empty());
    while i < program.items.len()
        invariant
            i <= items.len(),
            items == program.items@,
            forall|j: int| 0 <= j < 22 ==> c0[j] == 0,
            c0.len() == 22,
            tallied(c@, c0, |k: nat| program_tally(items.take(i as int).map_values(|t: TopLevel| t@), k)),
        decreases items.len() - i,
    {
        let ghost before = c@;
        match &program.items[i] {
            TopLevel::Struct(_) => bump(&mut c, 0),
            TopLevel::Func(f) => {
                bump(&mut c, 1);
                tally_stmts(&f.body, &mut c);
            },
            TopLevel::Import(_) => bump(&mut c, 2),
        }
        proof {
            let x = items.take(i as int).map_values(|t: TopLevel| t@);
            assert(items.take(i + 1).map_values(|t: TopLevel| t@) =~= x.push(items[i as int]@));
            assert(x.push(items[i as int]@).drop_last() =~= x);
            assert forall|j: int| 0 <= j < 22 implies #[trigger] c@[j] == sat(
                c0[j] + program_tally(items.take(i + 1).map_values(|t: TopLevel| t@), j as nat),
            ) by {
                assert(program_tally(x.push(items[i as int]@), j as nat) == program_tally(x, j as nat) + item_tally(
                    items[i as int]@,
                    j as nat,
                ));
            }
        }
        i += 1;
    }
    assert(items.take(items.len() as int) =~= items);
    let mut out: Vec<(String, usize)> = Vec::new();
    let mut k: usize = 0;
    assert(out@.map_values(|x: (String, usize)| (x.0@, x.1)) + tally_list(program@, 0) =~= tally_list(program@, 0));
    while k < 22
        invariant
            k <= 22,
            c@.len() == 22,
            forall|j: int| 0 <= j < 22 ==> #[trigger] c@[j] == sat(program_tally(program@, j as nat) as int),
            out@.map_values(|x: (String, usize)| (x.0@, x.1)) + tally_list(program@, k as nat) == tally_list(program@, 0),
        decreases 22 - k,
    {
        let ghost before = out@.map_values(|x: (String, usize)| (x.0@, x.1));
        if c[k] > 0 {
            out.push((string_of(node_kind_str(k)), c[k]));
            assert(out@.map_values(|x: (String, usize)| (x.0@, x.1)) =~= before.push((node_kind_name(k as nat), c@[k as int])));
        }
        k += 1;
    }
    assert(out@.map_values(|x: (String, usize)| (x.0@, x.1)) =~= tally_list(program@, 0));
    let mut total: usize = 0;
    let mut k: usize = 22;
    while k > 0
        invariant
            k <= 22,
            c@.len() == 22,
            forall|j: int| 0 <= j < 22 ==> #[trigger] c@[j] == sat(program_tally(program@, j as nat) as int),
            total == tally_total(program@, k as nat),
        decreases k,
    {
        k -= 1;
        total = sat_add(c[k], total);
    }
    (out, total)
}


fn count_items(program: &Program) -> (r: (usize, usize))
    ensures
        r.0 == count_func(program@),
        r.1 == count_struct(program@),
{
    let ghost items = program.items@;
    let mut funcs: usize = 0;
    let mut structs: usize = 0;
    let mut i: usize = 0;
    assert(items.take(0).map_values(|t: TopLevel| t@) =~= Seq::<TopLevelV>::empty());
    while i < program.items.len()
        invariant
            i <= items.len(),
            items == program.items@,
            funcs <= i,
            structs <= i,
            funcs == count_func(items.take(i as int).map_values(|t: TopLevel| t@)),
            structs == count_struct(items.take(i as int).map_values(|t: TopLevel| t@)),
        decreases items.len() - i,
    {
        proof {
            let x = items.take(i as int).map_values(|t: TopLevel| t@);
            assert(items.take(i + 1).map_values(|t: TopLevel| t@) =~= x.push(items[i as int]@));
            assert(x.push(items[i as int]@).drop_last() =~= x);
        }
        match &program.items[i] {
            TopLevel::Func(_) => funcs += 1,
            TopLevel::Struct(_) => structs += 1,
            TopLevel::Import(_) => {},
        }
        i += 1;
    }
    assert(items.take(items.len() as int) =~= items);
    (funcs, structs)
}

// ── Entry points ────────────────────────────────────────────────────────

/// The parser figures of the program `items`.
pub open spec fn parse_stats_of(st: ParseStats, items: Seq<TopLevelV>) -> bool {
    &&& st.ast_max_depth == sat(program_depth(items) as int)
    &&& st.node_counts_by_kind@.map_values(|x: (String, usize)| (x.0@, x.1)) == tally_list(items, 0)
    &&& st.ast_node_count == tally_total(items, 0)
    &&& st.func_count == count_func(items)
    &&& st.struct_count == count_struct(items)
}

/// The message for a stream longer than the bound.
pub open spec fn too_long_msg(n: nat, max: nat) -> Seq<char> {
    "token 数量 "@ + decimal(n) + " 超过限制 "@ + decimal(max)
}

/// An error that points at no token.
pub open spec fn unplaced(e: ParseError, msg: Seq<char>, inc: bool) -> bool {
    &&& e.msg@ == msg
    &&& e.line == 0
    &&& e.col == 0
    &&& span_v(e.span) == (0usize, 0usize)
    &&& e.is_incomplete == inc
}

fn too_long(n: usize, max: usize) -> (e: ParseError)
    ensures
        unplaced(e, too_long_msg(n as nat, max as nat), false),
{
    let mut m = string_of("token 数量 ");
    push_decimal(&mut m, n);
    push_str(&mut m, " 超过限制 ");
    push_decimal(&mut m, max);
    ParseError { msg: m, line: 0, col: 0, span: Range { start: 0, end: 0 }, is_incomplete: false }
}

/// `parse_limited` on a stream closed by its end marker.
fn parse_wf_limited(tokens: &[Token], stats: &mut ParseStats, max_depth: usize, max_tokens: usize) -> (r: Result<Program, ParseError>)
    requires
        wf(tokens@),
    ensures
        tokens@.len() > max_tokens ==> (r matches Err(e) && unplaced(e, too_long_msg(tokens@.len(), max_tokens as nat), false)
            && *final(stats) == *old(stats)),
        tokens@.len() <= max_tokens ==> match p_program(tokens@, max_depth as nat) {
            PR::Read(items, _) => r matches Ok(prog) && prog@ == items && parse_stats_of(*final(stats), items),
            PR::Fail(at, msg, inc) => r matches Err(e) && err_matches(tokens@, e, at, msg, inc) && *final(stats)
                == *old(stats),
        },
{
    if tokens.len() > max_tokens {
        return Err(too_long(tokens.len(), max_tokens));
    }

    let start = clock_now();
    let program = match parse_program(tokens, max_depth) {
        Ok(p) => p,
        Err(e) => return Err(e),
    };
    stats.duration_us = micros_since(&start);
    stats.ast_max_depth = ast_depth(&program);
    let (counts, total) = count_nodes(&program);
    stats.node_counts_by_kind = counts;
    stats.ast_node_count = total;
    let (funcs, structs) = count_items(&program);
    stats.func_count = funcs;
    stats.struct_count = structs;
    Ok(program)
}

/// Parses a whole program under the given bounds on nesting and stream
/// length, and on success records the parser figures in `stats`.
///
/// A stream longer than `max_tokens` is refused with an error that points
/// at no token.  Otherwise the result is exactly the grammar's reading of
/// the stream (`p_program`; an empty stream is read as the lone end
/// marker), and an error is the grammar's first error; on an error `stats`
/// is left as it was.
#[verifier::spinoff_prover]
#[verifier::rlimit(50)]
pub fn parse_limited(tokens: &[Token], stats: &mut ParseStats, max_depth: usize, max_tokens: usize) -> (r: Result<Program, ParseError>)
    requires
        accepted(tokens@),
    ensures
        tokens@.len() > max_tokens ==> (r matches Err(e) && unplaced(e, too_long_msg(tokens@.len(), max_tokens as nat), false)
            && *final(stats) == *old(stats)),
        tokens@.len() <= max_tokens ==> match p_program(read_stream(tokens@), max_depth as nat) {
            PR::Read(items, _) => r matches Ok(prog) && prog@ == items && parse_stats_of(*final(stats), items),
            PR::Fail(at, msg, inc) => r matches Err(e) && err_matches(read_stream(tokens@), e, at, msg, inc) && *final(stats)
                == *old(stats),
        },
{
    if tokens.len() == 0 {
        let v = sentinel_stream();
        assert(read_stream(tokens@) == v@);
        // the lone end marker is within any bound on the stream's length
        parse_wf_limited(v.as_slice(), stats, max_depth, 1)
    } else {
        assert(read_stream(tokens@) == tokens@);
        parse_wf_limited(tokens, stats, max_depth, max_tokens)
    }
}


/// `parse_limited` with the default bounds.
pub fn parse(tokens: &[Token], stats: &mut ParseStats) -> (r: Result<Program, ParseError>)
    requires
        accepted(tokens@),
    ensures
        tokens@.len() > DEFAULT_MAX_TOKENS ==> (r matches Err(e) && unplaced(
            e,
            too_long_msg(tokens@.len(), DEFAULT_MAX_TOKENS as nat),
            false,
        ) && *final(stats) == *old(stats)),
        tokens@.len() <= DEFAULT_MAX_TOKENS ==> match p_program(read_stream(tokens@), DEFAULT_MAX_DEPTH as nat) {
            PR::Read(items, _) => r matches Ok(prog) && prog@ == items && parse_stats_of(*final(stats), items),
            PR::Fail(at, msg, inc) => r matches Err(e) && err_matches(read_stream(tokens@), e, at, msg, inc)
                && *final(stats) == *old(stats),
        },
{
    parse_limited(tokens, stats, DEFAULT_MAX_DEPTH, DEFAULT_MAX_TOKENS)
}

/// A single statement that takes the whole stream.
pub open spec fn p_whole_stmt(ts: Seq<Token>) -> PR<StmtV> {
    match p_stmt(ts, DEFAULT_MAX_DEPTH as nat, 0, 0) {
        PR::Read(s, q) => if at_kind(ts, q, TokenKind::Eof) {
            PR::Read(s, q)
        } else {
            err_here(ts, q, "语句后有额外输入"@)
        },
        PR::Fail(a, m, i) => PR::Fail(a, m, i),
    }
}

/// A single expression that takes the whole stream.
pub open spec fn p_whole_expr(ts: Seq<Token>) -> PR<ExprV> {
    match p_expr(ts, DEFAULT_MAX_DEPTH as nat, 0, 0) {
        PR::Read(e, q) => if at_kind(ts, q, TokenKind::Eof) {
            PR::Read(e, q)
        } else {
            err_here(ts, q, "表达式后有额外输入"@)
        },
        PR::Fail(a, m, i) => PR::Fail(a, m, i),
    }
}

/// Parses one statement that must take all of the stream (an empty stream
/// is read as the lone end marker).
pub fn parse_stmt(tokens: &[Token]) -> (r: Result<Stmt, ParseError>)
    requires
        accepted(tokens@),
    ensures
        match p_whole_stmt(read_stream(tokens@)) {
            PR::Read(s, _) => r matches Ok(x) && x@ == s,
            PR::Fail(at, msg, inc) => r matches Err(e) && err_matches(read_stream(tokens@), e, at, msg, inc),
        },
{
    if tokens.len() == 0 {
        let v = sentinel_stream();
        assert(read_stream(tokens@) == v@);
        parse_stmt_wf(v.as_slice())
    } else {
        assert(read_stream(tokens@) == tokens@);
        parse_stmt_wf(tokens)
    }
}


/// Parses one statement that must take all of the stream.
fn parse_stmt_wf(tokens: &[Token]) -> (r: Result<Stmt, ParseError>)
    requires
        wf(tokens@),
    ensures
        match p_whole_stmt(tokens@) {
            PR::Read(s, _) => r matches Ok(x) && x@ == s,
            PR::Fail(at, msg, inc) => r matches Err(e) && err_matches(tokens@, e, at, msg, inc),
        },
{
    let (st, q) = match parse_stmt_at(tokens, DEFAULT_MAX_DEPTH, 0, 0) {
        Ok(x) => x,
        Err(e) => return Err(e),
    };
    if !kind_is(tokens, q, &TokenKind::Eof) {
        return Err(err_at(tokens, q, string_of("语句后有额外输入")));
    }
    Ok(st)
}

/// Parses one expression that must take all of the stream (an empty stream
/// is read as the lone end marker).
pub fn parse_expr(tokens: &[Token]) -> (r: Result<Expr, ParseError>)
    requires
        accepted(tokens@),
    ensures
        match p_whole_expr(read_stream(tokens@)) {
            PR::Read(e, _) => r matches Ok(x) && x@ == e,
            PR::Fail(at, msg, inc) => r matches Err(e) && err_matches(read_stream(tokens@), e, at, msg, inc),
        },
{
    if tokens.len() == 0 {
        let v = sentinel_stream();
        assert(read_stream(tokens@) == v@);
        parse_expr_wf(v.as_slice())
    } else {
        assert(read_stream(tokens@) == tokens@);
        parse_expr_wf(tokens)
    }
}


/// Parses one expression that must take all of the stream.
fn parse_expr_wf(tokens: &[Token]) -> (r: Result<Expr, ParseError>)
    requires
        wf(tokens@),
    ensures
        match p_whole_expr(tokens@) {
            PR::Read(e, _) => r matches Ok(x) && x@ == e,
            PR::Fail(at, msg, inc) => r matches Err(e) && err_matches(tokens@, e, at, msg, inc),
        },
{
    let (e, q) = match parse_expr_at(tokens, DEFAULT_MAX_DEPTH, 0, 0) {
        Ok(x) => x,
        Err(err) => return Err(err),
    };
    if !kind_is(tokens, q, &TokenKind::Eof) {
        return Err(err_at(tokens, q, string_of("表达式后有额外输入")));
    }
    Ok(e)
}

/// What one line of the interactive loop holds.
#[derive(Debug, Clone)]
pub enum LineResult {
    FuncDef(FuncDef),
    StructDef(StructDef),
    Import(ImportStmt),
    Stmt(Stmt),
    /// A bare expression, to be evaluated and printed.
    Expr(Expr),
}

pub enum LineV {
    FuncDef(FuncDefV),
    StructDef(StructDefV),
    Import(ImportV),
    Stmt(StmtV),
    Expr(ExprV),
}

impl View for LineResult {
    type V = LineV;

    open spec fn view(&self) -> LineV {
        match self {
            LineResult::FuncDef(x) => LineV::FuncDef(x@),
            LineResult::StructDef(x) => LineV::StructDef(x@),
            LineResult::Import(x) => LineV::Import(x@),
            LineResult::Stmt(x) => LineV::Stmt(x@),
            LineResult::Expr(x) => LineV::Expr(x@),
        }
    }
}

/// The kinds that open a statement.
pub open spec fn starts_stmt(k: TokenKind) -> bool {
    k is Var || k is Return || k is If || k is For || k is LBrace
}

/// How a line is read: a definition or import by its keyword, a statement
/// by its opening keyword; otherwise an expression, which `=` turns into an
/// assignment, `;` into an expression statement, and the end of the line
/// leaves a bare expression.
pub open spec fn p_line(ts: Seq<Token>) -> PR<LineV> {
    let lim = DEFAULT_MAX_DEPTH as nat;
    match kind(ts, 0) {
        TokenKind::Def => match p_func_def(ts, lim, 0) {
            PR::Read(x, q) => PR::Read(LineV::FuncDef(x), q),
            PR::Fail(a, m, i) => PR::Fail(a, m, i),
        },
        TokenKind::Struct => match p_struct_def(ts, 0) {
            PR::Read(x, q) => PR::Read(LineV::StructDef(x), q),
            PR::Fail(a, m, i) => PR::Fail(a, m, i),
        },
        TokenKind::Import => match p_import(ts, 0) {
            PR::Read(x, q) => PR::Read(LineV::Import(x), q),
            PR::Fail(a, m, i) => PR::Fail(a, m, i),
        },
        k => if starts_stmt(k) {
            match p_stmt(ts, lim, 0, 0) {
                PR::Read(x, q) => PR::Read(LineV::Stmt(x), q),
                PR::Fail(a, m, i) => PR::Fail(a, m, i),
            }
        } else {
            match p_expr(ts, lim, 0, 0) {
                PR::Read(e, q) => match kind(ts, q) {
                    TokenKind::Assign => match p_expr(ts, lim, 0, q + 1) {
                        PR::Read(v, q2) => match p_expect(ts, q2, TokenKind::Semi) {
                            PR::Read(_, q3) => match to_lvalue(e, sp(ts, 0)) {
                                Some(lv) => PR::Read(LineV::Stmt(StmtV::Assign(lv, v, sp(ts, q3))), q3),
                                None => PR::Fail(0, lvalue_msg(), false),
                            },
                            PR::Fail(a, m, i) => PR::Fail(a, m, i),
                        },
                        PR::Fail(a, m, i) => PR::Fail(a, m, i),
                    },
                    TokenKind::Semi => PR::Read(LineV::Stmt(StmtV::Expr(e, sp(ts, q + 1))), q + 1),
                    TokenKind::Eof => PR::Read(LineV::Expr(e), q),
                    _ => err_here(ts, q, "期望 ; = 或表达式结束"@ + got(ts, q)),
                },
                PR::Fail(a, m, i) => PR::Fail(a, m, i),
            }
        },
    }
}

/// Parses one line of the interactive loop.
///
/// A stream longer than the default bound is refused; a stream of at most
/// one token (only `Eof`) is an incomplete, empty line.  Otherwise the
/// result is the reading `p_line` gives.
pub fn parse_line(tokens: &[Token]) -> (r: Result<LineResult, ParseError>)
    requires
        tokens@.len() <= 1 || wf(tokens@),
    ensures
        tokens@.len() > DEFAULT_MAX_TOKENS ==> (r matches Err(e) && unplaced(
            e,
            too_long_msg(tokens@.len(), DEFAULT_MAX_TOKENS as nat),
            false,
        )),
        tokens@.len() <= 1 ==> (r matches Err(e) && unplaced(e, "空输入"@, true)),
        1 < tokens@.len() <= DEFAULT_MAX_TOKENS ==> match p_line(tokens@) {
            PR::Read(x, _) => r matches Ok(l) && l@ == x,
            PR::Fail(at, msg, inc) => r matches Err(e) && err_matches(tokens@, e, at, msg, inc),
        },
{
    if tokens.len() > DEFAULT_MAX_TOKENS {
        return Err(too_long(tokens.len(), DEFAULT_MAX_TOKENS));
    }
    if tokens.len() <= 1 {
        return Err(ParseError {
            msg: string_of("空输入"),
            line: 0,
            col: 0,
            span: Range { start: 0, end: 0 },
            is_incomplete: true,
        });
    }
    let lim = DEFAULT_MAX_DEPTH;
    match &tokens[0].kind {
        TokenKind::Def => {
            return match parse_func_def(tokens, lim, 0) {
                Ok((x, _)) => Ok(LineResult::FuncDef(x)),
                Err(e) => Err(e),
            };
        },
        TokenKind::Struct => {
            return match parse_struct_def(tokens, 0) {
                Ok((x, _)) => Ok(LineResult::StructDef(x)),
                Err(e) => Err(e),
            };
        },
        TokenKind::Import => {
            return match parse_import(tokens, 0) {
                Ok((x, _)) => Ok(LineResult::Import(x)),
                Err(e) => Err(e),
            };
        },
        TokenKind::Var | TokenKind::Return | TokenKind::If | TokenKind::For | TokenKind::LBrace => {
            return match parse_stmt_at(tokens, lim, 0, 0) {
                Ok((x, _)) => Ok(LineResult::Stmt(x)),
                Err(e) => Err(e),
            };
        },
        _ => {},
    }
    let (e, q) = match parse_expr_at(tokens, lim, 0, 0) {
        Ok(x) => x,
        Err(err) => return Err(err),
    };
    match &tokens[q].kind {
        TokenKind::Assign => {
            proof {
                lemma_next_inside(tokens@, q as nat);
            }
            let (v, q2) = match parse_expr_at(tokens, lim, 0, q + 1) {
                Ok(x) => x,
                Err(err) => return Err(err),
            };
            let (_, q3) = match expect(tokens, q2, TokenKind::Semi) {
                Ok(x) => x,
                Err(err) => return Err(err),
            };
            match expr_to_lvalue(e, span_at(tokens, 0)) {
                Some(lv) => Ok(LineResult::Stmt(Stmt::Assign { lvalue: lv, value: Box::new(v), span: span_at(tokens, q3) })),
                None => Err(lvalue_err(tokens, 0)),
            }
        },
        TokenKind::Semi => {
            proof {
                lemma_next_inside(tokens@, q as nat);
            }
            Ok(LineResult::Stmt(Stmt::Expr(Box::new(e), span_at(tokens, q + 1))))
        },
        TokenKind::Eof => Ok(LineResult::Expr(e)),
        _ => Err(err_at(tokens, q, got_msg("期望 ; = 或表达式结束", tokens, q))),
    }
}

// ── The nesting limit ───────────────────────────────────────────────────

/// A token that no operator or postfix continues an operand across.
pub open spec fn closes_operand(k: TokenKind) -> bool {
    k is RParen || k is RBracket || k is RBrace || k is Semi || k is Comma || k is Eof
}

/// At `p` stand `m` opening parentheses, the integer literal `v`, `m`
/// closing parentheses and then a token that closes the operand.
pub open spec fn nested_literal(ts: Seq<Token>, p: nat, m: nat, v: Seq<char>) -> bool {
    &&& p + 2 * m + 1 < ts.len()
    &&& forall|j: nat| p <= j < p + m ==> (#[trigger] kind(ts, j)) is LParen
    &&& kind(ts, p + m) matches TokenKind::IntLit(x) && x@ == v
    &&& forall|j: nat| p + m + 1 <= j < p + 2 * m + 1 ==> (#[trigger] kind(ts, j)) is RParen
    &&& closes_operand(kind(ts, p + 2 * m + 1))
}

proof fn lemma_tails_stop(ts: Seq<Token>, lim: nat, d: nat, e: ExprV, q: nat)
    requires
        q < ts.len(),
        closes_operand(kind(ts, q)),
    ensures
        postfix_tail(ts, lim, d, e, q) == PR::Read(e, q),
        forall|level: nat| 1 <= level <= 6 ==> #[trigger] bin_tail(ts, lim, d, level, e, q) == PR::Read(e, q),
{
    assert forall|level: nat| 1 <= level <= 6 implies #[trigger] bin_tail(ts, lim, d, level, e, q) == PR::Read(e, q) by {
        assert(level_op(level, kind(ts, q)) is None);
    }
}

/// Through the operator levels from `level` down, an operand followed by a
/// closing token is read as it stands, and a failure comes through as it is.
proof fn lemma_levels_pass(ts: Seq<Token>, lim: nat, d: nat, level: nat, p: nat)
    requires
        1 <= level <= 6,
        p < ts.len(),
        p_unary(ts, lim, d, p) matches PR::Read(e, q) ==> p < q < ts.len() && closes_operand(kind(ts, q)),
    ensures
        p_bin(ts, lim, d, level, p) == p_unary(ts, lim, d, p),
    decreases 7 - level,
{
    if level < 6 {
        lemma_levels_pass(ts, lim, d, level + 1, p);
    }
    if let PR::Read(e, q) = p_unary(ts, lim, d, p) {
        lemma_tails_stop(ts, lim, d, e, q);
        assert(bin_tail(ts, lim, d, level, e, q) == PR::Read(e, q));
    }
}

/// An integer literal inside `m` pairs of parentheses, read at depth `d`:
/// read as the literal itself when the innermost parenthesis stays within
/// the limit (`d + m + 1 <= lim`), and otherwise refused with the depth
/// message at the first parenthesis (or the literal) that goes past it.
pub proof fn law_nesting_limit(ts: Seq<Token>, lim: nat, d: nat, p: nat, m: nat, v: Seq<char>)
    requires
        nested_literal(ts, p, m, v),
    ensures
        d + m + 1 <= lim ==> p_expr(ts, lim, d, p) == PR::<ExprV>::Read(ExprV::IntLit(v, sp(ts, p + m)), p + 2 * m + 1),
        d + m + 1 > lim && d <= lim ==> p_expr(ts, lim, d, p) == PR::<ExprV>::Fail(
            (p + (lim - d)) as nat,
            depth_msg("表达式"@, lim),
            false,
        ),
        d > lim ==> p_expr(ts, lim, d, p) == PR::<ExprV>::Fail(p, depth_msg("表达式"@, lim), false),
    decreases m,
{
    assert(kind(ts, p) is LParen || kind(ts, p) is IntLit);
    if d + 1 > lim {
    } else {
        let d1 = d + 1;
        if m == 0 {
            assert(p_primary(ts, lim, d1, p) == PR::<ExprV>::Read(ExprV::IntLit(v, sp(ts, p)), p + 1));
            lemma_tails_stop(ts, lim, d1, ExprV::IntLit(v, sp(ts, p)), p + 1);
            lemma_levels_pass(ts, lim, d1, 1, p);
        } else {
            let m1 = (m - 1) as nat;
            assert(nested_literal(ts, p + 1, m1, v)) by {
                assert(p + 1 + m1 == p + m);
                assert(p + 1 + 2 * m1 + 1 == p + 2 * m);
                assert(kind(ts, p + 2 * m) is RParen);
            }
            law_nesting_limit(ts, lim, d1, p + 1, m1, v);
            if d1 + m1 + 1 <= lim {
                let q = p + 2 * m;
                assert(kind(ts, q) is RParen);
                assert(p_expect(ts, q, TokenKind::RParen) == PR::<()>::Read((), q + 1));
                assert(p_primary(ts, lim, d1, p) == PR::<ExprV>::Read(ExprV::IntLit(v, sp(ts, p + m)), p + 2 * m + 1));
                lemma_tails_stop(ts, lim, d1, ExprV::IntLit(v, sp(ts, p + m)), p + 2 * m + 1);
            }
            lemma_levels_pass(ts, lim, d1, 1, p);
        }
    }
}

/// A whole expression made of an integer literal in `m` pairs of
/// parentheses is read under the default limit exactly when `m < 256`
/// (`m + 1` levels of nesting), and otherwise refused with the depth message
/// at the parenthesis that goes past the limit.
pub proof fn law_whole_nesting_limit(ts: Seq<Token>, m: nat, v: Seq<char>)
    requires
        nested_literal(ts, 0, m, v),
        kind(ts, 2 * m + 1) is Eof,
    ensures
        m < DEFAULT_MAX_DEPTH ==> p_whole_expr(ts) == PR::<ExprV>::Read(ExprV::IntLit(v, sp(ts, m)), 2 * m + 1),
        m >= DEFAULT_MAX_DEPTH ==> p_whole_expr(ts) == PR::<ExprV>::Fail(
            DEFAULT_MAX_DEPTH as nat,
            depth_msg("表达式"@, DEFAULT_MAX_DEPTH as nat),
            false,
        ),
{
    law_nesting_limit(ts, DEFAULT_MAX_DEPTH as nat, 0, 0, m, v);
}

/// `def NAME() -> i32 { return E; }` and the end, where `E` is the
/// integer literal `v` in `m` pairs of parentheses.
pub open spec fn returns_nested_literal(ts: Seq<Token>, name: Seq<char>, m: nat, v: Seq<char>) -> bool {
    &&& ts.len() == 2 * m + 12
    &&& kind(ts, 0) is Def
    &&& kind(ts, 1) matches TokenKind::Ident(x) && x@ == name
    &&& kind(ts, 2) is LParen
    &&& kind(ts, 3) is RParen
    &&& kind(ts, 4) is Arrow
    &&& kind(ts, 5) is TI32
    &&& kind(ts, 6) is LBrace
    &&& kind(ts, 7) is Return
    &&& nested_literal(ts, 8, m, v)
    &&& kind(ts, 2 * m + 9) is Semi
    &&& kind(ts, 2 * m + 10) is RBrace
    &&& kind(ts, 2 * m + 11) is Eof
}

/// A program whose one function returns an integer literal in `m` pairs of
/// parentheses: the function body is one level of nesting and the literal
/// `m + 1` more, so under the default limit the program is read exactly
/// when `m + 2 <= 256`, and otherwise refused with the depth message at the
/// parenthesis that goes past the limit.
pub proof fn law_program_nesting_limit(ts: Seq<Token>, name: Seq<char>, m: nat, v: Seq<char>)
    requires
        returns_nested_literal(ts, name, m, v),
    ensures
        m + 2 <= DEFAULT_MAX_DEPTH ==> p_program(ts, DEFAULT_MAX_DEPTH as nat) == PR::Read(
            seq![
                TopLevelV::Func(
                    FuncDefV {
                        name,
                        params: Seq::empty(),
                        ret: ReturnTypeV::Single(TypeV::Base(BaseTypeV::I32)),
                        body: seq![StmtV::Return(seq![ExprV::IntLit(v, sp(ts, 8 + m))], sp(ts, 2 * m + 10))],
                    },
                ),
            ],
            2 * m + 11,
        ),
        m + 2 > DEFAULT_MAX_DEPTH ==> p_program(ts, DEFAULT_MAX_DEPTH as nat) == PR::<Seq<TopLevelV>>::Fail(
            (8 + DEFAULT_MAX_DEPTH - 1) as nat,
            depth_msg("表达式"@, DEFAULT_MAX_DEPTH as nat),
            false,
        ),
{
    let lim = DEFAULT_MAX_DEPTH as nat;
    let e_end = 2 * m + 9;
    law_nesting_limit(ts, lim, 1, 8, m, v);
    assert(p_func_head(ts, 0) == PR::Read((name, Seq::<(Seq<char>, TypeV)>::empty()), 5nat));
    assert(p_ret(ts, 5) == PR::Read(ReturnTypeV::Single(TypeV::Base(BaseTypeV::I32)), 6nat));
    if m + 2 <= DEFAULT_MAX_DEPTH {
        let e = ExprV::IntLit(v, sp(ts, 8 + m));
        assert(p_values(ts, lim, 1, 8) == PR::Read(seq![e], e_end));
        let s = StmtV::Return(seq![e], sp(ts, 2 * m + 10));
        assert(p_return(ts, lim, 1, 7) == PR::Read(s, (2 * m + 10) as nat));
        assert(p_stmt(ts, lim, 1, 7) == PR::Read(s, (2 * m + 10) as nat));
        assert(block_items(ts, lim, 1, seq![s], (2 * m + 10) as nat) == PR::Read(seq![s], (2 * m + 11) as nat));
        assert(block_items(ts, lim, 1, Seq::empty(), 7) == PR::Read(seq![s], (2 * m + 11) as nat));
        assert(p_block_body(ts, lim, 0, 6) == PR::Read(seq![s], (2 * m + 11) as nat));
        let f = FuncDefV {
            name,
            params: Seq::empty(),
            ret: ReturnTypeV::Single(TypeV::Base(BaseTypeV::I32)),
            body: seq![s],
        };
        assert(p_item(ts, lim, 0) == PR::Read(TopLevelV::Func(f), (2 * m + 11) as nat));
        assert(p_items(ts, lim, seq![TopLevelV::Func(f)], (2 * m + 11) as nat) == PR::Read(
            seq![TopLevelV::Func(f)],
            (2 * m + 11) as nat,
        ));
        assert(p_items(ts, lim, Seq::empty(), 0) == p_items(ts, lim, Seq::empty().push(TopLevelV::Func(f)), (2 * m + 11) as nat));
        assert(Seq::<TopLevelV>::empty().push(TopLevelV::Func(f)) =~= seq![TopLevelV::Func(f)]);
    } else {
        let at = (8 + DEFAULT_MAX_DEPTH - 1) as nat;
        let msg = depth_msg("表达式"@, lim);
        assert(p_values(ts, lim, 1, 8) == PR::<Seq<ExprV>>::Fail(at, msg, false));
        assert(p_return(ts, lim, 1, 7) == PR::<StmtV>::Fail(at, msg, false));
        assert(p_stmt(ts, lim, 1, 7) == PR::<StmtV>::Fail(at, msg, false));
        assert(block_items(ts, lim, 1, Seq::empty(), 7) == PR::<Seq<StmtV>>::Fail(at, msg, false));
        assert(p_block_body(ts, lim, 0, 6) == PR::<Seq<StmtV>>::Fail(at, msg, false));
        assert(p_item(ts, lim, 0) == PR::<TopLevelV>::Fail(at, msg, false));
    }
}

/// The name an expression starting with a name stands for.
pub open spec fn head_name(e: ExprV) -> Option<Seq<char>> {
    match e {
        ExprV::Ident(n, _) => Some(n),
        ExprV::StructLit(n, _, _) => Some(n),
        _ => None,
    }
}

/// A type keyword at the start of an expression stands for the name it
/// spells: `i32`, `f64`, `str` or `bool`.  Without a `{` after it, it is read
/// as that name alone (so `f64(n)` calls `f64`); with one, as a struct
/// literal of that name.
pub proof fn law_type_keyword_primary(ts: Seq<Token>, lim: nat, d: nat, p: nat)
    requires
        p < ts.len(),
        kind(ts, p) is TI32 || kind(ts, p) is TF64 || kind(ts, p) is TStr || kind(ts, p) is TBool,
    ensures
        ({
            let spelled = if kind(ts, p) is TI32 {
                "i32"@
            } else if kind(ts, p) is TF64 {
                "f64"@
            } else if kind(ts, p) is TStr {
                "str"@
            } else {
                "bool"@
            };
            &&& !at_kind(ts, p + 1, TokenKind::LBrace) ==> p_primary(ts, lim, d, p) == PR::Read(
                ExprV::Ident(spelled, sp(ts, p)),
                p + 1,
            )
            &&& p_primary(ts, lim, d, p) matches PR::Read(e, _) ==> head_name(e) == Some(spelled)
        }),
{
}

} // verus!
