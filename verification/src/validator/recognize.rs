//! The recogniser of the grammar checker: reads a token stream against the
//! Kang grammar and reports the first error, without building a tree.
//!
//! The grammar is written out as spec functions (`v_*`), one per rule, each
//! taking the stream and a position and giving the position after the text
//! the rule reads there, or the position and message of the first error.
//! Each method of `Parser` is proved to do exactly what its rule says: on
//! success it leaves the parser after the text it read, on failure at the
//! offending token with the error of that token.

use vstd::prelude::*;
use crate::text::{decimal, push_decimal, push_str, string_of, text_eq};
use crate::validator::scan::{debug_of, toks_v, Token, TokenKind, TokV};

verus! {

/// The outcome of reading one rule: the position after it, or the position
/// of the offending token and the message.
pub enum VR {
    Done(nat),
    Failed(nat, Seq<char>),
}

/// The stream ends in the `Eof` token.
pub open spec fn stream_wf(ts: Seq<TokV>) -> bool {
    0 < ts.len() && ts.last().kind == TokenKind::Eof@
}

/// The kind of the token at `p` (`Eof` past the end).
pub open spec fn kd(ts: Seq<TokV>, p: nat) -> (nat, Seq<char>) {
    if p < ts.len() {
        ts[p as int].kind
    } else {
        TokenKind::Eof@
    }
}

/// The variant of the token at `p`.
pub open spec fn tag_at(ts: Seq<TokV>, p: nat) -> nat {
    kd(ts, p).0
}

/// The token at `p` is of kind `k`.
pub open spec fn is_k(ts: Seq<TokV>, p: nat, k: TokenKind) -> bool {
    kd(ts, p) == k@
}

/// The kind `expect` is given for an identifier.
pub open spec fn ident_k() -> (nat, Seq<char>) {
    (19nat, Seq::empty())
}

pub open spec fn expect_msg(ts: Seq<TokV>, p: nat, k: (nat, Seq<char>)) -> Seq<char> {
    "expected "@ + debug_of(k) + ", got "@ + debug_of(kd(ts, p))
}

/// A token of the same variant as `k` (its text may differ).
pub open spec fn v_expect(ts: Seq<TokV>, p: nat, k: (nat, Seq<char>)) -> VR {
    if kd(ts, p).0 == k.0 {
        VR::Done(p + 1)
    } else {
        VR::Failed(p, expect_msg(ts, p, k))
    }
}

/// A token of exactly the kind `k`.
pub open spec fn v_kw(ts: Seq<TokV>, p: nat, k: TokenKind) -> VR {
    if kd(ts, p) == k@ {
        VR::Done(p + 1)
    } else {
        VR::Failed(p, expect_msg(ts, p, k@))
    }
}

// ── The grammar: types ──────────────────────────────────────────────────

/// BaseType = "i32" | "f64" | "str" | "bool" | "void" | IDENT
pub open spec fn v_base(ts: Seq<TokV>, p: nat) -> VR {
    let t = tag_at(ts, p);
    if (9 <= t && t <= 13) || t == 19 {
        VR::Done(p + 1)
    } else {
        VR::Failed(p, "expected type, got "@ + debug_of(kd(ts, p)))
    }
}

/// Type = BaseType | "[" BaseType "]"
pub open spec fn v_type(ts: Seq<TokV>, p: nat) -> VR {
    if is_k(ts, p, TokenKind::LBracket) {
        match v_base(ts, p + 1) {
            VR::Done(q) => v_kw(ts, q, TokenKind::RBracket),
            other => other,
        }
    } else {
        v_base(ts, p)
    }
}

/// ReturnType = Type | "(" Type "," Type ")"
pub open spec fn v_ret(ts: Seq<TokV>, p: nat) -> VR {
    if is_k(ts, p, TokenKind::LParen) {
        match v_type(ts, p + 1) {
            VR::Done(q) => match v_kw(ts, q, TokenKind::Comma) {
                VR::Done(q2) => match v_type(ts, q2) {
                    VR::Done(q3) => v_kw(ts, q3, TokenKind::RParen),
                    other => other,
                },
                other => other,
            },
            other => other,
        }
    } else {
        v_type(ts, p)
    }
}

// ── The grammar: expressions ────────────────────────────────────────────
//
// Binary operators come in six levels, loosest first: `||`, `&&`,
// `== !=`, `< <= > >=`, `+ -`, `* /`; each level reads operands of the next
// one, joined from the left.

/// The token variant `t` is an operator of level `l`.
pub open spec fn level_has(l: nat, t: nat) -> bool {
    ||| l == 1 && t == 31
    ||| l == 2 && t == 30
    ||| l == 3 && (t == 28 || t == 29)
    ||| l == 4 && 24 <= t && t <= 27
    ||| l == 5 && (t == 20 || t == 21)
    ||| l == 6 && (t == 22 || t == 23)
}

/// Expr = OrExpr
pub open spec fn v_expr(ts: Seq<TokV>, p: nat) -> VR
    decreases ts.len() - p, 30nat,
{
    if p >= ts.len() {
        VR::Failed(p, Seq::empty())
    } else {
        v_bin(ts, 1, p)
    }
}

/// Level `l` (1 to 6) of the binary operators.
pub open spec fn v_bin(ts: Seq<TokV>, l: nat, p: nat) -> VR
    decreases ts.len() - p, 30 - l,
{
    if p >= ts.len() || l < 1 || l > 6 {
        VR::Failed(p, Seq::empty())
    } else {
        let first = if l == 6 {
            v_unary(ts, p)
        } else {
            v_bin(ts, l + 1, p)
        };
        match first {
            VR::Done(q) => if p < q <= ts.len() {
                bin_tail(ts, l, q)
            } else {
                VR::Done(q)
            },
            other => other,
        }
    }
}

/// `{ op operand }` of level `l`, from `q` on.
pub open spec fn bin_tail(ts: Seq<TokV>, l: nat, q: nat) -> VR
    decreases ts.len() - q, 0nat,
{
    if q >= ts.len() || l < 1 || l > 6 {
        VR::Done(q)
    } else if level_has(l, tag_at(ts, q)) {
        let next = if l == 6 {
            v_unary(ts, q + 1)
        } else {
            v_bin(ts, l + 1, q + 1)
        };
        match next {
            VR::Done(q2) => if q < q2 <= ts.len() {
                bin_tail(ts, l, q2)
            } else {
                VR::Done(q2)
            },
            other => other,
        }
    } else {
        VR::Done(q)
    }
}

/// UnaryExpr = ("-" | "!") UnaryExpr | PostfixExpr
pub open spec fn v_unary(ts: Seq<TokV>, p: nat) -> VR
    decreases ts.len() - p, 21nat,
{
    if p >= ts.len() {
        VR::Failed(p, Seq::empty())
    } else if tag_at(ts, p) == 21 || tag_at(ts, p) == 32 {
        v_unary(ts, p + 1)
    } else {
        v_postfix(ts, p)
    }
}

/// PostfixExpr = Primary { "(" Args ")" | "[" Expr "]" | "." IDENT }
pub open spec fn v_postfix(ts: Seq<TokV>, p: nat) -> VR
    decreases ts.len() - p, 20nat,
{
    if p >= ts.len() {
        VR::Failed(p, Seq::empty())
    } else {
        match v_primary(ts, p) {
            VR::Done(q) => if p < q <= ts.len() {
                postfix_tail(ts, q)
            } else {
                VR::Done(q)
            },
            other => other,
        }
    }
}

/// The postfix operations from `q` on.
pub open spec fn postfix_tail(ts: Seq<TokV>, q: nat) -> VR
    decreases ts.len() - q, 0nat,
{
    if q >= ts.len() {
        VR::Done(q)
    } else if tag_at(ts, q) == 34 {
        match v_args(ts, q + 1) {
            VR::Done(q2) => match v_kw(ts, q2, TokenKind::RParen) {
                VR::Done(q3) => if q < q3 <= ts.len() {
                    postfix_tail(ts, q3)
                } else {
                    VR::Done(q3)
                },
                other => other,
            },
            other => other,
        }
    } else if tag_at(ts, q) == 36 {
        match v_expr(ts, q + 1) {
            VR::Done(q2) => match v_kw(ts, q2, TokenKind::RBracket) {
                VR::Done(q3) => if q < q3 <= ts.len() {
                    postfix_tail(ts, q3)
                } else {
                    VR::Done(q3)
                },
                other => other,
            },
            other => other,
        }
    } else if tag_at(ts, q) == 44 {
        match v_expect(ts, q + 1, ident_k()) {
            VR::Done(q2) => if q < q2 <= ts.len() {
                postfix_tail(ts, q2)
            } else {
                VR::Done(q2)
            },
            other => other,
        }
    } else {
        VR::Done(q)
    }
}

/// An identifier, or a type name that can start an expression.
pub open spec fn ident_or_builtin(t: nat) -> bool {
    t == 19 || (9 <= t && t <= 12)
}

/// Primary = INT_LIT | FLOAT_LIT | STR_LIT | "true" | "false"
///         | (IDENT | "i32" | "f64" | "str" | "bool") [ StructLitTail ]
///         | "[" Args "]" | "(" Expr ")"
pub open spec fn v_primary(ts: Seq<TokV>, p: nat) -> VR
    decreases ts.len() - p, 19nat,
{
    let t = tag_at(ts, p);
    if p >= ts.len() {
        VR::Failed(p, Seq::empty())
    } else if (14 <= t && t <= 18) {
        VR::Done(p + 1)
    } else if ident_or_builtin(t) {
        if is_k(ts, p + 1, TokenKind::LBrace) {
            v_struct_tail(ts, p + 1)
        } else {
            VR::Done(p + 1)
        }
    } else if t == 36 {
        match v_args(ts, p + 1) {
            VR::Done(q) => v_kw(ts, q, TokenKind::RBracket),
            other => other,
        }
    } else if t == 34 {
        match v_expr(ts, p + 1) {
            VR::Done(q) => v_kw(ts, q, TokenKind::RParen),
            other => other,
        }
    } else {
        VR::Failed(p, "unexpected token in expression: "@ + debug_of(kd(ts, p)))
    }
}

/// StructLitTail = "{" [ FieldInit { "," FieldInit } ] "}", from the `{` at `p`.
pub open spec fn v_struct_tail(ts: Seq<TokV>, p: nat) -> VR
    decreases ts.len() - p, 18nat,
{
    if p >= ts.len() {
        VR::Failed(p, Seq::empty())
    } else if is_k(ts, p + 1, TokenKind::RBrace) {
        v_kw(ts, p + 1, TokenKind::RBrace)
    } else {
        match v_field_inits(ts, p + 1) {
            VR::Done(q) => v_kw(ts, q, TokenKind::RBrace),
            other => other,
        }
    }
}

/// FieldInit { "," FieldInit }
pub open spec fn v_field_inits(ts: Seq<TokV>, p: nat) -> VR
    decreases ts.len() - p, 17nat,
{
    if p >= ts.len() {
        VR::Failed(p, Seq::empty())
    } else {
        match v_field_init(ts, p) {
            VR::Done(q) => if p < q <= ts.len() {
                inits_tail(ts, q)
            } else {
                VR::Done(q)
            },
            other => other,
        }
    }
}

/// `{ "," FieldInit }` from `q` on.
pub open spec fn inits_tail(ts: Seq<TokV>, q: nat) -> VR
    decreases ts.len() - q, 0nat,
{
    if q >= ts.len() {
        VR::Done(q)
    } else if is_k(ts, q, TokenKind::Comma) {
        match v_field_init(ts, q + 1) {
            VR::Done(q2) => if q < q2 <= ts.len() {
                inits_tail(ts, q2)
            } else {
                VR::Done(q2)
            },
            other => other,
        }
    } else {
        VR::Done(q)
    }
}

/// FieldInit = IDENT ":" Expr
pub open spec fn v_field_init(ts: Seq<TokV>, p: nat) -> VR
    decreases ts.len() - p, 16nat,
{
    if p >= ts.len() {
        VR::Failed(p, Seq::empty())
    } else {
        match v_expect(ts, p, ident_k()) {
            VR::Done(q) => match v_kw(ts, q, TokenKind::Colon) {
                VR::Done(q2) => if p < q2 <= ts.len() {
                    v_expr(ts, q2)
                } else {
                    VR::Done(q2)
                },
                other => other,
            },
            other => other,
        }
    }
}

/// The token at `p` closes an argument list.
pub open spec fn at_args_end(ts: Seq<TokV>, p: nat) -> bool {
    is_k(ts, p, TokenKind::RParen) || is_k(ts, p, TokenKind::RBracket) || is_k(ts, p, TokenKind::RBrace)
}

/// Args = [ Expr { "," Expr } ], empty before a closing bracket.
pub open spec fn v_args(ts: Seq<TokV>, p: nat) -> VR
    decreases ts.len() - p, 31nat,
{
    if p >= ts.len() {
        VR::Failed(p, Seq::empty())
    } else if at_args_end(ts, p) {
        VR::Done(p)
    } else {
        match v_expr(ts, p) {
            VR::Done(q) => if p < q <= ts.len() {
                args_tail(ts, q)
            } else {
                VR::Done(q)
            },
            other => other,
        }
    }
}

/// `{ "," Expr }` from `q` on.
pub open spec fn args_tail(ts: Seq<TokV>, q: nat) -> VR
    decreases ts.len() - q, 0nat,
{
    if q >= ts.len() {
        VR::Done(q)
    } else if is_k(ts, q, TokenKind::Comma) {
        match v_expr(ts, q + 1) {
            VR::Done(q2) => if q < q2 <= ts.len() {
                args_tail(ts, q2)
            } else {
                VR::Done(q2)
            },
            other => other,
        }
    } else {
        VR::Done(q)
    }
}

// ── The grammar: statements ─────────────────────────────────────────────

/// Block = "{" { Stmt } "}"
pub open spec fn v_block(ts: Seq<TokV>, p: nat) -> VR
    decreases ts.len() - p, 1nat,
{
    if p >= ts.len() {
        VR::Failed(p, Seq::empty())
    } else {
        match v_kw(ts, p, TokenKind::LBrace) {
            VR::Done(q) => block_body(ts, q),
            other => other,
        }
    }
}

/// `{ Stmt } "}"` from `q` on.
pub open spec fn block_body(ts: Seq<TokV>, q: nat) -> VR
    decreases ts.len() - q, 4nat,
{
    if q >= ts.len() {
        VR::Failed(q, Seq::empty())
    } else if is_k(ts, q, TokenKind::RBrace) || is_k(ts, q, TokenKind::Eof) {
        v_kw(ts, q, TokenKind::RBrace)
    } else {
        match v_stmt(ts, q) {
            VR::Done(q2) => if q < q2 <= ts.len() {
                block_body(ts, q2)
            } else {
                VR::Done(q2)
            },
            other => other,
        }
    }
}

/// Stmt = VarDecl | ReturnStmt | IfStmt | ForStmt | Block | ExprOrAssign
pub open spec fn v_stmt(ts: Seq<TokV>, p: nat) -> VR
    decreases ts.len() - p, 3nat,
{
    let t = tag_at(ts, p);
    if p >= ts.len() {
        VR::Failed(p, Seq::empty())
    } else if t == 1 {
        v_var_decl(ts, p)
    } else if t == 2 {
        v_return(ts, p)
    } else if t == 3 {
        v_if(ts, p)
    } else if t == 6 {
        v_for(ts, p)
    } else if t == 38 {
        v_block(ts, p)
    } else {
        v_expr_or_assign(ts, p)
    }
}

/// VarBinding = IDENT ":" Type | "_"
pub open spec fn v_binding(ts: Seq<TokV>, p: nat) -> VR {
    match v_expect(ts, p, ident_k()) {
        VR::Done(q) => if kd(ts, p).1 == "_"@ {
            VR::Done(q)
        } else {
            match v_kw(ts, q, TokenKind::Colon) {
                VR::Done(q2) => v_type(ts, q2),
                other => other,
            }
        },
        other => other,
    }
}

/// VarDecl = "var" VarBinding [ "," VarBinding ] "=" Expr ";"
pub open spec fn v_var_decl(ts: Seq<TokV>, p: nat) -> VR {
    match v_kw(ts, p, TokenKind::Var) {
        VR::Done(q0) => match v_binding(ts, q0) {
            VR::Done(q) => {
                let second = if is_k(ts, q, TokenKind::Comma) {
                    v_binding(ts, q + 1)
                } else {
                    VR::Done(q)
                };
                match second {
                    VR::Done(q2) => match v_kw(ts, q2, TokenKind::Assign) {
                        VR::Done(q3) => match v_expr(ts, q3) {
                            VR::Done(q4) => v_kw(ts, q4, TokenKind::Semi),
                            other => other,
                        },
                        other => other,
                    },
                    other => other,
                }
            },
            other => other,
        },
        other => other,
    }
}

/// ExprOrAssign = Expr [ "=" Expr ] ";"; an expression that cannot be read
/// is reported as a missing statement.
pub open spec fn v_expr_or_assign(ts: Seq<TokV>, p: nat) -> VR {
    match v_expr(ts, p) {
        VR::Failed(at, _) => VR::Failed(at, "expected statement"@),
        VR::Done(q) => if is_k(ts, q, TokenKind::Assign) {
            match v_expr(ts, q + 1) {
                VR::Done(q2) => v_kw(ts, q2, TokenKind::Semi),
                other => other,
            }
        } else {
            v_kw(ts, q, TokenKind::Semi)
        },
    }
}

/// ReturnStmt = "return" [ Expr [ "," Expr ] ] ";"
pub open spec fn v_return(ts: Seq<TokV>, p: nat) -> VR {
    match v_kw(ts, p, TokenKind::Return) {
        VR::Done(q0) => if is_k(ts, q0, TokenKind::Semi) {
            VR::Done(q0 + 1)
        } else {
            match v_expr(ts, q0) {
                VR::Done(q) => {
                    let second = if is_k(ts, q, TokenKind::Comma) {
                        v_expr(ts, q + 1)
                    } else {
                        VR::Done(q)
                    };
                    match second {
                        VR::Done(q2) => v_kw(ts, q2, TokenKind::Semi),
                        other => other,
                    }
                },
                other => other,
            }
        },
        other => other,
    }
}

/// IfStmt = "if" Expr "then" Stmt [ "else" Stmt ]
pub open spec fn v_if(ts: Seq<TokV>, p: nat) -> VR
    decreases ts.len() - p, 2nat,
{
    if p >= ts.len() {
        VR::Failed(p, Seq::empty())
    } else {
        match v_kw(ts, p, TokenKind::If) {
            VR::Done(q0) => match v_expr(ts, q0) {
                VR::Done(q) => match v_kw(ts, q, TokenKind::Then) {
                    VR::Done(q2) => if p < q2 <= ts.len() {
                        match v_stmt(ts, q2) {
                            VR::Done(q3) => if is_k(ts, q3, TokenKind::Else) && p < q3 {
                                v_stmt(ts, q3 + 1)
                            } else {
                                VR::Done(q3)
                            },
                            other => other,
                        }
                    } else {
                        VR::Done(q2)
                    },
                    other => other,
                },
                other => other,
            },
            other => other,
        }
    }
}

/// The head of a `for`: "for" "var" IDENT ":" Type "=" Expr "," Expr ","
/// Expr "=" Expr "in", up to the block.
pub open spec fn v_for_head(ts: Seq<TokV>, p: nat) -> VR {
    match v_kw(ts, p, TokenKind::For) {
        VR::Done(q1) => match v_kw(ts, q1, TokenKind::Var) {
            VR::Done(q2) => match v_expect(ts, q2, ident_k()) {
                VR::Done(q3) => match v_kw(ts, q3, TokenKind::Colon) {
                    VR::Done(q4) => match v_type(ts, q4) {
                        VR::Done(q5) => match v_kw(ts, q5, TokenKind::Assign) {
                            VR::Done(q6) => match v_expr(ts, q6) {
                                VR::Done(q7) => match v_kw(ts, q7, TokenKind::Comma) {
                                    VR::Done(q8) => match v_expr(ts, q8) {
                                        VR::Done(q9) => match v_kw(ts, q9, TokenKind::Comma) {
                                            VR::Done(q10) => match v_expr(ts, q10) {
                                                VR::Done(q11) => match v_kw(ts, q11, TokenKind::Assign) {
                                                    VR::Done(q12) => match v_expr(ts, q12) {
                                                        VR::Done(q13) => v_kw(ts, q13, TokenKind::In),
                                                        other => other,
                                                    },
                                                    other => other,
                                                },
                                                other => other,
                                            },
                                            other => other,
                                        },
                                        other => other,
                                    },
                                    other => other,
                                },
                                other => other,
                            },
                            other => other,
                        },
                        other => other,
                    },
                    other => other,
                },
                other => other,
            },
            other => other,
        },
        other => other,
    }
}

/// ForStmt = ForHead Block
pub open spec fn v_for(ts: Seq<TokV>, p: nat) -> VR
    decreases ts.len() - p, 2nat,
{
    match v_for_head(ts, p) {
        VR::Done(q) => if p < q <= ts.len() {
            v_block(ts, q)
        } else {
            VR::Done(q)
        },
        other => other,
    }
}

// ── The grammar: top level ──────────────────────────────────────────────

/// Field = IDENT ":" Type ";"
pub open spec fn v_field(ts: Seq<TokV>, p: nat) -> VR {
    match v_expect(ts, p, ident_k()) {
        VR::Done(q) => match v_kw(ts, q, TokenKind::Colon) {
            VR::Done(q2) => match v_type(ts, q2) {
                VR::Done(q3) => v_kw(ts, q3, TokenKind::Semi),
                other => other,
            },
            other => other,
        },
        other => other,
    }
}

/// `{ Field } "}"` from `q` on.
pub open spec fn fields_body(ts: Seq<TokV>, q: nat) -> VR
    decreases ts.len() - q,
{
    if q >= ts.len() {
        VR::Failed(q, Seq::empty())
    } else if is_k(ts, q, TokenKind::RBrace) || is_k(ts, q, TokenKind::Eof) {
        v_kw(ts, q, TokenKind::RBrace)
    } else {
        match v_field(ts, q) {
            VR::Done(q2) => if q < q2 <= ts.len() {
                fields_body(ts, q2)
            } else {
                VR::Done(q2)
            },
            other => other,
        }
    }
}

/// StructDef = "struct" IDENT "{" { Field } "}"
pub open spec fn v_struct_def(ts: Seq<TokV>, p: nat) -> VR {
    match v_kw(ts, p, TokenKind::Struct) {
        VR::Done(q) => match v_expect(ts, q, ident_k()) {
            VR::Done(q2) => match v_kw(ts, q2, TokenKind::LBrace) {
                VR::Done(q3) => fields_body(ts, q3),
                other => other,
            },
            other => other,
        },
        other => other,
    }
}

/// Param = IDENT ":" Type
pub open spec fn v_param(ts: Seq<TokV>, p: nat) -> VR {
    match v_expect(ts, p, ident_k()) {
        VR::Done(q) => match v_kw(ts, q, TokenKind::Colon) {
            VR::Done(q2) => v_type(ts, q2),
            other => other,
        },
        other => other,
    }
}

/// `{ "," Param }` from `q` on.
pub open spec fn params_tail(ts: Seq<TokV>, q: nat) -> VR
    decreases ts.len() - q,
{
    if q >= ts.len() {
        VR::Done(q)
    } else if is_k(ts, q, TokenKind::Comma) {
        match v_param(ts, q + 1) {
            VR::Done(q2) => if q < q2 <= ts.len() {
                params_tail(ts, q2)
            } else {
                VR::Done(q2)
            },
            other => other,
        }
    } else {
        VR::Done(q)
    }
}

/// Params = Param { "," Param }
pub open spec fn v_params(ts: Seq<TokV>, p: nat) -> VR {
    match v_param(ts, p) {
        VR::Done(q) => params_tail(ts, q),
        other => other,
    }
}

/// FuncDef = "def" IDENT "(" [ Params ] ")" "->" ReturnType Block
pub open spec fn v_func_def(ts: Seq<TokV>, p: nat) -> VR {
    match v_kw(ts, p, TokenKind::Def) {
        VR::Done(q) => match v_expect(ts, q, ident_k()) {
            VR::Done(q2) => match v_kw(ts, q2, TokenKind::LParen) {
                VR::Done(q3) => {
                    let ps = if is_k(ts, q3, TokenKind::RParen) {
                        VR::Done(q3)
                    } else {
                        v_params(ts, q3)
                    };
                    match ps {
                        VR::Done(q4) => match v_kw(ts, q4, TokenKind::RParen) {
                            VR::Done(q5) => match v_kw(ts, q5, TokenKind::Arrow) {
                                VR::Done(q6) => match v_ret(ts, q6) {
                                    VR::Done(q7) => v_block(ts, q7),
                                    other => other,
                                },
                                other => other,
                            },
                            other => other,
                        },
                        other => other,
                    }
                },
                other => other,
            },
            other => other,
        },
        other => other,
    }
}

/// Program = { StructDef | FuncDef } EOF, from `p` on.
pub open spec fn v_program_from(ts: Seq<TokV>, p: nat) -> VR
    decreases ts.len() - p,
{
    if p >= ts.len() {
        VR::Failed(p, Seq::empty())
    } else if is_k(ts, p, TokenKind::Eof) {
        VR::Done(p)
    } else if is_k(ts, p, TokenKind::Struct) {
        match v_struct_def(ts, p) {
            VR::Done(q) => if p < q <= ts.len() {
                v_program_from(ts, q)
            } else {
                VR::Done(q)
            },
            other => other,
        }
    } else if is_k(ts, p, TokenKind::Def) {
        match v_func_def(ts, p) {
            VR::Done(q) => if p < q <= ts.len() {
                v_program_from(ts, q)
            } else {
                VR::Done(q)
            },
            other => other,
        }
    } else {
        VR::Failed(p, "expected struct or def, got "@ + debug_of(kd(ts, p)))
    }
}

/// A whole program.
pub open spec fn v_program(ts: Seq<TokV>) -> VR {
    v_program_from(ts, 0)
}

// ── The parser ──────────────────────────────────────────────────────────

/// The first error of a text: where it is and what was wrong.
pub struct ParseError {
    pub msg: String,
    pub line: usize,
    pub col: usize,
}

/// The text the checker prints for an error.
pub open spec fn error_text(e: ParseError) -> Seq<char> {
    "Parse error at "@ + decimal(e.line as nat) + ":"@ + decimal(e.col as nat) + " — "@ + e.msg@
}

impl ParseError {
    /// `Parse error at LINE:COL — MESSAGE`
    pub fn describe(&self) -> (r: String)
        ensures
            r@ == error_text(*self),
    {
        let mut s = string_of("Parse error at ");
        push_decimal(&mut s, self.line);
        push_str(&mut s, ":");
        push_decimal(&mut s, self.col);
        push_str(&mut s, " — ");
        push_str(&mut s, self.msg.as_str());
        s
    }
}

/// `e` is the error `m` at the token at `at`.
pub open spec fn err_is(ts: Seq<TokV>, e: ParseError, at: nat, m: Seq<char>) -> bool {
    &&& at < ts.len()
    &&& e.msg@ == m
    &&& e.line == ts[at as int].line
    &&& e.col == ts[at as int].col
}

/// The recogniser's state: the stream and the position of the next token.
pub struct Parser {
    pub tokens: Vec<Token>,
    pub pos: usize,
}

/// A method that read the rule whose outcome is `v` went from `a` to `b`
/// and returned `r`: the stream is unchanged, and the parser stands after
/// the text read, or at the offending token with its error.
pub open spec fn ran(a: Parser, b: Parser, r: Result<(), ParseError>, v: VR) -> bool {
    &&& b.wf()
    &&& b.tokens@ == a.tokens@
    &&& match v {
        VR::Done(q) => r is Ok && b.pos == q,
        VR::Failed(at, m) => b.pos == at && (r matches Err(e) && err_is(a.ts(), e, at, m)),
    }
}

/// A successful read took at least one token.
pub open spec fn moved(a: Parser, b: Parser, r: Result<(), ParseError>) -> bool {
    r is Ok ==> a.pos < b.pos
}

/// A token other than `Eof` is not the last one.
pub proof fn lemma_not_last(ts: Seq<TokV>, p: nat)
    requires
        stream_wf(ts),
        p < ts.len(),
        ts[p as int].kind.0 != 45,
    ensures
        p + 1 < ts.len(),
{
}

impl Parser {
    /// The stream as the specifications see it.
    pub open spec fn ts(&self) -> Seq<TokV> {
        toks_v(self.tokens@)
    }

    /// The stream ends in `Eof` and the position is on a token.
    pub open spec fn wf(&self) -> bool {
        &&& stream_wf(self.ts())
        &&& self.pos < self.tokens@.len()
    }

    pub fn new(tokens: Vec<Token>) -> (r: Parser)
        ensures
            r.tokens@ == tokens@,
            r.pos == 0,
    {
        Parser { tokens, pos: 0 }
    }

    /// The next token.
    pub fn peek(&self) -> (r: &Token)
        requires
            self.pos < self.tokens@.len(),
        ensures
            *r == self.tokens@[self.pos as int],
    {
        &self.tokens[self.pos]
    }

    /// The kind of the next token.
    pub fn peek_kind(&self) -> (r: &TokenKind)
        requires
            self.pos < self.tokens@.len(),
        ensures
            r@ == kd(self.ts(), self.pos as nat),
    {
        &self.tokens[self.pos].kind
    }

    /// Moves past the next token, which is not `Eof`.
    pub fn advance(&mut self)
        requires
            old(self).wf(),
            kd(old(self).ts(), old(self).pos as nat).0 != 45,
        ensures
            final(self).wf(),
            final(self).tokens@ == old(self).tokens@,
            final(self).pos == old(self).pos + 1,
    {
        let n = self.tokens.len();
        proof {
            assert(self.ts().len() == n);
            lemma_not_last(self.ts(), self.pos as nat);
        }
        self.pos += 1;
    }

    /// The error `msg` at the next token.
    pub fn error_here(&self, msg: String) -> (e: ParseError)
        requires
            self.pos < self.tokens@.len(),
        ensures
            err_is(self.ts(), e, self.pos as nat, msg@),
    {
        let t = self.peek();
        ParseError { msg, line: t.line, col: t.col }
    }

    /// `prefix` followed by what `{:?}` prints for the next token's kind.
    fn got_msg(&self, prefix: &str) -> (r: String)
        requires
            self.pos < self.tokens@.len(),
        ensures
            r@ == prefix@ + debug_of(kd(self.ts(), self.pos as nat)),
    {
        let mut s = string_of(prefix);
        let k = self.peek_kind().debug_name();
        push_str(&mut s, k.as_str());
        s
    }

    /// "expected K, got K'" at the next token.
    fn expect_error(&self, expected: &TokenKind) -> (e: ParseError)
        requires
            self.pos < self.tokens@.len(),
        ensures
            err_is(self.ts(), e, self.pos as nat, expect_msg(self.ts(), self.pos as nat, expected@)),
    {
        let mut m = string_of("expected ");
        let k = expected.debug_name();
        push_str(&mut m, k.as_str());
        push_str(&mut m, ", got ");
        let g = self.peek_kind().debug_name();
        push_str(&mut m, g.as_str());
        self.error_here(m)
    }

    /// Takes a token of the same variant as `expected` and gives its index.
    pub fn expect(&mut self, expected: TokenKind) -> (r: Result<usize, ParseError>)
        requires
            old(self).wf(),
            expected@.0 != 45,
        ensures
            final(self).wf(),
            final(self).tokens@ == old(self).tokens@,
            match v_expect(old(self).ts(), old(self).pos as nat, expected@) {
                VR::Done(q) => r == Ok::<usize, ParseError>(old(self).pos) && final(self).pos == q,
                VR::Failed(at, m) => final(self).pos == at && (r matches Err(e) && err_is(old(self).ts(), e, at, m)),
            },
    {
        if self.peek_kind().tag() == expected.tag() {
            let at = self.pos;
            self.advance();
            Ok(at)
        } else {
            Err(self.expect_error(&expected))
        }
    }

    /// Takes a token of exactly the kind `kw`.
    pub fn expect_kw(&mut self, kw: TokenKind) -> (r: Result<(), ParseError>)
        requires
            old(self).wf(),
            kw@.0 != 45,
        ensures
            ran(*old(self), *final(self), r, v_kw(old(self).ts(), old(self).pos as nat, kw)),
    {
        if *self.peek_kind() == kw {
            self.advance();
            Ok(())
        } else {
            Err(self.expect_error(&kw))
        }
    }

    /// Takes the next token if it is of exactly the kind `kw`.
    pub fn match_kw(&mut self, kw: TokenKind) -> (r: bool)
        requires
            old(self).wf(),
            kw@.0 != 45,
        ensures
            final(self).wf(),
            final(self).tokens@ == old(self).tokens@,
            r == is_k(old(self).ts(), old(self).pos as nat, kw),
            final(self).pos == if r { old(self).pos + 1 } else { old(self).pos as int },
    {
        if *self.peek_kind() == kw {
            self.advance();
            true
        } else {
            false
        }
    }

    pub fn parse_type(&mut self) -> (r: Result<(), ParseError>)
        requires
            old(self).wf(),
        ensures
            ran(*old(self), *final(self), r, v_type(old(self).ts(), old(self).pos as nat)),
            moved(*old(self), *final(self), r),
    {
        if self.match_kw(TokenKind::LBracket) {
            self.parse_basetype()?;
            self.expect_kw(TokenKind::RBracket)?;
        } else {
            self.parse_basetype()?;
        }
        Ok(())
    }

    pub fn parse_return_type(&mut self) -> (r: Result<(), ParseError>)
        requires
            old(self).wf(),
        ensures
            ran(*old(self), *final(self), r, v_ret(old(self).ts(), old(self).pos as nat)),
            moved(*old(self), *final(self), r),
    {
        if self.match_kw(TokenKind::LParen) {
            // (T1, T2): exactly two types
            self.parse_type()?;
            self.expect_kw(TokenKind::Comma)?;
            self.parse_type()?;
            self.expect_kw(TokenKind::RParen)?;
        } else {
            self.parse_type()?;
        }
        Ok(())
    }

    pub fn parse_basetype(&mut self) -> (r: Result<(), ParseError>)
        requires
            old(self).wf(),
        ensures
            ran(*old(self), *final(self), r, v_base(old(self).ts(), old(self).pos as nat)),
            moved(*old(self), *final(self), r),
    {
        match self.peek_kind() {
            TokenKind::TI32 | TokenKind::TF64 | TokenKind::TStr | TokenKind::TBool | TokenKind::TVoid => {
                self.advance();
                Ok(())
            },
            TokenKind::Ident(_) => {
                self.advance();
                Ok(())
            },
            _ => {
                let m = self.got_msg("expected type, got ");
                Err(self.error_here(m))
            },
        }
    }
    /// Expr = OrExpr
    pub fn parse_expr(&mut self) -> (r: Result<(), ParseError>)
        requires
            old(self).wf(),
        ensures
            ran(*old(self), *final(self), r, v_expr(old(self).ts(), old(self).pos as nat)),
            moved(*old(self), *final(self), r),
        decreases old(self).tokens@.len() - old(self).pos, 30nat,
    {
        self.parse_or_expr()
    }

    /// OrExpr = AndExpr { "||" AndExpr }
    #[verifier::loop_isolation(false)]
    pub fn parse_or_expr(&mut self) -> (r: Result<(), ParseError>)
        requires
            old(self).wf(),
        ensures
            ran(*old(self), *final(self), r, v_bin(old(self).ts(), 1, old(self).pos as nat)),
            moved(*old(self), *final(self), r),
        decreases old(self).tokens@.len() - old(self).pos, 29nat,
    {
        let ghost ts = self.ts();
        let ghost toks = self.tokens@;
        let ghost p0 = self.pos as nat;
        self.parse_and_expr()?;
        loop
            invariant
                self.wf(),
                self.tokens@ == toks,
                p0 < self.pos,
                v_bin(ts, 1, p0) == bin_tail(ts, 1, self.pos as nat),
            decreases ts.len() - self.pos,
        {
                if !self.match_kw(TokenKind::OrOr) {
                    break;
                }
                self.parse_and_expr()?;
        }
        Ok(())
    }

    /// AndExpr = EqExpr { "&&" EqExpr }
    #[verifier::loop_isolation(false)]
    pub fn parse_and_expr(&mut self) -> (r: Result<(), ParseError>)
        requires
            old(self).wf(),
        ensures
            ran(*old(self), *final(self), r, v_bin(old(self).ts(), 2, old(self).pos as nat)),
            moved(*old(self), *final(self), r),
        decreases old(self).tokens@.len() - old(self).pos, 28nat,
    {
        let ghost ts = self.ts();
        let ghost toks = self.tokens@;
        let ghost p0 = self.pos as nat;
        self.parse_eq_expr()?;
        loop
            invariant
                self.wf(),
                self.tokens@ == toks,
                p0 < self.pos,
                v_bin(ts, 2, p0) == bin_tail(ts, 2, self.pos as nat),
            decreases ts.len() - self.pos,
        {
                if !self.match_kw(TokenKind::AndAnd) {
                    break;
                }
                self.parse_eq_expr()?;
        }
        Ok(())
    }

    /// EqExpr = RelExpr { ("==" | "!=") RelExpr }
    #[verifier::loop_isolation(false)]
    pub fn parse_eq_expr(&mut self) -> (r: Result<(), ParseError>)
        requires
            old(self).wf(),
        ensures
            ran(*old(self), *final(self), r, v_bin(old(self).ts(), 3, old(self).pos as nat)),
            moved(*old(self), *final(self), r),
        decreases old(self).tokens@.len() - old(self).pos, 27nat,
    {
        let ghost ts = self.ts();
        let ghost toks = self.tokens@;
        let ghost p0 = self.pos as nat;
        self.parse_relational_expr()?;
        loop
            invariant
                self.wf(),
                self.tokens@ == toks,
                p0 < self.pos,
                v_bin(ts, 3, p0) == bin_tail(ts, 3, self.pos as nat),
            decreases ts.len() - self.pos,
        {
                if !(*self.peek_kind() == TokenKind::EqEq || *self.peek_kind() == TokenKind::Neq) {
                    break;
                }
                self.advance();
                self.parse_relational_expr()?;
        }
        Ok(())
    }

    /// RelExpr = AddExpr { ("<" | "<=" | ">" | ">=") AddExpr }
    #[verifier::loop_isolation(false)]
    pub fn parse_relational_expr(&mut self) -> (r: Result<(), ParseError>)
        requires
            old(self).wf(),
        ensures
            ran(*old(self), *final(self), r, v_bin(old(self).ts(), 4, old(self).pos as nat)),
            moved(*old(self), *final(self), r),
        decreases old(self).tokens@.len() - old(self).pos, 26nat,
    {
        let ghost ts = self.ts();
        let ghost toks = self.tokens@;
        let ghost p0 = self.pos as nat;
        self.parse_add_expr()?;
        loop
            invariant
                self.wf(),
                self.tokens@ == toks,
                p0 < self.pos,
                v_bin(ts, 4, p0) == bin_tail(ts, 4, self.pos as nat),
            decreases ts.len() - self.pos,
        {
                match self.peek_kind() {
                    TokenKind::Lt | TokenKind::Le | TokenKind::Gt | TokenKind::Ge => {},
                    _ => break,
                }
                self.advance();
                self.parse_add_expr()?;
        }
        Ok(())
    }

    /// AddExpr = MulExpr { ("+" | "-") MulExpr }
    #[verifier::loop_isolation(false)]
    pub fn parse_add_expr(&mut self) -> (r: Result<(), ParseError>)
        requires
            old(self).wf(),
        ensures
            ran(*old(self), *final(self), r, v_bin(old(self).ts(), 5, old(self).pos as nat)),
            moved(*old(self), *final(self), r),
        decreases old(self).tokens@.len() - old(self).pos, 25nat,
    {
        let ghost ts = self.ts();
        let ghost toks = self.tokens@;
        let ghost p0 = self.pos as nat;
        self.parse_mul_expr()?;
        loop
            invariant
                self.wf(),
                self.tokens@ == toks,
                p0 < self.pos,
                v_bin(ts, 5, p0) == bin_tail(ts, 5, self.pos as nat),
            decreases ts.len() - self.pos,
        {
                if !(*self.peek_kind() == TokenKind::Plus || *self.peek_kind() == TokenKind::Minus) {
                    break;
                }
                self.advance();
                self.parse_mul_expr()?;
        }
        Ok(())
    }

    /// MulExpr = UnaryExpr { ("*" | "/") UnaryExpr }
    #[verifier::loop_isolation(false)]
    pub fn parse_mul_expr(&mut self) -> (r: Result<(), ParseError>)
        requires
            old(self).wf(),
        ensures
            ran(*old(self), *final(self), r, v_bin(old(self).ts(), 6, old(self).pos as nat)),
            moved(*old(self), *final(self), r),
        decreases old(self).tokens@.len() - old(self).pos, 24nat,
    {
        let ghost ts = self.ts();
        let ghost toks = self.tokens@;
        let ghost p0 = self.pos as nat;
        self.parse_unary_expr()?;
        loop
            invariant
                self.wf(),
                self.tokens@ == toks,
                p0 < self.pos,
                v_bin(ts, 6, p0) == bin_tail(ts, 6, self.pos as nat),
            decreases ts.len() - self.pos,
        {
                if !(*self.peek_kind() == TokenKind::Star || *self.peek_kind() == TokenKind::Slash) {
                    break;
                }
                self.advance();
                self.parse_unary_expr()?;
        }
        Ok(())
    }

    /// UnaryExpr = ("-" | "!") UnaryExpr | PostfixExpr
    pub fn parse_unary_expr(&mut self) -> (r: Result<(), ParseError>)
        requires
            old(self).wf(),
        ensures
            ran(*old(self), *final(self), r, v_unary(old(self).ts(), old(self).pos as nat)),
            moved(*old(self), *final(self), r),
        decreases old(self).tokens@.len() - old(self).pos, 21nat,
    {
        if *self.peek_kind() == TokenKind::Minus || *self.peek_kind() == TokenKind::Bang {
            self.advance();
            self.parse_unary_expr()?;
        } else {
            self.parse_postfix_expr()?;
        }
        Ok(())
    }

    /// PostfixExpr = Primary { "(" Args ")" | "[" Expr "]" | "." IDENT }
    #[verifier::loop_isolation(false)]
    pub fn parse_postfix_expr(&mut self) -> (r: Result<(), ParseError>)
        requires
            old(self).wf(),
        ensures
            ran(*old(self), *final(self), r, v_postfix(old(self).ts(), old(self).pos as nat)),
            moved(*old(self), *final(self), r),
        decreases old(self).tokens@.len() - old(self).pos, 20nat,
    {
        let ghost ts = self.ts();
        let ghost toks = self.tokens@;
        let ghost p0 = self.pos as nat;
        self.parse_primary()?;
        loop
            invariant
                self.wf(),
                self.tokens@ == toks,
                p0 < self.pos,
                v_postfix(ts, p0) == postfix_tail(ts, self.pos as nat),
            decreases ts.len() - self.pos,
        {
            match self.peek_kind() {
                TokenKind::LParen => {
                    self.advance();
                    self.parse_args()?;
                    self.expect_kw(TokenKind::RParen)?;
                },
                TokenKind::LBracket => {
                    self.advance();
                    self.parse_expr()?;
                    self.expect_kw(TokenKind::RBracket)?;
                },
                TokenKind::Dot => {
                    self.advance();
                    self.expect(TokenKind::Ident(String::new()))?;
                },
                _ => break,
            }
        }
        Ok(())
    }

    /// An identifier, or a type name that can start an expression.
    pub fn is_ident_or_builtin(k: &TokenKind) -> (r: bool)
        ensures
            r == ident_or_builtin(k@.0),
    {
        match k {
            TokenKind::Ident(_) | TokenKind::TI32 | TokenKind::TF64 | TokenKind::TStr | TokenKind::TBool => true,
            _ => false,
        }
    }

    /// Primary = INT_LIT | FLOAT_LIT | STR_LIT | "true" | "false"
    ///         | (IDENT | "i32" | "f64" | "str" | "bool") [ StructLitTail ]
    ///         | "[" Args "]" | "(" Expr ")"
    pub fn parse_primary(&mut self) -> (r: Result<(), ParseError>)
        requires
            old(self).wf(),
        ensures
            ran(*old(self), *final(self), r, v_primary(old(self).ts(), old(self).pos as nat)),
            moved(*old(self), *final(self), r),
        decreases old(self).tokens@.len() - old(self).pos, 19nat,
    {
        match self.peek_kind() {
            TokenKind::IntLit(_) | TokenKind::FloatLit(_) | TokenKind::StrLit(_) | TokenKind::True
            | TokenKind::False => {
                self.advance();
                Ok(())
            },
            k if Self::is_ident_or_builtin(k) => {
                self.advance();
                // an identifier followed by `{` starts a struct literal
                if *self.peek_kind() == TokenKind::LBrace {
                    self.parse_struct_lit_tail()?;
                }
                Ok(())
            },
            TokenKind::LBracket => {
                self.advance();
                self.parse_args()?;
                self.expect_kw(TokenKind::RBracket)?;
                Ok(())
            },
            TokenKind::LParen => {
                self.advance();
                self.parse_expr()?;
                self.expect_kw(TokenKind::RParen)?;
                Ok(())
            },
            _ => {
                let m = self.got_msg("unexpected token in expression: ");
                Err(self.error_here(m))
            },
        }
    }

    /// StructLitTail = "{" [ FieldInit { "," FieldInit } ] "}", at the `{`.
    pub fn parse_struct_lit_tail(&mut self) -> (r: Result<(), ParseError>)
        requires
            old(self).wf(),
            kd(old(self).ts(), old(self).pos as nat) == TokenKind::LBrace@,
        ensures
            ran(*old(self), *final(self), r, v_struct_tail(old(self).ts(), old(self).pos as nat)),
            moved(*old(self), *final(self), r),
        decreases old(self).tokens@.len() - old(self).pos, 18nat,
    {
        self.advance();
        if !(*self.peek_kind() == TokenKind::RBrace) {
            self.parse_field_inits()?;
        }
        self.expect_kw(TokenKind::RBrace)?;
        Ok(())
    }

    /// FieldInit { "," FieldInit }
    #[verifier::loop_isolation(false)]
    pub fn parse_field_inits(&mut self) -> (r: Result<(), ParseError>)
        requires
            old(self).wf(),
        ensures
            ran(*old(self), *final(self), r, v_field_inits(old(self).ts(), old(self).pos as nat)),
            moved(*old(self), *final(self), r),
        decreases old(self).tokens@.len() - old(self).pos, 17nat,
    {
        let ghost ts = self.ts();
        let ghost toks = self.tokens@;
        let ghost p0 = self.pos as nat;
        self.parse_field_init()?;
        loop
            invariant
                self.wf(),
                self.tokens@ == toks,
                p0 < self.pos,
                v_field_inits(ts, p0) == inits_tail(ts, self.pos as nat),
            decreases ts.len() - self.pos,
        {
            if !self.match_kw(TokenKind::Comma) {
                break;
            }
            self.parse_field_init()?;
        }
        Ok(())
    }

    /// FieldInit = IDENT ":" Expr
    pub fn parse_field_init(&mut self) -> (r: Result<(), ParseError>)
        requires
            old(self).wf(),
        ensures
            ran(*old(self), *final(self), r, v_field_init(old(self).ts(), old(self).pos as nat)),
            moved(*old(self), *final(self), r),
        decreases old(self).tokens@.len() - old(self).pos, 16nat,
    {
        self.expect(TokenKind::Ident(String::new()))?;
        self.expect_kw(TokenKind::Colon)?;
        self.parse_expr()?;
        Ok(())
    }

    /// Args = [ Expr { "," Expr } ]; empty before `)`, `]` or `}`.
    #[verifier::loop_isolation(false)]
    pub fn parse_args(&mut self) -> (r: Result<(), ParseError>)
        requires
            old(self).wf(),
        ensures
            ran(*old(self), *final(self), r, v_args(old(self).ts(), old(self).pos as nat)),
            r is Ok ==> old(self).pos <= final(self).pos,
        decreases old(self).tokens@.len() - old(self).pos, 31nat,
    {
        if *self.peek_kind() == TokenKind::RParen || *self.peek_kind() == TokenKind::RBracket
            || *self.peek_kind() == TokenKind::RBrace {
            return Ok(());
        }
        let ghost ts = self.ts();
        let ghost toks = self.tokens@;
        let ghost p0 = self.pos as nat;
        self.parse_expr()?;
        loop
            invariant
                self.wf(),
                self.tokens@ == toks,
                p0 < self.pos,
                v_args(ts, p0) == args_tail(ts, self.pos as nat),
            decreases ts.len() - self.pos,
        {
            if !self.match_kw(TokenKind::Comma) {
                break;
            }
            self.parse_expr()?;
        }
        Ok(())
    }


    /// Block = "{" { Stmt } "}"
    #[verifier::loop_isolation(false)]
    pub fn parse_block(&mut self) -> (r: Result<(), ParseError>)
        requires
            old(self).wf(),
        ensures
            ran(*old(self), *final(self), r, v_block(old(self).ts(), old(self).pos as nat)),
            moved(*old(self), *final(self), r),
        decreases old(self).tokens@.len() - old(self).pos, 1nat,
    {
        let ghost ts = self.ts();
        let ghost toks = self.tokens@;
        let ghost p0 = self.pos as nat;
        self.expect_kw(TokenKind::LBrace)?;
        loop
            invariant
                self.wf(),
                self.tokens@ == toks,
                p0 < self.pos,
                v_block(ts, p0) == block_body(ts, self.pos as nat),
            decreases ts.len() - self.pos,
        {
            if *self.peek_kind() == TokenKind::RBrace || *self.peek_kind() == TokenKind::Eof {
                break;
            }
            self.parse_stmt()?;
        }
        self.expect_kw(TokenKind::RBrace)?;
        Ok(())
    }

    /// Stmt = VarDecl | ReturnStmt | IfStmt | ForStmt | Block | ExprOrAssign
    pub fn parse_stmt(&mut self) -> (r: Result<(), ParseError>)
        requires
            old(self).wf(),
        ensures
            ran(*old(self), *final(self), r, v_stmt(old(self).ts(), old(self).pos as nat)),
            moved(*old(self), *final(self), r),
        decreases old(self).tokens@.len() - old(self).pos, 3nat,
    {
        match self.peek_kind() {
            TokenKind::Var => self.parse_var_decl(),
            TokenKind::Return => self.parse_return_stmt(),
            TokenKind::If => self.parse_if_stmt(),
            TokenKind::For => self.parse_for_stmt(),
            TokenKind::LBrace => self.parse_block(),
            // an expression statement or an assignment
            _ => self.parse_expr_or_assign(),
        }
    }

    /// VarDecl = "var" VarBinding [ "," VarBinding ] "=" Expr ";"
    pub fn parse_var_decl(&mut self) -> (r: Result<(), ParseError>)
        requires
            old(self).wf(),
        ensures
            ran(*old(self), *final(self), r, v_var_decl(old(self).ts(), old(self).pos as nat)),
            moved(*old(self), *final(self), r),
    {
        self.expect_kw(TokenKind::Var)?;
        self.parse_var_binding()?;
        if self.match_kw(TokenKind::Comma) {
            self.parse_var_binding()?;
        }
        self.expect_kw(TokenKind::Assign)?;
        self.parse_expr()?;
        self.expect_kw(TokenKind::Semi)?;
        Ok(())
    }

    /// VarBinding = IDENT ":" Type | "_"
    pub fn parse_var_binding(&mut self) -> (r: Result<(), ParseError>)
        requires
            old(self).wf(),
        ensures
            ran(*old(self), *final(self), r, v_binding(old(self).ts(), old(self).pos as nat)),
            moved(*old(self), *final(self), r),
    {
        let at = self.expect(TokenKind::Ident(String::new()))?;
        // the discard `_` takes no type
        if let TokenKind::Ident(name) = &self.tokens[at].kind {
            if text_eq(name.as_str(), "_") {
                return Ok(());
            }
        }
        self.expect_kw(TokenKind::Colon)?;
        self.parse_type()?;
        Ok(())
    }

    /// ExprOrAssign = Expr [ "=" Expr ] ";"
    pub fn parse_expr_or_assign(&mut self) -> (r: Result<(), ParseError>)
        requires
            old(self).wf(),
        ensures
            ran(*old(self), *final(self), r, v_expr_or_assign(old(self).ts(), old(self).pos as nat)),
            moved(*old(self), *final(self), r),
    {
        // the left side is read as an expression; what an assignment may
        // stand on is left to the semantic checks
        match self.parse_expr() {
            Ok(()) => {},
            Err(_) => {
                return Err(self.error_here(string_of("expected statement")));
            },
        }
        if *self.peek_kind() == TokenKind::Assign {
            self.advance();
            self.parse_expr()?;
            self.expect_kw(TokenKind::Semi)?;
            return Ok(());
        }
        self.expect_kw(TokenKind::Semi)?;
        Ok(())
    }

    /// ReturnStmt = "return" [ Expr [ "," Expr ] ] ";"
    pub fn parse_return_stmt(&mut self) -> (r: Result<(), ParseError>)
        requires
            old(self).wf(),
        ensures
            ran(*old(self), *final(self), r, v_return(old(self).ts(), old(self).pos as nat)),
            moved(*old(self), *final(self), r),
    {
        self.expect_kw(TokenKind::Return)?;
        if *self.peek_kind() == TokenKind::Semi {
            self.advance();
        } else {
            self.parse_expr()?;
            if self.match_kw(TokenKind::Comma) {
                self.parse_expr()?;
            }
            self.expect_kw(TokenKind::Semi)?;
        }
        Ok(())
    }

    /// IfStmt = "if" Expr "then" Stmt [ "else" Stmt ]
    pub fn parse_if_stmt(&mut self) -> (r: Result<(), ParseError>)
        requires
            old(self).wf(),
        ensures
            ran(*old(self), *final(self), r, v_if(old(self).ts(), old(self).pos as nat)),
            moved(*old(self), *final(self), r),
        decreases old(self).tokens@.len() - old(self).pos, 2nat,
    {
        self.expect_kw(TokenKind::If)?;
        self.parse_expr()?;
        self.expect_kw(TokenKind::Then)?;
        self.parse_stmt()?;
        if self.match_kw(TokenKind::Else) {
            self.parse_stmt()?;
        }
        Ok(())
    }

    /// ForStmt = "for" "var" IDENT ":" Type "=" Expr "," Expr "," Expr "=" Expr "in" Block
    pub fn parse_for_stmt(&mut self) -> (r: Result<(), ParseError>)
        requires
            old(self).wf(),
        ensures
            ran(*old(self), *final(self), r, v_for(old(self).ts(), old(self).pos as nat)),
            moved(*old(self), *final(self), r),
        decreases old(self).tokens@.len() - old(self).pos, 2nat,
    {
        self.expect_kw(TokenKind::For)?;
        self.expect_kw(TokenKind::Var)?;
        self.expect(TokenKind::Ident(String::new()))?;
        self.expect_kw(TokenKind::Colon)?;
        self.parse_type()?;
        self.expect_kw(TokenKind::Assign)?;
        self.parse_expr()?;
        self.expect_kw(TokenKind::Comma)?;
        self.parse_expr()?;
        self.expect_kw(TokenKind::Comma)?;
        // the step is an assignment without its semicolon
        self.parse_expr()?;
        self.expect_kw(TokenKind::Assign)?;
        self.parse_expr()?;
        self.expect_kw(TokenKind::In)?;
        self.parse_block()?;
        Ok(())
    }

    /// StructDef = "struct" IDENT "{" { Field } "}"
    #[verifier::loop_isolation(false)]
    pub fn parse_struct_def(&mut self) -> (r: Result<(), ParseError>)
        requires
            old(self).wf(),
        ensures
            ran(*old(self), *final(self), r, v_struct_def(old(self).ts(), old(self).pos as nat)),
            moved(*old(self), *final(self), r),
    {
        let ghost ts = self.ts();
        let ghost toks = self.tokens@;
        let ghost p0 = self.pos as nat;
        self.expect_kw(TokenKind::Struct)?;
        self.expect(TokenKind::Ident(String::new()))?;
        self.expect_kw(TokenKind::LBrace)?;
        loop
            invariant
                self.wf(),
                self.tokens@ == toks,
                p0 < self.pos,
                v_struct_def(ts, p0) == fields_body(ts, self.pos as nat),
            decreases ts.len() - self.pos,
        {
            if *self.peek_kind() == TokenKind::RBrace || *self.peek_kind() == TokenKind::Eof {
                break;
            }
            self.parse_field()?;
        }
        self.expect_kw(TokenKind::RBrace)?;
        Ok(())
    }

    /// Field = IDENT ":" Type ";"
    pub fn parse_field(&mut self) -> (r: Result<(), ParseError>)
        requires
            old(self).wf(),
        ensures
            ran(*old(self), *final(self), r, v_field(old(self).ts(), old(self).pos as nat)),
            moved(*old(self), *final(self), r),
    {
        self.expect(TokenKind::Ident(String::new()))?;
        self.expect_kw(TokenKind::Colon)?;
        self.parse_type()?;
        self.expect_kw(TokenKind::Semi)?;
        Ok(())
    }

    /// FuncDef = "def" IDENT "(" [ Params ] ")" "->" ReturnType Block
    pub fn parse_func_def(&mut self) -> (r: Result<(), ParseError>)
        requires
            old(self).wf(),
        ensures
            ran(*old(self), *final(self), r, v_func_def(old(self).ts(), old(self).pos as nat)),
            moved(*old(self), *final(self), r),
    {
        self.expect_kw(TokenKind::Def)?;
        self.expect(TokenKind::Ident(String::new()))?;
        self.expect_kw(TokenKind::LParen)?;
        if !(*self.peek_kind() == TokenKind::RParen) {
            self.parse_params()?;
        }
        self.expect_kw(TokenKind::RParen)?;
        self.expect_kw(TokenKind::Arrow)?;
        self.parse_return_type()?;
        self.parse_block()?;
        Ok(())
    }

    /// Params = Param { "," Param }
    #[verifier::loop_isolation(false)]
    pub fn parse_params(&mut self) -> (r: Result<(), ParseError>)
        requires
            old(self).wf(),
        ensures
            ran(*old(self), *final(self), r, v_params(old(self).ts(), old(self).pos as nat)),
            moved(*old(self), *final(self), r),
    {
        let ghost ts = self.ts();
        let ghost toks = self.tokens@;
        let ghost p0 = self.pos as nat;
        self.parse_param()?;
        loop
            invariant
                self.wf(),
                self.tokens@ == toks,
                p0 < self.pos,
                v_params(ts, p0) == params_tail(ts, self.pos as nat),
            decreases ts.len() - self.pos,
        {
            if !self.match_kw(TokenKind::Comma) {
                break;
            }
            self.parse_param()?;
        }
        Ok(())
    }

    /// Param = IDENT ":" Type
    pub fn parse_param(&mut self) -> (r: Result<(), ParseError>)
        requires
            old(self).wf(),
        ensures
            ran(*old(self), *final(self), r, v_param(old(self).ts(), old(self).pos as nat)),
            moved(*old(self), *final(self), r),
    {
        self.expect(TokenKind::Ident(String::new()))?;
        self.expect_kw(TokenKind::Colon)?;
        self.parse_type()?;
        Ok(())
    }

    /// Program = { StructDef | FuncDef } EOF, from the current position.
    #[verifier::loop_isolation(false)]
    pub fn parse_program(&mut self) -> (r: Result<(), ParseError>)
        requires
            old(self).wf(),
        ensures
            ran(*old(self), *final(self), r, v_program_from(old(self).ts(), old(self).pos as nat)),
    {
        let ghost ts = self.ts();
        let ghost toks = self.tokens@;
        let ghost p0 = self.pos as nat;
        loop
            invariant
                self.wf(),
                self.tokens@ == toks,
                p0 <= self.pos,
                v_program_from(ts, p0) == v_program_from(ts, self.pos as nat),
            decreases ts.len() - self.pos,
        {
            if *self.peek_kind() == TokenKind::Eof {
                break;
            }
            match self.peek_kind() {
                TokenKind::Struct => self.parse_struct_def()?,
                TokenKind::Def => self.parse_func_def()?,
                _ => {
                    let m = self.got_msg("expected struct or def, got ");
                    return Err(self.error_here(m));
                },
            }
        }
        Ok(())
    }

}

/// The equality level takes both `==` and `!=`: at either one, after a
/// relational expression, the next relational expression is read and the
/// level goes on after it (or stops with its error); at any other token the
/// level ends there.
pub proof fn law_equality_operators(ts: Seq<TokV>, q: nat)
    requires
        q < ts.len(),
    ensures
        (tag_at(ts, q) == TokenKind::EqEq@.0 || tag_at(ts, q) == TokenKind::Neq@.0) ==> match v_bin(ts, 4, q + 1) {
            VR::Failed(a, m) => bin_tail(ts, 3, q) == VR::Failed(a, m),
            VR::Done(q2) => (q < q2 <= ts.len() ==> bin_tail(ts, 3, q) == bin_tail(ts, 3, q2)) && (!(q < q2
                <= ts.len()) ==> bin_tail(ts, 3, q) == VR::Done(q2)),
        },
        !(tag_at(ts, q) == TokenKind::EqEq@.0 || tag_at(ts, q) == TokenKind::Neq@.0) ==> bin_tail(ts, 3, q)
            == VR::Done(q),
{
}

} // verus!
