//! The type checker: two passes over a program, first the declarations,
//! then the function bodies, with every semantic rule checked.
//!
//! The checker is written twice: as spec functions (`c_*`) from a checker
//! state and a node to the next state and the typed node, and as the
//! executable methods, each proved to compute its spec function.  Errors
//! are collected, not fatal: a check goes on after one.

use std::ops::Range;
use vstd::prelude::*;
use crate::ast::{
    expr_span, lvalue_span, span_v, BinOp, Expr, ExprV, LValue, LValueV, SpanV, UnaryOp, binop_text,
    Stmt, StmtV, VarBinding, VarBindingV, FuncDef, FuncDefV, StructDef, StructDefV, ReturnTypeV, Type, TypeV,
    typed_names,
};
use crate::error::SemanticError;
use crate::lexer::{boff, col_of, line_of, lemma_line_col_bound, lemma_boff_mono, width_of};
use crate::semantic::scope::{
    find_in, lookup_in, merge_non_loop, redeclared_msg, EntryV, FuncSignature, KindV, ScopeHint, SigV, StructInfo,
    SymbolKind, SymbolTable,
};
use crate::semantic::flow::seq_returns;
use crate::semantic::types::{kt_of_ret, TFuncV, TypedFuncDef, kt_of_type, TStmtV, typed_params, kt_text, KangType, KT, TExprV, TKindV, TypedExpr, TypedExprKind, TypedStmt, TypedStmtKind};
use crate::text::{chars_of, decimal, push_decimal, push_str, same_text, string_of};

verus! {

/// A semantic error as a value.
pub struct ErrV {
    pub msg: Seq<char>,
    pub line: usize,
    pub col: usize,
    pub span: SpanV,
}

pub open spec fn err_v(e: SemanticError) -> ErrV {
    ErrV { msg: e.msg@, line: e.line, col: e.col, span: span_v(e.span) }
}

pub open spec fn errs_v(v: Seq<SemanticError>) -> Seq<ErrV> {
    v.map_values(|e: SemanticError| err_v(e))
}

/// The struct types known by name, each with its fields.
pub type StructsV = Seq<(Seq<char>, Seq<(Seq<char>, KT)>)>;

/// The checker's state as a value.
pub struct CheckerV {
    pub symbols: Seq<Seq<EntryV>>,
    pub symbol_count: usize,
    pub structs: StructsV,
    pub errors: Seq<ErrV>,
    pub passes: usize,
    pub failures: usize,
    pub ret: KT,
    pub fname: Seq<char>,
    pub in_loop: bool,
    pub source: Option<Seq<char>>,
    pub aliases: Seq<(Seq<char>, Seq<char>)>,
    pub imported: Seq<crate::ast::StructDefV>,
}

/// `x + 1`, stopping at `usize::MAX`.
pub open spec fn bump(x: usize) -> usize {
    if x < usize::MAX { (x + 1) as usize } else { x }
}

// ── Positions of errors ─────────────────────────────────────────────────

/// The last character index whose byte offset is at most `offset`, from `i` on.
pub open spec fn char_floor(cs: Seq<char>, i: nat, offset: nat) -> nat
    decreases cs.len() - i,
{
    if i < cs.len() && boff(cs, i + 1) <= offset {
        char_floor(cs, i + 1, offset)
    } else {
        i
    }
}

/// The line and column of the byte offset `offset` of the source `src`
/// (the character boundary at or before it); (0, 0) without a source.
pub open spec fn line_col(src: Option<Seq<char>>, offset: usize) -> (usize, usize) {
    match src {
        Some(cs) => if cs.len() < usize::MAX {
            let k = char_floor(cs, 0, offset as nat);
            (line_of(cs, k) as usize, col_of(cs, k) as usize)
        } else {
            (0, 0)
        },
        None => (0, 0),
    }
}

/// The text of an error: the message, and after it the quoted context, if any.
pub open spec fn full_msg(msg: Seq<char>, ctx: Seq<char>) -> Seq<char> {
    if ctx.len() == 0 {
        msg
    } else {
        msg + ": \""@ + ctx + "\""@
    }
}

/// The state after reporting an error.
pub open spec fn with_error(st: CheckerV, msg: Seq<char>, ctx: Seq<char>, span: SpanV) -> CheckerV {
    let lc = line_col(st.source, span.0);
    CheckerV {
        failures: bump(st.failures),
        errors: st.errors.push(ErrV { msg: full_msg(msg, ctx), line: lc.0, col: lc.1, span }),
        ..st
    }
}

/// The state after a rule held.
pub open spec fn with_pass(st: CheckerV) -> CheckerV {
    CheckerV { passes: bump(st.passes), ..st }
}

// ── Tables by name ──────────────────────────────────────────────────────

/// The first position of `n` among the keys `ks`, or -1.
pub open spec fn key_pos(ks: Seq<Seq<char>>, n: Seq<char>) -> int
    decreases ks.len(),
{
    if ks.len() == 0 {
        -1
    } else {
        let k = key_pos(ks.drop_last(), n);
        if k >= 0 {
            k
        } else if ks.last() == n {
            ks.len() - 1
        } else {
            -1
        }
    }
}

pub open spec fn keys_of<V>(s: Seq<(Seq<char>, V)>) -> Seq<Seq<char>> {
    s.map_values(|x: (Seq<char>, V)| x.0)
}

/// The first position of the key `n` in an association list, or -1.
pub open spec fn key_index<V>(s: Seq<(Seq<char>, V)>, n: Seq<char>) -> int {
    key_pos(keys_of(s), n)
}

/// The value of the key `n`, as a map lookup.
pub open spec fn key_get<V>(s: Seq<(Seq<char>, V)>, n: Seq<char>) -> Option<V> {
    let k = key_index(s, n);
    if k >= 0 {
        Some(s[k].1)
    } else {
        None
    }
}

/// The list with the key `n` set to `v`, as a map insertion.
pub open spec fn key_put<V>(s: Seq<(Seq<char>, V)>, n: Seq<char>, v: V) -> Seq<(Seq<char>, V)> {
    let k = key_index(s, n);
    if k >= 0 {
        s.update(k, (n, v))
    } else {
        s.push((n, v))
    }
}

pub proof fn lemma_key_pos(ks: Seq<Seq<char>>, n: Seq<char>)
    ensures
        -1 <= key_pos(ks, n) < ks.len(),
        key_pos(ks, n) >= 0 ==> ks[key_pos(ks, n)] == n,
        key_pos(ks, n) >= 0 ==> forall|j: int| 0 <= j < key_pos(ks, n) ==> (#[trigger] ks[j]) != n,
        key_pos(ks, n) == -1 ==> forall|j: int| 0 <= j < ks.len() ==> (#[trigger] ks[j]) != n,
    decreases ks.len(),
{
    if ks.len() > 0 {
        let d = ks.drop_last();
        lemma_key_pos(d, n);
        assert forall|j: int| 0 <= j < d.len() implies d[j] == ks[j] by {}
    }
}

/// A position found from the front is the first position.
pub proof fn lemma_key_pos_first(ks: Seq<Seq<char>>, n: Seq<char>, k: int)
    requires
        0 <= k < ks.len(),
        ks[k] == n,
        forall|j: int| 0 <= j < k ==> (#[trigger] ks[j]) != n,
    ensures
        key_pos(ks, n) == k,
{
    lemma_key_pos(ks, n);
    let p = key_pos(ks, n);
    if p == -1 {
        assert(ks[k] != n);
    } else if p < k {
        assert(ks[p] != n);
    } else if p > k {
        assert(ks[k] != n);
    }
}

/// The first position of the key `n` in `s`.
pub(crate) fn find_key<V>(s: &Vec<(String, V)>, n: &String) -> (r: Option<usize>)
    ensures
        match r {
            Some(k) => k < s@.len() && k as int == key_pos(s@.map_values(|x: (String, V)| x.0@), n@),
            None => key_pos(s@.map_values(|x: (String, V)| x.0@), n@) == -1,
        },
{
    let ghost ks = s@.map_values(|x: (String, V)| x.0@);
    let mut i: usize = 0;
    while i < s.len()
        invariant
            i <= s@.len(),
            ks == s@.map_values(|x: (String, V)| x.0@),
            forall|j: int| 0 <= j < i ==> (#[trigger] ks[j]) != n@,
        decreases s@.len() - i,
    {
        if same_text(&s[i].0, n) {
            proof {
                lemma_key_pos_first(ks, n@, i as int);
            }
            return Some(i);
        }
        i += 1;
    }
    proof {
        lemma_key_pos(ks, n@);
        if key_pos(ks, n@) >= 0 {
            assert(ks[key_pos(ks, n@)] != n@);
        }
    }
    None
}

// ── Looking at types without checking ───────────────────────────────────

/// The first field named `f`, from the front.
pub open spec fn field_type(fields: Seq<(Seq<char>, KT)>, f: Seq<char>) -> Option<KT> {
    key_get(fields, f)
}

/// The type an expression would have, judged without reporting anything:
/// used to decide on string concatenation and to type left values.
pub open spec fn peek(st: CheckerV, e: ExprV) -> KT
    decreases e,
{
    match e {
        ExprV::IntLit(..) => KT::I32,
        ExprV::FloatLit(..) => KT::F64,
        ExprV::StrLit(..) => KT::Str,
        ExprV::BoolLit(..) => KT::Bool,
        ExprV::Ident(n, _) => match lookup_in(st.symbols, n) {
            Some(en) => match en.kind {
                KindV::Variable(t) => t,
                _ => KT::I32,
            },
            None => KT::I32,
        },
        ExprV::Call(f, _, _) => match *f {
            ExprV::Ident(n, _) => match lookup_in(st.symbols, n) {
                Some(en) => match en.kind {
                    KindV::Function(s) => s.ret,
                    _ => KT::I32,
                },
                None => KT::I32,
            },
            _ => KT::I32,
        },
        ExprV::Field(o, f, _) => match peek(st, *o) {
            KT::Struct(n) => match key_get(st.structs, n) {
                Some(fields) => match field_type(fields, f) {
                    Some(t) => t,
                    None => KT::I32,
                },
                None => KT::I32,
            },
            _ => KT::I32,
        },
        ExprV::Index(a, _, _) => match peek(st, *a) {
            KT::Array(t) => *t,
            KT::Str => KT::Str,
            _ => KT::I32,
        },
        ExprV::Binary(l, op, r, _) => match op {
            BinOp::Add => {
                let lt = peek(st, *l);
                let rt = peek(st, *r);
                if lt == KT::Str || rt == KT::Str {
                    KT::Str
                } else if lt == KT::F64 || rt == KT::F64 {
                    KT::F64
                } else {
                    KT::I32
                }
            },
            BinOp::Sub | BinOp::Mul | BinOp::Div => if peek(st, *l) == KT::F64 {
                KT::F64
            } else {
                KT::I32
            },
            _ => KT::Bool,
        },
        ExprV::Unary(_, x, _) => peek(st, *x),
        ExprV::ArrayLit(v, _) => if v.len() > 0 {
            KT::Array(Box::new(peek(st, v[0])))
        } else {
            KT::Array(Box::new(KT::I32))
        },
        ExprV::StructLit(n, _, _) => KT::Struct(n),
    }
}


// ── The checker ─────────────────────────────────────────────────────────

/// The checker's state: the scopes, the struct types, the errors found so
/// far and the figures of the run.
pub struct Checker {
    pub symbols: SymbolTable,
    pub structs: Vec<(String, StructInfo)>,
    pub errors: Vec<SemanticError>,
    pub passes: usize,
    pub failures: usize,
    pub current_func_return: KangType,
    pub current_func_name: String,
    pub in_loop: bool,
    pub source_file: Option<String>,
    pub source_text: Option<String>,
    /// The qualified name of each imported function (`alias.name`) with the
    /// name code generation links against.
    pub alias_modules: Vec<(String, String)>,
    /// The struct definitions taken from imported modules.
    pub imported_structs: Vec<crate::ast::StructDef>,
}

pub open spec fn opt_text(o: Option<String>) -> Option<Seq<char>> {
    match o {
        Some(s) => Some(s@),
        None => None,
    }
}

impl View for Checker {
    type V = CheckerV;

    open spec fn view(&self) -> CheckerV {
        CheckerV {
            symbols: self.symbols@,
            symbol_count: self.symbols.symbol_count,
            structs: self.structs@.map_values(|x: (String, StructInfo)| (x.0@, x.1@)),
            errors: errs_v(self.errors@),
            passes: self.passes,
            failures: self.failures,
            ret: self.current_func_return@,
            fname: self.current_func_name@,
            in_loop: self.in_loop,
            source: opt_text(self.source_text),
            aliases: self.alias_modules@.map_values(|x: (String, String)| (x.0@, x.1@)),
            imported: self.imported_structs@.map_values(|x: crate::ast::StructDef| x@),
        }
    }
}

fn opt_string(o: Option<&str>) -> (r: Option<String>)
    ensures
        match o {
            Some(s) => r matches Some(x) && x@ == s@,
            None => r is None,
        },
{
    match o {
        Some(s) => Some(string_of(s)),
        None => None,
    }
}

/// The line and column of a byte offset of the source (see `line_col`).
fn line_col_x(src: &Option<String>, offset: usize) -> (r: (usize, usize))
    ensures
        r == line_col(opt_text(*src), offset),
{
    match src {
        None => (0, 0),
        Some(text) => {
            let cs = chars_of(text.as_str());
            let n = cs.len();
            if n == usize::MAX {
                return (0, 0);
            }
            let mut i: usize = 0;
            let mut b: usize = 0;
            let mut line: usize = 1;
            let mut col: usize = 1;
            while i < n && width_of(cs[i]) <= offset - b
                invariant
                    n == cs@.len() < usize::MAX,
                    i <= n,
                    b == boff(cs@, i as nat),
                    b <= offset,
                    line == line_of(cs@, i as nat),
                    col == col_of(cs@, i as nat),
                    char_floor(cs@, 0, offset as nat) == char_floor(cs@, i as nat, offset as nat),
                decreases n - i,
            {
                proof {
                    lemma_line_col_bound(cs@, i as nat);
                }
                let c = cs[i];
                b = b + width_of(c);
                if c == '\n' {
                    line = line + 1;
                    col = 1;
                } else {
                    col = col + 1;
                }
                i = i + 1;
            }
            (line, col)
        },
    }
}

/// The state of a new checker.
pub open spec fn start_state(source: Option<Seq<char>>) -> CheckerV {
    CheckerV {
        symbols: seq![crate::semantic::scope::builtin_scope()],
        symbol_count: 15,
        structs: Seq::empty(),
        errors: Seq::empty(),
        passes: 0,
        failures: 0,
        ret: KT::Void,
        fname: Seq::empty(),
        in_loop: false,
        source,
        aliases: Seq::empty(),
        imported: Seq::empty(),
    }
}

impl Checker {
    /// The symbol table is well formed.
    pub open spec fn wf(&self) -> bool {
        self.symbols.wf()
    }

    /// A checker for the file `file_path`; with `source_text`, errors carry
    /// the line and column of their span.
    pub fn new(file_path: Option<&str>, source_text: Option<&str>) -> (c: Checker)
        ensures
            c.wf(),
            c@.symbols == seq![crate::semantic::scope::builtin_scope()],
            c@.symbol_count == 15,
            c@.structs.len() == 0,
            c@.errors.len() == 0,
            c@.passes == 0,
            c@.failures == 0,
            c@.ret == KT::Void,
            c@.fname.len() == 0,
            !c@.in_loop,
            c@.source == (match source_text {
                Some(s) => Some(s@),
                None => None::<Seq<char>>,
            }),
            c@.aliases.len() == 0,
            c@.imported.len() == 0,
            opt_text(c.source_file) == (match file_path {
                Some(s) => Some(s@),
                None => None::<Seq<char>>,
            }),
            c@ == start_state(match source_text {
                Some(s) => Some(s@),
                None => None::<Seq<char>>,
            }),
    {
        let c = Checker {
            symbols: SymbolTable::new(),
            structs: Vec::new(),
            errors: Vec::new(),
            passes: 0,
            failures: 0,
            current_func_return: KangType::Void,
            current_func_name: String::new(),
            in_loop: false,
            source_file: opt_string(file_path),
            source_text: opt_string(source_text),
            alias_modules: Vec::new(),
            imported_structs: Vec::new(),
        };
        assert(c@.structs =~= Seq::<(Seq<char>, Seq<(Seq<char>, KT)>)>::empty());
        assert(c@.errors =~= Seq::<ErrV>::empty());
        assert(c@.fname =~= Seq::<char>::empty());
        assert(c@.aliases =~= Seq::<(Seq<char>, Seq<char>)>::empty());
        assert(c@.imported =~= Seq::<crate::ast::StructDefV>::empty());
        c
    }

    pub fn passes(&self) -> (r: usize)
        ensures
            r == self@.passes,
    {
        self.passes
    }

    pub fn failures(&self) -> (r: usize)
        ensures
            r == self@.failures,
    {
        self.failures
    }

    pub fn symbol_count(&self) -> (r: usize)
        ensures
            r == self@.symbol_count,
    {
        self.symbols.symbol_count
    }

    /// Forgets the errors found so far (the interactive loop does so before
    /// each line).
    pub fn clear_errors(&mut self)
        ensures
            final(self).source_file == old(self).source_file,
            final(self)@ == (CheckerV { errors: Seq::empty(), ..old(self)@ }),
            final(self).wf() == old(self).wf(),
    {
        self.errors.clear();
        assert(errs_v(self.errors@) =~= Seq::<ErrV>::empty());
    }

    /// Hands over the errors found so far and forgets them.
    pub fn take_errors(&mut self) -> (r: Vec<SemanticError>)
        ensures
            final(self).source_file == old(self).source_file,
            errs_v(r@) == old(self)@.errors,
            final(self)@ == (CheckerV { errors: Seq::empty(), ..old(self)@ }),
            final(self).wf() == old(self).wf(),
    {
        let mut taken: Vec<SemanticError> = Vec::new();
        std::mem::swap(&mut taken, &mut self.errors);
        assert(errs_v(self.errors@) =~= Seq::<ErrV>::empty());
        taken
    }

    /// Reports an error: `msg`, with `ctx` quoted after it when not empty.
    pub(crate) fn error(&mut self, msg: String, ctx: &str, span: Range<usize>)
        ensures
            final(self).source_file == old(self).source_file,
            final(self)@ == with_error(old(self)@, msg@, ctx@, span_v(span)),
            final(self).symbols == old(self).symbols,
    {
        self.failures = if self.failures < usize::MAX { self.failures + 1 } else { self.failures };
        let mut full = msg;
        if ctx.unicode_len() > 0 {
            push_str(&mut full, ": \"");
            push_str(&mut full, ctx);
            push_str(&mut full, "\"");
        }
        let (line, col) = line_col_x(&self.source_text, span.start);
        let ghost before = self.errors@;
        self.errors.push(SemanticError { msg: full, line, col, span });
        assert(errs_v(self.errors@) =~= errs_v(before).push(err_v(self.errors@.last())));
    }

    /// Counts a rule that held.
    pub(crate) fn pass(&mut self)
        ensures
            final(self).source_file == old(self).source_file,
            final(self)@ == with_pass(old(self)@),
            final(self).symbols == old(self).symbols,
    {
        self.passes = if self.passes < usize::MAX { self.passes + 1 } else { self.passes };
    }

    /// The fields of the struct type `name`, if it is known.
    pub(crate) fn struct_fields(&self, name: &String) -> (r: Option<&StructInfo>)
        ensures
            match r {
                Some(i) => key_get(self@.structs, name@) == Some(i@),
                None => key_get(self@.structs, name@) is None,
            },
    {
        let ghost m = self@.structs;
        assert(keys_of(m) =~= self.structs@.map_values(|x: (String, StructInfo)| x.0@));
        match find_key(&self.structs, name) {
            Some(k) => Some(&self.structs[k].1),
            None => None,
        }
    }
}

/// The type of the first field named `f`.
fn field_type_x(info: &StructInfo, f: &String) -> (r: Option<KangType>)
    ensures
        match r {
            Some(t) => field_type(info@, f@) == Some(t@),
            None => field_type(info@, f@) is None,
        },
{
    assert(keys_of(info@) =~= info.fields@.map_values(|x: (String, KangType)| x.0@));
    match find_key(&info.fields, f) {
        Some(k) => Some(info.fields[k].1.clone()),
        None => None,
    }
}


impl Checker {
    /// The type of the variable `name` in scope, if it is one.
    fn var_type(&self, name: &String) -> (r: Option<KangType>)
        ensures
            match r {
                Some(t) => lookup_in(self@.symbols, name@) matches Some(en) && en.kind == KindV::Variable(t@),
                None => !(lookup_in(self@.symbols, name@) matches Some(en) && en.kind is Variable),
            },
    {
        match self.symbols.lookup(name.as_str()) {
            Some(e) => match &e.kind {
                SymbolKind::Variable(t) => Some(t.clone()),
                _ => None,
            },
            None => None,
        }
    }

    /// The type an expression would have, judged without reporting anything.
    pub fn peek_expr_type(&self, e: &Expr) -> (r: KangType)
        ensures
            r@ == peek(self@, e@),
        decreases e,
    {
        match e {
            Expr::IntLit(..) => KangType::I32,
            Expr::FloatLit(..) => KangType::F64,
            Expr::StrLit(..) => KangType::Str,
            Expr::BoolLit(..) => KangType::Bool,
            Expr::Ident(name, _) => match self.var_type(name) {
                Some(t) => t,
                None => KangType::I32,
            },
            Expr::Call { func, .. } => {
                let r = self.peek_call(&**func);
                assert(r@ == peek(self@, e@));
                r
            },
            Expr::FieldAccess { obj, field, .. } => {
                let ot = self.peek_expr_type(&**obj);
                let r = match ot {
                    KangType::Struct(n) => match self.struct_fields(&n) {
                        Some(info) => match field_type_x(info, field) {
                            Some(t) => t,
                            None => KangType::I32,
                        },
                        None => KangType::I32,
                    },
                    _ => KangType::I32,
                };
                assert(r@ == peek(self@, e@));
                r
            },
            Expr::Index { array, .. } => {
                let at = self.peek_expr_type(&**array);
                let r = match at {
                    KangType::Array(t) => *t,
                    KangType::Str => KangType::Str,
                    _ => KangType::I32,
                };
                assert(r@ == peek(self@, e@));
                r
            },
            Expr::Binary { left, op, right, .. } => {
                let r = match op {
                    BinOp::Add => {
                        let lt = self.peek_expr_type(&**left);
                        let rt = self.peek_expr_type(&**right);
                        if lt == KangType::Str || rt == KangType::Str {
                            KangType::Str
                        } else if lt == KangType::F64 || rt == KangType::F64 {
                            KangType::F64
                        } else {
                            KangType::I32
                        }
                    },
                    BinOp::Sub | BinOp::Mul | BinOp::Div => if self.peek_expr_type(&**left) == KangType::F64 {
                        KangType::F64
                    } else {
                        KangType::I32
                    },
                    _ => KangType::Bool,
                };
                assert(r@ == peek(self@, e@));
                r
            },
            Expr::Unary { expr, .. } => self.peek_expr_type(&**expr),
            Expr::ArrayLit(v, _) => {
                proof {
                    crate::ast::lemma_evs(v@);
                }
                let r = if v.len() > 0 {
                    proof {
                        assert(decreases_to!(e => v@[0]));
                    }
                    KangType::Array(Box::new(self.peek_expr_type(&v[0])))
                } else {
                    KangType::Array(Box::new(KangType::I32))
                };
                assert(r@ == peek(self@, e@));
                r
            },
            Expr::StructLit { name, .. } => KangType::Struct(name.clone()),
        }
    }

    /// The declared result of a call of a named function; `i32` otherwise.
    fn peek_call(&self, func: &Expr) -> (r: KangType)
        ensures
            r@ == match func@ {
                ExprV::Ident(n, _) => match lookup_in(self@.symbols, n) {
                    Some(en) => match en.kind {
                        KindV::Function(s) => s.ret,
                        _ => KT::I32,
                    },
                    None => KT::I32,
                },
                _ => KT::I32,
            },
    {
        match func {
            Expr::Ident(name, _) => match self.symbols.lookup(name.as_str()) {
                Some(en) => match &en.kind {
                    SymbolKind::Function(sig) => sig.return_type.clone(),
                    _ => KangType::I32,
                },
                None => KangType::I32,
            },
            _ => KangType::I32,
        }
    }
}


// ── Checking expressions, as spec functions ─────────────────────────────

pub open spec fn texpr(kind: TKindV, ty: KT) -> TExprV {
    TExprV { kind, ty }
}

pub open spec fn arr(t: KT) -> KT {
    KT::Array(Box::new(t))
}

/// Both are `i32` or both are `f64`.
pub open spec fn same_number(a: KT, b: KT) -> bool {
    (a == KT::I32 && b == KT::I32) || (a == KT::F64 && b == KT::F64)
}

/// A literal: a rule held, the type is fixed.
pub open spec fn c_lit(st: CheckerV, kind: TKindV, ty: KT) -> (CheckerV, TExprV) {
    (with_pass(st), texpr(kind, ty))
}

/// A name used as a value.
pub open spec fn c_ident(st: CheckerV, n: Seq<char>, span: SpanV) -> (CheckerV, TExprV) {
    match lookup_in(st.symbols, n) {
        Some(en) => match en.kind {
            KindV::Variable(t) => if n == "_"@ {
                (with_error(st, "_ 是占位符，不能在表达式中使用 (M5)"@, n, span), texpr(TKindV::Ident(n), KT::I32))
            } else {
                let st1 = if en.hint == ScopeHint::LoopVar && !st.in_loop {
                    with_error(st, "循环变量 \""@ + n + "\" 在循环结束后不可访问 (S3)"@, n, span)
                } else {
                    st
                };
                (with_pass(st1), texpr(TKindV::Ident(n), t))
            },
            KindV::Function(_) => (
                with_error(st, "函数 \""@ + n + "\" 不能作为值引用，Kang 不支持一等函数"@, n, span),
                texpr(TKindV::Ident(n), KT::I32),
            ),
            _ => (with_error(st, "未声明的变量 \""@ + n + "\" (S2)"@, n, span), texpr(TKindV::Ident(n), KT::I32)),
        },
        None => (with_error(st, "未声明的变量 \""@ + n + "\" (S2)"@, n, span), texpr(TKindV::Ident(n), KT::I32)),
    }
}

/// The check of an expression, with the type the context expects (used to
/// type an empty array literal).
pub open spec fn c_expr(st: CheckerV, e: ExprV, expected: Option<KT>) -> (CheckerV, TExprV)
    decreases e, 1nat,
{
    match e {
        ExprV::IntLit(v, _) => c_lit(st, TKindV::IntLit(v), KT::I32),
        ExprV::FloatLit(v, _) => c_lit(st, TKindV::FloatLit(v), KT::F64),
        ExprV::StrLit(v, _) => c_lit(st, TKindV::StrLit(v), KT::Str),
        ExprV::BoolLit(v, _) => c_lit(st, TKindV::BoolLit(v), KT::Bool),
        ExprV::Ident(n, span) => c_ident(st, n, span),
        ExprV::Binary(..) => c_binary(st, e),
        ExprV::Unary(..) => c_unary(st, e),
        ExprV::Call(..) => c_call(st, e),
        ExprV::Index(..) => c_index(st, e),
        ExprV::Field(..) => c_field(st, e),
        ExprV::ArrayLit(..) => c_array(st, e, expected),
        ExprV::StructLit(..) => c_struct_lit(st, e),
    }
}

/// The expressions checked in order, none with an expected type.
pub open spec fn c_args(st: CheckerV, args: Seq<ExprV>) -> (CheckerV, Seq<TExprV>)
    decreases args, 2nat,
{
    if args.len() == 0 {
        (st, Seq::empty())
    } else {
        let (st1, ts) = c_args(st, args.drop_last());
        let (st2, t) = c_expr(st1, args.last(), None);
        (st2, ts.push(t))
    }
}

pub open spec fn operand_msg(op: BinOp, t: KT) -> Seq<char> {
    "\""@ + binop_text(op) + "\" 操作数必须是 bool，得到 "@ + kt_text(t) + " (T5)"@
}

/// A binary expression (T1, T2, T5, T7, T8; `+` with a string operand
/// concatenates).
pub open spec fn c_binary(st: CheckerV, e: ExprV) -> (CheckerV, TExprV)
    decreases e, 0nat,
{
    match e {
        ExprV::Binary(l, op, r, span) => {
            let (st1, lt_e) = c_expr(st, *l, None);
            let lt = lt_e.ty;
            if op == BinOp::Add && (lt == KT::Str || peek(st1, *r) == KT::Str) {
                let (st2, rt_e) = c_expr(st1, *r, None);
                (with_pass(st2), texpr(TKindV::Binary(Box::new(lt_e), op, Box::new(rt_e)), KT::Str))
            } else {
                let (st2, rt_e) = c_expr(st1, *r, None);
                let rt = rt_e.ty;
                let node = TKindV::Binary(Box::new(lt_e), op, Box::new(rt_e));
                match op {
                    BinOp::Or | BinOp::And => {
                        let st3 = if lt != KT::Bool {
                            with_error(st2, operand_msg(op, lt), ""@, expr_span(*l))
                        } else {
                            st2
                        };
                        let st4 = if rt != KT::Bool {
                            with_error(st3, operand_msg(op, rt), ""@, expr_span(*r))
                        } else {
                            st3
                        };
                        let st5 = if lt == KT::Bool && rt == KT::Bool {
                            with_pass(st4)
                        } else {
                            st4
                        };
                        c_lit(st5, node, KT::Bool)
                    },
                    BinOp::Eq | BinOp::Neq => {
                        let st3 = if lt != rt {
                            with_error(
                                st2,
                                "==/!= 要求左右类型相同，得到 "@ + kt_text(lt) + " 和 "@ + kt_text(rt) + " (T7/T8)"@,
                                ""@,
                                span,
                            )
                        } else {
                            with_pass(st2)
                        };
                        c_lit(st3, node, KT::Bool)
                    },
                    BinOp::Lt | BinOp::Le | BinOp::Gt | BinOp::Ge => {
                        let st3 = if !same_number(lt, rt) {
                            with_error(
                                st2,
                                "比较运算要求左右同为 i32 或同为 f64，得到 "@ + kt_text(lt) + " 和 "@ + kt_text(rt)
                                    + " (T2)"@,
                                ""@,
                                span,
                            )
                        } else {
                            with_pass(st2)
                        };
                        c_lit(st3, node, KT::Bool)
                    },
                    _ => {
                        let st3 = if !same_number(lt, rt) {
                            with_error(
                                st2,
                                "算术运算 \""@ + binop_text(op) + "\" 要求左右同为 i32 或同为 f64，得到 "@ + kt_text(lt)
                                    + " 和 "@ + kt_text(rt) + " (T1)"@,
                                ""@,
                                span,
                            )
                        } else {
                            with_pass(st2)
                        };
                        (st3, texpr(node, if lt == KT::I32 { KT::I32 } else { KT::F64 }))
                    },
                }
            }
        },
        _ => (st, texpr(TKindV::BoolLit(false), KT::Void)),
    }
}

/// A unary expression: `-` on a number, `!` on a bool (T1, T6).
pub open spec fn c_unary(st: CheckerV, e: ExprV) -> (CheckerV, TExprV)
    decreases e, 0nat,
{
    match e {
        ExprV::Unary(op, x, span) => {
            let (st1, inner) = c_expr(st, *x, None);
            let t = inner.ty;
            match op {
                UnaryOp::Neg => {
                    let st2 = if t != KT::I32 && t != KT::F64 {
                        with_error(st1, "取负 \"-\" 操作数必须是 i32 或 f64，得到 "@ + kt_text(t) + " (T1)"@, ""@, span)
                    } else {
                        with_pass(st1)
                    };
                    (st2, texpr(TKindV::Unary(op, Box::new(inner)), t))
                },
                UnaryOp::Not => {
                    let st2 = if t != KT::Bool {
                        with_error(st1, "! 操作数必须是 bool，得到 "@ + kt_text(t) + " (T6)"@, ""@, span)
                    } else {
                        with_pass(st1)
                    };
                    (st2, texpr(TKindV::Unary(op, Box::new(inner)), KT::Bool))
                },
            }
        },
        _ => (st, texpr(TKindV::BoolLit(false), KT::Void)),
    }
}

/// The type an argument is taken as against a parameter: the first of a
/// pair when the parameter is not a pair.
pub open spec fn effective_arg(param: KT, arg: KT) -> KT {
    match arg {
        KT::Pair(first, _) => if param is Pair {
            arg
        } else {
            *first
        },
        _ => arg,
    }
}

/// The argument-type rule (F6) over the first `k` arguments of a call of
/// `name` at `span`.
pub open spec fn c_arg_types(
    st: CheckerV,
    name: Seq<char>,
    params: Seq<(Seq<char>, KT)>,
    args: Seq<KT>,
    span: SpanV,
    k: nat,
) -> CheckerV
    decreases k,
{
    if k == 0 {
        st
    } else {
        let st1 = c_arg_types(st, name, params, args, span, (k - 1) as nat);
        let pt = params[k - 1].1;
        let at = effective_arg(pt, args[k - 1]);
        if pt != at {
            with_error(
                st1,
                "函数 \""@ + name + "\" 第 "@ + decimal(k) + " 个参数类型不匹配: 期望 "@ + kt_text(pt) + "，传入 "@
                    + kt_text(at) + " (F6)"@,
                ""@,
                span,
            )
        } else {
            with_pass(st1)
        }
    }
}


/// The name a call target is looked up by and the name code generation
/// uses: `f`, or `alias.f` (linked by the imported name); none for other
/// targets.
pub open spec fn call_names(st: CheckerV, f: ExprV) -> Option<(Seq<char>, Seq<char>)> {
    match f {
        ExprV::Ident(n, _) => Some((n, n)),
        ExprV::Field(o, field, _) => match *o {
            ExprV::Ident(alias, _) => {
                let sem = alias + "."@ + field;
                Some((
                    sem,
                    match key_get(st.aliases, sem) {
                        Some(c) => c,
                        None => sem,
                    },
                ))
            },
            _ => None,
        },
        _ => None,
    }
}

pub open spec fn types_of(ts: Seq<TExprV>) -> Seq<KT> {
    ts.map_values(|t: TExprV| t.ty)
}

pub open spec fn min_nat(a: nat, b: nat) -> nat {
    if a <= b { a } else { b }
}

/// A call (F4, F5, F6; `len` and `push` are checked by their own rules).
pub open spec fn c_call(st: CheckerV, e: ExprV) -> (CheckerV, TExprV)
    decreases e, 0nat,
{
    match e {
        ExprV::Call(f, args, span) => match call_names(st, *f) {
            None => (
                with_error(st, "调用目标必须是函数名或 module.func"@, ""@, span),
                texpr(TKindV::Call("<unknown>"@, Seq::empty()), KT::I32),
            ),
            Some(names) => {
                let (lookup, codegen) = names;
                let (st1, targs) = c_args(st, args);
                let ats = types_of(targs);
                if lookup == "len"@ {
                    c_len(st1, codegen, targs, span)
                } else if lookup == "push"@ {
                    c_push(st1, codegen, targs, span)
                } else {
                    match crate::semantic::scope::lookup_func_in(st1.symbols, lookup, ats) {
                        Some(sig) => {
                            let count = sig.params.len();
                            let st2 = if count != ats.len() {
                                with_error(
                                    st1,
                                    "函数 \""@ + lookup + "\" 参数数量不匹配: 期望 "@ + decimal(count) + " 个，传入 "@
                                        + decimal(ats.len()) + " 个 (F4/F5)"@,
                                    ""@,
                                    span,
                                )
                            } else {
                                st1
                            };
                            (
                                c_arg_types(st2, lookup, sig.params, ats, span, min_nat(count, ats.len())),
                                texpr(TKindV::Call(codegen, targs), sig.ret),
                            )
                        },
                        None => (
                            with_error(st1, "未定义的函数 \""@ + lookup + "\""@, lookup, span),
                            texpr(TKindV::Call(codegen, targs), KT::I32),
                        ),
                    }
                }
            },
        },
        _ => (st, texpr(TKindV::BoolLit(false), KT::Void)),
    }
}

/// `len(x)`: one argument, a string or an array (A5).
pub open spec fn c_len(st: CheckerV, name: Seq<char>, targs: Seq<TExprV>, span: SpanV) -> (CheckerV, TExprV) {
    let node = texpr(TKindV::Call(name, targs), KT::I32);
    if targs.len() != 1 {
        (with_error(st, "len() 接受 1 个参数 (str 或数组)"@, ""@, span), node)
    } else {
        let t = targs[0].ty;
        if t is Str || t is Array {
            (with_pass(st), node)
        } else {
            (with_error(st, "len() 参数必须是 str 或数组，得到 "@ + kt_text(t) + " (A5)"@, ""@, span), node)
        }
    }
}

/// `push(a, x)`: an array and an element of its type (A3, A4).
pub open spec fn c_push(st: CheckerV, name: Seq<char>, targs: Seq<TExprV>, span: SpanV) -> (CheckerV, TExprV) {
    let node = texpr(TKindV::Call(name, targs), KT::Void);
    if targs.len() != 2 {
        (with_error(st, "push() 接受 2 个参数: ([T], T)"@, ""@, span), node)
    } else {
        match targs[0].ty {
            KT::Array(elem) => if *elem != targs[1].ty {
                (
                    with_error(
                        st,
                        "push() 元素类型不匹配: 数组元素类型 "@ + kt_text(*elem) + "，push 的元素类型 "@ + kt_text(
                            targs[1].ty,
                        ) + " (A3)"@,
                        ""@,
                        span,
                    ),
                    node,
                )
            } else {
                (with_pass(st), node)
            },
            t => (with_error(st, "push() 第一个参数必须是数组，得到 "@ + kt_text(t) + " (A4)"@, ""@, span), node),
        }
    }
}

/// An index `a[i]`: an `i32` index (T9, T10) into a string (giving a
/// string, T12) or an array (giving its element).
pub open spec fn c_index(st: CheckerV, e: ExprV) -> (CheckerV, TExprV)
    decreases e, 0nat,
{
    match e {
        ExprV::Index(a, i, span) => {
            let (st1, at) = c_expr(st, *a, None);
            let (st2, it) = c_expr(st1, *i, Some(KT::I32));
            let st3 = if it.ty != KT::I32 {
                with_error(st2, "索引必须是 i32 类型，得到 "@ + kt_text(it.ty) + " (T9/T10)"@, ""@, span)
            } else {
                with_pass(st2)
            };
            let node = TKindV::Index(Box::new(at), Box::new(it));
            match at.ty {
                KT::Str => (st3, texpr(node, KT::Str)),
                KT::Array(t) => (st3, texpr(node, *t)),
                t => (with_error(st3, "不能对 "@ + kt_text(t) + " 类型使用索引"@, ""@, span), texpr(node, KT::I32)),
            }
        },
        _ => (st, texpr(TKindV::BoolLit(false), KT::Void)),
    }
}

/// A field access `o.f` on a known struct type with that field (ST5, ST6, ST7).
pub open spec fn c_field(st: CheckerV, e: ExprV) -> (CheckerV, TExprV)
    decreases e, 0nat,
{
    match e {
        ExprV::Field(o, f, span) => {
            let (st1, ot) = c_expr(st, *o, None);
            let node = TKindV::Field(Box::new(ot), f);
            match ot.ty {
                KT::Struct(n) => match key_get(st1.structs, n) {
                    Some(fields) => match field_type(fields, f) {
                        Some(t) => (with_pass(st1), texpr(node, t)),
                        None => (
                            with_error(st1, "结构体 \""@ + n + "\" 没有字段 \""@ + f + "\" (ST7)"@, f, span),
                            texpr(node, KT::I32),
                        ),
                    },
                    None => (
                        with_error(st1, "未定义的结构体类型 \""@ + n + "\" (ST5)"@, n, span),
                        texpr(node, KT::I32),
                    ),
                },
                t => (
                    with_error(st1, "非结构体类型 "@ + kt_text(t) + " 不能使用 .field 访问 (ST6)"@, f, span),
                    texpr(node, KT::I32),
                ),
            }
        },
        _ => (st, texpr(TKindV::BoolLit(false), KT::Void)),
    }
}

/// The element-type rule (A2) over the elements `1..k`.
pub open spec fn c_elem_types(st: CheckerV, ts: Seq<TExprV>, first: KT, span: SpanV, k: nat) -> CheckerV
    decreases k,
{
    if k <= 1 {
        st
    } else {
        let st1 = c_elem_types(st, ts, first, span, (k - 1) as nat);
        let t = ts[k - 1].ty;
        if t != first {
            with_error(
                st1,
                "数组字面量元素类型不一致: 期望 "@ + kt_text(first) + "，第 "@ + decimal(k) + " 个元素是 "@ + kt_text(t)
                    + " (A2)"@,
                ""@,
                span,
            )
        } else {
            st1
        }
    }
}

/// An array literal: elements of one type (A2), not `void` (A1); an empty
/// one takes its element type from the context, `i32` by default.
pub open spec fn c_array(st: CheckerV, e: ExprV, expected: Option<KT>) -> (CheckerV, TExprV)
    decreases e, 0nat,
{
    match e {
        ExprV::ArrayLit(elems, span) => if elems.len() == 0 {
            let et = match expected {
                Some(KT::Array(t)) => *t,
                _ => KT::I32,
            };
            let st1 = if et == KT::Void {
                with_error(st, "数组元素类型不能是 void (A1)"@, ""@, span)
            } else {
                with_pass(st)
            };
            (st1, texpr(TKindV::ArrayLit(Seq::empty()), arr(et)))
        } else {
            let (st1, ts) = c_args(st, elems);
            let first = ts[0].ty;
            let st2 = c_elem_types(st1, ts, first, span, ts.len());
            let st3 = if forall|i: int| 1 <= i < ts.len() ==> (#[trigger] ts[i]).ty == first {
                with_pass(st2)
            } else {
                st2
            };
            let st4 = if first == KT::Void {
                with_error(st3, "数组元素类型不能是 void (A1)"@, ""@, span)
            } else {
                st3
            };
            (st4, texpr(TKindV::ArrayLit(ts), arr(first)))
        },
        _ => (st, texpr(TKindV::BoolLit(false), KT::Void)),
    }
}

/// The missing-field rule (ST3) over the first `k` declared fields.
pub open spec fn c_missing(
    st: CheckerV,
    name: Seq<char>,
    declared: Seq<Seq<char>>,
    provided: Seq<Seq<char>>,
    span: SpanV,
    k: nat,
) -> CheckerV
    decreases k,
{
    if k == 0 {
        st
    } else {
        let st1 = c_missing(st, name, declared, provided, span, (k - 1) as nat);
        let df = declared[k - 1];
        if !provided.contains(df) {
            with_error(st1, "结构体 \""@ + name + "\" 缺少字段 \""@ + df + "\" (ST3) — 必须初始化所有字段"@, df, span)
        } else {
            st1
        }
    }
}

/// The extra-field rule (ST4) over the first `k` given fields; each error
/// is placed at the field's value.
pub open spec fn c_extra(st: CheckerV, name: Seq<char>, declared: Seq<Seq<char>>, fields: Seq<(Seq<char>, ExprV)>, k: nat) -> CheckerV
    decreases k,
{
    if k == 0 {
        st
    } else {
        let st1 = c_extra(st, name, declared, fields, (k - 1) as nat);
        let pf = fields[k - 1].0;
        if !declared.contains(pf) {
            with_error(
                st1,
                "结构体 \""@ + name + "\" 没有字段 \""@ + pf + "\" (ST4) — 多余字段"@,
                pf,
                expr_span(fields[k - 1].1),
            )
        } else {
            st1
        }
    }
}

/// The field values checked in order against the declared types (T11).
pub open spec fn c_field_values(
    st: CheckerV,
    info: Seq<(Seq<char>, KT)>,
    fields: Seq<(Seq<char>, ExprV)>,
    span: SpanV,
) -> (CheckerV, Seq<(Seq<char>, TExprV)>)
    decreases fields, 2nat,
{
    if fields.len() == 0 {
        (st, Seq::empty())
    } else {
        let (st1, tfs) = c_field_values(st, info, fields.drop_last(), span);
        let fname = fields.last().0;
        let expected = field_type(info, fname);
        let (st2, tf) = c_expr(st1, fields.last().1, expected);
        let st3 = match expected {
            Some(et) => if tf.ty != et {
                with_error(
                    st2,
                    "字段 \""@ + fname + "\" 类型不匹配: 声明 "@ + kt_text(et) + "，提供的值 "@ + kt_text(tf.ty) + " (T11)"@,
                    fname,
                    span,
                )
            } else {
                with_pass(st2)
            },
            None => st2,
        };
        (st3, tfs.push((fname, tf)))
    }
}

/// A struct literal of a known type with exactly its fields (ST3, ST4, ST5,
/// T11).
pub open spec fn c_struct_lit(st: CheckerV, e: ExprV) -> (CheckerV, TExprV)
    decreases e, 0nat,
{
    match e {
        ExprV::StructLit(name, fields, span) => match key_get(st.structs, name) {
            None => (
                with_error(st, "未定义的结构体类型 \""@ + name + "\" (ST5)"@, name, span),
                texpr(TKindV::StructLit(name, Seq::empty()), KT::Struct(name)),
            ),
            Some(info) => {
                let declared = keys_of(info);
                let provided = keys_of(fields);
                let st1 = c_missing(st, name, declared, provided, span, declared.len());
                let st2 = c_extra(st1, name, declared, fields, fields.len());
                let (st3, tfs) = c_field_values(st2, info, fields, span);
                (st3, texpr(TKindV::StructLit(name, tfs), KT::Struct(name)))
            },
        },
        _ => (st, texpr(TKindV::BoolLit(false), KT::Void)),
    }
}


// ── Checking expressions ────────────────────────────────────────────────

pub open spec fn opt_kt(o: Option<KangType>) -> Option<KT> {
    match o {
        Some(t) => Some(t@),
        None => None,
    }
}

pub(crate) fn copy_span(s: &Range<usize>) -> (r: Range<usize>)
    ensures
        span_v(r) == span_v(*s),
{
    Range { start: s.start, end: s.end }
}

fn texpr_x(kind: TypedExprKind, ty: KangType) -> (r: TypedExpr)
    ensures
        r@ == (TypedExpr { kind, ty })@,
{
    TypedExpr { kind, ty }
}

/// `a` followed by the text of `t` and then `b`.
fn with_type(a: &str, t: &KangType, b: &str) -> (r: String)
    ensures
        r@ == a@ + kt_text(t@) + b@,
{
    let mut m = string_of(a);
    let tt = t.to_text();
    push_str(&mut m, tt.as_str());
    push_str(&mut m, b);
    m
}

/// `a` followed by `x` and then `b`.
pub(crate) fn with_text(a: &str, x: &str, b: &str) -> (r: String)
    ensures
        r@ == a@ + x@ + b@,
{
    let mut m = string_of(a);
    push_str(&mut m, x);
    push_str(&mut m, b);
    m
}

/// A typed node with a placeholder, for a node of another kind than asked.
fn placeholder() -> (r: TypedExpr)
    ensures
        r@ == texpr(TKindV::BoolLit(false), KT::Void),
{
    TypedExpr { kind: TypedExprKind::BoolLit(false), ty: KangType::Void }
}

impl Checker {
    fn check_lit(&mut self, kind: TypedExprKind, ty: KangType) -> (r: TypedExpr)
        ensures
            final(self).source_file == old(self).source_file,
            final(self).symbols == old(self).symbols,
            (final(self)@, r@) == c_lit(old(self)@, (TypedExpr { kind, ty })@.kind, ty@),
    {
        self.pass();
        TypedExpr { kind, ty }
    }

    fn check_ident(&mut self, name: &String, span: Range<usize>) -> (r: TypedExpr)
        ensures
            final(self).source_file == old(self).source_file,
            final(self).symbols == old(self).symbols,
            (final(self)@, r@) == c_ident(old(self)@, name@, span_v(span)),
    {
        proof {
            reveal_strlit("_");
        }
        let looked = match self.symbols.lookup(name.as_str()) {
            Some(en) => match &en.kind {
                SymbolKind::Variable(t) => Some((0u8, t.clone(), en.hint)),
                SymbolKind::Function(_) => Some((1u8, KangType::Void, en.hint)),
                _ => None,
            },
            None => None,
        };
        match looked {
            Some((0u8, t, hint)) => {
                if name.as_str().unicode_len() == 1 && name.as_str().get_char(0) == '_' {
                    assert(name@ =~= "_"@);
                    self.error(string_of("_ 是占位符，不能在表达式中使用 (M5)"), name.as_str(), span);
                    return texpr_x(TypedExprKind::Ident(name.clone()), KangType::I32);
                }
                assert(name@ != "_"@) by {
                    if name@ == "_"@ {
                        assert(name@.len() == 1 && name@[0] == '_');
                    }
                }
                if hint == ScopeHint::LoopVar && !self.in_loop {
                    self.error(with_text("循环变量 \"", name.as_str(), "\" 在循环结束后不可访问 (S3)"), name.as_str(), span);
                }
                self.pass();
                texpr_x(TypedExprKind::Ident(name.clone()), t)
            },
            Some((_, _, _)) => {
                self.error(
                    with_text("函数 \"", name.as_str(), "\" 不能作为值引用，Kang 不支持一等函数"),
                    name.as_str(),
                    span,
                );
                texpr_x(TypedExprKind::Ident(name.clone()), KangType::I32)
            },
            None => {
                self.error(with_text("未声明的变量 \"", name.as_str(), "\" (S2)"), name.as_str(), span);
                texpr_x(TypedExprKind::Ident(name.clone()), KangType::I32)
            },
        }
    }
}


impl Checker {
    /// Checks an expression; `expected_type` is the type the context
    /// expects, which an empty array literal takes its element type from.
    pub fn check_expr(&mut self, expr: &Expr, expected_type: Option<KangType>) -> (r: TypedExpr)
        ensures
            final(self).source_file == old(self).source_file,
            final(self).symbols == old(self).symbols,
            (final(self)@, r@) == c_expr(old(self)@, expr@, opt_kt(expected_type)),
        decreases expr, 1nat,
    {
        match expr {
            Expr::IntLit(v, _) => self.check_lit(TypedExprKind::IntLit(v.clone()), KangType::I32),
            Expr::FloatLit(v, _) => self.check_lit(TypedExprKind::FloatLit(v.clone()), KangType::F64),
            Expr::StrLit(v, _) => self.check_lit(TypedExprKind::StrLit(v.clone()), KangType::Str),
            Expr::BoolLit(v, _) => self.check_lit(TypedExprKind::BoolLit(*v), KangType::Bool),
            Expr::Ident(name, span) => self.check_ident(name, copy_span(span)),
            Expr::Binary { .. } => self.check_binary(expr),
            Expr::Unary { .. } => self.check_unary(expr),
            Expr::Call { .. } => self.check_call(expr),
            Expr::Index { .. } => self.check_index(expr),
            Expr::FieldAccess { .. } => self.check_field_access(expr),
            Expr::ArrayLit(..) => self.check_array_lit(expr, expected_type),
            Expr::StructLit { .. } => self.check_struct_lit(expr),
        }
    }

    /// Checks the expressions in order.
    #[verifier::loop_isolation(false)]
    fn check_args(&mut self, args: &Vec<Expr>) -> (r: Vec<TypedExpr>)
        ensures
            final(self).source_file == old(self).source_file,
            final(self).symbols == old(self).symbols,
            (final(self)@, crate::semantic::types::tevs(r@)) == c_args(old(self)@, crate::ast::evs(args@)),
        decreases args, 2nat,
    {
        let mut out: Vec<TypedExpr> = Vec::new();
        let mut i: usize = 0;
        assert(args@.take(0) =~= Seq::<Expr>::empty());
        assert(crate::semantic::types::tevs(out@) =~= Seq::<TExprV>::empty());
        while i < args.len()
            invariant
                self.source_file == old(self).source_file,
                i <= args@.len(),
                self.symbols == old(self).symbols,
                (self@, crate::semantic::types::tevs(out@)) == c_args(old(self)@, crate::ast::evs(args@.take(i as int))),
            decreases args@.len() - i,
        {
            proof {
                assert(decreases_to!(args => args@[i as int]));
                crate::ast::lemma_evs_take(args@, i as int);
                let x = crate::ast::evs(args@.take(i as int));
                assert(x.push(args@[i as int]@).drop_last() =~= x);
            }
            let t = self.check_expr(&args[i], None);
            let ghost before = out@;
            out.push(t);
            assert(out@.drop_last() =~= before);
            i += 1;
        }
        assert(args@.take(args@.len() as int) =~= args@);
        out
    }

    fn check_binary(&mut self, e: &Expr) -> (r: TypedExpr)
        ensures
            final(self).source_file == old(self).source_file,
            final(self).symbols == old(self).symbols,
            (final(self)@, r@) == c_binary(old(self)@, e@),
        decreases e, 0nat,
    {
        match e {
            Expr::Binary { left, op, right, span } => {
                let lt_e = self.check_expr(&**left, None);
                let lt = lt_e.ty.clone();
                let concat = *op == BinOp::Add && (lt == KangType::Str || self.peek_expr_type(&**right) == KangType::Str);
                if concat {
                    let rt_e = self.check_expr(&**right, None);
                    self.pass();
                    return texpr_x(
                        TypedExprKind::Binary { left: Box::new(lt_e), op: *op, right: Box::new(rt_e) },
                        KangType::Str,
                    );
                }
                let rt_e = self.check_expr(&**right, None);
                let rt = rt_e.ty.clone();
                let node = TypedExprKind::Binary { left: Box::new(lt_e), op: *op, right: Box::new(rt_e) };
                match op {
                    BinOp::Or | BinOp::And => {
                        let lb = lt == KangType::Bool;
                        let rb = rt == KangType::Bool;
                        if !lb {
                            let mut m = with_text("\"", binop_str(*op), "\" 操作数必须是 bool，得到 ");
                            let tt = lt.to_text();
                            push_str(&mut m, tt.as_str());
                            push_str(&mut m, " (T5)");
                            self.error(m, "", crate::ast::span_of_expr(&**left));
                        }
                        if !rb {
                            let mut m = with_text("\"", binop_str(*op), "\" 操作数必须是 bool，得到 ");
                            let tt = rt.to_text();
                            push_str(&mut m, tt.as_str());
                            push_str(&mut m, " (T5)");
                            self.error(m, "", crate::ast::span_of_expr(&**right));
                        }
                        if lb && rb {
                            self.pass();
                        }
                        self.check_lit(node, KangType::Bool)
                    },
                    BinOp::Eq | BinOp::Neq => {
                        if lt != rt {
                            let mut m = with_type("==/!= 要求左右类型相同，得到 ", &lt, " 和 ");
                            let tt = rt.to_text();
                            push_str(&mut m, tt.as_str());
                            push_str(&mut m, " (T7/T8)");
                            self.error(m, "", copy_span(span));
                        } else {
                            self.pass();
                        }
                        self.check_lit(node, KangType::Bool)
                    },
                    BinOp::Lt | BinOp::Le | BinOp::Gt | BinOp::Ge => {
                        if !((lt == KangType::I32 && rt == KangType::I32) || (lt == KangType::F64 && rt == KangType::F64)) {
                            let mut m = with_type("比较运算要求左右同为 i32 或同为 f64，得到 ", &lt, " 和 ");
                            let tt = rt.to_text();
                            push_str(&mut m, tt.as_str());
                            push_str(&mut m, " (T2)");
                            self.error(m, "", copy_span(span));
                        } else {
                            self.pass();
                        }
                        self.check_lit(node, KangType::Bool)
                    },
                    _ => {
                        if !((lt == KangType::I32 && rt == KangType::I32) || (lt == KangType::F64 && rt == KangType::F64)) {
                            let mut m = with_text("算术运算 \"", binop_str(*op), "\" 要求左右同为 i32 或同为 f64，得到 ");
                            let tt = lt.to_text();
                            push_str(&mut m, tt.as_str());
                            push_str(&mut m, " 和 ");
                            let tt2 = rt.to_text();
                            push_str(&mut m, tt2.as_str());
                            push_str(&mut m, " (T1)");
                            self.error(m, "", copy_span(span));
                        } else {
                            self.pass();
                        }
                        let ty = if lt == KangType::I32 { KangType::I32 } else { KangType::F64 };
                        texpr_x(node, ty)
                    },
                }
            },
            _ => placeholder(),
        }
    }

    fn check_unary(&mut self, e: &Expr) -> (r: TypedExpr)
        ensures
            final(self).source_file == old(self).source_file,
            final(self).symbols == old(self).symbols,
            (final(self)@, r@) == c_unary(old(self)@, e@),
        decreases e, 0nat,
    {
        match e {
            Expr::Unary { op, expr, span } => {
                let inner = self.check_expr(&**expr, None);
                let t = inner.ty.clone();
                match op {
                    UnaryOp::Neg => {
                        if t != KangType::I32 && t != KangType::F64 {
                            self.error(with_type("取负 \"-\" 操作数必须是 i32 或 f64，得到 ", &t, " (T1)"), "", copy_span(span));
                        } else {
                            self.pass();
                        }
                        texpr_x(TypedExprKind::Unary { op: *op, expr: Box::new(inner) }, t)
                    },
                    UnaryOp::Not => {
                        if t != KangType::Bool {
                            self.error(with_type("! 操作数必须是 bool，得到 ", &t, " (T6)"), "", copy_span(span));
                        } else {
                            self.pass();
                        }
                        texpr_x(TypedExprKind::Unary { op: *op, expr: Box::new(inner) }, KangType::Bool)
                    },
                }
            },
            _ => placeholder(),
        }
    }
}

fn binop_str(op: BinOp) -> (r: &'static str)
    ensures
        r@ == binop_text(op),
{
    match op {
        BinOp::Or => "||",
        BinOp::And => "&&",
        BinOp::Eq => "==",
        BinOp::Neq => "!=",
        BinOp::Lt => "<",
        BinOp::Le => "<=",
        BinOp::Gt => ">",
        BinOp::Ge => ">=",
        BinOp::Add => "+",
        BinOp::Sub => "-",
        BinOp::Mul => "*",
        BinOp::Div => "/",
    }
}


/// Whether `s` holds exactly the characters of `w`.
fn is_word(s: &String, w: &str) -> (r: bool)
    ensures
        r == (s@ == w@),
{
    same_text(s, &string_of(w))
}

fn types_of_x(ts: &Vec<TypedExpr>) -> (r: Vec<KangType>)
    ensures
        r@.map_values(|t: KangType| t@) == types_of(crate::semantic::types::tevs(ts@)),
{
    proof {
        crate::semantic::types::lemma_tevs(ts@);
    }
    let mut r: Vec<KangType> = Vec::new();
    let mut i: usize = 0;
    while i < ts.len()
        invariant
            i <= ts@.len(),
            r@.len() == i,
            forall|k: int| 0 <= k < i ==> (#[trigger] r@[k])@ == ts@[k].ty@,
        decreases ts@.len() - i,
    {
        r.push(ts[i].ty.clone());
        i += 1;
    }
    assert(r@.map_values(|t: KangType| t@) =~= types_of(crate::semantic::types::tevs(ts@)));
    r
}

impl Checker {
    /// The lookup name and the code-generation name of a call target.
    fn call_names_x(&self, f: &Expr) -> (r: Option<(String, String)>)
        ensures
            match call_names(self@, f@) {
                Some(n) => r matches Some(x) && x.0@ == n.0 && x.1@ == n.1,
                None => r is None,
            },
    {
        match f {
            Expr::Ident(n, _) => Some((n.clone(), n.clone())),
            Expr::FieldAccess { obj, field, .. } => match &**obj {
                Expr::Ident(alias, asp) => {
                    assert(obj@ == ExprV::Ident(alias@, span_v(*asp)));
                    let mut sem = alias.clone();
                    push_str(&mut sem, ".");
                    push_str(&mut sem, field.as_str());
                    assert(keys_of(self@.aliases) =~= self.alias_modules@.map_values(|x: (String, String)| x.0@));
                    let codegen = match find_key(&self.alias_modules, &sem) {
                        Some(k) => self.alias_modules[k].1.clone(),
                        None => sem.clone(),
                    };
                    Some((sem, codegen))
                },
                _ => None,
            },
            _ => None,
        }
    }

    fn check_call(&mut self, e: &Expr) -> (r: TypedExpr)
        ensures
            final(self).source_file == old(self).source_file,
            final(self).symbols == old(self).symbols,
            (final(self)@, r@) == c_call(old(self)@, e@),
        decreases e, 0nat,
    {
        match e {
            Expr::Call { func, args, span } => {
                let (lookup, codegen) = match self.call_names_x(&**func) {
                    Some(x) => x,
                    None => {
                        self.error(string_of("调用目标必须是函数名或 module.func"), "", copy_span(span));
                        let none: Vec<TypedExpr> = Vec::new();
                        assert(crate::semantic::types::tevs(none@) =~= Seq::<TExprV>::empty());
                        return texpr_x(TypedExprKind::Call { func_name: string_of("<unknown>"), args: none }, KangType::I32);
                    },
                };
                let targs = self.check_args(args);
                let ats = types_of_x(&targs);
                if is_word(&lookup, "len") {
                    return self.check_builtin_len(codegen, targs, copy_span(span));
                }
                if is_word(&lookup, "push") {
                    return self.check_builtin_push(codegen, targs, copy_span(span));
                }
                let found = match self.symbols.lookup_function(lookup.as_str(), ats.as_slice()) {
                    Some(sig) => Some((crate::semantic::scope::clone_params(&sig.params), sig.return_type.clone())),
                    None => None,
                };
                match found {
                    Some((params, ret)) => {
                        let count = params.len();
                        let n = ats.len();
                        if count != n {
                            let mut m = with_text("函数 \"", lookup.as_str(), "\" 参数数量不匹配: 期望 ");
                            push_decimal(&mut m, count);
                            push_str(&mut m, " 个，传入 ");
                            push_decimal(&mut m, n);
                            push_str(&mut m, " 个 (F4/F5)");
                            self.error(m, "", copy_span(span));
                        }
                        let k = if count <= n { count } else { n };
                        self.check_arg_types(&lookup, &params, &ats, span, k);
                        texpr_x(TypedExprKind::Call { func_name: codegen, args: targs }, ret)
                    },
                    None => {
                        self.error(with_text("未定义的函数 \"", lookup.as_str(), "\""), lookup.as_str(), copy_span(span));
                        texpr_x(TypedExprKind::Call { func_name: codegen, args: targs }, KangType::I32)
                    },
                }
            },
            _ => placeholder(),
        }
    }

    /// The argument-type rule over the first `k` arguments.
    fn check_arg_types(
        &mut self,
        name: &String,
        params: &Vec<(String, KangType)>,
        ats: &Vec<KangType>,
        span: &Range<usize>,
        k: usize,
    )
        requires
            k <= params@.len(),
            k <= ats@.len(),
        ensures
            final(self).source_file == old(self).source_file,
            final(self).symbols == old(self).symbols,
            final(self)@ == c_arg_types(
                old(self)@,
                name@,
                typed_params(params@),
                ats@.map_values(|t: KangType| t@),
                span_v(*span),
                k as nat,
            ),
    {
        let ghost pv = typed_params(params@);
        let ghost av = ats@.map_values(|t: KangType| t@);
        let mut i: usize = 0;
        while i < k
            invariant
                self.source_file == old(self).source_file,
                i <= k <= params@.len(),
                k <= ats@.len(),
                pv == typed_params(params@),
                av == ats@.map_values(|t: KangType| t@),
                self.symbols == old(self).symbols,
                self@ == c_arg_types(old(self)@, name@, pv, av, span_v(*span), i as nat),
            decreases k - i,
        {
            let pt = &params[i].1;
            let at = match &ats[i] {
                KangType::Pair(first, _) => match pt {
                    KangType::Pair(..) => ats[i].clone(),
                    _ => (**first).clone(),
                },
                _ => ats[i].clone(),
            };
            assert(at@ == effective_arg(pv[i as int].1, av[i as int]));
            if *pt != at {
                let mut m = with_text("函数 \"", name.as_str(), "\" 第 ");
                push_decimal(&mut m, i + 1);
                push_str(&mut m, " 个参数类型不匹配: 期望 ");
                let t1 = pt.to_text();
                push_str(&mut m, t1.as_str());
                push_str(&mut m, "，传入 ");
                let t2 = at.to_text();
                push_str(&mut m, t2.as_str());
                push_str(&mut m, " (F6)");
                self.error(m, "", copy_span(span));
            } else {
                self.pass();
            }
            i += 1;
        }
    }

    fn check_builtin_len(&mut self, name: String, targs: Vec<TypedExpr>, span: Range<usize>) -> (r: TypedExpr)
        ensures
            final(self).source_file == old(self).source_file,
            final(self).symbols == old(self).symbols,
            (final(self)@, r@) == c_len(old(self)@, name@, crate::semantic::types::tevs(targs@), span_v(span)),
    {
        proof {
            crate::semantic::types::lemma_tevs(targs@);
        }
        if targs.len() != 1 {
            self.error(string_of("len() 接受 1 个参数 (str 或数组)"), "", span);
        } else {
            let ok = match &targs[0].ty {
                KangType::Str => true,
                KangType::Array(_) => true,
                _ => false,
            };
            if ok {
                self.pass();
            } else {
                self.error(with_type("len() 参数必须是 str 或数组，得到 ", &targs[0].ty, " (A5)"), "", span);
            }
        }
        texpr_x(TypedExprKind::Call { func_name: name, args: targs }, KangType::I32)
    }

    fn check_builtin_push(&mut self, name: String, targs: Vec<TypedExpr>, span: Range<usize>) -> (r: TypedExpr)
        ensures
            final(self).source_file == old(self).source_file,
            final(self).symbols == old(self).symbols,
            (final(self)@, r@) == c_push(old(self)@, name@, crate::semantic::types::tevs(targs@), span_v(span)),
    {
        proof {
            crate::semantic::types::lemma_tevs(targs@);
        }
        if targs.len() != 2 {
            self.error(string_of("push() 接受 2 个参数: ([T], T)"), "", span);
        } else {
            match &targs[0].ty {
                KangType::Array(elem) => {
                    if **elem != targs[1].ty {
                        let mut m = with_type("push() 元素类型不匹配: 数组元素类型 ", &**elem, "，push 的元素类型 ");
                        let tt = targs[1].ty.to_text();
                        push_str(&mut m, tt.as_str());
                        push_str(&mut m, " (A3)");
                        self.error(m, "", span);
                    } else {
                        self.pass();
                    }
                },
                t => {
                    self.error(with_type("push() 第一个参数必须是数组，得到 ", t, " (A4)"), "", span);
                },
            }
        }
        texpr_x(TypedExprKind::Call { func_name: name, args: targs }, KangType::Void)
    }

    fn check_index(&mut self, e: &Expr) -> (r: TypedExpr)
        ensures
            final(self).source_file == old(self).source_file,
            final(self).symbols == old(self).symbols,
            (final(self)@, r@) == c_index(old(self)@, e@),
        decreases e, 0nat,
    {
        match e {
            Expr::Index { array, index, span } => {
                let at = self.check_expr(&**array, None);
                let it = self.check_expr(&**index, Some(KangType::I32));
                if it.ty != KangType::I32 {
                    self.error(with_type("索引必须是 i32 类型，得到 ", &it.ty, " (T9/T10)"), "", copy_span(span));
                } else {
                    self.pass();
                }
                let result_ty = match &at.ty {
                    KangType::Str => KangType::Str,
                    KangType::Array(t) => (**t).clone(),
                    t => {
                        self.error(with_type("不能对 ", t, " 类型使用索引"), "", copy_span(span));
                        KangType::I32
                    },
                };
                texpr_x(TypedExprKind::Index { array: Box::new(at), index: Box::new(it) }, result_ty)
            },
            _ => placeholder(),
        }
    }

    fn check_field_access(&mut self, e: &Expr) -> (r: TypedExpr)
        ensures
            final(self).source_file == old(self).source_file,
            final(self).symbols == old(self).symbols,
            (final(self)@, r@) == c_field(old(self)@, e@),
        decreases e, 0nat,
    {
        match e {
            Expr::FieldAccess { obj, field, span } => {
                let ot = self.check_expr(&**obj, None);
                let ty = match &ot.ty {
                    KangType::Struct(name) => {
                        let found = match self.struct_fields(name) {
                            Some(info) => Some(field_type_x(info, field)),
                            None => None,
                        };
                        match found {
                            Some(Some(t)) => {
                                self.pass();
                                t
                            },
                            Some(None) => {
                                let mut m = with_text("结构体 \"", name.as_str(), "\" 没有字段 \"");
                                push_str(&mut m, field.as_str());
                                push_str(&mut m, "\" (ST7)");
                                self.error(m, field.as_str(), copy_span(span));
                                KangType::I32
                            },
                            None => {
                                self.error(with_text("未定义的结构体类型 \"", name.as_str(), "\" (ST5)"), name.as_str(), copy_span(span));
                                KangType::I32
                            },
                        }
                    },
                    t => {
                        self.error(with_type("非结构体类型 ", t, " 不能使用 .field 访问 (ST6)"), field.as_str(), copy_span(span));
                        KangType::I32
                    },
                };
                texpr_x(TypedExprKind::FieldAccess { obj: Box::new(ot), field: field.clone() }, ty)
            },
            _ => placeholder(),
        }
    }

    fn check_array_lit(&mut self, e: &Expr, expected_type: Option<KangType>) -> (r: TypedExpr)
        ensures
            final(self).source_file == old(self).source_file,
            final(self).symbols == old(self).symbols,
            (final(self)@, r@) == c_array(old(self)@, e@, opt_kt(expected_type)),
        decreases e, 0nat,
    {
        match e {
            Expr::ArrayLit(elems, span) => {
                proof {
                    crate::ast::lemma_evs(elems@);
                }
                if elems.len() == 0 {
                    let et = match expected_type {
                        Some(KangType::Array(t)) => *t,
                        _ => KangType::I32,
                    };
                    if et == KangType::Void {
                        self.error(string_of("数组元素类型不能是 void (A1)"), "", copy_span(span));
                    } else {
                        self.pass();
                    }
                    let none: Vec<TypedExpr> = Vec::new();
                    assert(crate::semantic::types::tevs(none@) =~= Seq::<TExprV>::empty());
                    return texpr_x(TypedExprKind::ArrayLit(none), KangType::Array(Box::new(et)));
                }
                let ts = self.check_args(elems);
                proof {
                    crate::semantic::types::lemma_tevs(ts@);
                }
                let first = ts[0].ty.clone();
                let ghost tv = crate::semantic::types::tevs(ts@);
                let ghost st1 = self@;
                let mut all_same = true;
                let mut i: usize = 1;
                while i < ts.len()
                    invariant
                        self.source_file == old(self).source_file,
                        1 <= i <= ts@.len(),
                        tv == crate::semantic::types::tevs(ts@),
                        tv.len() == ts@.len(),
                        forall|k: int| 0 <= k < ts@.len() ==> #[trigger] tv[k] == crate::semantic::types::tev(&ts@[k]),
                        first@ == tv[0].ty,
                        self.symbols == old(self).symbols,
                        self@ == c_elem_types(st1, tv, first@, span_v(*span), i as nat),
                        all_same == (forall|k: int| 1 <= k < i ==> (#[trigger] tv[k]).ty == first@),
                    decreases ts@.len() - i,
                {
                    if ts[i].ty != first {
                        all_same = false;
                        let mut m = with_type("数组字面量元素类型不一致: 期望 ", &first, "，第 ");
                        push_decimal(&mut m, i + 1);
                        push_str(&mut m, " 个元素是 ");
                        let tt = ts[i].ty.to_text();
                        push_str(&mut m, tt.as_str());
                        push_str(&mut m, " (A2)");
                        self.error(m, "", copy_span(span));
                    }
                    assert(tv[i as int].ty == ts@[i as int].ty@);
                    i += 1;
                }
                if all_same {
                    self.pass();
                }
                if first == KangType::Void {
                    self.error(string_of("数组元素类型不能是 void (A1)"), "", copy_span(span));
                }
                texpr_x(TypedExprKind::ArrayLit(ts), KangType::Array(Box::new(first)))
            },
            _ => placeholder(),
        }
    }
}


impl Checker {
    fn check_struct_lit(&mut self, e: &Expr) -> (r: TypedExpr)
        ensures
            final(self).source_file == old(self).source_file,
            final(self).symbols == old(self).symbols,
            (final(self)@, r@) == c_struct_lit(old(self)@, e@),
        decreases e, 0nat,
    {
        match e {
            Expr::StructLit { name, fields, span } => {
                let info = match self.struct_fields(name) {
                    Some(i) => i.clone(),
                    None => {
                        self.error(with_text("未定义的结构体类型 \"", name.as_str(), "\" (ST5)"), name.as_str(), copy_span(span));
                        let none: Vec<(String, TypedExpr)> = Vec::new();
                        assert(crate::semantic::types::tevf(none@) =~= Seq::<(Seq<char>, TExprV)>::empty());
                        return texpr_x(
                            TypedExprKind::StructLit { name: name.clone(), fields: none },
                            KangType::Struct(name.clone()),
                        );
                    },
                };
                proof {
                    crate::ast::lemma_evf(fields@);
                }
                self.check_missing_fields(name, &info, fields, span);
                self.check_extra_fields(name, &info, fields);
                let tfs = self.check_field_values(&info, fields, span);
                texpr_x(TypedExprKind::StructLit { name: name.clone(), fields: tfs }, KangType::Struct(name.clone()))
            },
            _ => placeholder(),
        }
    }

    /// Every declared field is given (ST3).
    fn check_missing_fields(&mut self, name: &String, info: &StructInfo, fields: &Vec<(String, Expr)>, span: &Range<usize>)
        ensures
            final(self).source_file == old(self).source_file,
            final(self).symbols == old(self).symbols,
            final(self)@ == c_missing(
                old(self)@,
                name@,
                keys_of(info@),
                keys_of(crate::ast::evf(fields@)),
                span_v(*span),
                info@.len(),
            ),
    {
        proof {
            crate::ast::lemma_evf(fields@);
        }
        let ghost declared = keys_of(info@);
        let ghost provided = keys_of(crate::ast::evf(fields@));
        let mut i: usize = 0;
        while i < info.fields.len()
            invariant
                self.source_file == old(self).source_file,
                i <= info.fields@.len(),
                declared == keys_of(info@),
                provided == keys_of(crate::ast::evf(fields@)),
                crate::ast::evf(fields@).len() == fields@.len(),
                forall|k: int| 0 <= k < fields@.len() ==> #[trigger] crate::ast::evf(fields@)[k] == (fields@[k].0@, fields@[k].1@),
                self.symbols == old(self).symbols,
                self@ == c_missing(old(self)@, name@, declared, provided, span_v(*span), i as nat),
            decreases info.fields@.len() - i,
        {
            let df = &info.fields[i].0;
            let mut found = false;
            let mut j: usize = 0;
            while j < fields.len()
                invariant
                    self.source_file == old(self).source_file,
                    j <= fields@.len(),
                    provided == keys_of(crate::ast::evf(fields@)),
                    crate::ast::evf(fields@).len() == fields@.len(),
                    forall|k: int| 0 <= k < fields@.len() ==> #[trigger] crate::ast::evf(fields@)[k] == (fields@[k].0@, fields@[k].1@),
                    found == (exists|k: int| 0 <= k < j && provided[k] == df@),
                decreases fields@.len() - j,
            {
                if same_text(&fields[j].0, df) {
                    found = true;
                }
                assert(provided[j as int] == fields@[j as int].0@);
                j += 1;
            }
            assert(declared[i as int] == df@);
            assert(found == provided.contains(df@));
            if !found {
                let mut m = with_text("结构体 \"", name.as_str(), "\" 缺少字段 \"");
                push_str(&mut m, df.as_str());
                push_str(&mut m, "\" (ST3) — 必须初始化所有字段");
                self.error(m, df.as_str(), copy_span(span));
            }
            i += 1;
        }
    }

    /// Every given field is declared (ST4).
    fn check_extra_fields(&mut self, name: &String, info: &StructInfo, fields: &Vec<(String, Expr)>)
        ensures
            final(self).source_file == old(self).source_file,
            final(self).symbols == old(self).symbols,
            final(self)@ == c_extra(old(self)@, name@, keys_of(info@), crate::ast::evf(fields@), fields@.len()),
    {
        proof {
            crate::ast::lemma_evf(fields@);
        }
        let ghost declared = keys_of(info@);
        let ghost fv = crate::ast::evf(fields@);
        let mut i: usize = 0;
        while i < fields.len()
            invariant
                self.source_file == old(self).source_file,
                i <= fields@.len(),
                declared == keys_of(info@),
                fv == crate::ast::evf(fields@),
                fv.len() == fields@.len(),
                forall|k: int| 0 <= k < fields@.len() ==> #[trigger] fv[k] == (fields@[k].0@, fields@[k].1@),
                self.symbols == old(self).symbols,
                self@ == c_extra(old(self)@, name@, declared, fv, i as nat),
            decreases fields@.len() - i,
        {
            let pf = &fields[i].0;
            let mut found = false;
            let mut j: usize = 0;
            while j < info.fields.len()
                invariant
                    self.source_file == old(self).source_file,
                    j <= info.fields@.len(),
                    declared == keys_of(info@),
                    found == (exists|k: int| 0 <= k < j && declared[k] == pf@),
                decreases info.fields@.len() - j,
            {
                if same_text(&info.fields[j].0, pf) {
                    found = true;
                }
                assert(declared[j as int] == info.fields@[j as int].0@);
                j += 1;
            }
            assert(fv[i as int].0 == pf@);
            assert(found == declared.contains(pf@));
            if !found {
                let mut m = with_text("结构体 \"", name.as_str(), "\" 没有字段 \"");
                push_str(&mut m, pf.as_str());
                push_str(&mut m, "\" (ST4) — 多余字段");
                self.error(m, pf.as_str(), crate::ast::span_of_expr(&fields[i].1));
            }
            i += 1;
        }
    }

    /// The field values, checked in order against the declared types (T11).
    #[verifier::loop_isolation(false)]
    fn check_field_values(&mut self, info: &StructInfo, fields: &Vec<(String, Expr)>, span: &Range<usize>) -> (r: Vec<(String, TypedExpr)>)
        ensures
            final(self).source_file == old(self).source_file,
            final(self).symbols == old(self).symbols,
            (final(self)@, crate::semantic::types::tevf(r@)) == c_field_values(
                old(self)@,
                info@,
                crate::ast::evf(fields@),
                span_v(*span),
            ),
        decreases fields, 2nat,
    {
        let mut out: Vec<(String, TypedExpr)> = Vec::new();
        let mut i: usize = 0;
        assert(fields@.take(0) =~= Seq::<(String, Expr)>::empty());
        assert(crate::semantic::types::tevf(out@) =~= Seq::<(Seq<char>, TExprV)>::empty());
        while i < fields.len()
            invariant
                self.source_file == old(self).source_file,
                i <= fields@.len(),
                self.symbols == old(self).symbols,
                (self@, crate::semantic::types::tevf(out@)) == c_field_values(
                    old(self)@,
                    info@,
                    crate::ast::evf(fields@.take(i as int)),
                    span_v(*span),
                ),
            decreases fields@.len() - i,
        {
            proof {
                assert(decreases_to!(fields => fields@[i as int].1));
                crate::ast::lemma_evf_take(fields@, i as int);
                let x = crate::ast::evf(fields@.take(i as int));
                assert(x.push((fields@[i as int].0@, fields@[i as int].1@)).drop_last() =~= x);
            }
            let fname = &fields[i].0;
            let expected = field_type_x(info, fname);
            let tf = self.check_expr(&fields[i].1, match &expected {
                Some(t) => Some(t.clone()),
                None => None,
            });
            match expected {
                Some(et) => {
                    if tf.ty != et {
                        let mut m = with_text("字段 \"", fname.as_str(), "\" 类型不匹配: 声明 ");
                        let t1 = et.to_text();
                        push_str(&mut m, t1.as_str());
                        push_str(&mut m, "，提供的值 ");
                        let t2 = tf.ty.to_text();
                        push_str(&mut m, t2.as_str());
                        push_str(&mut m, " (T11)");
                        self.error(m, fname.as_str(), copy_span(span));
                    } else {
                        self.pass();
                    }
                },
                None => {},
            }
            let ghost before = out@;
            out.push((fname.clone(), tf));
            assert(out@.drop_last() =~= before);
            i += 1;
        }
        assert(fields@.take(fields@.len() as int) =~= fields@);
        out
    }
}


// ── Checking statements, as spec functions ──────────────────────────────

/// The state after declaring `n` in the innermost scope (nothing changes
/// when that scope already declares it).
pub open spec fn sym_insert(st: CheckerV, n: Seq<char>, kind: KindV, hint: ScopeHint) -> CheckerV {
    match find_in(st.symbols.last(), n) {
        Some(_) => st,
        None => CheckerV {
            symbols: st.symbols.drop_last().push(st.symbols.last().push(EntryV { name: n, kind, hint })),
            symbol_count: bump(st.symbol_count),
            ..st
        },
    }
}

pub open spec fn push_sc(st: CheckerV) -> CheckerV {
    CheckerV { symbols: st.symbols.push(Seq::empty()), ..st }
}

pub open spec fn pop_sc(st: CheckerV) -> CheckerV {
    CheckerV { symbols: st.symbols.drop_last(), ..st }
}

/// Leaving a loop's scope: its entries other than loop variables move out.
pub open spec fn pop_keep(st: CheckerV) -> CheckerV {
    let n = st.symbols.len();
    CheckerV {
        symbols: st.symbols.drop_last().drop_last().push(merge_non_loop(st.symbols[n - 2], st.symbols.last())),
        ..st
    }
}

/// The bindings of a `var` checked in order, against the value type `ity`
/// (of `n` bindings in all), declaring each named one (S1, S4).
pub open spec fn c_bindings(st: CheckerV, bs: Seq<VarBindingV>, ity: KT, sp: SpanV, k: nat) -> (CheckerV, Seq<(Seq<char>, KT, bool)>)
    decreases k,
{
    if k == 0 || k > bs.len() {
        (st, Seq::empty())
    } else {
        let (st1, tbs) = c_bindings(st, bs, ity, sp, (k - 1) as nat);
        let i = k - 1;
        match bs[i] {
            VarBindingV::Named(name, ty) => {
                let kt = kt_of_type(ty);
                let st2 = if i == 0 {
                    let first = match ity {
                        KT::Pair(t1, _) => *t1,
                        _ => ity,
                    };
                    if !(ity is Void) && first != kt {
                        with_error(st1, "var 接收类型 "@ + kt_text(kt) + " 与返回值类型 "@ + kt_text(first) + " 不匹配"@, name, sp)
                    } else if bs.len() > 1 {
                        with_pass(st1)
                    } else {
                        st1
                    }
                } else if i == 1 {
                    match ity {
                        KT::Pair(_, t2) => if *t2 != kt {
                            with_error(st1, "var 接收类型 "@ + kt_text(kt) + " 与返回值类型 "@ + kt_text(*t2) + " 不匹配"@, name, sp)
                        } else {
                            with_pass(st1)
                        },
                        _ => st1,
                    }
                } else {
                    st1
                };
                let st3 = if find_in(st2.symbols.last(), name) is Some {
                    with_error(st2, "参数/变量 \""@ + name + "\" 不能在同一作用域重新声明 (S1)"@, name, sp)
                } else {
                    match lookup_in(st2.symbols, name) {
                        Some(en) => if en.kind is Function {
                            with_error(st2, "变量 \""@ + name + "\" 与函数同名，命名空间冲突 (S4)"@, name, sp)
                        } else {
                            sym_insert(st2, name, KindV::Variable(kt), ScopeHint::Normal)
                        },
                        None => sym_insert(st2, name, KindV::Variable(kt), ScopeHint::Normal),
                    }
                };
                (st3, tbs.push((name, kt, false)))
            },
            VarBindingV::Discard => (st1, tbs.push(("_"@, KT::Void, true))),
        }
    }
}

/// A `var` declaration (M4, M6, and the bindings).
pub open spec fn c_var_decl(st: CheckerV, bs: Seq<VarBindingV>, init: ExprV) -> (CheckerV, TStmtV) {
    let n = bs.len();
    let expected = if n == 2 {
        None
    } else if n >= 1 {
        match bs[0] {
            VarBindingV::Named(_, ty) => Some(kt_of_type(ty)),
            VarBindingV::Discard => None,
        }
    } else {
        None
    };
    let (st1, it) = c_expr(st, init, expected);
    let ity = it.ty;
    let sp = expr_span(init);
    let st2 = if n == 2 && !(ity is Pair) && !(ity is Void) {
        with_error(st1, "函数返回 1 个值，但 var 试图接收 2 个值 (M4)"@, ""@, sp)
    } else {
        st1
    };
    let st3 = if ity is Void && n > 0 && !(n == 1 && bs[0] is Discard) {
        with_error(st2, "不能从 void 函数接收返回值 (M6)"@, ""@, sp)
    } else {
        st2
    };
    let (st4, tbs) = c_bindings(st3, bs, ity, sp, n);
    (st4, TStmtV::VarDecl(tbs, it))
}

/// The type a left value assigns to, if known (S2, AS1, AS4, ST5, ST6, ST7).
pub open spec fn resolve_lv(st: CheckerV, lv: LValueV) -> (CheckerV, Option<KT>) {
    match lv {
        LValueV::Ident(n, sp) => match lookup_in(st.symbols, n) {
            Some(en) => match en.kind {
                KindV::Variable(t) => (st, Some(t)),
                _ => (with_error(st, "\""@ + n + "\" 是函数名，不可赋值 (AS4)"@, n, sp), None),
            },
            None => (with_error(st, "未声明的变量 \""@ + n + "\" (S2)"@, n, sp), None),
        },
        LValueV::Index(a, _, sp) => {
            let at = peek(st, a);
            if at == KT::Str {
                (with_error(st, "字符串不可变，s[i] 不能作为赋值左值 (AS1)"@, ""@, sp), None)
            } else {
                match at {
                    KT::Array(t) => (st, Some(*t)),
                    _ => (st, None),
                }
            }
        },
        LValueV::Field(o, f, sp) => match peek(st, o) {
            KT::Struct(n) => match key_get(st.structs, n) {
                Some(info) => match field_type(info, f) {
                    Some(t) => (st, Some(t)),
                    None => (with_error(st, "结构体 \""@ + n + "\" 没有字段 \""@ + f + "\" (ST7)"@, f, sp), None),
                },
                None => (with_error(st, "未定义的结构体类型 \""@ + n + "\" (ST5)"@, n, sp), None),
            },
            _ => (with_error(st, "非结构体类型不能使用 .field 访问 (ST6)"@, f, sp), None),
        },
    }
}

/// An assignment: the value has the left value's type (AS2, AS5, AS6).
pub open spec fn c_assign(st: CheckerV, lv: LValueV, v: ExprV) -> (CheckerV, TStmtV) {
    let (st1, lty) = resolve_lv(st, lv);
    let (st2, vt) = c_expr(st1, v, lty);
    let st3 = match lty {
        Some(lt) => if lt != vt.ty {
            with_error(st2, "赋值类型不匹配: 左侧 "@ + kt_text(lt) + "，右侧 "@ + kt_text(vt.ty), ""@, expr_span(v))
        } else {
            with_pass(st2)
        },
        None => st2,
    };
    (st3, TStmtV::Assign(lv, vt))
}

/// The type the `i`-th returned value must have.
pub open spec fn ret_expected(ret: KT, i: int) -> Option<KT> {
    if i == 0 {
        match ret {
            KT::Pair(t1, _) => Some(*t1),
            KT::Void => None,
            t => Some(t),
        }
    } else if i == 1 {
        match ret {
            KT::Pair(_, t2) => Some(*t2),
            _ => None,
        }
    } else {
        None
    }
}

/// The returned values checked in order against the declared types (M3).
pub open spec fn c_ret_values(st: CheckerV, ret: KT, vs: Seq<ExprV>) -> (CheckerV, Seq<TExprV>)
    decreases vs.len(),
{
    if vs.len() == 0 {
        (st, Seq::empty())
    } else {
        let (st1, ts) = c_ret_values(st, ret, vs.drop_last());
        let (st2, tv) = c_ret_value(st1, ret, vs.last(), vs.len() - 1);
        (st2, ts.push(tv))
    }
}

/// The `i`-th returned value `v` checked against the declared type (M3).
#[verifier::opaque]
pub open spec fn c_ret_value(st: CheckerV, ret: KT, v: ExprV, i: int) -> (CheckerV, TExprV) {
    let expected = ret_expected(ret, i);
    let (st1, tv) = c_expr(st, v, expected);
    let st2 = match expected {
        Some(et) => if tv.ty != et {
            with_error(
                st1,
                "返回类型不匹配: 期望 "@ + kt_text(et) + "，得到 "@ + kt_text(tv.ty) + " (M3)"@,
                ""@,
                expr_span(v),
            )
        } else {
            with_pass(st1)
        },
        None => st1,
    };
    (st2, tv)
}

/// How many values a function of the return type `ret` returns.
pub open spec fn ret_arity(ret: KT) -> nat {
    match ret {
        KT::Pair(..) => 2,
        KT::Void => 0,
        _ => 1,
    }
}

/// A `return` (F2, M1, M2, M3).
pub open spec fn c_return(st: CheckerV, vs: Seq<ExprV>, span: SpanV) -> (CheckerV, TStmtV) {
    let ret = st.ret;
    let st1 = if ret is Void && vs.len() > 0 {
        with_error(st, "void 函数 \""@ + st.fname + "\" 的 return 不能带返回值 (F2)"@, ""@, span)
    } else {
        st
    };
    let st2 = if !(ret is Void) && vs.len() != ret_arity(ret) {
        with_error(
            st1,
            "return 表达式数量不匹配: 声明返回 "@ + decimal(ret_arity(ret)) + " 个值，实际 "@ + decimal(vs.len()) + " 个 (M1/M2)"@,
            ""@,
            span,
        )
    } else {
        st1
    };
    let (st3, tvs) = c_ret_values(st2, ret, vs);
    (st3, TStmtV::Return(tvs))
}

/// A statement.
pub open spec fn c_stmt(st: CheckerV, s: StmtV) -> (CheckerV, TStmtV)
    decreases s, 1nat,
{
    match s {
        StmtV::VarDecl(bs, init, _) => c_var_decl(st, bs, init),
        StmtV::Assign(lv, v, _) => c_assign(st, lv, v),
        StmtV::Return(vs, span) => c_return(st, vs, span),
        StmtV::If(..) => c_if(st, s),
        StmtV::For(..) => c_for(st, s),
        StmtV::Expr(e, _) => {
            let (st1, te) = c_expr(st, e, None);
            (st1, TStmtV::Expr(te))
        },
        StmtV::Block(..) => c_block(st, s),
    }
}

/// Statements checked in order.
pub open spec fn c_stmts(st: CheckerV, ss: Seq<StmtV>) -> (CheckerV, Seq<TStmtV>)
    decreases ss, 2nat,
{
    if ss.len() == 0 {
        (st, Seq::empty())
    } else {
        let (st1, ts) = c_stmts(st, ss.drop_last());
        let (st2, t) = c_stmt(st1, ss.last());
        (st2, ts.push(t))
    }
}

/// A block, in a scope of its own.
pub open spec fn c_block(st: CheckerV, s: StmtV) -> (CheckerV, TStmtV)
    decreases s, 0nat,
{
    match s {
        StmtV::Block(ss, _) => {
            let (st1, ts) = c_stmts(push_sc(st), ss);
            (pop_sc(st1), TStmtV::Block(ts))
        },
        _ => (st, TStmtV::Block(Seq::empty())),
    }
}

/// An `if`: the condition is a bool (T3).
pub open spec fn c_if(st: CheckerV, s: StmtV) -> (CheckerV, TStmtV)
    decreases s, 0nat,
{
    match s {
        StmtV::If(c, t, e, span) => {
            let (st1, ct) = c_expr(st, c, Some(KT::Bool));
            let st2 = if ct.ty != KT::Bool {
                with_error(st1, "if 条件必须是 bool 类型，得到 "@ + kt_text(ct.ty) + " (T3)"@, ""@, span)
            } else {
                with_pass(st1)
            };
            let (st3, tt) = c_stmt(st2, *t);
            match e {
                Some(x) => {
                    let (st4, et) = c_stmt(st3, *x);
                    (st4, TStmtV::If(ct, Box::new(tt), Some(Box::new(et))))
                },
                None => (st3, TStmtV::If(ct, Box::new(tt), None)),
            }
        },
        _ => (st, TStmtV::Block(Seq::empty())),
    }
}

/// A `for` loop: the variable lives in a scope of its own as a loop
/// variable (S3); the condition is a bool (T4).
pub open spec fn c_for(st: CheckerV, s: StmtV) -> (CheckerV, TStmtV)
    decreases s, 0nat,
{
    match s {
        StmtV::For(name, ty, start, end, lv, step, body, span) => {
            let kt = kt_of_type(ty);
            let st1 = sym_insert(push_sc(st), name, KindV::Variable(kt), ScopeHint::LoopVar);
            let (st2, s_t) = c_expr(st1, start, Some(kt));
            let st3 = CheckerV { in_loop: true, ..st2 };
            let (st4, e_t) = c_expr(st3, end, Some(KT::Bool));
            let st5 = if e_t.ty != KT::Bool {
                with_error(st4, "for 循环条件必须是 bool 类型，得到 "@ + kt_text(e_t.ty) + " (T4)"@, ""@, span)
            } else {
                with_pass(st4)
            };
            let (st6, x_t) = c_expr(st5, step, Some(kt));
            let (st7, b_t) = c_stmt(st6, *body);
            let st8 = pop_keep(CheckerV { in_loop: st2.in_loop, ..st7 });
            (st8, TStmtV::For(name, kt, s_t, e_t, lv, x_t, Box::new(b_t)))
        },
        _ => (st, TStmtV::Block(Seq::empty())),
    }
}


// ── Checking statements ─────────────────────────────────────────────────

impl Checker {
    /// Declares `name` in the innermost scope, leaving things as they are
    /// when that scope already declares it.
    pub(crate) fn declare(&mut self, name: &str, kind: SymbolKind, hint: ScopeHint)
        requires
            old(self).wf(),
        ensures
            final(self).source_file == old(self).source_file,
            final(self).wf(),
            final(self)@ == sym_insert(old(self)@, name@, kind@, hint),
            final(self)@.symbols.len() == old(self)@.symbols.len(),
    {
        let _ = self.symbols.insert(name, kind, hint);
    }

    fn check_bindings(&mut self, bindings: &Vec<VarBinding>, ity: &KangType, sp: &Range<usize>)
        -> (r: Vec<(String, KangType, bool)>)
        requires
            old(self).wf(),
        ensures
            final(self).source_file == old(self).source_file,
            final(self).wf(),
            final(self)@.symbols.len() == old(self)@.symbols.len(),
            (final(self)@, crate::semantic::types::typed_bindings(r@)) == c_bindings(
                old(self)@,
                crate::ast::vbs(bindings@),
                ity@,
                span_v(*sp),
                bindings@.len(),
            ),
    {
        let ghost bv = crate::ast::vbs(bindings@);
        let mut out: Vec<(String, KangType, bool)> = Vec::new();
        let mut i: usize = 0;
        assert(crate::semantic::types::typed_bindings(out@) =~= Seq::<(Seq<char>, KT, bool)>::empty());
        while i < bindings.len()
            invariant
                self.source_file == old(self).source_file,
                i <= bindings@.len(),
                bv == crate::ast::vbs(bindings@),
                self.wf(),
                self@.symbols.len() == old(self)@.symbols.len(),
                (self@, crate::semantic::types::typed_bindings(out@)) == c_bindings(old(self)@, bv, ity@, span_v(*sp), i as nat),
            decreases bindings@.len() - i,
        {
            let ghost before = out@;
            match &bindings[i] {
                VarBinding::Named { name, ty } => {
                    let kt = KangType::from_ast_type(ty);
                    if i == 0 {
                        let first = match ity {
                            KangType::Pair(t1, _) => (**t1).clone(),
                            _ => ity.clone(),
                        };
                        if !ity.is_void() && first != kt {
                            let mut m = with_type("var 接收类型 ", &kt, " 与返回值类型 ");
                            let tt = first.to_text();
                            push_str(&mut m, tt.as_str());
                            push_str(&mut m, " 不匹配");
                            self.error(m, name.as_str(), copy_span(sp));
                        } else if bindings.len() > 1 {
                            self.pass();
                        }
                    } else if i == 1 {
                        match ity {
                            KangType::Pair(_, t2) => {
                                if **t2 != kt {
                                    let mut m = with_type("var 接收类型 ", &kt, " 与返回值类型 ");
                                    let tt = t2.to_text();
                                    push_str(&mut m, tt.as_str());
                                    push_str(&mut m, " 不匹配");
                                    self.error(m, name.as_str(), copy_span(sp));
                                } else {
                                    self.pass();
                                }
                            },
                            _ => {},
                        }
                    }
                    let here = self.symbols.lookup_current(name.as_str()).is_some();
                    if here {
                        self.error(
                            with_text("参数/变量 \"", name.as_str(), "\" 不能在同一作用域重新声明 (S1)"),
                            name.as_str(),
                            copy_span(sp),
                        );
                    } else {
                        let is_func = match self.symbols.lookup(name.as_str()) {
                            Some(en) => match &en.kind {
                                SymbolKind::Function(_) => true,
                                _ => false,
                            },
                            None => false,
                        };
                        if is_func {
                            self.error(
                                with_text("变量 \"", name.as_str(), "\" 与函数同名，命名空间冲突 (S4)"),
                                name.as_str(),
                                copy_span(sp),
                            );
                        } else {
                            self.declare(name.as_str(), SymbolKind::Variable(kt.clone()), ScopeHint::Normal);
                        }
                    }
                    out.push((name.clone(), kt, false));
                },
                VarBinding::Discard => {
                    out.push((string_of("_"), KangType::Void, true));
                },
            }
            assert(crate::semantic::types::typed_bindings(out@) =~= crate::semantic::types::typed_bindings(before).push(
                crate::semantic::types::typed_bindings(out@).last(),
            ));
            i += 1;
        }
        out
    }

    fn check_var_decl(&mut self, bindings: &Vec<VarBinding>, init: &Expr) -> (r: TypedStmt)
        requires
            old(self).wf(),
        ensures
            final(self).source_file == old(self).source_file,
            final(self).wf(),
            final(self)@.symbols.len() == old(self)@.symbols.len(),
            (final(self)@, r@) == c_var_decl(old(self)@, crate::ast::vbs(bindings@), init@),
    {
        let n = bindings.len();
        let expected = if n == 2 {
            None
        } else if n >= 1 {
            match &bindings[0] {
                VarBinding::Named { ty, .. } => Some(KangType::from_ast_type(ty)),
                VarBinding::Discard => None,
            }
        } else {
            None
        };
        let it = self.check_expr(init, expected);
        let ity = it.ty.clone();
        let sp = crate::ast::span_of_expr(init);
        let is_pair = match ity {
            KangType::Pair(..) => true,
            _ => false,
        };
        if n == 2 && !is_pair && !ity.is_void() {
            self.error(string_of("函数返回 1 个值，但 var 试图接收 2 个值 (M4)"), "", copy_span(&sp));
        }
        let lone_discard = n == 1 && match &bindings[0] {
            VarBinding::Discard => true,
            _ => false,
        };
        if ity.is_void() && n > 0 && !lone_discard {
            self.error(string_of("不能从 void 函数接收返回值 (M6)"), "", copy_span(&sp));
        }
        let tbs = self.check_bindings(bindings, &ity, &sp);
        TypedStmt { kind: TypedStmtKind::VarDecl { bindings: tbs, init: Box::new(it) } }
    }

    /// The type a left value assigns to, if known.
    pub fn resolve_lvalue_type(&mut self, lv: &LValue) -> (r: Option<KangType>)
        ensures
            final(self).source_file == old(self).source_file,
            final(self).symbols == old(self).symbols,
            (final(self)@, opt_kt(r)) == resolve_lv(old(self)@, lv@),
    {
        match lv {
            LValue::Ident(name, span) => {
                let found = match self.symbols.lookup(name.as_str()) {
                    Some(en) => match &en.kind {
                        SymbolKind::Variable(t) => Some(Some(t.clone())),
                        _ => Some(None),
                    },
                    None => None,
                };
                match found {
                    Some(Some(t)) => Some(t),
                    Some(None) => {
                        self.error(with_text("\"", name.as_str(), "\" 是函数名，不可赋值 (AS4)"), name.as_str(), copy_span(span));
                        None
                    },
                    None => {
                        self.error(with_text("未声明的变量 \"", name.as_str(), "\" (S2)"), name.as_str(), copy_span(span));
                        None
                    },
                }
            },
            LValue::Index { array, span, .. } => {
                let at = self.peek_expr_type(&**array);
                if at == KangType::Str {
                    self.error(string_of("字符串不可变，s[i] 不能作为赋值左值 (AS1)"), "", copy_span(span));
                    return None;
                }
                match at {
                    KangType::Array(t) => Some(*t),
                    _ => None,
                }
            },
            LValue::FieldAccess { obj, field, span } => {
                let ot = self.peek_expr_type(&**obj);
                match &ot {
                    KangType::Struct(n) => {
                        let found = match self.struct_fields(n) {
                            Some(info) => Some(field_type_x(info, field)),
                            None => None,
                        };
                        match found {
                            Some(Some(t)) => Some(t),
                            Some(None) => {
                                let mut m = with_text("结构体 \"", n.as_str(), "\" 没有字段 \"");
                                push_str(&mut m, field.as_str());
                                push_str(&mut m, "\" (ST7)");
                                self.error(m, field.as_str(), copy_span(span));
                                None
                            },
                            None => {
                                self.error(with_text("未定义的结构体类型 \"", n.as_str(), "\" (ST5)"), n.as_str(), copy_span(span));
                                None
                            },
                        }
                    },
                    _ => {
                        self.error(string_of("非结构体类型不能使用 .field 访问 (ST6)"), field.as_str(), copy_span(span));
                        None
                    },
                }
            },
        }
    }

    fn check_assign(&mut self, lvalue: &LValue, value: &Expr) -> (r: TypedStmt)
        requires
            old(self).wf(),
        ensures
            final(self).source_file == old(self).source_file,
            final(self).wf(),
            final(self).symbols == old(self).symbols,
            (final(self)@, r@) == c_assign(old(self)@, lvalue@, value@),
    {
        let lty = self.resolve_lvalue_type(lvalue);
        let expected = match &lty {
            Some(t) => Some(t.clone()),
            None => None,
        };
        let vt = self.check_expr(value, expected);
        match lty {
            Some(lt) => {
                if lt != vt.ty {
                    let mut m = with_type("赋值类型不匹配: 左侧 ", &lt, "，右侧 ");
                    let tt = vt.ty.to_text();
                    push_str(&mut m, tt.as_str());
                    self.error(m, "", crate::ast::span_of_expr(value));
                } else {
                    self.pass();
                }
            },
            None => {},
        }
        TypedStmt { kind: TypedStmtKind::Assign { lvalue: lvalue.clone(), value: Box::new(vt) } }
    }
}


/// The type the `i`-th returned value must have (see `ret_expected`).
fn ret_expected_x(ret: &KangType, i: usize) -> (r: Option<KangType>)
    ensures
        opt_kt(r) == ret_expected(ret@, i as int),
{
    if i == 0 {
        match ret {
            KangType::Pair(t1, _) => Some((**t1).clone()),
            KangType::Void => None,
            _ => Some(ret.clone()),
        }
    } else if i == 1 {
        match ret {
            KangType::Pair(_, t2) => Some((**t2).clone()),
            _ => None,
        }
    } else {
        None
    }
}

fn clone_opt_kt(o: &Option<KangType>) -> (r: Option<KangType>)
    ensures
        opt_kt(r) == opt_kt(*o),
{
    match o {
        Some(t) => Some(t.clone()),
        None => None,
    }
}

impl Checker {
    /// Checks the returned values in order against the declared types.
    fn check_ret_values(&mut self, ret: &KangType, values: &Vec<Expr>) -> (r: Vec<TypedExpr>)
        ensures
            final(self).source_file == old(self).source_file,
            final(self).symbols == old(self).symbols,
            (final(self)@, crate::semantic::types::tevs(r@)) == c_ret_values(old(self)@, ret@, crate::ast::evs(values@)),
    {
        let ghost st0 = self@;
        let mut out: Vec<TypedExpr> = Vec::new();
        let mut i: usize = 0;
        assert(values@.take(0) =~= Seq::<Expr>::empty());
        assert(crate::semantic::types::tevs(out@) =~= Seq::<TExprV>::empty());
        while i < values.len()
            invariant
                self.source_file == old(self).source_file,
                i <= values@.len(),
                self.symbols == old(self).symbols,
                st0 == old(self)@,
                (self@, crate::semantic::types::tevs(out@)) == c_ret_values(
                    old(self)@,
                    ret@,
                    crate::ast::evs(values@.take(i as int)),
                ),
            decreases values@.len() - i,
        {
            let ghost x = crate::ast::evs(values@.take(i as int));
            let ghost vs = crate::ast::evs(values@.take(i + 1));
            proof {
                crate::ast::lemma_evs_take(values@, i as int);
                crate::ast::lemma_evs(values@.take(i as int));
                assert(vs.drop_last() =~= x);
                assert(vs.len() == i + 1);
                assert(vs.last() == values@[i as int]@);
            }
            let tv = self.check_ret_value(ret, &values[i], i);
            let ghost before = out@;
            out.push(tv);
            assert(out@.drop_last() =~= before);
            assert(crate::semantic::types::tevs(out@) == crate::semantic::types::tevs(before).push(tv@));
            assert((self@, crate::semantic::types::tevs(out@)) == c_ret_values(st0, ret@, vs));
            i += 1;
        }
        assert(values@.take(values@.len() as int) =~= values@);
        out
    }

    /// Compares a returned value's type with the declared one (M3).
    fn note_ret_type(&mut self, expected: Option<KangType>, got: &KangType, sp: Range<usize>)
        ensures
            final(self).source_file == old(self).source_file,
            final(self).symbols == old(self).symbols,
            final(self)@ == (match opt_kt(expected) {
                Some(et) => if got@ != et {
                    with_error(
                        old(self)@,
                        "返回类型不匹配: 期望 "@ + kt_text(et) + "，得到 "@ + kt_text(got@) + " (M3)"@,
                        ""@,
                        span_v(sp),
                    )
                } else {
                    with_pass(old(self)@)
                },
                None => old(self)@,
            }),
    {
        match expected {
            Some(et) => {
                if *got != et {
                    let mut m = with_type("返回类型不匹配: 期望 ", &et, "，得到 ");
                    let tt = got.to_text();
                    push_str(&mut m, tt.as_str());
                    push_str(&mut m, " (M3)");
                    self.error(m, "", sp);
                } else {
                    self.pass();
                }
            },
            None => {},
        }
    }

    /// Checks the `i`-th returned value.
    fn check_ret_value(&mut self, ret: &KangType, v: &Expr, i: usize) -> (r: TypedExpr)
        ensures
            final(self).source_file == old(self).source_file,
            final(self).symbols == old(self).symbols,
            (final(self)@, r@) == c_ret_value(old(self)@, ret@, v@, i as int),
    {
        proof {
            reveal(c_ret_value);
        }
        let expected = ret_expected_x(ret, i);
        let again = clone_opt_kt(&expected);
        let tv = self.check_expr(v, again);
        self.note_ret_type(expected, &tv.ty, crate::ast::span_of_expr(v));
        tv
    }

    fn check_return(&mut self, values: &Vec<Expr>, span: Range<usize>) -> (r: TypedStmt)
        requires
            old(self).wf(),
        ensures
            final(self).source_file == old(self).source_file,
            final(self).wf(),
            final(self).symbols == old(self).symbols,
            (final(self)@, r@) == c_return(old(self)@, crate::ast::evs(values@), span_v(span)),
    {
        proof {
            crate::ast::lemma_evs(values@);
        }
        let is_void = self.current_func_return.is_void();
        if is_void && values.len() > 0 {
            let m = with_text("void 函数 \"", self.current_func_name.as_str(), "\" 的 return 不能带返回值 (F2)");
            self.error(m, "", copy_span(&span));
        }
        let declared: usize = match &self.current_func_return {
            KangType::Pair(..) => 2,
            KangType::Void => 0,
            _ => 1,
        };
        if !is_void && values.len() != declared {
            let mut m = string_of("return 表达式数量不匹配: 声明返回 ");
            push_decimal(&mut m, declared);
            push_str(&mut m, " 个值，实际 ");
            push_decimal(&mut m, values.len());
            push_str(&mut m, " 个 (M1/M2)");
            self.error(m, "", copy_span(&span));
        }
        let ret = self.current_func_return.clone();
        let tvs = self.check_ret_values(&ret, values);
        TypedStmt { kind: TypedStmtKind::Return { values: tvs } }
    }

    /// Checks a statement.
    pub fn check_stmt(&mut self, s: &Stmt) -> (r: TypedStmt)
        requires
            old(self).wf(),
        ensures
            final(self).source_file == old(self).source_file,
            final(self).wf(),
            final(self)@.symbols.len() == old(self)@.symbols.len(),
            (final(self)@, r@) == c_stmt(old(self)@, s@),
        decreases s, 1nat,
    {
        match s {
            Stmt::VarDecl { bindings, init, .. } => self.check_var_decl(bindings, &**init),
            Stmt::Assign { lvalue, value, .. } => self.check_assign(lvalue, &**value),
            Stmt::Return { values, span } => self.check_return(values, copy_span(span)),
            Stmt::If { .. } => self.check_if(s),
            Stmt::For { .. } => self.check_for(s),
            Stmt::Expr(e, _) => {
                let te = self.check_expr(&**e, None);
                TypedStmt { kind: TypedStmtKind::Expr(Box::new(te)) }
            },
            Stmt::Block(..) => self.check_block(s),
        }
    }

    /// Checks statements in order.
    #[verifier::loop_isolation(false)]
    pub(crate) fn check_stmts(&mut self, stmts: &Vec<Stmt>) -> (r: Vec<TypedStmt>)
        requires
            old(self).wf(),
        ensures
            final(self).source_file == old(self).source_file,
            final(self).wf(),
            final(self)@.symbols.len() == old(self)@.symbols.len(),
            (final(self)@, crate::semantic::types::tsvs(r@)) == c_stmts(old(self)@, crate::ast::svs(stmts@)),
        decreases stmts, 2nat,
    {
        let mut out: Vec<TypedStmt> = Vec::new();
        let mut i: usize = 0;
        assert(stmts@.take(0) =~= Seq::<Stmt>::empty());
        assert(crate::semantic::types::tsvs(out@) =~= Seq::<TStmtV>::empty());
        while i < stmts.len()
            invariant
                self.source_file == old(self).source_file,
                i <= stmts@.len(),
                self.wf(),
                self@.symbols.len() == old(self)@.symbols.len(),
                (self@, crate::semantic::types::tsvs(out@)) == c_stmts(old(self)@, crate::ast::svs(stmts@.take(i as int))),
            decreases stmts@.len() - i,
        {
            proof {
                assert(decreases_to!(stmts => stmts@[i as int]));
                crate::ast::lemma_svs_take(stmts@, i as int);
                let x = crate::ast::svs(stmts@.take(i as int));
                assert(x.push(stmts@[i as int]@).drop_last() =~= x);
            }
            let t = self.check_stmt(&stmts[i]);
            let ghost before = out@;
            out.push(t);
            assert(out@.drop_last() =~= before);
            i += 1;
        }
        assert(stmts@.take(stmts@.len() as int) =~= stmts@);
        out
    }

    /// Checks a block in a scope of its own.
    fn check_block(&mut self, s: &Stmt) -> (r: TypedStmt)
        requires
            old(self).wf(),
        ensures
            final(self).source_file == old(self).source_file,
            final(self).wf(),
            final(self)@.symbols.len() == old(self)@.symbols.len(),
            (final(self)@, r@) == c_block(old(self)@, s@),
        decreases s, 0nat,
    {
        match s {
            Stmt::Block(stmts, _) => {
                self.symbols.push_scope();
                assert(self@ == push_sc(old(self)@));
                let ts = self.check_stmts(stmts);
                let ghost mid = self@;
                let _ = self.symbols.pop_scope();
                assert(self@ == pop_sc(mid));
                TypedStmt { kind: TypedStmtKind::Block(ts) }
            },
            _ => {
                let v: Vec<TypedStmt> = Vec::new();
                assert(crate::semantic::types::tsvs(v@) =~= Seq::<TStmtV>::empty());
                TypedStmt { kind: TypedStmtKind::Block(v) }
            },
        }
    }

    fn check_if(&mut self, s: &Stmt) -> (r: TypedStmt)
        requires
            old(self).wf(),
        ensures
            final(self).source_file == old(self).source_file,
            final(self).wf(),
            final(self)@.symbols.len() == old(self)@.symbols.len(),
            (final(self)@, r@) == c_if(old(self)@, s@),
        decreases s, 0nat,
    {
        match s {
            Stmt::If { condition, then_branch, else_branch, span } => {
                let ct = self.check_expr(&**condition, Some(KangType::Bool));
                if ct.ty != KangType::Bool {
                    let m = with_type("if 条件必须是 bool 类型，得到 ", &ct.ty, " (T3)");
                    self.error(m, "", copy_span(span));
                } else {
                    self.pass();
                }
                let tt = self.check_stmt(&**then_branch);
                match else_branch {
                    Some(x) => {
                        let et = self.check_stmt(&**x);
                        TypedStmt {
                            kind: TypedStmtKind::If {
                                condition: Box::new(ct),
                                then_branch: Box::new(tt),
                                else_branch: Some(Box::new(et)),
                            },
                        }
                    },
                    None => TypedStmt {
                        kind: TypedStmtKind::If { condition: Box::new(ct), then_branch: Box::new(tt), else_branch: None },
                    },
                }
            },
            _ => {
                let v: Vec<TypedStmt> = Vec::new();
                assert(crate::semantic::types::tsvs(v@) =~= Seq::<TStmtV>::empty());
                TypedStmt { kind: TypedStmtKind::Block(v) }
            },
        }
    }

    fn check_for(&mut self, s: &Stmt) -> (r: TypedStmt)
        requires
            old(self).wf(),
        ensures
            final(self).source_file == old(self).source_file,
            final(self).wf(),
            final(self)@.symbols.len() == old(self)@.symbols.len(),
            (final(self)@, r@) == c_for(old(self)@, s@),
        decreases s, 0nat,
    {
        match s {
            Stmt::For { var_name, var_type, start, end, step_lvalue, step_expr, body, span } => {
                self.symbols.push_scope();
                assert(self@ == push_sc(old(self)@));
                let kt = KangType::from_ast_type(var_type);
                self.declare(var_name.as_str(), SymbolKind::Variable(kt.clone()), ScopeHint::LoopVar);
                let s_t = self.check_expr(&**start, Some(kt.clone()));
                let old_in_loop = self.in_loop;
                self.in_loop = true;
                let e_t = self.check_expr(&**end, Some(KangType::Bool));
                if e_t.ty != KangType::Bool {
                    let m = with_type("for 循环条件必须是 bool 类型，得到 ", &e_t.ty, " (T4)");
                    self.error(m, "", copy_span(span));
                } else {
                    self.pass();
                }
                let x_t = self.check_expr(&**step_expr, Some(kt.clone()));
                let b_t = self.check_stmt(&**body);
                self.in_loop = old_in_loop;
                let ghost mid = self@;
                self.symbols.pop_scope_keep_non_loop();
                assert(self@ == pop_keep(mid));
                TypedStmt {
                    kind: TypedStmtKind::For {
                        var_name: var_name.clone(),
                        var_type: kt,
                        start: Box::new(s_t),
                        end: Box::new(e_t),
                        step_lvalue: step_lvalue.clone(),
                        step_expr: Box::new(x_t),
                        body: Box::new(b_t),
                    },
                }
            },
            _ => {
                let v: Vec<TypedStmt> = Vec::new();
                assert(crate::semantic::types::tsvs(v@) =~= Seq::<TStmtV>::empty());
                TypedStmt { kind: TypedStmtKind::Block(v) }
            },
        }
    }
}


// ── Declarations, as spec functions ─────────────────────────────────────

/// Where an error about the field `f` of struct `s` is reported.
pub open spec fn field_ctx(s: Seq<char>, f: Seq<char>) -> Seq<char> {
    "struct "@ + s + " 的字段 "@ + f
}

pub open spec fn self_field_msg(s: Seq<char>) -> Seq<char> {
    "结构体 \""@ + s + "\" 不能直接包含自身类型的字段 (ST2)，请使用 ["@ + s + "]"@
}

/// The first `k` fields of the struct `s`; a void field (ST1) and a field
/// of the struct's own type (ST2) are reported and left out.
pub open spec fn c_fields(st: CheckerV, s: Seq<char>, fs: Seq<(Seq<char>, TypeV)>, k: nat) -> (CheckerV, Seq<(Seq<char>, KT)>)
    decreases k,
{
    if k == 0 || k > fs.len() {
        (st, Seq::empty())
    } else {
        let (st1, out) = c_fields(st, s, fs, (k - 1) as nat);
        let f = fs[k - 1];
        let kt = kt_of_type(f.1);
        if kt == KT::Void {
            (with_error(st1, "结构体字段类型不能是 void (ST1)"@, field_ctx(s, f.0), (0, 0)), out)
        } else if kt == KT::Struct(s) {
            (with_error(st1, self_field_msg(s), field_ctx(s, f.0), (0, 0)), out)
        } else {
            (st1, out.push((f.0, kt)))
        }
    }
}

/// Declaring `n` in the innermost scope; reported when that scope has it.
pub open spec fn declare_or_report(st: CheckerV, n: Seq<char>, kind: KindV) -> CheckerV {
    if find_in(st.symbols.last(), n) is Some {
        with_error(st, redeclared_msg(n), n, (0, 0))
    } else {
        sym_insert(st, n, kind, ScopeHint::Normal)
    }
}

/// A struct declaration: its checked fields, its entry among the struct
/// types (replacing an earlier one of the same name) and its symbol.
pub open spec fn c_struct_decl(st: CheckerV, sd: StructDefV) -> CheckerV {
    let (st1, fs) = c_fields(st, sd.name, sd.fields, sd.fields.len());
    let st2 = CheckerV { structs: key_put(st1.structs, sd.name, fs), ..st1 };
    declare_or_report(st2, sd.name, KindV::Struct(fs))
}

/// Names with their types resolved.
pub open spec fn param_kts(ps: Seq<(Seq<char>, TypeV)>) -> Seq<(Seq<char>, KT)> {
    ps.map_values(|p: (Seq<char>, TypeV)| (p.0, kt_of_type(p.1)))
}

/// The signature of a user function.
pub open spec fn user_sig(ps: Seq<(Seq<char>, TypeV)>, ret: ReturnTypeV) -> SigV {
    SigV { params: param_kts(ps), ret: kt_of_ret(ret), builtin: false, overloads: Seq::empty() }
}

/// `n` names a user function visible from the innermost scope.
pub open spec fn is_user_func(st: CheckerV, n: Seq<char>) -> bool {
    match lookup_in(st.symbols, n) {
        Some(en) => match en.kind {
            KindV::Function(sig) => !sig.builtin,
            _ => false,
        },
        None => false,
    }
}

/// Registering a function's signature; a second user function of the same
/// name is refused (F3).
pub open spec fn c_func_decl(st: CheckerV, f: FuncDefV) -> CheckerV {
    if is_user_func(st, f.name) {
        with_error(st, "函数 \""@ + f.name + "\" 已被定义，用户函数不支持重载 (F3)"@, f.name, (0, 0))
    } else {
        declare_or_report(st, f.name, KindV::Function(user_sig(f.params, f.ret)))
    }
}

/// The first `k` parameters declared in the innermost scope; a repeated
/// name keeps its first declaration.
pub open spec fn c_params(st: CheckerV, ps: Seq<(Seq<char>, TypeV)>, k: nat) -> CheckerV
    decreases k,
{
    if k == 0 || k > ps.len() {
        st
    } else {
        sym_insert(
            c_params(st, ps, (k - 1) as nat),
            ps[k - 1].0,
            KindV::Variable(kt_of_type(ps[k - 1].1)),
            ScopeHint::Normal,
        )
    }
}

/// A function definition, checked in a scope of its own: every path of a
/// non-void function ends in a `return` (F1).
pub open spec fn c_func_def(st: CheckerV, f: FuncDefV) -> (CheckerV, TFuncV) {
    let ret = kt_of_ret(f.ret);
    let st1 = c_params(push_sc(CheckerV { fname: f.name, ret, ..st }), f.params, f.params.len());
    let (st2, body) = c_stmts(st1, f.body);
    let st3 = if !(ret is Void) && !seq_returns(f.body) {
        with_error(st2, "非 void 函数 \""@ + f.name + "\" 必须所有代码路径都有 return 语句 (F1)"@, f.name, (0, 0))
    } else {
        st2
    };
    (pop_sc(st3), TFuncV { name: f.name, params: param_kts(f.params), ret, body })
}

// ── Declarations ────────────────────────────────────────────────────────

/// Names with their types resolved.
pub(crate) fn resolve_params(ps: &Vec<(String, Type)>) -> (r: Vec<(String, KangType)>)
    ensures
        typed_params(r@) == param_kts(typed_names(ps@)),
{
    let mut r: Vec<(String, KangType)> = Vec::new();
    let mut i: usize = 0;
    while i < ps.len()
        invariant
            i <= ps@.len(),
            r@.len() == i,
            forall|k: int| 0 <= k < i ==> (#[trigger] r@[k]).0@ == ps@[k].0@ && r@[k].1@ == kt_of_type(ps@[k].1@),
        decreases ps@.len() - i,
    {
        r.push((ps[i].0.clone(), KangType::from_ast_type(&ps[i].1)));
        i += 1;
    }
    assert(typed_params(r@) =~= param_kts(typed_names(ps@)));
    r
}

impl Checker {
    /// Sets the fields of the struct type `name`.
    pub(crate) fn put_struct(&mut self, name: String, info: StructInfo)
        ensures
            final(self).source_file == old(self).source_file,
            final(self)@ == (CheckerV { structs: key_put(old(self)@.structs, name@, info@), ..old(self)@ }),
            final(self).symbols == old(self).symbols,
    {
        let ghost m = self@.structs;
        assert(keys_of(m) =~= self.structs@.map_values(|x: (String, StructInfo)| x.0@));
        match find_key(&self.structs, &name) {
            Some(k) => {
                self.structs.set(k, (name, info));
                assert(self.structs@.map_values(|x: (String, StructInfo)| (x.0@, x.1@)) =~= key_put(m, name@, info@));
            },
            None => {
                self.structs.push((name, info));
                assert(self.structs@.map_values(|x: (String, StructInfo)| (x.0@, x.1@)) =~= key_put(m, name@, info@));
            },
        }
    }

    /// Sets the name code generation uses for the imported function `name`.
    pub(crate) fn put_alias(&mut self, name: String, target: String)
        ensures
            final(self).source_file == old(self).source_file,
            final(self)@ == (CheckerV { aliases: key_put(old(self)@.aliases, name@, target@), ..old(self)@ }),
            final(self).symbols == old(self).symbols,
    {
        let ghost m = self@.aliases;
        assert(keys_of(m) =~= self.alias_modules@.map_values(|x: (String, String)| x.0@));
        match find_key(&self.alias_modules, &name) {
            Some(k) => {
                self.alias_modules.set(k, (name, target));
                assert(self.alias_modules@.map_values(|x: (String, String)| (x.0@, x.1@)) =~= key_put(m, name@, target@));
            },
            None => {
                self.alias_modules.push((name, target));
                assert(self.alias_modules@.map_values(|x: (String, String)| (x.0@, x.1@)) =~= key_put(m, name@, target@));
            },
        }
    }

    /// Declares `name` in the innermost scope, reporting a name that scope
    /// already has.
    pub(crate) fn declare_or_report(&mut self, name: &str, kind: SymbolKind)
        requires
            old(self).wf(),
        ensures
            final(self).source_file == old(self).source_file,
            final(self).wf(),
            final(self)@.symbols.len() == old(self)@.symbols.len(),
            final(self)@ == declare_or_report(old(self)@, name@, kind@),
    {
        match self.symbols.insert(name, kind, ScopeHint::Normal) {
            Ok(()) => {},
            Err(e) => self.error(e, name, 0..0),
        }
    }

    /// Registers a struct declaration (ST1, ST2); it must come before the
    /// functions that use the type are checked.
    pub fn check_struct_decl(&mut self, s: &StructDef)
        requires
            old(self).wf(),
        ensures
            final(self).source_file == old(self).source_file,
            final(self).wf(),
            final(self)@.symbols.len() == old(self)@.symbols.len(),
            final(self)@ == c_struct_decl(old(self)@, s@),
    {
        let ghost fs = typed_names(s.fields@);
        let mut fields: Vec<(String, KangType)> = Vec::new();
        let mut i: usize = 0;
        assert(typed_params(fields@) =~= Seq::<(Seq<char>, KT)>::empty());
        while i < s.fields.len()
            invariant
                self.source_file == old(self).source_file,
                i <= s.fields@.len(),
                fs == typed_names(s.fields@),
                self.symbols == old(self).symbols,
                (self@, typed_params(fields@)) == c_fields(old(self)@, s.name@, fs, i as nat),
            decreases s.fields@.len() - i,
        {
            let kt = KangType::from_ast_type(&s.fields[i].1);
            let fname = &s.fields[i].0;
            let is_void = kt.is_void();
            let own = match &kt {
                KangType::Struct(n) => same_text(n, &s.name),
                _ => false,
            };
            let ghost before = fields@;
            if is_void {
                let ctx = with_text("struct ", s.name.as_str(), " 的字段 ");
                let mut c = ctx;
                push_str(&mut c, fname.as_str());
                self.error(string_of("结构体字段类型不能是 void (ST1)"), c.as_str(), 0..0);
            } else if own {
                let mut m = with_text("结构体 \"", s.name.as_str(), "\" 不能直接包含自身类型的字段 (ST2)，请使用 [");
                push_str(&mut m, s.name.as_str());
                push_str(&mut m, "]");
                let mut c = with_text("struct ", s.name.as_str(), " 的字段 ");
                push_str(&mut c, fname.as_str());
                self.error(m, c.as_str(), 0..0);
            } else {
                fields.push((fname.clone(), kt));
                assert(typed_params(fields@) =~= typed_params(before).push((fname@, kt_of_type(s.fields@[i as int].1@))));
            }
            i += 1;
        }
        let info = StructInfo { fields };
        let kept = info.clone();
        self.put_struct(s.name.clone(), info);
        self.declare_or_report(s.name.as_str(), SymbolKind::Struct(kept));
    }

    /// Registers a function's signature; a second user function of the same
    /// name is refused (F3).
    pub fn register_func_decl(&mut self, f: &FuncDef)
        requires
            old(self).wf(),
        ensures
            final(self).source_file == old(self).source_file,
            final(self).wf(),
            final(self)@.symbols.len() == old(self)@.symbols.len(),
            final(self)@ == c_func_decl(old(self)@, f@),
    {
        let ret = KangType::from_ast_return_type(&f.return_type);
        let params = resolve_params(&f.params);
        let user = match self.symbols.lookup(f.name.as_str()) {
            Some(en) => match &en.kind {
                SymbolKind::Function(sig) => !sig.is_builtin,
                _ => false,
            },
            None => false,
        };
        if user {
            self.error(
                with_text("函数 \"", f.name.as_str(), "\" 已被定义，用户函数不支持重载 (F3)"),
                f.name.as_str(),
                0..0,
            );
            return;
        }
        let sig = FuncSignature { params, return_type: ret, is_builtin: false, overloads: Vec::new() };
        assert(crate::semantic::scope::sigs_v(sig.overloads@) =~= Seq::<SigV>::empty());
        assert(sig@ == user_sig(typed_names(f.params@), f.return_type@));
        self.declare_or_report(f.name.as_str(), SymbolKind::Function(sig));
    }

    /// Checks a function definition; the struct types and the signatures of
    /// all functions must have been registered before.
    pub fn check_func_def(&mut self, func: &FuncDef) -> (r: TypedFuncDef)
        requires
            old(self).wf(),
        ensures
            final(self).source_file == old(self).source_file,
            final(self).wf(),
            final(self)@.symbols.len() == old(self)@.symbols.len(),
            (final(self)@, r@) == c_func_def(old(self)@, func@),
    {
        let ret = KangType::from_ast_return_type(&func.return_type);
        self.current_func_name = func.name.clone();
        self.current_func_return = ret.clone();
        self.symbols.push_scope();
        let ghost st1 = self@;
        assert(st1 == push_sc(CheckerV { fname: func.name@, ret: ret@, ..old(self)@ }));
        let ghost ps = typed_names(func.params@);
        let mut params: Vec<(String, KangType)> = Vec::new();
        let mut i: usize = 0;
        while i < func.params.len()
            invariant
                self.source_file == old(self).source_file,
                i <= func.params@.len(),
                ps == typed_names(func.params@),
                self.wf(),
                self@.symbols.len() == st1.symbols.len(),
                self@ == c_params(st1, ps, i as nat),
                params@.len() == i,
                forall|k: int| 0 <= k < i ==> (#[trigger] params@[k]).0@ == func.params@[k].0@ && params@[k].1@ == kt_of_type(
                    func.params@[k].1@,
                ),
            decreases func.params@.len() - i,
        {
            let kt = KangType::from_ast_type(&func.params[i].1);
            self.declare(func.params[i].0.as_str(), SymbolKind::Variable(kt.clone()), ScopeHint::Normal);
            params.push((func.params[i].0.clone(), kt));
            i += 1;
        }
        assert(typed_params(params@) =~= param_kts(ps));
        let body = self.check_stmts(&func.body);
        if !ret.is_void() && !crate::semantic::flow::all_paths_return(&func.body) {
            self.error(
                with_text("非 void 函数 \"", func.name.as_str(), "\" 必须所有代码路径都有 return 语句 (F1)"),
                func.name.as_str(),
                0..0,
            );
        }
        let ghost mid = self@;
        let _ = self.symbols.pop_scope();
        assert(self@ == pop_sc(mid));
        TypedFuncDef {
            name: func.name.clone(),
            params,
            return_type: ret,
            body,
        }
    }
}

// ── Laws: a check only adds to what was found ──────────────────────────

/// The errors `a` come first in `b`, unchanged and in order.
pub open spec fn keeps_errors(a: Seq<ErrV>, b: Seq<ErrV>) -> bool {
    a.len() <= b.len() && forall|i: int| 0 <= i < a.len() ==> #[trigger] b[i] == a[i]
}

/// `b` is `a` after further checking: every error found before is still
/// reported, first and in order, and the counts of rules that held or
/// failed have not dropped.
pub open spec fn reports_more(a: CheckerV, b: CheckerV) -> bool {
    &&& keeps_errors(a.errors, b.errors)
    &&& a.failures <= b.failures
    &&& a.passes <= b.passes
}

/// `b` is `a` after checking an expression: it reports more, and nothing
/// else changed (scopes, struct types, function context).
pub open spec fn only_reports(a: CheckerV, b: CheckerV) -> bool {
    &&& reports_more(a, b)
    &&& b == CheckerV { errors: b.errors, failures: b.failures, passes: b.passes, ..a }
}

pub proof fn lemma_arg_types_report(st: CheckerV, name: Seq<char>, params: Seq<(Seq<char>, KT)>, args: Seq<KT>, span: SpanV, k: nat)
    ensures
        only_reports(st, c_arg_types(st, name, params, args, span, k)),
    decreases k,
{
    if k > 0 {
        lemma_arg_types_report(st, name, params, args, span, (k - 1) as nat);
    }
}

pub proof fn lemma_elem_types_report(st: CheckerV, ts: Seq<TExprV>, first: KT, span: SpanV, k: nat)
    ensures
        only_reports(st, c_elem_types(st, ts, first, span, k)),
    decreases k,
{
    if k > 1 {
        lemma_elem_types_report(st, ts, first, span, (k - 1) as nat);
    }
}

pub proof fn lemma_missing_report(st: CheckerV, name: Seq<char>, declared: Seq<Seq<char>>, provided: Seq<Seq<char>>, span: SpanV, k: nat)
    ensures
        only_reports(st, c_missing(st, name, declared, provided, span, k)),
    decreases k,
{
    if k > 0 {
        lemma_missing_report(st, name, declared, provided, span, (k - 1) as nat);
    }
}

pub proof fn lemma_extra_report(st: CheckerV, name: Seq<char>, declared: Seq<Seq<char>>, fields: Seq<(Seq<char>, ExprV)>, k: nat)
    ensures
        only_reports(st, c_extra(st, name, declared, fields, k)),
    decreases k,
{
    if k > 0 {
        lemma_extra_report(st, name, declared, fields, (k - 1) as nat);
    }
}

/// Checking an expression only reports: it keeps every error found before,
/// first and in order, never lowers the counts of rules, and changes
/// nothing else.
pub proof fn law_expression_check_only_reports(st: CheckerV, e: ExprV, expected: Option<KT>)
    ensures
        only_reports(st, c_expr(st, e, expected).0),
    decreases e, 1nat,
{
    match e {
        ExprV::Binary(..) => lemma_binary_report(st, e),
        ExprV::Unary(..) => lemma_unary_report(st, e),
        ExprV::Call(..) => lemma_call_report(st, e),
        ExprV::Index(..) => lemma_index_report(st, e),
        ExprV::Field(..) => lemma_field_report(st, e),
        ExprV::ArrayLit(..) => lemma_array_report(st, e, expected),
        ExprV::StructLit(..) => lemma_struct_lit_report(st, e),
        _ => {},
    }
}

pub proof fn lemma_args_report(st: CheckerV, args: Seq<ExprV>)
    ensures
        only_reports(st, c_args(st, args).0),
    decreases args, 2nat,
{
    if args.len() > 0 {
        lemma_args_report(st, args.drop_last());
        law_expression_check_only_reports(c_args(st, args.drop_last()).0, args.last(), None);
    }
}

pub proof fn lemma_binary_report(st: CheckerV, e: ExprV)
    ensures
        only_reports(st, c_binary(st, e).0),
    decreases e, 0nat,
{
    match e {
        ExprV::Binary(l, op, r, span) => {
            law_expression_check_only_reports(st, *l, None);
            let st1 = c_expr(st, *l, None).0;
            law_expression_check_only_reports(st1, *r, None);
        },
        _ => {},
    }
}

pub proof fn lemma_unary_report(st: CheckerV, e: ExprV)
    ensures
        only_reports(st, c_unary(st, e).0),
    decreases e, 0nat,
{
    match e {
        ExprV::Unary(_, x, _) => {
            law_expression_check_only_reports(st, *x, None);
        },
        _ => {},
    }
}

pub proof fn lemma_call_report(st: CheckerV, e: ExprV)
    ensures
        only_reports(st, c_call(st, e).0),
    decreases e, 0nat,
{
    match e {
        ExprV::Call(f, args, span) => match call_names(st, *f) {
            None => {},
            Some(names) => {
                let (lookup, codegen) = names;
                lemma_args_report(st, args);
                let (st1, targs) = c_args(st, args);
                let ats = types_of(targs);
                if lookup != "len"@ && lookup != "push"@ {
                    match crate::semantic::scope::lookup_func_in(st1.symbols, lookup, ats) {
                        Some(sig) => {
                            let count = sig.params.len();
                            let st2 = if count != ats.len() {
                                with_error(
                                    st1,
                                    "函数 \""@ + lookup + "\" 参数数量不匹配: 期望 "@ + decimal(count) + " 个，传入 "@
                                        + decimal(ats.len()) + " 个 (F4/F5)"@,
                                    ""@,
                                    span,
                                )
                            } else {
                                st1
                            };
                            lemma_arg_types_report(st2, lookup, sig.params, ats, span, min_nat(count, ats.len()));
                        },
                        None => {},
                    }
                }
            },
        },
        _ => {},
    }
}

pub proof fn lemma_index_report(st: CheckerV, e: ExprV)
    ensures
        only_reports(st, c_index(st, e).0),
    decreases e, 0nat,
{
    match e {
        ExprV::Index(a, i, _) => {
            law_expression_check_only_reports(st, *a, None);
            let st1 = c_expr(st, *a, None).0;
            law_expression_check_only_reports(st1, *i, Some(KT::I32));
        },
        _ => {},
    }
}

pub proof fn lemma_field_report(st: CheckerV, e: ExprV)
    ensures
        only_reports(st, c_field(st, e).0),
    decreases e, 0nat,
{
    match e {
        ExprV::Field(o, _, _) => {
            law_expression_check_only_reports(st, *o, None);
        },
        _ => {},
    }
}

pub proof fn lemma_array_report(st: CheckerV, e: ExprV, expected: Option<KT>)
    ensures
        only_reports(st, c_array(st, e, expected).0),
    decreases e, 0nat,
{
    match e {
        ExprV::ArrayLit(elems, span) => if elems.len() > 0 {
            lemma_args_report(st, elems);
            let (st1, ts) = c_args(st, elems);
            lemma_elem_types_report(st1, ts, ts[0].ty, span, ts.len());
        },
        _ => {},
    }
}

pub proof fn lemma_field_values_report(st: CheckerV, info: Seq<(Seq<char>, KT)>, fields: Seq<(Seq<char>, ExprV)>, span: SpanV)
    ensures
        only_reports(st, c_field_values(st, info, fields, span).0),
    decreases fields, 2nat,
{
    if fields.len() > 0 {
        lemma_field_values_report(st, info, fields.drop_last(), span);
        let st1 = c_field_values(st, info, fields.drop_last(), span).0;
        law_expression_check_only_reports(st1, fields.last().1, field_type(info, fields.last().0));
    }
}

pub proof fn lemma_struct_lit_report(st: CheckerV, e: ExprV)
    ensures
        only_reports(st, c_struct_lit(st, e).0),
    decreases e, 0nat,
{
    match e {
        ExprV::StructLit(name, fields, span) => match key_get(st.structs, name) {
            None => {},
            Some(info) => {
                let declared = keys_of(info);
                let provided = keys_of(fields);
                lemma_missing_report(st, name, declared, provided, span, declared.len());
                let st1 = c_missing(st, name, declared, provided, span, declared.len());
                lemma_extra_report(st1, name, declared, fields, fields.len());
                let st2 = c_extra(st1, name, declared, fields, fields.len());
                lemma_field_values_report(st2, info, fields, span);
            },
        },
        _ => {},
    }
}

pub proof fn lemma_bindings_report(st: CheckerV, bs: Seq<VarBindingV>, ity: KT, sp: SpanV, k: nat)
    ensures
        reports_more(st, c_bindings(st, bs, ity, sp, k).0),
    decreases k,
{
    if k > 0 && k <= bs.len() {
        lemma_bindings_report(st, bs, ity, sp, (k - 1) as nat);
    }
}

pub proof fn lemma_ret_values_report(st: CheckerV, ret: KT, vs: Seq<ExprV>)
    ensures
        reports_more(st, c_ret_values(st, ret, vs).0),
    decreases vs.len(),
{
    if vs.len() > 0 {
        lemma_ret_values_report(st, ret, vs.drop_last());
        let st1 = c_ret_values(st, ret, vs.drop_last()).0;
        reveal(c_ret_value);
        law_expression_check_only_reports(st1, vs.last(), ret_expected(ret, vs.len() - 1));
    }
}

/// Checking a statement keeps every error found before, first and in order,
/// and never lowers the counts of rules.
pub proof fn law_statement_check_reports_more(st: CheckerV, s: StmtV)
    ensures
        reports_more(st, c_stmt(st, s).0),
    decreases s, 1nat,
{
    match s {
        StmtV::VarDecl(bs, init, _) => {
            let n = bs.len();
            let expected = if n == 2 {
                None
            } else if n >= 1 {
                match bs[0] {
                    VarBindingV::Named(_, ty) => Some(kt_of_type(ty)),
                    VarBindingV::Discard => None,
                }
            } else {
                None
            };
            law_expression_check_only_reports(st, init, expected);
            let (st1, it) = c_expr(st, init, expected);
            let ity = it.ty;
            let sp = expr_span(init);
            let st2 = if n == 2 && !(ity is Pair) && !(ity is Void) {
                with_error(st1, "函数返回 1 个值，但 var 试图接收 2 个值 (M4)"@, ""@, sp)
            } else {
                st1
            };
            let st3 = if ity is Void && n > 0 && !(n == 1 && bs[0] is Discard) {
                with_error(st2, "不能从 void 函数接收返回值 (M6)"@, ""@, sp)
            } else {
                st2
            };
            lemma_bindings_report(st3, bs, ity, sp, n);
        },
        StmtV::Assign(lv, v, _) => {
            let (st1, lty) = resolve_lv(st, lv);
            law_expression_check_only_reports(st1, v, lty);
        },
        StmtV::Return(vs, span) => {
            let ret = st.ret;
            let st1 = if ret is Void && vs.len() > 0 {
                with_error(st, "void 函数 \""@ + st.fname + "\" 的 return 不能带返回值 (F2)"@, ""@, span)
            } else {
                st
            };
            let st2 = if !(ret is Void) && vs.len() != ret_arity(ret) {
                with_error(
                    st1,
                    "return 表达式数量不匹配: 声明返回 "@ + decimal(ret_arity(ret)) + " 个值，实际 "@ + decimal(vs.len())
                        + " 个 (M1/M2)"@,
                    ""@,
                    span,
                )
            } else {
                st1
            };
            lemma_ret_values_report(st2, ret, vs);
        },
        StmtV::If(..) => lemma_if_report(st, s),
        StmtV::For(..) => lemma_for_report(st, s),
        StmtV::Expr(e, _) => law_expression_check_only_reports(st, e, None),
        StmtV::Block(..) => lemma_block_report(st, s),
    }
}

pub proof fn lemma_stmts_report(st: CheckerV, ss: Seq<StmtV>)
    ensures
        reports_more(st, c_stmts(st, ss).0),
    decreases ss, 2nat,
{
    if ss.len() > 0 {
        lemma_stmts_report(st, ss.drop_last());
        law_statement_check_reports_more(c_stmts(st, ss.drop_last()).0, ss.last());
    }
}

pub proof fn lemma_block_report(st: CheckerV, s: StmtV)
    ensures
        reports_more(st, c_block(st, s).0),
    decreases s, 0nat,
{
    match s {
        StmtV::Block(ss, _) => lemma_stmts_report(push_sc(st), ss),
        _ => {},
    }
}

pub proof fn lemma_if_report(st: CheckerV, s: StmtV)
    ensures
        reports_more(st, c_if(st, s).0),
    decreases s, 0nat,
{
    match s {
        StmtV::If(c, t, e, span) => {
            law_expression_check_only_reports(st, c, Some(KT::Bool));
            let (st1, ct) = c_expr(st, c, Some(KT::Bool));
            let st2 = if ct.ty != KT::Bool {
                with_error(st1, "if 条件必须是 bool 类型，得到 "@ + kt_text(ct.ty) + " (T3)"@, ""@, span)
            } else {
                with_pass(st1)
            };
            law_statement_check_reports_more(st2, *t);
            match e {
                Some(x) => law_statement_check_reports_more(c_stmt(st2, *t).0, *x),
                None => {},
            }
        },
        _ => {},
    }
}

pub proof fn lemma_for_report(st: CheckerV, s: StmtV)
    ensures
        reports_more(st, c_for(st, s).0),
    decreases s, 0nat,
{
    match s {
        StmtV::For(name, ty, start, end, lv, step, body, span) => {
            let kt = kt_of_type(ty);
            let st1 = sym_insert(push_sc(st), name, KindV::Variable(kt), ScopeHint::LoopVar);
            law_expression_check_only_reports(st1, start, Some(kt));
            let st2 = c_expr(st1, start, Some(kt)).0;
            let st3 = CheckerV { in_loop: true, ..st2 };
            law_expression_check_only_reports(st3, end, Some(KT::Bool));
            let (st4, e_t) = c_expr(st3, end, Some(KT::Bool));
            let st5 = if e_t.ty != KT::Bool {
                with_error(st4, "for 循环条件必须是 bool 类型，得到 "@ + kt_text(e_t.ty) + " (T4)"@, ""@, span)
            } else {
                with_pass(st4)
            };
            law_expression_check_only_reports(st5, step, Some(kt));
            let st6 = c_expr(st5, step, Some(kt)).0;
            law_statement_check_reports_more(st6, *body);
        },
        _ => {},
    }
}

/// The type of a literal expression, if the expression is one.
pub open spec fn literal_type(e: ExprV) -> Option<KT> {
    match e {
        ExprV::IntLit(..) => Some(KT::I32),
        ExprV::FloatLit(..) => Some(KT::F64),
        ExprV::StrLit(..) => Some(KT::Str),
        ExprV::BoolLit(..) => Some(KT::Bool),
        _ => None,
    }
}

/// Arithmetic and comparison take two `i32` or two `f64`: on literal
/// operands, the check of such an operator (a `+` with no string operand)
/// reports exactly one error when the two types are not both `i32` or both
/// `f64`, and none when they are.  A comparison is a `bool`; arithmetic on
/// two numbers of one type has that type.
pub proof fn law_operator_operands(st: CheckerV, l: ExprV, op: BinOp, r: ExprV, span: SpanV)
    requires
        literal_type(l) is Some,
        literal_type(r) is Some,
        op == BinOp::Sub || op == BinOp::Mul || op == BinOp::Div || op == BinOp::Lt || op == BinOp::Le || op
            == BinOp::Gt || op == BinOp::Ge || (op == BinOp::Add && literal_type(l) != Some(KT::Str)
            && literal_type(r) != Some(KT::Str)),
        st.failures < usize::MAX,
    ensures
        ({
            let (st2, t) = c_binary(st, ExprV::Binary(Box::new(l), op, Box::new(r), span));
            let lt = literal_type(l)->0;
            let rt = literal_type(r)->0;
            &&& st2.failures == st.failures + if same_number(lt, rt) { 0int } else { 1int }
            &&& st2.errors.len() == st.errors.len() + if same_number(lt, rt) { 0int } else { 1int }
            &&& (op == BinOp::Lt || op == BinOp::Le || op == BinOp::Gt || op == BinOp::Ge) ==> t.ty == KT::Bool
            &&& (op == BinOp::Add || op == BinOp::Sub || op == BinOp::Mul || op == BinOp::Div) && same_number(lt, rt)
                ==> t.ty == lt
        }),
{
}

/// The same rule for operands of any form: once both operands are checked
/// (left first), an arithmetic or ordering operator (a `+` whose left
/// operand is not a string and whose right one does not look like one)
/// adds exactly one error when the two operand types are not both `i32` or
/// both `f64`, and none when they are; an ordering is a `bool`, and
/// arithmetic on two numbers of one type has that type.
pub proof fn law_binary_operands(st: CheckerV, l: ExprV, op: BinOp, r: ExprV, span: SpanV)
    requires
        op == BinOp::Sub || op == BinOp::Mul || op == BinOp::Div || op == BinOp::Lt || op == BinOp::Le || op
            == BinOp::Gt || op == BinOp::Ge || (op == BinOp::Add && c_expr(st, l, None).1.ty != KT::Str
            && peek(c_expr(st, l, None).0, r) != KT::Str),
        c_expr(c_expr(st, l, None).0, r, None).0.failures < usize::MAX,
    ensures
        ({
            let (st1, le) = c_expr(st, l, None);
            let (st2, re) = c_expr(st1, r, None);
            let (st3, t) = c_binary(st, ExprV::Binary(Box::new(l), op, Box::new(r), span));
            &&& st3.failures == st2.failures + if same_number(le.ty, re.ty) { 0int } else { 1int }
            &&& st3.errors.len() == st2.errors.len() + if same_number(le.ty, re.ty) { 0int } else { 1int }
            &&& (op == BinOp::Lt || op == BinOp::Le || op == BinOp::Gt || op == BinOp::Ge) ==> t.ty == KT::Bool
            &&& (op == BinOp::Add || op == BinOp::Sub || op == BinOp::Mul || op == BinOp::Div) && same_number(
                le.ty,
                re.ty,
            ) ==> t.ty == le.ty
        }),
{
}

/// Negation takes an `i32` or an `f64`, adds no error and has its operand's
/// type; an operand of any other type gets exactly one error (T1).  `!`
/// takes a `bool` and gives a `bool`; any other operand type gets exactly
/// one error (T6).  Nothing else is reported beyond the operand's own check.
#[verifier::rlimit(30)]
pub proof fn law_unary_operand(st: CheckerV, op: UnaryOp, x: ExprV, span: SpanV)
    requires
        c_expr(st, x, None).0.failures < usize::MAX,
    ensures
        ({
            let (st1, inner) = c_expr(st, x, None);
            let (st2, t) = c_unary(st, ExprV::Unary(op, Box::new(x), span));
            let fits = if op == UnaryOp::Neg {
                inner.ty == KT::I32 || inner.ty == KT::F64
            } else {
                inner.ty == KT::Bool
            };
            &&& fits ==> st2.errors == st1.errors && st2.failures == st1.failures
            &&& !fits ==> st2.errors.len() == st1.errors.len() + 1 && st2.failures == st1.failures + 1
            &&& st2.errors.subrange(0, st1.errors.len() as int) == st1.errors
            &&& !fits ==> st2.errors.last().span == span && st2.passes == st1.passes
            &&& fits && st1.passes < usize::MAX ==> st2.passes == st1.passes + 1
            &&& st2.symbols == st1.symbols
            &&& t.ty == if op == UnaryOp::Neg { inner.ty } else { KT::Bool }
        }),
{
    let (st1, inner) = c_expr(st, x, None);
    assert(st1.errors.push(ErrV { msg: Seq::empty(), line: 0, col: 0, span }).subrange(0, st1.errors.len() as int)
        =~= st1.errors);
    assert(st1.errors.subrange(0, st1.errors.len() as int) =~= st1.errors);
    let (st2, t) = c_unary(st, ExprV::Unary(op, Box::new(x), span));
    if st2.errors.len() > st1.errors.len() {
        assert(st2.errors.subrange(0, st1.errors.len() as int) =~= st1.errors);
    }
}

} // verus!
