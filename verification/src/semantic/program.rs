//! The checker's passes over a whole program: the declarations first, the
//! imports among them, then the function bodies.
//!
//! Reading an imported module's file is left to the caller, which hands
//! over what each import path gave; lexing and parsing the module's text
//! happen here.

use vstd::prelude::*;
use crate::ast::{
    clone_struct_def, ImportStmt, ImportV, Program, StructDefV, TopLevel, TopLevelV, typed_names,
};
use crate::error::{lex_debug, parse_debug, SemanticError};
use crate::lexer::{lex_error_msg, lex_from, stream_matches, tokenize, boff, col_of, line_of, LexOutcome, Token};
use crate::parser::{p_program, parse, too_long_msg, DEFAULT_MAX_DEPTH, DEFAULT_MAX_TOKENS, PR};
use crate::semantic::checker::{
    c_func_decl, c_func_def, c_struct_decl, copy_span, err_v, errs_v, find_key, key_get, key_put, keys_of,
    param_kts, resolve_params, sym_insert, user_sig, with_error, with_text, Checker, CheckerV, ErrV,
    c_fields, c_params, c_stmts, lemma_stmts_report, push_sc, reports_more,
};
use crate::semantic::types::kt_of_ret;
use crate::semantic::scope::{FuncSignature, KindV, ScopeHint, StructInfo, SymbolKind};
use crate::semantic::types::{KangType, TTopV, TypedProgram, TypedTopLevel};
use crate::stats::{LexStats, ParseStats};
use crate::text::{push_str, string_of};

verus! {

// ── Imported modules ────────────────────────────────────────────────────

/// What reading an imported module gave.
pub enum ModuleLoad {
    /// The module's source text.
    Loaded(String),
    /// The import path could not be resolved, for the reason given.
    Unresolved(String),
    /// The resolved file could not be read.
    Unreadable,
}

pub enum LoadV {
    Loaded(Seq<char>),
    Unresolved(Seq<char>),
    Unreadable,
}

impl View for ModuleLoad {
    type V = LoadV;

    open spec fn view(&self) -> LoadV {
        match self {
            ModuleLoad::Loaded(t) => LoadV::Loaded(t@),
            ModuleLoad::Unresolved(m) => LoadV::Unresolved(m@),
            ModuleLoad::Unreadable => LoadV::Unreadable,
        }
    }
}

/// The modules handed over, each path with what reading it gave.
pub open spec fn mods_v(m: Seq<(String, ModuleLoad)>) -> Seq<(Seq<char>, LoadV)> {
    m.map_values(|x: (String, ModuleLoad)| (x.0@, x.1@))
}

/// The text's UTF-8 bytes can be counted in a `usize` with one to spare.
pub open spec fn text_fits(t: Seq<char>) -> bool {
    vstd::utf8::encode_utf8(t).len() < usize::MAX
}

/// A loaded module's text fits.
pub open spec fn load_fits(l: LoadV) -> bool {
    match l {
        LoadV::Loaded(t) => text_fits(t),
        _ => true,
    }
}

/// Every module text handed over fits.
pub open spec fn texts_fit(m: Seq<(Seq<char>, LoadV)>) -> bool {
    forall|i: int| 0 <= i < m.len() ==> load_fits(#[trigger] m[i].1)
}

/// What an import found: a problem to report, or the module's items.
pub enum ImportOutcome {
    /// Reported as a failed rule.
    Refused(String),
    /// Recorded as an error with no position, not counted as a failed rule.
    Broken(String),
    /// The module's program.
    Parsed(Program),
}

pub enum OutcomeV {
    Refused(Seq<char>),
    Broken(Seq<char>),
    Parsed(Seq<TopLevelV>),
}

impl View for ImportOutcome {
    type V = OutcomeV;

    open spec fn view(&self) -> OutcomeV {
        match self {
            ImportOutcome::Refused(m) => OutcomeV::Refused(m@),
            ImportOutcome::Broken(m) => OutcomeV::Broken(m@),
            ImportOutcome::Parsed(p) => OutcomeV::Parsed(p@),
        }
    }
}

pub open spec fn outs_v(v: Seq<ImportOutcome>) -> Seq<OutcomeV> {
    v.map_values(|o: ImportOutcome| o@)
}

/// The message recorded when the module at `path` failed to lex or parse;
/// `what` names the stage.
pub open spec fn import_fail(path: Seq<char>, what: Seq<char>, debug: Seq<char>) -> Seq<char> {
    "导入文件 '"@ + path + what + debug
}

/// What parsing the module's tokens `ts` gives.
pub open spec fn parsed_as(path: Seq<char>, ts: Seq<Token>, o: OutcomeV) -> bool {
    if ts.len() > DEFAULT_MAX_TOKENS {
        o == OutcomeV::Broken(
            import_fail(path, "' 语法错误: "@, parse_debug(too_long_msg(ts.len(), DEFAULT_MAX_TOKENS as nat), 0, 0, 0, 0, false)),
        )
    } else {
        match p_program(ts, DEFAULT_MAX_DEPTH as nat) {
            PR::Read(items, _) => o == OutcomeV::Parsed(items),
            PR::Fail(at, msg, inc) => at < ts.len() && o == OutcomeV::Broken(
                import_fail(
                    path,
                    "' 语法错误: "@,
                    parse_debug(msg, ts[at as int].line, ts[at as int].col, ts[at as int].span.start, ts[at as int].span.end, inc),
                ),
            ),
        }
    }
}

/// What the import of `path` finds, given what reading the module gave.
pub open spec fn loaded_as(path: Seq<char>, load: Option<LoadV>, o: OutcomeV) -> bool {
    match load {
        Some(LoadV::Loaded(text)) => match lex_from(text, 0) {
            LexOutcome::Failed(a, b) => o == OutcomeV::Broken(
                import_fail(
                    path,
                    "' 词法错误: "@,
                    lex_debug(lex_error_msg(text.subrange(a as int, b as int)), line_of(text, a), col_of(text, a), boff(text, a), boff(text, b)),
                ),
            ),
            LexOutcome::Tokens(toks, _) => exists|ts: Seq<Token>| stream_matches(text, ts, toks) && parsed_as(path, ts, o),
        },
        Some(LoadV::Unresolved(m)) => o == OutcomeV::Refused(m),
        _ => o == OutcomeV::Refused("无法找到导入文件: "@ + path),
    }
}

/// Lexes and parses an imported module, as far as it goes.
pub fn load_module(path: &String, load: Option<&ModuleLoad>) -> (r: ImportOutcome)
    requires
        match load {
            Some(l) => load_fits(l@),
            None => true,
        },
    ensures
        loaded_as(
            path@,
            match load {
                Some(l) => Some(l@),
                None => None,
            },
            r@,
        ),
{
    match load {
        Some(ModuleLoad::Loaded(text)) => {
            let mut ls = LexStats::default();
            match tokenize(text.as_str(), &mut ls) {
                Err(e) => {
                    let mut m = with_text("导入文件 '", path.as_str(), "' 词法错误: ");
                    let d = e.debug_text();
                    push_str(&mut m, d.as_str());
                    ImportOutcome::Broken(m)
                },
                Ok(tokens) => {
                    let ghost cs = text@;
                    proof {
                        match lex_from(cs, 0) {
                            LexOutcome::Tokens(toks, _) => {
                                crate::parser::lemma_stream_wf(cs, tokens@, toks);
                            },
                            _ => {},
                        }
                    }
                    let mut ps = ParseStats::default();
                    let r = match parse(tokens.as_slice(), &mut ps) {
                        Ok(p) => ImportOutcome::Parsed(p),
                        Err(e) => {
                            let mut m = with_text("导入文件 '", path.as_str(), "' 语法错误: ");
                            let d = e.debug_text();
                            push_str(&mut m, d.as_str());
                            ImportOutcome::Broken(m)
                        },
                    };
                    proof {
                        match lex_from(cs, 0) {
                            LexOutcome::Tokens(toks, _) => {
                                assert(stream_matches(cs, tokens@, toks) && parsed_as(path@, tokens@, r@));
                            },
                            _ => {},
                        }
                    }
                    r
                },
            }
        },
        Some(ModuleLoad::Unresolved(m)) => ImportOutcome::Refused(m.clone()),
        _ => {
            let mut m = string_of("无法找到导入文件: ");
            push_str(&mut m, path.as_str());
            ImportOutcome::Refused(m)
        },
    }
}

// ── Registering an import ───────────────────────────────────────────────

/// `t` is a function or struct definition named `n`.
pub open spec fn item_named(t: TopLevelV, n: Seq<char>) -> bool {
    match t {
        TopLevelV::Func(f) => f.name == n,
        TopLevelV::Struct(s) => s.name == n,
        TopLevelV::Import(_) => false,
    }
}

/// The first position of a definition named `n`, or -1.
pub open spec fn item_pos(items: Seq<TopLevelV>, n: Seq<char>) -> int
    decreases items.len(),
{
    if items.len() == 0 {
        -1
    } else {
        let k = item_pos(items.drop_last(), n);
        if k >= 0 {
            k
        } else if item_named(items.last(), n) {
            items.len() - 1
        } else {
            -1
        }
    }
}

pub proof fn lemma_item_pos(items: Seq<TopLevelV>, n: Seq<char>)
    ensures
        -1 <= item_pos(items, n) < items.len(),
        item_pos(items, n) >= 0 ==> item_named(items[item_pos(items, n)], n),
        item_pos(items, n) >= 0 ==> forall|j: int| 0 <= j < item_pos(items, n) ==> !item_named(#[trigger] items[j], n),
        item_pos(items, n) == -1 ==> forall|j: int| 0 <= j < items.len() ==> !item_named(#[trigger] items[j], n),
    decreases items.len(),
{
    if items.len() > 0 {
        let d = items.drop_last();
        lemma_item_pos(d, n);
        assert forall|j: int| 0 <= j < d.len() implies d[j] == items[j] by {}
    }
}

/// An error with no position, not counted as a failed rule.
pub open spec fn with_raw(st: CheckerV, msg: Seq<char>) -> CheckerV {
    CheckerV { errors: st.errors.push(ErrV { msg, line: 0, col: 0, span: (0, 0) }), ..st }
}

/// The first `k` names an import asks for, each registered under
/// `alias.name`; a struct is also known by its own name unless that name
/// is taken.
pub open spec fn c_import_items(st: CheckerV, imp: ImportV, items: Seq<TopLevelV>, k: nat) -> CheckerV
    decreases k,
{
    if k == 0 || k > imp.items.len() {
        st
    } else {
        let st1 = c_import_items(st, imp, items, (k - 1) as nat);
        let name = imp.items[k - 1];
        let q = imp.alias + "."@ + name;
        let p = item_pos(items, name);
        if p < 0 {
            with_raw(st1, "模块 \""@ + imp.path + "\" 中未找到 \""@ + name + "\""@)
        } else {
            match items[p] {
                TopLevelV::Func(f) => {
                    let st2 = sym_insert(st1, q, KindV::Function(user_sig(f.params, f.ret)), ScopeHint::Normal);
                    CheckerV { aliases: key_put(st2.aliases, q, name), ..st2 }
                },
                TopLevelV::Struct(sd) => {
                    let fs = param_kts(sd.fields);
                    let st2 = CheckerV { structs: key_put(st1.structs, q, fs), ..st1 };
                    let st3 = if key_get(st2.structs, sd.name) is Some {
                        st2
                    } else {
                        CheckerV { structs: key_put(st2.structs, sd.name, fs), ..st2 }
                    };
                    let st4 = sym_insert(st3, q, KindV::Struct(fs), ScopeHint::Normal);
                    CheckerV { imported: st4.imported.push(sd), ..st4 }
                },
                TopLevelV::Import(_) => st1,
            }
        }
    }
}

/// An import, given what loading its module found.
pub open spec fn c_import(st: CheckerV, imp: ImportV, o: OutcomeV) -> CheckerV {
    match o {
        OutcomeV::Refused(m) => with_error(st, m, ""@, (0, 0)),
        OutcomeV::Broken(m) => with_raw(st, m),
        OutcomeV::Parsed(items) => c_import_items(st, imp, items, imp.items.len()),
    }
}

/// The first position of a definition named `n` among the items.
fn find_item(items: &Vec<TopLevel>, n: &String) -> (r: Option<usize>)
    ensures
        match r {
            Some(k) => k < items@.len() && k as int == item_pos(items@.map_values(|t: TopLevel| t@), n@),
            None => item_pos(items@.map_values(|t: TopLevel| t@), n@) == -1,
        },
{
    let ghost v = items@.map_values(|t: TopLevel| t@);
    let mut i: usize = 0;
    while i < items.len()
        invariant
            i <= items@.len(),
            v == items@.map_values(|t: TopLevel| t@),
            forall|j: int| 0 <= j < i ==> !item_named(#[trigger] v[j], n@),
        decreases items@.len() - i,
    {
        let named = match &items[i] {
            TopLevel::Func(f) => crate::text::same_text(&f.name, n),
            TopLevel::Struct(s) => crate::text::same_text(&s.name, n),
            TopLevel::Import(_) => false,
        };
        assert(named == item_named(v[i as int], n@));
        if named {
            proof {
                lemma_item_pos(v, n@);
                let p = item_pos(v, n@);
                if p == -1 || p > i {
                    assert(item_named(v[i as int], n@));
                } else if p < i {
                    assert(!item_named(v[p], n@));
                }
            }
            return Some(i);
        }
        i += 1;
    }
    proof {
        lemma_item_pos(v, n@);
        if item_pos(v, n@) >= 0 {
            assert(!item_named(v[item_pos(v, n@)], n@));
        }
    }
    None
}

impl Checker {
    /// Records an error with no position, not counted as a failed rule.
    fn raw_error(&mut self, msg: String)
        ensures
            final(self).source_file == old(self).source_file,
            final(self)@ == with_raw(old(self)@, msg@),
            final(self).symbols == old(self).symbols,
    {
        let ghost before = self.errors@;
        self.errors.push(SemanticError { msg, line: 0, col: 0, span: 0..0 });
        assert(errs_v(self.errors@) =~= errs_v(before).push(err_v(self.errors@.last())));
    }

    /// Registers the definition an import asks for under `alias.name`.
    fn import_item(&mut self, imp: &ImportStmt, prog: &Program, name: &String)
        requires
            old(self).wf(),
        ensures
            final(self).source_file == old(self).source_file,
            final(self).wf(),
            final(self)@.symbols.len() == old(self)@.symbols.len(),
            final(self)@ == ({
                let st1 = old(self)@;
                let q = imp@.alias + "."@ + name@;
                let items = prog@;
                let p = item_pos(items, name@);
                if p < 0 {
                    with_raw(st1, "模块 \""@ + imp@.path + "\" 中未找到 \""@ + name@ + "\""@)
                } else {
                    match items[p] {
                        TopLevelV::Func(f) => {
                            let st2 = sym_insert(st1, q, KindV::Function(user_sig(f.params, f.ret)), ScopeHint::Normal);
                            CheckerV { aliases: key_put(st2.aliases, q, name@), ..st2 }
                        },
                        TopLevelV::Struct(sd) => {
                            let fs = param_kts(sd.fields);
                            let st2 = CheckerV { structs: key_put(st1.structs, q, fs), ..st1 };
                            let st3 = if key_get(st2.structs, sd.name) is Some {
                                st2
                            } else {
                                CheckerV { structs: key_put(st2.structs, sd.name, fs), ..st2 }
                            };
                            let st4 = sym_insert(st3, q, KindV::Struct(fs), ScopeHint::Normal);
                            CheckerV { imported: st4.imported.push(sd), ..st4 }
                        },
                        TopLevelV::Import(_) => st1,
                    }
                }
            }),
    {
        let mut q = with_text(imp.alias.as_str(), ".", name.as_str());
        match find_item(&prog.items, name) {
            None => {
                let mut m = with_text("模块 \"", imp.path.as_str(), "\" 中未找到 \"");
                push_str(&mut m, name.as_str());
                push_str(&mut m, "\"");
                self.raw_error(m);
            },
            Some(k) => {
                assert(prog@[k as int] == prog.items@[k as int]@);
                match &prog.items[k] {
                    TopLevel::Func(f) => {
                        let sig = FuncSignature {
                            params: resolve_params(&f.params),
                            return_type: KangType::from_ast_return_type(&f.return_type),
                            is_builtin: false,
                            overloads: Vec::new(),
                        };
                        assert(crate::semantic::scope::sigs_v(sig.overloads@) =~= Seq::<crate::semantic::scope::SigV>::empty());
                        self.declare(q.as_str(), SymbolKind::Function(sig), ScopeHint::Normal);
                        self.put_alias(q, name.clone());
                    },
                    TopLevel::Struct(sd) => {
                        let info = StructInfo { fields: resolve_params(&sd.fields) };
                        self.put_struct(q.clone(), info.clone());
                        let known = self.struct_fields(&sd.name).is_some();
                        if !known {
                            self.put_struct(sd.name.clone(), info.clone());
                        }
                        self.declare(q.as_str(), SymbolKind::Struct(info), ScopeHint::Normal);
                        let ghost before = self.imported_structs@;
                        self.imported_structs.push(clone_struct_def(sd));
                        assert(self.imported_structs@.map_values(|x: crate::ast::StructDef| x@) =~= before.map_values(
                            |x: crate::ast::StructDef| x@,
                        ).push(sd@));
                    },
                    TopLevel::Import(_) => {},
                }
            },
        }
    }

    /// Registers what an import brings in, given what loading its module found.
    pub fn register_import_decl(&mut self, imp: &ImportStmt, outcome: &ImportOutcome)
        requires
            old(self).wf(),
        ensures
            final(self).source_file == old(self).source_file,
            final(self).wf(),
            final(self)@.symbols.len() == old(self)@.symbols.len(),
            final(self)@ == c_import(old(self)@, imp@, outcome@),
    {
        match outcome {
            ImportOutcome::Refused(m) => self.error(m.clone(), "", 0..0),
            ImportOutcome::Broken(m) => self.raw_error(m.clone()),
            ImportOutcome::Parsed(prog) => {
                let mut i: usize = 0;
                while i < imp.items.len()
                    invariant
                        self.source_file == old(self).source_file,
                        i <= imp.items@.len(),
                        self.wf(),
                        self@.symbols.len() == old(self)@.symbols.len(),
                        self@ == c_import_items(old(self)@, imp@, prog@, i as nat),
                    decreases imp.items@.len() - i,
                {
                    self.import_item(imp, prog, &imp.items[i]);
                    i += 1;
                }
            },
        }
    }
}

// ── The two passes ──────────────────────────────────────────────────────

/// The first `k` items' declarations registered in order; the import at
/// position `i` uses `outs[i]`, what loading its module found.
pub open spec fn c_collect(st: CheckerV, items: Seq<TopLevelV>, outs: Seq<OutcomeV>, k: nat) -> CheckerV
    decreases k,
{
    if k == 0 || k > items.len() {
        st
    } else {
        let st1 = c_collect(st, items, outs, (k - 1) as nat);
        match items[k - 1] {
            TopLevelV::Struct(sd) => c_struct_decl(st1, sd),
            TopLevelV::Func(f) => c_func_decl(st1, f),
            TopLevelV::Import(imp) => c_import(st1, imp, outs[k - 1]),
        }
    }
}

/// The collection looks at the outcomes of the first `k` items only.
pub proof fn lemma_collect_prefix(st: CheckerV, items: Seq<TopLevelV>, o1: Seq<OutcomeV>, o2: Seq<OutcomeV>, k: nat)
    requires
        forall|j: int| 0 <= j < k ==> o1[j] == o2[j],
    ensures
        c_collect(st, items, o1, k) == c_collect(st, items, o2, k),
    decreases k,
{
    if k > 0 {
        lemma_collect_prefix(st, items, o1, o2, (k - 1) as nat);
    }
}

/// Every import among `items` has the outcome that loading its module
/// from `mods` gives.
pub open spec fn imports_loaded(items: Seq<TopLevelV>, mods: Seq<(Seq<char>, LoadV)>, outs: Seq<OutcomeV>) -> bool {
    &&& outs.len() == items.len()
    &&& forall|i: int| 0 <= i < items.len() ==> match #[trigger] items[i] {
        TopLevelV::Import(imp) => loaded_as(imp.path, key_get(mods, imp.path), outs[i]),
        _ => true,
    }
}

/// The first `k` items' function bodies checked in order; structs are kept
/// as written and imports dropped.
pub open spec fn c_funcs(st: CheckerV, items: Seq<TopLevelV>, k: nat) -> (CheckerV, Seq<TTopV>)
    decreases k,
{
    if k == 0 || k > items.len() {
        (st, Seq::empty())
    } else {
        let (st1, tops) = c_funcs(st, items, (k - 1) as nat);
        match items[k - 1] {
            TopLevelV::Struct(sd) => (st1, tops.push(TTopV::Struct(sd))),
            TopLevelV::Func(f) => {
                let (st2, tf) = c_func_def(st1, f);
                (st2, tops.push(TTopV::Func(tf)))
            },
            TopLevelV::Import(_) => (st1, tops),
        }
    }
}

pub open spec fn struct_tops(v: Seq<StructDefV>) -> Seq<TTopV> {
    v.map_values(|s: StructDefV| TTopV::Struct(s))
}

/// A whole program: declarations, then bodies; the typed program, followed
/// by the structs of imported modules, when no error was found, else the
/// errors.
pub open spec fn c_program(st: CheckerV, items: Seq<TopLevelV>, outs: Seq<OutcomeV>) -> (CheckerV, Result<Seq<TTopV>, Seq<ErrV>>) {
    let st1 = c_collect(st, items, outs, items.len());
    let (st2, tops) = c_funcs(st1, items, items.len());
    (st2, if st2.errors.len() == 0 {
        Ok(tops + struct_tops(st2.imported))
    } else {
        Err(st2.errors)
    })
}

pub open spec fn program_result_v(r: Result<TypedProgram, Vec<SemanticError>>) -> Result<Seq<TTopV>, Seq<ErrV>> {
    match r {
        Ok(p) => Ok(p@),
        Err(v) => Err(errs_v(v@)),
    }
}

/// A copy of the errors.
pub fn copy_errors(v: &Vec<SemanticError>) -> (r: Vec<SemanticError>)
    ensures
        errs_v(r@) == errs_v(v@),
{
    let mut r: Vec<SemanticError> = Vec::new();
    let mut i: usize = 0;
    while i < v.len()
        invariant
            i <= v@.len(),
            r@.len() == i,
            forall|k: int| 0 <= k < i ==> err_v(#[trigger] r@[k]) == err_v(v@[k]),
        decreases v@.len() - i,
    {
        let e = &v[i];
        r.push(SemanticError { msg: e.msg.clone(), line: e.line, col: e.col, span: copy_span(&e.span) });
        i += 1;
    }
    assert(errs_v(r@) =~= errs_v(v@));
    r
}

impl Checker {
    /// The first pass: struct types, function signatures and imports, in
    /// order; gives what loading each import's module found, at the
    /// import's position.
    fn collect_declarations(&mut self, program: &Program, modules: &Vec<(String, ModuleLoad)>) -> (outs: Vec<ImportOutcome>)
        requires
            old(self).wf(),
            texts_fit(mods_v(modules@)),
        ensures
            final(self).source_file == old(self).source_file,
            final(self).wf(),
            final(self)@.symbols.len() == old(self)@.symbols.len(),
            imports_loaded(program@, mods_v(modules@), outs_v(outs@)),
            final(self)@ == c_collect(old(self)@, program@, outs_v(outs@), program@.len()),
    {
        let ghost items = program@;
        let ghost mods = mods_v(modules@);
        let mut outs: Vec<ImportOutcome> = Vec::new();
        let mut i: usize = 0;
        while i < program.items.len()
            invariant
                self.source_file == old(self).source_file,
                i <= program.items@.len(),
                items == program@,
                mods == mods_v(modules@),
                texts_fit(mods),
                self.wf(),
                self@.symbols.len() == old(self)@.symbols.len(),
                outs@.len() == i,
                forall|j: int| 0 <= j < i ==> match #[trigger] items[j] {
                    TopLevelV::Import(imp) => loaded_as(imp.path, key_get(mods, imp.path), outs_v(outs@)[j]),
                    _ => true,
                },
                self@ == c_collect(old(self)@, items, outs_v(outs@), i as nat),
            decreases program.items@.len() - i,
        {
            let ghost o_before = outs_v(outs@);
            let ghost st_before = self@;
            assert(items[i as int] == program.items@[i as int]@);
            let out = match &program.items[i] {
                TopLevel::Struct(s) => {
                    self.check_struct_decl(s);
                    ImportOutcome::Refused(String::new())
                },
                TopLevel::Func(f) => {
                    self.register_func_decl(f);
                    ImportOutcome::Refused(String::new())
                },
                TopLevel::Import(imp) => {
                    assert(keys_of(mods) =~= modules@.map_values(|x: (String, ModuleLoad)| x.0@));
                    let load = match find_key(modules, &imp.path) {
                        Some(k) => {
                            assert(mods[k as int] == (modules@[k as int].0@, modules@[k as int].1@));
                            assert(load_fits(mods[k as int].1));
                            Some(&modules[k].1)
                        },
                        None => None,
                    };
                    let o = load_module(&imp.path, load);
                    self.register_import_decl(imp, &o);
                    o
                },
            };
            let ghost o_mid = outs_v(outs@).push(out@);
            proof {
                lemma_collect_prefix(old(self)@, items, o_before, o_mid, i as nat);
            }
            outs.push(out);
            assert(outs_v(outs@) =~= o_mid);
            i += 1;
        }
        outs
    }

    /// Checks a whole program in two passes, first the declarations, then
    /// the function bodies; `modules` gives what reading each imported
    /// module's file gave, by import path.
    pub fn check_program(&mut self, program: &Program, modules: &Vec<(String, ModuleLoad)>) -> (r: Result<TypedProgram, Vec<SemanticError>>)
        requires
            old(self).wf(),
            texts_fit(mods_v(modules@)),
        ensures
            final(self).source_file == old(self).source_file,
            final(self).wf(),
            exists|outs: Seq<OutcomeV>|
                imports_loaded(program@, mods_v(modules@), outs) && (final(self)@, program_result_v(r)) == c_program(
                    old(self)@,
                    program@,
                    outs,
                ),
    {
        let outs = self.collect_declarations(program, modules);
        let ghost ov = outs_v(outs@);
        let ghost items = program@;
        let ghost st1 = self@;
        let mut tops: Vec<TypedTopLevel> = Vec::new();
        let mut i: usize = 0;
        while i < program.items.len()
            invariant
                self.source_file == old(self).source_file,
                i <= program.items@.len(),
                items == program@,
                self.wf(),
                (self@, tops@.map_values(|t: TypedTopLevel| t@)) == c_funcs(st1, items, i as nat),
            decreases program.items@.len() - i,
        {
            let ghost before = tops@;
            assert(items[i as int] == program.items@[i as int]@);
            match &program.items[i] {
                TopLevel::Struct(s) => {
                    tops.push(TypedTopLevel::Struct(clone_struct_def(s)));
                },
                TopLevel::Func(f) => {
                    let tf = self.check_func_def(f);
                    tops.push(TypedTopLevel::Func(tf));
                },
                TopLevel::Import(_) => {},
            }
            assert(tops@.map_values(|t: TypedTopLevel| t@) =~= c_funcs(st1, items, (i + 1) as nat).1);
            i += 1;
        }
        let ghost st2 = self@;
        let ghost funcs = tops@.map_values(|t: TypedTopLevel| t@);
        let mut j: usize = 0;
        while j < self.imported_structs.len()
            invariant
                self.source_file == old(self).source_file,
                j <= self.imported_structs@.len(),
                self@ == st2,
                tops@.map_values(|t: TypedTopLevel| t@) == funcs + struct_tops(st2.imported.take(j as int)),
            decreases self.imported_structs@.len() - j,
        {
            let ghost before = tops@;
            tops.push(TypedTopLevel::Struct(clone_struct_def(&self.imported_structs[j])));
            let ghost sd = self.imported_structs@[j as int]@;
            assert(st2.imported[j as int] == sd);
            assert(st2.imported.take(j + 1) =~= st2.imported.take(j as int).push(sd));
            assert(struct_tops(st2.imported.take(j + 1)) =~= struct_tops(st2.imported.take(j as int)).push(TTopV::Struct(sd)));
            assert(tops@.map_values(|t: TypedTopLevel| t@) =~= before.map_values(|t: TypedTopLevel| t@).push(TTopV::Struct(sd)));
            assert(tops@.map_values(|t: TypedTopLevel| t@) =~= funcs + struct_tops(st2.imported.take(j + 1)));
            j += 1;
        }
        assert(st2.imported.take(st2.imported.len() as int) =~= st2.imported);
        let r = if self.errors.len() == 0 {
            Ok(TypedProgram { items: tops })
        } else {
            Err(copy_errors(&self.errors))
        };
        assert(imports_loaded(program@, mods_v(modules@), ov));
        assert((self@, program_result_v(r)) == c_program(old(self)@, program@, ov));
        r
    }
}

// ── Law: checking a program only adds to what was found ────────────────

proof fn lemma_fields_report(st: CheckerV, s: Seq<char>, fs: Seq<(Seq<char>, crate::ast::TypeV)>, k: nat)
    ensures
        reports_more(st, c_fields(st, s, fs, k).0),
    decreases k,
{
    if k > 0 && k <= fs.len() {
        lemma_fields_report(st, s, fs, (k - 1) as nat);
    }
}

proof fn lemma_params_report(st: CheckerV, ps: Seq<(Seq<char>, crate::ast::TypeV)>, k: nat)
    ensures
        reports_more(st, c_params(st, ps, k)),
    decreases k,
{
    if k > 0 && k <= ps.len() {
        lemma_params_report(st, ps, (k - 1) as nat);
    }
}

proof fn lemma_import_items_report(st: CheckerV, imp: ImportV, items: Seq<TopLevelV>, k: nat)
    ensures
        reports_more(st, c_import_items(st, imp, items, k)),
    decreases k,
{
    if k > 0 && k <= imp.items.len() {
        lemma_import_items_report(st, imp, items, (k - 1) as nat);
    }
}

proof fn lemma_collect_report(st: CheckerV, items: Seq<TopLevelV>, outs: Seq<OutcomeV>, k: nat)
    ensures
        reports_more(st, c_collect(st, items, outs, k)),
    decreases k,
{
    if k > 0 && k <= items.len() {
        lemma_collect_report(st, items, outs, (k - 1) as nat);
        let st1 = c_collect(st, items, outs, (k - 1) as nat);
        match items[k - 1] {
            TopLevelV::Struct(sd) => lemma_fields_report(st1, sd.name, sd.fields, sd.fields.len()),
            TopLevelV::Func(_) => {},
            TopLevelV::Import(imp) => match outs[k - 1] {
                OutcomeV::Parsed(its) => lemma_import_items_report(st1, imp, its, imp.items.len()),
                _ => {},
            },
        }
    }
}

proof fn lemma_funcs_report(st: CheckerV, items: Seq<TopLevelV>, k: nat)
    ensures
        reports_more(st, c_funcs(st, items, k).0),
    decreases k,
{
    if k > 0 && k <= items.len() {
        lemma_funcs_report(st, items, (k - 1) as nat);
        let st1 = c_funcs(st, items, (k - 1) as nat).0;
        match items[k - 1] {
            TopLevelV::Func(f) => {
                let ret = kt_of_ret(f.ret);
                let st0 = push_sc(CheckerV { fname: f.name, ret, ..st1 });
                lemma_params_report(st0, f.params, f.params.len());
                lemma_stmts_report(c_params(st0, f.params, f.params.len()), f.body);
            },
            _ => {},
        }
    }
}

/// Checking a whole program keeps every error found before, first and in
/// order, and never lowers the counts of rules: errors are collected, none
/// is dropped by a later one.
pub proof fn law_program_check_reports_more(st: CheckerV, items: Seq<TopLevelV>, outs: Seq<OutcomeV>)
    ensures
        reports_more(st, c_program(st, items, outs).0),
{
    lemma_collect_report(st, items, outs, items.len());
    lemma_funcs_report(c_collect(st, items, outs, items.len()), items, items.len());
}

/// A program checks successfully exactly when no error was found; when
/// some were, all of them are returned together, in the order found.
pub proof fn law_result_reflects_errors(st: CheckerV, items: Seq<TopLevelV>, outs: Seq<OutcomeV>)
    ensures
        (c_program(st, items, outs).1 is Ok) == (c_program(st, items, outs).0.errors.len() == 0),
        c_program(st, items, outs).1 matches Err(es) ==> es == c_program(st, items, outs).0.errors,
{
}

} // verus!
