//! The symbol table: a stack of scopes mapping names to variables,
//! functions (with the builtins' overloads) and struct types.
//!
//! The table is seen as the sequence of its scopes, innermost last, each a
//! sequence of entries whose names are distinct.  Lookups search from the
//! innermost scope outwards.

use vstd::prelude::*;
use crate::semantic::types::{typed_params, KangType, KT};
use crate::text::{push_str, same_text, string_of};

verus! {

/// A function's signature; a builtin may carry further overloads.
#[derive(Debug)]
pub struct FuncSignature {
    pub params: Vec<(String, KangType)>,
    pub return_type: KangType,
    pub is_builtin: bool,
    pub overloads: Vec<FuncSignature>,
}

/// The fields of a struct type, in declaration order.
#[derive(Debug)]
pub struct StructInfo {
    pub fields: Vec<(String, KangType)>,
}

#[derive(Debug)]
pub enum SymbolKind {
    Variable(KangType),
    Function(FuncSignature),
    Struct(StructInfo),
}

/// Whether an entry is a loop variable, which leaves scope with its loop.
#[derive(Debug, Clone, Copy, PartialEq, Eq, Structural)]
pub enum ScopeHint {
    Normal,
    LoopVar,
}

#[derive(Debug)]
pub struct SymbolEntry {
    pub name: String,
    pub kind: SymbolKind,
    pub hint: ScopeHint,
}

/// A signature as a value.
pub struct SigV {
    pub params: Seq<(Seq<char>, KT)>,
    pub ret: KT,
    pub builtin: bool,
    pub overloads: Seq<SigV>,
}

pub enum KindV {
    Variable(KT),
    Function(SigV),
    Struct(Seq<(Seq<char>, KT)>),
}

pub struct EntryV {
    pub name: Seq<char>,
    pub kind: KindV,
    pub hint: ScopeHint,
}

pub open spec fn sig_v(s: &FuncSignature) -> SigV
    decreases s,
{
    SigV {
        params: typed_params(s.params@),
        ret: s.return_type@,
        builtin: s.is_builtin,
        overloads: sigs_v(s.overloads@),
    }
}

pub open spec fn sigs_v(v: Seq<FuncSignature>) -> Seq<SigV>
    decreases v,
{
    if v.len() == 0 {
        Seq::empty()
    } else {
        sigs_v(v.drop_last()).push(sig_v(&v.last()))
    }
}

impl View for FuncSignature {
    type V = SigV;

    open spec fn view(&self) -> SigV {
        sig_v(self)
    }
}

impl View for StructInfo {
    type V = Seq<(Seq<char>, KT)>;

    open spec fn view(&self) -> Seq<(Seq<char>, KT)> {
        typed_params(self.fields@)
    }
}

impl View for SymbolKind {
    type V = KindV;

    open spec fn view(&self) -> KindV {
        match self {
            SymbolKind::Variable(t) => KindV::Variable(t@),
            SymbolKind::Function(s) => KindV::Function(s@),
            SymbolKind::Struct(i) => KindV::Struct(i@),
        }
    }
}

impl View for SymbolEntry {
    type V = EntryV;

    open spec fn view(&self) -> EntryV {
        EntryV { name: self.name@, kind: self.kind@, hint: self.hint }
    }
}

pub proof fn lemma_sigs_v(v: Seq<FuncSignature>)
    ensures
        sigs_v(v).len() == v.len(),
        forall|k: int| 0 <= k < v.len() ==> #[trigger] sigs_v(v)[k] == sig_v(&v[k]),
    decreases v.len(),
{
    if v.len() > 0 {
        lemma_sigs_v(v.drop_last());
    }
}

pub fn clone_params(v: &Vec<(String, KangType)>) -> (r: Vec<(String, KangType)>)
    ensures
        typed_params(r@) == typed_params(v@),
{
    let mut r: Vec<(String, KangType)> = Vec::new();
    let mut i: usize = 0;
    while i < v.len()
        invariant
            i <= v@.len(),
            r@.len() == i,
            forall|k: int| 0 <= k < i ==> (#[trigger] r@[k]).0@ == v@[k].0@ && r@[k].1@ == v@[k].1@,
        decreases v@.len() - i,
    {
        r.push((v[i].0.clone(), v[i].1.clone()));
        i += 1;
    }
    assert(typed_params(r@) =~= typed_params(v@));
    r
}

#[verifier::loop_isolation(false)]
fn clone_sig(s: &FuncSignature) -> (r: FuncSignature)
    ensures
        r@ == s@,
    decreases s,
{
    let mut overloads: Vec<FuncSignature> = Vec::new();
    let mut i: usize = 0;
    proof {
        lemma_sigs_v(s.overloads@);
    }
    while i < s.overloads.len()
        invariant
            i <= s.overloads@.len(),
            overloads@.len() == i,
            forall|k: int| 0 <= k < i ==> sig_v(&#[trigger] overloads@[k]) == sig_v(&s.overloads@[k]),
        decreases s.overloads@.len() - i,
    {
        proof {
            assert(decreases_to!(s => s.overloads@[i as int]));
        }
        overloads.push(clone_sig(&s.overloads[i]));
        i += 1;
    }
    proof {
        lemma_sigs_v(overloads@);
        assert(sigs_v(overloads@) =~= sigs_v(s.overloads@));
    }
    FuncSignature {
        params: clone_params(&s.params),
        return_type: s.return_type.clone(),
        is_builtin: s.is_builtin,
        overloads,
    }
}

impl Clone for FuncSignature {
    fn clone(&self) -> (r: Self)
        ensures
            r@ == self@,
    {
        clone_sig(self)
    }
}

impl Clone for StructInfo {
    fn clone(&self) -> (r: Self)
        ensures
            r@ == self@,
    {
        StructInfo { fields: clone_params(&self.fields) }
    }
}

fn clone_kind(k: &SymbolKind) -> (r: SymbolKind)
    ensures
        r@ == k@,
{
    match k {
        SymbolKind::Variable(t) => SymbolKind::Variable(t.clone()),
        SymbolKind::Function(s) => SymbolKind::Function(s.clone()),
        SymbolKind::Struct(i) => SymbolKind::Struct(i.clone()),
    }
}

impl Clone for SymbolKind {
    fn clone(&self) -> (r: Self)
        ensures
            r@ == self@,
    {
        clone_kind(self)
    }
}

impl Clone for SymbolEntry {
    fn clone(&self) -> (r: Self)
        ensures
            r@ == self@,
    {
        SymbolEntry { name: self.name.clone(), kind: self.kind.clone(), hint: self.hint }
    }
}

// ── Scopes as values ────────────────────────────────────────────────────

/// The entry named `n` in a scope, if any.
pub open spec fn find_in(sc: Seq<EntryV>, n: Seq<char>) -> Option<EntryV>
    decreases sc.len(),
{
    if sc.len() == 0 {
        None
    } else if sc.last().name == n {
        Some(sc.last())
    } else {
        find_in(sc.drop_last(), n)
    }
}

/// The innermost entry named `n`.
pub open spec fn lookup_in(scopes: Seq<Seq<EntryV>>, n: Seq<char>) -> Option<EntryV>
    decreases scopes.len(),
{
    if scopes.len() == 0 {
        None
    } else {
        match find_in(scopes.last(), n) {
            Some(e) => Some(e),
            None => lookup_in(scopes.drop_last(), n),
        }
    }
}

/// The names of a scope are distinct.
pub open spec fn distinct_names(sc: Seq<EntryV>) -> bool {
    forall|i: int, j: int| 0 <= i < j < sc.len() ==> (#[trigger] sc[i]).name != (#[trigger] sc[j]).name
}

/// The parameter types are exactly the argument types.
pub open spec fn params_fit(params: Seq<(Seq<char>, KT)>, args: Seq<KT>) -> bool {
    params.len() == args.len() && forall|i: int| 0 <= i < args.len() ==> (#[trigger] params[i]).1 == args[i]
}

/// The first overload whose parameters fit the arguments.
pub open spec fn first_fit(sigs: Seq<SigV>, args: Seq<KT>) -> Option<SigV>
    decreases sigs.len(),
{
    if sigs.len() == 0 {
        None
    } else {
        match first_fit(sigs.drop_last(), args) {
            Some(s) => Some(s),
            None => if params_fit(sigs.last().params, args) {
                Some(sigs.last())
            } else {
                None
            },
        }
    }
}

/// The signature a call with the argument types `args` resolves to: the main
/// signature if it fits, else the first fitting overload, else the main one.
pub open spec fn resolve_sig(s: SigV, args: Seq<KT>) -> SigV {
    if params_fit(s.params, args) {
        s
    } else {
        match first_fit(s.overloads, args) {
            Some(o) => o,
            None => s,
        }
    }
}

/// The function a call resolves to: the innermost function entry named `n`
/// (entries of other kinds are passed over).
pub open spec fn lookup_func_in(scopes: Seq<Seq<EntryV>>, n: Seq<char>, args: Seq<KT>) -> Option<SigV>
    decreases scopes.len(),
{
    if scopes.len() == 0 {
        None
    } else {
        match find_in(scopes.last(), n) {
            Some(e) if e.kind is Function => Some(resolve_sig(e.kind->Function_0, args)),
            _ => lookup_func_in(scopes.drop_last(), n, args),
        }
    }
}

/// The position of the last entry named `n` in a scope, or -1.
pub open spec fn index_of(sc: Seq<EntryV>, n: Seq<char>) -> int
    decreases sc.len(),
{
    if sc.len() == 0 {
        -1
    } else if sc.last().name == n {
        sc.len() - 1
    } else {
        index_of(sc.drop_last(), n)
    }
}

/// The scope `sc` with `e` put in: replacing the entry of the same name, or
/// added at the end.
pub open spec fn put(sc: Seq<EntryV>, e: EntryV) -> Seq<EntryV> {
    let k = index_of(sc, e.name);
    if k >= 0 {
        sc.update(k, e)
    } else {
        sc.push(e)
    }
}

/// The scope `parent` with the entries of `top` that are not loop variables
/// put in, in order.
pub open spec fn merge_non_loop(parent: Seq<EntryV>, top: Seq<EntryV>) -> Seq<EntryV>
    decreases top.len(),
{
    if top.len() == 0 {
        parent
    } else {
        let p = merge_non_loop(parent, top.drop_last());
        if top.last().hint == ScopeHint::LoopVar {
            p
        } else {
            put(p, top.last())
        }
    }
}

pub open spec fn redeclared_msg(n: Seq<char>) -> Seq<char> {
    "符号 \""@ + n + "\" 已在当前作用域声明"@
}

/// One scope: its entries, names distinct.
pub struct Scope {
    pub symbols: Vec<SymbolEntry>,
}

impl View for Scope {
    type V = Seq<EntryV>;

    open spec fn view(&self) -> Seq<EntryV> {
        self.symbols@.map_values(|e: SymbolEntry| e@)
    }
}

/// The stack of scopes; the outermost holds the builtins.
pub struct SymbolTable {
    pub scopes: Vec<Scope>,
    /// How many symbols were ever declared (capped at `usize::MAX`).
    pub symbol_count: usize,
}

impl View for SymbolTable {
    type V = Seq<Seq<EntryV>>;

    open spec fn view(&self) -> Seq<Seq<EntryV>> {
        self.scopes@.map_values(|s: Scope| s@)
    }
}


// ── The builtins ────────────────────────────────────────────────────────

pub open spec fn bsig(params: Seq<(Seq<char>, KT)>, ret: KT, overloads: Seq<SigV>) -> SigV {
    SigV { params, ret, builtin: true, overloads }
}

pub open spec fn bentry(n: Seq<char>, s: SigV) -> EntryV {
    EntryV { name: n, kind: KindV::Function(s), hint: ScopeHint::Normal }
}

pub open spec fn kpair(a: KT, b: KT) -> KT {
    KT::Pair(Box::new(a), Box::new(b))
}

/// The builtin functions the outermost scope starts with.
pub open spec fn builtin_scope() -> Seq<EntryV> {
    seq![
        bentry("len"@, bsig(seq![("s"@, KT::Str)], KT::I32, seq![])),
        bentry("push"@, bsig(seq![("a"@, KT::Array(Box::new(KT::I32))), ("elem"@, KT::I32)], KT::Void, seq![])),
        bentry("puts"@, bsig(seq![("s"@, KT::Str)], KT::Void, seq![])),
        bentry("print"@, bsig(seq![("s"@, KT::Str)], KT::Void, seq![])),
        bentry("eprint"@, bsig(seq![("s"@, KT::Str)], KT::Void, seq![])),
        bentry("read_file"@, bsig(seq![("path"@, KT::Str)], kpair(KT::Str, KT::Bool), seq![])),
        bentry("read_line"@, bsig(seq![], kpair(KT::Str, KT::Bool), seq![])),
        bentry("write_file"@, bsig(seq![("path"@, KT::Str), ("content"@, KT::Str)], KT::Void, seq![])),
        bentry("append_file"@, bsig(seq![("path"@, KT::Str), ("content"@, KT::Str)], KT::Void, seq![])),
        bentry("file_exists"@, bsig(seq![("path"@, KT::Str)], KT::Bool, seq![])),
        bentry("file_size"@, bsig(seq![("path"@, KT::Str)], kpair(KT::I32, KT::Bool), seq![])),
        bentry(
            "str"@,
            bsig(
                seq![("n"@, KT::I32)],
                KT::Str,
                seq![bsig(seq![("n"@, KT::F64)], KT::Str, seq![]), bsig(seq![("b"@, KT::Bool)], KT::Str, seq![])],
            ),
        ),
        bentry(
            "i32"@,
            bsig(seq![("s"@, KT::Str)], kpair(KT::I32, KT::Bool), seq![bsig(seq![("n"@, KT::F64)], KT::I32, seq![])]),
        ),
        bentry(
            "f64"@,
            bsig(seq![("s"@, KT::Str)], kpair(KT::F64, KT::Bool), seq![bsig(seq![("n"@, KT::I32)], KT::F64, seq![])]),
        ),
        bentry("bool"@, bsig(seq![("s"@, KT::Str)], kpair(KT::Bool, KT::Bool), seq![])),
    ]
}

fn one_param(n: &str, t: KangType) -> (r: Vec<(String, KangType)>)
    ensures
        typed_params(r@) == seq![(n@, t@)],
{
    let mut v: Vec<(String, KangType)> = Vec::new();
    v.push((string_of(n), t));
    assert(typed_params(v@) =~= seq![(n@, t@)]);
    v
}

fn two_params(n1: &str, t1: KangType, n2: &str, t2: KangType) -> (r: Vec<(String, KangType)>)
    ensures
        typed_params(r@) == seq![(n1@, t1@), (n2@, t2@)],
{
    let mut v: Vec<(String, KangType)> = Vec::new();
    v.push((string_of(n1), t1));
    v.push((string_of(n2), t2));
    assert(typed_params(v@) =~= seq![(n1@, t1@), (n2@, t2@)]);
    v
}

fn pair_of(a: KangType, b: KangType) -> (r: KangType)
    ensures
        r@ == kpair(a@, b@),
{
    KangType::Pair(Box::new(a), Box::new(b))
}

fn builtin_sig(params: Vec<(String, KangType)>, ret: KangType, overloads: Vec<FuncSignature>) -> (r: FuncSignature)
    ensures
        r@ == bsig(typed_params(params@), ret@, sigs_v(overloads@)),
{
    FuncSignature { params, return_type: ret, is_builtin: true, overloads }
}

fn no_sigs() -> (r: Vec<FuncSignature>)
    ensures
        sigs_v(r@) == Seq::<SigV>::empty(),
{
    let v: Vec<FuncSignature> = Vec::new();
    assert(sigs_v(v@) =~= Seq::<SigV>::empty());
    v
}

fn push_builtin(sc: &mut Vec<SymbolEntry>, n: &str, s: FuncSignature)
    ensures
        final(sc)@.map_values(|e: SymbolEntry| e@) == old(sc)@.map_values(|e: SymbolEntry| e@).push(bentry(n@, s@)),
{
    let ghost before = sc@;
    sc.push(SymbolEntry { name: string_of(n), kind: SymbolKind::Function(s), hint: ScopeHint::Normal });
    assert(sc@.map_values(|e: SymbolEntry| e@) =~= before.map_values(|e: SymbolEntry| e@).push(bentry(n@, s@)));
}

fn builtin_entries() -> (r: Vec<SymbolEntry>)
    ensures
        r@.map_values(|e: SymbolEntry| e@) == builtin_scope(),
{
    let mut sc: Vec<SymbolEntry> = Vec::new();
    push_builtin(&mut sc, "len", builtin_sig(one_param("s", KangType::Str), KangType::I32, no_sigs()));
    push_builtin(
        &mut sc,
        "push",
        builtin_sig(two_params("a", KangType::Array(Box::new(KangType::I32)), "elem", KangType::I32), KangType::Void, no_sigs()),
    );
    push_builtin(&mut sc, "puts", builtin_sig(one_param("s", KangType::Str), KangType::Void, no_sigs()));
    push_builtin(&mut sc, "print", builtin_sig(one_param("s", KangType::Str), KangType::Void, no_sigs()));
    push_builtin(&mut sc, "eprint", builtin_sig(one_param("s", KangType::Str), KangType::Void, no_sigs()));
    push_builtin(
        &mut sc,
        "read_file",
        builtin_sig(one_param("path", KangType::Str), pair_of(KangType::Str, KangType::Bool), no_sigs()),
    );
    let none: Vec<(String, KangType)> = Vec::new();
    assert(typed_params(none@) =~= Seq::<(Seq<char>, KT)>::empty());
    push_builtin(&mut sc, "read_line", builtin_sig(none, pair_of(KangType::Str, KangType::Bool), no_sigs()));
    push_builtin(
        &mut sc,
        "write_file",
        builtin_sig(two_params("path", KangType::Str, "content", KangType::Str), KangType::Void, no_sigs()),
    );
    push_builtin(
        &mut sc,
        "append_file",
        builtin_sig(two_params("path", KangType::Str, "content", KangType::Str), KangType::Void, no_sigs()),
    );
    push_builtin(&mut sc, "file_exists", builtin_sig(one_param("path", KangType::Str), KangType::Bool, no_sigs()));
    push_builtin(
        &mut sc,
        "file_size",
        builtin_sig(one_param("path", KangType::Str), pair_of(KangType::I32, KangType::Bool), no_sigs()),
    );
    let mut str_over: Vec<FuncSignature> = Vec::new();
    str_over.push(builtin_sig(one_param("n", KangType::F64), KangType::Str, no_sigs()));
    str_over.push(builtin_sig(one_param("b", KangType::Bool), KangType::Str, no_sigs()));
    proof {
        lemma_sigs_v(str_over@);
        assert(sigs_v(str_over@) =~= seq![
            bsig(seq![("n"@, KT::F64)], KT::Str, seq![]),
            bsig(seq![("b"@, KT::Bool)], KT::Str, seq![]),
        ]);
    }
    push_builtin(&mut sc, "str", builtin_sig(one_param("n", KangType::I32), KangType::Str, str_over));
    let mut i32_over: Vec<FuncSignature> = Vec::new();
    i32_over.push(builtin_sig(one_param("n", KangType::F64), KangType::I32, no_sigs()));
    proof {
        lemma_sigs_v(i32_over@);
        assert(sigs_v(i32_over@) =~= seq![bsig(seq![("n"@, KT::F64)], KT::I32, seq![])]);
    }
    push_builtin(&mut sc, "i32", builtin_sig(one_param("s", KangType::Str), pair_of(KangType::I32, KangType::Bool), i32_over));
    let mut f64_over: Vec<FuncSignature> = Vec::new();
    f64_over.push(builtin_sig(one_param("n", KangType::I32), KangType::F64, no_sigs()));
    proof {
        lemma_sigs_v(f64_over@);
        assert(sigs_v(f64_over@) =~= seq![bsig(seq![("n"@, KT::I32)], KT::F64, seq![])]);
    }
    push_builtin(&mut sc, "f64", builtin_sig(one_param("s", KangType::Str), pair_of(KangType::F64, KangType::Bool), f64_over));
    push_builtin(
        &mut sc,
        "bool",
        builtin_sig(one_param("s", KangType::Str), pair_of(KangType::Bool, KangType::Bool), no_sigs()),
    );
    assert(sc@.map_values(|e: SymbolEntry| e@) =~= builtin_scope());
    sc
}


proof fn lemma_builtins_distinct()
    ensures
        distinct_names(builtin_scope()),
{
    reveal_strlit("len");
    reveal_strlit("push");
    reveal_strlit("puts");
    reveal_strlit("print");
    reveal_strlit("eprint");
    reveal_strlit("read_file");
    reveal_strlit("read_line");
    reveal_strlit("write_file");
    reveal_strlit("append_file");
    reveal_strlit("file_exists");
    reveal_strlit("file_size");
    reveal_strlit("str");
    reveal_strlit("i32");
    reveal_strlit("f64");
    reveal_strlit("bool");
    let b = builtin_scope();
    assert forall|i: int, j: int| 0 <= i < j < b.len() implies (#[trigger] b[i]).name != (#[trigger] b[j]).name by {
        assert(b[i].name.len() != b[j].name.len() || b[i].name[0] != b[j].name[0] || b[i].name[1] != b[j].name[1]
            || b[i].name[2] != b[j].name[2] || b[i].name[3] != b[j].name[3] || b[i].name[4] != b[j].name[4]
            || b[i].name[5] != b[j].name[5] || b[i].name[6] != b[j].name[6] || b[i].name[7] != b[j].name[7]);
    }
}

/// `find_in` gives the entry of that name, when there is one.
pub proof fn lemma_find_in(sc: Seq<EntryV>, n: Seq<char>)
    ensures
        find_in(sc, n) matches Some(e) ==> e.name == n && sc.contains(e),
        find_in(sc, n) is None <==> forall|i: int| 0 <= i < sc.len() ==> (#[trigger] sc[i]).name != n,
    decreases sc.len(),
{
    if sc.len() > 0 {
        lemma_find_in(sc.drop_last(), n);
        if find_in(sc.drop_last(), n) is Some {
            let e = find_in(sc.drop_last(), n)->Some_0;
            let k = choose|k: int| 0 <= k < sc.drop_last().len() && sc.drop_last()[k] == e;
            assert(sc[k] == e);
        }
        if sc.last().name != n {
            assert forall|i: int| 0 <= i < sc.len() && (forall|j: int| 0 <= j < sc.drop_last().len() ==> (#[trigger] sc.drop_last()[j]).name != n) implies (#[trigger] sc[i]).name != n by {
                if i < sc.len() - 1 {
                    assert(sc[i] == sc.drop_last()[i]);
                }
            }
        }
    }
}

impl SymbolTable {
    /// At least one scope, and the names of each scope are distinct.
    pub open spec fn wf(&self) -> bool {
        &&& self.scopes@.len() >= 1
        &&& forall|i: int| 0 <= i < self.scopes@.len() ==> distinct_names(#[trigger] self.scopes@[i]@)
    }

    /// A table whose one scope holds the builtins.
    pub fn new() -> (t: SymbolTable)
        ensures
            t.wf(),
            t@ == seq![builtin_scope()],
            t.symbol_count == 15,
    {
        proof {
            lemma_builtins_distinct();
        }
        let mut scopes: Vec<Scope> = Vec::new();
        scopes.push(Scope { symbols: builtin_entries() });
        let t = SymbolTable { scopes, symbol_count: 15 };
        assert(t@ =~= seq![builtin_scope()]);
        t
    }

    pub fn push_scope(&mut self)
        requires
            old(self).wf(),
        ensures
            final(self).wf(),
            final(self)@ == old(self)@.push(Seq::empty()),
            final(self).symbol_count == old(self).symbol_count,
    {
        let ghost before = self.scopes@;
        self.scopes.push(Scope { symbols: Vec::new() });
        proof {
            assert(self.scopes@.last()@ =~= Seq::<EntryV>::empty());
            assert forall|i: int| 0 <= i < self.scopes@.len() implies distinct_names(#[trigger] self.scopes@[i]@) by {
                if i < before.len() {
                    assert(self.scopes@[i] == before[i]);
                }
            }
            assert(self@ =~= old(self)@.push(Seq::empty()));
        }
    }

    /// Leaves the innermost scope, giving back its entries.
    pub fn pop_scope(&mut self) -> (r: Vec<SymbolEntry>)
        requires
            old(self).wf(),
            old(self)@.len() > 1,
        ensures
            final(self).wf(),
            final(self)@ == old(self)@.drop_last(),
            r@.map_values(|e: SymbolEntry| e@) == old(self)@.last(),
            final(self).symbol_count == old(self).symbol_count,
    {
        let ghost before = self.scopes@;
        let top = self.scopes.pop().unwrap();
        proof {
            assert(self.scopes@ =~= before.drop_last());
            assert forall|i: int| 0 <= i < self.scopes@.len() implies distinct_names(#[trigger] self.scopes@[i]@) by {
                assert(self.scopes@[i] == before[i]);
            }
            assert(self@ =~= old(self)@.drop_last());
        }
        top.symbols
    }
}


pub open spec fn entries(v: Seq<SymbolEntry>) -> Seq<EntryV> {
    v.map_values(|e: SymbolEntry| e@)
}

/// The position of the entry named `key` in a scope, searching from the end.
fn find_index(sc: &Vec<SymbolEntry>, key: &String) -> (r: Option<usize>)
    ensures
        match r {
            Some(k) => k < sc@.len() && find_in(entries(sc@), key@) == Some(sc@[k as int]@) && sc@[k as int]@.name == key@,
            None => find_in(entries(sc@), key@) is None,
        },
{
    let mut i = sc.len();
    assert(entries(sc@).take(i as int) =~= entries(sc@));
    while i > 0
        invariant
            i <= sc@.len(),
            find_in(entries(sc@), key@) == find_in(entries(sc@).take(i as int), key@),
        decreases i,
    {
        let ghost t = entries(sc@).take(i as int);
        assert(t.drop_last() =~= entries(sc@).take(i - 1));
        assert(t.last() == sc@[i - 1]@);
        if same_text(&sc[i - 1].name, key) {
            return Some(i - 1);
        }
        i -= 1;
    }
    None
}


/// `index_of` finds the entry of that name exactly when there is one, and
/// agrees with `find_in`.
pub proof fn lemma_index_of(sc: Seq<EntryV>, n: Seq<char>)
    ensures
        -1 <= index_of(sc, n) < sc.len(),
        index_of(sc, n) >= 0 ==> sc[index_of(sc, n)].name == n,
        index_of(sc, n) == -1 <==> forall|i: int| 0 <= i < sc.len() ==> (#[trigger] sc[i]).name != n,
        find_in(sc, n) == (if index_of(sc, n) >= 0 { Some(sc[index_of(sc, n)]) } else { None::<EntryV> }),
    decreases sc.len(),
{
    if sc.len() > 0 {
        let d = sc.drop_last();
        lemma_index_of(d, n);
        if sc.last().name != n {
            if index_of(d, n) >= 0 {
                assert(sc[index_of(d, n)] == d[index_of(d, n)]);
            } else {
                assert forall|i: int| 0 <= i < sc.len() implies (#[trigger] sc[i]).name != n by {
                    if i < d.len() {
                        assert(sc[i] == d[i]);
                    }
                }
            }
        }
    }
}

/// In a scope of distinct names, the entry named `n` is at `index_of`.
pub proof fn lemma_index_unique(sc: Seq<EntryV>, n: Seq<char>, k: int)
    requires
        distinct_names(sc),
        0 <= k < sc.len(),
        sc[k].name == n,
    ensures
        index_of(sc, n) == k,
{
    lemma_index_of(sc, n);
    let j = index_of(sc, n);
    if j != k {
        if j < k {
            assert(sc[j].name != sc[k].name);
        } else {
            assert(sc[k].name != sc[j].name);
        }
    }
}

/// Putting an entry in keeps the names of a scope distinct.
pub proof fn lemma_put_distinct(sc: Seq<EntryV>, e: EntryV)
    requires
        distinct_names(sc),
    ensures
        distinct_names(put(sc, e)),
{
    lemma_index_of(sc, e.name);
    let p = put(sc, e);
    assert forall|i: int, j: int| 0 <= i < j < p.len() implies (#[trigger] p[i]).name != (#[trigger] p[j]).name by {
        let k = index_of(sc, e.name);
        if k >= 0 {
            if i == k {
                assert(sc[k].name != sc[j].name);
            } else if j == k {
                assert(sc[i].name != sc[k].name);
            } else {
                assert(sc[i].name != sc[j].name);
            }
        } else {
            if j == sc.len() {
                assert(p[i] == sc[i]);
            } else {
                assert(sc[i].name != sc[j].name);
            }
        }
    }
}

/// Merging keeps the names of a scope distinct.
pub proof fn lemma_merge_distinct(parent: Seq<EntryV>, top: Seq<EntryV>)
    requires
        distinct_names(parent),
    ensures
        distinct_names(merge_non_loop(parent, top)),
    decreases top.len(),
{
    if top.len() > 0 {
        lemma_merge_distinct(parent, top.drop_last());
        if top.last().hint != ScopeHint::LoopVar {
            lemma_put_distinct(merge_non_loop(parent, top.drop_last()), top.last());
        }
    }
}


fn params_match(params: &Vec<(String, KangType)>, args: &[KangType]) -> (r: bool)
    ensures
        r == params_fit(typed_params(params@), args@.map_values(|t: KangType| t@)),
{
    if params.len() != args.len() {
        return false;
    }
    let mut i: usize = 0;
    while i < args.len()
        invariant
            i <= args@.len() == params@.len(),
            forall|k: int| 0 <= k < i ==> (#[trigger] params@[k]).1@ == args@[k]@,
        decreases args@.len() - i,
    {
        if params[i].1 != args[i] {
            assert(typed_params(params@)[i as int].1 != args@.map_values(|t: KangType| t@)[i as int]);
            return false;
        }
        i += 1;
    }
    assert forall|k: int| 0 <= k < args@.len() implies (#[trigger] typed_params(params@)[k]).1 == args@.map_values(
        |t: KangType| t@,
    )[k] by {
        assert(params@[k].1@ == args@[k]@);
    }
    true
}

/// The signature a call resolves to among `sig` and its overloads.
fn resolve<'a>(sig: &'a FuncSignature, args: &[KangType]) -> (r: &'a FuncSignature)
    ensures
        r@ == resolve_sig(sig@, args@.map_values(|t: KangType| t@)),
{
    let ghost av = args@.map_values(|t: KangType| t@);
    if params_match(&sig.params, args) {
        return sig;
    }
    proof {
        lemma_sigs_v(sig.overloads@);
    }
    let mut i: usize = 0;
    assert(sigs_v(sig.overloads@).take(0) =~= Seq::<SigV>::empty());
    while i < sig.overloads.len()
        invariant
            i <= sig.overloads@.len(),
            sigs_v(sig.overloads@).len() == sig.overloads@.len(),
            forall|k: int| 0 <= k < sig.overloads@.len() ==> #[trigger] sigs_v(sig.overloads@)[k] == sig_v(&sig.overloads@[k]),
            first_fit(sigs_v(sig.overloads@).take(i as int), av) is None,
            av == args@.map_values(|t: KangType| t@),
            !params_fit(typed_params(sig.params@), av),
        decreases sig.overloads@.len() - i,
    {
        let ghost t = sigs_v(sig.overloads@).take(i + 1);
        assert(t.drop_last() =~= sigs_v(sig.overloads@).take(i as int));
        assert(t.last() == sig_v(&sig.overloads@[i as int]));
        if params_match(&sig.overloads[i].params, args) {
            proof {
                assert(first_fit(t, av) == Some(sig_v(&sig.overloads@[i as int])));
                lemma_first_fit_prefix(sigs_v(sig.overloads@), av, i + 1);
            }
            return &sig.overloads[i];
        }
        i += 1;
    }
    assert(sigs_v(sig.overloads@).take(sig.overloads@.len() as int) =~= sigs_v(sig.overloads@));
    sig
}

/// A fit found in a prefix is the fit of the whole.
proof fn lemma_first_fit_prefix(sigs: Seq<SigV>, args: Seq<KT>, i: int)
    requires
        0 <= i <= sigs.len(),
        first_fit(sigs.take(i), args) is Some,
    ensures
        first_fit(sigs, args) == first_fit(sigs.take(i), args),
    decreases sigs.len() - i,
{
    if i < sigs.len() {
        let t = sigs.take(i + 1);
        assert(t.drop_last() =~= sigs.take(i));
        lemma_first_fit_prefix(sigs, args, i + 1);
    } else {
        assert(sigs.take(i) =~= sigs);
    }
}

impl SymbolTable {
    /// Declares `name` in the innermost scope; refused when that scope
    /// already declares it.
    pub fn insert(&mut self, name: &str, kind: SymbolKind, hint: ScopeHint) -> (r: Result<(), String>)
        requires
            old(self).wf(),
        ensures
            final(self).wf(),
            match find_in(old(self)@.last(), name@) {
                Some(_) => r matches Err(m) && m@ == redeclared_msg(name@) && final(self)@ == old(self)@
                    && final(self).symbol_count == old(self).symbol_count,
                None => r is Ok && final(self)@ == old(self)@.drop_last().push(
                    old(self)@.last().push(EntryV { name: name@, kind: kind@, hint }),
                ) && final(self).symbol_count == (if old(self).symbol_count < usize::MAX {
                    old(self).symbol_count + 1
                } else {
                    old(self).symbol_count as int
                }),
            },
    {
        let key = string_of(name);
        let last = self.scopes.len() - 1;
        match find_index(&self.scopes[last].symbols, &key) {
            Some(_) => {
                let mut m = string_of("符号 \"");
                push_str(&mut m, name);
                push_str(&mut m, "\" 已在当前作用域声明");
                Err(m)
            },
            None => {
                let ghost before = self.scopes@;
                let mut top = self.scopes.pop().unwrap();
                let ghost old_top = top.symbols@;
                proof {
                    lemma_index_of(entries(old_top), name@);
                }
                top.symbols.push(SymbolEntry { name: key, kind, hint });
                proof {
                    assert(entries(top.symbols@) =~= entries(old_top).push(EntryV { name: name@, kind: kind@, hint }));
                    assert forall|i: int, j: int| 0 <= i < j < entries(top.symbols@).len() implies (#[trigger] entries(
                        top.symbols@,
                    )[i]).name != (#[trigger] entries(top.symbols@)[j]).name by {
                        if j < old_top.len() {
                            assert(entries(top.symbols@)[i] == entries(old_top)[i]);
                            assert(entries(top.symbols@)[j] == entries(old_top)[j]);
                        } else {
                            assert(entries(top.symbols@)[i] == entries(old_top)[i]);
                        }
                    }
                }
                self.scopes.push(top);
                self.symbol_count = if self.symbol_count < usize::MAX { self.symbol_count + 1 } else { self.symbol_count };
                proof {
                    assert(self@ =~= old(self)@.drop_last().push(
                        old(self)@.last().push(EntryV { name: name@, kind: kind@, hint }),
                    ));
                    assert forall|i: int| 0 <= i < self.scopes@.len() implies distinct_names(#[trigger] self.scopes@[i]@) by {
                        if i < self.scopes@.len() - 1 {
                            assert(self.scopes@[i] == before[i]);
                        }
                    }
                }
                Ok(())
            },
        }
    }

    /// The innermost entry named `name`.
    pub fn lookup(&self, name: &str) -> (r: Option<&SymbolEntry>)
        ensures
            match r {
                Some(e) => lookup_in(self@, name@) == Some(e@),
                None => lookup_in(self@, name@) is None,
            },
    {
        let key = string_of(name);
        let mut j = self.scopes.len();
        assert(self@.take(j as int) =~= self@);
        while j > 0
            invariant
                j <= self.scopes@.len(),
                key@ == name@,
                lookup_in(self@, name@) == lookup_in(self@.take(j as int), name@),
            decreases j,
        {
            let ghost t = self@.take(j as int);
            assert(t.drop_last() =~= self@.take(j - 1));
            assert(t.last() == self.scopes@[j - 1]@);
            match find_index(&self.scopes[j - 1].symbols, &key) {
                Some(k) => return Some(&self.scopes[j - 1].symbols[k]),
                None => {},
            }
            j -= 1;
        }
        None
    }

    /// The entry named `name` in the innermost scope.
    pub fn lookup_current(&self, name: &str) -> (r: Option<&SymbolEntry>)
        requires
            self.wf(),
        ensures
            match r {
                Some(e) => find_in(self@.last(), name@) == Some(e@),
                None => find_in(self@.last(), name@) is None,
            },
    {
        let key = string_of(name);
        let last = self.scopes.len() - 1;
        match find_index(&self.scopes[last].symbols, &key) {
            Some(k) => Some(&self.scopes[last].symbols[k]),
            None => None,
        }
    }

    /// The signature a call of `name` with arguments of the types
    /// `arg_types` resolves to (see `lookup_func_in`).
    pub fn lookup_function(&self, name: &str, arg_types: &[KangType]) -> (r: Option<&FuncSignature>)
        ensures
            match r {
                Some(s) => lookup_func_in(self@, name@, arg_types@.map_values(|t: KangType| t@)) == Some(s@),
                None => lookup_func_in(self@, name@, arg_types@.map_values(|t: KangType| t@)) is None,
            },
    {
        let key = string_of(name);
        let ghost av = arg_types@.map_values(|t: KangType| t@);
        let mut j = self.scopes.len();
        assert(self@.take(j as int) =~= self@);
        while j > 0
            invariant
                j <= self.scopes@.len(),
                key@ == name@,
                av == arg_types@.map_values(|t: KangType| t@),
                lookup_func_in(self@, name@, av) == lookup_func_in(self@.take(j as int), name@, av),
            decreases j,
        {
            let ghost t = self@.take(j as int);
            assert(t.drop_last() =~= self@.take(j - 1));
            assert(t.last() == self.scopes@[j - 1]@);
            match find_index(&self.scopes[j - 1].symbols, &key) {
                Some(k) => {
                    match &self.scopes[j - 1].symbols[k].kind {
                        SymbolKind::Function(sig) => return Some(resolve(sig, arg_types)),
                        _ => {},
                    }
                },
                None => {},
            }
            j -= 1;
        }
        None
    }

    /// The signature of the innermost `name`, if it is a function, followed
    /// by its overloads; empty otherwise.
    pub fn lookup_all_overloads(&self, name: &str) -> (r: Vec<FuncSignature>)
        ensures
            sigs_v(r@) == match lookup_in(self@, name@) {
                Some(e) => match e.kind {
                    KindV::Function(s) => seq![s] + s.overloads,
                    _ => Seq::empty(),
                },
                None => Seq::empty(),
            },
    {
        let mut all: Vec<FuncSignature> = Vec::new();
        match self.lookup(name) {
            Some(e) => match &e.kind {
                SymbolKind::Function(sig) => {
                    all.push(sig.clone());
                    proof {
                        lemma_sigs_v(sig.overloads@);
                    }
                    let mut i: usize = 0;
                    while i < sig.overloads.len()
                        invariant
                            i <= sig.overloads@.len(),
                            all@.len() == i + 1,
                            sig_v(&all@[0]) == sig_v(sig),
                            forall|k: int| 0 <= k < i ==> sig_v(&#[trigger] all@[k + 1]) == sig_v(&sig.overloads@[k]),
                        decreases sig.overloads@.len() - i,
                    {
                        all.push(sig.overloads[i].clone());
                        i += 1;
                    }
                    proof {
                        lemma_sigs_v(all@);
                        assert(sigs_v(all@) =~= seq![sig_v(sig)] + sigs_v(sig.overloads@));
                    }
                },
                _ => {
                    assert(sigs_v(all@) =~= Seq::<SigV>::empty());
                },
            },
            None => {
                assert(sigs_v(all@) =~= Seq::<SigV>::empty());
            },
        }
        all
    }

    /// Leaves the innermost scope, keeping its entries other than loop
    /// variables: they are put into the enclosing scope.  The outermost
    /// scope, left alone, is dropped with all it holds.
    pub fn pop_scope_keep_non_loop(&mut self)
        requires
            old(self).wf(),
        ensures
            old(self)@.len() >= 2 ==> final(self).wf(),
            old(self)@.len() >= 2 ==> final(self)@ == old(self)@.drop_last().drop_last().push(
                merge_non_loop(old(self)@[old(self)@.len() - 2], old(self)@.last()),
            ),
            old(self)@.len() == 1 ==> final(self)@.len() == 0,
            final(self).symbol_count == old(self).symbol_count,
    {
        if self.scopes.len() < 2 {
            self.scopes.pop();
            return;
        }
        let ghost before = self.scopes@;
        let top = self.scopes.pop().unwrap();
        let mut parent = self.scopes.pop().unwrap();
        let ghost p0 = entries(parent.symbols@);
        let ghost tv = entries(top.symbols@);
        assert(p0 == before[before.len() - 2]@);
        assert(tv == before[before.len() - 1]@);
        let mut i: usize = 0;
        assert(tv.take(0) =~= Seq::<EntryV>::empty());
        while i < top.symbols.len()
            invariant
                i <= top.symbols@.len(),
                tv == entries(top.symbols@),
                distinct_names(p0),
                entries(parent.symbols@) == merge_non_loop(p0, tv.take(i as int)),
                distinct_names(entries(parent.symbols@)),
            decreases top.symbols@.len() - i,
        {
            let ghost cur = entries(parent.symbols@);
            assert(tv.take(i + 1).drop_last() =~= tv.take(i as int));
            assert(tv.take(i + 1).last() == top.symbols@[i as int]@);
            if top.symbols[i].hint != ScopeHint::LoopVar {
                let e = top.symbols[i].clone();
                proof {
                    lemma_index_of(cur, e@.name);
                    lemma_put_distinct(cur, e@);
                }
                match find_index(&parent.symbols, &e.name) {
                    Some(k) => {
                        proof {
                            lemma_index_unique(cur, e@.name, k as int);
                        }
                        parent.symbols.set(k, e);
                        assert(entries(parent.symbols@) =~= cur.update(k as int, e@));
                    },
                    None => {
                        parent.symbols.push(e);
                        assert(entries(parent.symbols@) =~= cur.push(e@));
                    },
                }
            }
            i += 1;
        }
        assert(tv.take(tv.len() as int) =~= tv);
        self.scopes.push(parent);
        proof {
            assert(self@ =~= old(self)@.drop_last().drop_last().push(
                merge_non_loop(old(self)@[old(self)@.len() - 2], old(self)@.last()),
            ));
            assert forall|i: int| 0 <= i < self.scopes@.len() implies distinct_names(#[trigger] self.scopes@[i]@) by {
                if i < self.scopes@.len() - 1 {
                    assert(self.scopes@[i] == before[i]);
                }
            }
        }
    }
}

// ── Laws of the symbol table ────────────────────────────────────────────

/// A scope with `e` put in finds `e` under its name and everything else as
/// before.
pub proof fn lemma_find_put(sc: Seq<EntryV>, e: EntryV, n: Seq<char>)
    requires
        distinct_names(sc),
    ensures
        find_in(put(sc, e), n) == (if n == e.name { Some(e) } else { find_in(sc, n) }),
{
    lemma_index_of(sc, e.name);
    lemma_put_distinct(sc, e);
    let p = put(sc, e);
    lemma_index_of(p, n);
    lemma_index_of(sc, n);
    let k = index_of(sc, e.name);
    if n == e.name {
        if k >= 0 {
            lemma_index_unique(p, n, k);
        } else {
            lemma_index_unique(p, n, sc.len() as int);
        }
    } else {
        let j = index_of(sc, n);
        if j >= 0 {
            assert(p[j].name == n);
            lemma_index_unique(p, n, j);
        } else {
            assert forall|i: int| 0 <= i < p.len() implies (#[trigger] p[i]).name != n by {
                if k >= 0 && i == k {
                } else if k < 0 && i == sc.len() {
                } else {
                    assert(p[i] == sc[i]);
                }
            }
        }
    }
}

/// What a name shows after a loop's scope is left: the last entry of that
/// name the loop's scope declared, unless it was a loop variable; else what
/// the enclosing scope had (S3).
pub open spec fn after_loop(parent: Seq<EntryV>, top: Seq<EntryV>, n: Seq<char>) -> Option<EntryV> {
    match find_in(top, n) {
        Some(e) => if e.hint == ScopeHint::LoopVar {
            find_in(parent, n)
        } else {
            Some(e)
        },
        None => find_in(parent, n),
    }
}

/// Leaving a loop's scope keeps the names it declared, except its loop
/// variables, which go out of scope with it (S3).
pub proof fn law_leaving_loop_scope(parent: Seq<EntryV>, top: Seq<EntryV>, n: Seq<char>)
    requires
        distinct_names(parent),
        distinct_names(top),
    ensures
        find_in(merge_non_loop(parent, top), n) == after_loop(parent, top, n),
    decreases top.len(),
{
    if top.len() > 0 {
        let d = top.drop_last();
        assert(distinct_names(d)) by {
            assert forall|i: int, j: int| 0 <= i < j < d.len() implies (#[trigger] d[i]).name != (#[trigger] d[j]).name by {
                assert(d[i] == top[i] && d[j] == top[j]);
            }
        }
        law_leaving_loop_scope(parent, d, n);
        lemma_merge_distinct(parent, d);
        let m = merge_non_loop(parent, d);
        if top.last().hint != ScopeHint::LoopVar {
            lemma_find_put(m, top.last(), n);
        }
        if top.last().name == n {
            lemma_find_in(d, n);
            assert forall|i: int| 0 <= i < d.len() implies (#[trigger] d[i]).name != n by {
                assert(d[i] == top[i]);
                assert(top[i].name != top[top.len() - 1].name);
            }
        }
    }
}

/// A name declared in the innermost scope is what a lookup of that name
/// finds, there and from the whole table; other names are found as before.
pub proof fn law_declared_is_found(scopes: Seq<Seq<EntryV>>, e: EntryV, n: Seq<char>)
    requires
        scopes.len() >= 1,
        find_in(scopes.last(), e.name) is None,
    ensures
        ({
            let after = scopes.drop_last().push(scopes.last().push(e));
            &&& find_in(after.last(), e.name) == Some(e)
            &&& lookup_in(after, e.name) == Some(e)
            &&& n != e.name ==> lookup_in(after, n) == lookup_in(scopes, n)
        }),
{
    let after = scopes.drop_last().push(scopes.last().push(e));
    assert(after.drop_last() =~= scopes.drop_last());
    assert(after.last().drop_last() =~= scopes.last());
}

/// A new scope hides nothing: every name is found as before it was
/// entered, and leaving it gives the table back.
pub proof fn law_new_scope_hides_nothing(scopes: Seq<Seq<EntryV>>, n: Seq<char>)
    ensures
        lookup_in(scopes.push(Seq::empty()), n) == lookup_in(scopes, n),
        scopes.push(Seq::empty()).drop_last() == scopes,
{
    assert(scopes.push(Seq::empty()).drop_last() =~= scopes);
}

/// A name declared in an inner scope shadows the outer one while that
/// scope lasts; once it is left, the outer one is found again.
pub proof fn law_shadowing(scopes: Seq<Seq<EntryV>>, inner: Seq<EntryV>, e: EntryV)
    requires
        find_in(inner, e.name) is None,
    ensures
        lookup_in(scopes.push(inner.push(e)), e.name) == Some(e),
        scopes.push(inner.push(e)).drop_last() == scopes,
{
    assert(inner.push(e).last() == e);
    assert(scopes.push(inner.push(e)).drop_last() =~= scopes);
}

/// A name is found in the innermost scope that declares it: the lookup
/// gives the entry of the scope with the largest index that holds the name,
/// and nothing when no scope does.  In particular, a name declared in the
/// current scope is found there.
pub proof fn law_lookup_innermost(scopes: Seq<Seq<EntryV>>, n: Seq<char>)
    ensures
        lookup_in(scopes, n) is None <==> forall|j: int| 0 <= j < scopes.len() ==> find_in(#[trigger] scopes[j], n) is None,
        forall|j: int|
            0 <= j < scopes.len() && find_in(#[trigger] scopes[j], n) is Some && (forall|k: int|
                j < k < scopes.len() ==> find_in(#[trigger] scopes[k], n) is None) ==> lookup_in(scopes, n) == find_in(
                scopes[j],
                n,
            ),
        scopes.len() > 0 && find_in(scopes.last(), n) is Some ==> lookup_in(scopes, n) == find_in(scopes.last(), n),
    decreases scopes.len(),
{
    if scopes.len() > 0 {
        let rest = scopes.drop_last();
        law_lookup_innermost(rest, n);
        assert forall|j: int| 0 <= j < rest.len() implies rest[j] == scopes[j] by {}
        assert forall|j: int|
            0 <= j < scopes.len() && find_in(#[trigger] scopes[j], n) is Some && (forall|k: int|
                j < k < scopes.len() ==> find_in(#[trigger] scopes[k], n) is None) implies lookup_in(scopes, n)
            == find_in(scopes[j], n) by {
            if j < scopes.len() - 1 {
                assert(find_in(scopes[scopes.len() - 1], n) is None);
                assert(rest[j] == scopes[j]);
                assert forall|k: int| j < k < rest.len() implies find_in(#[trigger] rest[k], n) is None by {
                    assert(rest[k] == scopes[k]);
                }
            }
        }
        if lookup_in(scopes, n) is None {
            assert forall|j: int| 0 <= j < scopes.len() implies find_in(#[trigger] scopes[j], n) is None by {
                if j < scopes.len() - 1 {
                    assert(rest[j] == scopes[j]);
                }
            }
        } else {
            if find_in(scopes.last(), n) is None {
                let j = choose|j: int| 0 <= j < rest.len() && find_in(#[trigger] rest[j], n) is Some;
                assert(rest[j] == scopes[j]);
            }
        }
    }
}

} // verus!
