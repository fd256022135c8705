//! Control flow: does every path through a function body reach a `return`?

use vstd::prelude::*;
use crate::ast::{lemma_svs, sv as ast_sv, svs, Stmt, StmtV};

verus! {

/// A statement returns on every path through it: a `return`; an `if` whose
/// two branches both do; a block one of whose statements does.  A loop may
/// run zero times and never counts.
pub open spec fn always_returns(s: StmtV) -> bool
    decreases s,
{
    match s {
        StmtV::Return(..) => true,
        StmtV::If(_, t, e, _) => match e {
            Some(x) => always_returns(*t) && always_returns(*x),
            None => false,
        },
        StmtV::Block(ss, _) => exists|i: int| 0 <= i < ss.len() && always_returns(#[trigger] ss[i]),
        _ => false,
    }
}

/// Some statement of the sequence returns on every path.
pub open spec fn seq_returns(ss: Seq<StmtV>) -> bool {
    exists|i: int| 0 <= i < ss.len() && always_returns(#[trigger] ss[i])
}

#[verifier::loop_isolation(false)]
fn stmt_returns(s: &Stmt) -> (r: bool)
    ensures
        r == always_returns(s@),
    decreases s,
{
    match s {
        Stmt::Return { .. } => true,
        Stmt::If { then_branch, else_branch, .. } => match else_branch {
            Some(e) => stmt_returns(&**then_branch) && stmt_returns(&**e),
            None => false,
        },
        Stmt::Block(stmts, _) => {
            proof {
                lemma_svs(stmts@);
                assert(s@ matches StmtV::Block(ss, _) && ss == svs(stmts@));
            }
            let mut i: usize = 0;
            while i < stmts.len()
                invariant
                    i <= stmts@.len(),
                    svs(stmts@).len() == stmts@.len(),
                    forall|k: int| 0 <= k < stmts@.len() ==> #[trigger] svs(stmts@)[k] == ast_sv(&stmts@[k]),
                    forall|k: int| 0 <= k < i ==> !always_returns(#[trigger] svs(stmts@)[k]),
                decreases stmts@.len() - i,
            {
                proof {
                    assert(decreases_to!(s => stmts@[i as int]));
                }
                if stmt_returns(&stmts[i]) {
                    assert(always_returns(svs(stmts@)[i as int]));
                    return true;
                }
                i += 1;
            }
            false
        },
        _ => false,
    }
}

/// Whether every path through `body` reaches a `return` (some statement of
/// it returns on every path).
pub fn all_paths_return(body: &Vec<Stmt>) -> (r: bool)
    ensures
        r == seq_returns(svs(body@)),
{
    proof {
        lemma_svs(body@);
    }
    let mut i: usize = 0;
    while i < body.len()
        invariant
            i <= body@.len(),
            svs(body@).len() == body@.len(),
            forall|k: int| 0 <= k < body@.len() ==> #[trigger] svs(body@)[k] == ast_sv(&body@[k]),
            forall|k: int| 0 <= k < i ==> !always_returns(#[trigger] svs(body@)[k]),
        decreases body@.len() - i,
    {
        if stmt_returns(&body[i]) {
            assert(always_returns(svs(body@)[i as int]));
            return true;
        }
        i += 1;
    }
    false
}

// ── Laws of control flow ────────────────────────────────────────────────

/// Statements after one that always returns do not change that the
/// sequence returns; and a sequence ending in a `return` returns.
pub proof fn law_returning_prefix(ss: Seq<StmtV>, more: Seq<StmtV>)
    ensures
        seq_returns(ss) ==> seq_returns(ss + more),
        more.len() > 0 && more.last() is Return ==> seq_returns(ss + more),
{
    let all = ss + more;
    if seq_returns(ss) {
        let i = choose|i: int| 0 <= i < ss.len() && always_returns(#[trigger] ss[i]);
        assert(all[i] == ss[i]);
    }
    if more.len() > 0 && more.last() is Return {
        assert(all[all.len() - 1] == more.last());
        assert(always_returns(all[all.len() - 1]));
    }
}

/// A loop never counts as returning, nor does an `if` without `else`; an
/// `if` with both branches returns exactly when both do.
pub proof fn law_branches_and_loops(s: StmtV)
    ensures
        s is For ==> !always_returns(s),
        s matches StmtV::If(_, _, None, _) ==> !always_returns(s),
        s matches StmtV::If(_, t, Some(e), _) ==> always_returns(s) == (always_returns(*t) && always_returns(*e)),
{
}

} // verus!
