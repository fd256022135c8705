//! A small block-structured IR for what code generation decides about
//! control flow: the blocks of a function, of `return`, `if` and `for`, of
//! string equality, of the logical operators, of checked division and of
//! the index check.  The fragments are plain data; the
//! program around the library turns each block into LLVM instructions one
//! for one, and generates the sub-parts a fragment names (an expression, a
//! statement) where the fragment places them.  `run` and `run_parts` state
//! what a fragment computes, and the laws below say what each fragment
//! does when it runs.
//!
//! Values are numbered registers, stack slots and block labels.  A fragment
//! starts in the block the caller is emitting into (its first block) and
//! hands control back at the block whose terminator is `Continue`.

use vstd::prelude::*;

verus! {

/// An operand: a register or a constant.
#[derive(Debug, Clone, Copy, PartialEq, Eq, Structural)]
pub enum Operand {
    Reg(u32),
    Int(i32),
    Bool(bool),
}

/// An integer comparison (signed).
#[derive(Debug, Clone, Copy, PartialEq, Eq, Structural)]
pub enum Pred {
    Eq,
    Slt,
    Sge,
}

/// Why a run-time check stops the program.
#[derive(Debug, Clone, Copy, PartialEq, Eq, Structural)]
pub enum PanicKind {
    /// An index outside `0 .. len`.
    Bounds,
    /// An integer division by zero.
    DivZero,
    /// `i32::MIN / -1`.
    Overflow,
}

/// One instruction.
#[derive(Debug)]
pub enum Inst {
    /// `dst` = the length of the string value in `s`.
    StrLen { dst: u32, s: u32 },
    /// `dst` = the byte at position `idx` of the string value in `s`.
    StrByte { dst: u32, s: u32, idx: u32 },
    /// `dst` = `a pred b` on 32-bit integers.
    ICmp { dst: u32, pred: Pred, a: Operand, b: Operand },
    /// `dst` = `a || b` on booleans.
    Or { dst: u32, a: u32, b: u32 },
    /// `dst` = `a && b` on booleans.
    And { dst: u32, a: u32, b: u32 },
    /// `dst` = `a != b` on booleans (exclusive or).
    Xor { dst: u32, a: u32, b: Operand },
    /// `dst` = `a + b` on 32-bit integers.
    Add { dst: u32, a: u32, b: Operand },
    /// `dst` = `a / b` on 32-bit integers, rounded toward zero.
    SDiv { dst: u32, a: u32, b: u32 },
    /// `dst` = the pair of the values in `a` and `b`.
    Pack { dst: u32, a: u32, b: u32 },
    /// A 32-bit stack slot.
    Alloca { slot: u32 },
    Store { slot: u32, val: Operand },
    Load { dst: u32, slot: u32 },
    /// `dst` = the operand paired with the block control came from.
    Phi { dst: u32, incoming: Vec<(Operand, u32)> },
    /// `dst` = whether the boolean in `src` is true (a compare with zero).
    IsTrue { dst: u32, src: u32 },
    /// The code of the sub-part `part` of the construct being lowered (an
    /// expression, whose value goes to `dst`, or a statement).  It may end
    /// the function, and it may leave code generation in a block of its own.
    Part { part: u32, dst: u32 },
}

/// How a block ends.
#[derive(Debug, Clone, Copy, PartialEq, Eq, Structural)]
pub enum Term {
    Br(u32),
    /// To the first label when the register holds `true`, else the second.
    CondBr(u32, u32, u32),
    /// A call of the runtime's panic with the message for the kind.
    Panic(PanicKind),
    /// Control goes on after the fragment.
    Continue,
    /// To the label, unless a part in the block already ended the function.
    Fallthrough(u32),
    /// The end of a function's code, unless a part already ended the
    /// function: return nothing when `true`, else code that is never reached.
    FallOff(bool),
    /// Return from the function, with the value in the register if any.
    Ret(Option<u32>),
}

#[derive(Debug)]
pub struct IrBlock {
    pub label: u32,
    pub insts: Vec<Inst>,
    pub term: Term,
}

/// An instruction as a value.
pub enum InstV {
    StrLen(u32, u32),
    StrByte(u32, u32, u32),
    ICmp(u32, Pred, Operand, Operand),
    Or(u32, u32, u32),
    And(u32, u32, u32),
    Xor(u32, u32, Operand),
    Add(u32, u32, Operand),
    SDiv(u32, u32, u32),
    Pack(u32, u32, u32),
    Alloca(u32),
    Store(u32, Operand),
    Load(u32, u32),
    Phi(u32, Seq<(Operand, u32)>),
    IsTrue(u32, u32),
    Part(u32, u32),
}

impl View for Inst {
    type V = InstV;

    open spec fn view(&self) -> InstV {
        match self {
            Inst::StrLen { dst, s } => InstV::StrLen(*dst, *s),
            Inst::StrByte { dst, s, idx } => InstV::StrByte(*dst, *s, *idx),
            Inst::ICmp { dst, pred, a, b } => InstV::ICmp(*dst, *pred, *a, *b),
            Inst::Or { dst, a, b } => InstV::Or(*dst, *a, *b),
            Inst::And { dst, a, b } => InstV::And(*dst, *a, *b),
            Inst::Xor { dst, a, b } => InstV::Xor(*dst, *a, *b),
            Inst::Add { dst, a, b } => InstV::Add(*dst, *a, *b),
            Inst::SDiv { dst, a, b } => InstV::SDiv(*dst, *a, *b),
            Inst::Pack { dst, a, b } => InstV::Pack(*dst, *a, *b),
            Inst::Alloca { slot } => InstV::Alloca(*slot),
            Inst::Store { slot, val } => InstV::Store(*slot, *val),
            Inst::Load { dst, slot } => InstV::Load(*dst, *slot),
            Inst::Phi { dst, incoming } => InstV::Phi(*dst, incoming@),
            Inst::IsTrue { dst, src } => InstV::IsTrue(*dst, *src),
            Inst::Part { part, dst } => InstV::Part(*part, *dst),
        }
    }
}

pub struct BlockV {
    pub label: u32,
    pub insts: Seq<InstV>,
    pub term: Term,
}

impl View for IrBlock {
    type V = BlockV;

    open spec fn view(&self) -> BlockV {
        BlockV { label: self.label, insts: self.insts@.map_values(|i: Inst| i@), term: self.term }
    }
}

pub open spec fn blocks_v(v: Seq<IrBlock>) -> Seq<BlockV> {
    v.map_values(|b: IrBlock| b@)
}

// ── What a fragment computes ────────────────────────────────────────────

/// A run-time value: an integer, a boolean, a string's bytes, or a pair.
pub enum Val {
    Int(int),
    Bool(bool),
    Bytes(Seq<u8>),
    Pair(Box<Val>, Box<Val>),
}

/// The registers and the stack slots.
pub struct Env {
    pub regs: Map<u32, Val>,
    pub slots: Map<u32, int>,
}

pub open spec fn opv(env: Env, o: Operand) -> Val {
    match o {
        Operand::Reg(r) => env.regs[r],
        Operand::Int(n) => Val::Int(n as int),
        Operand::Bool(b) => Val::Bool(b),
    }
}

pub open spec fn int_of(v: Val) -> int {
    match v {
        Val::Int(n) => n,
        _ => 0,
    }
}

pub open spec fn bool_of(v: Val) -> bool {
    match v {
        Val::Bool(b) => b,
        _ => false,
    }
}

pub open spec fn bytes_of(v: Val) -> Seq<u8> {
    match v {
        Val::Bytes(b) => b,
        _ => Seq::empty(),
    }
}

/// `a / b` rounded toward zero, as integer division on machine integers.
pub open spec fn quot(a: int, b: int) -> int {
    let q = (if a < 0 { -a } else { a }) / (if b < 0 { -b } else { b });
    if (a < 0) != (b < 0) {
        -q
    } else {
        q
    }
}

pub open spec fn compare(p: Pred, a: int, b: int) -> bool {
    match p {
        Pred::Eq => a == b,
        Pred::Slt => a < b,
        Pred::Sge => a >= b,
    }
}

/// The operand paired with the label `from`.
pub open spec fn phi_pick(inc: Seq<(Operand, u32)>, from: u32) -> Operand
    decreases inc.len(),
{
    if inc.len() == 0 {
        Operand::Int(0)
    } else if inc[0].1 == from {
        inc[0].0
    } else {
        phi_pick(inc.subrange(1, inc.len() as int), from)
    }
}

pub open spec fn set(env: Env, r: u32, v: Val) -> Env {
    Env { regs: env.regs.insert(r, v), ..env }
}

/// One instruction, control having come from the block `from`.
pub open spec fn exec_inst(env: Env, from: u32, i: InstV) -> Env {
    match i {
        InstV::StrLen(d, s) => set(env, d, Val::Int(bytes_of(env.regs[s]).len() as int)),
        InstV::StrByte(d, s, k) => set(env, d, Val::Int(bytes_of(env.regs[s])[int_of(env.regs[k])] as int)),
        InstV::ICmp(d, p, a, b) => set(env, d, Val::Bool(compare(p, int_of(opv(env, a)), int_of(opv(env, b))))),
        InstV::Or(d, a, b) => set(env, d, Val::Bool(bool_of(env.regs[a]) || bool_of(env.regs[b]))),
        InstV::And(d, a, b) => set(env, d, Val::Bool(bool_of(env.regs[a]) && bool_of(env.regs[b]))),
        InstV::Xor(d, a, b) => set(env, d, Val::Bool(bool_of(env.regs[a]) != bool_of(opv(env, b)))),
        InstV::Add(d, a, b) => set(env, d, Val::Int(int_of(env.regs[a]) + int_of(opv(env, b)))),
        InstV::SDiv(d, a, b) => set(env, d, Val::Int(quot(int_of(env.regs[a]), int_of(env.regs[b])))),
        InstV::Pack(d, a, b) => set(env, d, Val::Pair(Box::new(env.regs[a]), Box::new(env.regs[b]))),
        InstV::Alloca(_) => env,
        InstV::Store(s, v) => Env { slots: env.slots.insert(s, int_of(opv(env, v))), ..env },
        InstV::Load(d, s) => set(env, d, Val::Int(env.slots[s])),
        InstV::Phi(d, inc) => set(env, d, opv(env, phi_pick(inc, from))),
        InstV::IsTrue(d, x) => set(env, d, Val::Bool(bool_of(env.regs[x]))),
        InstV::Part(..) => env,
    }
}

/// The instructions of a block, in order.
pub open spec fn exec_insts(env: Env, from: u32, s: Seq<InstV>) -> Env
    decreases s.len(),
{
    if s.len() == 0 {
        env
    } else {
        exec_inst(exec_insts(env, from, s.drop_last()), from, s.last())
    }
}

/// The first block labelled `l`.
pub open spec fn find_block(bs: Seq<BlockV>, l: u32) -> Option<BlockV>
    decreases bs.len(),
{
    if bs.len() == 0 {
        None
    } else if bs[0].label == l {
        Some(bs[0])
    } else {
        find_block(bs.subrange(1, bs.len() as int), l)
    }
}

/// How running a fragment ends.
pub enum Outcome {
    /// Control goes on after the fragment with these registers and slots.
    Continue(Env),
    /// The program stops with this panic.
    Panicked(PanicKind),
    /// No block to go to, a branch on a non-boolean, or the steps ran out.
    Stuck,
}

/// Runs the fragment `bs` from the block `label`, control having come from
/// `from`, for at most `fuel` blocks.
pub open spec fn run(bs: Seq<BlockV>, label: u32, from: u32, env: Env, fuel: nat) -> Outcome
    decreases fuel,
{
    if fuel == 0 {
        Outcome::Stuck
    } else {
        match find_block(bs, label) {
            None => Outcome::Stuck,
            Some(b) => {
                let e2 = exec_insts(env, from, b.insts);
                match b.term {
                    Term::Br(t) | Term::Fallthrough(t) => run(bs, t, label, e2, (fuel - 1) as nat),
                    Term::CondBr(c, t, f) => match e2.regs[c] {
                        Val::Bool(true) => run(bs, t, label, e2, (fuel - 1) as nat),
                        Val::Bool(false) => run(bs, f, label, e2, (fuel - 1) as nat),
                        _ => Outcome::Stuck,
                    },
                    Term::Panic(k) => Outcome::Panicked(k),
                    Term::Continue => Outcome::Continue(e2),
                    Term::FallOff(_) | Term::Ret(_) => Outcome::Stuck,
                }
            },
        }
    }
}

// ── The run-time checks ─────────────────────────────────────────────────

/// Registers below `next` that hold a value keep it.
pub open spec fn keeps_below(env: Env, e2: Env, next: u32) -> bool {
    &&& e2.slots == env.slots
    &&& forall|r: u32| r < next && env.regs.dom().contains(r) ==> #[trigger] e2.regs[r] == env.regs[r]
}

/// A check: the instructions that compute the failing condition into the
/// register `cond`, then on to the panic block `next` or the block
/// `next + 1` that goes on.
pub open spec fn guard_blocks(cur: u32, insts: Seq<InstV>, cond: u32, kind: PanicKind, next: u32) -> Seq<BlockV> {
    seq![
        BlockV { label: cur, insts, term: Term::CondBr(cond, next, (next + 1) as u32) },
        BlockV { label: next, insts: Seq::empty(), term: Term::Panic(kind) },
        BlockV { label: (next + 1) as u32, insts: Seq::empty(), term: Term::Continue },
    ]
}

/// R1/R2: the index in register `index` must lie in `0 .. len`.
pub open spec fn bounds_check_blocks(index: u32, len: u32, cur: u32, next: u32) -> Seq<BlockV> {
    guard_blocks(
        cur,
        seq![
            InstV::ICmp(next, Pred::Slt, Operand::Reg(index), Operand::Int(0)),
            InstV::ICmp((next + 1) as u32, Pred::Sge, Operand::Reg(index), Operand::Reg(len)),
            InstV::Or((next + 2) as u32, next, (next + 1) as u32),
        ],
        (next + 2) as u32,
        PanicKind::Bounds,
        next,
    )
}

fn guard(cur: u32, insts: Vec<Inst>, cond: u32, kind: PanicKind, next: u32) -> (r: Vec<IrBlock>)
    requires
        next + 1 <= u32::MAX,
    ensures
        blocks_v(r@) == guard_blocks(cur, insts@.map_values(|i: Inst| i@), cond, kind, next),
{
    let ghost iv = insts@.map_values(|i: Inst| i@);
    let mut r: Vec<IrBlock> = Vec::new();
    r.push(IrBlock { label: cur, insts, term: Term::CondBr(cond, next, next + 1) });
    r.push(IrBlock { label: next, insts: Vec::new(), term: Term::Panic(kind) });
    r.push(IrBlock { label: next + 1, insts: Vec::new(), term: Term::Continue });
    assert(r@[1].insts@.map_values(|i: Inst| i@) =~= Seq::<InstV>::empty());
    assert(r@[2].insts@.map_values(|i: Inst| i@) =~= Seq::<InstV>::empty());
    assert(blocks_v(r@) =~= guard_blocks(cur, iv, cond, kind, next));
    r
}

/// The blocks of the bounds check (see `bounds_check_blocks`).
pub fn bounds_check_ir(index: u32, len: u32, cur: u32, next: u32) -> (r: Vec<IrBlock>)
    requires
        next + 3 <= u32::MAX,
    ensures
        blocks_v(r@) == bounds_check_blocks(index, len, cur, next),
{
    let mut insts: Vec<Inst> = Vec::new();
    insts.push(Inst::ICmp { dst: next, pred: Pred::Slt, a: Operand::Reg(index), b: Operand::Int(0) });
    insts.push(Inst::ICmp { dst: next + 1, pred: Pred::Sge, a: Operand::Reg(index), b: Operand::Reg(len) });
    insts.push(Inst::Or { dst: next + 2, a: next, b: next + 1 });
    assert(insts@.map_values(|i: Inst| i@) =~= seq![
        InstV::ICmp(next, Pred::Slt, Operand::Reg(index), Operand::Int(0)),
        InstV::ICmp((next + 1) as u32, Pred::Sge, Operand::Reg(index), Operand::Reg(len)),
        InstV::Or((next + 2) as u32, next, (next + 1) as u32),
    ]);
    guard(cur, insts, next + 2, PanicKind::Bounds, next)
}

/// The message and the name of the global holding it, for each panic.
pub fn panic_message(k: PanicKind) -> (r: (&'static str, &'static str))
    ensures
        k == PanicKind::Bounds ==> r.0@ == "index out of bounds"@ && r.1@ == "bounds"@,
        k == PanicKind::DivZero ==> r.0@ == "division by zero"@ && r.1@ == "divz"@,
        k == PanicKind::Overflow ==> r.0@ == "integer overflow"@ && r.1@ == "overflow"@,
{
    match k {
        PanicKind::Bounds => ("index out of bounds", "bounds"),
        PanicKind::DivZero => ("division by zero", "divz"),
        PanicKind::Overflow => ("integer overflow", "overflow"),
    }
}

/// Running a check: it stops the program with its panic when the failing
/// condition holds, and otherwise goes on with every register below `next`
/// and every slot as it was.
proof fn lemma_guard_runs(cur: u32, insts: Seq<InstV>, cond: u32, kind: PanicKind, next: u32, env: Env, from: u32)
    requires
        cur < next,
        next + 1 <= u32::MAX,
        exec_insts(env, from, insts).regs[cond] is Bool,
    ensures
        ({
            let e2 = exec_insts(env, from, insts);
            let out = run(guard_blocks(cur, insts, cond, kind, next), cur, from, env, 2);
            &&& bool_of(e2.regs[cond]) ==> out == Outcome::Panicked(kind)
            &&& !bool_of(e2.regs[cond]) ==> out == Outcome::Continue(e2)
        }),
{
    let bs = guard_blocks(cur, insts, cond, kind, next);
    let rest = bs.subrange(1, bs.len() as int);
    let rest2 = rest.subrange(1, rest.len() as int);
    assert(rest[0] == bs[1] && rest[1] == bs[2] && rest.len() == 2);
    assert(rest2[0] == bs[2] && rest2.len() == 1);
    assert(find_block(bs, cur) == Some(bs[0]));
    assert(find_block(rest, next) == Some(rest[0]));
    assert(find_block(bs, next) == find_block(rest, next));
    assert(find_block(rest2, (next + 1) as u32) == Some(rest2[0]));
    assert(find_block(rest, (next + 1) as u32) == find_block(rest2, (next + 1) as u32));
    assert(find_block(bs, (next + 1) as u32) == find_block(rest, (next + 1) as u32));
    let e2 = exec_insts(env, from, insts);
    assert(exec_insts(e2, cur, Seq::<InstV>::empty()) == e2);
    reveal_with_fuel(run, 3);
}

/// R1/R2: the bounds check stops the program exactly when the index is
/// negative or not below the length, and otherwise changes no register
/// below `next` and no slot.
pub proof fn law_bounds_check(index: u32, len: u32, cur: u32, next: u32, env: Env, from: u32)
    requires
        index < next,
        len < next,
        cur < next,
        next + 3 <= u32::MAX,
    ensures
        ({
            let i = int_of(env.regs[index]);
            let n = int_of(env.regs[len]);
            let out = run(bounds_check_blocks(index, len, cur, next), cur, from, env, 2);
            &&& (i < 0 || i >= n) ==> out == Outcome::Panicked(PanicKind::Bounds)
            &&& (0 <= i < n) ==> (out matches Outcome::Continue(e2) && keeps_below(env, e2, next))
        }),
{
    let insts = seq![
        InstV::ICmp(next, Pred::Slt, Operand::Reg(index), Operand::Int(0)),
        InstV::ICmp((next + 1) as u32, Pred::Sge, Operand::Reg(index), Operand::Reg(len)),
        InstV::Or((next + 2) as u32, next, (next + 1) as u32),
    ];
    assert(insts.drop_last().drop_last().drop_last() =~= Seq::<InstV>::empty());
    reveal_with_fuel(exec_insts, 4);
    let e2 = exec_insts(env, from, insts);
    lemma_guard_runs(cur, insts, (next + 2) as u32, PanicKind::Bounds, next, env, from);
    assert(keeps_below(env, e2, next));
}

// ── Checked integer division ───────────────────────────────────────────

/// Integer division `dividend / divisor`: the division-by-zero check (R3),
/// then the `i32::MIN / -1` check (R4), then the division into the register
/// `n + 4`.
/// Labels `n` and `n + 2` are the two panics, `n + 1` and `n + 3` the
/// blocks that go on.
pub open spec fn int_div_blocks(dividend: u32, divisor: u32, cur: u32, n: u32) -> Seq<BlockV> {
    seq![
        BlockV {
            label: cur,
            insts: seq![InstV::ICmp(n, Pred::Eq, Operand::Reg(divisor), Operand::Int(0))],
            term: Term::CondBr(n, n, (n + 1) as u32),
        },
        BlockV { label: n, insts: Seq::empty(), term: Term::Panic(PanicKind::DivZero) },
        BlockV {
            label: (n + 1) as u32,
            insts: seq![
                InstV::ICmp((n + 1) as u32, Pred::Eq, Operand::Reg(dividend), Operand::Int(i32::MIN)),
                InstV::ICmp((n + 2) as u32, Pred::Eq, Operand::Reg(divisor), Operand::Int(-1i32)),
                InstV::And((n + 3) as u32, (n + 1) as u32, (n + 2) as u32),
            ],
            term: Term::CondBr((n + 3) as u32, (n + 2) as u32, (n + 3) as u32),
        },
        BlockV { label: (n + 2) as u32, insts: Seq::empty(), term: Term::Panic(PanicKind::Overflow) },
        BlockV {
            label: (n + 3) as u32,
            insts: seq![InstV::SDiv((n + 4) as u32, dividend, divisor)],
            term: Term::Continue,
        },
    ]
}

/// The blocks of a checked integer division (see `int_div_blocks`) and the
/// register that holds the quotient.
pub fn int_div_ir(dividend: u32, divisor: u32, cur: u32, next: u32) -> (r: (Vec<IrBlock>, u32))
    requires
        next + 5 <= u32::MAX,
    ensures
        blocks_v(r.0@) == int_div_blocks(dividend, divisor, cur, next),
        r.1 == next + 4,
{
    let n = next;
    let mut out: Vec<IrBlock> = Vec::new();
    let mut b0: Vec<Inst> = Vec::new();
    b0.push(Inst::ICmp { dst: n, pred: Pred::Eq, a: Operand::Reg(divisor), b: Operand::Int(0) });
    out.push(block(cur, b0, Term::CondBr(n, n, n + 1)));
    out.push(block(n, Vec::new(), Term::Panic(PanicKind::DivZero)));
    let mut b2: Vec<Inst> = Vec::new();
    b2.push(Inst::ICmp { dst: n + 1, pred: Pred::Eq, a: Operand::Reg(dividend), b: Operand::Int(i32::MIN) });
    b2.push(Inst::ICmp { dst: n + 2, pred: Pred::Eq, a: Operand::Reg(divisor), b: Operand::Int(-1i32) });
    b2.push(Inst::And { dst: n + 3, a: n + 1, b: n + 2 });
    out.push(block(n + 1, b2, Term::CondBr(n + 3, n + 2, n + 3)));
    out.push(block(n + 2, Vec::new(), Term::Panic(PanicKind::Overflow)));
    let mut b4: Vec<Inst> = Vec::new();
    b4.push(Inst::SDiv { dst: n + 4, a: dividend, b: divisor });
    out.push(block(n + 3, b4, Term::Continue));
    assert(blocks_v(out@) =~= int_div_blocks(dividend, divisor, cur, n)) by {
        let want = int_div_blocks(dividend, divisor, cur, n);
        assert(out@[0]@.insts =~= want[0].insts);
        assert(out@[1]@.insts =~= want[1].insts);
        assert(out@[2]@.insts =~= want[2].insts);
        assert(out@[3]@.insts =~= want[3].insts);
        assert(out@[4]@.insts =~= want[4].insts);
    }
    (out, n + 4)
}

/// A quotient of two `i32` values, other than `i32::MIN / -1`, is an `i32`.
proof fn lemma_quot_fits(a: int, b: int)
    requires
        i32::MIN <= a <= i32::MAX,
        i32::MIN <= b <= i32::MAX,
        b != 0,
        !(a == i32::MIN && b == -1),
    ensures
        i32::MIN <= quot(a, b) <= i32::MAX,
{
    let x = if a < 0 { -a } else { a };
    let y = if b < 0 { -b } else { b };
    assert(x / y <= x) by (nonlinear_arith)
        requires
            x >= 0,
            y >= 1,
    ;
    assert(x / y >= 0) by (nonlinear_arith)
        requires
            x >= 0,
            y >= 1,
    ;
    if a == i32::MIN && y == 1 {
        assert(b == 1);
        assert(x / y == x) by (nonlinear_arith)
            requires
                y == 1,
        ;
    }
    if a == i32::MIN && y >= 2 {
        assert(x / y <= x / 2) by (nonlinear_arith)
            requires
                x >= 0,
                y >= 2,
        ;
    }
}

/// Integer division stops the program with the division-by-zero panic
/// exactly when the divisor is zero, with the overflow panic exactly when
/// it is `i32::MIN / -1`, and otherwise goes on with the quotient, rounded
/// toward zero and within `i32`, in its register, every register below
/// `next` and every slot unchanged.
pub proof fn law_int_division(dividend: u32, divisor: u32, cur: u32, next: u32, env: Env, from: u32)
    requires
        dividend < next,
        divisor < next,
        cur < next,
        next + 5 <= u32::MAX,
        i32::MIN <= int_of(env.regs[dividend]) <= i32::MAX,
        i32::MIN <= int_of(env.regs[divisor]) <= i32::MAX,
    ensures
        ({
            let a = int_of(env.regs[dividend]);
            let b = int_of(env.regs[divisor]);
            let out = run(int_div_blocks(dividend, divisor, cur, next), cur, from, env, 3);
            &&& b == 0 ==> out == Outcome::Panicked(PanicKind::DivZero)
            &&& b != 0 && a == i32::MIN && b == -1 ==> out == Outcome::Panicked(PanicKind::Overflow)
            &&& b != 0 && !(a == i32::MIN && b == -1) ==> (out matches Outcome::Continue(e2) && keeps_below(
                env,
                e2,
                next,
            ) && e2.regs[(next + 4) as u32] == Val::Int(quot(a, b)) && i32::MIN <= quot(a, b) <= i32::MAX)
        }),
{
    let bs = int_div_blocks(dividend, divisor, cur, next);
    let a = int_of(env.regs[dividend]);
    let b = int_of(env.regs[divisor]);
    lemma_find_block(bs, 0);
    lemma_find_block(bs, 1);
    lemma_find_block(bs, 2);
    lemma_find_block(bs, 3);
    lemma_find_block(bs, 4);
    let i0 = bs[0].insts;
    let i2 = bs[2].insts;
    let i4 = bs[4].insts;
    assert(i0.drop_last() =~= Seq::<InstV>::empty());
    assert(i2.drop_last().drop_last().drop_last() =~= Seq::<InstV>::empty());
    assert(i4.drop_last() =~= Seq::<InstV>::empty());
    reveal_with_fuel(exec_insts, 4);
    let e1 = exec_insts(env, from, i0);
    assert(e1.regs[next] == Val::Bool(b == 0));
    if b != 0 {
        let e3 = exec_insts(e1, cur, i2);
        assert(e3.regs[(next + 3) as u32] == Val::Bool(a == i32::MIN && b == -1));
        if !(a == i32::MIN && b == -1) {
            let e4 = exec_insts(e3, (next + 1) as u32, i4);
            assert(e3.regs[dividend] == env.regs[dividend]);
            assert(e3.regs[divisor] == env.regs[divisor]);
            assert(e4.regs[(next + 4) as u32] == Val::Int(quot(a, b)));
            assert(keeps_below(env, e4, next));
            lemma_quot_fits(a, b);
        }
    }
    assert(exec_insts(e1, cur, Seq::<InstV>::empty()) == e1);
    reveal_with_fuel(run, 4);
}

// ── Logical operators ──────────────────────────────────────────────────

/// `lhs && rhs` (or `lhs || rhs` when `!and`) on two booleans already
/// computed: both are tested and combined, nothing is skipped.  The result
/// goes to the register `n + 2`.
pub open spec fn logical_blocks(and: bool, lhs: u32, rhs: u32, cur: u32, n: u32) -> Seq<BlockV> {
    seq![
        BlockV {
            label: cur,
            insts: seq![
                InstV::IsTrue(n, lhs),
                InstV::IsTrue((n + 1) as u32, rhs),
                if and {
                    InstV::And((n + 2) as u32, n, (n + 1) as u32)
                } else {
                    InstV::Or((n + 2) as u32, n, (n + 1) as u32)
                },
            ],
            term: Term::Continue,
        },
    ]
}

/// The block of a logical operator (see `logical_blocks`) and the register
/// that holds its result.
pub fn logical_ir(and: bool, lhs: u32, rhs: u32, cur: u32, next: u32) -> (r: (Vec<IrBlock>, u32))
    requires
        next + 3 <= u32::MAX,
    ensures
        blocks_v(r.0@) == logical_blocks(and, lhs, rhs, cur, next),
        r.1 == next + 2,
{
    let n = next;
    let mut insts: Vec<Inst> = Vec::new();
    insts.push(Inst::IsTrue { dst: n, src: lhs });
    insts.push(Inst::IsTrue { dst: n + 1, src: rhs });
    if and {
        insts.push(Inst::And { dst: n + 2, a: n, b: n + 1 });
    } else {
        insts.push(Inst::Or { dst: n + 2, a: n, b: n + 1 });
    }
    let mut out: Vec<IrBlock> = Vec::new();
    out.push(block(cur, insts, Term::Continue));
    assert(blocks_v(out@) =~= logical_blocks(and, lhs, rhs, cur, n)) by {
        assert(out@[0]@.insts =~= logical_blocks(and, lhs, rhs, cur, n)[0].insts);
    }
    (out, n + 2)
}

/// A logical operator gives the conjunction (or disjunction) of its two
/// operands' truth, both operands having been computed, and changes no
/// register below `next` and no slot.
pub proof fn law_logical(and: bool, lhs: u32, rhs: u32, cur: u32, next: u32, env: Env, from: u32)
    requires
        lhs < next,
        rhs < next,
        next + 3 <= u32::MAX,
    ensures
        ({
            let (a, b) = (bool_of(env.regs[lhs]), bool_of(env.regs[rhs]));
            let out = run(logical_blocks(and, lhs, rhs, cur, next), cur, from, env, 1);
            out matches Outcome::Continue(e2) && keeps_below(env, e2, next) && e2.regs[(next + 2) as u32]
                == Val::Bool(if and { a && b } else { a || b })
        }),
{
    let bs = logical_blocks(and, lhs, rhs, cur, next);
    assert(find_block(bs, cur) == Some(bs[0]));
    assert(bs[0].insts.drop_last().drop_last().drop_last() =~= Seq::<InstV>::empty());
    reveal_with_fuel(exec_insts, 4);
    let e2 = exec_insts(env, from, bs[0].insts);
    assert(keeps_below(env, e2, next));
}

// ── String equality ────────────────────────────────────────────────────

/// The register that holds the result of the string comparison.
pub open spec fn str_eq_result(negate: bool, n: u32) -> u32 {
    if negate { (n + 10) as u32 } else { (n + 9) as u32 }
}

/// `lhs == rhs` on the string values in the registers `lhs` and `rhs`
/// (`!=` when `negate`): the lengths first, then byte by byte with the
/// index in a stack slot, the result a phi over where control came from.
/// Registers, the slot and the labels are taken from `n` on; `cur` is the
/// block being emitted into.
pub open spec fn str_eq_blocks(lhs: u32, rhs: u32, negate: bool, cur: u32, n: u32) -> Seq<BlockV> {
    let (init, cond, body, inc, merge) = (n, (n + 1) as u32, (n + 2) as u32, (n + 3) as u32, (n + 4) as u32);
    let (l_len, r_len, len_eq, i, not_done) = (n, (n + 1) as u32, (n + 2) as u32, (n + 3) as u32, (n + 4) as u32);
    let (lb, rb, beq, i_next, res) = ((n + 5) as u32, (n + 6) as u32, (n + 7) as u32, (n + 8) as u32, (n + 9) as u32);
    let phi = InstV::Phi(res, seq![(Operand::Bool(false), cur), (Operand::Bool(false), body), (Operand::Bool(true), cond)]);
    seq![
        BlockV {
            label: cur,
            insts: seq![
                InstV::StrLen(l_len, lhs),
                InstV::StrLen(r_len, rhs),
                InstV::ICmp(len_eq, Pred::Eq, Operand::Reg(l_len), Operand::Reg(r_len)),
            ],
            term: Term::CondBr(len_eq, init, merge),
        },
        BlockV { label: init, insts: seq![InstV::Alloca(n), InstV::Store(n, Operand::Int(0))], term: Term::Br(cond) },
        BlockV {
            label: cond,
            insts: seq![InstV::Load(i, n), InstV::ICmp(not_done, Pred::Slt, Operand::Reg(i), Operand::Reg(l_len))],
            term: Term::CondBr(not_done, body, merge),
        },
        BlockV {
            label: body,
            insts: seq![
                InstV::StrByte(lb, lhs, i),
                InstV::StrByte(rb, rhs, i),
                InstV::ICmp(beq, Pred::Eq, Operand::Reg(lb), Operand::Reg(rb)),
            ],
            term: Term::CondBr(beq, inc, merge),
        },
        BlockV {
            label: inc,
            insts: seq![InstV::Add(i_next, i, Operand::Int(1)), InstV::Store(n, Operand::Reg(i_next))],
            term: Term::Br(cond),
        },
        BlockV {
            label: merge,
            insts: if negate {
                seq![phi, InstV::Xor((n + 10) as u32, res, Operand::Bool(true))]
            } else {
                seq![phi]
            },
            term: Term::Continue,
        },
    ]
}

fn block(label: u32, insts: Vec<Inst>, term: Term) -> (r: IrBlock)
    ensures
        r@ == (BlockV { label, insts: insts@.map_values(|i: Inst| i@), term }),
{
    IrBlock { label, insts, term }
}

/// The blocks of a string comparison (see `str_eq_blocks`) and the
/// register holding its result.
pub fn str_eq_ir(lhs: u32, rhs: u32, negate: bool, cur: u32, next: u32) -> (r: (Vec<IrBlock>, u32))
    requires
        next + 11 <= u32::MAX,
    ensures
        blocks_v(r.0@) == str_eq_blocks(lhs, rhs, negate, cur, next),
        r.1 == str_eq_result(negate, next),
{
    let n = next;
    let mut out: Vec<IrBlock> = Vec::new();

    let mut b0: Vec<Inst> = Vec::new();
    b0.push(Inst::StrLen { dst: n, s: lhs });
    b0.push(Inst::StrLen { dst: n + 1, s: rhs });
    b0.push(Inst::ICmp { dst: n + 2, pred: Pred::Eq, a: Operand::Reg(n), b: Operand::Reg(n + 1) });
    out.push(block(cur, b0, Term::CondBr(n + 2, n, n + 4)));

    let mut b1: Vec<Inst> = Vec::new();
    b1.push(Inst::Alloca { slot: n });
    b1.push(Inst::Store { slot: n, val: Operand::Int(0) });
    out.push(block(n, b1, Term::Br(n + 1)));

    let mut b2: Vec<Inst> = Vec::new();
    b2.push(Inst::Load { dst: n + 3, slot: n });
    b2.push(Inst::ICmp { dst: n + 4, pred: Pred::Slt, a: Operand::Reg(n + 3), b: Operand::Reg(n) });
    out.push(block(n + 1, b2, Term::CondBr(n + 4, n + 2, n + 4)));

    let mut b3: Vec<Inst> = Vec::new();
    b3.push(Inst::StrByte { dst: n + 5, s: lhs, idx: n + 3 });
    b3.push(Inst::StrByte { dst: n + 6, s: rhs, idx: n + 3 });
    b3.push(Inst::ICmp { dst: n + 7, pred: Pred::Eq, a: Operand::Reg(n + 5), b: Operand::Reg(n + 6) });
    out.push(block(n + 2, b3, Term::CondBr(n + 7, n + 3, n + 4)));

    let mut b4: Vec<Inst> = Vec::new();
    b4.push(Inst::Add { dst: n + 8, a: n + 3, b: Operand::Int(1) });
    b4.push(Inst::Store { slot: n, val: Operand::Reg(n + 8) });
    out.push(block(n + 3, b4, Term::Br(n + 1)));

    let mut incoming: Vec<(Operand, u32)> = Vec::new();
    incoming.push((Operand::Bool(false), cur));
    incoming.push((Operand::Bool(false), n + 2));
    incoming.push((Operand::Bool(true), n + 1));
    assert(incoming@ =~= seq![(Operand::Bool(false), cur), (Operand::Bool(false), (n + 2) as u32), (Operand::Bool(true), (n + 1) as u32)]);
    let mut b5: Vec<Inst> = Vec::new();
    b5.push(Inst::Phi { dst: n + 9, incoming });
    let result = if negate {
        b5.push(Inst::Xor { dst: n + 10, a: n + 9, b: Operand::Bool(true) });
        n + 10
    } else {
        n + 9
    };
    out.push(block(n + 4, b5, Term::Continue));
    assert(blocks_v(out@) =~= str_eq_blocks(lhs, rhs, negate, cur, n)) by {
        let want = str_eq_blocks(lhs, rhs, negate, cur, n);
        assert(out@[0]@.insts =~= want[0].insts);
        assert(out@[1]@.insts =~= want[1].insts);
        assert(out@[2]@.insts =~= want[2].insts);
        assert(out@[3]@.insts =~= want[3].insts);
        assert(out@[4]@.insts =~= want[4].insts);
        assert(out@[5]@.insts =~= want[5].insts);
    }
    (out, result)
}

/// The block labelled `bs[k].label` is `bs[k]` when no earlier block has
/// that label.
proof fn lemma_find_block(bs: Seq<BlockV>, k: int)
    requires
        0 <= k < bs.len(),
        forall|j: int| 0 <= j < k ==> bs[j].label != bs[k].label,
    ensures
        find_block(bs, bs[k].label) == Some(bs[k]),
    decreases k,
{
    if k > 0 {
        let rest = bs.subrange(1, bs.len() as int);
        assert forall|j: int| 0 <= j < k - 1 implies (#[trigger] rest[j]).label != rest[k - 1].label by {
            assert(rest[j] == bs[j + 1]);
        }
        lemma_find_block(rest, k - 1);
        assert(rest[k - 1] == bs[k]);
        assert(bs[0].label != bs[k].label);
    }
}

/// The registers and slot of the comparison loop, at the loop's head with
/// `i` bytes matched.
pub open spec fn loop_state(env: Env, lhs: u32, rhs: u32, n: u32, l: Seq<u8>, r: Seq<u8>, i: int) -> bool {
    &&& env.regs[lhs] == Val::Bytes(l)
    &&& env.regs[rhs] == Val::Bytes(r)
    &&& env.regs[n] == Val::Int(l.len() as int)
    &&& l.len() == r.len()
    &&& env.slots[n] == i
    &&& 0 <= i <= l.len()
    &&& forall|k: int| 0 <= k < i ==> l[k] == r[k]
}

/// The registers below `n` that hold a value keep it.
pub open spec fn regs_kept(env: Env, e2: Env, n: u32) -> bool {
    forall|q: u32| q < n && env.regs.dom().contains(q) ==> #[trigger] e2.regs[q] == env.regs[q]
}

proof fn lemma_labels(lhs: u32, rhs: u32, negate: bool, cur: u32, n: u32)
    requires
        cur < n,
        n + 11 <= u32::MAX,
    ensures
        ({
            let bs = str_eq_blocks(lhs, rhs, negate, cur, n);
            &&& find_block(bs, cur) == Some(bs[0])
            &&& find_block(bs, n) == Some(bs[1])
            &&& find_block(bs, (n + 1) as u32) == Some(bs[2])
            &&& find_block(bs, (n + 2) as u32) == Some(bs[3])
            &&& find_block(bs, (n + 3) as u32) == Some(bs[4])
            &&& find_block(bs, (n + 4) as u32) == Some(bs[5])
        }),
{
    let bs = str_eq_blocks(lhs, rhs, negate, cur, n);
    lemma_find_block(bs, 0);
    lemma_find_block(bs, 1);
    lemma_find_block(bs, 2);
    lemma_find_block(bs, 3);
    lemma_find_block(bs, 4);
    lemma_find_block(bs, 5);
}

/// The merge block, reached from `from`, gives the phi's pick (negated for
/// `!=`) and goes on.
proof fn lemma_merge(lhs: u32, rhs: u32, negate: bool, cur: u32, n: u32, env: Env, from: u32, fuel: nat, v: bool)
    requires
        cur < n,
        n + 11 <= u32::MAX,
        fuel >= 1,
        from == cur ==> !v,
        from == (n + 2) as u32 ==> !v,
        from == (n + 1) as u32 ==> v,
        from == cur || from == (n + 1) as u32 || from == (n + 2) as u32,
    ensures
        run(str_eq_blocks(lhs, rhs, negate, cur, n), (n + 4) as u32, from, env, fuel) matches Outcome::Continue(e2)
            && e2.regs[str_eq_result(negate, n)] == Val::Bool(v != negate) && regs_kept(env, e2, n)
            && e2.slots == env.slots,
{
    let bs = str_eq_blocks(lhs, rhs, negate, cur, n);
    lemma_labels(lhs, rhs, negate, cur, n);
    reveal_with_fuel(phi_pick, 4);
    reveal_with_fuel(exec_insts, 3);
    let inc = seq![(Operand::Bool(false), cur), (Operand::Bool(false), (n + 2) as u32), (Operand::Bool(true), (n + 1) as u32)];
    assert(inc.subrange(1, 3)[0] == inc[1] && inc.subrange(1, 3)[1] == inc[2]);
    assert(inc.subrange(1, 3).subrange(1, 2)[0] == inc[2]);
    assert(phi_pick(inc, from) == Operand::Bool(v));
    assert(bs[5].insts.drop_last().drop_last() =~= Seq::<InstV>::empty() || bs[5].insts.drop_last() =~= Seq::<InstV>::empty());
}

/// The comparison loop, entered at its head with `i` bytes matched, ends
/// with the comparison's result.
proof fn lemma_loop(lhs: u32, rhs: u32, negate: bool, cur: u32, n: u32, env: Env, from: u32, fuel: nat, l: Seq<u8>, r: Seq<u8>, i: int)
    requires
        lhs < n,
        rhs < n,
        cur < n,
        n + 11 <= u32::MAX,
        loop_state(env, lhs, rhs, n, l, r, i),
        fuel >= 3 * (l.len() - i) + 2,
    ensures
        run(str_eq_blocks(lhs, rhs, negate, cur, n), (n + 1) as u32, from, env, fuel) matches Outcome::Continue(e2)
            && e2.regs[str_eq_result(negate, n)] == Val::Bool((l == r) != negate) && regs_kept(env, e2, n),
    decreases l.len() - i,
{
    let bs = str_eq_blocks(lhs, rhs, negate, cur, n);
    lemma_labels(lhs, rhs, negate, cur, n);
    reveal_with_fuel(exec_insts, 4);
    let cond = (n + 1) as u32;
    let e1 = exec_insts(env, from, bs[2].insts);
    assert(bs[2].insts.drop_last().drop_last() =~= Seq::<InstV>::empty());
    assert(e1.regs[(n + 3) as u32] == Val::Int(i));
    assert(e1.regs[(n + 4) as u32] == Val::Bool(i < l.len()));
    if i == l.len() {
        assert(l =~= r);
        assert(run(bs, cond, from, env, fuel) == run(bs, (n + 4) as u32, cond, e1, (fuel - 1) as nat));
        lemma_merge(lhs, rhs, negate, cur, n, e1, cond, (fuel - 1) as nat, true);
        let e9 = run(bs, (n + 4) as u32, cond, e1, (fuel - 1) as nat)->Continue_0;
        assert(regs_kept(env, e9, n)) by {
            assert forall|q: u32| q < n && env.regs.dom().contains(q) implies #[trigger] e9.regs[q] == env.regs[q] by {
                assert(e1.regs[q] == env.regs[q]);
            }
        }
    } else {
        let body = (n + 2) as u32;
        let e2 = exec_insts(e1, cond, bs[3].insts);
        assert(bs[3].insts.drop_last().drop_last().drop_last() =~= Seq::<InstV>::empty());
        assert(run(bs, cond, from, env, fuel) == run(bs, body, cond, e1, (fuel - 1) as nat));
        assert(e2.regs[(n + 7) as u32] == Val::Bool(l[i] as int == r[i] as int));
        if l[i] != r[i] {
            assert(l != r) by {
                if l == r {
                    assert(l[i] == r[i]);
                }
            }
            assert(run(bs, body, cond, e1, (fuel - 1) as nat) == run(bs, (n + 4) as u32, body, e2, (fuel - 2) as nat));
            lemma_merge(lhs, rhs, negate, cur, n, e2, body, (fuel - 2) as nat, false);
            let e9 = run(bs, (n + 4) as u32, body, e2, (fuel - 2) as nat)->Continue_0;
            assert(regs_kept(env, e9, n)) by {
                assert forall|q: u32| q < n && env.regs.dom().contains(q) implies #[trigger] e9.regs[q] == env.regs[q] by {
                    assert(e1.regs[q] == env.regs[q]);
                    assert(e2.regs[q] == e1.regs[q]);
                }
            }
        } else {
            let e3 = exec_insts(e2, body, bs[4].insts);
            assert(bs[4].insts.drop_last().drop_last() =~= Seq::<InstV>::empty());
            assert(run(bs, body, cond, e1, (fuel - 1) as nat) == run(bs, (n + 3) as u32, body, e2, (fuel - 2) as nat));
            assert(run(bs, (n + 3) as u32, body, e2, (fuel - 2) as nat) == run(bs, cond, (n + 3) as u32, e3, (fuel - 3) as nat));
            assert(loop_state(e3, lhs, rhs, n, l, r, i + 1));
            lemma_loop(lhs, rhs, negate, cur, n, e3, (n + 3) as u32, (fuel - 3) as nat, l, r, i + 1);
            let e9 = run(bs, cond, (n + 3) as u32, e3, (fuel - 3) as nat)->Continue_0;
            assert(regs_kept(env, e9, n)) by {
                assert forall|q: u32| q < n && env.regs.dom().contains(q) implies #[trigger] e9.regs[q] == env.regs[q] by {
                    assert(e1.regs[q] == env.regs[q]);
                    assert(e2.regs[q] == e1.regs[q]);
                    assert(e3.regs[q] == e2.regs[q]);
                    assert(e3.regs.dom().contains(q));
                }
            }
        }
    }
}

/// String equality: run from the block being emitted into, with string
/// values in `lhs` and `rhs`, the fragment goes on with `true` in its result
/// register exactly when the two strings have the same bytes (`false` for
/// `!=`), within three blocks per byte and a few more, and leaves every
/// register below `next` as it was.
pub proof fn law_str_eq(lhs: u32, rhs: u32, negate: bool, cur: u32, next: u32, env: Env, from: u32, l: Seq<u8>, r: Seq<u8>)
    requires
        lhs < next,
        rhs < next,
        cur < next,
        next + 11 <= u32::MAX,
        env.regs[lhs] == Val::Bytes(l),
        env.regs[rhs] == Val::Bytes(r),
    ensures
        run(str_eq_blocks(lhs, rhs, negate, cur, next), cur, from, env, 3 * l.len() + 5) matches Outcome::Continue(e2)
            && e2.regs[str_eq_result(negate, next)] == Val::Bool((l == r) != negate) && regs_kept(env, e2, next),
{
    let n = next;
    let bs = str_eq_blocks(lhs, rhs, negate, cur, n);
    lemma_labels(lhs, rhs, negate, cur, n);
    reveal_with_fuel(exec_insts, 4);
    let fuel = 3 * l.len() + 5;
    let e0 = exec_insts(env, from, bs[0].insts);
    assert(bs[0].insts.drop_last().drop_last().drop_last() =~= Seq::<InstV>::empty());
    assert(e0.regs[(n + 2) as u32] == Val::Bool(l.len() == r.len()));
    if l.len() != r.len() {
        assert(l != r);
        assert(run(bs, cur, from, env, fuel) == run(bs, (n + 4) as u32, cur, e0, (fuel - 1) as nat));
        lemma_merge(lhs, rhs, negate, cur, n, e0, cur, (fuel - 1) as nat, false);
        let e9 = run(bs, (n + 4) as u32, cur, e0, (fuel - 1) as nat)->Continue_0;
        assert(regs_kept(env, e9, n)) by {
            assert forall|q: u32| q < n && env.regs.dom().contains(q) implies #[trigger] e9.regs[q] == env.regs[q] by {
                assert(e0.regs[q] == env.regs[q]);
            }
        }
    } else {
        let e1 = exec_insts(e0, cur, bs[1].insts);
        assert(bs[1].insts.drop_last().drop_last() =~= Seq::<InstV>::empty());
        assert(run(bs, cur, from, env, fuel) == run(bs, n, cur, e0, (fuel - 1) as nat));
        assert(run(bs, n, cur, e0, (fuel - 1) as nat) == run(bs, (n + 1) as u32, n, e1, (fuel - 2) as nat));
        assert(loop_state(e1, lhs, rhs, n, l, r, 0));
        lemma_loop(lhs, rhs, negate, cur, n, e1, n, (fuel - 2) as nat, l, r, 0);
        let e9 = run(bs, (n + 1) as u32, n, e1, (fuel - 2) as nat)->Continue_0;
        assert(regs_kept(env, e9, n)) by {
            assert forall|q: u32| q < n && env.regs.dom().contains(q) implies #[trigger] e9.regs[q] == env.regs[q] by {
                assert(e0.regs[q] == env.regs[q]);
                assert(e1.regs[q] == e0.regs[q]);
                assert(e1.regs.dom().contains(q));
            }
        }
    }
}

// ── Statements: branches and loops around their parts ─────────────────

/// How running a statement's fragment ends.
pub enum Flow {
    /// Control goes on after the fragment.
    Continue(Env),
    /// A part ended the function, or it returned at its end.
    Left,
    /// Control reached the end of a function that has a value to return.
    Unreachable,
    /// The function returned, with this value if any.
    Returned(Option<Val>),
    /// The program stops with this panic.
    Panicked(PanicKind),
    /// No block to go to, a branch on a non-boolean, or the steps ran out.
    Stuck,
}

/// The instructions of a block, in order, where `parts` says what each part
/// does to the registers and slots (`None`: it ended the function).
pub open spec fn exec_parts(env: Env, from: u32, s: Seq<InstV>, parts: spec_fn(u32, Env) -> Option<Env>) -> Option<Env>
    decreases s.len(),
{
    if s.len() == 0 {
        Some(env)
    } else {
        let first = match s[0] {
            InstV::Part(k, _) => parts(k, env),
            i => Some(exec_inst(env, from, i)),
        };
        match first {
            Some(e) => exec_parts(e, from, s.subrange(1, s.len() as int), parts),
            None => None,
        }
    }
}

/// Runs the fragment `bs` from the block `label` for at most `fuel` blocks,
/// its parts doing what `parts` says.
pub open spec fn run_parts(
    bs: Seq<BlockV>,
    label: u32,
    from: u32,
    env: Env,
    fuel: nat,
    parts: spec_fn(u32, Env) -> Option<Env>,
) -> Flow
    decreases fuel,
{
    if fuel == 0 {
        Flow::Stuck
    } else {
        match find_block(bs, label) {
            None => Flow::Stuck,
            Some(b) => match exec_parts(env, from, b.insts, parts) {
                None => Flow::Left,
                Some(e2) => match b.term {
                    Term::Br(t) | Term::Fallthrough(t) => run_parts(bs, t, label, e2, (fuel - 1) as nat, parts),
                    Term::CondBr(c, t, f) => match e2.regs[c] {
                        Val::Bool(true) => run_parts(bs, t, label, e2, (fuel - 1) as nat, parts),
                        Val::Bool(false) => run_parts(bs, f, label, e2, (fuel - 1) as nat, parts),
                        _ => Flow::Stuck,
                    },
                    Term::Panic(k) => Flow::Panicked(k),
                    Term::Continue => Flow::Continue(e2),
                    Term::Ret(v) => Flow::Returned(
                        match v {
                            Some(x) => Some(e2.regs[x]),
                            None => None,
                        },
                    ),
                    Term::FallOff(ret_void) => if ret_void {
                        Flow::Left
                    } else {
                        Flow::Unreachable
                    },
                },
            },
        }
    }
}

/// `if cond then ... else ...`: the condition's part (its value into the
/// register `n`), a test of it, then the `then` part or the `else` part
/// (none when there is no `else`), each falling through to the block after.
/// Labels `n`, `n + 1`, `n + 2` are the two branches and the join.
pub open spec fn if_blocks(cond: u32, then_part: u32, else_part: Option<u32>, cur: u32, n: u32) -> Seq<BlockV> {
    seq![
        BlockV {
            label: cur,
            insts: seq![InstV::Part(cond, n), InstV::IsTrue((n + 1) as u32, n)],
            term: Term::CondBr((n + 1) as u32, n, (n + 1) as u32),
        },
        BlockV { label: n, insts: seq![InstV::Part(then_part, (n + 2) as u32)], term: Term::Fallthrough((n + 2) as u32) },
        BlockV {
            label: (n + 1) as u32,
            insts: match else_part {
                Some(e) => seq![InstV::Part(e, (n + 3) as u32)],
                None => Seq::empty(),
            },
            term: Term::Fallthrough((n + 2) as u32),
        },
        BlockV { label: (n + 2) as u32, insts: Seq::empty(), term: Term::Continue },
    ]
}

/// `for`: the part that sets up the loop variable, then the test block
/// (label `n`: the condition's part, its value into the register `n`, and
/// a test of it), the body block (label `n + 1`: the body, then the step,
/// falling through back to the test) and the block after (label `n + 2`).
pub open spec fn for_blocks(init: u32, cond: u32, body: u32, step: u32, cur: u32, n: u32) -> Seq<BlockV> {
    seq![
        BlockV { label: cur, insts: seq![InstV::Part(init, (n + 2) as u32)], term: Term::Br(n) },
        BlockV {
            label: n,
            insts: seq![InstV::Part(cond, n), InstV::IsTrue((n + 1) as u32, n)],
            term: Term::CondBr((n + 1) as u32, (n + 1) as u32, (n + 2) as u32),
        },
        BlockV {
            label: (n + 1) as u32,
            insts: seq![InstV::Part(body, (n + 2) as u32), InstV::Part(step, (n + 3) as u32)],
            term: Term::Fallthrough(n),
        },
        BlockV { label: (n + 2) as u32, insts: Seq::empty(), term: Term::Continue },
    ]
}

/// The blocks of an `if` (see `if_blocks`).
pub fn if_ir(cond: u32, then_part: u32, else_part: Option<u32>, cur: u32, next: u32) -> (r: Vec<IrBlock>)
    requires
        next + 4 <= u32::MAX,
    ensures
        blocks_v(r@) == if_blocks(cond, then_part, else_part, cur, next),
{
    let n = next;
    let mut out: Vec<IrBlock> = Vec::new();
    let mut b0: Vec<Inst> = Vec::new();
    b0.push(Inst::Part { part: cond, dst: n });
    b0.push(Inst::IsTrue { dst: n + 1, src: n });
    out.push(block(cur, b0, Term::CondBr(n + 1, n, n + 1)));
    let mut b1: Vec<Inst> = Vec::new();
    b1.push(Inst::Part { part: then_part, dst: n + 2 });
    out.push(block(n, b1, Term::Fallthrough(n + 2)));
    let mut b2: Vec<Inst> = Vec::new();
    match else_part {
        Some(e) => b2.push(Inst::Part { part: e, dst: n + 3 }),
        None => {},
    }
    out.push(block(n + 1, b2, Term::Fallthrough(n + 2)));
    out.push(block(n + 2, Vec::new(), Term::Continue));
    assert(blocks_v(out@) =~= if_blocks(cond, then_part, else_part, cur, n)) by {
        let want = if_blocks(cond, then_part, else_part, cur, n);
        assert(out@[0]@.insts =~= want[0].insts);
        assert(out@[1]@.insts =~= want[1].insts);
        assert(out@[2]@.insts =~= want[2].insts);
        assert(out@[3]@.insts =~= want[3].insts);
    }
    out
}

/// The blocks of a `for` loop (see `for_blocks`).
pub fn for_ir(init: u32, cond: u32, body: u32, step: u32, cur: u32, next: u32) -> (r: Vec<IrBlock>)
    requires
        next + 4 <= u32::MAX,
    ensures
        blocks_v(r@) == for_blocks(init, cond, body, step, cur, next),
{
    let n = next;
    let mut out: Vec<IrBlock> = Vec::new();
    let mut b0: Vec<Inst> = Vec::new();
    b0.push(Inst::Part { part: init, dst: n + 2 });
    out.push(block(cur, b0, Term::Br(n)));
    let mut b1: Vec<Inst> = Vec::new();
    b1.push(Inst::Part { part: cond, dst: n });
    b1.push(Inst::IsTrue { dst: n + 1, src: n });
    out.push(block(n, b1, Term::CondBr(n + 1, n + 1, n + 2)));
    let mut b2: Vec<Inst> = Vec::new();
    b2.push(Inst::Part { part: body, dst: n + 2 });
    b2.push(Inst::Part { part: step, dst: n + 3 });
    out.push(block(n + 1, b2, Term::Fallthrough(n)));
    out.push(block(n + 2, Vec::new(), Term::Continue));
    assert(blocks_v(out@) =~= for_blocks(init, cond, body, step, cur, n)) by {
        let want = for_blocks(init, cond, body, step, cur, n);
        assert(out@[0]@.insts =~= want[0].insts);
        assert(out@[1]@.insts =~= want[1].insts);
        assert(out@[2]@.insts =~= want[2].insts);
        assert(out@[3]@.insts =~= want[3].insts);
    }
    out
}

/// What a part that may end the function leaves: the flow after it.
pub open spec fn after_part(r: Option<Env>) -> Flow {
    match r {
        Some(e) => Flow::Continue(e),
        None => Flow::Left,
    }
}

/// An `if` runs its condition's part once, then exactly one branch: the
/// `then` part when the condition is true, else the `else` part (or
/// nothing), and goes on after it unless that part ended the function.
pub proof fn law_if(
    cond: u32,
    then_part: u32,
    else_part: Option<u32>,
    cur: u32,
    next: u32,
    env: Env,
    from: u32,
    parts: spec_fn(u32, Env) -> Option<Env>,
)
    requires
        cur < next,
        next + 4 <= u32::MAX,
    ensures
        ({
            let out = run_parts(if_blocks(cond, then_part, else_part, cur, next), cur, from, env, 3, parts);
            match parts(cond, env) {
                None => out == Flow::Left,
                Some(e1) => {
                    let b = bool_of(e1.regs[next]);
                    let e2 = set(e1, (next + 1) as u32, Val::Bool(b));
                    if b {
                        out == after_part(parts(then_part, e2))
                    } else {
                        match else_part {
                            Some(k) => out == after_part(parts(k, e2)),
                            None => out == Flow::Continue(e2),
                        }
                    }
                },
            }
        }),
{
    let bs = if_blocks(cond, then_part, else_part, cur, next);
    lemma_labels_4(bs, cur, next);
    let b0 = bs[0].insts;
    let b1 = bs[1].insts;
    let b2 = bs[2].insts;
    assert(b0.subrange(1, 2) =~= seq![InstV::IsTrue((next + 1) as u32, next)]);
    assert(b0.subrange(1, 2).subrange(1, 1) =~= Seq::<InstV>::empty());
    assert(b1.subrange(1, 1) =~= Seq::<InstV>::empty());
    if let Some(k) = else_part {
        assert(b2.subrange(1, 1) =~= Seq::<InstV>::empty());
    }
    reveal_with_fuel(run_parts, 4);
    reveal_with_fuel(exec_parts, 3);
}

/// The first block of a `for` runs the part that sets up the loop and goes
/// to the test.
pub proof fn law_for_entry(
    init: u32,
    cond: u32,
    body: u32,
    step: u32,
    cur: u32,
    next: u32,
    env: Env,
    from: u32,
    fuel: nat,
    parts: spec_fn(u32, Env) -> Option<Env>,
)
    requires
        cur < next,
        next + 4 <= u32::MAX,
    ensures
        ({
            let bs = for_blocks(init, cond, body, step, cur, next);
            run_parts(bs, cur, from, env, fuel + 1, parts) == match parts(init, env) {
                None => Flow::Left,
                Some(e) => run_parts(bs, next, cur, e, fuel, parts),
            }
        }),
{
    let bs = for_blocks(init, cond, body, step, cur, next);
    lemma_labels_4(bs, cur, next);
    assert(bs[0].insts.subrange(1, 1) =~= Seq::<InstV>::empty());
    reveal_with_fuel(exec_parts, 2);
}

/// One turn of a `for` loop from its test: the condition's part runs; when
/// it is false the loop is over and control goes on after it, and when it
/// is true the body runs, then the step, and the loop is back at its test.
pub proof fn law_for_turn(
    init: u32,
    cond: u32,
    body: u32,
    step: u32,
    cur: u32,
    next: u32,
    env: Env,
    from: u32,
    fuel: nat,
    parts: spec_fn(u32, Env) -> Option<Env>,
)
    requires
        cur < next,
        next + 4 <= u32::MAX,
    ensures
        ({
            let bs = for_blocks(init, cond, body, step, cur, next);
            run_parts(bs, next, from, env, fuel + 2, parts) == match parts(cond, env) {
                None => Flow::Left,
                Some(e1) => {
                    let t = bool_of(e1.regs[next]);
                    let e2 = set(e1, (next + 1) as u32, Val::Bool(t));
                    if !t {
                        Flow::Continue(e2)
                    } else {
                        match parts(body, e2) {
                            None => Flow::Left,
                            Some(e3) => match parts(step, e3) {
                                None => Flow::Left,
                                Some(e4) => run_parts(bs, next, (next + 1) as u32, e4, fuel, parts),
                            },
                        }
                    }
                },
            }
        }),
{
    let bs = for_blocks(init, cond, body, step, cur, next);
    lemma_labels_4(bs, cur, next);
    let b1 = bs[1].insts;
    let b2 = bs[2].insts;
    assert(b1.subrange(1, 2) =~= seq![InstV::IsTrue((next + 1) as u32, next)]);
    assert(b1.subrange(1, 2).subrange(1, 1) =~= Seq::<InstV>::empty());
    assert(b2.subrange(1, 2) =~= seq![InstV::Part(step, (next + 3) as u32)]);
    assert(b2.subrange(1, 2).subrange(1, 1) =~= Seq::<InstV>::empty());
    assert(bs[3].insts =~= Seq::<InstV>::empty());
    reveal_with_fuel(run_parts, 3);
    reveal_with_fuel(exec_parts, 3);
}

/// In a fragment of four blocks labelled `cur`, `next`, `next + 1` and
/// `next + 2`, each label finds its block.
proof fn lemma_labels_4(bs: Seq<BlockV>, cur: u32, next: u32)
    requires
        bs.len() == 4,
        cur < next,
        next + 4 <= u32::MAX,
        bs[0].label == cur,
        bs[1].label == next,
        bs[2].label == next + 1,
        bs[3].label == next + 2,
    ensures
        find_block(bs, cur) == Some(bs[0]),
        find_block(bs, next) == Some(bs[1]),
        find_block(bs, (next + 1) as u32) == Some(bs[2]),
        find_block(bs, (next + 2) as u32) == Some(bs[3]),
{
    lemma_find_block(bs, 0);
    lemma_find_block(bs, 1);
    lemma_find_block(bs, 2);
    lemma_find_block(bs, 3);
}

// ── Return ─────────────────────────────────────────────────────────────

/// `return` with `count` values (none, one, or the two of a pair result):
/// each value's part into the registers from `n` on, a pair packed into
/// `n + 2`, then the return.
pub open spec fn return_blocks(count: nat, cur: u32, n: u32) -> Seq<BlockV> {
    if count == 0 {
        seq![BlockV { label: cur, insts: Seq::empty(), term: Term::Ret(None) }]
    } else if count == 1 {
        seq![BlockV { label: cur, insts: seq![InstV::Part(0, n)], term: Term::Ret(Some(n)) }]
    } else {
        seq![
            BlockV {
                label: cur,
                insts: seq![
                    InstV::Part(0, n),
                    InstV::Part(1, (n + 1) as u32),
                    InstV::Pack((n + 2) as u32, n, (n + 1) as u32),
                ],
                term: Term::Ret(Some((n + 2) as u32)),
            },
        ]
    }
}

/// The block of a `return` with `count` values (see `return_blocks`).
pub fn return_ir(count: u32, cur: u32, next: u32) -> (r: Vec<IrBlock>)
    requires
        count <= 2,
        next + 3 <= u32::MAX,
    ensures
        blocks_v(r@) == return_blocks(count as nat, cur, next),
{
    let n = next;
    let mut insts: Vec<Inst> = Vec::new();
    let term = if count == 0 {
        Term::Ret(None)
    } else if count == 1 {
        insts.push(Inst::Part { part: 0, dst: n });
        Term::Ret(Some(n))
    } else {
        insts.push(Inst::Part { part: 0, dst: n });
        insts.push(Inst::Part { part: 1, dst: n + 1 });
        insts.push(Inst::Pack { dst: n + 2, a: n, b: n + 1 });
        Term::Ret(Some(n + 2))
    };
    let mut out: Vec<IrBlock> = Vec::new();
    out.push(block(cur, insts, term));
    assert(blocks_v(out@) =~= return_blocks(count as nat, cur, n)) by {
        assert(out@[0]@.insts =~= return_blocks(count as nat, cur, n)[0].insts);
    }
    out
}

/// A `return` computes its values in order and returns them: nothing for
/// none, the value itself for one, the pair of the two for a pair result.
pub proof fn law_return(count: nat, cur: u32, next: u32, env: Env, from: u32, parts: spec_fn(u32, Env) -> Option<Env>)
    requires
        count <= 2,
        next + 3 <= u32::MAX,
    ensures
        run_parts(return_blocks(count, cur, next), cur, from, env, 1, parts) == (if count == 0 {
            Flow::Returned(None)
        } else if count == 1 {
            match parts(0, env) {
                None => Flow::Left,
                Some(e) => Flow::Returned(Some(e.regs[next])),
            }
        } else {
            match parts(0, env) {
                None => Flow::Left,
                Some(e1) => match parts(1, e1) {
                    None => Flow::Left,
                    Some(e2) => Flow::Returned(
                        Some(Val::Pair(Box::new(e2.regs[next]), Box::new(e2.regs[(next + 1) as u32]))),
                    ),
                },
            }
        }),
{
    let bs = return_blocks(count, cur, next);
    assert(find_block(bs, cur) == Some(bs[0]));
    let i = bs[0].insts;
    if count == 1 {
        assert(i.subrange(1, 1) =~= Seq::<InstV>::empty());
    } else if count == 2 {
        assert(i.subrange(1, 3) =~= seq![InstV::Part(1, (next + 1) as u32), InstV::Pack((next + 2) as u32, next, (next + 1) as u32)]);
        assert(i.subrange(1, 3).subrange(1, 2) =~= seq![InstV::Pack((next + 2) as u32, next, (next + 1) as u32)]);
        assert(i.subrange(1, 3).subrange(1, 2).subrange(1, 1) =~= Seq::<InstV>::empty());
    }
    reveal_with_fuel(exec_parts, 4);
}

// ── Functions ──────────────────────────────────────────────────────────

/// The parts `k .. n`, in order, one each.
pub open spec fn part_seq(k: nat, n: nat) -> Seq<InstV> {
    Seq::new((n - k) as nat, |j: int| InstV::Part((k + j) as u32, 0))
}

/// A function's code: one block holding its parts (the parameters, then
/// the statements of the body), ending as the function's end does.
pub open spec fn func_blocks(n: nat, ret_void: bool) -> Seq<BlockV> {
    seq![BlockV { label: 0, insts: part_seq(0, n), term: Term::FallOff(ret_void) }]
}

/// The parts `k .. n` run in order; `None` when one ends the function.
pub open spec fn parts_in_order(env: Env, k: nat, n: nat, parts: spec_fn(u32, Env) -> Option<Env>) -> Option<Env>
    decreases n - k,
{
    if k >= n {
        Some(env)
    } else {
        match parts(k as u32, env) {
            Some(e) => parts_in_order(e, k + 1, n, parts),
            None => None,
        }
    }
}

/// The blocks of a function with `n` parts (see `func_blocks`).
pub fn func_ir(n: u32, ret_void: bool) -> (r: Vec<IrBlock>)
    ensures
        blocks_v(r@) == func_blocks(n as nat, ret_void),
{
    let mut insts: Vec<Inst> = Vec::new();
    let mut k: u32 = 0;
    while k < n
        invariant
            k <= n,
            insts@.map_values(|i: Inst| i@) =~= part_seq(0, k as nat),
        decreases n - k,
    {
        let ghost before = insts@.map_values(|i: Inst| i@);
        insts.push(Inst::Part { part: k, dst: 0 });
        assert(insts@.map_values(|i: Inst| i@) =~= before.push(InstV::Part(k, 0)));
        k = k + 1;
        assert(before.push(InstV::Part((k - 1) as u32, 0)) =~= part_seq(0, k as nat));
    }
    let mut out: Vec<IrBlock> = Vec::new();
    out.push(block(0, insts, Term::FallOff(ret_void)));
    assert(blocks_v(out@) =~= func_blocks(n as nat, ret_void));
    out
}

proof fn lemma_parts_in_order(env: Env, from: u32, k: nat, n: nat, parts: spec_fn(u32, Env) -> Option<Env>)
    requires
        k <= n <= u32::MAX + 1,
    ensures
        exec_parts(env, from, part_seq(k, n), parts) == parts_in_order(env, k, n, parts),
    decreases n - k,
{
    if k < n {
        let s = part_seq(k, n);
        assert(s[0] == InstV::Part(k as u32, 0));
        assert(s.subrange(1, s.len() as int) =~= part_seq(k + 1, n));
        match parts(k as u32, env) {
            Some(e) => lemma_parts_in_order(e, from, k + 1, n, parts),
            None => {},
        }
    } else {
        assert(part_seq(k, n) =~= Seq::<InstV>::empty());
    }
}

/// A function's code runs its parts in order, the parameters and then the
/// statements of its body; when none of them ends the function, a function
/// without a result returns at its end, and one with a result reaches code
/// that is never reached (the checker's rule that every path returns).
pub proof fn law_function_end(n: nat, ret_void: bool, env: Env, parts: spec_fn(u32, Env) -> Option<Env>)
    requires
        n <= u32::MAX + 1,
    ensures
        run_parts(func_blocks(n, ret_void), 0, 0, env, 1, parts) == match parts_in_order(env, 0, n, parts) {
            None => Flow::Left,
            Some(_) => if ret_void {
                Flow::Left
            } else {
                Flow::Unreachable
            },
        },
{
    lemma_parts_in_order(env, 0, 0, n, parts);
    let bs = func_blocks(n, ret_void);
    assert(find_block(bs, 0) == Some(bs[0]));
}

} // verus!
