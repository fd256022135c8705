//! The bookkeeping of the runtime's bump allocator, with memory seen as
//! addresses.  The allocator takes chunks from the system (64 KiB, or more
//! for one large request) and hands out consecutive pieces of the newest
//! chunk; nothing is freed until everything is.  Taking a chunk from the
//! system, and zeroing the bytes handed out, is the caller's part: `alloc`
//! either places a request in the current chunk or names the size of the
//! chunk to take, and `grow` places the request in the chunk that came.

use vstd::prelude::*;

verus! {

/// Bytes taken from the system at a time, unless one request needs more.
pub const CHUNK_SIZE: usize = 65536;

/// `a` is a power of two.
pub open spec fn is_pow2(a: nat) -> bool
    decreases a,
{
    if a == 1 {
        true
    } else if a == 0 || a % 2 == 1 {
        false
    } else {
        is_pow2(a / 2)
    }
}

/// The bytes to skip from `addr` to the next multiple of `a`.
pub open spec fn align_offset(addr: nat, a: nat) -> nat {
    if a == 0 {
        0
    } else {
        ((a - addr % a) % (a as int)) as nat
    }
}

/// The size of the chunk to take for a request of `size` bytes on `align`.
pub open spec fn chunk_for(size: nat, align: nat) -> nat {
    if size + align > CHUNK_SIZE {
        if size + align + 1024 > usize::MAX {
            usize::MAX as nat
        } else {
            size + align + 1024
        }
    } else {
        CHUNK_SIZE as nat
    }
}

/// The runs `[a.0, a.0 + a.1)` and `[b.0, b.0 + b.1)` share no byte.
pub open spec fn disjoint(a: (nat, nat), b: (nat, nat)) -> bool {
    a.1 == 0 || b.1 == 0 || a.0 + a.1 <= b.0 || b.0 + b.1 <= a.0
}

/// The run `a` lies within the run `c`.
pub open spec fn inside(a: (nat, nat), c: (nat, nat)) -> bool {
    c.0 <= a.0 && a.0 + a.1 <= c.0 + c.1
}

/// What one request comes to.
pub enum AllocStep {
    /// The request was placed at this address in the current chunk.
    Placed(usize),
    /// No room: take a chunk of this many bytes and hand it to `grow`.
    NeedChunk(usize),
}

/// The allocator's state: the chunks taken so far (start, size; newest
/// last), the free run at the end of the newest chunk, and, for the proofs,
/// every piece handed out (start, size, and the chunk it lies in).
pub struct Arena {
    chunks: Vec<(usize, usize)>,
    bump: usize,
    remaining: usize,
    pieces: Ghost<Seq<(nat, nat, nat)>>,
}

impl Arena {
    /// The chunks taken so far, newest last.
    pub closed spec fn chunks(&self) -> Seq<(nat, nat)> {
        Seq::new(self.chunks@.len(), |i: int| (self.chunks@[i].0 as nat, self.chunks@[i].1 as nat))
    }

    /// The pieces handed out so far, oldest first: start and size.
    pub closed spec fn pieces(&self) -> Seq<(nat, nat)> {
        Seq::new(self.pieces@.len(), |k: int| (self.pieces@[k].0, self.pieces@[k].1))
    }

    /// The free run at the end of the newest chunk.
    pub closed spec fn free_run(&self) -> (nat, nat) {
        (self.bump as nat, self.remaining as nat)
    }

    /// The chunks do not overlap, the free run is the end of the newest
    /// chunk, every piece lies in its chunk, and no two pieces, nor a piece
    /// and the free run, overlap.
    pub closed spec fn wf(&self) -> bool {
        let cs = self.chunks();
        let ps = self.pieces@;
        &&& self.bump + self.remaining <= usize::MAX
        &&& cs.len() == 0 ==> self.bump == 0 && self.remaining == 0
        &&& cs.len() > 0 ==> cs.last().0 <= self.bump && self.bump + self.remaining == cs.last().0 + cs.last().1
        &&& forall|i: int| 0 <= i < cs.len() ==> cs[i].0 > 0 && #[trigger] cs[i].0 + cs[i].1 <= usize::MAX
        &&& forall|i: int, j: int| 0 <= i < cs.len() && 0 <= j < cs.len() && i != j ==> disjoint(cs[i], cs[j])
        &&& forall|k: int|
            0 <= k < ps.len() ==> (#[trigger] ps[k]).1 == 0 || (ps[k].2 < cs.len() && inside(
                (ps[k].0, ps[k].1),
                cs[ps[k].2 as int],
            ))
        &&& forall|k: int, l: int|
            0 <= k < ps.len() && 0 <= l < ps.len() && k != l ==> disjoint(
                (ps[k].0, ps[k].1),
                (ps[l].0, ps[l].1),
            )
        &&& forall|k: int| 0 <= k < ps.len() ==> disjoint((#[trigger] ps[k].0, ps[k].1), self.free_run())
    }

    /// An allocator that has taken nothing yet.
    pub fn new() -> (r: Arena)
        ensures
            r.wf(),
            r.chunks() == Seq::<(nat, nat)>::empty(),
            r.pieces() == Seq::<(nat, nat)>::empty(),
    {
        let r = Arena { chunks: Vec::new(), bump: 0, remaining: 0, pieces: Ghost(Seq::empty()) };
        assert(r.chunks() =~= Seq::<(nat, nat)>::empty());
        assert(r.pieces() =~= Seq::<(nat, nat)>::empty());
        r
    }
}

/// Where a request of `size` bytes on `align` goes in the free run `run`:
/// after skipping to the alignment, if the rest of the run holds it.
pub open spec fn placement(run: (nat, nat), size: nat, align: nat) -> Option<nat> {
    let off = align_offset(run.0, align);
    if off + size <= run.1 {
        Some(run.0 + off)
    } else {
        None
    }
}

pub proof fn lemma_pow2_pos(a: nat)
    requires
        is_pow2(a),
    ensures
        a >= 1,
    decreases a,
{
    if a != 1 {
        lemma_pow2_pos(a / 2);
    }
}

/// Skipping `align_offset` bytes reaches a multiple of `a`, within `a` bytes.
pub proof fn lemma_align_offset(addr: nat, a: nat)
    requires
        a >= 1,
    ensures
        align_offset(addr, a) < a,
        (addr + align_offset(addr, a)) % a == 0,
{
    let m = addr % a;
    vstd::arithmetic::div_mod::lemma_fundamental_div_mod(addr as int, a as int);
    vstd::arithmetic::div_mod::lemma_mod_bound(addr as int, a as int);
    let q = addr as int / a as int;
    if m == 0 {
        vstd::arithmetic::div_mod::lemma_mod_self_0(a as int);
        assert(align_offset(addr, a) == 0);
        assert(addr == a * q);
        vstd::arithmetic::div_mod::lemma_mod_multiples_basic(q, a as int);
        assert((q * a) % (a as int) == 0);
        assert(a * q == q * a) by (nonlinear_arith);
    } else {
        vstd::arithmetic::div_mod::lemma_small_mod((a - m) as nat, a);
        assert(align_offset(addr, a) == a - m);
        assert(addr + (a - m) == a * (q + 1)) by (nonlinear_arith)
            requires
                addr == a * q + m,
        ;
        vstd::arithmetic::div_mod::lemma_mod_multiples_basic(q + 1, a as int);
        assert(a * (q + 1) == (q + 1) * a) by (nonlinear_arith);
    }
}

/// Runs inside runs that do not overlap do not overlap.
pub proof fn lemma_inside_disjoint(x: (nat, nat), y: (nat, nat), c1: (nat, nat), c2: (nat, nat))
    requires
        inside(x, c1),
        inside(y, c2),
        disjoint(c1, c2),
    ensures
        disjoint(x, y),
{
}

/// The exec `align_offset`.
fn offset_to(addr: usize, align: usize) -> (r: usize)
    requires
        align >= 1,
    ensures
        r as nat == align_offset(addr as nat, align as nat),
{
    let m = addr % align;
    proof {
        lemma_align_offset(addr as nat, align as nat);
        if m == 0 {
            vstd::arithmetic::div_mod::lemma_mod_self_0(align as int);
        } else {
            vstd::arithmetic::div_mod::lemma_small_mod((align - m) as nat, align as nat);
        }
    }
    if m == 0 {
        0
    } else {
        align - m
    }
}

impl Arena {
    /// A request of `size` bytes on `align`: placed in the free run when it
    /// fits there, else the size of the chunk to take.
    fn place(&mut self, size: usize, align: usize) -> (r: AllocStep)
        requires
            old(self).wf(),
            is_pow2(align as nat),
            size + align <= usize::MAX,
        ensures
            final(self).wf(),
            final(self).chunks() == old(self).chunks(),
            match placement(old(self).free_run(), size as nat, align as nat) {
                Some(p) => {
                    &&& r == AllocStep::Placed(p as usize)
                    &&& final(self).pieces() == old(self).pieces().push((p, size as nat))
                },
                None => {
                    &&& r == AllocStep::NeedChunk(chunk_for(size as nat, align as nat) as usize)
                    &&& final(self).pieces() == old(self).pieces()
                    &&& final(self).free_run() == old(self).free_run()
                },
            },
    {
        proof {
            lemma_pow2_pos(align as nat);
            lemma_align_offset(self.bump as nat, align as nat);
        }
        let offset = offset_to(self.bump, align);
        let needed = match offset.checked_add(size) {
            Some(v) => v,
            None => usize::MAX,
        };
        if needed <= self.remaining {
            let ghost old_self = *self;
            let ghost cs = self.chunks();
            let ptr = self.bump + offset;
            let ghost idx: nat = if cs.len() > 0 { (cs.len() - 1) as nat } else { 0 };
            let ghost piece = (ptr as nat, size as nat, idx);
            proof {
                assert(inside((ptr as nat, size as nat), old_self.free_run()));
                assert forall|k: int| 0 <= k < old_self.pieces@.len() implies disjoint(
                    (old_self.pieces@[k].0, old_self.pieces@[k].1),
                    (ptr as nat, size as nat),
                ) by {
                    assert(disjoint((old_self.pieces@[k].0, old_self.pieces@[k].1), old_self.free_run()));
                }
            }
            self.bump = ptr + size;
            self.remaining = self.remaining - needed;
            self.pieces = Ghost(self.pieces@.push(piece));
            proof {
                let ps = self.pieces@;
                assert(self.chunks() =~= cs);
                assert forall|k: int| 0 <= k < ps.len() implies disjoint((#[trigger] ps[k].0, ps[k].1), self.free_run()) by {
                    if k < ps.len() - 1 {
                        assert(ps[k] == old_self.pieces@[k]);
                        assert(disjoint((ps[k].0, ps[k].1), old_self.free_run()));
                    }
                }
                assert forall|k: int, l: int|
                    0 <= k < ps.len() && 0 <= l < ps.len() && k != l implies disjoint(
                    (ps[k].0, ps[k].1),
                    (ps[l].0, ps[l].1),
                ) by {
                    if k == ps.len() - 1 {
                        assert(ps[l] == old_self.pieces@[l]);
                    } else if l == ps.len() - 1 {
                        assert(ps[k] == old_self.pieces@[k]);
                    } else {
                        assert(ps[k] == old_self.pieces@[k]);
                        assert(ps[l] == old_self.pieces@[l]);
                    }
                }
                assert forall|k: int| 0 <= k < ps.len() implies (#[trigger] ps[k]).1 == 0 || (ps[k].2
                    < cs.len() && inside((ps[k].0, ps[k].1), cs[ps[k].2 as int])) by {
                    if k < ps.len() - 1 {
                        assert(ps[k] == old_self.pieces@[k]);
                    }
                }
                assert(self.pieces() =~= old_self.pieces().push((ptr as nat, size as nat)));
            }
            AllocStep::Placed(ptr)
        } else {
            // not enough room: a chunk of 64 KiB, or one sized for this request
            let chunk_size = if size + align > CHUNK_SIZE {
                match size.checked_add(align) {
                    Some(v) => match v.checked_add(1024) {
                        Some(w) => w,
                        None => usize::MAX,
                    },
                    None => usize::MAX,
                }
            } else {
                CHUNK_SIZE
            };
            AllocStep::NeedChunk(chunk_size)
        }
    }

    /// `size` bytes aligned on 8.
    pub fn k_arena_alloc(&mut self, size: usize) -> (r: AllocStep)
        requires
            old(self).wf(),
            size + 8 <= usize::MAX,
        ensures
            final(self).wf(),
            final(self).chunks() == old(self).chunks(),
            match placement(old(self).free_run(), size as nat, 8) {
                Some(p) => {
                    &&& r == AllocStep::Placed(p as usize)
                    &&& final(self).pieces() == old(self).pieces().push((p, size as nat))
                },
                None => {
                    &&& r == AllocStep::NeedChunk(chunk_for(size as nat, 8) as usize)
                    &&& final(self).pieces() == old(self).pieces()
                    &&& final(self).free_run() == old(self).free_run()
                },
            },
            r matches AllocStep::Placed(p) ==> p as nat % 8 == 0 && forall|k: int|
                0 <= k < old(self).pieces().len() ==> disjoint(#[trigger] old(self).pieces()[k], (p as nat, size as nat)),
    {
        proof {
            reveal_with_fuel(is_pow2, 4);
            if placement(self.free_run(), size as nat, 8) is Some {
                law_placed_piece(self, size as nat, 8);
            }
        }
        self.place(size, 8)
    }

    /// `size` bytes aligned on `align`, a power of two.
    pub fn k_arena_alloc_aligned(&mut self, size: usize, align: usize) -> (r: AllocStep)
        requires
            old(self).wf(),
            is_pow2(align as nat),
            size + align <= usize::MAX,
        ensures
            final(self).wf(),
            final(self).chunks() == old(self).chunks(),
            match placement(old(self).free_run(), size as nat, align as nat) {
                Some(p) => {
                    &&& r == AllocStep::Placed(p as usize)
                    &&& final(self).pieces() == old(self).pieces().push((p, size as nat))
                },
                None => {
                    &&& r == AllocStep::NeedChunk(chunk_for(size as nat, align as nat) as usize)
                    &&& final(self).pieces() == old(self).pieces()
                    &&& final(self).free_run() == old(self).free_run()
                },
            },
            r matches AllocStep::Placed(p) ==> p as nat % align as nat == 0 && forall|k: int|
                0 <= k < old(self).pieces().len() ==> disjoint(#[trigger] old(self).pieces()[k], (p as nat, size as nat)),
    {
        proof {
            if placement(self.free_run(), size as nat, align as nat) is Some {
                law_placed_piece(self, size as nat, align as nat);
            }
        }
        self.place(size, align)
    }

    /// Takes the chunk `[data, data + chunk_size)` that the system gave for
    /// the request of `size` bytes on `align` that asked for it, and places
    /// the request at the first aligned address in it.
    pub fn grow(&mut self, data: usize, chunk_size: usize, size: usize, align: usize) -> (r: usize)
        requires
            old(self).wf(),
            is_pow2(align as nat),
            size + align <= usize::MAX,
            chunk_size == chunk_for(size as nat, align as nat),
            data > 0,
            data + chunk_size <= usize::MAX,
            forall|i: int|
                0 <= i < old(self).chunks().len() ==> disjoint(
                    (data as nat, chunk_size as nat),
                    #[trigger] old(self).chunks()[i],
                ),
        ensures
            final(self).wf(),
            final(self).chunks() == old(self).chunks().push((data as nat, chunk_size as nat)),
            r == data + align_offset(data as nat, align as nat),
            r as nat % align as nat == 0,
            final(self).pieces() == old(self).pieces().push((r as nat, size as nat)),
            forall|k: int|
                0 <= k < old(self).pieces().len() ==> disjoint(#[trigger] old(self).pieces()[k], (r as nat, size as nat)),
    {
        proof {
            lemma_pow2_pos(align as nat);
            lemma_align_offset(data as nat, align as nat);
        }
        let ghost old_self = *self;
        let ghost cs0 = self.chunks();
        let ghost idx = cs0.len();
        // the new chunk becomes the free run
        self.chunks.push((data, chunk_size));
        self.bump = data;
        self.remaining = chunk_size;
        let offset = offset_to(data, align);
        let ptr = data + offset;
        let ghost piece = (ptr as nat, size as nat, idx);
        self.bump = ptr + size;
        self.remaining = self.remaining - (offset + size);
        self.pieces = Ghost(self.pieces@.push(piece));
        proof {
            let cs = self.chunks();
            let ps = self.pieces@;
            let c = (data as nat, chunk_size as nat);
            assert(cs =~= cs0.push(c));
            assert forall|i: int, j: int| 0 <= i < cs.len() && 0 <= j < cs.len() && i != j implies disjoint(
                cs[i],
                cs[j],
            ) by {
                if i == idx {
                    assert(disjoint(c, cs0[j]));
                } else if j == idx {
                    assert(disjoint(c, cs0[i]));
                }
            }
            assert forall|k: int| 0 <= k < ps.len() implies disjoint((#[trigger] ps[k].0, ps[k].1), self.free_run()) by {
                if k < ps.len() - 1 {
                    assert(ps[k] == old_self.pieces@[k]);
                    if ps[k].1 > 0 {
                        lemma_inside_disjoint((ps[k].0, ps[k].1), self.free_run(), cs0[ps[k].2 as int], c);
                    }
                }
            }
            assert forall|k: int, l: int|
                0 <= k < ps.len() && 0 <= l < ps.len() && k != l implies disjoint(
                (ps[k].0, ps[k].1),
                (ps[l].0, ps[l].1),
            ) by {
                if k == ps.len() - 1 {
                    assert(ps[l] == old_self.pieces@[l]);
                    if ps[l].1 > 0 && size > 0 {
                        lemma_inside_disjoint((ps[l].0, ps[l].1), (ps[k].0, ps[k].1), cs0[ps[l].2 as int], c);
                    }
                } else if l == ps.len() - 1 {
                    assert(ps[k] == old_self.pieces@[k]);
                    if ps[k].1 > 0 && size > 0 {
                        lemma_inside_disjoint((ps[k].0, ps[k].1), (ps[l].0, ps[l].1), cs0[ps[k].2 as int], c);
                    }
                } else {
                    assert(ps[k] == old_self.pieces@[k]);
                    assert(ps[l] == old_self.pieces@[l]);
                }
            }
            assert forall|k: int| 0 <= k < ps.len() implies (#[trigger] ps[k]).1 == 0 || (ps[k].2 < cs.len()
                && inside((ps[k].0, ps[k].1), cs[ps[k].2 as int])) by {
                if k < ps.len() - 1 {
                    assert(ps[k] == old_self.pieces@[k]);
                }
            }
            assert(self.pieces() =~= old_self.pieces().push((ptr as nat, size as nat)));
            law_grown_piece(&old_self, self, ptr as nat, size as nat, align as nat);
        }
        ptr
    }

    /// Gives back every chunk taken (newest first), for the caller to
    /// return to the system, and starts over empty.
    pub fn k_arena_reset(&mut self) -> (r: Vec<(usize, usize)>)
        requires
            old(self).wf(),
        ensures
            final(self).wf(),
            final(self).chunks() == Seq::<(nat, nat)>::empty(),
            final(self).pieces() == Seq::<(nat, nat)>::empty(),
            r@.len() == old(self).chunks().len(),
            forall|i: int|
                0 <= i < r@.len() ==> (r@[i].0 as nat, r@[i].1 as nat) == old(self).chunks()[r@.len() - 1 - i],
    {
        let ghost cs = self.chunks();
        let mut out: Vec<(usize, usize)> = Vec::new();
        let mut k: usize = self.chunks.len();
        while k > 0
            invariant
                k <= self.chunks@.len() == cs.len(),
                cs == self.chunks(),
                out@.len() == cs.len() - k,
                forall|i: int|
                    0 <= i < out@.len() ==> (#[trigger] out@[i].0 as nat, out@[i].1 as nat) == cs[cs.len() - 1 - i],
            decreases k,
        {
            k -= 1;
            out.push(self.chunks[k]);
        }
        self.chunks = Vec::new();
        self.bump = 0;
        self.remaining = 0;
        self.pieces = Ghost(Seq::empty());
        assert(self.chunks() =~= Seq::<(nat, nat)>::empty());
        assert(self.pieces() =~= Seq::<(nat, nat)>::empty());
        out
    }
}

/// No two pieces handed out overlap, however many requests came and
/// however many chunks were taken.
pub proof fn law_pieces_never_overlap(a: &Arena, k: int, l: int)
    requires
        a.wf(),
        0 <= k < a.pieces().len(),
        0 <= l < a.pieces().len(),
        k != l,
    ensures
        disjoint(a.pieces()[k], a.pieces()[l]),
{
}

/// Every placed request starts on its alignment.
pub proof fn law_placed_aligned(run: (nat, nat), size: nat, align: nat)
    requires
        is_pow2(align),
        placement(run, size, align) is Some,
    ensures
        placement(run, size, align)->0 % align == 0,
        run.0 <= placement(run, size, align)->0,
        placement(run, size, align)->0 + size <= run.0 + run.1,
{
    lemma_pow2_pos(align);
    lemma_align_offset(run.0, align);
}

/// A request placed in the free run starts on its alignment and shares no
/// byte with any piece handed out before it since the last reset.
pub proof fn law_placed_piece(a: &Arena, size: nat, align: nat)
    requires
        a.wf(),
        is_pow2(align),
        placement(a.free_run(), size, align) is Some,
    ensures
        ({
            let p = placement(a.free_run(), size, align)->0;
            &&& p % align == 0
            &&& forall|k: int| 0 <= k < a.pieces().len() ==> disjoint(#[trigger] a.pieces()[k], (p, size))
        }),
{
    law_placed_aligned(a.free_run(), size, align);
    let p = placement(a.free_run(), size, align)->0;
    assert forall|k: int| 0 <= k < a.pieces().len() implies disjoint(#[trigger] a.pieces()[k], (p, size)) by {
        assert(disjoint((a.pieces@[k].0, a.pieces@[k].1), a.free_run()));
    }
}

/// A request placed in a fresh chunk starts on its alignment and shares no
/// byte with any piece handed out before it since the last reset.
pub proof fn law_grown_piece(before: &Arena, after: &Arena, r: nat, size: nat, align: nat)
    requires
        before.wf(),
        after.wf(),
        is_pow2(align),
        r % align == 0,
        after.pieces() == before.pieces().push((r, size)),
    ensures
        r % align == 0,
        forall|k: int| 0 <= k < before.pieces().len() ==> disjoint(#[trigger] before.pieces()[k], (r, size)),
{
    assert forall|k: int| 0 <= k < before.pieces().len() implies disjoint(#[trigger] before.pieces()[k], (r, size)) by {
        let n = before.pieces().len() as int;
        law_pieces_never_overlap(after, k, n);
        assert(after.pieces()[k] == before.pieces()[k]);
        assert(after.pieces()[n] == (r, size));
    }
}

} // verus!
