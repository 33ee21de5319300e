//! A fixed-size bump allocator (arena) for zero-allocation tick processing.
//!
//! The arena owns one buffer, allocated when it is created. Allocation carves the
//! next region out of it, aligned relative to the start of the buffer, and a reset
//! makes the whole buffer available again.

use vstd::prelude::*;

verus! {

/// The abstract state of an arena: its capacity, the bump offset and the bytes it holds.
pub ghost struct ArenaView {
    pub capacity: nat,
    pub offset: nat,
    pub bytes: Seq<u8>,
}

/// The first offset at or after `offset` whose bits selected by `align - 1` are clear:
/// `(offset + align - 1) & !(align - 1)`.
pub open spec fn aligned_start(offset: usize, align: usize) -> usize {
    ((offset + (align - 1)) as usize) & !((align - 1) as usize)
}

/// Facts on the aligned start: it lies in `[offset, offset + align)` and its bits under
/// `align - 1` are clear, so for a power-of-two `align` it is the first multiple of
/// `align` at or after `offset`.
pub proof fn lemma_aligned_start(offset: usize, align: usize)
    requires
        align >= 1,
        offset + (align - 1) <= usize::MAX,
    ensures
        offset <= aligned_start(offset, align),
        aligned_start(offset, align) <= offset + (align - 1),
        aligned_start(offset, align) & ((align - 1) as usize) == 0,
{
    let m: usize = (align - 1) as usize;
    let x: usize = offset;
    assert(x <= !m) by (bit_vector)
        requires
            x + m <= 0xffff_ffff_ffff_ffffu64,
            x + m == (x + m) as usize,
    ;
    assert(x <= ((x + m) as usize) & !m && ((x + m) as usize) & !m <= x + m
        && (((x + m) as usize) & !m) & m == 0) by (bit_vector)
        requires
            x <= !m,
    ;
}

/// The state after allocating `size` bytes aligned to `align`: the offset moves to the
/// end of the new region.
pub open spec fn after_alloc(v: ArenaView, size: usize, align: usize) -> ArenaView {
    ArenaView {
        capacity: v.capacity,
        offset: (aligned_start(v.offset as usize, align) + size) as nat,
        bytes: v.bytes,
    }
}

/// Two successive allocations never share a byte: the second starts where the first ended
/// or later.
pub proof fn lemma_successive_allocations_disjoint(
    v: ArenaView,
    size1: usize,
    align1: usize,
    size2: usize,
    align2: usize,
)
    requires
        align1 >= 1,
        align2 >= 1,
        v.offset + (align1 - 1) <= usize::MAX,
        aligned_start(v.offset as usize, align1) + size1 <= v.capacity,
        v.capacity <= usize::MAX,
        after_alloc(v, size1, align1).offset + (align2 - 1) <= usize::MAX,
    ensures
        ({
            let first = aligned_start(v.offset as usize, align1);
            let w = after_alloc(v, size1, align1);
            let second = aligned_start(w.offset as usize, align2);
            v.offset <= first && first + size1 <= second
        }),
{
    lemma_aligned_start(v.offset as usize, align1);
    let w = after_alloc(v, size1, align1);
    lemma_aligned_start(w.offset as usize, align2);
}

/// Splits a mutable byte slice at `mid` with `<[u8]>::split_at_mut`. Besides what
/// vstd states of that method (the two halves and how the slice is rebuilt from them),
/// this states that the halves keep their lengths until they are given up, which holds
/// of every `&mut [T]` since a slice's length cannot change through it.
#[verifier::external_body]
fn split_bytes_mut(slice: &mut [u8], mid: usize) -> (r: (&mut [u8], &mut [u8]))
    requires
        mid <= old(slice)@.len(),
    ensures
        r.0@ == old(slice)@.subrange(0, mid as int),
        r.1@ == old(slice)@.subrange(mid as int, old(slice)@.len() as int),
        final(r.0)@.len() == mid,
        final(r.1)@.len() == old(slice)@.len() - mid,
        final(slice)@ == final(r.0)@ + final(r.1)@,
{
    slice.split_at_mut(mid)
}

/// The state after a sequence of allocations, each a `(size, align)` request.
pub open spec fn alloc_run(v: ArenaView, reqs: Seq<(usize, usize)>) -> ArenaView
    decreases reqs.len(),
{
    if reqs.len() == 0 {
        v
    } else {
        let (size, align) = reqs.last();
        after_alloc(alloc_run(v, reqs.drop_last()), size, align)
    }
}

/// The start of the region of the `k`-th request of a sequence of allocations.
pub open spec fn region_start(v: ArenaView, reqs: Seq<(usize, usize)>, k: int) -> int {
    aligned_start(alloc_run(v, reqs.take(k)).offset as usize, reqs[k].1) as int
}

/// Every request of the sequence meets the `requires` of `alloc_bytes` in its turn.
pub open spec fn run_fits(v: ArenaView, reqs: Seq<(usize, usize)>) -> bool {
    forall|k: int|
        0 <= k < reqs.len() ==> {
            &&& (#[trigger] reqs[k]).1 >= 1
            &&& alloc_run(v, reqs.take(k)).offset + (reqs[k].1 - 1) <= usize::MAX
            &&& region_start(v, reqs, k) + reqs[k].0 <= v.capacity
        }
}

proof fn lemma_run_step(v: ArenaView, reqs: Seq<(usize, usize)>, k: int)
    requires
        0 <= k < reqs.len(),
        run_fits(v, reqs),
    ensures
        alloc_run(v, reqs.take(k + 1)).offset == region_start(v, reqs, k) + reqs[k].0,
        alloc_run(v, reqs.take(k)).offset <= region_start(v, reqs, k),
{
    assert(reqs.take(k + 1).drop_last() =~= reqs.take(k));
    assert(reqs.take(k + 1).last() == reqs[k]);
    assert(reqs[k].1 >= 1);
    lemma_aligned_start(alloc_run(v, reqs.take(k)).offset as usize, reqs[k].1);
}

proof fn lemma_run_monotone(v: ArenaView, reqs: Seq<(usize, usize)>, a: int, b: int)
    requires
        0 <= a <= b <= reqs.len(),
        run_fits(v, reqs),
    ensures
        alloc_run(v, reqs.take(a)).offset <= alloc_run(v, reqs.take(b)).offset,
    decreases b - a,
{
    if a < b {
        lemma_run_monotone(v, reqs, a, b - 1);
        lemma_run_step(v, reqs, b - 1);
    }
}

/// All the regions handed out since the arena was in state `v` (after a reset, the
/// whole arena) are pairwise disjoint and lie within the capacity: each starts at or
/// after the end of every earlier one.
pub proof fn lemma_allocations_disjoint(v: ArenaView, reqs: Seq<(usize, usize)>)
    requires
        run_fits(v, reqs),
    ensures
        forall|a: int, b: int|
            #![trigger region_start(v, reqs, a), region_start(v, reqs, b)]
            0 <= a < b < reqs.len() ==> region_start(v, reqs, a) + reqs[a].0 <= region_start(v, reqs, b),
        forall|k: int|
            0 <= k < reqs.len() ==> v.offset <= #[trigger] region_start(v, reqs, k) && region_start(v, reqs, k)
                + reqs[k].0 <= v.capacity,
{
    assert forall|a: int, b: int|
        #![trigger region_start(v, reqs, a), region_start(v, reqs, b)]
        0 <= a < b < reqs.len() implies region_start(v, reqs, a) + reqs[a].0 <= region_start(v, reqs, b) by {
        lemma_run_step(v, reqs, a);
        lemma_run_monotone(v, reqs, a + 1, b);
        lemma_run_step(v, reqs, b);
    }
    assert forall|k: int| 0 <= k < reqs.len() implies v.offset <= #[trigger] region_start(v, reqs, k)
        && region_start(v, reqs, k) + reqs[k].0 <= v.capacity by {
        assert(reqs.take(0) =~= Seq::<(usize, usize)>::empty());
        lemma_run_monotone(v, reqs, 0, k);
        lemma_run_step(v, reqs, k);
    }
}

/// A bump-pointer arena allocator.
pub struct TickArena {
    buf: Vec<u8>,
    offset: usize,
}

impl View for TickArena {
    type V = ArenaView;

    closed spec fn view(&self) -> ArenaView {
        ArenaView { capacity: self.buf@.len(), offset: self.offset as nat, bytes: self.buf@ }
    }
}

impl TickArena {
    /// The arena's invariant: the offset never passes the capacity, and the buffer holds
    /// exactly `capacity` bytes.
    pub open spec fn wf(&self) -> bool {
        self@.offset <= self@.capacity && self@.bytes.len() == self@.capacity
    }

    /// Creates a new arena with the specified capacity in bytes, all zero and all free.
    pub fn new(capacity: usize) -> (r: Self)
        requires
            capacity + 7 <= isize::MAX,
        ensures
            r.wf(),
            r@.capacity == capacity,
            r@.offset == 0,
            r@.bytes.len() == capacity,
            forall|i: int| 0 <= i < capacity ==> #[trigger] r@.bytes[i] == 0,
    {
        let buf: Vec<u8> = vec![0u8; capacity];
        TickArena { buf, offset: 0 }
    }

    /// Whether `alloc_bytes(size, align)` has room: the aligned region of `size` bytes
    /// ends within the capacity.
    pub fn fits(&self, size: usize, align: usize) -> (r: bool)
        requires
            self.wf(),
            align >= 1,
            self@.offset + (align - 1) <= usize::MAX,
        ensures
            r == (aligned_start(self@.offset as usize, align) + size <= self@.capacity),
    {
        let mask: usize = align - 1;
        let start: usize = (self.offset + mask) & !mask;
        size <= self.buf.len() && start <= self.buf.len() - size
    }

    /// Allocates `size` bytes aligned to `align` (relative to the start of the arena)
    /// and returns them. The region starts at the aligned start of the current offset;
    /// the offset moves to its end; no other byte changes.
    pub fn alloc_bytes(&mut self, size: usize, align: usize) -> (r: &mut [u8])
        requires
            old(self).wf(),
            align >= 1,
            old(self)@.offset + (align - 1) <= usize::MAX,
            aligned_start(old(self)@.offset as usize, align) + size <= old(self)@.capacity,
        ensures
            final(self).wf(),
            ({
                let start = aligned_start(old(self)@.offset as usize, align) as int;
                &&& r@.len() == size
                &&& r@ == old(self)@.bytes.subrange(start, start + size)
                &&& final(self)@ == (ArenaView { bytes: final(self)@.bytes, ..after_alloc(old(self)@, size, align) })
                &&& final(self)@.bytes == old(self)@.bytes.subrange(0, start) + final(r)@ + old(
                    self,
                )@.bytes.subrange(start + size, old(self)@.capacity as int)
            }),
    {
        proof {
            lemma_aligned_start(self.offset, align);
        }
        let mask: usize = align - 1;
        let cap = self.buf.len();
        let start: usize = (self.offset + mask) & !mask;
        assert(start == aligned_start(old(self)@.offset as usize, align));
        self.offset = start + size;
        let whole = self.buf.as_mut_slice();
        let (head, rest) = split_bytes_mut(whole, start);
        let (region, tail) = split_bytes_mut(rest, size);
        region
    }

    /// Resets the offset to 0, making the whole buffer available again.
    pub fn reset(&mut self)
        requires
            old(self).wf(),
        ensures
            final(self).wf(),
            final(self)@ == (ArenaView { offset: 0, ..old(self)@ }),
    {
        self.offset = 0;
    }
}

} // verus!
