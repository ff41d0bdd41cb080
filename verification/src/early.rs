//! The dual-end bootstrap allocator.
//!
//! One contiguous region `[start, end)` is split into three zones that are
//! laid out left to right: bytes already handed out, free space, and pages
//! already handed out.  Byte allocations advance `b_pos` upward from `start`;
//! page allocations would advance `p_pos` downward from `end`.
//!
//! ```text
//! [ bytes-used | free | pages-used ]
//!  start      b_pos  p_pos       end
//! ```
//!
//! This bootstrap variant serves byte allocations only; every page operation
//! and region extension deliberately answers `Unsupported`.  The documented
//! extension point for a complete variant is `align_down(p_pos - num_pages *
//! PAGE_SIZE, align)` with failure when that address falls below `b_pos`.

use vstd::prelude::*;
use crate::align::{is_power_of_two, spec_align_up, lemma_align_up_props, lemma_pow2_positive};

verus! {

/// Errors reported by the allocator.
///
/// `OutOfMemory` is the one recoverable condition: the two cursors would
/// collide.  `Unsupported` marks a capability this bootstrap variant
/// deliberately does not offer.  Programmer errors are not reported but
/// excluded by precondition: an alignment that is not a power of two, and a
/// deallocation without a matching allocation.  An allocator that was never
/// initialized owns a zero-sized region, so every allocation on it answers
/// `OutOfMemory`.
#[derive(Clone, Copy, Debug, PartialEq, Eq, Structural)]
pub enum AllocError {
    OutOfMemory,
    Unsupported,
}

/// Result of an allocator operation.
pub type AllocResult<T> = Result<T, AllocError>;

/// The mathematical state of an allocator: the four cursors and the count
/// of outstanding byte allocations, as unbounded integers.
pub struct EarlyModel {
    pub start: int,
    pub end: int,
    pub b_pos: int,
    pub p_pos: int,
    pub count: int,
}

impl EarlyModel {
    /// The cursors are ordered and fit the machine word; in particular the
    /// byte region and the page region never overlap.
    pub open spec fn inv(self) -> bool {
        &&& 0 <= self.start <= self.b_pos <= self.p_pos <= self.end <= usize::MAX
        &&& 0 <= self.count
    }

    /// Size of the whole managed region.
    pub open spec fn total_bytes(self) -> int {
        self.end - self.start
    }

    /// Bytes currently claimed by the byte region.
    pub open spec fn used_bytes(self) -> int {
        self.b_pos - self.start
    }

    /// Free bytes between the two regions.
    pub open spec fn available_bytes(self) -> int {
        self.p_pos - self.b_pos
    }

    /// The state right after `initialize(start, size)`.
    pub open spec fn initialized(start: int, size: int) -> EarlyModel {
        EarlyModel { start: start, end: start + size, b_pos: start, p_pos: start + size, count: 0 }
    }

    /// Address the next byte allocation with this alignment would return.
    pub open spec fn alloc_addr(self, align: int) -> int {
        spec_align_up(self.b_pos, align)
    }

    /// Whether a byte allocation of `size` with `align` fits the free zone.
    pub open spec fn can_alloc(self, size: int, align: int) -> bool {
        self.alloc_addr(align) + size <= self.p_pos
    }

    /// The state after a successful byte allocation.
    pub open spec fn after_alloc(self, size: int, align: int) -> EarlyModel {
        EarlyModel {
            start: self.start,
            end: self.end,
            b_pos: self.alloc_addr(align) + size,
            p_pos: self.p_pos,
            count: self.count + 1,
        }
    }

    /// The state after a byte deallocation of `size`.
    ///
    /// The count drops by one; when it reaches zero the whole byte region is
    /// reclaimed, otherwise `b_pos` retracts by `size`, saturating at
    /// `start`.
    pub open spec fn after_dealloc(self, size: int) -> EarlyModel {
        let c = self.count - 1;
        let retracted = if self.b_pos - size >= self.start {
            self.b_pos - size
        } else {
            self.start
        };
        EarlyModel {
            start: self.start,
            end: self.end,
            b_pos: if c == 0 {
                self.start
            } else {
                retracted
            },
            p_pos: self.p_pos,
            count: c,
        }
    }
}

/// The dual-end bootstrap allocator over a page size fixed at compile time.
pub struct EarlyAllocator<const PAGE_SIZE: usize> {
    start: usize,
    end: usize,
    b_pos: usize,
    p_pos: usize,
    count: usize,
}

impl<const PAGE_SIZE: usize> View for EarlyAllocator<PAGE_SIZE> {
    type V = EarlyModel;

    closed spec fn view(&self) -> EarlyModel {
        EarlyModel {
            start: self.start as int,
            end: self.end as int,
            b_pos: self.b_pos as int,
            p_pos: self.p_pos as int,
            count: self.count as int,
        }
    }
}

impl<const PAGE_SIZE: usize> EarlyAllocator<PAGE_SIZE> {
    /// The region invariant holds of every allocator value.
    #[verifier::type_invariant]
    pub open spec fn wf(self) -> bool {
        self@.inv() && self@.count <= usize::MAX
    }

    /// Creates an empty allocator; no allocation can succeed before
    /// `initialize`.
    pub fn new() -> (r: Self)
        ensures
            r@ == EarlyModel::initialized(0, 0),
    {
        EarlyAllocator { start: 0, end: 0, b_pos: 0, p_pos: 0, count: 0 }
    }

    /// Hands the allocator its region `[start, start + size)`.
    ///
    /// Meant to be called exactly once, before any allocation; calling it
    /// again discards all outstanding allocations, which is the caller's
    /// responsibility to rule out.
    pub fn initialize(&mut self, start: usize, size: usize)
        requires
            start + size <= usize::MAX,
        ensures
            final(self)@ == EarlyModel::initialized(start as int, size as int),
    {
        *self = EarlyAllocator {
            start: start,
            end: start + size,
            b_pos: start,
            p_pos: start + size,
            count: 0,
        };
    }

    /// Region extension is deliberately not offered by this variant.
    pub fn add_memory(&mut self, _start: usize, _size: usize) -> (r: AllocResult<()>)
        ensures
            r == AllocResult::<()>::Err(AllocError::Unsupported),
            final(self)@ == old(self)@,
    {
        Err(AllocError::Unsupported)
    }

    /// Allocates `size` bytes aligned to `align` at the low end of the free
    /// zone.
    ///
    /// Returns the aligned address and advances `b_pos` past the new block
    /// exactly when the block fits below `p_pos`; otherwise fails with
    /// `OutOfMemory` and changes nothing.
    pub fn allocate_bytes(&mut self, size: usize, align: usize) -> (r: AllocResult<usize>)
        requires
            is_power_of_two(align),
            old(self)@.count < usize::MAX,
        ensures
            old(self)@.can_alloc(size as int, align as int) ==> ({
                &&& r == AllocResult::<usize>::Ok(old(self)@.alloc_addr(align as int) as usize)
                &&& final(self)@ == old(self)@.after_alloc(size as int, align as int)
            }),
            !old(self)@.can_alloc(size as int, align as int) ==> ({
                &&& r == AllocResult::<usize>::Err(AllocError::OutOfMemory)
                &&& final(self)@ == old(self)@
            }),
            final(self)@.available_bytes() <= old(self)@.available_bytes(),
            final(self)@.p_pos == old(self)@.p_pos,
    {
        proof {
            use_type_invariant(&*self);
            lemma_pow2_positive(align);
            lemma_align_up_props(self.b_pos as int, align as int);
        }
        let rem: usize = self.b_pos % align;
        let pad: usize = if rem == 0 {
            0
        } else {
            align - rem
        };
        let avail: usize = self.p_pos - self.b_pos;
        if pad > avail || size > avail - pad {
            return Err(AllocError::OutOfMemory);
        }
        let addr: usize = self.b_pos + pad;
        *self = EarlyAllocator {
            start: self.start,
            end: self.end,
            b_pos: addr + size,
            p_pos: self.p_pos,
            count: self.count + 1,
        };
        Ok(addr)
    }

    /// Releases a byte allocation of `size` bytes.
    ///
    /// The address is not consulted: the count drops by one, and when it
    /// reaches zero the whole byte region is reclaimed; otherwise `b_pos`
    /// retracts by `size`, saturating at `start`.  Correct reuse of the
    /// retracted space relies on callers freeing in reverse (LIFO) order.
    pub fn deallocate_bytes(&mut self, _addr: usize, size: usize)
        requires
            old(self)@.count >= 1,
        ensures
            final(self)@ == old(self)@.after_dealloc(size as int),
    {
        proof {
            use_type_invariant(&*self);
        }
        let c: usize = self.count - 1;
        let nb: usize = if c == 0 {
            self.start
        } else if self.b_pos >= size && self.b_pos - size >= self.start {
            self.b_pos - size
        } else {
            self.start
        };
        *self = EarlyAllocator {
            start: self.start,
            end: self.end,
            b_pos: nb,
            p_pos: self.p_pos,
            count: c,
        };
    }

    /// Size of the whole managed region.
    pub fn total_bytes(&self) -> (r: usize)
        ensures
            r == self@.total_bytes(),
    {
        proof {
            use_type_invariant(self);
        }
        self.end - self.start
    }

    /// Bytes currently claimed by the byte region.
    pub fn used_bytes(&self) -> (r: usize)
        ensures
            r == self@.used_bytes(),
    {
        proof {
            use_type_invariant(self);
        }
        self.b_pos - self.start
    }

    /// Free bytes between the byte and page regions.
    pub fn available_bytes(&self) -> (r: usize)
        ensures
            r == self@.available_bytes(),
    {
        proof {
            use_type_invariant(self);
        }
        self.p_pos - self.b_pos
    }

    /// Number of byte allocations currently outstanding.
    pub fn count(&self) -> (r: usize)
        ensures
            r == self@.count,
    {
        self.count
    }

    /// Page allocation is deliberately not offered by this bootstrap variant.
    pub fn allocate_pages(&mut self, _num_pages: usize, _align_pow2: usize) -> (r: AllocResult<
        usize,
    >)
        ensures
            r == AllocResult::<usize>::Err(AllocError::Unsupported),
            final(self)@ == old(self)@,
    {
        Err(AllocError::Unsupported)
    }

    /// Page deallocation is deliberately not offered: pages, once allocated,
    /// are never returned for the lifetime of this allocator.
    pub fn deallocate_pages(&mut self, _pos: usize, _num_pages: usize) -> (r: AllocResult<()>)
        ensures
            r == AllocResult::<()>::Err(AllocError::Unsupported),
            final(self)@ == old(self)@,
    {
        Err(AllocError::Unsupported)
    }

    /// Page accounting is deliberately not offered by this bootstrap variant.
    pub fn total_pages(&self) -> (r: AllocResult<usize>)
        ensures
            r == AllocResult::<usize>::Err(AllocError::Unsupported),
    {
        Err(AllocError::Unsupported)
    }

    /// Page accounting is deliberately not offered by this bootstrap variant.
    pub fn used_pages(&self) -> (r: AllocResult<usize>)
        ensures
            r == AllocResult::<usize>::Err(AllocError::Unsupported),
    {
        Err(AllocError::Unsupported)
    }

    /// Page accounting is deliberately not offered by this bootstrap variant.
    pub fn available_pages(&self) -> (r: AllocResult<usize>)
        ensures
            r == AllocResult::<usize>::Err(AllocError::Unsupported),
    {
        Err(AllocError::Unsupported)
    }
}

/// Every request in `reqs` (a sequence of `(size, align)` pairs) fits when
/// the allocations are performed in order from state `m`.
pub open spec fn fits(m: EarlyModel, reqs: Seq<(usize, usize)>) -> bool
    decreases reqs.len(),
{
    if reqs.len() == 0 {
        true
    } else {
        m.can_alloc(reqs[0].0 as int, reqs[0].1 as int) && fits(
            m.after_alloc(reqs[0].0 as int, reqs[0].1 as int),
            reqs.drop_first(),
        )
    }
}

/// The state after performing the byte allocations `reqs` in order.
pub open spec fn run_allocs(m: EarlyModel, reqs: Seq<(usize, usize)>) -> EarlyModel
    decreases reqs.len(),
{
    if reqs.len() == 0 {
        m
    } else {
        run_allocs(m.after_alloc(reqs[0].0 as int, reqs[0].1 as int), reqs.drop_first())
    }
}

/// The addresses the byte allocations `reqs` return, in order.
pub open spec fn alloc_addrs(m: EarlyModel, reqs: Seq<(usize, usize)>) -> Seq<int>
    decreases reqs.len(),
{
    if reqs.len() == 0 {
        Seq::empty()
    } else {
        seq![m.alloc_addr(reqs[0].1 as int)] + alloc_addrs(
            m.after_alloc(reqs[0].0 as int, reqs[0].1 as int),
            reqs.drop_first(),
        )
    }
}

/// Every requested alignment is a power of two.
pub open spec fn aligns_pow2(reqs: Seq<(usize, usize)>) -> bool {
    forall|i: int| 0 <= i < reqs.len() ==> is_power_of_two(#[trigger] reqs[i].1)
}

/// Sum of the requested sizes.
pub open spec fn sum_sizes(reqs: Seq<(usize, usize)>) -> int
    decreases reqs.len(),
{
    if reqs.len() == 0 {
        0
    } else {
        reqs[0].0 + sum_sizes(reqs.drop_first())
    }
}

/// What one fitting run of byte allocations does: the region bounds and the
/// page cursor stay put, the byte cursor advances by at least the sum of the
/// sizes, the count grows by one per request, the free zone never grows, and
/// every returned address is aligned, lies in the consumed zone, and comes
/// before every later block.
pub proof fn lemma_run_allocs(m: EarlyModel, reqs: Seq<(usize, usize)>)
    requires
        m.inv(),
        aligns_pow2(reqs),
        fits(m, reqs),
    ensures
        ({
            let f = run_allocs(m, reqs);
            let addrs = alloc_addrs(m, reqs);
            &&& f.inv()
            &&& f.start == m.start
            &&& f.end == m.end
            &&& f.p_pos == m.p_pos
            &&& f.count == m.count + reqs.len()
            &&& m.b_pos + sum_sizes(reqs) <= f.b_pos
            &&& f.available_bytes() <= m.available_bytes()
            &&& addrs.len() == reqs.len()
            &&& forall|i: int|
                0 <= i < reqs.len() ==> m.b_pos <= #[trigger] addrs[i] && addrs[i] + reqs[i].0
                    <= f.b_pos && addrs[i] % (reqs[i].1 as int) == 0
            &&& forall|i: int, j: int|
                0 <= i < j < reqs.len() ==> #[trigger] addrs[i] + reqs[i].0 <= #[trigger] addrs[j]
        }),
    decreases reqs.len(),
{
    if reqs.len() > 0 {
        let size = reqs[0].0 as int;
        let align = reqs[0].1 as int;
        lemma_pow2_positive(reqs[0].1);
        lemma_align_up_props(m.b_pos, align);
        let m1 = m.after_alloc(size, align);
        let rest = reqs.drop_first();
        lemma_run_allocs(m1, rest);
        let f = run_allocs(m, reqs);
        let addrs = alloc_addrs(m, reqs);
        let rest_addrs = alloc_addrs(m1, rest);
        assert(addrs == seq![m.alloc_addr(align)] + rest_addrs);
        assert forall|i: int|
            0 <= i < reqs.len() implies m.b_pos <= #[trigger] addrs[i] && addrs[i] + reqs[i].0
            <= f.b_pos && addrs[i] % (reqs[i].1 as int) == 0 by {
            if i > 0 {
                assert(addrs[i] == rest_addrs[i - 1]);
                assert(rest[i - 1] == reqs[i]);
            }
        }
        assert forall|i: int, j: int|
            0 <= i < j < reqs.len() implies #[trigger] addrs[i] + reqs[i].0
            <= #[trigger] addrs[j] by {
            if i > 0 {
                assert(addrs[i] == rest_addrs[i - 1]);
                assert(addrs[j] == rest_addrs[j - 1]);
                assert(rest[i - 1] == reqs[i]);
            } else {
                assert(addrs[j] == rest_addrs[j - 1]);
                assert(addrs[0] + reqs[0].0 == m1.b_pos);
            }
        }
    }
}

/// In a fitting sequence of byte allocations, every returned address meets
/// its requested alignment and no two returned blocks overlap.
pub proof fn lemma_byte_allocs_disjoint(m: EarlyModel, reqs: Seq<(usize, usize)>)
    requires
        m.inv(),
        aligns_pow2(reqs),
        fits(m, reqs),
    ensures
        alloc_addrs(m, reqs).len() == reqs.len(),
        forall|i: int|
            0 <= i < reqs.len() ==> #[trigger] alloc_addrs(m, reqs)[i] % (reqs[i].1 as int) == 0,
        forall|i: int, j: int|
            0 <= i < reqs.len() && 0 <= j < reqs.len() && i != j ==> #[trigger] alloc_addrs(
                m,
                reqs,
            )[i] + reqs[i].0 <= #[trigger] alloc_addrs(m, reqs)[j] || alloc_addrs(m, reqs)[j]
                + reqs[j].0 <= alloc_addrs(m, reqs)[i],
{
    lemma_run_allocs(m, reqs);
}

/// After `initialize(start, size)` the whole region is one free byte zone:
/// `total_bytes` is `size`, nothing is used, everything is available.
pub proof fn lemma_initialize_fresh(start: int, size: int)
    requires
        0 <= start,
        0 <= size,
        start + size <= usize::MAX,
    ensures
        ({
            let m = EarlyModel::initialized(start, size);
            &&& m.inv()
            &&& m.total_bytes() == size
            &&& m.used_bytes() == 0
            &&& m.available_bytes() == size
        }),
{
}

/// The byte region and the page region never overlap: in every state that
/// satisfies the allocator invariant, `b_pos <= p_pos`.  The invariant holds
/// of every reachable allocator value, as the type invariant of
/// `EarlyAllocator`.
pub proof fn lemma_regions_disjoint(m: EarlyModel)
    requires
        m.inv(),
    ensures
        m.b_pos <= m.p_pos,
        m.available_bytes() == m.p_pos - m.b_pos,
{
}

/// The state after performing byte deallocations with the given sizes, in
/// order.
pub open spec fn run_deallocs(m: EarlyModel, sizes: Seq<usize>) -> EarlyModel
    decreases sizes.len(),
{
    if sizes.len() == 0 {
        m
    } else {
        run_deallocs(m.after_dealloc(sizes[0] as int), sizes.drop_first())
    }
}

/// The sizes of the requests in `reqs`, in order.
pub open spec fn sizes_of(reqs: Seq<(usize, usize)>) -> Seq<usize> {
    reqs.map_values(|r: (usize, usize)| r.0)
}

/// Deallocating every outstanding allocation drives the count to zero and
/// reclaims the whole byte region.
proof fn lemma_run_deallocs_to_zero(m: EarlyModel, sizes: Seq<usize>)
    requires
        m.inv(),
        m.count == sizes.len(),
        sizes.len() > 0,
    ensures
        ({
            let f = run_deallocs(m, sizes);
            &&& f.inv()
            &&& f.count == 0
            &&& f.start == m.start
            &&& f.end == m.end
            &&& f.b_pos == m.start
            &&& f.p_pos == m.p_pos
        }),
    decreases sizes.len(),
{
    let m1 = m.after_dealloc(sizes[0] as int);
    let rest = sizes.drop_first();
    if sizes.len() > 1 {
        lemma_run_deallocs_to_zero(m1, rest);
    } else {
        assert(rest.len() == 0);
        assert(run_deallocs(m1, rest) == m1);
    }
}

/// LIFO round trip: starting from an empty byte region, performing any
/// fitting sequence of byte allocations and then deallocating them with
/// matching sizes in exact reverse order returns `used_bytes` to zero, and a
/// single following allocation of the total allocated size succeeds.
pub proof fn lemma_lifo_roundtrip(m: EarlyModel, reqs: Seq<(usize, usize)>)
    requires
        m.inv(),
        m.count == 0,
        m.b_pos == m.start,
        reqs.len() > 0,
        aligns_pow2(reqs),
        fits(m, reqs),
    ensures
        ({
            let f = run_deallocs(run_allocs(m, reqs), sizes_of(reqs).reverse());
            &&& f.inv()
            &&& f.used_bytes() == 0
            &&& f.count == 0
            &&& f.can_alloc(sum_sizes(reqs), 1)
        }),
{
    lemma_run_allocs(m, reqs);
    let a = run_allocs(m, reqs);
    let back = sizes_of(reqs).reverse();
    assert(back.len() == reqs.len());
    lemma_run_deallocs_to_zero(a, back);
    let f = run_deallocs(a, back);
    assert(f.alloc_addr(1) == f.b_pos) by {
        assert(f.b_pos % 1int == 0);
    }
}

} // verus!
