use vstd::prelude::*;

use crate::bits::{bit, lemma_count_bounded, lemma_count_disjoint_union, lemma_mask_left_justified,
    lemma_popcount_window, lemma_window_bits, mask_of, popcount};
use crate::error::AllocError;

verus! {

/// Bytes per DMA page.
pub const PAGE_SIZE: usize = 4096;

/// Page slots in the pool: one per bit of the occupancy word.
pub const POOL_PAGES: usize = 64;

/// The occupancy bits of an `n`-page run that starts at slot `off`: slot `k`
/// is bit `63 - k`, so slot 0 is the most significant bit.
pub open spec fn window(n: nat, off: nat) -> u64 {
    mask_of(n) >> (off as u64)
}

/// Slot `k` is taken in the occupancy word `occ`.
pub open spec fn slot_used(occ: u64, k: int) -> bool {
    bit(occ, (63 - k) as u64)
}

/// No bit of the `n`-page run at `off` is set in `occ`.
pub open spec fn window_clear(occ: u64, n: nat, off: nat) -> bool {
    occ & window(n, off) == 0
}

/// The first offset `o` from `from` on, below `64 - n`, whose run is clear;
/// `-1` when there is none.
pub open spec fn first_clear_from(occ: u64, n: nat, from: nat) -> int
    decreases 64 - from,
{
    if n > 64 || from + n >= 64 {
        -1
    } else if window_clear(occ, n, from) {
        from as int
    } else {
        first_clear_from(occ, n, from + 1)
    }
}

/// Where a request for `n` pages lands, first fit: a request above the
/// pool's capacity is invalid; a full count, or no clear run, exhausts it.
pub open spec fn find_result(occ: u64, count: nat, n: nat) -> Result<nat, AllocError> {
    if n > 64 {
        Err(AllocError::InvalidArgument)
    } else if count >= 64 {
        Err(AllocError::AllocationExhausted)
    } else if first_clear_from(occ, n, 0) < 0 {
        Err(AllocError::AllocationExhausted)
    } else {
        Ok(first_clear_from(occ, n, 0) as nat)
    }
}

/// Builds a word with the `n` most significant bits set: the template of an
/// `n`-page run, slid right to the run's first slot.
pub fn generate_mask(n: usize) -> (r: u64)
    requires
        n <= 64,
    ensures
        r == mask_of(n as nat),
        popcount(r) == n,
        forall|j: u64| j < 64 ==> (#[trigger] bit(r, j) <==> 64 - n <= j),
{
    proof {
        lemma_mask_left_justified(n as nat);
    }
    if n == 0 {
        0
    } else {
        u64::MAX << (64 - n) as u64
    }
}

proof fn lemma_first_clear(occ: u64, n: nat, from: nat)
    ensures
        first_clear_from(occ, n, from) >= 0 ==> {
            let o = first_clear_from(occ, n, from);
            &&& from <= o
            &&& o + n < 64
            &&& n <= 64
            &&& window_clear(occ, n, o as nat)
        },
    decreases 64 - from,
{
    if n <= 64 && from + n < 64 && !window_clear(occ, n, from) {
        lemma_first_clear(occ, n, from + 1);
    }
}

proof fn lemma_clear_window_free(occ: u64, n: nat, off: nat)
    requires
        n <= 64,
        off + n < 64,
        window_clear(occ, n, off),
    ensures
        forall|k: int| off <= k < off + n ==> !#[trigger] slot_used(occ, k),
{
    lemma_window_bits(n, off);
    let w = window(n, off);
    assert forall|k: int| off <= k < off + n implies !#[trigger] slot_used(occ, k) by {
        let j: u64 = (63 - k) as u64;
        assert(bit(w, j));
        assert(!bit(occ, j)) by (bit_vector)
            requires
                occ & w == 0,
                bit(w, j),
        ;
    }
}

/// The DMA page pool: 64 page slots from `base_address` on, with one
/// occupancy bit per slot and a count of the pages handed out.
pub struct HalImpl {
    occupied: u64,
    allocated: u8,
    base_address: usize,
}

impl HalImpl {
    /// The occupancy word: slot `k` is taken when bit `63 - k` is set.
    pub closed spec fn occupied(&self) -> u64 {
        self.occupied
    }

    /// The number of pages handed out and not yet given back.
    pub closed spec fn allocated_count(&self) -> nat {
        self.allocated as nat
    }

    /// The physical address of slot 0.
    pub closed spec fn base(&self) -> int {
        self.base_address as int
    }

    /// The count matches the occupancy word bit for bit, and every slot's
    /// address fits in a `usize`.
    pub open spec fn wf(&self) -> bool {
        &&& popcount(self.occupied()) == self.allocated_count()
        &&& 0 <= self.base()
        &&& self.base() + POOL_PAGES * PAGE_SIZE <= usize::MAX
    }

    /// The physical address of slot `off`.
    pub open spec fn page_address(&self, off: int) -> int {
        self.base() + off * PAGE_SIZE
    }

    /// The occupancy word, for diagnostics.
    pub fn occupied_pages(&self) -> (r: u64)
        ensures
            r == self.occupied(),
    {
        self.occupied
    }

    /// The number of pages handed out, for diagnostics.
    pub fn allocated_pages(&self) -> (r: u8)
        ensures
            r == self.allocated_count(),
    {
        self.allocated
    }

    /// The physical address of slot 0.
    pub fn base_address(&self) -> (r: usize)
        ensures
            r == self.base(),
    {
        self.base_address
    }
}

/// An empty pool whose slot 0 starts at `base_address`.
pub fn init_virtio_hal(base_address: usize) -> (r: HalImpl)
    requires
        base_address + POOL_PAGES * PAGE_SIZE <= usize::MAX,
    ensures
        r.wf(),
        r.occupied() == 0,
        r.allocated_count() == 0,
        r.base() == base_address,
{
    assert(popcount(0u64) == 0) by {
        lemma_window_bits(0, 0);
        lemma_popcount_window(0, 0);
        assert(mask_of(0) >> 0u64 == 0u64) by (bit_vector);
    }
    HalImpl { occupied: 0, allocated: 0, base_address }
}

/// Searches, first fit, for `pages` consecutive free slots and returns the
/// first slot of the run. The run found never covers a taken slot.
pub fn find_open_pages(pool: &HalImpl, pages: usize) -> (r: Result<usize, AllocError>)
    requires
        pool.wf(),
    ensures
        match r {
            Ok(off) => find_result(pool.occupied(), pool.allocated_count(), pages as nat)
                == Ok::<nat, AllocError>(off as nat),
            Err(e) => find_result(pool.occupied(), pool.allocated_count(), pages as nat)
                == Err::<nat, AllocError>(e),
        },
        r is Ok ==> forall|k: int|
            r->Ok_0 <= k < r->Ok_0 + pages ==> !#[trigger] slot_used(pool.occupied(), k),
{
    let occupied: u64 = pool.occupied;
    if pages > POOL_PAGES {
        return Err(AllocError::InvalidArgument);
    }
    if pool.allocated >= 64 {
        return Err(AllocError::AllocationExhausted);
    }
    let mask: u64 = generate_mask(pages);
    let last: usize = 64 - pages;
    let mut off: usize = 0;
    while off < last
        invariant
            pages <= 64,
            last == 64 - pages,
            off <= last,
            occupied == pool.occupied(),
            pool.allocated_count() < 64,
            mask == mask_of(pages as nat),
            first_clear_from(occupied, pages as nat, 0) == first_clear_from(
                occupied,
                pages as nat,
                off as nat,
            ),
        decreases last - off,
    {
        let omask: u64 = mask >> off as u64;
        if occupied & omask == 0 {
            proof {
                assert(window_clear(occupied, pages as nat, off as nat));
                assert(first_clear_from(occupied, pages as nat, off as nat) == off);
                lemma_clear_window_free(occupied, pages as nat, off as nat);
            }
            return Ok(off);
        }
        off = off + 1;
    }
    Err(AllocError::AllocationExhausted)
}

/// Writes zero to every byte of `memory`.
fn zero_out_memory(memory: &mut [u8])
    ensures
        final(memory)@ == Seq::new(old(memory)@.len(), |i: int| 0u8),
{
    let len: usize = memory.len();
    let mut i: usize = 0;
    while i < len
        invariant
            len == memory@.len(),
            len == old(memory)@.len(),
            i <= len,
            forall|k: int| 0 <= k < i ==> memory@[k] == 0u8,
        decreases len - i,
    {
        memory[i] = 0;
        i = i + 1;
    }
    assert(memory@ =~= Seq::new(old(memory)@.len(), |i: int| 0u8));
}

/// `dma_alloc(n)` from `before` returned `r` and left `after`: the first-fit
/// run is marked taken and its address handed out twice (physical, and the
/// identical local pointer value); on failure nothing changes.
pub open spec fn alloc_post(
    before: HalImpl,
    n: nat,
    after: HalImpl,
    r: Result<(usize, usize), AllocError>,
) -> bool {
    &&& after.base() == before.base()
    &&& match find_result(before.occupied(), before.allocated_count(), n) {
        Ok(off) => {
            let addr = before.page_address(off as int);
            &&& r == Ok::<(usize, usize), AllocError>((addr as usize, addr as usize))
            &&& after.occupied() == before.occupied() | window(n, off)
            &&& after.allocated_count() == before.allocated_count() + n
        },
        Err(e) => {
            &&& r == Err::<(usize, usize), AllocError>(e)
            &&& after.occupied() == before.occupied()
            &&& after.allocated_count() == before.allocated_count()
        },
    }
}

/// `paddr` is the address of slot `(paddr - base) / PAGE_SIZE`, and the
/// `n`-page run from there lies in the pool, is wholly taken, and `mem_len`
/// is its length in bytes.
pub open spec fn release_valid(pool: HalImpl, paddr: int, n: nat, mem_len: nat) -> bool {
    let off = (paddr - pool.base()) / PAGE_SIZE as int;
    &&& pool.base() <= paddr
    &&& (paddr - pool.base()) % PAGE_SIZE as int == 0
    &&& off < 64
    &&& off + n <= 64
    &&& pool.occupied() & window(n, off as nat) == window(n, off as nat)
    &&& mem_len == n * PAGE_SIZE
}

/// `dma_dealloc(paddr, n, memory)` from `before` returned `r` and left
/// `after`, with `memory` going from `mem_before` to `mem_after`: a valid
/// release clears the run's bits, lowers the count and zeroes the memory;
/// anything else is refused and changes nothing.
pub open spec fn dealloc_post(
    before: HalImpl,
    paddr: int,
    n: nat,
    mem_before: Seq<u8>,
    after: HalImpl,
    mem_after: Seq<u8>,
    r: Result<(), AllocError>,
) -> bool {
    let off = (paddr - before.base()) / PAGE_SIZE as int;
    &&& after.base() == before.base()
    &&& if release_valid(before, paddr, n, mem_before.len()) {
        &&& r == Ok::<(), AllocError>(())
        &&& after.occupied() == before.occupied() & !window(n, off as nat)
        &&& after.allocated_count() == before.allocated_count() - n
        &&& mem_after == Seq::new(mem_before.len(), |i: int| 0u8)
    } else {
        &&& r == Err::<(), AllocError>(AllocError::InvalidArgument)
        &&& after.occupied() == before.occupied()
        &&& after.allocated_count() == before.allocated_count()
        &&& mem_after == mem_before
    }
}

impl HalImpl {
    /// Allocates `pages` contiguous pages, first fit, and returns their
    /// physical address with the (identical) local address.
    pub fn dma_alloc(&mut self, pages: usize) -> (r: Result<(usize, usize), AllocError>)
        requires
            old(self).wf(),
        ensures
            final(self).wf(),
            alloc_post(*old(self), pages as nat, *final(self), r),
    {
        let block_offset = match find_open_pages(self, pages) {
            Ok(off) => off,
            Err(e) => {
                return Err(e);
            },
        };
        proof {
            lemma_first_clear(self.occupied, pages as nat, 0);
        }
        let mask: u64 = generate_mask(pages) >> block_offset as u64;
        proof {
            let occ = self.occupied;
            lemma_count_disjoint_union(occ, mask, 64);
            lemma_popcount_window(pages as nat, block_offset as nat);
            lemma_count_bounded(occ | mask, 64);
        }
        let dma_block: usize = self.base_address + PAGE_SIZE * block_offset;
        self.allocated = self.allocated + pages as u8;
        self.occupied = self.occupied | mask;
        Ok((dma_block, dma_block))
    }

    /// Gives back the `pages`-page run at `paddr` and zeroes `memory`, the
    /// run's bytes, so that nothing of it leaks into a later allocation.
    pub fn dma_dealloc(&mut self, paddr: usize, pages: usize, memory: &mut [u8]) -> (r: Result<
        (),
        AllocError,
    >)
        requires
            old(self).wf(),
        ensures
            final(self).wf(),
            dealloc_post(
                *old(self),
                paddr as int,
                pages as nat,
                old(memory)@,
                *final(self),
                final(memory)@,
                r,
            ),
    {
        if paddr < self.base_address || pages > POOL_PAGES {
            return Err(AllocError::InvalidArgument);
        }
        let delta: usize = paddr - self.base_address;
        if delta % PAGE_SIZE != 0 {
            return Err(AllocError::InvalidArgument);
        }
        let offset: usize = delta / PAGE_SIZE;
        if offset >= POOL_PAGES || offset + pages > POOL_PAGES {
            return Err(AllocError::InvalidArgument);
        }
        let mask: u64 = generate_mask(pages) >> offset as u64;
        if self.occupied & mask != mask || memory.len() != pages * PAGE_SIZE {
            return Err(AllocError::InvalidArgument);
        }
        proof {
            let occ = self.occupied;
            let rest: u64 = occ & !mask;
            assert(rest & mask == 0 && (rest | mask) == occ) by (bit_vector)
                requires
                    occ & mask == mask,
                    rest == occ & !mask,
            ;
            lemma_count_disjoint_union(rest, mask, 64);
            lemma_popcount_window(pages as nat, offset as nat);
        }
        self.occupied = self.occupied & !mask;
        self.allocated = self.allocated - pages as u8;
        zero_out_memory(memory);
        Ok(())
    }

    /// The local pointer value for a device region at `paddr`: memory is
    /// identity-mapped, so it is `paddr` itself.
    pub fn mmio_phys_to_virt(&self, paddr: usize, _size: usize) -> (r: usize)
        ensures
            r == paddr,
    {
        paddr
    }

    /// Makes the buffer at `vaddr` visible to the device and returns its
    /// physical address. The host already sees all guest memory, so there is
    /// nothing to do but translate.
    pub fn share(&self, vaddr: usize) -> (r: usize)
        ensures
            r == vaddr,
    {
        virt_to_phys(vaddr)
    }

    /// Ends the sharing of the buffer at `paddr`: nothing was copied, so
    /// nothing is to be undone.
    pub fn unshare(&self, _paddr: usize) {
    }
}

/// The physical address of the local address `vaddr`: the same value, as
/// memory is identity-mapped.
pub fn virt_to_phys(vaddr: usize) -> (r: usize)
    ensures
        r == vaddr,
{
    vaddr
}

/// Giving back a run right after taking it restores the pool: the
/// release is accepted, the occupancy word and the count are as before, and
/// the released bytes read as zero.
pub proof fn lemma_alloc_dealloc_round_trip(
    before: HalImpl,
    n: nat,
    mid: HalImpl,
    r: Result<(usize, usize), AllocError>,
    mem: Seq<u8>,
    after: HalImpl,
    mem_after: Seq<u8>,
    r2: Result<(), AllocError>,
)
    requires
        before.wf(),
        alloc_post(before, n, mid, r),
        r is Ok,
        mem.len() == n * PAGE_SIZE,
        dealloc_post(mid, r->Ok_0.0 as int, n, mem, after, mem_after, r2),
    ensures
        r2 is Ok,
        after.occupied() == before.occupied(),
        after.allocated_count() == before.allocated_count(),
        mem_after.len() == mem.len(),
        forall|i: int| 0 <= i < mem_after.len() ==> mem_after[i] == 0u8,
{
    let occ = before.occupied();
    lemma_first_clear(occ, n, 0);
    let off = first_clear_from(occ, n, 0) as nat;
    let w = window(n, off);
    let paddr = before.page_address(off as int);
    assert(before.base() <= paddr <= before.base() + POOL_PAGES * PAGE_SIZE) by (nonlinear_arith)
        requires
            paddr == before.base() + off * 4096,
            off < 64,
    ;
    assert((paddr - mid.base()) % 4096 == 0 && (paddr - mid.base()) / 4096 == off as int) by (nonlinear_arith)
        requires
            paddr - mid.base() == off * 4096,
    ;
    assert((occ | w) & w == w && ((occ | w) & !w) == occ) by (bit_vector)
        requires
            occ & w == 0,
    ;
}

/// Whatever the occupancy, a request that would take the number of pages
/// handed out past 64 is refused as exhaustion.
pub proof fn lemma_overcommit_refused(pool: HalImpl, n: nat)
    requires
        pool.wf(),
        n <= 64,
        pool.allocated_count() + n > 64,
    ensures
        find_result(pool.occupied(), pool.allocated_count(), n) == Err::<nat, AllocError>(
            AllocError::AllocationExhausted,
        ),
{
    let occ = pool.occupied();
    lemma_first_clear(occ, n, 0);
    let o = first_clear_from(occ, n, 0);
    if o >= 0 {
        let w = window(n, o as nat);
        lemma_count_disjoint_union(occ, w, 64);
        lemma_popcount_window(n, o as nat);
        lemma_count_bounded(occ | w, 64);
    }
}

} // verus!
