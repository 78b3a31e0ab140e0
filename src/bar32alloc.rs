use vstd::prelude::*;

use crate::error::AllocError;

verus! {

/// A power of two, in the usual bit form: exactly one bit is set.
pub open spec fn is_power_of_two(x: u32) -> bool {
    x != 0 && x & ((x - 1) as u32) == 0
}

/// The least multiple of `a` that is not below `v`.
pub open spec fn align_up_spec(v: int, a: int) -> int {
    ((v + a - 1) / a) * a
}

/// Rounds `value` up to the next multiple of `alignment`.
fn align_up(value: u32, alignment: u32) -> (r: u64)
    requires
        alignment > 0,
    ensures
        r == align_up_spec(value as int, alignment as int),
        r as int % alignment as int == 0,
        value <= r < value + alignment,
{
    let v: u64 = value as u64;
    let a: u64 = alignment as u64;
    let rem: u64 = v % a;
    proof {
        lemma_align_up_value(v as int, a as int);
    }
    if rem == 0 {
        v
    } else {
        v + (a - rem)
    }
}

proof fn lemma_align_up_value(v: int, a: int)
    requires
        v >= 0,
        a > 0,
    ensures
        align_up_spec(v, a) == if v % a == 0 { v } else { v + (a - v % a) },
        align_up_spec(v, a) % a == 0,
        v <= align_up_spec(v, a) < v + a,
{
    let q = v / a;
    let r = v % a;
    assert(v == q * a + r && 0 <= r < a) by (nonlinear_arith)
        requires
            a > 0,
            q == v / a,
            r == v % a,
    ;
    if r == 0 {
        assert((v + a - 1) / a == q) by (nonlinear_arith)
            requires
                a > 0,
                v == q * a,
        ;
        assert(align_up_spec(v, a) == v);
    } else {
        assert((v + a - 1) / a == q + 1) by (nonlinear_arith)
            requires
                a > 0,
                v == q * a + r,
                0 < r < a,
        ;
        assert((q + 1) * a == q * a + a) by (nonlinear_arith);
        assert(align_up_spec(v, a) == v + (a - r));
    }
    assert(((v + a - 1) / a) * a % a == 0) by (nonlinear_arith)
        requires
            a > 0,
    ;
}

/// Allocates 32-bit memory addresses for PCI BARs, bump style: the cursor
/// only moves forward and nothing is ever handed back.
pub struct PciMemory32Allocator {
    start: u32,
    end: u32,
}

impl PciMemory32Allocator {
    /// The next address that may be handed out.
    pub closed spec fn cursor(&self) -> int {
        self.start as int
    }

    /// One past the last address of the window.
    pub closed spec fn limit(&self) -> int {
        self.end as int
    }

    /// The cursor never passes the end of the window.
    pub open spec fn wf(&self) -> bool {
        self.cursor() <= self.limit() && 0 <= self.cursor() && self.limit() <= u32::MAX
    }

    /// What `allocate_memory_32(size)` returns from this state.
    pub open spec fn allocate_outcome(self, size: u32) -> Result<u32, AllocError> {
        let addr = align_up_spec(self.cursor(), size as int);
        if !is_power_of_two(size) {
            Err(AllocError::InvalidArgument)
        } else if addr + size > self.limit() {
            Err(AllocError::AllocationExhausted)
        } else {
            Ok(addr as u32)
        }
    }

    /// One `allocate_memory_32(size)` call from `before` returned `r` and
    /// left `after`: on success the cursor moves to the end of the region
    /// handed out; on failure nothing changes.
    pub open spec fn allocate_spec(before: Self, size: u32, after: Self, r: Result<u32, AllocError>) -> bool {
        &&& r == before.allocate_outcome(size)
        &&& after.limit() == before.limit()
        &&& match r {
            Ok(addr) => after.cursor() == addr + size,
            Err(_) => after.cursor() == before.cursor(),
        }
    }

    /// The next address that may be handed out.
    pub fn start(&self) -> (r: u32)
        ensures
            r == self.cursor(),
    {
        self.start
    }

    /// One past the last address of the window.
    pub fn end(&self) -> (r: u32)
        ensures
            r == self.limit(),
    {
        self.end
    }

    /// An allocator over the window `[start, end)`.
    pub fn new(start: u32, end: u32) -> (r: Self)
        requires
            start <= end,
        ensures
            r.wf(),
            r.cursor() == start,
            r.limit() == end,
    {
        PciMemory32Allocator { start, end }
    }

    /// Allocates a region for a PCI BAR of the given power-of-two size,
    /// aligned to that size.
    pub fn allocate_memory_32(&mut self, size: u32) -> (r: Result<u32, AllocError>)
        requires
            old(self).wf(),
        ensures
            final(self).wf(),
            Self::allocate_spec(*old(self), size, *final(self), r),
    {
        if size == 0 || size & (size - 1) != 0 {
            return Err(AllocError::InvalidArgument);
        }
        let allocated_address: u64 = align_up(self.start, size);
        if allocated_address + size as u64 > self.end as u64 {
            return Err(AllocError::AllocationExhausted);
        }
        self.start = (allocated_address + size as u64) as u32;
        Ok(allocated_address as u32)
    }
}

/// `steps` consecutive allocations: `states[i]` is the allocator before call
/// `i`, which asks for `sizes[i]` and returns `results[i]`.
pub open spec fn allocation_run(
    states: Seq<PciMemory32Allocator>,
    sizes: Seq<u32>,
    results: Seq<Result<u32, AllocError>>,
) -> bool {
    &&& states.len() == sizes.len() + 1
    &&& results.len() == sizes.len()
    &&& states[0].wf()
    &&& forall|i: int|
        0 <= i < sizes.len() ==> #[trigger] PciMemory32Allocator::allocate_spec(
            states[i],
            sizes[i],
            states[i + 1],
            results[i],
        )
}

proof fn lemma_cursor_monotone(
    states: Seq<PciMemory32Allocator>,
    sizes: Seq<u32>,
    results: Seq<Result<u32, AllocError>>,
    i: int,
    j: int,
)
    requires
        allocation_run(states, sizes, results),
        0 <= i <= j < states.len(),
    ensures
        states[i].cursor() <= states[j].cursor(),
        states[j].limit() == states[0].limit(),
        states[j].cursor() <= states[j].limit(),
    decreases j,
{
    if j > 0 {
        if i < j {
            lemma_cursor_monotone(states, sizes, results, i, j - 1);
        } else {
            lemma_cursor_monotone(states, sizes, results, 0, j - 1);
        }
        let k = j - 1;
        assert(PciMemory32Allocator::allocate_spec(states[k], sizes[k], states[k + 1], results[k]));
        if is_power_of_two(sizes[k]) {
            lemma_align_up_value(states[k].cursor(), sizes[k] as int);
        }
    }
}

/// Over any run of BAR allocations, every address handed out is aligned to
/// its own size and lies in the window, and no two handed-out regions overlap:
/// a later one starts at or after the end of an earlier one.
pub proof fn lemma_allocations_disjoint(
    states: Seq<PciMemory32Allocator>,
    sizes: Seq<u32>,
    results: Seq<Result<u32, AllocError>>,
)
    requires
        allocation_run(states, sizes, results),
    ensures
        forall|i: int|
            0 <= i < results.len() && (#[trigger] results[i]) is Ok ==> {
                let a = results[i]->Ok_0 as int;
                &&& a % sizes[i] as int == 0
                &&& states[0].cursor() <= a
                &&& a + sizes[i] <= states[0].limit()
            },
        forall|i: int, j: int|
            0 <= i < j < results.len() && (#[trigger] results[i]) is Ok && (#[trigger] results[j]) is Ok
                ==> results[i]->Ok_0 + sizes[i] <= results[j]->Ok_0,
{
    assert forall|i: int|
        0 <= i < results.len() && (#[trigger] results[i]) is Ok implies {
            let a = results[i]->Ok_0 as int;
            &&& a % sizes[i] as int == 0
            &&& states[0].cursor() <= a
            &&& a + sizes[i] <= states[0].limit()
        } by {
        lemma_cursor_monotone(states, sizes, results, 0, i);
        lemma_cursor_monotone(states, sizes, results, 0, i + 1);
        assert(PciMemory32Allocator::allocate_spec(states[i], sizes[i], states[i + 1], results[i]));
        lemma_align_up_value(states[i].cursor(), sizes[i] as int);
    }
    assert forall|i: int, j: int|
        0 <= i < j < results.len() && (#[trigger] results[i]) is Ok && (#[trigger] results[j]) is Ok
            implies results[i]->Ok_0 + sizes[i] <= results[j]->Ok_0 by {
        lemma_cursor_monotone(states, sizes, results, i + 1, j);
        assert(PciMemory32Allocator::allocate_spec(states[i], sizes[i], states[i + 1], results[i]));
        assert(PciMemory32Allocator::allocate_spec(states[j], sizes[j], states[j + 1], results[j]));
        lemma_align_up_value(states[j].cursor(), sizes[j] as int);
    }
}

/// What a record of a host bridge's `ranges` table addresses.
#[derive(Clone, Copy, Debug, PartialEq, Eq, Structural)]
pub enum PciRangeType {
    ConfigurationSpace,
    IoSpace,
    Memory32,
    Memory64,
}

/// The range type encoded by the two low bits of a record's first byte.
pub open spec fn range_type_of(value: u8) -> PciRangeType {
    if value == 0 {
        PciRangeType::ConfigurationSpace
    } else if value == 1 {
        PciRangeType::IoSpace
    } else if value == 2 {
        PciRangeType::Memory32
    } else {
        PciRangeType::Memory64
    }
}

impl PciRangeType {
    /// Decodes the two-bit space code of a range record.
    pub fn from(value: u8) -> (r: Self)
        requires
            value <= 3,
        ensures
            r == range_type_of(value),
    {
        match value {
            0 => PciRangeType::ConfigurationSpace,
            1 => PciRangeType::IoSpace,
            2 => PciRangeType::Memory32,
            _ => PciRangeType::Memory64,
        }
    }
}

/// One decoded record of the `ranges` table.
#[derive(Clone, Copy, Debug, PartialEq, Eq, Structural)]
pub struct AddressRange {
    pub kind: PciRangeType,
    pub prefetchable: bool,
    pub bus_address: u64,
    pub host_address: u64,
    pub size: u64,
}

/// Bytes per record of the `ranges` table.
pub const RANGE_RECORD_LEN: usize = 28;

/// 256 to the power `n`.
pub open spec fn pow256(n: nat) -> int
    decreases n,
{
    if n == 0 {
        1
    } else {
        256 * pow256((n - 1) as nat)
    }
}

/// The big-endian number held by the `n` bytes of `b` from `at` on.
pub open spec fn be_value(b: Seq<u8>, at: int, n: nat) -> int
    decreases n,
{
    if n == 0 {
        0
    } else {
        be_value(b, at, (n - 1) as nat) * 256 + b[at + n - 1] as int
    }
}

/// The number of whole records in a `ranges` table; trailing bytes are ignored.
pub open spec fn record_count(b: Seq<u8>) -> int {
    b.len() as int / 28
}

/// Record `i` of a `ranges` table.
pub open spec fn record_at(b: Seq<u8>, i: int) -> AddressRange {
    let at = 28 * i;
    AddressRange {
        kind: range_type_of(b[at] & 3u8),
        prefetchable: b[at] & 0x80u8 != 0,
        bus_address: be_value(b, at + 4, 8) as u64,
        host_address: be_value(b, at + 12, 8) as u64,
        size: be_value(b, at + 20, 8) as u64,
    }
}

/// A record that can serve as the 32-bit BAR window: non-prefetchable memory
/// (32- or 64-bit labelled) that lies wholly below 2^32, so that its end
/// still fits in a `u32`.
pub open spec fn usable_window(r: AddressRange) -> bool {
    &&& !r.prefetchable
    &&& (r.kind == PciRangeType::Memory32 || r.kind == PciRangeType::Memory64)
    &&& r.bus_address + r.size <= u32::MAX
}

/// The largest size among the usable windows of the first `n` records (0 if none).
pub open spec fn best_size(b: Seq<u8>, n: int) -> int
    decreases n, 0int,
{
    if n <= 0 {
        0
    } else if is_leader(b, n - 1) {
        record_at(b, n - 1).size as int
    } else {
        best_size(b, n - 1)
    }
}

/// Record `i` is a usable window larger than every usable one before it.
pub open spec fn is_leader(b: Seq<u8>, i: int) -> bool
    decreases i, 1int,
{
    usable_window(record_at(b, i)) && record_at(b, i).size > best_size(b, i)
}

/// The index of the last leader among the first `n` records: the first record
/// of the largest usable size. `-1` when there is none.
pub open spec fn chosen(b: Seq<u8>, n: int) -> int
    decreases n,
{
    if n <= 0 {
        -1
    } else if is_leader(b, n - 1) {
        n - 1
    } else {
        chosen(b, n - 1)
    }
}

proof fn lemma_best_is_chosen(b: Seq<u8>, n: int)
    requires
        0 <= n,
    ensures
        -1 <= chosen(b, n) < n,
        chosen(b, n) == -1 <==> best_size(b, n) == 0,
        chosen(b, n) >= 0 ==> best_size(b, n) == record_at(b, chosen(b, n)).size
            && is_leader(b, chosen(b, n)),
    decreases n,
{
    if n > 0 {
        lemma_best_is_chosen(b, n - 1);
        assert(best_size(b, n - 1) >= 0);
    }
}

/// The window that range selection settles on is the first usable record of
/// the largest size: it is usable, no usable record is larger, and every
/// usable record before it is smaller.
pub proof fn lemma_chosen_is_largest(b: Seq<u8>, n: int)
    requires
        0 <= n,
    ensures
        chosen(b, n) >= 0 ==> usable_window(record_at(b, chosen(b, n))),
        forall|i: int|
            0 <= i < n && usable_window(#[trigger] record_at(b, i)) ==> record_at(b, i).size <= best_size(b, n),
        chosen(b, n) >= 0 ==> forall|i: int|
            0 <= i < chosen(b, n) && usable_window(#[trigger] record_at(b, i)) ==> record_at(b, i).size
                < record_at(b, chosen(b, n)).size,
    decreases n,
{
    lemma_best_is_chosen(b, n);
    if n > 0 {
        lemma_chosen_is_largest(b, n - 1);
        lemma_best_is_chosen(b, n - 1);
    }
}

/// Reads the big-endian `u64` held by `bytes[at..at + 8]`.
fn read_be_u64(bytes: &[u8], at: usize) -> (r: u64)
    requires
        at + 8 <= bytes@.len(),
    ensures
        r == be_value(bytes@, at as int, 8),
{
    let len: usize = bytes.len();
    let mut v: u64 = 0;
    let mut k: usize = 0;
    proof {
        reveal_with_fuel(pow256, 9);
    }
    assert(pow256(8) == 0x1_0000_0000_0000_0000int);
    while k < 8
        invariant
            k <= 8,
            at + 8 <= bytes@.len(),
            len == bytes@.len(),
            v as int == be_value(bytes@, at as int, k as nat),
            v < pow256(k as nat),
            pow256(8) == 0x1_0000_0000_0000_0000int,
        decreases 8 - k,
    {
        let byte: u8 = bytes[at + k];
        proof {
            lemma_pow256_monotone(k as nat + 1, 8);
            assert((v as int) * 256 + (byte as int) < pow256(k as nat) * 256) by (nonlinear_arith)
                requires
                    v < pow256(k as nat),
                    byte < 256,
            ;
        }
        v = v * 256 + byte as u64;
        k = k + 1;
    }
    v
}

proof fn lemma_pow256_monotone(i: nat, j: nat)
    requires
        i <= j,
    ensures
        pow256(i) <= pow256(j),
        pow256(i) >= 1,
    decreases j,
{
    if j > i {
        lemma_pow256_monotone(i, (j - 1) as nat);
    } else if i > 0 {
        lemma_pow256_monotone((i - 1) as nat, (i - 1) as nat);
    }
}

/// Decodes record `i` of a `ranges` table.
pub fn parse_range(bytes: &[u8], i: usize) -> (r: AddressRange)
    requires
        i < record_count(bytes@),
    ensures
        r == record_at(bytes@, i as int),
{
    let len: usize = bytes.len();
    assert(i * 28 + 28 <= len) by (nonlinear_arith)
        requires
            i < len as int / 28,
    ;
    let at: usize = i * RANGE_RECORD_LEN;
    let head: u8 = bytes[at];
    assert(head & 3 <= 3) by (bit_vector);
    AddressRange {
        kind: PciRangeType::from(head & 3),
        prefetchable: head & 0x80 != 0,
        bus_address: read_be_u64(bytes, at + 4),
        host_address: read_be_u64(bytes, at + 12),
        size: read_be_u64(bytes, at + 20),
    }
}

impl PciMemory32Allocator {
    /// Builds the allocator from the raw `ranges` table of a PCI host bridge.
    /// The window is the usable record of the largest size, the first of them
    /// on a tie. Fails when no record is usable, or when the selected one is
    /// not identity-mapped: bus and host addresses must coincide.
    pub fn from_ranges(bytes: &[u8]) -> (r: Result<Self, AllocError>)
        ensures
            r is Ok <==> best_size(bytes@, record_count(bytes@)) > 0 && record_at(
                bytes@,
                chosen(bytes@, record_count(bytes@)),
            ).bus_address == record_at(bytes@, chosen(bytes@, record_count(bytes@))).host_address,
            r is Err ==> r == Err::<Self, AllocError>(AllocError::ConfigurationError),
            r is Ok ==> {
                let j = chosen(bytes@, record_count(bytes@));
                let w = record_at(bytes@, j);
                &&& 0 <= j < record_count(bytes@)
                &&& usable_window(w)
                &&& forall|i: int|
                    0 <= i < record_count(bytes@) && usable_window(#[trigger] record_at(bytes@, i))
                        ==> record_at(bytes@, i).size <= w.size
                &&& forall|i: int|
                    0 <= i < j && usable_window(#[trigger] record_at(bytes@, i)) ==> record_at(bytes@, i).size
                        < w.size
                &&& r->Ok_0.wf()
                &&& r->Ok_0.cursor() == w.host_address
                &&& r->Ok_0.limit() == w.host_address + w.size
            },
    {
        let count: usize = bytes.len() / RANGE_RECORD_LEN;
        let mut best_bus: u64 = 0;
        let mut best_host: u64 = 0;
        let mut best: u64 = 0;
        let mut i: usize = 0;
        while i < count
            invariant
                count == record_count(bytes@),
                0 <= i <= count,
                best == best_size(bytes@, i as int),
                best > 0 ==> best_bus == record_at(bytes@, chosen(bytes@, i as int)).bus_address
                    && best_host == record_at(bytes@, chosen(bytes@, i as int)).host_address,
            decreases count - i,
        {
            let range = parse_range(bytes, i);
            proof {
                lemma_best_is_chosen(bytes@, i as int);
            }
            if !range.prefetchable
                && (range.kind == PciRangeType::Memory32 || range.kind == PciRangeType::Memory64)
                && range.size > best
                && range.bus_address <= u32::MAX as u64
                && range.size <= u32::MAX as u64 - range.bus_address
            {
                best_bus = range.bus_address;
                best_host = range.host_address;
                best = range.size;
            }
            proof {
                lemma_best_is_chosen(bytes@, i as int + 1);
            }
            i = i + 1;
        }
        proof {
            lemma_best_is_chosen(bytes@, count as int);
            lemma_chosen_is_largest(bytes@, count as int);
        }
        if best == 0 || best_bus != best_host {
            return Err(AllocError::ConfigurationError);
        }
        Ok(PciMemory32Allocator { start: best_host as u32, end: (best_host + best) as u32 })
    }
}

} // verus!
