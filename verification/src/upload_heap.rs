//! Fixed-capacity circular upload heap shared across frames.
//!
//! The heap hands out byte ranges of a ring buffer for per-frame GPU data.
//! A frame's writes are locked behind a fence when the frame is submitted;
//! a later reservation that would touch a still-locked range records the
//! range's fence as one that must be waited for before the bytes may be
//! reused.  This is the mechanism that keeps the CPU from overwriting
//! bytes the GPU has not finished reading.

use vstd::prelude::*;

verus! {

/// A byte range of the upload heap's backing buffer, final once produced.
#[derive(Copy, Clone, Debug, PartialEq, Eq, Structural)]
pub struct BufferAllocation {
    pub offset: usize,
    pub size: usize,
}

/// A previously submitted frame's in-flight span of the ring buffer.
/// `size` counts bytes along the ring, so the span may wrap past the
/// end of the buffer back to offset zero.
#[derive(Copy, Clone, Debug, PartialEq, Eq, Structural)]
pub struct LockedRange {
    pub fence: u64,
    pub start: usize,
    pub size: usize,
}

/// Distance walked forward along a ring of `cap` bytes to get from
/// position `from` to position `to`.
pub open spec fn ring_dist(cap: int, from: int, to: int) -> int {
    if to >= from {
        to - from
    } else {
        to + cap - from
    }
}

/// Whether byte position `p` lies in the ring span starting at `start`
/// and running `len` bytes forward (possibly wrapping).
pub open spec fn span_contains(cap: int, start: int, len: int, p: int) -> bool {
    0 <= p < cap && ring_dist(cap, start, p) < len
}

/// Whether byte position `p` is one of the bytes of allocation `a`.
pub open spec fn alloc_contains(a: BufferAllocation, p: int) -> bool {
    a.offset <= p < a.offset + a.size
}

/// Whether a locked range and an allocation share at least one byte.
/// Allocations never wrap, locked ranges may.
pub open spec fn range_overlaps_alloc(cap: int, r: LockedRange, a: BufferAllocation) -> bool {
    let range_end = r.start + r.size;
    r.size > 0 && a.size > 0 && if range_end <= cap {
        a.offset < range_end && a.offset + a.size > r.start
    } else {
        a.offset + a.size > r.start || a.offset < range_end - cap
    }
}

/// Whether two (non-wrapping) allocations share at least one byte.
pub open spec fn allocs_overlap(a: BufferAllocation, b: BufferAllocation) -> bool {
    a.size > 0 && b.size > 0 && a.offset < b.offset + b.size && b.offset < a.offset + a.size
}

/// Whether every byte of allocation `a` lies inside locked range `r`.
pub open spec fn alloc_within_range(cap: int, a: BufferAllocation, r: LockedRange) -> bool {
    forall|p: int| alloc_contains(a, p) ==> span_contains(cap, r.start as int, r.size as int, p)
}

/// A power of two: 1, 2, 4, 8, ...
pub open spec fn is_pow2(n: int) -> bool
    decreases n,
{
    if n <= 0 {
        false
    } else if n == 1 {
        true
    } else {
        n % 2 == 0 && is_pow2(n / 2)
    }
}

/// `from` rounded up to the next multiple of `alignment`.
pub open spec fn spec_align_up(from: int, alignment: int) -> int {
    if from % alignment == 0 {
        from
    } else {
        from + alignment - from % alignment
    }
}

/// Addition that stops at the largest `usize` instead of overflowing.
pub open spec fn sat_add(a: int, b: int) -> int {
    if a + b <= usize::MAX {
        a + b
    } else {
        usize::MAX as int
    }
}

/// Overlap of a range and an allocation is exactly sharing a byte.
pub proof fn lemma_range_overlap_iff(cap: int, r: LockedRange, a: BufferAllocation)
    requires
        cap > 0,
        r.start <= cap,
        r.size <= cap,
        a.offset + a.size <= cap,
    ensures
        range_overlaps_alloc(cap, r, a) <==> exists|p: int|
            alloc_contains(a, p) && span_contains(cap, r.start as int, r.size as int, p),
{
    let rs = r.start as int;
    let re = rs + r.size;
    if range_overlaps_alloc(cap, r, a) {
        if re <= cap {
            let p = if a.offset >= rs {
                a.offset as int
            } else {
                rs
            };
            assert(alloc_contains(a, p) && span_contains(cap, rs, r.size as int, p));
        } else {
            if a.offset + a.size > rs {
                let p = if a.offset >= rs {
                    a.offset as int
                } else {
                    rs
                };
                assert(alloc_contains(a, p) && span_contains(cap, rs, r.size as int, p));
            } else {
                let p = a.offset as int;
                assert(alloc_contains(a, p) && span_contains(cap, rs, r.size as int, p));
            }
        }
    }
    if exists|p: int| alloc_contains(a, p) && span_contains(cap, rs, r.size as int, p) {
        let p = choose|p: int| alloc_contains(a, p) && span_contains(cap, rs, r.size as int, p);
        assert(range_overlaps_alloc(cap, r, a));
    }
}

/// A byte of an allocation that does not overlap a locked range is
/// outside that range.
pub proof fn lemma_no_overlap_no_shared_byte(cap: int, r: LockedRange, b: BufferAllocation, p: int)
    requires
        cap > 0,
        r.start <= cap,
        r.size <= cap,
        b.offset + b.size <= cap,
        !range_overlaps_alloc(cap, r, b),
        alloc_contains(b, p),
    ensures
        !span_contains(cap, r.start as int, r.size as int, p),
{
    lemma_range_overlap_iff(cap, r, b);
}

/// Allocations of a submitted frame sit inside that frame's locked range,
/// and a fresh reservation never overlaps a locked range that is still
/// tracked; together the two keep allocations of different in-flight
/// frames from ever sharing a byte of the ring.
pub proof fn lemma_no_cross_frame_overlap(
    cap: int,
    r: LockedRange,
    a: BufferAllocation,
    b: BufferAllocation,
)
    requires
        cap > 0,
        r.start <= cap,
        r.size <= cap,
        a.offset + a.size <= cap,
        b.offset + b.size <= cap,
        alloc_within_range(cap, a, r),
        !range_overlaps_alloc(cap, r, b),
    ensures
        !allocs_overlap(a, b),
{
    if allocs_overlap(a, b) {
        let p = if a.offset >= b.offset {
            a.offset as int
        } else {
            b.offset as int
        };
        assert(alloc_contains(a, p));
        assert(alloc_contains(b, p));
        assert(span_contains(cap, r.start as int, r.size as int, p));
        lemma_no_overlap_no_shared_byte(cap, r, b, p);
    }
}

/// Ring distance grows one byte at a time inside a non-wrapping segment
/// that stays within one turn of the ring.
pub proof fn lemma_segment_dist(cap: int, f: int, offset: int, size: int, p: int)
    requires
        cap > 0,
        0 <= f <= cap,
        0 <= offset,
        offset + size <= cap,
        offset <= p < offset + size,
        ring_dist(cap, f, offset) + size <= cap,
    ensures
        ring_dist(cap, f, p) == ring_dist(cap, f, offset) + (p - offset),
{
}

/// Ring distance at the end of a non-wrapping segment that stays within
/// one turn of the ring.
pub proof fn lemma_segment_end(cap: int, f: int, offset: int, size: int)
    requires
        cap > 0,
        0 <= f <= cap,
        0 <= offset,
        0 <= size,
        offset + size <= cap,
        ring_dist(cap, f, offset) + size < cap,
    ensures
        ring_dist(cap, f, offset + size) == ring_dist(cap, f, offset) + size,
{
}

/// Two allocations whose ring-distance intervals from the frame start
/// do not meet share no byte.
pub proof fn lemma_travel_disjoint(cap: int, f: int, a: BufferAllocation, b: BufferAllocation)
    requires
        cap > 0,
        0 <= f <= cap,
        a.offset + a.size <= cap,
        b.offset + b.size <= cap,
        ring_dist(cap, f, a.offset as int) + a.size <= ring_dist(cap, f, b.offset as int),
        ring_dist(cap, f, b.offset as int) + b.size <= cap,
    ensures
        !allocs_overlap(a, b),
{
    if allocs_overlap(a, b) {
        let p = if a.offset >= b.offset {
            a.offset as int
        } else {
            b.offset as int
        };
        assert(alloc_contains(a, p));
        assert(alloc_contains(b, p));
        lemma_segment_dist(cap, f, a.offset as int, a.size as int, p);
        lemma_segment_dist(cap, f, b.offset as int, b.size as int, p);
        assert(false);
    }
}

/// Rounding up to an alignment boundary lands on a multiple of the
/// alignment, at most one alignment step ahead.
pub proof fn lemma_align_up_properties(from: int, alignment: int)
    requires
        0 <= from,
        1 <= alignment,
    ensures
        spec_align_up(from, alignment) % alignment == 0,
        from <= spec_align_up(from, alignment) < from + alignment,
{
    let r = from % alignment;
    assert(0 <= r < alignment) by (nonlinear_arith)
        requires
            1 <= alignment,
            0 <= from,
            r == from % alignment,
    {}
    if r != 0 {
        assert((from + alignment - r) % alignment == 0) by (nonlinear_arith)
            requires
                1 <= alignment,
                0 <= from,
                r == from % alignment,
                r != 0,
        {}
    }
}

/// A smaller power of two divides a larger one.
pub proof fn lemma_pow2_divides(small: int, large: int)
    requires
        is_pow2(small),
        is_pow2(large),
        small <= large,
    ensures
        large % small == 0,
    decreases large,
{
    if small == large {
        vstd::arithmetic::div_mod::lemma_mod_self_0(small);
    } else if small == 1 {
        vstd::arithmetic::div_mod::lemma_mod_multiples_basic(large, 1);
    } else {
        let a = large / 2;
        let b = small / 2;
        lemma_pow2_divides(b, a);
        vstd::arithmetic::div_mod::lemma_fundamental_div_mod(large, 2);
        vstd::arithmetic::div_mod::lemma_fundamental_div_mod(small, 2);
        vstd::arithmetic::div_mod::lemma_fundamental_div_mod(a, b);
        let q = a / b;
        assert(a == b * q);
        assert(2 * (b * q) == (2 * b) * q) by (nonlinear_arith) {}
        assert(large == q * small) by (nonlinear_arith)
            requires
                large == 2 * a,
                small == 2 * b,
                a == b * q,
        {}
        vstd::arithmetic::div_mod::lemma_mod_multiples_basic(q, small);
    }
}

/// Whatever is aligned to a multiple of `small` stays aligned to
/// `small` itself.
pub proof fn lemma_aligned_to_divisor(offset: int, small: int, large: int)
    requires
        1 <= small,
        1 <= large,
        0 <= offset,
        offset % large == 0,
        large % small == 0,
    ensures
        offset % small == 0,
{
    vstd::arithmetic::div_mod::lemma_fundamental_div_mod(offset, large);
    vstd::arithmetic::div_mod::lemma_fundamental_div_mod(large, small);
    let qo = offset / large;
    let q2 = large / small;
    assert(offset == (small * q2) * qo);
    assert((small * q2) * qo == (q2 * qo) * small) by (nonlinear_arith) {}
    vstd::arithmetic::div_mod::lemma_mod_multiples_basic(q2 * qo, small);
}

/// Ring distance travelled by one reservation: the alignment skip plus
/// the allocation itself, or the jump over the buffer tail on wrap.
pub open spec fn reserve_travel(cap: int, cursor: int, size: int, alignment: int) -> int {
    let aligned = spec_align_up(cursor, alignment);
    if aligned + size > cap {
        size + cap - cursor
    } else {
        aligned + size - cursor
    }
}

/// The locked ranges that survive a reservation: those the allocation
/// does not touch, oldest first, in their original order.
pub open spec fn surviving_ranges(ranges: Seq<LockedRange>, cap: int, a: BufferAllocation) -> Seq<
    LockedRange,
>
    decreases ranges.len(),
{
    if ranges.len() == 0 {
        Seq::empty()
    } else {
        let rest = surviving_ranges(ranges.drop_first(), cap, a);
        if range_overlaps_alloc(cap, ranges.first(), a) {
            rest
        } else {
            seq![ranges.first()] + rest
        }
    }
}

/// The fences of the locked ranges a reservation retires, oldest first.
pub open spec fn retired_fences(ranges: Seq<LockedRange>, cap: int, a: BufferAllocation) -> Seq<
    u64,
>
    decreases ranges.len(),
{
    if ranges.len() == 0 {
        Seq::empty()
    } else {
        let rest = retired_fences(ranges.drop_first(), cap, a);
        if range_overlaps_alloc(cap, ranges.first(), a) {
            seq![ranges.first().fence] + rest
        } else {
            rest
        }
    }
}

impl LockedRange {
    /// Whether this in-flight range would be touched by the allocation.
    pub fn contains_allocation(&self, allocation: &BufferAllocation, capacity: usize) -> (b: bool)
        requires
            0 < capacity <= usize::MAX / 2,
            self.start <= capacity,
            self.size <= capacity,
            allocation.offset + allocation.size <= capacity,
        ensures
            b == range_overlaps_alloc(capacity as int, *self, *allocation),
    {
        if self.size == 0 || allocation.size == 0 {
            return false;
        }
        let allocation_end = allocation.offset + allocation.size;
        let range_end = self.start + self.size;
        if range_end <= capacity {
            allocation.offset < range_end && allocation_end > self.start
        } else {
            allocation_end > self.start || allocation.offset < range_end - capacity
        }
    }
}

/// Overwrite `dst[offset ..]` with the given bytes, leaving the rest of
/// the buffer as it was.
fn copy_into(dst: &mut Vec<u8>, offset: usize, bytes: &Vec<u8>)
    requires
        offset + bytes@.len() <= old(dst)@.len(),
    ensures
        final(dst)@.len() == old(dst)@.len(),
        final(dst)@.subrange(offset as int, offset + bytes@.len()) == bytes@,
        forall|j: int|
            0 <= j < old(dst)@.len() && !(offset <= j < offset + bytes@.len())
                ==> final(dst)@[j] == old(dst)@[j],
{
    let n = dst.len();
    let mut i: usize = 0;
    #[verifier::loop_isolation(false)]
    while i < bytes.len()
        invariant
            i <= bytes@.len(),
            dst@.len() == n,
            dst@.len() == old(dst)@.len(),
            forall|j: int| 0 <= j < i ==> dst@[offset + j] == bytes@[j],
            forall|j: int|
                0 <= j < dst@.len() && !(offset <= j < offset + i) ==> dst@[j] == old(dst)@[j],
        decreases bytes@.len() - i,
    {
        let b = bytes[i];
        dst[i + offset] = b;
        i += 1;
    }
    proof {
        assert(dst@.subrange(offset as int, offset + bytes@.len()) =~= bytes@);
    }
}

/// Fixed-size circular upload heap.  `data` models the persistently
/// mapped backing store; the surrounding application mirrors it into the
/// GPU-visible buffer named `buffer_name` and performs the actual fence
/// waits for every fence recorded in `waited_fences`.
pub struct UploadHeap {
    /// Name of the GPU-side backing buffer, chosen by the caller.
    pub buffer_name: u32,
    /// Ring capacity in bytes, fixed for the heap's lifetime.
    pub capacity: usize,
    /// The staged bytes of the ring.
    pub data: Vec<u8>,
    /// Next candidate write position; persists across frames.
    pub buffer_cursor: usize,
    /// Bytes of payload copied in since the last `reset`.
    pub data_pushed_counter: usize,
    /// Ring distance consumed since the last `reset`, alignment included.
    pub buffer_usage_counter: usize,
    /// Cursor position when the current frame started.
    pub frame_start_cursor: usize,
    /// In-flight spans of earlier frames, oldest first.
    pub locked_ranges: Vec<LockedRange>,
    /// Fences that must be waited for before writing newly reserved space.
    pub waited_fences: Vec<u64>,
    /// Ring distance consumed since the frame start cursor was last moved.
    pub frame_travel: Ghost<int>,
    /// Every allocation handed out since the frame start cursor was last moved.
    pub frame_allocs: Ghost<Seq<BufferAllocation>>,
}

impl UploadHeap {
    pub open spec fn cap(&self) -> int {
        self.capacity as int
    }

    pub open spec fn frame_start(&self) -> int {
        self.frame_start_cursor as int
    }

    pub open spec fn ranges_wf(&self) -> bool {
        forall|i: int|
            0 <= i < self.locked_ranges@.len() ==> (#[trigger] self.locked_ranges@[i]).start
                <= self.capacity && self.locked_ranges@[i].size <= self.capacity
    }

    /// The bookkeeping that makes ring reuse sound while a frame stays
    /// within capacity: the cursor sits `frame_travel` ring bytes past the
    /// frame start, every allocation of the frame lies inside the
    /// travelled span, and the allocations sit one after another.
    pub open spec fn frame_wf(&self) -> bool {
        &&& self.frame_travel@ >= 0
        &&& (self.frame_travel@ < self.cap() ==> ring_dist(
            self.cap(),
            self.frame_start(),
            self.buffer_cursor as int,
        ) == self.frame_travel@)
        &&& (self.frame_travel@ <= self.cap() ==> forall|i: int|
            0 <= i < self.frame_allocs@.len() ==> (#[trigger] self.frame_allocs@[i]).offset
                + self.frame_allocs@[i].size <= self.cap() && ring_dist(
                self.cap(),
                self.frame_start(),
                self.frame_allocs@[i].offset as int,
            ) + self.frame_allocs@[i].size <= self.frame_travel@)
        &&& (self.frame_travel@ < self.cap() ==> forall|i: int, j: int|
            0 <= i < j < self.frame_allocs@.len() ==> ring_dist(
                self.cap(),
                self.frame_start(),
                (#[trigger] self.frame_allocs@[i]).offset as int,
            ) + self.frame_allocs@[i].size <= ring_dist(
                self.cap(),
                self.frame_start(),
                (#[trigger] self.frame_allocs@[j]).offset as int,
            ))
    }

    pub open spec fn wf(&self) -> bool {
        &&& 0 < self.capacity <= usize::MAX / 2
        &&& self.data@.len() == self.capacity
        &&& self.buffer_cursor <= self.capacity
        &&& self.frame_start_cursor <= self.capacity
        &&& self.ranges_wf()
        &&& self.frame_wf()
    }

    /// A fresh heap over a zeroed backing store.
    pub fn new(buffer_name: u32, capacity: usize) -> (heap: UploadHeap)
        requires
            0 < capacity <= usize::MAX / 2,
        ensures
            heap.wf(),
            heap.buffer_name == buffer_name,
            heap.capacity == capacity,
            heap.data@.len() == capacity,
            forall|i: int| 0 <= i < capacity ==> heap.data@[i] == 0u8,
            heap.buffer_cursor == 0,
            heap.data_pushed_counter == 0,
            heap.buffer_usage_counter == 0,
            heap.frame_start_cursor == 0,
            heap.locked_ranges@ == Seq::<LockedRange>::empty(),
            heap.waited_fences@ == Seq::<u64>::empty(),
            heap.frame_travel@ == 0,
            heap.frame_allocs@ == Seq::<BufferAllocation>::empty(),
    {
        let mut data: Vec<u8> = Vec::new();
        let mut i: usize = 0;
        while i < capacity
            invariant
                i <= capacity,
                data@.len() == i,
                forall|j: int| 0 <= j < i ==> data@[j] == 0u8,
            decreases capacity - i,
        {
            data.push(0u8);
            i += 1;
        }
        UploadHeap {
            buffer_name,
            capacity,
            data,
            buffer_cursor: 0,
            data_pushed_counter: 0,
            buffer_usage_counter: 0,
            frame_start_cursor: 0,
            locked_ranges: Vec::new(),
            waited_fences: Vec::new(),
            frame_travel: Ghost(0),
            frame_allocs: Ghost(Seq::empty()),
        }
    }

    /// Name of the GPU-side backing buffer this heap stages for.
    pub fn buffer_name(&self) -> (out: u32)
        ensures
            out == self.buffer_name,
    {
        self.buffer_name
    }

    /// Start-of-frame validation and counter reset.  A previous frame
    /// whose logical usage exceeded the capacity is a sizing bug the
    /// caller must rule out before calling; the cursor itself persists
    /// so the ring keeps its position across frames.
    pub fn reset(&mut self)
        requires
            old(self).wf(),
            old(self).buffer_usage_counter <= old(self).capacity,
        ensures
            final(self).wf(),
            *final(self) == (UploadHeap {
                data_pushed_counter: 0,
                buffer_usage_counter: 0,
                ..*old(self)
            }),
    {
        self.data_pushed_counter = 0;
        self.buffer_usage_counter = 0;
    }

    /// Advance the cursor to the next alignment boundary and hand out
    /// `size` bytes there; wrap to offset zero instead when the tail of
    /// the buffer is too short, so no allocation ever spans the boundary.
    /// Locked ranges touched by the allocation are retired, their fences
    /// appended to `waited_fences` for the caller to wait on.
    #[verifier::rlimit(50)]
    pub fn reserve_space(&mut self, size: usize, alignment: usize) -> (a: BufferAllocation)
        requires
            old(self).wf(),
            size <= old(self).capacity,
            1 <= alignment <= old(self).capacity,
            is_pow2(alignment as int),
        ensures
            final(self).wf(),
            final(self).buffer_name == old(self).buffer_name,
            final(self).capacity == old(self).capacity,
            final(self).data == old(self).data,
            final(self).data_pushed_counter == old(self).data_pushed_counter,
            final(self).frame_start_cursor == old(self).frame_start_cursor,
            a.size == size,
            a.offset + a.size <= final(self).capacity,
            a.offset as int % alignment as int == 0,
            ({
                let aligned = spec_align_up(old(self).buffer_cursor as int, alignment as int);
                if aligned + size > old(self).cap() {
                    a.offset == 0
                } else {
                    a.offset as int == aligned
                }
            }),
            final(self).buffer_cursor == a.offset + a.size,
            final(self).buffer_usage_counter as int == sat_add(
                old(self).buffer_usage_counter as int,
                reserve_travel(old(self).cap(), old(self).buffer_cursor as int, size as int, alignment as int),
            ),
            final(self).frame_travel@ == old(self).frame_travel@ + reserve_travel(
                old(self).cap(),
                old(self).buffer_cursor as int,
                size as int,
                alignment as int,
            ),
            final(self).frame_allocs@ == old(self).frame_allocs@.push(a),
            final(self).locked_ranges@ == surviving_ranges(
                old(self).locked_ranges@,
                old(self).cap(),
                a,
            ),
            final(self).waited_fences@ == old(self).waited_fences@ + retired_fences(
                old(self).locked_ranges@,
                old(self).cap(),
                a,
            ),
            forall|i: int|
                0 <= i < final(self).locked_ranges@.len() ==> !range_overlaps_alloc(
                    final(self).cap(),
                    #[trigger] final(self).locked_ranges@[i],
                    a,
                ),
            final(self).frame_travel@ <= final(self).cap() ==> forall|i: int|
                0 <= i < old(self).frame_allocs@.len() ==> !allocs_overlap(
                    #[trigger] old(self).frame_allocs@[i],
                    a,
                ),
    {
        let ghost cap = self.cap();
        let ghost f = self.frame_start();
        let ghost t0 = self.frame_travel@;
        let pre_alignment_cursor = self.buffer_cursor;

        // Move to the next alignment boundary.
        let rem = self.buffer_cursor % alignment;
        let aligned = if rem == 0 {
            self.buffer_cursor
        } else {
            self.buffer_cursor + (alignment - rem)
        };
        proof {
            lemma_align_up_properties(pre_alignment_cursor as int, alignment as int);
            assert(aligned as int == spec_align_up(pre_alignment_cursor as int, alignment as int));
        }

        // Wrap to offset zero when the tail is too short for the request.
        let should_invalidate = aligned > self.capacity - size;
        let offset = if should_invalidate {
            0
        } else {
            aligned
        };
        self.buffer_cursor = offset + size;

        // Track total ring usage, the alignment skip included.
        let used = if should_invalidate {
            size + (self.capacity - pre_alignment_cursor)
        } else {
            self.buffer_cursor - pre_alignment_cursor
        };
        self.buffer_usage_counter = if self.buffer_usage_counter <= usize::MAX - used {
            self.buffer_usage_counter + used
        } else {
            usize::MAX
        };

        let allocation = BufferAllocation { offset, size };
        self.frame_travel = Ghost(t0 + used as int);
        self.frame_allocs = Ghost(self.frame_allocs@.push(allocation));

        proof {
            let t1 = t0 + used as int;
            let pre = pre_alignment_cursor as int;
            let al = spec_align_up(pre, alignment as int);
            let d_new = ring_dist(cap, f, offset as int);
            assert(used as int == reserve_travel(cap, pre, size as int, alignment as int));
            if t1 <= cap {
                // The frame had not wrapped past its start yet, so the
                // cursor distance was exact.
                if t0 < cap {
                    assert(ring_dist(cap, f, pre) == t0);
                } else {
                    assert(t0 == cap && used == 0 && size == 0);
                }
                if size > 0 || t1 < cap {
                    // The new allocation begins exactly where the frame's
                    // travel so far ends, alignment skip included.
                    if !should_invalidate {
                        if pre >= f {
                            assert(d_new == t0 + (al - pre));
                        } else {
                            if offset < f {
                                assert(d_new == t0 + (al - pre));
                            } else {
                                // Crossing the frame start would need
                                // more travel than one turn of the ring.
                                assert(t1 >= cap + size);
                                assert(size == 0 && t1 == cap);
                                assert(false);
                            }
                        }
                    } else {
                        if f == 0 {
                            assert(t1 == size + cap);
                            assert(false);
                        } else if pre >= f {
                            assert(d_new == cap - f);
                            assert(d_new == t0 + (cap - pre));
                        } else {
                            assert(t1 == 2 * cap - f + size);
                            assert(false);
                        }
                    }
                    assert(d_new == t0 + (used - size));
                    assert(d_new + size == t1);
                }
                if t1 < cap {
                    // The cursor lands one allocation past the travel
                    // distance recorded so far.
                    lemma_segment_end(cap, f, offset as int, size as int);
                    assert(ring_dist(cap, f, offset + size) == t1);
                }
                // A reservation in a frame that still fits cannot touch
                // any earlier reservation of the same frame.
                assert forall|i: int|
                    0 <= i < old(self).frame_allocs@.len() implies !allocs_overlap(
                    #[trigger] old(self).frame_allocs@[i],
                    allocation,
                ) by {
                    if size > 0 {
                        let prev = old(self).frame_allocs@[i];
                        lemma_travel_disjoint(cap, f, prev, allocation);
                    }
                }
            }
        }

        // Retire every in-flight range the allocation touches, oldest
        // first; the caller must wait on each retired fence before the
        // returned bytes are written.
        let mut kept: Vec<LockedRange> = Vec::new();
        let mut evicted: Vec<u64> = Vec::new();
        let mut idx: usize = 0;
        proof {
            assert(self.locked_ranges@.skip(0) =~= self.locked_ranges@);
            assert(kept@ + surviving_ranges(self.locked_ranges@, cap, allocation)
                =~= surviving_ranges(self.locked_ranges@, cap, allocation));
            assert(evicted@ + retired_fences(self.locked_ranges@, cap, allocation)
                =~= retired_fences(self.locked_ranges@, cap, allocation));
        }
        #[verifier::loop_isolation(false)]
        while idx < self.locked_ranges.len()
            invariant
                idx <= self.locked_ranges@.len(),
                surviving_ranges(self.locked_ranges@, cap, allocation) == kept@
                    + surviving_ranges(self.locked_ranges@.skip(idx as int), cap, allocation),
                retired_fences(self.locked_ranges@, cap, allocation) == evicted@
                    + retired_fences(self.locked_ranges@.skip(idx as int), cap, allocation),
                forall|k: int|
                    0 <= k < kept@.len() ==> (#[trigger] kept@[k]).start <= self.capacity
                        && kept@[k].size <= self.capacity && !range_overlaps_alloc(
                        cap,
                        kept@[k],
                        allocation,
                    ),
            decreases self.locked_ranges@.len() - idx,
        {
            let r = self.locked_ranges[idx];
            let ghost rem = self.locked_ranges@.skip(idx as int);
            proof {
                assert(rem.first() == r);
                assert(rem.drop_first() =~= self.locked_ranges@.skip(idx as int + 1));
            }
            if r.contains_allocation(&allocation, self.capacity) {
                evicted.push(r.fence);
                proof {
                    assert(retired_fences(rem, cap, allocation) == seq![r.fence]
                        + retired_fences(self.locked_ranges@.skip(idx as int + 1), cap, allocation));
                    assert(evicted@ + retired_fences(
                        self.locked_ranges@.skip(idx as int + 1),
                        cap,
                        allocation,
                    ) =~= retired_fences(self.locked_ranges@, cap, allocation));
                }
            } else {
                kept.push(r);
                proof {
                    assert(surviving_ranges(rem, cap, allocation) == seq![r]
                        + surviving_ranges(self.locked_ranges@.skip(idx as int + 1), cap, allocation));
                    assert(kept@ + surviving_ranges(
                        self.locked_ranges@.skip(idx as int + 1),
                        cap,
                        allocation,
                    ) =~= surviving_ranges(self.locked_ranges@, cap, allocation));
                }
            }
            idx += 1;
        }
        proof {
            let all = self.locked_ranges@;
            assert(all.skip(all.len() as int) =~= Seq::<LockedRange>::empty());
            assert(kept@ + surviving_ranges(all.skip(all.len() as int), cap, allocation) =~= kept@);
            assert(evicted@ + retired_fences(all.skip(all.len() as int), cap, allocation)
                =~= evicted@);
        }
        self.locked_ranges = kept;
        self.waited_fences.append(&mut evicted);

        allocation
    }

    /// Reserve space and copy `bytes` into it.
    pub fn push_data(&mut self, bytes: &Vec<u8>, alignment: usize) -> (a: BufferAllocation)
        requires
            old(self).wf(),
            bytes@.len() <= old(self).capacity,
            1 <= alignment <= old(self).capacity,
            is_pow2(alignment as int),
        ensures
            final(self).wf(),
            final(self).buffer_name == old(self).buffer_name,
            final(self).capacity == old(self).capacity,
            final(self).frame_start_cursor == old(self).frame_start_cursor,
            a.size == bytes@.len(),
            a.offset + a.size <= final(self).capacity,
            a.offset as int % alignment as int == 0,
            ({
                let aligned = spec_align_up(old(self).buffer_cursor as int, alignment as int);
                if aligned + bytes@.len() > old(self).cap() {
                    a.offset == 0
                } else {
                    a.offset as int == aligned
                }
            }),
            final(self).buffer_cursor == a.offset + a.size,
            final(self).data_pushed_counter as int == sat_add(
                old(self).data_pushed_counter as int,
                bytes@.len() as int,
            ),
            final(self).buffer_usage_counter as int == sat_add(
                old(self).buffer_usage_counter as int,
                reserve_travel(old(self).cap(), old(self).buffer_cursor as int, bytes@.len() as int, alignment as int),
            ),
            final(self).frame_travel@ == old(self).frame_travel@ + reserve_travel(
                old(self).cap(),
                old(self).buffer_cursor as int,
                bytes@.len() as int,
                alignment as int,
            ),
            final(self).frame_allocs@ == old(self).frame_allocs@.push(a),
            final(self).locked_ranges@ == surviving_ranges(
                old(self).locked_ranges@,
                old(self).cap(),
                a,
            ),
            final(self).waited_fences@ == old(self).waited_fences@ + retired_fences(
                old(self).locked_ranges@,
                old(self).cap(),
                a,
            ),
            forall|i: int|
                0 <= i < final(self).locked_ranges@.len() ==> !range_overlaps_alloc(
                    final(self).cap(),
                    #[trigger] final(self).locked_ranges@[i],
                    a,
                ),
            final(self).frame_travel@ <= final(self).cap() ==> forall|i: int|
                0 <= i < old(self).frame_allocs@.len() ==> !allocs_overlap(
                    #[trigger] old(self).frame_allocs@[i],
                    a,
                ),
            // The staged bytes now hold the payload at the returned
            // offset; everything outside the allocation is untouched.
            final(self).data@.subrange(a.offset as int, a.offset + a.size) == bytes@,
            forall|j: int|
                0 <= j < final(self).data@.len() && !(a.offset <= j < a.offset + a.size)
                    ==> final(self).data@[j] == old(self).data@[j],
    {
        let byte_size = bytes.len();
        let allocation = self.reserve_space(byte_size, alignment);
        copy_into(&mut self.data, allocation.offset, bytes);

        self.data_pushed_counter = if self.data_pushed_counter <= usize::MAX - byte_size {
            self.data_pushed_counter + byte_size
        } else {
            usize::MAX
        };

        proof {
            assert(self.data@.subrange(
                allocation.offset as int,
                allocation.offset + allocation.size,
            ) =~= bytes@);
        }
        allocation
    }

    /// End-of-frame hand-off: one fence now guards everything written
    /// since the previous hand-off, and the frame start cursor catches up
    /// with the write cursor.
    pub fn notify_finished(&mut self, fence: u64)
        requires
            old(self).wf(),
        ensures
            final(self).wf(),
            final(self).buffer_name == old(self).buffer_name,
            final(self).capacity == old(self).capacity,
            final(self).data == old(self).data,
            final(self).data_pushed_counter == old(self).data_pushed_counter,
            final(self).buffer_usage_counter == old(self).buffer_usage_counter,
            final(self).buffer_cursor == old(self).buffer_cursor,
            final(self).waited_fences == old(self).waited_fences,
            final(self).frame_start_cursor == old(self).buffer_cursor,
            final(self).frame_travel@ == 0,
            final(self).frame_allocs@ == Seq::<BufferAllocation>::empty(),
            final(self).locked_ranges@ == old(self).locked_ranges@.push(LockedRange {
                fence,
                start: old(self).frame_start_cursor,
                size: ring_dist(
                    old(self).cap(),
                    old(self).frame_start(),
                    old(self).buffer_cursor as int,
                ) as usize,
            }),
            // While the frame stayed within capacity, the new range
            // covers every allocation the frame was handed.
            old(self).frame_travel@ < old(self).cap() ==> forall|i: int|
                0 <= i < old(self).frame_allocs@.len() ==> alloc_within_range(
                    old(self).cap(),
                    #[trigger] old(self).frame_allocs@[i],
                    final(self).locked_ranges@.last(),
                ),
    {
        let ghost cap = self.cap();
        let ghost f = self.frame_start();
        let range_size = if self.buffer_cursor >= self.frame_start_cursor {
            self.buffer_cursor - self.frame_start_cursor
        } else {
            self.capacity - self.frame_start_cursor + self.buffer_cursor
        };
        let range = LockedRange { fence, start: self.frame_start_cursor, size: range_size };
        self.locked_ranges.push(range);
        self.frame_start_cursor = self.buffer_cursor;
        self.frame_travel = Ghost(0);
        self.frame_allocs = Ghost(Seq::empty());

        proof {
            if old(self).frame_travel@ < cap {
                assert(range_size as int == old(self).frame_travel@);
                assert forall|i: int|
                    0 <= i < old(self).frame_allocs@.len() implies alloc_within_range(
                    cap,
                    #[trigger] old(self).frame_allocs@[i],
                    range,
                ) by {
                    let a = old(self).frame_allocs@[i];
                    assert forall|p: int| alloc_contains(a, p) implies span_contains(
                        cap,
                        range.start as int,
                        range.size as int,
                        p,
                    ) by {
                        lemma_segment_dist(cap, f, a.offset as int, a.size as int, p);
                    }
                }
            }
        }
    }

    /// Copy of the staged bytes of an allocation, for reading data back
    /// out of the ring.
    pub fn read_allocation(&self, a: &BufferAllocation) -> (out: Vec<u8>)
        requires
            self.wf(),
            a.offset + a.size <= self.capacity,
        ensures
            out@ == self.data@.subrange(a.offset as int, a.offset + a.size),
    {
        let mut out: Vec<u8> = Vec::new();
        let mut i: usize = 0;
        #[verifier::loop_isolation(false)]
        while i < a.size
            invariant
                i <= a.size,
                out@.len() == i,
                forall|j: int| 0 <= j < i ==> out@[j] == self.data@[a.offset + j],
            decreases a.size - i,
        {
            out.push(self.data[a.offset + i]);
            i += 1;
        }
        proof {
            assert(out@ =~= self.data@.subrange(a.offset as int, a.offset + a.size));
        }
        out
    }
}

/// Within one frame that stays inside the ring's capacity, no two
/// allocations handed out by the heap share a byte: each reservation
/// begins at or past the ring distance where the previous one ended.
pub proof fn lemma_frame_allocations_disjoint(heap: &UploadHeap, i: int, j: int)
    requires
        heap.wf(),
        heap.frame_travel@ < heap.cap(),
        0 <= i < j < heap.frame_allocs@.len(),
    ensures
        !allocs_overlap(heap.frame_allocs@[i], heap.frame_allocs@[j]),
{
    lemma_travel_disjoint(
        heap.cap(),
        heap.frame_start(),
        heap.frame_allocs@[i],
        heap.frame_allocs@[j],
    );
}

} // verus!
