//! Transient per-frame buffer recording.
//!
//! Streamed buffers carry CPU data now and are copied to the upload heap
//! at upload time; reserved buffers only have a size, the GPU fills them
//! later.  Both are identified by index-based handles into the frame's
//! tables, valid for one frame only.  Data for streamed buffers lives in
//! a bump arena that is bulk-reset once per frame.

use vstd::prelude::*;
use crate::upload_heap::{BufferAllocation, UploadHeap, allocs_overlap, is_pow2};

verus! {

/// Alignment every transient buffer starts with before any binding
/// widens it.
pub const DEFAULT_BUFFER_ALIGNMENT: usize = 4;

/// Alignment given to storage-buffer bindings.
pub const SSBO_ALIGNMENT: usize = 32;

/// The bytes of the backing store an allocation covers.
pub open spec fn bytes_at(data: Seq<u8>, a: BufferAllocation) -> Seq<u8> {
    data.subrange(a.offset as int, a.offset + a.size)
}

/// An element of a prefix is an element of the whole.
pub proof fn lemma_prefix_contains<A>(a: Seq<A>, b: Seq<A>, x: A)
    requires
        a.is_prefix_of(b),
        a.contains(x),
    ensures
        b.contains(x),
{
    let k = choose|k: int| 0 <= k < a.len() && a[k] == x;
    assert(b[k] == x);
}

/// The larger of two integers.
pub open spec fn spec_max(a: int, b: int) -> int {
    if a >= b {
        a
    } else {
        b
    }
}

/// The alignment recorded after a run of widening requests, starting
/// from `init`: each request widens the recorded value to the maximum
/// of itself and the value so far, exactly as
/// `TransientAllocator::imbue_buffer_alignment` does one step at a time.
pub open spec fn widened_alignment(requests: Seq<int>, init: int) -> int
    decreases requests.len(),
{
    if requests.len() == 0 {
        init
    } else {
        spec_max(widened_alignment(requests.drop_last(), init), requests.last())
    }
}

/// The alignment a buffer ends up with is the maximum of every
/// alignment requested against it before upload: it dominates the
/// starting value and every request, and it is one of them, so the
/// recorded alignment is never widened beyond what was asked nor
/// narrowed below any request.
pub proof fn lemma_widened_alignment_is_max(requests: Seq<int>, init: int)
    ensures
        widened_alignment(requests, init) >= init,
        forall|i: int|
            0 <= i < requests.len() ==> widened_alignment(requests, init) >= #[trigger] requests[i],
        widened_alignment(requests, init) == init || exists|i: int|
            0 <= i < requests.len() && widened_alignment(requests, init) == #[trigger] requests[i],
    decreases requests.len(),
{
    if requests.len() > 0 {
        lemma_widened_alignment_is_max(requests.drop_last(), init);
        let rest = widened_alignment(requests.drop_last(), init);
        assert forall|i: int|
            0 <= i < requests.len() implies widened_alignment(requests, init)
            >= #[trigger] requests[i] by {
            if i < requests.len() - 1 {
                assert(requests.drop_last()[i] == requests[i]);
            }
        }
        if widened_alignment(requests, init) == requests.last() {
            assert(requests[requests.len() - 1] == requests.last());
        } else {
            if rest != init {
                let i = choose|i: int|
                    0 <= i < requests.drop_last().len() && rest == #[trigger] requests.drop_last()[
                    i];
                assert(requests[i] == requests.drop_last()[i]);
            }
        }
    }
}

/// The default buffer alignment is a power of two.
pub proof fn lemma_default_alignment_pow2()
    ensures
        is_pow2(DEFAULT_BUFFER_ALIGNMENT as int),
{
    reveal_with_fuel(is_pow2, 4);
}

/// Identifies a transient buffer before it has a final heap address.
/// Unique within one frame's allocator; never valid across frames.
#[derive(Copy, Clone, Debug, Hash, PartialEq, Eq, Structural)]
pub enum BufferHandle {
    Streamed(usize),
    Reserved(usize),
    Committed,
}

/// Lifecycle of a buffer whose data the CPU supplied at record time.
/// While pending, the data is the arena slice starting at `data_start`.
#[derive(Copy, Clone, Debug, PartialEq, Eq, Structural)]
pub enum StreamedBuffer {
    Pending { data_start: usize, size: usize, alignment: usize },
    Uploaded(BufferAllocation),
}

/// Lifecycle of a buffer with a known size and no CPU data; the GPU
/// writes it, for example as compute output.
#[derive(Copy, Clone, Debug, PartialEq, Eq, Structural)]
pub enum ReservedBuffer {
    Pending { size: usize, alignment: usize },
    Allocated(BufferAllocation),
}

/// Per-frame arena and buffer tables, bulk-reset between frames.
pub struct TransientAllocator {
    /// Bump arena holding every streamed buffer's bytes until upload.
    pub transient_data: Vec<u8>,
    pub reserved_buffers: Vec<ReservedBuffer>,
    pub streamed_buffers: Vec<StreamedBuffer>,
}

/// The most ring distance a pending reserved entry can consume when
/// it is placed without wrapping: its alignment skip plus its size.
pub open spec fn reserved_entry_cost(b: ReservedBuffer) -> int {
    match b {
        ReservedBuffer::Pending { size, alignment } => alignment - 1 + size,
        ReservedBuffer::Allocated(_) => 0,
    }
}

/// The most ring distance a pending streamed entry can consume when
/// it is placed without wrapping.
pub open spec fn streamed_entry_cost(b: StreamedBuffer) -> int {
    match b {
        StreamedBuffer::Pending { data_start: _, size, alignment } => alignment - 1 + size,
        StreamedBuffer::Uploaded(_) => 0,
    }
}

pub open spec fn reserved_cost(s: Seq<ReservedBuffer>) -> int
    decreases s.len(),
{
    if s.len() == 0 {
        0
    } else {
        reserved_cost(s.drop_last()) + reserved_entry_cost(s.last())
    }
}

pub open spec fn streamed_cost(s: Seq<StreamedBuffer>) -> int
    decreases s.len(),
{
    if s.len() == 0 {
        0
    } else {
        streamed_cost(s.drop_last()) + streamed_entry_cost(s.last())
    }
}

/// The most ring distance the allocator's pending entries can consume
/// together, as long as nothing wraps: the sizing budget a caller can
/// check a frame against.
pub open spec fn pending_cost(a: TransientAllocator) -> int {
    reserved_cost(a.reserved_buffers@) + streamed_cost(a.streamed_buffers@)
}

proof fn lemma_reserved_cost_nonneg(s: Seq<ReservedBuffer>)
    requires
        forall|k: int|
            0 <= k < s.len() ==> match #[trigger] s[k] {
                ReservedBuffer::Pending { size: _, alignment } => alignment >= 1,
                ReservedBuffer::Allocated(_) => true,
            },
    ensures
        reserved_cost(s) >= 0,
    decreases s.len(),
{
    if s.len() > 0 {
        assert forall|k: int|
            0 <= k < s.drop_last().len() implies match #[trigger] s.drop_last()[k] {
            ReservedBuffer::Pending { size: _, alignment } => alignment >= 1,
            ReservedBuffer::Allocated(_) => true,
        } by {
            assert(s.drop_last()[k] == s[k]);
        }
        lemma_reserved_cost_nonneg(s.drop_last());
        assert(s.last() == s[s.len() - 1]);
    }
}

proof fn lemma_streamed_cost_nonneg(s: Seq<StreamedBuffer>)
    requires
        forall|k: int|
            0 <= k < s.len() ==> match #[trigger] s[k] {
                StreamedBuffer::Pending { data_start: _, size: _, alignment } => alignment >= 1,
                StreamedBuffer::Uploaded(_) => true,
            },
    ensures
        streamed_cost(s) >= 0,
    decreases s.len(),
{
    if s.len() > 0 {
        assert forall|k: int|
            0 <= k < s.drop_last().len() implies match #[trigger] s.drop_last()[k] {
            StreamedBuffer::Pending { data_start: _, size: _, alignment } => alignment >= 1,
            StreamedBuffer::Uploaded(_) => true,
        } by {
            assert(s.drop_last()[k] == s[k]);
        }
        lemma_streamed_cost_nonneg(s.drop_last());
        assert(s.last() == s[s.len() - 1]);
    }
}

proof fn lemma_reserved_cost_update(s: Seq<ReservedBuffer>, i: int, e: ReservedBuffer)
    requires
        0 <= i < s.len(),
        reserved_entry_cost(e) == 0,
    ensures
        reserved_cost(s.update(i, e)) == reserved_cost(s) - reserved_entry_cost(s[i]),
    decreases s.len(),
{
    let t = s.update(i, e);
    if i == s.len() - 1 {
        assert(t.drop_last() =~= s.drop_last());
        assert(t.last() == e);
    } else {
        assert(t.drop_last() =~= s.drop_last().update(i, e));
        assert(t.last() == s.last());
        assert(s.drop_last()[i] == s[i]);
        lemma_reserved_cost_update(s.drop_last(), i, e);
    }
}

proof fn lemma_streamed_cost_update(s: Seq<StreamedBuffer>, i: int, e: StreamedBuffer)
    requires
        0 <= i < s.len(),
        streamed_entry_cost(e) == 0,
    ensures
        streamed_cost(s.update(i, e)) == streamed_cost(s) - streamed_entry_cost(s[i]),
    decreases s.len(),
{
    let t = s.update(i, e);
    if i == s.len() - 1 {
        assert(t.drop_last() =~= s.drop_last());
        assert(t.last() == e);
    } else {
        assert(t.drop_last() =~= s.drop_last().update(i, e));
        assert(t.last() == s.last());
        assert(s.drop_last()[i] == s[i]);
        lemma_streamed_cost_update(s.drop_last(), i, e);
    }
}

proof fn lemma_reserved_entry_cost_le(s: Seq<ReservedBuffer>, i: int)
    requires
        0 <= i < s.len(),
        forall|k: int|
            0 <= k < s.len() ==> match #[trigger] s[k] {
                ReservedBuffer::Pending { size: _, alignment } => alignment >= 1,
                ReservedBuffer::Allocated(_) => true,
            },
    ensures
        reserved_entry_cost(s[i]) <= reserved_cost(s),
    decreases s.len(),
{
    lemma_reserved_cost_nonneg(s);
    if i == s.len() - 1 {
        assert forall|k: int|
            0 <= k < s.drop_last().len() implies match #[trigger] s.drop_last()[k] {
            ReservedBuffer::Pending { size: _, alignment } => alignment >= 1,
            ReservedBuffer::Allocated(_) => true,
        } by {
            assert(s.drop_last()[k] == s[k]);
        }
        lemma_reserved_cost_nonneg(s.drop_last());
        assert(s.last() == s[i]);
    } else {
        assert forall|k: int|
            0 <= k < s.drop_last().len() implies match #[trigger] s.drop_last()[k] {
            ReservedBuffer::Pending { size: _, alignment } => alignment >= 1,
            ReservedBuffer::Allocated(_) => true,
        } by {
            assert(s.drop_last()[k] == s[k]);
        }
        assert(s.drop_last()[i] == s[i]);
        lemma_reserved_entry_cost_le(s.drop_last(), i);
        assert(s.last() == s[s.len() - 1]);
    }
}

proof fn lemma_streamed_entry_cost_le(s: Seq<StreamedBuffer>, i: int)
    requires
        0 <= i < s.len(),
        forall|k: int|
            0 <= k < s.len() ==> match #[trigger] s[k] {
                StreamedBuffer::Pending { data_start: _, size: _, alignment } => alignment >= 1,
                StreamedBuffer::Uploaded(_) => true,
            },
    ensures
        streamed_entry_cost(s[i]) <= streamed_cost(s),
    decreases s.len(),
{
    lemma_streamed_cost_nonneg(s);
    if i == s.len() - 1 {
        assert forall|k: int|
            0 <= k < s.drop_last().len() implies match #[trigger] s.drop_last()[k] {
            StreamedBuffer::Pending { data_start: _, size: _, alignment } => alignment >= 1,
            StreamedBuffer::Uploaded(_) => true,
        } by {
            assert(s.drop_last()[k] == s[k]);
        }
        lemma_streamed_cost_nonneg(s.drop_last());
        assert(s.last() == s[i]);
    } else {
        assert forall|k: int|
            0 <= k < s.drop_last().len() implies match #[trigger] s.drop_last()[k] {
            StreamedBuffer::Pending { data_start: _, size: _, alignment } => alignment >= 1,
            StreamedBuffer::Uploaded(_) => true,
        } by {
            assert(s.drop_last()[k] == s[k]);
        }
        assert(s.drop_last()[i] == s[i]);
        lemma_streamed_entry_cost_le(s.drop_last(), i);
        assert(s.last() == s[s.len() - 1]);
    }
}

/// Whether a pending reserved entry falls in the upload group whose
/// alignments lie strictly above `lower`.
pub open spec fn reserved_selected(pre: ReservedBuffer, lower: int) -> bool {
    match pre {
        ReservedBuffer::Pending { size: _, alignment } => alignment > lower,
        ReservedBuffer::Allocated(_) => false,
    }
}

/// Whether a pending streamed entry falls in the upload group whose
/// alignments lie strictly above `lower`.
pub open spec fn streamed_selected(pre: StreamedBuffer, lower: int) -> bool {
    match pre {
        StreamedBuffer::Pending { data_start: _, size: _, alignment } => alignment > lower,
        StreamedBuffer::Uploaded(_) => false,
    }
}

/// The allocation of a resolved streamed entry.
pub open spec fn streamed_alloc(post: StreamedBuffer) -> BufferAllocation {
    match post {
        StreamedBuffer::Uploaded(a) => a,
        _ => BufferAllocation { offset: 0, size: 0 },
    }
}

/// How one reserved entry changes when the group above `lower` is
/// uploaded: a pending entry of the group receives an allocation of its
/// recorded size at its recorded alignment, registered with the heap's
/// current frame; every other entry is untouched.
pub open spec fn reserved_entry_done(
    pre: ReservedBuffer,
    post: ReservedBuffer,
    cap: int,
    allocs: Seq<BufferAllocation>,
    lower: int,
) -> bool {
    if reserved_selected(pre, lower) {
        match pre {
            ReservedBuffer::Pending { size, alignment } => match post {
                ReservedBuffer::Allocated(a) => {
                    &&& a.size == size
                    &&& a.offset as int % alignment as int == 0
                    &&& a.offset + a.size <= cap
                    &&& allocs.contains(a)
                },
                _ => false,
            },
            _ => false,
        }
    } else {
        post == pre
    }
}

/// How one streamed entry changes when the group above `lower` is
/// uploaded, mirroring `reserved_entry_done`.
pub open spec fn streamed_entry_done(
    pre: StreamedBuffer,
    post: StreamedBuffer,
    cap: int,
    allocs: Seq<BufferAllocation>,
    lower: int,
) -> bool {
    if streamed_selected(pre, lower) {
        match pre {
            StreamedBuffer::Pending { data_start: _, size, alignment } => match post {
                StreamedBuffer::Uploaded(a) => {
                    &&& a.size == size
                    &&& a.offset as int % alignment as int == 0
                    &&& a.offset + a.size <= cap
                    &&& allocs.contains(a)
                },
                _ => false,
            },
            _ => false,
        }
    } else {
        post == pre
    }
}

impl TransientAllocator {
    /// Pending streamed entries point at real arena bytes and all
    /// recorded alignments are positive powers of two.
    pub open spec fn inv(&self) -> bool {
        &&& forall|i: int|
            0 <= i < self.streamed_buffers@.len() ==> match #[trigger] self.streamed_buffers@[i] {
                StreamedBuffer::Pending { data_start, size, alignment } => {
                    &&& data_start + size <= self.transient_data@.len()
                    &&& 1 <= alignment
                    &&& is_pow2(alignment as int)
                },
                StreamedBuffer::Uploaded(_) => true,
            }
        &&& forall|i: int|
            0 <= i < self.reserved_buffers@.len() ==> match #[trigger] self.reserved_buffers@[i] {
                ReservedBuffer::Pending { size, alignment } => {
                    &&& 1 <= alignment
                    &&& is_pow2(alignment as int)
                },
                ReservedBuffer::Allocated(_) => true,
            }
    }

    /// The bytes a pending streamed entry will upload.
    pub open spec fn streamed_bytes(&self, i: int) -> Seq<u8> {
        match self.streamed_buffers@[i] {
            StreamedBuffer::Pending { data_start, size, alignment: _ } => self.transient_data@
                .subrange(data_start as int, data_start + size),
            StreamedBuffer::Uploaded(_) => Seq::empty(),
        }
    }

    /// Whether the handle names an entry of this frame.
    pub open spec fn handle_valid(&self, h: BufferHandle) -> bool {
        match h {
            BufferHandle::Streamed(i) => i < self.streamed_buffers@.len(),
            BufferHandle::Reserved(i) => i < self.reserved_buffers@.len(),
            BufferHandle::Committed => false,
        }
    }

    /// Whether the handle's entry already carries its final allocation.
    pub open spec fn handle_resolved(&self, h: BufferHandle) -> bool {
        &&& self.handle_valid(h)
        &&& match h {
            BufferHandle::Streamed(i) => self.streamed_buffers@[i as int] is Uploaded,
            BufferHandle::Reserved(i) => self.reserved_buffers@[i as int] is Allocated,
            BufferHandle::Committed => false,
        }
    }

    /// The allocation a resolved handle stands for.
    pub open spec fn spec_allocation_of(&self, h: BufferHandle) -> BufferAllocation {
        match h {
            BufferHandle::Streamed(i) => match self.streamed_buffers@[i as int] {
                StreamedBuffer::Uploaded(a) => a,
                _ => BufferAllocation { offset: 0, size: 0 },
            },
            BufferHandle::Reserved(i) => match self.reserved_buffers@[i as int] {
                ReservedBuffer::Allocated(a) => a,
                _ => BufferAllocation { offset: 0, size: 0 },
            },
            BufferHandle::Committed => BufferAllocation { offset: 0, size: 0 },
        }
    }

    /// Whether the handle's entry is still pending (not yet placed).
    pub open spec fn handle_pending(&self, h: BufferHandle) -> bool {
        &&& self.handle_valid(h)
        &&& match h {
            BufferHandle::Streamed(i) => self.streamed_buffers@[i as int] is Pending,
            BufferHandle::Reserved(i) => self.reserved_buffers@[i as int] is Pending,
            BufferHandle::Committed => false,
        }
    }

    /// The alignment a pending entry currently asks for.
    pub open spec fn pending_alignment(&self, h: BufferHandle) -> int {
        match h {
            BufferHandle::Streamed(i) => match self.streamed_buffers@[i as int] {
                StreamedBuffer::Pending { alignment, .. } => alignment as int,
                _ => 0,
            },
            BufferHandle::Reserved(i) => match self.reserved_buffers@[i as int] {
                ReservedBuffer::Pending { alignment, .. } => alignment as int,
                _ => 0,
            },
            BufferHandle::Committed => 0,
        }
    }

    pub fn new() -> (out: TransientAllocator)
        ensures
            out.inv(),
            out.transient_data@ == Seq::<u8>::empty(),
            out.reserved_buffers@ == Seq::<ReservedBuffer>::empty(),
            out.streamed_buffers@ == Seq::<StreamedBuffer>::empty(),
    {
        TransientAllocator {
            transient_data: Vec::new(),
            reserved_buffers: Vec::new(),
            streamed_buffers: Vec::new(),
        }
    }

    /// Copy caller data into the frame arena and record a pending
    /// streamed entry at the default alignment.
    pub fn stream_buffer(&mut self, data: &Vec<u8>) -> (h: BufferHandle)
        requires
            old(self).inv(),
        ensures
            final(self).inv(),
            h == BufferHandle::Streamed(old(self).streamed_buffers@.len() as usize),
            final(self).streamed_buffers@ == old(self).streamed_buffers@.push(
                StreamedBuffer::Pending {
                    data_start: old(self).transient_data@.len() as usize,
                    size: data@.len() as usize,
                    alignment: DEFAULT_BUFFER_ALIGNMENT,
                },
            ),
            final(self).transient_data@ == old(self).transient_data@ + data@,
            final(self).reserved_buffers == old(self).reserved_buffers,
            final(self).streamed_bytes(old(self).streamed_buffers@.len() as int) == data@,
    {
        let data_start = self.transient_data.len();
        let mut i: usize = 0;
        #[verifier::loop_isolation(false)]
        while i < data.len()
            invariant
                i <= data@.len(),
                self.transient_data@ == old(self).transient_data@ + data@.take(i as int),
                self.reserved_buffers == old(self).reserved_buffers,
                self.streamed_buffers == old(self).streamed_buffers,
            decreases data@.len() - i,
        {
            let b = data[i];
            self.transient_data.push(b);
            proof {
                assert(old(self).transient_data@ + data@.take(i + 1) =~= (old(self).transient_data@ + data@.take(i as int)).push(data@[i as int]));
            }
            i += 1;
        }
        proof {
            assert(data@.take(data@.len() as int) =~= data@);
            lemma_default_alignment_pow2();
        }

        let index = self.streamed_buffers.len();
        self.streamed_buffers.push(
            StreamedBuffer::Pending {
                data_start,
                size: data.len(),
                alignment: DEFAULT_BUFFER_ALIGNMENT,
            },
        );
        proof {
            assert(self.streamed_bytes(index as int) =~= data@);
        }
        BufferHandle::Streamed(index)
    }

    /// Record a pending reserved entry of the given size at the default
    /// alignment; no data accompanies it.
    pub fn reserve_buffer(&mut self, size: usize) -> (h: BufferHandle)
        requires
            old(self).inv(),
        ensures
            final(self).inv(),
            h == BufferHandle::Reserved(old(self).reserved_buffers@.len() as usize),
            final(self).reserved_buffers@ == old(self).reserved_buffers@.push(
                ReservedBuffer::Pending { size, alignment: DEFAULT_BUFFER_ALIGNMENT },
            ),
            final(self).streamed_buffers == old(self).streamed_buffers,
            final(self).transient_data == old(self).transient_data,
    {
        proof {
            lemma_default_alignment_pow2();
        }
        let index = self.reserved_buffers.len();
        self.reserved_buffers.push(
            ReservedBuffer::Pending { size, alignment: DEFAULT_BUFFER_ALIGNMENT },
        );
        BufferHandle::Reserved(index)
    }

    /// Widen the alignment recorded for a pending buffer to the maximum
    /// of the current and the requested value.  A buffer that has
    /// already been resolved keeps its placement and is left untouched.
    pub fn imbue_buffer_alignment(&mut self, buffer_handle: BufferHandle, requested_alignment: usize)
        requires
            old(self).inv(),
            old(self).handle_valid(buffer_handle),
            1 <= requested_alignment,
            is_pow2(requested_alignment as int),
        ensures
            final(self).inv(),
            final(self).transient_data == old(self).transient_data,
            // Only the named entry changes, and only while pending: its
            // alignment becomes the maximum of old and requested.
            match buffer_handle {
                BufferHandle::Streamed(i) => {
                    &&& final(self).reserved_buffers == old(self).reserved_buffers
                    &&& final(self).streamed_buffers@.len() == old(self).streamed_buffers@.len()
                    &&& (forall|k: int|
                        0 <= k < old(self).streamed_buffers@.len() && k != i
                            ==> final(self).streamed_buffers@[k] == old(self).streamed_buffers@[k])
                    &&& match old(self).streamed_buffers@[i as int] {
                        StreamedBuffer::Pending { data_start, size, alignment } => final(self)
                            .streamed_buffers@[i as int] == (StreamedBuffer::Pending {
                            data_start,
                            size,
                            alignment: spec_max(
                                alignment as int,
                                requested_alignment as int,
                            ) as usize,
                        }),
                        StreamedBuffer::Uploaded(_) => final(self).streamed_buffers@[i as int]
                            == old(self).streamed_buffers@[i as int],
                    }
                },
                BufferHandle::Reserved(i) => {
                    &&& final(self).streamed_buffers == old(self).streamed_buffers
                    &&& final(self).reserved_buffers@.len() == old(self).reserved_buffers@.len()
                    &&& (forall|k: int|
                        0 <= k < old(self).reserved_buffers@.len() && k != i
                            ==> final(self).reserved_buffers@[k] == old(self).reserved_buffers@[k])
                    &&& match old(self).reserved_buffers@[i as int] {
                        ReservedBuffer::Pending { size, alignment } => final(self)
                            .reserved_buffers@[i as int] == (ReservedBuffer::Pending {
                            size,
                            alignment: spec_max(
                                alignment as int,
                                requested_alignment as int,
                            ) as usize,
                        }),
                        ReservedBuffer::Allocated(_) => final(self).reserved_buffers@[i as int]
                            == old(self).reserved_buffers@[i as int],
                    }
                },
                BufferHandle::Committed => false,
            },
    {
        match buffer_handle {
            BufferHandle::Streamed(index) => {
                let entry = self.streamed_buffers[index];
                match entry {
                    StreamedBuffer::Pending { data_start, size, alignment } => {
                        let widened = if alignment >= requested_alignment {
                            alignment
                        } else {
                            requested_alignment
                        };
                        self.streamed_buffers[index] = StreamedBuffer::Pending {
                            data_start,
                            size,
                            alignment: widened,
                        };
                    },
                    StreamedBuffer::Uploaded(_) => {},
                }
            },
            BufferHandle::Reserved(index) => {
                let entry = self.reserved_buffers[index];
                match entry {
                    ReservedBuffer::Pending { size, alignment } => {
                        let widened = if alignment >= requested_alignment {
                            alignment
                        } else {
                            requested_alignment
                        };
                        self.reserved_buffers[index] = ReservedBuffer::Pending {
                            size,
                            alignment: widened,
                        };
                    },
                    ReservedBuffer::Allocated(_) => {},
                }
            },
            BufferHandle::Committed => {
                proof {
                    assert(false);
                }
            },
        }
    }

    /// The final heap placement of a buffer.  Asking before
    /// `upload_buffers` has resolved the handle is a bug in command
    /// construction, so the handle is required to be resolved.
    pub fn resolve_buffer_allocation(&self, buffer_handle: BufferHandle) -> (a: BufferAllocation)
        requires
            self.handle_resolved(buffer_handle),
        ensures
            a == self.spec_allocation_of(buffer_handle),
    {
        match buffer_handle {
            BufferHandle::Streamed(index) => {
                match self.streamed_buffers[index] {
                    StreamedBuffer::Uploaded(allocation) => allocation,
                    StreamedBuffer::Pending { .. } => {
                        proof {
                            assert(false);
                        }
                        BufferAllocation { offset: 0, size: 0 }
                    },
                }
            },
            BufferHandle::Reserved(index) => {
                match self.reserved_buffers[index] {
                    ReservedBuffer::Allocated(allocation) => allocation,
                    ReservedBuffer::Pending { .. } => {
                        proof {
                            assert(false);
                        }
                        BufferAllocation { offset: 0, size: 0 }
                    },
                }
            },
            BufferHandle::Committed => {
                proof {
                    assert(false);
                }
                BufferAllocation { offset: 0, size: 0 }
            },
        }
    }

    /// Copy of one arena slice, handed to the heap at upload time.
    fn arena_chunk(&self, start: usize, len: usize) -> (out: Vec<u8>)
        requires
            start + len <= self.transient_data@.len(),
        ensures
            out@ == self.transient_data@.subrange(start as int, start + len),
    {
        let n = self.transient_data.len();
        let mut out: Vec<u8> = Vec::new();
        let mut i: usize = 0;
        #[verifier::loop_isolation(false)]
        while i < len
            invariant
                i <= len,
                start + len <= n,
                n == self.transient_data@.len(),
                out@.len() == i,
                forall|j: int| 0 <= j < i ==> out@[j] == self.transient_data@[start + j],
            decreases len - i,
        {
            out.push(self.transient_data[start + i]);
            i += 1;
        }
        proof {
            assert(out@ =~= self.transient_data@.subrange(start as int, start + len));
        }
        out
    }

    /// Upload every pending entry whose alignment lies strictly above
    /// `lower`: reserved entries receive space, streamed entries receive
    /// space and their bytes.  All other entries are untouched.
    fn upload_pending_over(&mut self, upload_heap: &mut UploadHeap, lower: usize)
        requires
            old(self).inv(),
            old(upload_heap).wf(),
            forall|i: int|
                0 <= i < old(self).reserved_buffers@.len()
                    ==> match #[trigger] old(self).reserved_buffers@[i] {
                    ReservedBuffer::Pending { size, alignment } => size <= old(upload_heap).capacity && alignment <= old(upload_heap).capacity,
                    _ => true,
                },
            forall|i: int|
                0 <= i < old(self).streamed_buffers@.len()
                    ==> match #[trigger] old(self).streamed_buffers@[i] {
                    StreamedBuffer::Pending { data_start: _, size, alignment } => size <= old(upload_heap).capacity && alignment <= old(upload_heap).capacity,
                    _ => true,
                },
        ensures
            final(self).inv(),
            final(upload_heap).wf(),
            final(self).transient_data == old(self).transient_data,
            final(self).reserved_buffers@.len() == old(self).reserved_buffers@.len(),
            final(self).streamed_buffers@.len() == old(self).streamed_buffers@.len(),
            final(upload_heap).capacity == old(upload_heap).capacity,
            final(upload_heap).buffer_name == old(upload_heap).buffer_name,
            final(upload_heap).frame_start_cursor == old(upload_heap).frame_start_cursor,
            final(upload_heap).frame_travel@ >= old(upload_heap).frame_travel@,
            old(upload_heap).frame_allocs@.is_prefix_of(final(upload_heap).frame_allocs@),
            old(upload_heap).waited_fences@.is_prefix_of(final(upload_heap).waited_fences@),
            forall|i: int|
                0 <= i < old(self).reserved_buffers@.len() ==> reserved_entry_done(
                    #[trigger] old(self).reserved_buffers@[i],
                    final(self).reserved_buffers@[i],
                    old(upload_heap).cap(),
                    final(upload_heap).frame_allocs@,
                    lower as int,
                ),
            forall|i: int|
                0 <= i < old(self).streamed_buffers@.len() ==> streamed_entry_done(
                    #[trigger] old(self).streamed_buffers@[i],
                    final(self).streamed_buffers@[i],
                    old(upload_heap).cap(),
                    final(upload_heap).frame_allocs@,
                    lower as int,
                ),
            // While the frame stays within capacity, earlier writes of
            // the frame keep their bytes ...
            final(upload_heap).frame_travel@ <= old(upload_heap).cap() ==> forall|k: int|
                0 <= k < old(upload_heap).frame_allocs@.len() ==> bytes_at(
                    final(upload_heap).data@,
                    #[trigger] old(upload_heap).frame_allocs@[k],
                ) == bytes_at(old(upload_heap).data@, old(upload_heap).frame_allocs@[k]),
            // ... and every streamed entry of the group sits in the heap
            // byte for byte.
            final(upload_heap).frame_travel@ <= old(upload_heap).cap() ==> forall|i: int|
                0 <= i < old(self).streamed_buffers@.len() && streamed_selected(
                    #[trigger] old(self).streamed_buffers@[i],
                    lower as int,
                ) ==> bytes_at(
                    final(upload_heap).data@,
                    streamed_alloc(final(self).streamed_buffers@[i]),
                ) == old(self).streamed_bytes(i),
            // a group with nothing to upload makes no call on the heap
            (forall|i: int|
                0 <= i < old(self).reserved_buffers@.len() ==> !reserved_selected(
                    #[trigger] old(self).reserved_buffers@[i],
                    lower as int,
                )) && (forall|i: int|
                0 <= i < old(self).streamed_buffers@.len() ==> !streamed_selected(
                    #[trigger] old(self).streamed_buffers@[i],
                    lower as int,
                )) ==> *final(self) == *old(self) && *final(upload_heap) == *old(upload_heap),
            // while the frame's budget fits the ring, travel spends at
            // most the cost of what it resolves and nothing wraps
            (old(upload_heap).buffer_cursor as int == old(upload_heap).frame_start() + old(upload_heap).frame_travel@ && old(upload_heap).frame_start() + old(upload_heap).frame_travel@
                + pending_cost(*old(self)) <= old(upload_heap).cap()) ==> final(upload_heap).buffer_cursor as int == final(upload_heap).frame_start() + final(upload_heap).frame_travel@ && final(upload_heap).frame_travel@ + pending_cost(*final(self))
                <= old(upload_heap).frame_travel@ + pending_cost(*old(self)),
    {
        let ghost cap = upload_heap.cap();
        let ghost ring_start = upload_heap.frame_start();
        let ghost travel_in = upload_heap.frame_travel@;
        let ghost cost_in = pending_cost(*self);
        let ghost budgeted = upload_heap.buffer_cursor as int == ring_start + travel_in
            && ring_start + travel_in + cost_in <= cap;
        let ghost allocs0 = upload_heap.frame_allocs@;
        let ghost data0 = upload_heap.data@;

        let mut index: usize = 0;
        #[verifier::loop_isolation(false)]
        while index < self.reserved_buffers.len()
            invariant
                index <= self.reserved_buffers@.len(),
                self.inv(),
                upload_heap.wf(),
                self.transient_data == old(self).transient_data,
                self.streamed_buffers == old(self).streamed_buffers,
                self.reserved_buffers@.len() == old(self).reserved_buffers@.len(),
                upload_heap.capacity == old(upload_heap).capacity,
                upload_heap.buffer_name == old(upload_heap).buffer_name,
                upload_heap.frame_start_cursor == old(upload_heap).frame_start_cursor,
                upload_heap.data@ == data0,
                upload_heap.frame_travel@ >= old(upload_heap).frame_travel@,
                allocs0.is_prefix_of(upload_heap.frame_allocs@),
                old(upload_heap).waited_fences@.is_prefix_of(upload_heap.waited_fences@),
                forall|k: int|
                    index <= k < self.reserved_buffers@.len() ==> #[trigger] self
                        .reserved_buffers@[k] == old(self).reserved_buffers@[k],
                forall|k: int|
                    0 <= k < index ==> reserved_entry_done(
                        #[trigger] old(self).reserved_buffers@[k],
                        self.reserved_buffers@[k],
                        cap,
                        upload_heap.frame_allocs@,
                        lower as int,
                    ),
                (forall|i: int|
                    0 <= i < old(self).reserved_buffers@.len() ==> !reserved_selected(
                        #[trigger] old(self).reserved_buffers@[i],
                        lower as int,
                    )) ==> *self == *old(self) && *upload_heap == *old(upload_heap),
                budgeted ==> upload_heap.buffer_cursor as int == upload_heap.frame_start()
                    + upload_heap.frame_travel@ && upload_heap.frame_travel@ + pending_cost(*self)
                    <= travel_in + cost_in,
            decreases self.reserved_buffers@.len() - index,
        {
            let ghost allocs_before = upload_heap.frame_allocs@;
            let ghost pre_a = *self;
            let ghost pre_h = *upload_heap;
            let entry = self.reserved_buffers[index];
            match entry {
                ReservedBuffer::Pending { size, alignment } => {
                    if alignment > lower {
                        proof {
                            if budgeted {
                                lemma_reserved_entry_cost_le(
                                    pre_a.reserved_buffers@,
                                    index as int,
                                );
                                lemma_streamed_cost_nonneg(pre_a.streamed_buffers@);
                                crate::upload_heap::lemma_align_up_properties(
                                    pre_h.buffer_cursor as int,
                                    alignment as int,
                                );
                            }
                        }
                        let a = upload_heap.reserve_space(size, alignment);
                        self.reserved_buffers[index] = ReservedBuffer::Allocated(a);
                        proof {
                            if budgeted {
                                lemma_reserved_cost_update(
                                    pre_a.reserved_buffers@,
                                    index as int,
                                    ReservedBuffer::Allocated(a),
                                );
                                assert(pending_cost(*self) == pending_cost(pre_a)
                                    - reserved_entry_cost(
                                    pre_a.reserved_buffers@[index as int],
                                ));
                            }
                        }
                    }
                },
                ReservedBuffer::Allocated(_) => {},
            }
            proof {
                assert(allocs_before.is_prefix_of(upload_heap.frame_allocs@));
                assert forall|k: int| 0 <= k < index + 1 implies reserved_entry_done(
                    #[trigger] old(self).reserved_buffers@[k],
                    self.reserved_buffers@[k],
                    cap,
                    upload_heap.frame_allocs@,
                    lower as int,
                ) by {
                    if k < index {
                        if reserved_selected(old(self).reserved_buffers@[k], lower as int) {
                            let a = match self.reserved_buffers@[k] {
                                ReservedBuffer::Allocated(a) => a,
                                _ => BufferAllocation { offset: 0, size: 0 },
                            };
                            lemma_prefix_contains(allocs_before, upload_heap.frame_allocs@, a);
                        }
                    } else {
                        if reserved_selected(old(self).reserved_buffers@[k], lower as int) {
                            let a = match self.reserved_buffers@[k] {
                                ReservedBuffer::Allocated(a) => a,
                                _ => BufferAllocation { offset: 0, size: 0 },
                            };
                            assert(upload_heap.frame_allocs@[upload_heap.frame_allocs@.len()
                                - 1] == a);
                        }
                    }
                }
            }
            index += 1;
        }

        let ghost allocs_mid = upload_heap.frame_allocs@;
        let ghost travel_mid = upload_heap.frame_travel@;

        let mut index: usize = 0;
        #[verifier::loop_isolation(false)]
        while index < self.streamed_buffers.len()
            invariant
                index <= self.streamed_buffers@.len(),
                self.inv(),
                upload_heap.wf(),
                self.transient_data == old(self).transient_data,
                self.reserved_buffers@.len() == old(self).reserved_buffers@.len(),
                self.streamed_buffers@.len() == old(self).streamed_buffers@.len(),
                upload_heap.capacity == old(upload_heap).capacity,
                upload_heap.buffer_name == old(upload_heap).buffer_name,
                upload_heap.frame_start_cursor == old(upload_heap).frame_start_cursor,
                upload_heap.data@.len() == data0.len(),
                upload_heap.frame_travel@ >= travel_mid,
                travel_mid >= old(upload_heap).frame_travel@,
                allocs0.is_prefix_of(allocs_mid),
                allocs_mid.is_prefix_of(upload_heap.frame_allocs@),
                old(upload_heap).waited_fences@.is_prefix_of(upload_heap.waited_fences@),
                forall|k: int|
                    0 <= k < self.reserved_buffers@.len() ==> reserved_entry_done(
                        #[trigger] old(self).reserved_buffers@[k],
                        self.reserved_buffers@[k],
                        cap,
                        allocs_mid,
                        lower as int,
                    ),
                forall|k: int|
                    index <= k < self.streamed_buffers@.len() ==> #[trigger] self
                        .streamed_buffers@[k] == old(self).streamed_buffers@[k],
                forall|k: int|
                    0 <= k < index ==> streamed_entry_done(
                        #[trigger] old(self).streamed_buffers@[k],
                        self.streamed_buffers@[k],
                        cap,
                        upload_heap.frame_allocs@,
                        lower as int,
                    ),
                upload_heap.frame_travel@ <= cap ==> forall|k: int|
                    0 <= k < allocs_mid.len() ==> bytes_at(
                        upload_heap.data@,
                        #[trigger] allocs_mid[k],
                    ) == bytes_at(data0, allocs_mid[k]),
                upload_heap.frame_travel@ <= cap ==> forall|k: int|
                    0 <= k < index && streamed_selected(
                        #[trigger] old(self).streamed_buffers@[k],
                        lower as int,
                    ) ==> bytes_at(
                        upload_heap.data@,
                        streamed_alloc(self.streamed_buffers@[k]),
                    ) == old(self).streamed_bytes(k),
                (forall|i: int|
                    0 <= i < old(self).reserved_buffers@.len() ==> !reserved_selected(
                        #[trigger] old(self).reserved_buffers@[i],
                        lower as int,
                    )) && (forall|i: int|
                    0 <= i < old(self).streamed_buffers@.len() ==> !streamed_selected(
                        #[trigger] old(self).streamed_buffers@[i],
                        lower as int,
                    )) ==> *self == *old(self) && *upload_heap == *old(upload_heap),
                budgeted ==> upload_heap.buffer_cursor as int == upload_heap.frame_start()
                    + upload_heap.frame_travel@ && upload_heap.frame_travel@ + pending_cost(*self)
                    <= travel_in + cost_in,
            decreases self.streamed_buffers@.len() - index,
        {
            let ghost allocs_before = upload_heap.frame_allocs@;
            let ghost data_before = upload_heap.data@;
            let ghost pre_a = *self;
            let ghost pre_h = *upload_heap;
            let entry = self.streamed_buffers[index];
            match entry {
                StreamedBuffer::Pending { data_start, size, alignment } => {
                    if alignment > lower {
                        proof {
                            if budgeted {
                                lemma_streamed_entry_cost_le(
                                    pre_a.streamed_buffers@,
                                    index as int,
                                );
                                lemma_reserved_cost_nonneg(pre_a.reserved_buffers@);
                                crate::upload_heap::lemma_align_up_properties(
                                    pre_h.buffer_cursor as int,
                                    alignment as int,
                                );
                            }
                        }
                        let chunk = self.arena_chunk(data_start, size);
                        let a = upload_heap.push_data(&chunk, alignment);
                        self.streamed_buffers[index] = StreamedBuffer::Uploaded(a);
                        proof {
                            if budgeted {
                                lemma_streamed_cost_update(
                                    pre_a.streamed_buffers@,
                                    index as int,
                                    StreamedBuffer::Uploaded(a),
                                );
                                assert(pending_cost(*self) == pending_cost(pre_a)
                                    - streamed_entry_cost(
                                    pre_a.streamed_buffers@[index as int],
                                ));
                            }
                        }
                        proof {
                            if upload_heap.frame_travel@ <= cap {
                                // The new write touches no byte of any
                                // allocation the frame already had.
                                assert forall|k: int|
                                    0 <= k < allocs_before.len() implies bytes_at(
                                    upload_heap.data@,
                                    #[trigger] allocs_before[k],
                                ) == bytes_at(data_before, allocs_before[k]) by {
                                    let prev = allocs_before[k];
                                    assert(!allocs_overlap(prev, a));
                                    assert(bytes_at(upload_heap.data@, prev) =~= bytes_at(
                                        data_before,
                                        prev,
                                    ));
                                }
                            }
                        }
                    }
                },
                StreamedBuffer::Uploaded(_) => {},
            }
            proof {
                assert(allocs_before.is_prefix_of(upload_heap.frame_allocs@));
                assert(allocs_mid.is_prefix_of(upload_heap.frame_allocs@)) by {
                    assert(forall|k: int|
                        0 <= k < allocs_mid.len() ==> allocs_mid[k] == #[trigger] upload_heap
                            .frame_allocs@[k]);
                }
                assert forall|k: int| 0 <= k < index + 1 implies streamed_entry_done(
                    #[trigger] old(self).streamed_buffers@[k],
                    self.streamed_buffers@[k],
                    cap,
                    upload_heap.frame_allocs@,
                    lower as int,
                ) by {
                    if k < index {
                        if streamed_selected(old(self).streamed_buffers@[k], lower as int) {
                            let a = streamed_alloc(self.streamed_buffers@[k]);
                            lemma_prefix_contains(allocs_before, upload_heap.frame_allocs@, a);
                        }
                    } else {
                        if streamed_selected(old(self).streamed_buffers@[k], lower as int) {
                            let a = streamed_alloc(self.streamed_buffers@[k]);
                            assert(upload_heap.frame_allocs@[upload_heap.frame_allocs@.len()
                                - 1] == a);
                        }
                    }
                }
                if upload_heap.frame_travel@ <= cap {
                    assert forall|k: int|
                        0 <= k < index + 1 && streamed_selected(
                            #[trigger] old(self).streamed_buffers@[k],
                            lower as int,
                        ) implies bytes_at(
                        upload_heap.data@,
                        streamed_alloc(self.streamed_buffers@[k]),
                    ) == old(self).streamed_bytes(k) by {
                        if k < index {
                            let prev = streamed_alloc(self.streamed_buffers@[k]);
                            assert(allocs_before.contains(prev));
                            let j = choose|j: int|
                                0 <= j < allocs_before.len() && allocs_before[j] == prev;
                            assert(!allocs_overlap(prev, streamed_alloc(
                                self.streamed_buffers@[index as int],
                            )) || self.streamed_buffers@[index as int] == old(self).streamed_buffers@[index as int]);
                            assert(bytes_at(upload_heap.data@, prev) =~= bytes_at(
                                data_before,
                                prev,
                            ));
                        }
                    }
                }
            }
            index += 1;
        }
    }

    /// Convert every pending entry to a resolved one against the upload
    /// heap, grouped by required alignment: the group above the
    /// storage-buffer alignment first (uniform buffers carry the GPU's
    /// widest alignment and go in while the cursor is least fragmented),
    /// then the group above the default alignment, then the rest.
    /// Reserved entries go before streamed entries within each group.
    pub fn upload_buffers(&mut self, upload_heap: &mut UploadHeap)
        requires
            old(self).inv(),
            old(upload_heap).wf(),
            forall|i: int|
                0 <= i < old(self).reserved_buffers@.len()
                    ==> match #[trigger] old(self).reserved_buffers@[i] {
                    ReservedBuffer::Pending { size, alignment } => size <= old(upload_heap).capacity && alignment <= old(upload_heap).capacity,
                    _ => true,
                },
            forall|i: int|
                0 <= i < old(self).streamed_buffers@.len()
                    ==> match #[trigger] old(self).streamed_buffers@[i] {
                    StreamedBuffer::Pending { data_start: _, size, alignment } => size <= old(upload_heap).capacity && alignment <= old(upload_heap).capacity,
                    _ => true,
                },
        ensures
            final(self).inv(),
            final(upload_heap).wf(),
            final(self).transient_data == old(self).transient_data,
            final(self).reserved_buffers@.len() == old(self).reserved_buffers@.len(),
            final(self).streamed_buffers@.len() == old(self).streamed_buffers@.len(),
            final(upload_heap).capacity == old(upload_heap).capacity,
            final(upload_heap).buffer_name == old(upload_heap).buffer_name,
            final(upload_heap).frame_start_cursor == old(upload_heap).frame_start_cursor,
            final(upload_heap).frame_travel@ >= old(upload_heap).frame_travel@,
            old(upload_heap).frame_allocs@.is_prefix_of(final(upload_heap).frame_allocs@),
            old(upload_heap).waited_fences@.is_prefix_of(final(upload_heap).waited_fences@),
            // Every entry is resolved afterwards, pending ones at their
            // recorded size and alignment.
            forall|i: int|
                0 <= i < old(self).reserved_buffers@.len() ==> reserved_entry_done(
                    #[trigger] old(self).reserved_buffers@[i],
                    final(self).reserved_buffers@[i],
                    old(upload_heap).cap(),
                    final(upload_heap).frame_allocs@,
                    0,
                ),
            forall|i: int|
                0 <= i < old(self).streamed_buffers@.len() ==> streamed_entry_done(
                    #[trigger] old(self).streamed_buffers@[i],
                    final(self).streamed_buffers@[i],
                    old(upload_heap).cap(),
                    final(upload_heap).frame_allocs@,
                    0,
                ),
            // While the frame stays within capacity, earlier writes of
            // the frame keep their bytes ...
            final(upload_heap).frame_travel@ <= old(upload_heap).cap() ==> forall|k: int|
                0 <= k < old(upload_heap).frame_allocs@.len() ==> bytes_at(
                    final(upload_heap).data@,
                    #[trigger] old(upload_heap).frame_allocs@[k],
                ) == bytes_at(old(upload_heap).data@, old(upload_heap).frame_allocs@[k]),
            // ... and the heap holds every streamed buffer's bytes at its
            // resolved placement: the round trip through the ring is the
            // identity on the staged data.
            final(upload_heap).frame_travel@ <= old(upload_heap).cap() ==> forall|i: int|
                0 <= i < old(self).streamed_buffers@.len() && old(self).streamed_buffers@[i]
                    is Pending ==> bytes_at(
                    final(upload_heap).data@,
                    streamed_alloc(#[trigger] final(self).streamed_buffers@[i]),
                ) == old(self).streamed_bytes(i),
            // with nothing pending, a call is a no-op on allocator and
            // heap alike
            (forall|i: int|
                0 <= i < old(self).reserved_buffers@.len() ==> !((
                #[trigger] old(self).reserved_buffers@[i]) is Pending)) && (forall|i: int|
                0 <= i < old(self).streamed_buffers@.len() ==> !((
                #[trigger] old(self).streamed_buffers@[i]) is Pending)) ==> *final(self) == *old(self) && *final(upload_heap) == *old(upload_heap),
            // the heap is fed in three groups of descending alignment
            // class: first everything above the storage-buffer
            // alignment, then everything above the default alignment,
            // then the rest
            exists|s1: TransientAllocator, h1: UploadHeap, s2: TransientAllocator, h2: UploadHeap|
                upload_step(*old(self), s1, *old(upload_heap), h1, SSBO_ALIGNMENT as int)
                    && #[trigger] upload_step(s1, s2, h1, h2, DEFAULT_BUFFER_ALIGNMENT as int)
                    && upload_step(s2, *final(self), h2, *final(upload_heap), 0),
            // while the frame's budget fits the ring, the upload's ring
            // travel is bounded by that budget, so the within-capacity
            // conditions above can be discharged from the sizes and
            // alignments recorded before the upload
            (old(upload_heap).buffer_cursor as int == old(upload_heap).frame_start() + old(upload_heap).frame_travel@ && old(upload_heap).frame_start() + old(upload_heap).frame_travel@
                + pending_cost(*old(self)) <= old(upload_heap).cap()) ==> final(upload_heap).buffer_cursor as int == final(upload_heap).frame_start() + final(upload_heap).frame_travel@ && final(upload_heap).frame_travel@ <= old(upload_heap).frame_travel@
                + pending_cost(*old(self)),
    {
        let ghost cap = upload_heap.cap();
        let ghost state0_alloc = *self;
        let ghost state0_heap = *upload_heap;
        self.upload_pending_over(upload_heap, SSBO_ALIGNMENT);
        let ghost state1_alloc = *self;
        let ghost state1_heap = *upload_heap;
        proof {
            lemma_pending_bounds_carry(state0_alloc, state1_alloc, state0_heap, state1_heap,
                SSBO_ALIGNMENT as int);
        }
        self.upload_pending_over(upload_heap, DEFAULT_BUFFER_ALIGNMENT);
        let ghost state2_alloc = *self;
        let ghost state2_heap = *upload_heap;
        proof {
            lemma_pending_bounds_carry(state0_alloc, state1_alloc, state0_heap, state1_heap,
                SSBO_ALIGNMENT as int);
            lemma_pending_bounds_carry(state1_alloc, state2_alloc, state1_heap, state2_heap,
                DEFAULT_BUFFER_ALIGNMENT as int);
        }
        self.upload_pending_over(upload_heap, 0);

        proof {
            lemma_upload_compose(
                state0_alloc,
                state1_alloc,
                state2_alloc,
                *self,
                state0_heap,
                state1_heap,
                state2_heap,
                *upload_heap,
            );
            assert(upload_step(
                state1_alloc,
                state2_alloc,
                state1_heap,
                state2_heap,
                DEFAULT_BUFFER_ALIGNMENT as int,
            ));
            if state0_heap.buffer_cursor as int == state0_heap.frame_start()
                + state0_heap.frame_travel@ && state0_heap.frame_start()
                + state0_heap.frame_travel@ + pending_cost(state0_alloc) <= state0_heap.cap() {
                // the budget telescopes through the three groups, and
                // what is left of it is never negative
                assert forall|k: int|
                    0 <= k < self.reserved_buffers@.len() implies match #[trigger] self
                    .reserved_buffers@[k] {
                    ReservedBuffer::Pending { size: _, alignment } => alignment >= 1,
                    ReservedBuffer::Allocated(_) => true,
                } by {}
                lemma_reserved_cost_nonneg(self.reserved_buffers@);
                lemma_streamed_cost_nonneg(self.streamed_buffers@);
            }
        }
    }
}

/// Pending entries fit the heap: every recorded size and alignment is
/// at most the capacity.
pub open spec fn pending_fit(a: TransientAllocator, capacity: int) -> bool {
    &&& (forall|i: int|
        0 <= i < a.reserved_buffers@.len() ==> match #[trigger] a.reserved_buffers@[i] {
            ReservedBuffer::Pending { size, alignment } => size <= capacity && alignment
                <= capacity,
            _ => true,
        })
    &&& (forall|i: int|
        0 <= i < a.streamed_buffers@.len() ==> match #[trigger] a.streamed_buffers@[i] {
            StreamedBuffer::Pending { data_start: _, size, alignment } => size <= capacity
                && alignment <= capacity,
            _ => true,
        })
}

/// An upload pass leaves every still-pending entry exactly as it was,
/// so entries that fit the heap before still fit it after.
proof fn lemma_pending_bounds_carry(
    pre_a: TransientAllocator,
    post_a: TransientAllocator,
    pre_h: UploadHeap,
    post_h: UploadHeap,
    lower: int,
)
    requires
        pending_fit(pre_a, pre_h.capacity as int),
        upload_step(pre_a, post_a, pre_h, post_h, lower),
    ensures
        pending_fit(post_a, post_h.capacity as int),
{
    assert forall|i: int|
        0 <= i < post_a.reserved_buffers@.len() implies match #[trigger] post_a
        .reserved_buffers@[i] {
        ReservedBuffer::Pending { size, alignment } => size <= post_h.capacity && alignment
            <= post_h.capacity,
        _ => true,
    } by {
        assert(reserved_entry_done(
            pre_a.reserved_buffers@[i],
            post_a.reserved_buffers@[i],
            pre_h.cap(),
            post_h.frame_allocs@,
            lower,
        ));
    }
    assert forall|i: int|
        0 <= i < post_a.streamed_buffers@.len() implies match #[trigger] post_a
        .streamed_buffers@[i] {
        StreamedBuffer::Pending { data_start: _, size, alignment } => size <= post_h.capacity
            && alignment <= post_h.capacity,
        _ => true,
    } by {
        assert(streamed_entry_done(
            pre_a.streamed_buffers@[i],
            post_a.streamed_buffers@[i],
            pre_h.cap(),
            post_h.frame_allocs@,
            lower,
        ));
    }
}

/// Composing the three alignment groups resolves every entry and keeps
/// every group's bytes in place while the frame fits its capacity.
proof fn lemma_upload_compose(
    s0: TransientAllocator,
    s1: TransientAllocator,
    s2: TransientAllocator,
    s3: TransientAllocator,
    h0: UploadHeap,
    h1: UploadHeap,
    h2: UploadHeap,
    h3: UploadHeap,
)
    requires
        s0.inv(),
        upload_step(s0, s1, h0, h1, SSBO_ALIGNMENT as int),
        upload_step(s1, s2, h1, h2, DEFAULT_BUFFER_ALIGNMENT as int),
        upload_step(s2, s3, h2, h3, 0),
        h0.capacity == h1.capacity && h1.capacity == h2.capacity && h2.capacity == h3.capacity,
    ensures
        forall|i: int|
            0 <= i < s0.reserved_buffers@.len() ==> reserved_entry_done(
                #[trigger] s0.reserved_buffers@[i],
                s3.reserved_buffers@[i],
                h0.cap(),
                h3.frame_allocs@,
                0,
            ),
        forall|i: int|
            0 <= i < s0.streamed_buffers@.len() ==> streamed_entry_done(
                #[trigger] s0.streamed_buffers@[i],
                s3.streamed_buffers@[i],
                h0.cap(),
                h3.frame_allocs@,
                0,
            ),
        h3.frame_travel@ <= h0.cap() ==> forall|k: int|
            0 <= k < h0.frame_allocs@.len() ==> bytes_at(
                h3.data@,
                #[trigger] h0.frame_allocs@[k],
            ) == bytes_at(h0.data@, h0.frame_allocs@[k]),
        h3.frame_travel@ <= h0.cap() ==> forall|i: int|
            0 <= i < s0.streamed_buffers@.len() && s0.streamed_buffers@[i] is Pending
                ==> bytes_at(
                h3.data@,
                streamed_alloc(#[trigger] s3.streamed_buffers@[i]),
            ) == s0.streamed_bytes(i),
{
    let cap = h0.cap();
    let t_ok = h3.frame_travel@ <= cap;

    // A reserved entry is resolved by whichever pass first covers its
    // alignment and then carried through unchanged.
    assert forall|i: int| 0 <= i < s0.reserved_buffers@.len() implies reserved_entry_done(
        #[trigger] s0.reserved_buffers@[i],
        s3.reserved_buffers@[i],
        cap,
        h3.frame_allocs@,
        0,
    ) by {
        match s0.reserved_buffers@[i] {
            ReservedBuffer::Pending { size: _, alignment } => {
                if alignment > SSBO_ALIGNMENT {
                    match s1.reserved_buffers@[i] {
                        ReservedBuffer::Allocated(a) => {
                            lemma_prefix_contains(h1.frame_allocs@, h2.frame_allocs@, a);
                            lemma_prefix_contains(h2.frame_allocs@, h3.frame_allocs@, a);
                        },
                        _ => {},
                    }
                } else if alignment > DEFAULT_BUFFER_ALIGNMENT {
                    match s2.reserved_buffers@[i] {
                        ReservedBuffer::Allocated(a) => {
                            lemma_prefix_contains(h2.frame_allocs@, h3.frame_allocs@, a);
                        },
                        _ => {},
                    }
                }
            },
            ReservedBuffer::Allocated(_) => {},
        }
    }

    assert forall|i: int| 0 <= i < s0.streamed_buffers@.len() implies streamed_entry_done(
        #[trigger] s0.streamed_buffers@[i],
        s3.streamed_buffers@[i],
        cap,
        h3.frame_allocs@,
        0,
    ) by {
        match s0.streamed_buffers@[i] {
            StreamedBuffer::Pending { data_start: _, size: _, alignment } => {
                if alignment > SSBO_ALIGNMENT {
                    match s1.streamed_buffers@[i] {
                        StreamedBuffer::Uploaded(a) => {
                            lemma_prefix_contains(h1.frame_allocs@, h2.frame_allocs@, a);
                            lemma_prefix_contains(h2.frame_allocs@, h3.frame_allocs@, a);
                        },
                        _ => {},
                    }
                } else if alignment > DEFAULT_BUFFER_ALIGNMENT {
                    match s2.streamed_buffers@[i] {
                        StreamedBuffer::Uploaded(a) => {
                            lemma_prefix_contains(h2.frame_allocs@, h3.frame_allocs@, a);
                        },
                        _ => {},
                    }
                }
            },
            StreamedBuffer::Uploaded(_) => {},
        }
    }

    if t_ok {
        // Travel only grows, so every intermediate state also fit.
        assert(h2.frame_travel@ <= cap && h1.frame_travel@ <= cap);

        // Bytes written before the upload survive all three passes.
        assert forall|k: int| 0 <= k < h0.frame_allocs@.len() implies bytes_at(
            h3.data@,
            #[trigger] h0.frame_allocs@[k],
        ) == bytes_at(h0.data@, h0.frame_allocs@[k]) by {
            assert(h1.frame_allocs@[k] == h0.frame_allocs@[k]);
            assert(h2.frame_allocs@[k] == h1.frame_allocs@[k]);
        }

        // Each streamed buffer's bytes are placed by its own pass and
        // preserved by the later ones.
        assert forall|i: int|
            0 <= i < s0.streamed_buffers@.len() && s0.streamed_buffers@[i]
                is Pending implies bytes_at(
            h3.data@,
            streamed_alloc(#[trigger] s3.streamed_buffers@[i]),
        ) == s0.streamed_bytes(i) by {
            match s0.streamed_buffers@[i] {
                StreamedBuffer::Pending { data_start: _, size: _, alignment } => {
                    if alignment > SSBO_ALIGNMENT {
                        let a = streamed_alloc(s1.streamed_buffers@[i]);
                        assert(bytes_at(h1.data@, a) == s0.streamed_bytes(i));
                        assert(h1.frame_allocs@.contains(a));
                        let j = choose|j: int|
                            0 <= j < h1.frame_allocs@.len() && h1.frame_allocs@[j] == a;
                        assert(bytes_at(h2.data@, h1.frame_allocs@[j]) == bytes_at(
                            h1.data@,
                            h1.frame_allocs@[j],
                        ));
                        assert(h2.frame_allocs@[j] == a);
                        assert(bytes_at(h3.data@, h2.frame_allocs@[j]) == bytes_at(
                            h2.data@,
                            h2.frame_allocs@[j],
                        ));
                    } else if alignment > DEFAULT_BUFFER_ALIGNMENT {
                        assert(s1.streamed_buffers@[i] == s0.streamed_buffers@[i]);
                        assert(s1.streamed_bytes(i) == s0.streamed_bytes(i));
                        let a = streamed_alloc(s2.streamed_buffers@[i]);
                        assert(bytes_at(h2.data@, a) == s1.streamed_bytes(i));
                        assert(h2.frame_allocs@.contains(a));
                        let j = choose|j: int|
                            0 <= j < h2.frame_allocs@.len() && h2.frame_allocs@[j] == a;
                        assert(bytes_at(h3.data@, h2.frame_allocs@[j]) == bytes_at(
                            h2.data@,
                            h2.frame_allocs@[j],
                        ));
                    } else {
                        assert(alignment >= 1);
                        assert(s1.streamed_buffers@[i] == s0.streamed_buffers@[i]);
                        assert(s2.streamed_buffers@[i] == s1.streamed_buffers@[i]);
                        assert(s2.streamed_bytes(i) == s0.streamed_bytes(i));
                        assert(bytes_at(
                            h3.data@,
                            streamed_alloc(s3.streamed_buffers@[i]),
                        ) == s2.streamed_bytes(i));
                    }
                },
                StreamedBuffer::Uploaded(_) => {},
            }
        }
    }
}

/// The relation `upload_pending_over` establishes between its pre- and
/// post-states, restated so that composition can be reasoned about.
pub open spec fn upload_step(
    pre_a: TransientAllocator,
    post_a: TransientAllocator,
    pre_h: UploadHeap,
    post_h: UploadHeap,
    lower: int,
) -> bool {
    &&& post_a.transient_data == pre_a.transient_data
    &&& post_a.reserved_buffers@.len() == pre_a.reserved_buffers@.len()
    &&& post_a.streamed_buffers@.len() == pre_a.streamed_buffers@.len()
    &&& post_h.capacity == pre_h.capacity
    &&& post_h.frame_travel@ >= pre_h.frame_travel@
    &&& pre_h.frame_allocs@.is_prefix_of(post_h.frame_allocs@)
    &&& (forall|i: int|
        0 <= i < pre_a.reserved_buffers@.len() ==> reserved_entry_done(
            #[trigger] pre_a.reserved_buffers@[i],
            post_a.reserved_buffers@[i],
            pre_h.cap(),
            post_h.frame_allocs@,
            lower,
        ))
    &&& (forall|i: int|
        0 <= i < pre_a.streamed_buffers@.len() ==> streamed_entry_done(
            #[trigger] pre_a.streamed_buffers@[i],
            post_a.streamed_buffers@[i],
            pre_h.cap(),
            post_h.frame_allocs@,
            lower,
        ))
    &&& (post_h.frame_travel@ <= pre_h.cap() ==> forall|k: int|
        0 <= k < pre_h.frame_allocs@.len() ==> bytes_at(
            post_h.data@,
            #[trigger] pre_h.frame_allocs@[k],
        ) == bytes_at(pre_h.data@, pre_h.frame_allocs@[k]))
    &&& (post_h.frame_travel@ <= pre_h.cap() ==> forall|i: int|
        0 <= i < pre_a.streamed_buffers@.len() && streamed_selected(
            #[trigger] pre_a.streamed_buffers@[i],
            lower,
        ) ==> bytes_at(post_h.data@, streamed_alloc(post_a.streamed_buffers@[i]))
            == pre_a.streamed_bytes(i))
}

} // verus!
