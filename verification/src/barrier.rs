//! Per-frame hazard tracking and minimal barrier insertion.
//!
//! Each resource used during a submission is keyed by one identity and
//! carries a single flag: written earlier in this submission.  Asking
//! for a barrier clears the flag and yields a barrier exactly when the
//! flag was set, so a resource written once and then read repeatedly
//! gets one barrier, before the first read.  The tracker's state is
//! scoped to one frame; hazards across frames are the upload heap
//! fences' business.

use vstd::prelude::*;
use crate::frame::BufferHandle;
use crate::resources::ImageHandle;

verus! {

pub const ELEMENT_ARRAY_BARRIER_BIT: u32 = 0x00000002;

pub const UNIFORM_BARRIER_BIT: u32 = 0x00000004;

pub const TEXTURE_FETCH_BARRIER_BIT: u32 = 0x00000008;

pub const SHADER_IMAGE_ACCESS_BARRIER_BIT: u32 = 0x00000020;

pub const COMMAND_BARRIER_BIT: u32 = 0x00000040;

pub const FRAMEBUFFER_BARRIER_BIT: u32 = 0x00000400;

pub const ATOMIC_COUNTER_BARRIER_BIT: u32 = 0x00001000;

pub const SHADER_STORAGE_BARRIER_BIT: u32 = 0x00002000;

/// The barrier classes that may be scoped to a framebuffer region;
/// barriers made only of these use the region-scoped primitive.
pub const BY_REGION_FLAGS: u32 = SHADER_STORAGE_BARRIER_BIT | UNIFORM_BARRIER_BIT
    | FRAMEBUFFER_BARRIER_BIT | ATOMIC_COUNTER_BARRIER_BIT | SHADER_IMAGE_ACCESS_BARRIER_BIT
    | TEXTURE_FETCH_BARRIER_BIT;

/// One identity for every resource a barrier can guard, buffer or image.
#[derive(Copy, Clone, Debug, Hash, PartialEq, Eq, Structural)]
pub enum TrackerHandle {
    Buffer(BufferHandle),
    Image(ImageHandle),
}

/// A memory barrier the submission must issue before the next use of
/// the resource it was emitted for.
#[derive(Copy, Clone, Debug, PartialEq, Eq, Structural)]
pub struct BarrierOp {
    pub bits: u32,
    pub by_region: bool,
}

/// The flag recorded for a handle: whether the resource was marked
/// read-write earlier in this submission.
pub open spec fn tracker_flag(entries: Seq<(TrackerHandle, bool)>, h: TrackerHandle) -> bool
    decreases entries.len(),
{
    if entries.len() == 0 {
        false
    } else if entries.first().0 == h {
        entries.first().1
    } else {
        tracker_flag(entries.drop_first(), h)
    }
}

/// Per-frame map of resource identity to the written-this-frame flag.
pub struct ResourceBarrierTracker {
    pub entries: Vec<(TrackerHandle, bool)>,
}

impl ResourceBarrierTracker {
    /// Each resource has at most one entry.
    pub open spec fn inv(&self) -> bool {
        forall|k1: int, k2: int|
            0 <= k1 < k2 < self.entries@.len() ==> (#[trigger] self.entries@[k1]).0
                != (#[trigger] self.entries@[k2]).0
    }

    pub open spec fn flag(&self, h: TrackerHandle) -> bool {
        tracker_flag(self.entries@, h)
    }

    /// The set of resources currently flagged as written this frame.
    pub open spec fn marked(&self) -> Set<TrackerHandle> {
        Set::new(|h: TrackerHandle| self.flag(h))
    }

    pub fn new() -> (out: ResourceBarrierTracker)
        ensures
            out.inv(),
            forall|h: TrackerHandle| !(#[trigger] out.flag(h)),
    {
        let out = ResourceBarrierTracker { entries: Vec::new() };
        proof {
            assert forall|h: TrackerHandle| !(#[trigger] out.flag(h)) by {
                assert(tracker_flag(out.entries@, h) == false);
            }
        }
        out
    }

    /// The index of the handle's entry, if it has one.
    fn find_index(&self, handle: TrackerHandle) -> (out: Option<usize>)
        ensures
            match out {
                Some(k) => k < self.entries@.len() && self.entries@[k as int].0 == handle
                    && self.flag(handle) == self.entries@[k as int].1,
                None => !self.flag(handle) && forall|k: int|
                    0 <= k < self.entries@.len() ==> (#[trigger] self.entries@[k]).0 != handle,
            },
    {
        let ghost whole = self.entries@;
        let mut i: usize = 0;
        proof {
            assert(whole.skip(0) =~= whole);
        }
        #[verifier::loop_isolation(false)]
        while i < self.entries.len()
            invariant
                i <= whole.len(),
                tracker_flag(whole, handle) == tracker_flag(whole.skip(i as int), handle),
                forall|k: int| 0 <= k < i ==> (#[trigger] whole[k]).0 != handle,
            decreases whole.len() - i,
        {
            proof {
                assert(whole.skip(i as int).first() == whole[i as int]);
                assert(whole.skip(i as int).drop_first() =~= whole.skip(i as int + 1));
            }
            if self.entries[i].0 == handle {
                return Some(i);
            }
            i += 1;
        }
        proof {
            assert(whole.skip(whole.len() as int) =~= Seq::<(TrackerHandle, bool)>::empty());
        }
        None
    }

    /// Record that the resource is written this frame: the next use
    /// needs a barrier.
    pub fn mark_resource(&mut self, handle: TrackerHandle)
        requires
            old(self).inv(),
        ensures
            final(self).inv(),
            final(self).flag(handle),
            forall|h2: TrackerHandle|
                h2 != handle ==> #[trigger] final(self).flag(h2) == old(self).flag(h2),
    {
        self.set_flag(handle, true);
    }

    /// Clear the flag for the resource; when it was set, hand back the
    /// one barrier that must precede the next operation using it.  The
    /// barrier is region-scoped exactly when every requested class is
    /// of the by-region kind.
    pub fn insert_barrier(&mut self, handle: TrackerHandle, barrier_bits: u32) -> (out: Option<
        BarrierOp,
    >)
        requires
            old(self).inv(),
        ensures
            final(self).inv(),
            out is Some <==> old(self).flag(handle),
            out == (if old(self).flag(handle) {
                Some(
                    BarrierOp {
                        bits: barrier_bits,
                        by_region: barrier_bits & BY_REGION_FLAGS == barrier_bits,
                    },
                )
            } else {
                None
            }),
            !final(self).flag(handle),
            forall|h2: TrackerHandle|
                h2 != handle ==> #[trigger] final(self).flag(h2) == old(self).flag(h2),
    {
        let was_marked = match self.find_index(handle) {
            Some(k) => self.entries[k].1,
            None => false,
        };
        self.set_flag(handle, false);
        if was_marked {
            Some(
                BarrierOp {
                    bits: barrier_bits,
                    by_region: barrier_bits & BY_REGION_FLAGS == barrier_bits,
                },
            )
        } else {
            None
        }
    }

    /// Set the handle's flag, keeping every other flag as it was.
    fn set_flag(&mut self, handle: TrackerHandle, value: bool)
        requires
            old(self).inv(),
        ensures
            final(self).inv(),
            final(self).flag(handle) == value,
            forall|h2: TrackerHandle|
                h2 != handle ==> #[trigger] final(self).flag(h2) == old(self).flag(h2),
    {
        let ghost pre = self.entries@;
        match self.find_index(handle) {
            Some(k) => {
                self.entries[k] = (handle, value);
                proof {
                    assert(self.entries@ =~= pre.update(k as int, (handle, value)));
                    lemma_tracker_flag_update(pre, k as int, handle, value);
                }
            },
            None => {
                self.entries.push((handle, value));
                proof {
                    lemma_tracker_flag_push(pre, handle, value);
                }
            },
        }
    }
}

/// Updating the entry that holds a handle changes that handle's flag
/// and nobody else's.
proof fn lemma_tracker_flag_update(
    entries: Seq<(TrackerHandle, bool)>,
    k: int,
    handle: TrackerHandle,
    value: bool,
)
    requires
        0 <= k < entries.len(),
        entries[k].0 == handle,
        forall|k1: int, k2: int|
            0 <= k1 < k2 < entries.len() ==> (#[trigger] entries[k1]).0 != (
            #[trigger] entries[k2]).0,
    ensures
        tracker_flag(entries.update(k, (handle, value)), handle) == value,
        forall|h2: TrackerHandle|
            h2 != handle ==> #[trigger] tracker_flag(entries.update(k, (handle, value)), h2)
                == tracker_flag(entries, h2),
    decreases entries.len(),
{
    let updated = entries.update(k, (handle, value));
    if k == 0 {
        assert(updated.first() == (handle, value));
        assert(updated.drop_first() =~= entries.drop_first());
        assert forall|h2: TrackerHandle| h2 != handle implies #[trigger] tracker_flag(
            updated,
            h2,
        ) == tracker_flag(entries, h2) by {
            assert(tracker_flag(updated, h2) == tracker_flag(updated.drop_first(), h2));
        }
    } else {
        assert(updated.first() == entries.first());
        assert(entries.first().0 != handle);
        assert(updated.drop_first() =~= entries.drop_first().update(k - 1, (handle, value)));
        assert forall|k1: int, k2: int|
            0 <= k1 < k2 < entries.drop_first().len() implies (#[trigger] entries.drop_first()[
            k1]).0 != (#[trigger] entries.drop_first()[k2]).0 by {
            assert(entries.drop_first()[k1] == entries[k1 + 1]);
            assert(entries.drop_first()[k2] == entries[k2 + 1]);
        }
        assert(entries.drop_first()[k - 1] == entries[k]);
        lemma_tracker_flag_update(entries.drop_first(), k - 1, handle, value);
        assert forall|h2: TrackerHandle| h2 != handle implies #[trigger] tracker_flag(
            updated,
            h2,
        ) == tracker_flag(entries, h2) by {
            if updated.first().0 != h2 {
                assert(tracker_flag(updated, h2) == tracker_flag(updated.drop_first(), h2));
                assert(tracker_flag(entries, h2) == tracker_flag(entries.drop_first(), h2));
            }
        }
    }
}

/// Appending an entry for a handle that has none sets that handle's
/// flag and nobody else's.
proof fn lemma_tracker_flag_push(
    entries: Seq<(TrackerHandle, bool)>,
    handle: TrackerHandle,
    value: bool,
)
    requires
        forall|k: int| 0 <= k < entries.len() ==> (#[trigger] entries[k]).0 != handle,
    ensures
        tracker_flag(entries.push((handle, value)), handle) == value,
        forall|h2: TrackerHandle|
            h2 != handle ==> #[trigger] tracker_flag(entries.push((handle, value)), h2)
                == tracker_flag(entries, h2),
    decreases entries.len(),
{
    let pushed = entries.push((handle, value));
    if entries.len() == 0 {
        assert(pushed.first() == (handle, value));
        assert(pushed.drop_first() =~= Seq::<(TrackerHandle, bool)>::empty());
        assert forall|h2: TrackerHandle| h2 != handle implies #[trigger] tracker_flag(
            pushed,
            h2,
        ) == tracker_flag(entries, h2) by {
            assert(tracker_flag(pushed.drop_first(), h2) == false);
        }
    } else {
        assert(pushed.first() == entries.first());
        assert(entries[0].0 != handle);
        assert(pushed.drop_first() =~= entries.drop_first().push((handle, value)));
        assert forall|k: int|
            0 <= k < entries.drop_first().len() implies (#[trigger] entries.drop_first()[k]).0
            != handle by {
            assert(entries.drop_first()[k] == entries[k + 1]);
        }
        lemma_tracker_flag_push(entries.drop_first(), handle, value);
        assert forall|h2: TrackerHandle| h2 != handle implies #[trigger] tracker_flag(
            pushed,
            h2,
        ) == tracker_flag(entries, h2) by {
            if pushed.first().0 != h2 {
                assert(tracker_flag(pushed, h2) == tracker_flag(pushed.drop_first(), h2));
                assert(tracker_flag(entries, h2) == tracker_flag(entries.drop_first(), h2));
            }
        }
    }
}

/// How many barriers a run of `n` uses of one resource produces, when
/// the written-flag starts as `flag0` and every use clears it.
pub open spec fn barriers_over_uses(flag0: bool, n: nat) -> nat
    decreases n,
{
    if n == 0 {
        0
    } else {
        (if flag0 {
            1nat
        } else {
            0nat
        }) + barriers_over_uses(false, (n - 1) as nat)
    }
}

/// For a resource written once and then used any positive number of
/// times without another write, exactly one barrier is emitted over the
/// whole run — by `insert_barrier`'s contract it is the one before the
/// first use after the write; repeated reads alone never produce one.
pub proof fn lemma_one_barrier_per_write(n: nat)
    ensures
        n >= 1 ==> barriers_over_uses(true, n) == 1,
        barriers_over_uses(false, n) == 0,
    decreases n,
{
    if n >= 1 {
        lemma_one_barrier_per_write((n - 1) as nat);
    }
}

} // verus!
