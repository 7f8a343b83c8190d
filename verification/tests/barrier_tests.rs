use frame_submit::barrier::{
    ResourceBarrierTracker, TrackerHandle, BY_REGION_FLAGS, COMMAND_BARRIER_BIT,
    SHADER_STORAGE_BARRIER_BIT, UNIFORM_BARRIER_BIT,
};
use frame_submit::frame::BufferHandle;
use frame_submit::resources::ImageHandle;

#[test]
fn write_then_many_reads_gets_exactly_one_barrier() {
    let mut tracker = ResourceBarrierTracker::new();
    let res = TrackerHandle::Buffer(BufferHandle::Streamed(0));
    tracker.mark_resource(res);

    let mut emitted = 0;
    let mut first: Option<usize> = None;
    for read in 0..5usize {
        if tracker.insert_barrier(res, SHADER_STORAGE_BARRIER_BIT).is_some() {
            emitted += 1;
            first = Some(read);
        }
    }
    assert_eq!(emitted, 1);
    // and it stood before the first read after the write
    assert_eq!(first, Some(0));
}

#[test]
fn reads_without_a_write_need_no_barrier() {
    let mut tracker = ResourceBarrierTracker::new();
    let res = TrackerHandle::Image(ImageHandle(4));
    for _ in 0..3 {
        assert!(tracker.insert_barrier(res, UNIFORM_BARRIER_BIT).is_none());
    }
}

#[test]
fn a_second_write_earns_a_second_barrier() {
    let mut tracker = ResourceBarrierTracker::new();
    let res = TrackerHandle::Buffer(BufferHandle::Reserved(1));
    tracker.mark_resource(res);
    assert!(tracker.insert_barrier(res, SHADER_STORAGE_BARRIER_BIT).is_some());
    assert!(tracker.insert_barrier(res, SHADER_STORAGE_BARRIER_BIT).is_none());
    tracker.mark_resource(res);
    assert!(tracker.insert_barrier(res, SHADER_STORAGE_BARRIER_BIT).is_some());
}

#[test]
fn distinct_resources_are_tracked_separately() {
    let mut tracker = ResourceBarrierTracker::new();
    let a = TrackerHandle::Buffer(BufferHandle::Streamed(0));
    let b = TrackerHandle::Buffer(BufferHandle::Streamed(1));
    tracker.mark_resource(a);
    assert!(tracker.insert_barrier(b, UNIFORM_BARRIER_BIT).is_none());
    assert!(tracker.insert_barrier(a, UNIFORM_BARRIER_BIT).is_some());
}

#[test]
fn barrier_scope_follows_the_requested_classes() {
    let mut tracker = ResourceBarrierTracker::new();
    let res = TrackerHandle::Buffer(BufferHandle::Streamed(0));

    tracker.mark_resource(res);
    let by_region = tracker.insert_barrier(res, UNIFORM_BARRIER_BIT).unwrap();
    assert_eq!(by_region.bits, UNIFORM_BARRIER_BIT);
    assert!(by_region.by_region);

    tracker.mark_resource(res);
    let global = tracker.insert_barrier(res, COMMAND_BARRIER_BIT).unwrap();
    assert_eq!(global.bits, COMMAND_BARRIER_BIT);
    assert!(!global.by_region);

    // a mixed request with a class outside the by-region set falls
    // back to the global barrier
    tracker.mark_resource(res);
    let mixed = tracker.insert_barrier(res, UNIFORM_BARRIER_BIT | COMMAND_BARRIER_BIT).unwrap();
    assert!(!mixed.by_region);
    assert_eq!(UNIFORM_BARRIER_BIT & BY_REGION_FLAGS, UNIFORM_BARRIER_BIT);
}
