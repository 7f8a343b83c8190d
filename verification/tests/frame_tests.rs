use frame_submit::frame::{
    BufferHandle, ReservedBuffer, StreamedBuffer, TransientAllocator, DEFAULT_BUFFER_ALIGNMENT,
};
use frame_submit::commands::FrameState;
use frame_submit::upload_heap::UploadHeap;

#[test]
fn streamed_round_trip_through_the_heap_is_identity() {
    let mut frame = FrameState::new();
    let payload = vec![10u8, 20, 30, 40, 50, 60];
    let handle = frame.stream_buffer(&payload);

    let mut heap = UploadHeap::new(0, 1024);
    frame.allocator.upload_buffers(&mut heap);

    let allocation = frame.allocator.resolve_buffer_allocation(handle);
    assert_eq!(allocation.size, payload.len());
    let back = heap.read_allocation(&allocation);
    assert_eq!(back, payload);
}

#[test]
fn several_streamed_buffers_round_trip_together() {
    let mut frame = FrameState::new();
    let a = vec![1u8, 2, 3];
    let b = vec![9u8, 8, 7, 6];
    let ha = frame.stream_buffer(&a);
    let hb = frame.stream_buffer(&b);

    let mut heap = UploadHeap::new(0, 1024);
    frame.allocator.upload_buffers(&mut heap);

    let alloc_a = frame.allocator.resolve_buffer_allocation(ha);
    let alloc_b = frame.allocator.resolve_buffer_allocation(hb);
    assert_eq!(heap.read_allocation(&alloc_a), a);
    assert_eq!(heap.read_allocation(&alloc_b), b);
}

#[test]
fn alignment_widens_to_the_maximum_requested() {
    let mut frame = FrameState::new();
    let handle = frame.stream_buffer(&vec![0u8; 10]);
    frame.allocator.imbue_buffer_alignment(handle, 16);
    frame.allocator.imbue_buffer_alignment(handle, 8);
    match frame.allocator.streamed_buffers[0] {
        StreamedBuffer::Pending { alignment, .. } => assert_eq!(alignment, 16),
        _ => panic!("expected a pending entry"),
    }

    let mut heap = UploadHeap::new(0, 1024);
    heap.reserve_space(3, 1);
    frame.allocator.upload_buffers(&mut heap);
    let allocation = frame.allocator.resolve_buffer_allocation(handle);
    assert_eq!(allocation.offset % 16, 0);
}

#[test]
fn resolved_buffers_are_never_realigned() {
    let mut frame = FrameState::new();
    let handle = frame.stream_buffer(&vec![0u8; 4]);
    let mut heap = UploadHeap::new(0, 1024);
    frame.allocator.upload_buffers(&mut heap);
    let before = frame.allocator.resolve_buffer_allocation(handle);
    frame.allocator.imbue_buffer_alignment(handle, 64);
    let after = frame.allocator.resolve_buffer_allocation(handle);
    assert_eq!(before, after);
}

#[test]
fn reserved_buffers_get_space_without_data() {
    let mut frame = FrameState::new();
    let handle = frame.reserve_buffer(128);
    assert_eq!(handle, BufferHandle::Reserved(0));
    match frame.allocator.reserved_buffers[0] {
        ReservedBuffer::Pending { size, alignment } => {
            assert_eq!(size, 128);
            assert_eq!(alignment, DEFAULT_BUFFER_ALIGNMENT);
        },
        _ => panic!("expected a pending entry"),
    }
    let mut heap = UploadHeap::new(0, 1024);
    frame.allocator.upload_buffers(&mut heap);
    let allocation = frame.allocator.resolve_buffer_allocation(handle);
    assert_eq!(allocation.size, 128);
}

#[test]
fn wider_alignment_groups_upload_first() {
    let mut frame = FrameState::new();
    let small = frame.stream_buffer(&vec![1u8; 16]);
    let wide = frame.stream_buffer(&vec![2u8; 16]);
    frame.allocator.imbue_buffer_alignment(wide, 256);

    let mut heap = UploadHeap::new(0, 2048);
    frame.allocator.upload_buffers(&mut heap);

    // the uniform-class buffer goes in while the cursor is least
    // fragmented, ahead of the default-aligned one
    let wide_alloc = frame.allocator.resolve_buffer_allocation(wide);
    let small_alloc = frame.allocator.resolve_buffer_allocation(small);
    assert_eq!(wide_alloc.offset, 0);
    assert_eq!(small_alloc.offset, 16);
}

#[test]
fn reset_clears_everything_and_is_idempotent() {
    let mut frame = FrameState::new();
    frame.stream_buffer(&vec![1u8, 2, 3]);
    frame.reserve_buffer(64);
    frame.pass("draw".to_string());
    frame.reset();
    assert_eq!(frame.passes.len(), 0);
    assert_eq!(frame.allocator.streamed_buffers.len(), 0);
    assert_eq!(frame.allocator.reserved_buffers.len(), 0);
    assert_eq!(frame.allocator.transient_data.len(), 0);
    // a second reset without recording changes nothing and panics
    // nowhere
    frame.reset();
    assert_eq!(frame.passes.len(), 0);
    assert_eq!(frame.allocator.streamed_buffers.len(), 0);
    assert_eq!(frame.allocator.reserved_buffers.len(), 0);
    assert_eq!(frame.allocator.transient_data.len(), 0);
}

#[test]
fn handles_number_entries_in_record_order() {
    let mut frame = FrameState::new();
    let s0 = frame.stream_buffer(&vec![0u8]);
    let r0 = frame.reserve_buffer(4);
    let s1 = frame.stream_buffer(&vec![0u8]);
    assert_eq!(s0, BufferHandle::Streamed(0));
    assert_eq!(r0, BufferHandle::Reserved(0));
    assert_eq!(s1, BufferHandle::Streamed(1));
}

#[test]
fn allocator_round_trip_survives_a_locked_previous_frame() {
    // a previous frame's data sits locked in the ring; the next frame
    // wraps around it and its own data still reads back intact
    let mut heap = UploadHeap::new(0, 256);
    let mut frame = FrameState::new();
    let first = frame.stream_buffer(&vec![0xAAu8; 200]);
    frame.allocator.upload_buffers(&mut heap);
    let first_alloc = frame.allocator.resolve_buffer_allocation(first);
    assert_eq!(heap.read_allocation(&first_alloc), vec![0xAAu8; 200]);
    heap.notify_finished(42);
    frame.reset();
    heap.reset();

    let second = frame.stream_buffer(&vec![0x55u8; 100]);
    frame.allocator.upload_buffers(&mut heap);
    let second_alloc = frame.allocator.resolve_buffer_allocation(second);
    assert_eq!(heap.read_allocation(&second_alloc), vec![0x55u8; 100]);
    // the wrap overlapped the previous frame's span, so its fence was
    // retired first
    assert_eq!(heap.waited_fences, vec![42]);
}
