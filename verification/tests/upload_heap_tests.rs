use frame_submit::upload_heap::UploadHeap;

#[test]
fn fresh_heap_is_zeroed_and_empty() {
    let heap = UploadHeap::new(3, 64);
    assert_eq!(heap.buffer_name, 3);
    assert_eq!(heap.capacity, 64);
    assert_eq!(heap.data.len(), 64);
    assert!(heap.data.iter().all(|b| *b == 0));
    assert_eq!(heap.buffer_cursor, 0);
    assert_eq!(heap.locked_ranges.len(), 0);
    assert_eq!(heap.waited_fences.len(), 0);
}

#[test]
fn reserve_advances_cursor_and_aligns() {
    let mut heap = UploadHeap::new(0, 1024);
    let a = heap.reserve_space(5, 4);
    assert_eq!(a.offset, 0);
    assert_eq!(a.size, 5);
    // the cursor sits at 5, so a 16-aligned request starts at 16
    let b = heap.reserve_space(8, 16);
    assert_eq!(b.offset, 16);
    assert_eq!(heap.buffer_cursor, 24);
    assert_eq!(heap.buffer_usage_counter, 24);
}

#[test]
fn wraparound_restarts_at_zero_and_never_spans_the_boundary() {
    let mut heap = UploadHeap::new(0, 64);
    let a = heap.reserve_space(48, 4);
    assert_eq!(a.offset, 0);
    let b = heap.reserve_space(32, 4);
    // 48 + 32 exceeds the capacity, so the allocation restarts at zero
    assert_eq!(b.offset, 0);
    assert_eq!(b.size, 32);
    assert!(b.offset + b.size <= 64);
    assert_eq!(heap.buffer_cursor, 32);
}

#[test]
fn overlapping_locked_range_is_waited_for_and_retired() {
    // capacity 1024: a 1000-byte allocation at offset zero is locked
    // behind a fence; the next 100-byte request wraps to offset zero,
    // overlaps the locked range, and must wait for its fence first.
    let mut heap = UploadHeap::new(0, 1024);
    let first = heap.reserve_space(1000, 4);
    assert_eq!(first.offset, 0);
    heap.notify_finished(7);
    assert_eq!(heap.locked_ranges.len(), 1);
    assert_eq!(heap.locked_ranges[0].fence, 7);
    assert_eq!(heap.locked_ranges[0].start, 0);
    assert_eq!(heap.locked_ranges[0].size, 1000);

    heap.reset();
    let second = heap.reserve_space(100, 4);
    assert_eq!(second.offset, 0);
    assert_eq!(heap.waited_fences, vec![7]);
    assert_eq!(heap.locked_ranges.len(), 0);
}

#[test]
fn non_overlapping_locked_range_is_kept() {
    let mut heap = UploadHeap::new(0, 1024);
    heap.reserve_space(100, 4);
    heap.notify_finished(9);
    heap.reset();
    // the next allocation continues at the cursor and stays clear of
    // the locked first hundred bytes
    let a = heap.reserve_space(100, 4);
    assert_eq!(a.offset, 100);
    assert_eq!(heap.waited_fences.len(), 0);
    assert_eq!(heap.locked_ranges.len(), 1);
}

#[test]
fn zero_sized_allocation_overlaps_nothing() {
    let mut heap = UploadHeap::new(0, 64);
    heap.reserve_space(64, 4);
    heap.notify_finished(5);
    let a = heap.reserve_space(0, 1);
    assert_eq!(a.size, 0);
    assert_eq!(heap.waited_fences.len(), 0);
    assert_eq!(heap.locked_ranges.len(), 1);
}

#[test]
fn push_data_stores_the_bytes_at_the_returned_offset() {
    let mut heap = UploadHeap::new(0, 256);
    let payload = vec![1u8, 2, 3, 4, 5];
    let a = heap.push_data(&payload, 4);
    let back = heap.read_allocation(&a);
    assert_eq!(back, payload);
    assert_eq!(heap.data_pushed_counter, 5);
}

#[test]
fn cursor_persists_across_frames() {
    let mut heap = UploadHeap::new(0, 256);
    heap.reserve_space(32, 4);
    heap.notify_finished(1);
    heap.reset();
    let a = heap.reserve_space(16, 4);
    // ring semantics: the new frame continues where the old one ended
    assert_eq!(a.offset, 32);
}

#[test]
fn notify_finished_records_the_wrapped_span_length() {
    let mut heap = UploadHeap::new(0, 64);
    heap.reserve_space(48, 4);
    heap.notify_finished(1);
    heap.reset();
    // 32 bytes wrap to offset zero; the frame span runs from 48 over
    // the end of the buffer to 32
    heap.reserve_space(32, 4);
    heap.notify_finished(2);
    let range = heap.locked_ranges.last().unwrap();
    assert_eq!(range.start, 48);
    assert_eq!(range.size, 48);
}
