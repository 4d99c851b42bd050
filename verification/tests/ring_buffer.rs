use ip_tcp::tcp::ring_buffer::RingBuffer;

#[test]
fn test_push() {
    let mut b = RingBuffer::new(5);
    b._push(&[0, 1, 2, 3]);
    b.move_write_idx(4);
    assert_eq!(b._get_raw_buf(), vec![0, 1, 2, 3, 0]);
    assert_eq!(b.write_idx, 4);
}

#[test]
fn test_push_offset() {
    let mut b = RingBuffer::new(5);
    b.push_with_offset(&[1, 1, 1], 2);
    assert_eq!(b.write_idx, 0);
    assert_eq!(b._get_raw_buf(), vec![0, 0, 1, 1, 1]);
}

#[test]
fn test_pop() {
    let mut b = RingBuffer::new(5);
    b._push(&[0, 1, 2, 3]);
    b.move_write_idx(4);
    assert_eq!(b._get_raw_buf(), vec![0, 1, 2, 3, 0]);

    let d = b.pop(2);
    assert_eq!(d, vec![0, 1]);
    assert_eq!(b.read_idx, 2);
}

#[test]
fn test_push_full() {
    let mut b = RingBuffer::new(5);
    b._push(&[1, 1, 1, 1, 1]);
    b.move_write_idx(5);
    assert_eq!(b.write_idx, 0);
}

#[test]
fn test_push_overwrite() {
    let mut b = RingBuffer::new(5);
    b._push(&[1, 1, 1]);
    b.move_write_idx(3);
    assert_eq!(b.write_idx, 3);
    assert_eq!(b._get_raw_buf(), vec![1, 1, 1, 0, 0]);
    b.pop(2);
    assert_eq!(b.read_idx, 2);
    assert_eq!(b.write_idx, 3);
    b._push(&[2, 2, 2, 2]);
    b.move_write_idx(4);
    assert_eq!(b.write_idx, 2);
    assert_eq!(b._get_raw_buf(), vec![2, 2, 1, 2, 2]);
}

#[test]
fn test_pop_beyond_write_idx() {
    let mut b = RingBuffer::new(5);
    b._push(&[0, 1, 2, 3]);
    b.move_write_idx(4);
    assert_eq!(b._get_raw_buf(), vec![0, 1, 2, 3, 0]);

    let d = b.pop(6);
    assert_eq!(d, vec![0, 1, 2, 3]);
    assert_eq!(b.read_idx, 4);
}

#[test]
fn test_pop_when_full() {
    let mut b = RingBuffer::new(5);
    b._push(&[1, 1, 1, 1, 1]);
    b.move_write_idx(5);
    assert_eq!(b.write_idx, 0);
    let d = b.pop(1);
    assert_eq!(d, vec![1]);
    assert_eq!(b.read_idx, 1);
    let d = b.pop(1);
    assert_eq!(d, vec![1]);
    assert_eq!(b.read_idx, 2);
}

#[test]
fn test_pop_when_full_two_sends() {
    let mut b = RingBuffer::new(5);
    assert!(b.empty);

    b._push(&[1, 1, 1, 1, 1]);
    b.move_write_idx(5);
    assert_eq!(b.write_idx, 0);
    assert!(!b.empty);

    let d = b.pop(1);
    assert_eq!(d, vec![1]);
    assert_eq!(b.read_idx, 1);

    b._push(&[2]);
    b.move_write_idx(1);
    assert_eq!(b.write_idx, 1);
    assert!(!b.empty);

    let d = b.pop(5);
    assert_eq!(d, vec![1, 1, 1, 1, 2]);
    assert_eq!(b.read_idx, 1);
    assert!(b.empty);
}

#[test]
fn pushed_bytes_are_readable_after_moving() {
    let mut b = RingBuffer::new(4);
    b._push(&[1, 2, 3]);
    b.move_write_idx(3);
    assert_eq!(b.pop(2), vec![1, 2]);
    b._push(&[4, 5, 6]);
    b.move_write_idx(3);
    assert_eq!(b.pop(9), vec![3, 4, 5, 6]);
    assert_eq!(b.pop(1), Vec::<u8>::new());
    assert!(b.empty);
}

#[test]
fn push_that_fills_the_ring_from_the_middle() {
    let mut b = RingBuffer::new(4);
    b._push(&[1, 2]);
    b.move_write_idx(2);
    assert_eq!(b.pop(2), vec![1, 2]);
    b._push(&[3, 4, 5, 6]);
    b.move_write_idx(4);
    assert_eq!(b._get_raw_buf(), vec![5, 6, 3, 4]);
    assert_eq!(b.write_idx, 2);
    assert_eq!(b.pop(4), vec![3, 4, 5, 6]);
}

#[test]
fn popping_a_part_leaves_the_flag() {
    let mut b = RingBuffer::new(5);
    b._push(&[0, 1, 2, 3]);
    b.move_write_idx(4);
    assert!(b.empty);
    assert_eq!(b.pop(2), vec![0, 1]);
    assert!(b.empty);
    assert_eq!(b.pop(2), vec![2, 3]);
    assert!(b.empty);
    b._push(&[4, 5, 6, 7, 8]);
    b.move_write_idx(5);
    assert!(!b.empty);
    assert_eq!(b.pop(2), vec![4, 5]);
    assert!(!b.empty);
}

#[test]
fn popping_nothing_changes_nothing() {
    let mut b = RingBuffer::new(2);
    assert!(b.pop(0).is_empty());
    assert!(b.empty);
    b.push_with_offset(&[7, 8], 0);
    b.move_write_idx(2);
    assert!(b.pop(0).is_empty());
    assert!(!b.empty);
    assert_eq!(b.pop(2), vec![7, 8]);
    assert!(b.empty);
    assert!(b.pop(2).is_empty());
}

#[test]
fn ring_slots_wrap() {
    let b = RingBuffer::new(5);
    assert_eq!(b.wrapping_add(3, 4), 2);
    assert_eq!(b.wrapping_add(3, 1), 4);
    assert_eq!(b._wrapping_sub(4, 1), 3);
    assert_eq!(b._wrapping_sub(1, 4), 3);
    assert_eq!(b.len(), 5);
}
