use ip_tcp::tcp::recv_buffer::{RecvBuffer, WindowData};
use ip_tcp::tcp::tcp_stream::StreamSendThreadMsg;
use ip_tcp::tcp::TCP_BUF_SIZE;

fn setup(initial_seq: u32) -> RecvBuffer {
    let mut rb = RecvBuffer::new();
    rb.set_initial_seq_num_data(initial_seq);
    rb
}

fn send_and_check(buf: &mut RecvBuffer, seq: u32, data: Vec<u8>, expected_ack: u32) {
    match buf.handle_seq(seq, &data) {
        Some(StreamSendThreadMsg::Ack(actual_ack, _)) => assert_eq!(actual_ack, expected_ack),
        _ => panic!("Unexpected stream_msg"),
    }
}

fn window(buf: &RecvBuffer) -> &WindowData {
    buf.win.as_ref().unwrap()
}

#[test]
/// Tests receiving data, with correct acks
fn test_recv_data() {
    let mut buf = setup(0);
    send_and_check(&mut buf, 1, vec![1, 2, 3, 4, 5, 6, 7], 8);
}

#[test]
/// Tests receiving data out of order, with correct acks
fn test_recv_data_out_of_order() {
    let mut buf = setup(0);
    send_and_check(&mut buf, 5, vec![4, 5, 6, 7], 1);
    send_and_check(&mut buf, 3, vec![2, 3], 1);
    send_and_check(&mut buf, 2, vec![1], 1);
    // ack should go up by 8 bytes, since we wrote 8 bytes
    send_and_check(&mut buf, 1, vec![0], 9);
}

#[test]
/// Tests receiving data when it wraps around the internal buffer
fn test_recv_data_wrap_internal_buffer() {
    let mut buf = setup(0);
    send_and_check(
        &mut buf,
        1,
        vec![1; TCP_BUF_SIZE],
        1 + TCP_BUF_SIZE as u32,
    );
    buf.read_data(&mut vec![0u8; TCP_BUF_SIZE / 2]);
    send_and_check(
        &mut buf,
        1 + TCP_BUF_SIZE as u32,
        vec![2; TCP_BUF_SIZE / 2],
        1 + TCP_BUF_SIZE as u32 + (TCP_BUF_SIZE / 2) as u32,
    );
    let mut expected = vec![2u8; TCP_BUF_SIZE / 2];
    expected.append(&mut vec![1u8; TCP_BUF_SIZE - (TCP_BUF_SIZE / 2)]);
    assert_eq!(buf.buf._get_raw_buf(), &expected);
}

#[test]
/// Tests receiving ack when sequence number wraps around
fn test_recv_data_wrap_seq_num() {
    let mut buf = setup(u32::MAX - 1);
    send_and_check(&mut buf, u32::MAX, vec![1, 1], 1);
    let mut actual = vec![0, 0];
    buf.read_data(&mut actual);
    assert_eq!(actual, vec![1, 1]);
}

#[test]
/// Tests receiving data when sequence number wraps around out of order
fn test_recv_data_wrap_seq_num_out_of_order() {
    let mut buf = setup(u32::MAX - 1);
    send_and_check(&mut buf, 2, vec![1, 1], u32::MAX);
    send_and_check(&mut buf, u32::MAX, vec![2, 2, 2], 4);
}

#[test]
fn segments_in_any_order_read_back_in_order() {
    let stream: Vec<u8> = (0..20).collect();
    // around the end of the sequence space, overlapping and repeated
    let first = u32::MAX - 4;
    let mut buf = setup(first.wrapping_sub(1));
    for (from, to) in [(12, 17), (3, 9), (15, 20), (3, 6), (8, 13)] {
        send_and_check(&mut buf, first.wrapping_add(from), stream[from as usize..to].to_vec(), first);
    }
    assert_eq!(window(&buf).intervals, vec![(first.wrapping_add(3), first.wrapping_add(20))]);
    send_and_check(&mut buf, first, stream[0..4].to_vec(), first.wrapping_add(20));
    assert!(window(&buf).intervals.is_empty());
    let mut read = vec![0u8; 30];
    let (n, msg) = buf.read_data(&mut read);
    assert_eq!(n, 20);
    assert_eq!(&read[..20], &stream[..]);
    assert!(matches!(msg, Some(StreamSendThreadMsg::UpdateWindowSize(65535))));
}

#[test]
fn intervals_are_coalesced_and_pruned() {
    let mut buf = setup(0);
    send_and_check(&mut buf, 10, vec![0; 5], 1);
    send_and_check(&mut buf, 30, vec![0; 5], 1);
    assert_eq!(window(&buf).intervals, vec![(10, 15), (30, 35)]);
    // adjoins the first
    send_and_check(&mut buf, 15, vec![0; 5], 1);
    assert_eq!(window(&buf).intervals, vec![(10, 20), (30, 35)]);
    // reaches over the gap between them
    send_and_check(&mut buf, 18, vec![0; 20], 1);
    assert_eq!(window(&buf).intervals, vec![(10, 38)]);
    send_and_check(&mut buf, 50, vec![0; 2], 1);
    // fills the first gap only
    send_and_check(&mut buf, 1, vec![0; 9], 38);
    assert_eq!(window(&buf).intervals, vec![(50, 52)]);
}

#[test]
fn empty_intervals_add_nothing() {
    let mut buf = setup(0);
    send_and_check(&mut buf, 10, vec![0; 5], 1);
    let win = buf.win.as_mut().unwrap();
    // in an interval, at its edges, and away from it
    assert_eq!(win.handle_interval(12, 12), (10, 15));
    assert_eq!(win.handle_interval(10, 10), (10, 15));
    assert_eq!(win.handle_interval(15, 15), (10, 15));
    assert_eq!(win.handle_interval(9, 9), (9, 9));
    assert_eq!(win.handle_interval(40, 40), (40, 40));
    assert_eq!(win.intervals, vec![(10, 15)]);
    assert_eq!(win.handle_interval(14, 20), (10, 20));
    assert_eq!(win.handle_interval(30, 31), (30, 31));
    assert_eq!(win.intervals, vec![(10, 20), (30, 31)]);
}

#[test]
fn acks_do_not_depend_on_the_order_of_arrival() {
    let segments: [(u32, usize); 4] = [(u32::MAX, 3), (2, 4), (5, 5), (20, 1)];
    let orders: [[usize; 5]; 4] =
        [[0, 1, 2, 3, 3], [3, 2, 1, 0, 0], [2, 0, 3, 1, 2], [1, 3, 1, 2, 0]];
    for order in orders {
        let mut buf = setup(u32::MAX - 1);
        let mut last = 0;
        for i in order {
            let (seq, len) = segments[i];
            match buf.handle_seq(seq, &vec![1; len]) {
                Some(StreamSendThreadMsg::Ack(ack, size)) => {
                    let taken = ack.wrapping_sub(u32::MAX);
                    assert!(taken >= last);
                    assert_eq!(size as usize, TCP_BUF_SIZE - taken as usize);
                    last = taken;
                }
                _ => panic!("Unexpected stream_msg"),
            }
        }
        assert_eq!(window(&buf).current_ack, 10);
        assert_eq!(window(&buf).intervals, vec![(20, 21)]);
    }
}

#[test]
fn segments_at_the_window_edges() {
    let mut buf = setup(0);
    send_and_check(&mut buf, 1, vec![7; 10], 11);
    // a duplicate is acked again and changes nothing
    send_and_check(&mut buf, 1, vec![9; 10], 11);
    // the first part is a duplicate
    send_and_check(&mut buf, 6, vec![8; 10], 16);
    let mut read = vec![0u8; 15];
    buf.read_data(&mut read);
    assert_eq!(read, [vec![7; 10], vec![8; 5]].concat());
    // the window now reaches up to 65551, what lies beyond is cut off
    send_and_check(&mut buf, 65549, vec![3; 9], 16);
    assert_eq!(window(&buf).intervals, vec![(65549, 65551)]);
    // reaches past both edges
    send_and_check(&mut buf, 0, vec![4; 70000], 16);
    // wholly outside
    send_and_check(&mut buf, 65551, vec![4], 16);
    send_and_check(&mut buf, 16, vec![5; 65533], 65551);
}

#[test]
fn closed_window_takes_nothing() {
    let mut buf = setup(0);
    send_and_check(&mut buf, 1, vec![1; TCP_BUF_SIZE], 1 + TCP_BUF_SIZE as u32);
    assert_eq!(buf.window_size(), 0);
    assert!(buf.handle_seq(1 + TCP_BUF_SIZE as u32, &[2]).is_none());
    let mut one = [0u8];
    let (n, msg) = buf.read_data(&mut one);
    assert_eq!((n, one), (1, [1]));
    assert!(matches!(msg, Some(StreamSendThreadMsg::UpdateWindowSize(1))));
    send_and_check(&mut buf, 1 + TCP_BUF_SIZE as u32, vec![2, 3], 2 + TCP_BUF_SIZE as u32);
}

#[test]
fn reading_what_is_not_there() {
    let mut buf = setup(5);
    let mut data = [9u8; 3];
    let (n, msg) = buf.read_data(&mut data);
    assert_eq!(n, 0);
    assert!(msg.is_none());
    assert_eq!(data, [9, 9, 9]);
    assert_eq!(buf.window_size(), 65535);
}

#[test]
fn ranges_may_run_over_the_end_of_the_sequence_space() {
    assert!(WindowData::wrapping_within(5, 5, 6));
    assert!(!WindowData::wrapping_within(6, 5, 6));
    assert!(!WindowData::wrapping_within(5, 5, 5));
    assert!(WindowData::wrapping_within(u32::MAX, u32::MAX - 1, 3));
    assert!(WindowData::wrapping_within(2, u32::MAX - 1, 3));
    assert!(!WindowData::wrapping_within(3, u32::MAX - 1, 3));
}
