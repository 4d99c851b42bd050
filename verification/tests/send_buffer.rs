use ip_tcp::tcp::send_buffer::{
    CongestionControlInfo, CongestionControlStrategy, SendBuffer, SendBufferError, SendBufferState,
    SendData, MAX_RETRIES, SEND_BUFFER_MAX_WINDOW_SIZE,
};
use ip_tcp::tcp::tcp_stream::StreamSendThreadMsg;
use ip_tcp::tcp::{MTU, TCP_BUF_SIZE};

const NOW: u64 = 20_000_000_000;

fn setup() -> SendBuffer {
    setup_initial_seq(0)
}

fn setup_initial_seq(initial_seq: u32) -> SendBuffer {
    let mut buf = SendBuffer::new(initial_seq, CongestionControlStrategy::No);
    buf.state = SendBufferState::Ready;
    buf.handle_ack(initial_seq, u16::MAX, NOW);
    buf
}

fn write(buf: &mut SendBuffer, data: &[u8]) {
    assert_eq!(buf.write_data(data), Ok(Some(data.len())));
}

fn run(buf: &mut SendBuffer, now: u64) -> Vec<StreamSendThreadMsg> {
    assert!(buf.can_retry(now));
    let step = buf.send_step(now);
    assert!(!step.stopped, "Received unexpected shutdown");
    step.messages
}

fn check_data(msg: &StreamSendThreadMsg, expected_seq: u32, expected_data: &[u8]) {
    match msg {
        StreamSendThreadMsg::Outgoing(seq_num, recv_data) => {
            assert_eq!(*seq_num, expected_seq);
            assert_eq!(recv_data, expected_data);
        }
        _ => panic!("Unexpected mesg from send buffer"),
    }
}

fn recv_data(buf: &mut SendBuffer, expected_seq: u32, expected_data: &[u8]) {
    let messages = run(buf, NOW);
    assert_eq!(messages.len(), 1);
    check_data(&messages[0], expected_seq, expected_data);
}

fn recv_retry(buf: &mut SendBuffer, expected_seq: u32, expected_data: &[u8]) {
    let rto = buf._rto();
    assert_eq!(buf.timeout_step(NOW + rto).timeout, 0);
    let messages = run(buf, NOW + rto);
    check_data(&messages[0], expected_seq, expected_data);
}

fn recv_no_retry(buf: &mut SendBuffer) {
    let rto = buf._rto();
    assert!(!buf.timeout_step(NOW + 2 * rto).expired);
    assert!(run(buf, NOW + 2 * rto).is_empty(), "Retransmitted despite ack");
}

#[test]
fn test_send_buffer_simple() {
    let mut send_buf = setup();
    let data = vec![1u8, 2u8, 3u8, 4u8];
    write(&mut send_buf, &data);
    recv_data(&mut send_buf, 1, &data)
}

#[test]
fn test_multiple_sends() {
    let mut send_buf = setup();
    let data = vec![1u8, 2u8, 3u8, 4u8];
    write(&mut send_buf, &data);
    recv_data(&mut send_buf, 1, &data);

    write(&mut send_buf, &data);
    recv_data(&mut send_buf, 5u32, &data);
}

#[test]
fn test_single_retry() {
    let mut send_buf = setup();
    let data = vec![1u8, 2u8, 3u8, 4u8];
    write(&mut send_buf, &data);
    recv_data(&mut send_buf, 1u32, &data);
    recv_retry(&mut send_buf, 1u32, &data);
}

/// Tests that acked bytes aren't resent
#[test]
fn test_single_ack() {
    let mut send_buf = setup();
    let data = vec![1u8, 2u8, 3u8, 4u8];
    write(&mut send_buf, &data);
    recv_data(&mut send_buf, 1u32, &data);

    send_buf.handle_ack(5, u16::MAX, NOW);

    recv_no_retry(&mut send_buf);
}

#[test]
fn test_partial_ack() {
    let mut send_buf = setup();
    let data = vec![1u8, 2u8, 3u8, 4u8];
    write(&mut send_buf, &data);
    recv_data(&mut send_buf, 1u32, &data);

    send_buf.handle_ack(2, u16::MAX, NOW);
    recv_retry(&mut send_buf, 2u32, &[2u8, 3u8, 4u8]);
}

#[test]
fn test_overflow() {
    let mut send_buf = setup_initial_seq(u32::MAX - 1);
    let data = vec![1u8];
    write(&mut send_buf, &data);
    recv_data(&mut send_buf, u32::MAX, &data);

    let data = vec![2u8];
    write(&mut send_buf, &data);
    recv_data(&mut send_buf, 0, &data);

    let data = vec![3u8];
    write(&mut send_buf, &data);
    recv_data(&mut send_buf, 1, &data);
}

#[test]
fn test_send_big() {
    let mut send_buf = setup();
    let data = [0u8; MTU * 3 + 4];
    write(&mut send_buf, &data);
    let messages = run(&mut send_buf, NOW);
    assert_eq!(messages.len(), 4);
    check_data(&messages[0], 1, &data[0..MTU]);
    check_data(&messages[1], (MTU as u32) + 1, &data[MTU..2 * MTU]);
    check_data(&messages[2], (2 * MTU) as u32 + 1, &data[2 * MTU..3 * MTU]);
    check_data(&messages[3], (3 * MTU) as u32 + 1, &data[3 * MTU..]);
}

#[test]
fn test_send_big_small_window() {
    let mut send_buf = setup();
    send_buf.handle_ack(1, MTU as u16, NOW);
    let data = [0u8; MTU * 2];
    write(&mut send_buf, &data);
    recv_data(&mut send_buf, 1, &data[0..MTU]);
    recv_retry(&mut send_buf, 1, &data[0..MTU]);
    let outcome = send_buf.handle_ack((MTU as u32) + 1, MTU as u16, NOW);
    assert_eq!(outcome.bytes_acked, MTU as u32);
    // NOTE: can't really test that the next chunk is appropriately sent due to zero window
    // probing
}

#[test]
fn test_send_blocking_write() {
    let mut send_buf = setup();
    const DATA_SIZE: usize = TCP_BUF_SIZE * 2 + 3;
    let data = vec![0u8; DATA_SIZE];
    let mut bytes_written = 0;
    let mut bytes_received = 0;
    while bytes_received < DATA_SIZE {
        // none of it fits while the buffer is full
        if bytes_written < DATA_SIZE {
            let n = send_buf.write_data(&data[bytes_written..]).unwrap().unwrap();
            bytes_written += n;
        }
        for msg in run(&mut send_buf, NOW) {
            match msg {
                StreamSendThreadMsg::Outgoing(seq_num, recv_data) => {
                    assert_eq!(seq_num, bytes_received as u32 + 1);
                    assert!(recv_data.len() <= MTU);
                    assert_eq!(recv_data, data[..recv_data.len()]);
                    bytes_received += recv_data.len();
                }
                _ => panic!("Unexpected mesg from send buffer"),
            }
        }
        send_buf.handle_ack((bytes_received + 1) as u32, u16::MAX, NOW);
    }
    assert_eq!(bytes_written, DATA_SIZE);
    assert_eq!(send_buf.state, SendBufferState::Ready);
}

#[test]
fn retries_back_off_and_give_up() {
    let mut buf = setup();
    write(&mut buf, &[1]);
    recv_data(&mut buf, 1, &[1]);
    let rto = buf._rto();
    assert_eq!(rto, 3_000_000_000);
    let mut now = NOW + rto;
    for n in 1..=MAX_RETRIES {
        let messages = run(&mut buf, now);
        check_data(&messages[0], 1, &[1]);
        let wait = rto * 2u64.pow(n as u32);
        assert!(run(&mut buf, now + wait - 1).is_empty());
        now += wait;
    }
    let step = buf.send_step(now);
    assert!(step.stopped);
    assert_eq!(step.messages.len(), 2);
    assert!(matches!(step.messages[1], StreamSendThreadMsg::Shutdown));
    assert_eq!(buf.state, SendBufferState::_Closed);
    // one retry too many is never made
    assert!(!buf.can_retry(now));
}

#[test]
fn syn_and_fin_are_queued_and_retried() {
    let mut buf = SendBuffer::new(41, CongestionControlStrategy::No);
    assert_eq!(buf.write_data(&[1]), Ok(None));
    assert_eq!(buf.send_syn(NOW), Ok(true));
    assert_eq!(buf.send_syn(NOW), Ok(false));
    assert_eq!(buf.send_fin(NOW), Ok(false));
    let messages = run(&mut buf, NOW);
    assert_eq!(messages.len(), 1);
    assert!(matches!(messages[0], StreamSendThreadMsg::Syn));
    assert_eq!(buf.handle_ack_of_syn(100), Ok(()));
    assert_eq!(buf.handle_ack_of_syn(100), Err(SendBufferError::UnexpectedAckOfSyn));
    assert_eq!(buf.their_recv_window_size(), 100);
    assert_eq!(buf.send_syn(NOW), Err(SendBufferError::AlreadyEstablished));

    write(&mut buf, &[5, 6]);
    // waits until the data is in the window
    assert_eq!(buf.send_fin(NOW), Ok(false));
    let messages = run(&mut buf, NOW);
    check_data(&messages[0], 42, &[5, 6]);
    assert_eq!(buf.send_fin(NOW), Ok(true));
    let messages = run(&mut buf, NOW);
    assert!(matches!(messages[0], StreamSendThreadMsg::Fin(44)));
    assert_eq!(buf.send_fin(NOW), Err(SendBufferError::ConnectionClosing));
    assert_eq!(buf.write_data(&[1]), Err(SendBufferError::ConnectionClosing));
    buf.handle_ack(44, 100, NOW);
    buf.handle_ack_of_fin();
    assert!(buf.window.elems.is_empty());
    assert_eq!(buf.state, SendBufferState::_Closed);
}

#[test]
fn closed_window_is_probed() {
    let mut buf = setup();
    buf.handle_ack(1, 0, NOW);
    write(&mut buf, &[7, 8, 9]);
    let messages = run(&mut buf, NOW);
    assert_eq!(messages.len(), 1);
    check_data(&messages[0], 1, &[7]);
    let step = buf.timeout_step(NOW);
    assert!(step.probing);
    assert_eq!(step.timeout, 1_000_000_000);
    // the probe was taken and the window is open again
    let outcome = buf.handle_ack(2, 10, NOW);
    assert_eq!(outcome.bytes_acked, 1);
    assert!(outcome.wake_send_thread);
    recv_data(&mut buf, 2, &[8, 9]);
    assert!(!buf.timeout_step(NOW).probing);
}

#[test]
fn acks_give_round_trip_times() {
    let mut buf = setup();
    write(&mut buf, &[0; MTU + 2]);
    assert_eq!(run(&mut buf, NOW).len(), 2);
    assert_eq!(buf.window_size(), (4 * MTU - 2) as u16);
    // all of the first segment and a part of the second
    let outcome = buf.handle_ack(MTU as u32 + 2, 500, NOW + 70);
    assert_eq!(outcome.bytes_acked, MTU as u32 + 1);
    assert_eq!(outcome.rtts, vec![70]);
    assert!(outcome.wake_send_thread);
    assert_eq!(buf.their_recv_window_size(), 500);
    buf.set_srtt(1);
    assert_eq!(buf._srtt(), 1);
    assert_eq!(buf._rto(), 20_000_000);
    buf.set_srtt(u64::MAX);
    assert_eq!(buf._rto(), 60_000_000_000);
    // outside of the window
    let outcome = buf.handle_ack(MTU as u32 + 9, 400, NOW);
    assert_eq!(outcome.bytes_acked, 0);
    assert!(!outcome.wake_send_thread);
    assert_eq!(buf.their_recv_window_size(), 400);
}

#[test]
fn ack_past_the_end_of_the_sequence_space() {
    let mut buf = setup_initial_seq(u32::MAX - 2);
    write(&mut buf, &[1, 2, 3, 4]);
    recv_data(&mut buf, u32::MAX - 1, &[1, 2, 3, 4]);
    assert_eq!(buf.handle_ack(1, 100, NOW).bytes_acked, 3);
    recv_retry(&mut buf, 1, &[4]);

    // an ack before that end counts too
    let mut buf = setup_initial_seq(u32::MAX - 2);
    write(&mut buf, &[1, 2, 3, 4]);
    recv_data(&mut buf, u32::MAX - 1, &[1, 2, 3, 4]);
    assert_eq!(buf.handle_ack(u32::MAX, 100, NOW).bytes_acked, 1);
    assert_eq!(buf.window.bytes_in_window, 3);
    recv_retry(&mut buf, u32::MAX, &[2, 3, 4]);
    // one of what was not sent yet does not, nor one of what was acked already
    assert_eq!(buf.handle_ack(3, 100, NOW).bytes_acked, 0);
    assert_eq!(buf.handle_ack(u32::MAX - 1, 100, NOW).bytes_acked, 0);
    assert_eq!(buf.handle_ack(2, 100, NOW).bytes_acked, 3);
    assert_eq!(buf.window.starting_sequence, 2);
}

#[test]
fn acks_keep_the_end_of_the_window() {
    let mut buf = setup();
    write(&mut buf, &[1, 2, 3]);
    recv_data(&mut buf, 1, &[1, 2, 3]);
    write(&mut buf, &[4, 5]);
    recv_data(&mut buf, 4, &[4, 5]);
    // part of the first segment
    assert_eq!(buf.handle_ack(3, 77, NOW).bytes_acked, 2);
    let sizes: Vec<u32> = buf.window.elems.iter().map(|elem| elem.size).collect();
    assert_eq!(sizes, vec![1, 2]);
    assert_eq!(buf.window.starting_sequence, 3);
    assert_eq!(buf.window.bytes_in_window, 3);
    assert_eq!(buf.window.recv_window_size, 77);
    // the rest of it and part of the next
    assert_eq!(buf.handle_ack(5, 77, NOW).bytes_acked, 2);
    let sizes: Vec<u32> = buf.window.elems.iter().map(|elem| elem.size).collect();
    assert_eq!(sizes, vec![1]);
    assert_eq!(buf.window.starting_sequence as usize + buf.window.bytes_in_window, 6);
}

#[test]
fn distance_to_the_end_of_the_data() {
    let mut data = SendData { data: vec![1, 2, 3].into(), first_sequnce_number: 5 };
    assert_eq!(data.dist_to_end_from_seq(4), None);
    assert_eq!(data.dist_to_end_from_seq(5), Some(3));
    assert_eq!(data.dist_to_end_from_seq(7), Some(1));
    assert_eq!(data.dist_to_end_from_seq(8), None);
    data.first_sequnce_number = u32::MAX - 1;
    assert_eq!(data.dist_to_end_from_seq(u32::MAX - 2), None);
    assert_eq!(data.dist_to_end_from_seq(u32::MAX), Some(2));
    assert_eq!(data.dist_to_end_from_seq(0), Some(1));
    assert_eq!(data.dist_to_end_from_seq(1), None);
    // ends with the sequence space
    data.first_sequnce_number = u32::MAX - 2;
    assert_eq!(data.dist_to_end_from_seq(u32::MAX), Some(1));
    assert_eq!(data.dist_to_end_from_seq(0), None);
    data.ack(3);
    assert_eq!(data.dist_to_end_from_seq(0), None);
}

#[test]
fn only_the_fourth_repeat_retries_fast() {
    let mut window = SendBuffer::new(
        0,
        CongestionControlStrategy::Reno(CongestionControlInfo::new()),
    )
    .window;
    assert!(!window.handle_ack(1, 100, NOW).1);
    let repeats: Vec<bool> = (0..255).map(|_| window.handle_ack(1, 100, NOW).1).collect();
    for (i, fast_retry) in repeats.iter().enumerate() {
        assert_eq!(*fast_retry, i == 3);
    }
    let mut window = SendBuffer::new(0, CongestionControlStrategy::No).window;
    for _ in 0..9 {
        assert!(!window.handle_ack(1, 100, NOW).1);
    }
}

#[test]
fn retries_wait_for_round_trips() {
    let mut buf = setup();
    assert_eq!(buf._rto(), 3_000_000_000);
    buf.set_srtt(9_999_999);
    assert_eq!(buf._rto(), 20_000_000);
    buf.set_srtt(10_000_001);
    assert_eq!(buf._rto(), 20_000_002);
    buf.set_srtt(40_000_000);
    assert_eq!(buf._rto(), 80_000_000);
    buf.set_srtt(29_999_999_999);
    assert_eq!(buf._rto(), 59_999_999_998);
    buf.set_srtt(30_000_000_001);
    assert_eq!(buf._rto(), 60_000_000_000);
}

#[test]
fn timeouts() {
    let mut buf = setup();
    assert_eq!(buf.timeout_step(NOW).timeout, 1_000_000_000);
    write(&mut buf, &[1]);
    recv_data(&mut buf, 1, &[1]);
    let rto = buf._rto();
    assert_eq!(buf.timeout_step(NOW + 5).timeout, rto - 5);
    let step = buf.timeout_step(NOW + rto + 1);
    assert!(step.expired);
    assert_eq!(step.timeout, 0);
}

fn reno(buf: &SendBuffer) -> CongestionControlInfo {
    match buf.window.congestion_control {
        CongestionControlStrategy::Reno(info) => info,
        CongestionControlStrategy::No => panic!("no congestion control"),
    }
}

#[test]
fn slow_start_doubles_the_window_each_round() {
    let mut buf = SendBuffer::new(
        0,
        CongestionControlStrategy::Reno(CongestionControlInfo::new()),
    );
    buf.state = SendBufferState::Ready;
    assert_eq!(buf.window.max_size, MTU);
    buf.handle_ack(1, u16::MAX, NOW);
    write(&mut buf, &[0; 8 * MTU]);
    // the round began one before the first byte
    assert_eq!(run(&mut buf, NOW).len(), 1);
    let acked = buf.window.starting_sequence + buf.window.bytes_in_window as u32;
    assert!(buf.window.can_count_ack(acked));
    buf.handle_ack(acked, u16::MAX, NOW);
    assert_eq!(reno(&buf).curr_window_size, 2 * MTU);
    assert_eq!(reno(&buf).curr_start, acked);
}

#[test]
fn reno_rounds() {
    let mut info = CongestionControlInfo::new();
    assert_eq!(info.curr_window_size, MTU);
    assert_eq!(info.ssthresh, usize::MAX);
    assert!(!info.handle_ack(MTU as u32));
    assert_eq!(info.curr_window_size, 2 * MTU);
    // not the end of a round
    assert!(!info.handle_ack(MTU as u32 + 1));
    assert_eq!(info.curr_window_size, 2 * MTU);
    // something was retried in the round
    info.drop_in_curr_window = true;
    assert!(!info.handle_ack(3 * MTU as u32));
    assert_eq!(info.curr_window_size, MTU);
    assert_eq!(info.ssthresh, MTU);
    assert!(!info.drop_in_curr_window);
    // linear growth from the threshold on
    assert!(!info.handle_ack(4 * MTU as u32));
    assert_eq!(info.curr_window_size, 2 * MTU);
    assert!(!info.handle_ack(6 * MTU as u32));
    assert_eq!(info.curr_window_size, 3 * MTU);
    // slow start has a limit
    info.ssthresh = usize::MAX;
    info.curr_window_size = SEND_BUFFER_MAX_WINDOW_SIZE - 1;
    assert!(!info.handle_ack(100 * MTU as u32));
    assert_eq!(info.curr_window_size, SEND_BUFFER_MAX_WINDOW_SIZE);
}

#[test]
fn fourth_duplicate_ack_retries_fast() {
    let mut buf = SendBuffer::new(
        0,
        CongestionControlStrategy::Reno(CongestionControlInfo::new()),
    );
    buf.state = SendBufferState::Ready;
    buf.handle_ack(1, u16::MAX, NOW);
    write(&mut buf, &[3, 4]);
    recv_data(&mut buf, 1, &[3, 4]);
    for _ in 0..3 {
        assert!(!buf.handle_ack(1, u16::MAX, NOW).wake_send_thread);
    }
    assert!(run(&mut buf, NOW).is_empty());
    assert!(buf.handle_ack(1, u16::MAX, NOW).wake_send_thread);
    assert_eq!(reno(&buf).dup_ack_count, 4);
    assert_eq!(reno(&buf).curr_window_size, MTU);
    // due at once
    recv_data(&mut buf, 1, &[3, 4]);
    assert!(reno(&buf).drop_in_curr_window);
}

#[test]
fn segments_stay_inside_the_window() {
    let mut buf = setup();
    buf.handle_ack(1, 2000, NOW);
    write(&mut buf, &[0; 4 * MTU]);
    let messages = run(&mut buf, NOW);
    assert_eq!(messages.len(), 2);
    check_data(&messages[0], 1, &[0; MTU]);
    check_data(&messages[1], 1 + MTU as u32, &[0; 2000 - MTU]);
    assert_eq!(buf.window.bytes_in_window, 2000);
    assert_eq!(buf.state, SendBufferState::Queueing);
    // our own limit counts too
    let mut buf = setup();
    write(&mut buf, &[0; 9 * MTU]);
    assert_eq!(run(&mut buf, NOW).len(), 5);
    assert_eq!(buf.window_size(), 0);
}
