//! Behaviour of the parts of a connection.

use udp_transfer::duration::Duration;
use udp_transfer::reliable_core::send::SendStream;
use udp_transfer::reliable_core::{
    CongestionController, ConnectionConfigError, CoreError, ReceiveFlowControl, ReceiveStream,
    ReceivedPackets, RttEstimator, SendFlowControl,
};
use udp_transfer::time_wheel::TimerError;
use udp_transfer::wire::{PacketNumber, StreamData, StreamId};

#[test]
fn records_out_of_order_packets_as_merged_ranges() {
    let mut received = ReceivedPackets::new(32);
    assert!(received.record(PacketNumber::new(5), Duration::zero()));
    assert!(received.record(PacketNumber::new(3), Duration::from_millis(1)));
    assert!(received.record(PacketNumber::new(4), Duration::from_millis(2)));
    assert!(!received.record(PacketNumber::new(4), Duration::from_millis(3)));
    assert_eq!(received.ranges()[0].start.raw(), 3);
    assert_eq!(received.ranges()[0].end.raw(), 5);
}

#[test]
fn slow_start_grows_after_ack_and_loss_halves_the_window() {
    let mut controller = CongestionController::new(1_200, 1_200, 12_000, 1_200);
    assert!(controller.can_send(1_200));
    controller.on_sent(1_200);
    controller.on_acked(1_200);
    assert_eq!(controller.cwnd(), 2_400);
    controller.on_loss(1_200);
    assert_eq!(controller.cwnd(), 1_200);
    assert_eq!(controller.bytes_in_flight(), 0);
}

#[test]
fn reorders_and_deduplicates_segments_before_delivery() {
    let mut stream = ReceiveStream::new(StreamId::new(0), 100);
    assert_eq!(stream.insert(5, b" world", false).unwrap(), 6);
    assert!(!stream.readable());
    assert_eq!(stream.insert(0, b"hello", false).unwrap(), 5);
    assert_eq!(stream.read(100), b"hello world");
    assert_eq!(stream.insert(3, b"lo wo", false).unwrap(), 0);
}

#[test]
fn fin_is_delivered_only_after_all_bytes_are_contiguous() {
    let mut stream = ReceiveStream::new(StreamId::new(0), 100);
    stream.insert(3, b"def", true).unwrap();
    assert!(!stream.is_finished());
    stream.insert(0, b"abc", false).unwrap();
    assert_eq!(stream.read(3), b"abc");
    assert!(!stream.is_finished());
    assert_eq!(stream.read(3), b"def");
    assert!(stream.is_finished());
}

#[test]
fn computes_bounded_rto_and_backoff() {
    let mut rtt = RttEstimator::new(
        Duration::from_secs(1),
        Duration::from_millis(200),
        Duration::from_secs(60),
        Duration::from_millis(10),
    );
    rtt.on_ack(Duration::from_millis(100), Duration::zero());
    assert_eq!(rtt.srtt(), Some(Duration::from_millis(100)));
    assert_eq!(rtt.rto(), Duration::from_millis(300));
    rtt.on_timeout();
    assert_eq!(rtt.rto(), Duration::from_millis(600));
}

#[test]
fn rto_stays_within_its_bounds() {
    let mut rtt = RttEstimator::new(
        Duration::from_secs(1),
        Duration::from_millis(200),
        Duration::from_secs(60),
        Duration::from_millis(10),
    );
    for _ in 0..20 {
        rtt.on_timeout();
    }
    assert_eq!(rtt.rto(), Duration::from_secs(60));
    for _ in 0..50 {
        rtt.on_ack(Duration::from_millis(1), Duration::zero());
    }
    assert_eq!(rtt.rto(), Duration::from_millis(200));
}

#[test]
fn smoothed_time_moves_by_an_eighth() {
    let mut rtt = RttEstimator::new(
        Duration::from_secs(1),
        Duration::from_millis(1),
        Duration::from_secs(60),
        Duration::from_millis(1),
    );
    rtt.on_ack(Duration::from_millis(100), Duration::zero());
    rtt.on_ack(Duration::from_millis(180), Duration::zero());
    assert_eq!(rtt.srtt(), Some(Duration::from_millis(110)));
    let long = Duration::longest();
    rtt.on_ack(long, long.saturating_sub(Duration::from_millis(190)));
    assert_eq!(rtt.srtt(), Some(Duration::from_millis(120)));
}

#[test]
fn pieces_in_any_order_give_the_whole() {
    let pieces: [(u64, &[u8], bool); 4] =
        [(0, b"ab", false), (2, b"cd", false), (4, b"ef", true), (1, b"bcde", false)];
    for order in [[0, 1, 2, 3], [3, 2, 1, 0], [2, 0, 3, 1], [1, 3, 0, 2]] {
        let mut stream = ReceiveStream::new(StreamId::new(4), 64);
        for index in order {
            let (offset, data, fin) = pieces[index];
            stream.insert(offset, data, fin).unwrap();
        }
        assert_eq!(stream.read(64), b"abcdef");
        assert!(stream.is_finished());
    }
}

#[test]
fn bytes_beyond_the_window_or_the_end_are_refused() {
    let mut stream = ReceiveStream::new(StreamId::new(4), 4);
    assert!(matches!(
        stream.insert(0, b"12345", false),
        Err(CoreError::FlowControlViolation { stream_id: Some(_) })
    ));
    assert!(matches!(stream.insert(u64::MAX, b"1", false), Err(CoreError::InvalidOffset)));
    stream.insert(0, b"12", true).unwrap();
    assert!(stream.insert(2, b"3", false).is_err());
    assert_eq!(stream.read(10), b"12");
}

#[test]
fn acknowledgements_cover_exactly_what_came() {
    let mut received = ReceivedPackets::new(32);
    for number in [1_u64, 2, 3, 7, 9, 8, 20] {
        received.record(PacketNumber::new(number), Duration::zero());
    }
    let frame = received.frame(Duration::zero(), Duration::from_millis(5)).unwrap();
    assert_eq!(frame.largest.raw(), 20);
    for number in 0..25_u64 {
        assert_eq!(frame.acknowledges(number), [1, 2, 3, 7, 8, 9, 20].contains(&number));
    }
}

#[test]
fn errors_are_put_in_words() {
    assert_eq!(
        CoreError::Timer(TimerError::ClockOverflow).message(""),
        "timer error: wheel clock would overflow its u64 tick range"
    );
    assert_eq!(
        CoreError::StreamReset { stream_id: StreamId::new(4), error_code: 17 }.message("4"),
        "stream 4 was reset with error 17"
    );
    assert_eq!(
        CoreError::InvalidConfig(ConnectionConfigError::ZeroWindow).message(""),
        "invalid connection configuration: flow-control windows must be greater than zero"
    );
}

#[test]
fn windows_allow_what_fits_and_grow_as_data_is_read() {
    let mut sending = SendFlowControl::new(10);
    assert!(sending.can_send(10, false));
    sending.account_new_data(6);
    assert!(!sending.can_send(5, false));
    assert!(sending.can_send(5, true));
    sending.update(11);
    assert!(sending.can_send(5, false));
    sending.update(3);
    assert_eq!(sending.connection_max_offset, 11);

    let mut receiving = ReceiveFlowControl::new(8);
    receiving.account(None, 8).unwrap();
    assert!(matches!(
        receiving.check(None, 9, 1),
        Err(CoreError::FlowControlViolation { stream_id: None })
    ));
    assert_eq!(receiving.unique_received(), 8);
    assert_eq!(receiving.consume(8), Some(16));
    receiving.check(None, 9, 1).unwrap();
    assert!(receiving.account(None, usize::MAX).is_err());
    assert_eq!(receiving.unique_received(), 8);
}

#[test]
fn queued_bytes_are_those_of_the_pieces() {
    let mut stream = SendStream::new(StreamId::new(4), 1_000);
    assert!(matches!(stream.write(b"0123456789", false, 10, 4), Ok(10)));
    assert!(matches!(stream.write(b"x", false, 10, 4), Err(CoreError::SendBufferFull)));
    let first = stream.pop_sendable().unwrap();
    assert_eq!((first.offset(), first.data().len()), (0, 4));
    assert!(matches!(stream.write(b"abcde", false, 10, 4), Err(CoreError::SendBufferFull)));
    assert!(matches!(stream.write(b"abcd", true, 10, 4), Ok(4)));
    let lost = StreamData {
        stream_id: StreamId::new(4),
        offset: first.offset(),
        fin: first.fin(),
        data: first.data().clone(),
    };
    stream.requeue(&lost, 1);
    let mut lengths = Vec::new();
    let mut fins = Vec::new();
    while let Some(piece) = stream.pop_sendable() {
        lengths.push(piece.data().len());
        fins.push(piece.fin());
    }
    assert_eq!(lengths, vec![4, 4, 2, 4]);
    assert_eq!(fins, vec![false, false, false, true]);
    assert!(!stream.has_pending_data());
    assert!(matches!(stream.write(b"", false, 10, 4), Err(CoreError::InvalidState { .. })));
}
