//! Packets of a connection: numbering, acknowledgement, loss and sending.

use std::collections::VecDeque;

use vstd::prelude::*;

use crate::duration::{Duration, MAX_NANOS};
use crate::ordered_map::OrderedMap;
use crate::reliable_core::ack::{first_ranges, ranges_with, ReceivedPackets};
use crate::reliable_core::config::ConnectionConfig;
use crate::reliable_core::congestion::{greater, lesser, CongestionController};
use crate::reliable_core::error::CoreError;
use crate::reliable_core::event::{
    lemma_output_pushed, output_views, ConnectionState, CoreOutput, OutputView,
};
use crate::reliable_core::flow_control::SendFlowControl;
use crate::reliable_core::recovery::{SentPacket, SentView};
use crate::reliable_core::rtt::{measured, RttEstimator};
use crate::reliable_core::send::{QueuedFrame, QueuedView};
use crate::reliable_core::sending::{
    candidate_taken, lemma_run_goes_on, packet_committed, packet_of, sending_done, sending_ends,
    sending_run, sending_step, LayoutAnswer, SendingView,
};
use crate::reliable_core::streams::{
    first_sendable, piece_frame, popped, requeued, sendable, StreamManager, StreamView,
};
use crate::reliable_core::timer::TimerEvent;
use crate::reliable_core::timers::{TimerState, TimersView};
use crate::time_wheel::shape::slots_without;
use crate::time_wheel::Timer;
use crate::wire::{
    ranges_hold, AckFrame, AckRange, AckView, ConnectionId, Frame, FrameView, Packet, PacketFlags,
    PacketNumber, PacketType, PacketView, Ping, ProtocolError, Wire,
};

verus! {

/// The transport of a connection, as contracts see it.
#[verifier::ext_equal]
pub struct TransportView {
    pub next_packet_number: u64,
    /// Frames that wait to be sent.
    pub pending: Seq<QueuedView>,
    /// Packets that were sent and not acknowledged, by number.
    pub sent: Map<u64, SentView>,
    /// Packets that were received.
    pub held: Seq<AckRange>,
    pub largest_at: Option<Duration>,
    pub max_ranges: usize,
    pub ack_pending: bool,
    pub ack_ready: bool,
    pub generation: u32,
    pub congestion: CongestionController,
    pub rtt: RttEstimator,
    pub last_ping_nonce: u64,
}

/// Nothing was sent or received.
pub open spec fn fresh_transport(view: TransportView, config: ConnectionConfig) -> bool {
    &&& view.next_packet_number == 0
    &&& view.pending == Seq::<QueuedView>::empty()
    &&& view.sent == Map::<u64, SentView>::empty()
    &&& view.held == Seq::<AckRange>::empty()
    &&& view.largest_at is None
    &&& view.max_ranges == config.limits.max_ack_ranges
    &&& !view.ack_pending
    &&& !view.ack_ready
    &&& view.generation == 0
    &&& view.congestion.bytes_in_flight == 0
    &&& view.congestion.cwnd == greater(
        config.min_congestion_window as int,
        lesser(
            config.initial_congestion_window as int,
            config.max_congestion_window as int,
        ),
    )
    &&& view.congestion.ssthresh == config.max_congestion_window
    &&& view.congestion.min_cwnd == config.min_congestion_window
    &&& view.congestion.max_cwnd == config.max_congestion_window
    &&& view.congestion.mss == greater(config.max_datagram_size as int, 1)
    &&& view.rtt.srtt is None
    &&& view.rtt.rttvar@ == 0
    &&& view.rtt.rto == config.initial_rto
    &&& view.rtt.initial_rto == config.initial_rto
    &&& view.rtt.min_rto == config.min_rto
    &&& view.rtt.max_rto == config.max_rto
    &&& view.rtt.granularity == config.clock_granularity
    &&& view.last_ping_nonce == 0
}

/// What acknowledgements and losses change.
#[verifier::ext_equal]
pub struct AckRun {
    pub sent: Map<u64, SentView>,
    pub timers: Map<u64, Timer<TimerEvent>>,
    pub slots: Map<(int, int), Seq<u64>>,
    pub congestion: CongestionController,
    pub pending: Seq<QueuedView>,
    pub streams: Map<u64, StreamView>,
    pub failed: Option<CoreError>,
}

/// The numbers are those of the packets, in rising order.
pub open spec fn rising_numbers(numbers: Seq<u64>, sent: Map<u64, SentView>) -> bool {
    &&& forall|i: int, j: int| 0 <= i < j < numbers.len() ==> numbers[i] < numbers[j]
    &&& forall|number: u64| #[trigger] numbers.contains(number) <==> sent.contains_key(number)
}

/// A packet that is acknowledged leaves, and its timer with it.
pub open spec fn ack_step(run: AckRun, number: u64, ranges: Seq<AckRange>) -> AckRun {
    if ranges_hold(ranges, number) {
        let packet = run.sent[number];
        AckRun {
            sent: run.sent.remove(number),
            timers: run.timers.remove(packet.timer_id.value()),
            slots: slots_without(run.slots, packet.timer_id.value()),
            congestion: run.congestion.after_ack(packet.encoded_len),
            ..run
        }
    } else {
        run
    }
}

/// The first `count` packets that are acknowledged leave.
pub open spec fn ack_run(
    run: AckRun,
    numbers: Seq<u64>,
    ranges: Seq<AckRange>,
    count: int,
) -> AckRun
    decreases count,
{
    if count <= 0 {
        run
    } else {
        ack_step(ack_run(run, numbers, ranges, count - 1), numbers[count - 1], ranges)
    }
}

/// The lowest of the first `count` packets that is acknowledged and was sent
/// once: its age is the measurement.
pub open spec fn sampled(
    sent: Map<u64, SentView>,
    numbers: Seq<u64>,
    ranges: Seq<AckRange>,
    count: int,
) -> Option<u64>
    decreases count,
{
    if count <= 0 {
        None
    } else {
        let before = sampled(sent, numbers, ranges, count - 1);
        let number = numbers[count - 1];
        if before is Some {
            before
        } else if ranges_hold(ranges, number) && sent[number].retransmit_count == 0 {
            Some(number)
        } else {
            None
        }
    }
}

/// How many of the first `count` packets are acknowledged and above `number`.
pub open spec fn higher_acks(
    numbers: Seq<u64>,
    ranges: Seq<AckRange>,
    number: u64,
    count: int,
) -> nat
    decreases count,
{
    if count <= 0 {
        0
    } else {
        higher_acks(numbers, ranges, number, count - 1) + (if numbers[count - 1] > number
            && ranges_hold(ranges, numbers[count - 1]) {
            1nat
        } else {
            0
        })
    }
}

/// Whether a packet counts as lost: enough packets above it are acknowledged.
pub open spec fn is_lost(
    numbers: Seq<u64>,
    ranges: Seq<AckRange>,
    number: u64,
    threshold: u64,
) -> bool {
    !ranges_hold(ranges, number) && higher_acks(numbers, ranges, number, numbers.len() as int)
        >= threshold
}

/// The frame of a lost packet is queued again, unless it was lost too often.
pub open spec fn requeue_step(
    run: AckRun,
    frame: FrameView,
    retransmit_count: u32,
    max_retransmissions: u32,
) -> AckRun {
    let next = lesser(retransmit_count + 1, u32::MAX as int) as u32;
    if next > max_retransmissions {
        AckRun { failed: Some(CoreError::RetransmissionLimit), ..run }
    } else {
        put_back(run, QueuedView { frame, retransmit_count: next })
    }
}

/// A frame goes back to the front of the queue it came from.
pub open spec fn put_back(run: AckRun, queued: QueuedView) -> AckRun {
    match queued.frame {
        FrameView::StreamData(data) => if run.streams.contains_key(data.stream_id.value) {
            AckRun {
                streams: run.streams.insert(
                    data.stream_id.value,
                    requeued(run.streams[data.stream_id.value], data, queued.retransmit_count),
                ),
                ..run
            }
        } else {
            AckRun {
                failed: Some(CoreError::UnknownStream { stream_id: data.stream_id }),
                ..run
            }
        },
        _ => AckRun { pending: seq![queued] + run.pending, ..run },
    }
}

/// A packet that is lost leaves, and its frame is queued again.
pub open spec fn loss_step(
    run: AckRun,
    number: u64,
    lost: bool,
    max_retransmissions: u32,
) -> AckRun {
    if lost && run.failed is None {
        let packet = run.sent[number];
        requeue_step(
            AckRun {
                sent: run.sent.remove(number),
                timers: run.timers.remove(packet.timer_id.value()),
                slots: slots_without(run.slots, packet.timer_id.value()),
                congestion: run.congestion.after_loss(packet.encoded_len),
                ..run
            },
            packet.frame.frame,
            packet.retransmit_count,
            max_retransmissions,
        )
    } else {
        run
    }
}

/// The first `count` packets that are lost leave, up to a failure.
pub open spec fn loss_run(
    run: AckRun,
    numbers: Seq<u64>,
    ranges: Seq<AckRange>,
    threshold: u64,
    max_retransmissions: u32,
    count: int,
) -> AckRun
    decreases count,
{
    if count <= 0 {
        run
    } else {
        loss_step(
            loss_run(run, numbers, ranges, threshold, max_retransmissions, count - 1),
            numbers[count - 1],
            is_lost(numbers, ranges, numbers[count - 1], threshold),
            max_retransmissions,
        )
    }
}

/// What to send next.
#[derive(Debug)]
pub enum Candidate {
    Ack(AckFrame),
    Frame(QueuedFrame),
}

/// A [`Candidate`], as contracts see it.
pub enum CandidateView {
    Ack(AckView),
    Frame(QueuedView),
}

impl View for Candidate {
    type V = CandidateView;

    open spec fn view(&self) -> CandidateView {
        match self {
            Candidate::Ack(ack) => CandidateView::Ack(ack@),
            Candidate::Frame(queued) => CandidateView::Frame(queued@),
        }
    }
}

/// The frame of a candidate.
pub open spec fn frame_of(candidate: CandidateView) -> FrameView {
    match candidate {
        CandidateView::Ack(ack) => FrameView::Ack(ack),
        CandidateView::Frame(queued) => queued.frame,
    }
}

/// What a packet with this frame is for.
pub open spec fn type_of(frame: FrameView, state: ConnectionState) -> PacketType {
    match frame {
        FrameView::ClientHello(_) => PacketType::Initial,
        FrameView::HandshakeAck { .. } => PacketType::Handshake,
        FrameView::ServerHello(_) => PacketType::Handshake,
        FrameView::ConnectionClose { .. } => PacketType::Close,
        _ => if state == ConnectionState::Handshaking {
            PacketType::Handshake
        } else {
            PacketType::Data
        },
    }
}

/// What a packet with this candidate is for. An acknowledgement always goes in
/// a data packet.
pub open spec fn candidate_type(candidate: CandidateView, state: ConnectionState) -> PacketType {
    match candidate {
        CandidateView::Ack(_) => PacketType::Data,
        CandidateView::Frame(queued) => type_of(queued.frame, state),
    }
}

/// Whether the packet of a frame is not kept for sending again: the handshake
/// repeats these frames itself.
pub open spec fn is_handshake_frame(frame: FrameView) -> bool {
    frame is ClientHello || frame is ServerHello || frame is HandshakeAck
}

/// The side conditions under which packets are sent.
pub struct FlushIdentity {
    pub connection_id: ConnectionId,
    pub state: ConnectionState,
    pub now: Duration,
    pub encrypt_data: bool,
}

/// Frames, as contracts see them.
spec fn queued_views(queue: Seq<QueuedFrame>) -> Seq<QueuedView> {
    Seq::new(queue.len(), |i: int| queue[i]@)
}

/// Packets, as contracts see them.
spec fn sent_views(sent: Map<u64, SentPacket>) -> Map<u64, SentView> {
    Map::new(|number: u64| sent.contains_key(number), |number: u64| sent[number]@)
}

/// The packets of a connection.
pub struct TransportState {
    next_packet_number: u64,
    pending_frames: VecDeque<QueuedFrame>,
    sent: OrderedMap<SentPacket>,
    received: ReceivedPackets,
    ack_pending: bool,
    ack_ready: bool,
    generation: u32,
    congestion: CongestionController,
    rtt: RttEstimator,
    last_ping_nonce: u64,
}

impl View for TransportState {
    type V = TransportView;

    closed spec fn view(&self) -> TransportView {
        TransportView {
            next_packet_number: self.next_packet_number,
            pending: queued_views(self.pending_frames@),
            sent: sent_views(self.sent@),
            held: self.received.held(),
            largest_at: self.received.largest_at(),
            max_ranges: self.received.limit(),
            ack_pending: self.ack_pending,
            ack_ready: self.ack_ready,
            generation: self.generation,
            congestion: self.congestion,
            rtt: self.rtt,
            last_ping_nonce: self.last_ping_nonce,
        }
    }
}

impl TransportState {
    /// The parts are right, and each packet that waits for its acknowledgement is
    /// under its number, which was given before.
    pub closed spec fn well_formed(&self) -> bool {
        &&& self.sent.well_formed()
        &&& forall|number: u64| #[trigger]
            self@.sent.contains_key(number) ==> number < self.next_packet_number
                && self@.sent[number].packet_number.value == number
        &&& self.received.well_formed()
        &&& self.congestion.well_formed()
        &&& self.rtt.well_formed()
    }

    /// Finitely many packets wait for their acknowledgement, each under its number,
    /// which was given before.
    pub proof fn lemma_numbers(&self)
        requires
            self.well_formed(),
        ensures
            self@.sent.dom().finite(),
            forall|number: u64| #[trigger]
                self@.sent.contains_key(number) ==> number < self@.next_packet_number
                    && self@.sent[number].packet_number.value == number,
    {
        self.sent.lemma_keys();
        assert(self@.sent.dom() =~= self.sent@.dom());
        assert(self@.sent.dom() =~= self.sent.keys().to_set());
        self.sent.keys().lemma_cardinality_of_set();
    }

    /// What acknowledgements and losses may change.
    pub open spec fn run_before(&self, timers: &TimerState, streams: &StreamManager) -> AckRun {
        AckRun {
            sent: self@.sent,
            timers: timers.timers(),
            slots: timers.slots(),
            congestion: self@.congestion,
            pending: self@.pending,
            streams: streams@,
            failed: None,
        }
    }

    /// Nothing was sent or received.
    pub fn new(config: &ConnectionConfig) -> (transport: Self)
        requires
            config.min_congestion_window <= config.max_congestion_window,
            config.min_rto@ <= config.max_rto@,
        ensures
            transport.well_formed(),
            fresh_transport(transport@, *config),
    {
        let transport = TransportState {
            next_packet_number: 0,
            pending_frames: VecDeque::new(),
            sent: OrderedMap::new(),
            received: ReceivedPackets::new(config.limits.max_ack_ranges),
            ack_pending: false,
            ack_ready: false,
            generation: 0,
            congestion: CongestionController::new(
                config.initial_congestion_window,
                config.min_congestion_window,
                config.max_congestion_window,
                config.max_datagram_size,
            ),
            rtt: RttEstimator::new(
                config.initial_rto,
                config.min_rto,
                config.max_rto,
                config.clock_granularity,
            ),
            last_ping_nonce: 0,
        };
        assert(transport@.pending =~= Seq::<QueuedView>::empty());
        assert(transport@.sent =~= Map::<u64, SentView>::empty());
        transport
    }

    /// The congestion window.
    pub fn congestion_window(&self) -> (window: u64)
        ensures
            window == self@.congestion.cwnd,
    {
        self.congestion.cwnd()
    }

    /// The bytes on their way.
    pub fn bytes_in_flight(&self) -> (bytes: u64)
        ensures
            bytes == self@.congestion.bytes_in_flight,
    {
        self.congestion.bytes_in_flight()
    }

    /// The retransmission timeout.
    pub fn rto(&self) -> (rto: Duration)
        ensures
            rto == self@.rtt.rto,
    {
        self.rtt.rto()
    }

    /// Whether nothing waits to be sent or to be acknowledged.
    pub fn is_reliably_flushed(&self, streams: &StreamManager) -> (flushed: bool)
        requires
            self.well_formed(),
            streams.well_formed(),
        ensures
            flushed <==> {
                &&& self@.pending.len() == 0
                &&& self@.sent == Map::<u64, SentView>::empty()
                &&& forall|id: u64| #[trigger]
                    streams@.contains_key(id) ==> streams@[id].send.queue.len() == 0
            },
    {
        proof {
            assert(self@.sent.dom() =~= self.sent@.dom());
            self.sent.lemma_keys();
            if self.sent@.dom().len() == 0 {
                assert forall|number: u64| !#[trigger] self@.sent.contains_key(number) by {
                    if self@.sent.contains_key(number) {
                        assert(self.sent.keys().contains(number));
                    }
                }
                assert(self@.sent =~= Map::<u64, SentView>::empty());
            }
        }
        self.pending_frames.len() == 0 && self.sent.len() == 0 && !streams.has_pending_data()
    }

    /// Queues a frame.
    pub fn queue(&mut self, frame: Frame)
        ensures
            final(self)@ == (TransportView {
                pending: old(self)@.pending.push(
                    QueuedView { frame: frame@, retransmit_count: 0 },
                ),
                ..old(self)@
            }),
            old(self).well_formed() ==> final(self).well_formed(),
    {
        let ghost before = self.pending_frames@;
        self.pending_frames.push_back(QueuedFrame::new(frame));
        assert(queued_views(self.pending_frames@) =~= queued_views(before).push(
            QueuedView { frame: frame@, retransmit_count: 0 },
        ));
    }

    /// Queues a frame before the others.
    pub fn queue_front(&mut self, frame: Frame)
        ensures
            final(self)@ == (TransportView {
                pending: seq![QueuedView { frame: frame@, retransmit_count: 0 }]
                    + old(self)@.pending,
                ..old(self)@
            }),
            old(self).well_formed() ==> final(self).well_formed(),
    {
        let ghost before = self.pending_frames@;
        self.pending_frames.push_front(QueuedFrame::new(frame));
        assert(queued_views(self.pending_frames@) =~= seq![
            QueuedView { frame: frame@, retransmit_count: 0 },
        ] + queued_views(before));
    }

    /// Notes a packet that came; `false` if it had come before.
    pub fn record_received(&mut self, packet_number: PacketNumber, now: Duration) -> (added: bool)
        requires
            old(self).well_formed(),
        ensures
            final(self).well_formed(),
            added <==> !ranges_hold(old(self)@.held, packet_number.value),
            !added ==> final(self)@ == old(self)@,
            added ==> {
                &&& exists|wider: Seq<AckRange>| #[trigger]
                    ranges_with(old(self)@.held, wider, packet_number.value) && final(self)@.held
                        == first_ranges(wider, old(self)@.max_ranges as nat)
                &&& final(self)@ == (TransportView {
                    held: final(self)@.held,
                    largest_at: if old(self)@.held.len() == 0 || old(self)@.held[0].end.value
                        < packet_number.value {
                        Some(now)
                    } else {
                        old(self)@.largest_at
                    },
                    ..old(self)@
                })
            },
    {
        self.received.record(packet_number, now)
    }

    /// Has an acknowledgement sent, after the delay of the settings.
    pub fn schedule_ack(&mut self, config: &ConnectionConfig, timers: &mut TimerState) -> (result:
        Result<(), CoreError>)
        requires
            old(self).well_formed(),
            old(timers).well_formed(),
        ensures
            final(self).well_formed(),
            final(timers).well_formed(),
            final(timers).same_clock(old(timers)),
            final(self)@ == (TransportView {
                ack_pending: true,
                ack_ready: old(self)@.ack_ready || config.ack_delay@ == 0,
                ..old(self)@
            }),
            ({
                let waits = config.ack_delay@ != 0 && !old(self)@.ack_ready && old(timers).ack
                    is None;
                if !waits {
                    result is Ok && *final(timers) == *old(timers)
                } else {
                    match result {
                        Ok(_) => {
                            &&& final(timers).ack matches Some(id) && old(timers).scheduled(
                                final(timers),
                                TimerEvent::AckDelay,
                                config.ack_delay,
                                id,
                            )
                            &&& *final(timers) == (TimerState {
                                wheel: final(timers).wheel,
                                ack: final(timers).ack,
                                ..*old(timers)
                            })
                        },
                        Err(error) => {
                            &&& old(timers).refuses(config.ack_delay) is Some
                            &&& error == CoreError::Timer(
                                old(timers).refuses(config.ack_delay)->0,
                            )
                            &&& final(timers).timers() == old(timers).timers()
                        &&& final(timers).slots() == old(timers).slots()
                            &&& final(timers).slots() == old(timers).slots()
                            &&& *final(timers) == (TimerState {
                                wheel: final(timers).wheel,
                                ..*old(timers)
                            })
                        },
                    }
                }
            }),
    {
        self.ack_pending = true;
        if config.ack_delay.is_zero() {
            self.ack_ready = true;
            return Ok(());
        }
        if !self.ack_ready {
            return timers.schedule_ack(config.ack_delay);
        }
        Ok(())
    }

    /// Lets a waiting acknowledgement go.
    pub fn on_ack_timer(&mut self)
        ensures
            final(self)@ == (TransportView {
                ack_ready: old(self)@.ack_ready || old(self)@.ack_pending,
                ..old(self)@
            }),
            old(self).well_formed() ==> final(self).well_formed(),
    {
        if self.ack_pending {
            self.ack_ready = true;
        }
    }

    /// Queues a ping with a new number.
    pub fn queue_keepalive(&mut self)
        ensures
            ({
                let nonce = if old(self)@.last_ping_nonce == u64::MAX {
                    0u64
                } else {
                    (old(self)@.last_ping_nonce + 1) as u64
                };
                final(self)@ == (TransportView {
                    last_ping_nonce: nonce,
                    pending: old(self)@.pending.push(
                        QueuedView { frame: FrameView::Ping(Ping { nonce }), retransmit_count: 0 },
                    ),
                    ..old(self)@
                })
            }),
            old(self).well_formed() ==> final(self).well_formed(),
    {
        self.last_ping_nonce = self.last_ping_nonce.wrapping_add(1);
        self.queue(Frame::Ping(Ping { nonce: self.last_ping_nonce }));
    }

    /// The numbers of the packets that were sent and not acknowledged.
    fn sent_numbers(&self) -> (numbers: Vec<u64>)
        requires
            self.well_formed(),
        ensures
            rising_numbers(numbers@, self@.sent),
    {
        proof {
            self.sent.lemma_keys();
        }
        let mut numbers: Vec<u64> = Vec::new();
        let mut index: usize = 0;
        while index < self.sent.len()
            invariant
                self.well_formed(),
                index <= self.sent.keys().len(),
                numbers@ == self.sent.keys().subrange(0, index as int),
            decreases self.sent.keys().len() - index,
        {
            numbers.push(self.sent.key_at(index));
            index = index + 1;
            assert(numbers@ =~= self.sent.keys().subrange(0, index as int));
        }
        assert(numbers@ =~= self.sent.keys());
        numbers
    }

    /// Takes an acknowledgement, given whether it is sound: packets that it
    /// names leave, the round-trip time is measured, and packets that enough
    /// later ones have overtaken are sent again.
    #[verifier::rlimit(40)]
    pub fn apply_ack(
        &mut self,
        ack: &AckFrame,
        checked: Result<(), ProtocolError>,
        now: Duration,
        config: &ConnectionConfig,
        timers: &mut TimerState,
        streams: &mut StreamManager,
    ) -> (result: Result<(), CoreError>)
        requires
            old(self).well_formed(),
            old(timers).well_formed(),
            old(streams).well_formed(),
            old(self)@.rtt.measured_within(now@),
            now@ * 8 <= MAX_NANOS,
        ensures
            final(self).well_formed(),
            final(timers).well_formed(),
            final(timers).same_clock(old(timers)),
            *final(timers) == (TimerState { wheel: final(timers).wheel, ..*old(timers) }),
            final(streams).well_formed(),
            final(streams).next_number() == old(streams).next_number(),
            final(self)@.rtt.measured_within(now@),
            only_sending_changed(old(streams)@, final(streams)@),
            checked matches Err(problem) ==> {
                &&& result == Err::<(), CoreError>(CoreError::Protocol(problem))
                &&& final(self)@ == old(self)@
                &&& final(streams)@ == old(streams)@
                &&& final(timers)@ == old(timers)@
            },
            checked is Ok && ack.largest.value >= old(self)@.next_packet_number ==> {
                &&& result == Err::<(), CoreError>(CoreError::AckForUnsentPacket)
                &&& final(self)@ == old(self)@
                &&& final(streams)@ == old(streams)@
                &&& final(timers)@ == old(timers)@
            },
            checked is Ok && ack.largest.value < old(self)@.next_packet_number ==> exists|
                numbers: Seq<u64>,
            | #[trigger]
                rising_numbers(numbers, old(self)@.sent) && {
                    let acked = ack_run(
                        old(self).run_before(old(timers), old(streams)),
                        numbers,
                        ack.ranges@,
                        numbers.len() as int,
                    );
                    let after = loss_run(
                        acked,
                        numbers,
                        ack.ranges@,
                        config.fast_loss_threshold,
                        config.max_retransmissions,
                        numbers.len() as int,
                    );
                    &&& final(self)@ == (TransportView {
                        sent: after.sent,
                        congestion: after.congestion,
                        pending: after.pending,
                        rtt: final(self)@.rtt,
                        ..old(self)@
                    })
                    &&& final(streams)@ == after.streams
                    &&& final(timers).timers() == after.timers
                    &&& final(timers).slots() == after.slots
                    &&& match sampled(
                        old(self)@.sent,
                        numbers,
                        ack.ranges@,
                        numbers.len() as int,
                    ) {
                        Some(number) => measured(
                            old(self)@.rtt,
                            final(self)@.rtt,
                            greater(now@ - old(self)@.sent[number].sent_at@, 0) as nat,
                            ack.ack_delay@,
                        ),
                        None => final(self)@.rtt == old(self)@.rtt,
                    }
                    &&& match result {
                        Ok(_) => after.failed is None,
                        Err(error) => after.failed == Some(error),
                    }
                },
    {
        match checked {
            Ok(_) => {},
            Err(problem) => {
                return Err(CoreError::Protocol(problem));
            },
        }
        if ack.largest.value >= self.next_packet_number {
            return Err(CoreError::AckForUnsentPacket);
        }
        let numbers: Vec<u64> = self.sent_numbers();
        let ghost first = self.run_before(timers, streams);
        let ghost ranges = ack.ranges@;
        proof {
            assert forall|i: int| 0 <= i < numbers@.len() implies self@.sent.contains_key(
                #[trigger] numbers@[i],
            ) by {
                assert(numbers@.contains(numbers@[i]));
            }
        }
        let mut acknowledged: Vec<bool> = Vec::new();
        let mut rtt_sample: Option<Duration> = None;
        let mut index: usize = 0;
        while index < numbers.len()
            invariant
                index <= numbers@.len(),
                ranges == ack.ranges@,
                rising_numbers(numbers@, first.sent),
                acknowledged@.len() == index,
                forall|i: int|
                    0 <= i < index ==> (#[trigger] acknowledged@[i]) == ranges_hold(
                        ranges,
                        numbers@[i],
                    ),
                first == old(self).run_before(old(timers), old(streams)),
                self.well_formed(),
                timers.well_formed(),
                timers.same_clock(old(timers)),
                *timers == (TimerState { wheel: timers.wheel, ..*old(timers) }),
                *streams == *old(streams),
                ({
                    let run = ack_run(first, numbers@, ranges, index as int);
                    &&& self@ == (TransportView {
                        sent: run.sent,
                        congestion: run.congestion,
                        ..old(self)@
                    })
                    &&& timers.timers() == run.timers
                    &&& timers.slots() == run.slots
                    &&& run.pending == first.pending
                    &&& run.streams == first.streams
                    &&& run.failed is None
                }),
                forall|i: int|
                    index <= i < numbers@.len() ==> self@.sent.contains_key(#[trigger] numbers@[i])
                        && self@.sent[numbers@[i]] == first.sent[numbers@[i]],
                forall|i: int|
                    0 <= i < index && !ranges_hold(ranges, numbers@[i])
                        ==> self@.sent.contains_key(#[trigger] numbers@[i])
                        && self@.sent[numbers@[i]] == first.sent[numbers@[i]],
                match sampled(first.sent, numbers@, ranges, index as int) {
                    Some(number) => rtt_sample matches Some(sample) && sample@ == greater(
                        now@ - first.sent[number].sent_at@,
                        0,
                    ),
                    None => rtt_sample is None,
                },
            decreases numbers@.len() - index,
        {
            let number: u64 = numbers[index];
            let hit: bool = ack.acknowledges(number);
            let ghost transport_now = self@;
            if hit {
                let ghost sent_now = self.sent@;
                match self.sent.remove(number) {
                    None => {},
                    Some(packet) => {
                        timers.cancel(packet.timer_id());
                        self.congestion.on_acked(packet.encoded_len());
                        if packet.retransmit_count() == 0 && rtt_sample.is_none() {
                            rtt_sample = Some(now.saturating_sub(packet.sent_at()));
                        }
                    },
                }
                proof {
                    assert(sent_views(self.sent@) =~= sent_views(sent_now).remove(number));
                    assert forall|i: int| 0 <= i < numbers@.len() && i
                        != index implies #[trigger] numbers@[i] != number by {
                        if i < index {
                            assert(numbers@[i] < numbers@[index as int]);
                        } else {
                            assert(numbers@[index as int] < numbers@[i]);
                        }
                    }
                }
            }
            acknowledged.push(hit);
            index = index + 1;
        }
        match rtt_sample {
            Some(sample) => {
                proof {
                    assert(sample@ <= now@);
                }
                self.rtt.on_ack(sample, ack.ack_delay);
                let ghost after_ack = self.rtt;
                self.rtt.reset_backoff();
                proof {
                    lemma_measured_within(old(self)@.rtt, self.rtt, sample@, ack.ack_delay@, now@);
                }
            },
            None => {},
        }
        let ghost acked = ack_run(first, numbers@, ranges, numbers@.len() as int);
        let ghost rtt_after = self.rtt;
        let mut index: usize = 0;
        while index < numbers.len()
            invariant
                index <= numbers@.len(),
                checked is Ok,
                ack.largest.value < old(self)@.next_packet_number,
                ranges == ack.ranges@,
                rising_numbers(numbers@, first.sent),
                acknowledged@.len() == numbers@.len(),
                forall|i: int|
                    0 <= i < numbers@.len() ==> (#[trigger] acknowledged@[i]) == ranges_hold(
                        ranges,
                        numbers@[i],
                    ),
                self.well_formed(),
                timers.well_formed(),
                timers.same_clock(old(timers)),
                *timers == (TimerState { wheel: timers.wheel, ..*old(timers) }),
                streams.well_formed(),
                streams.next_number() == old(streams).next_number(),
                self@.rtt == rtt_after,
                rtt_after.measured_within(now@),
                acked.failed is None,
                first == old(self).run_before(old(timers), old(streams)),
                acked == ack_run(first, numbers@, ranges, numbers@.len() as int),
                match sampled(first.sent, numbers@, ranges, numbers@.len() as int) {
                    Some(number) => measured(
                        old(self)@.rtt,
                        rtt_after,
                        greater(now@ - first.sent[number].sent_at@, 0) as nat,
                        ack.ack_delay@,
                    ),
                    None => rtt_after == old(self)@.rtt,
                },
                ({
                    let run = loss_run(
                        acked,
                        numbers@,
                        ranges,
                        config.fast_loss_threshold,
                        config.max_retransmissions,
                        index as int,
                    );
                    &&& self@ == (TransportView {
                        sent: run.sent,
                        congestion: run.congestion,
                        pending: run.pending,
                        rtt: rtt_after,
                        ..old(self)@
                    })
                    &&& timers.timers() == run.timers
                    &&& timers.slots() == run.slots
                    &&& streams@ == run.streams
                    &&& run.failed is None
                }),
                forall|i: int|
                    index <= i < numbers@.len() && !ranges_hold(ranges, numbers@[i])
                        ==> self@.sent.contains_key(#[trigger] numbers@[i]),
            decreases numbers@.len() - index,
        {
            let number: u64 = numbers[index];
            let ghost run = loss_run(
                acked,
                numbers@,
                ranges,
                config.fast_loss_threshold,
                config.max_retransmissions,
                index as int,
            );
            let mut lost: bool = false;
            if !acknowledged[index] {
                let higher: usize = Self::count_higher(&numbers, &acknowledged, number, Ghost(ranges));
                lost = higher as u64 >= config.fast_loss_threshold;
            }
            if lost {
                let ghost sent_now = self.sent@;
                proof {
                    assert(self@.sent.contains_key(numbers@[index as int]));
                }
                match self.sent.remove(number) {
                    None => {},
                    Some(packet) => {
                        timers.cancel(packet.timer_id());
                        self.congestion.on_loss(packet.encoded_len());
                        proof {
                            assert(sent_views(self.sent@) =~= sent_views(sent_now).remove(number));
                        }
                        let (_, queued, retransmit_count) = packet.into_parts();
                        let ghost middle = AckRun {
                            sent: run.sent.remove(number),
                            timers: run.timers.remove(packet@.timer_id.value()),
                            slots: slots_without(run.slots, packet@.timer_id.value()),
                            congestion: run.congestion.after_loss(packet@.encoded_len),
                            ..run
                        };
                        let requeue = self.requeue_lost(
                            queued,
                            retransmit_count,
                            config.max_retransmissions,
                            streams,
                            Ghost(middle),
                        );
                        match requeue {
                            Ok(_) => {},
                            Err(error) => {
                                proof {
                                    lemma_loss_run_stops(
                                        acked,
                                        numbers@,
                                        ranges,
                                        config.fast_loss_threshold,
                                        config.max_retransmissions,
                                        index as int + 1,
                                        numbers@.len() as int,
                                    );
                                    lemma_runs_send(
                                        first,
                                        numbers@,
                                        ranges,
                                        config.fast_loss_threshold,
                                        config.max_retransmissions,
                                        numbers@.len() as int,
                                        numbers@.len() as int,
                                    );
                                }
                                return Err(error);
                            },
                        }
                    },
                }
                proof {
                    assert forall|i: int| index < i < numbers@.len() && !ranges_hold(
                        ranges,
                        numbers@[i],
                    ) implies self@.sent.contains_key(#[trigger] numbers@[i]) by {
                        assert(numbers@[index as int] < numbers@[i]);
                    }
                }
            }
            index = index + 1;
        }
        proof {
            lemma_runs_send(
                first,
                numbers@,
                ranges,
                config.fast_loss_threshold,
                config.max_retransmissions,
                numbers@.len() as int,
                numbers@.len() as int,
            );
        }
        Ok(())
    }

    /// Counts the acknowledged packets above `number`.
    fn count_higher(
        numbers: &Vec<u64>,
        acknowledged: &Vec<bool>,
        number: u64,
        Ghost(ranges): Ghost<Seq<AckRange>>,
    ) -> (count: usize)
        requires
            acknowledged@.len() == numbers@.len(),
            forall|i: int|
                0 <= i < numbers@.len() ==> (#[trigger] acknowledged@[i]) == ranges_hold(
                    ranges,
                    numbers@[i],
                ),
        ensures
            count == higher_acks(numbers@, ranges, number, numbers@.len() as int),
    {
        let mut count: usize = 0;
        let mut index: usize = 0;
        while index < numbers.len()
            invariant
                index <= numbers@.len(),
                acknowledged@.len() == numbers@.len(),
                forall|i: int|
                    0 <= i < numbers@.len() ==> (#[trigger] acknowledged@[i]) == ranges_hold(
                        ranges,
                        numbers@[i],
                    ),
                count <= index,
                count == higher_acks(numbers@, ranges, number, index as int),
            decreases numbers@.len() - index,
        {
            if numbers[index] > number && acknowledged[index] {
                count = count + 1;
            }
            index = index + 1;
        }
        count
    }

    /// Takes the timeout of a packet: unless it was acknowledged or sent again
    /// since, it counts as lost and its frame is queued again.
    pub fn process_retransmit(
        &mut self,
        packet_number: PacketNumber,
        generation: u32,
        config: &ConnectionConfig,
        streams: &mut StreamManager,
    ) -> (result: Result<(), CoreError>)
        requires
            old(self).well_formed(),
            old(streams).well_formed(),
        ensures
            final(self).well_formed(),
            final(streams).well_formed(),
            final(streams).next_number() == old(streams).next_number(),
            final(streams)@.dom() == old(streams)@.dom(),
            ({
                let number = packet_number.value;
                let packet = old(self)@.sent[number];
                if !old(self)@.sent.contains_key(number) || packet.generation != generation {
                    result is Ok && final(self)@ == old(self)@ && final(streams)@ == old(streams)@
                } else {
                    let after = requeue_step(
                        AckRun {
                            sent: old(self)@.sent.remove(number),
                            timers: Map::empty(),
                            slots: Map::empty(),
                            congestion: old(self)@.congestion.after_loss(packet.encoded_len),
                            pending: old(self)@.pending,
                            streams: old(streams)@,
                            failed: None,
                        },
                        packet.frame.frame,
                        packet.retransmit_count,
                        config.max_retransmissions,
                    );
                    &&& final(self)@ == (TransportView {
                        sent: after.sent,
                        congestion: after.congestion,
                        pending: after.pending,
                        rtt: final(self)@.rtt,
                        ..old(self)@
                    })
                    &&& final(streams)@ == after.streams
                    &&& final(self)@.rtt.same_bounds(old(self)@.rtt)
                    &&& final(self)@.rtt.srtt == old(self)@.rtt.srtt
                    &&& final(self)@.rtt.rttvar == old(self)@.rtt.rttvar
                    &&& final(self)@.rtt.rto@ == lesser(
                        (old(self)@.rtt.rto@ * 2) as int,
                        old(self)@.rtt.max_rto@ as int,
                    )
                    &&& match result {
                        Ok(_) => after.failed is None,
                        Err(error) => after.failed == Some(error),
                    }
                }
            }),
    {
        let number: u64 = packet_number.value;
        let current: bool = match self.sent.get(number) {
            None => false,
            Some(packet) => packet.generation() == generation,
        };
        if !current {
            return Ok(());
        }
        let ghost sent_before = self.sent@;
        match self.sent.remove(number) {
            None => Ok(()),
            Some(packet) => {
                assert(sent_views(self.sent@) =~= sent_views(sent_before).remove(number));
                self.congestion.on_loss(packet.encoded_len());
                self.rtt.on_timeout();
                let ghost run = AckRun {
                    sent: self@.sent,
                    timers: Map::empty(),
                    slots: Map::empty(),
                    congestion: self@.congestion,
                    pending: self@.pending,
                    streams: streams@,
                    failed: None,
                };
                let (_, queued, retransmit_count) = packet.into_parts();
                self.requeue_lost(
                    queued,
                    retransmit_count,
                    config.max_retransmissions,
                    streams,
                    Ghost(run),
                )
            },
        }
    }

    /// What to send next: an acknowledgement that is ready, then frames, then
    /// pieces of streams.
    pub fn take_candidate(
        &mut self,
        now: Duration,
        ack_delay: Duration,
        streams: &mut StreamManager,
    ) -> (candidate: Option<Candidate>)
        requires
            old(self).well_formed(),
            old(streams).well_formed(),
        ensures
            final(self).well_formed(),
            final(streams).well_formed(),
            final(streams).next_number() == old(streams).next_number(),
            ({
                let before = old(self)@;
                if before.ack_pending && before.ack_ready {
                    &&& final(self)@ == before
                    &&& final(streams)@ == old(streams)@
                    &&& final(streams).queued_pieces() == old(streams).queued_pieces()
                    &&& match candidate {
                        None => before.held.len() == 0,
                        Some(Candidate::Frame(_)) => false,
                        Some(Candidate::Ack(ack)) => {
                            &&& before.held.len() > 0
                            &&& ack@.largest == before.held[0].end.value
                            &&& ack@.ranges == before.held
                            &&& ack@.ack_delay == match before.largest_at {
                                None => 0,
                                Some(at) => lesser(greater(now@ - at@, 0), ack_delay@ as int),
                            }
                        },
                    }
                } else if before.pending.len() > 0 {
                    &&& candidate matches Some(Candidate::Frame(queued)) && queued@
                        == before.pending[0]
                    &&& final(self)@ == (TransportView {
                        pending: before.pending.subrange(1, before.pending.len() as int),
                        ..before
                    })
                    &&& final(streams)@ == old(streams)@
                    &&& final(streams).queued_pieces() == old(streams).queued_pieces()
                } else {
                    &&& final(self)@ == before
                    &&& match candidate {
                        None => {
                            &&& final(streams)@ == old(streams)@
                            &&& forall|id: u64| #[trigger]
                                old(streams)@.contains_key(id) ==> sendable(
                                    old(streams)@[id],
                                ) is None
                        },
                        Some(Candidate::Ack(_)) => false,
                        Some(Candidate::Frame(queued)) => {
                            &&& exists|id: u64| #[trigger]
                                first_sendable(old(streams)@, id) && queued@ == piece_frame(
                                    id,
                                    sendable(old(streams)@[id])->0,
                                ) && final(streams)@ == old(streams)@.insert(
                                    id,
                                    popped(old(streams)@[id]),
                                )
                            &&& final(streams).queued_pieces() + 1 == old(streams).queued_pieces()
                        },
                    }
                }
            }),
    {
        if self.ack_pending && self.ack_ready {
            return match self.received.frame(now, ack_delay) {
                Some(ack) => Some(Candidate::Ack(ack)),
                None => None,
            };
        }
        let ghost before = self.pending_frames@;
        match self.pending_frames.pop_front() {
            Some(queued) => {
                assert(queued_views(self.pending_frames@) =~= queued_views(before).subrange(
                    1,
                    before.len() as int,
                ));
                Some(Candidate::Frame(queued))
            },
            None => match streams.take_sendable() {
                Some(queued) => Some(Candidate::Frame(queued)),
                None => None,
            },
        }
    }

    /// The packet that carries a candidate.
    pub fn build_packet(
        &self,
        candidate: &Candidate,
        identity: &FlushIdentity,
        ack_eliciting: bool,
    ) -> (packet: Packet)
        ensures
            packet@ == (PacketView {
                packet_type: candidate_type(candidate@, identity.state),
                flags: PacketFlags { ack_eliciting, encrypted: false },
                connection_id: identity.connection_id,
                packet_number: PacketNumber { value: self@.next_packet_number },
                frames: seq![frame_of(candidate@)],
            }),
    {
        let (packet_type, frame): (PacketType, Frame) = match candidate {
            Candidate::Ack(ack) => (PacketType::Data, Self::ack_frame(ack)),
            Candidate::Frame(queued) => (
                packet_type(queued.frame(), identity.state),
                queued.frame().copy(),
            ),
        };
        let mut frames: Vec<Frame> = Vec::new();
        frames.push(frame);
        let packet = Packet::new(
            packet_type,
            PacketFlags { ack_eliciting, encrypted: false },
            identity.connection_id,
            PacketNumber::new(self.next_packet_number),
            frames,
        );
        assert(packet@.frames =~= seq![frame_of(candidate@)]);
        packet
    }

    /// A frame with a copy of an acknowledgement.
    fn ack_frame(ack: &AckFrame) -> (frame: Frame)
        ensures
            frame@ == FrameView::Ack(ack@),
    {
        Frame::Ack(
            AckFrame {
                largest: ack.largest,
                ack_delay: ack.ack_delay,
                ranges: crate::wire::copy_ranges(&ack.ranges),
            },
        )
    }

    /// Sends a packet whose length is known, or puts its frame back. `false`
    /// says that nothing more can be sent now.
    #[verifier::rlimit(40)]
    pub fn commit_packet(
        &mut self,
        candidate: Candidate,
        packet: Packet,
        encoded: Result<usize, ProtocolError>,
        identity: &FlushIdentity,
        config: &ConnectionConfig,
        timers: &mut TimerState,
        streams: &mut StreamManager,
        connection_send: &mut SendFlowControl,
        output: &mut VecDeque<CoreOutput>,
    ) -> (result: Result<bool, CoreError>)
        requires
            old(self).well_formed(),
            old(timers).well_formed(),
            old(streams).well_formed(),
            packet.packet_type == candidate_type(candidate@, identity.state),
            packet.packet_number.value == old(self)@.next_packet_number,
        ensures
            final(self).well_formed(),
            final(timers).well_formed(),
            final(timers).same_clock(old(timers)),
            final(streams).well_formed(),
            final(streams).next_number() == old(streams).next_number(),
            result == Ok::<bool, CoreError>(true) ==> final(streams).queued_pieces() == old(
                streams,
            ).queued_pieces(),
            packet_committed(
                sending_of(
                    old(self)@,
                    old(timers)@,
                    old(streams)@,
                    *old(connection_send),
                    old(output)@,
                ),
                candidate@,
                packet@,
                encoded,
                *identity,
                *config,
                sending_of(
                    final(self)@,
                    final(timers)@,
                    final(streams)@,
                    *final(connection_send),
                    final(output)@,
                ),
                result,
            ),
    {
        let plain_len: usize = match encoded {
            Ok(length) => length,
            Err(problem) => {
                return Err(CoreError::Protocol(problem));
            },
        };
        let encoded_len: usize = if identity.encrypt_data && (packet.packet_type == PacketType::Data
            || packet.packet_type == PacketType::Close) {
            match plain_len.checked_add(config.limits.seal_len) {
                Some(length) => length,
                None => {
                    return Err(
                        CoreError::InvalidState { operation: "calculate encrypted packet length" },
                    );
                },
            }
        } else {
            plain_len
        };
        if encoded_len > config.max_datagram_size {
            return Err(
                CoreError::Protocol(
                    ProtocolError::DatagramTooLarge {
                        maximum: config.max_datagram_size,
                        actual: encoded_len,
                    },
                ),
            );
        }
        let ack_eliciting: bool = packet.flags.ack_eliciting;
        if ack_eliciting && !self.congestion.can_send(encoded_len) {
            return match candidate {
                Candidate::Ack(_) => Ok(false),
                Candidate::Frame(queued) => {
                    match self.requeue_candidate(queued, streams, Ghost(timers.timers())) {
                        Ok(_) => Ok(false),
                        Err(error) => Err(error),
                    }
                },
            };
        }
        if self.next_packet_number == u64::MAX {
            return Err(CoreError::InvalidState { operation: "allocate packet number" });
        }
        match candidate {
            Candidate::Ack(_) => {
                self.next_packet_number = self.next_packet_number + 1;
                proof {
                    lemma_output_pushed(output@, CoreOutput::Send(packet));
                }
                output.push_back(CoreOutput::Send(packet));
                self.ack_pending = false;
                self.ack_ready = false;
                timers.cancel_ack();
                Ok(true)
            },
            Candidate::Frame(queued) => {
                let stream_bytes: Option<usize> = match queued.frame() {
                    Frame::StreamData(data) => Some(data.data.len()),
                    _ => None,
                };
                match stream_bytes {
                    Some(length) => {
                        if !connection_send.can_send(length, queued.retransmit_count() != 0) {
                            return match self.requeue_candidate(
                                queued,
                                streams,
                                Ghost(timers.timers()),
                            ) {
                                Ok(_) => Ok(false),
                                Err(error) => Err(error),
                            };
                        }
                        if queued.retransmit_count() == 0 {
                            connection_send.account_new_data(length);
                        }
                    },
                    None => {},
                }
                self.next_packet_number = self.next_packet_number + 1;
                let packet_number = packet.packet_number;
                proof {
                    lemma_output_pushed(output@, CoreOutput::Send(packet));
                }
                output.push_back(CoreOutput::Send(packet));
                if ack_eliciting {
                    match self.record_sent(packet_number, encoded_len, queued, identity.now, timers) {
                        Ok(_) => Ok(true),
                        Err(error) => Err(error),
                    }
                } else {
                    Ok(true)
                }
            },
        }
    }

    /// Sends one packet, if there is something to send and room for it. `false`
    /// says that nothing more can be sent now.
    fn flush_once<W: Wire>(
        &mut self,
        wire: &W,
        identity: &FlushIdentity,
        config: &ConnectionConfig,
        timers: &mut TimerState,
        streams: &mut StreamManager,
        connection_send: &mut SendFlowControl,
        output: &mut VecDeque<CoreOutput>,
    ) -> (result: Result<bool, CoreError>)
        requires
            old(self).well_formed(),
            old(timers).well_formed(),
            old(streams).well_formed(),
        ensures
            final(self).well_formed(),
            final(timers).well_formed(),
            final(timers).same_clock(old(timers)),
            final(streams).well_formed(),
            final(streams).next_number() == old(streams).next_number(),
            only_sending_changed(old(streams)@, final(streams)@),
            flushed(
                old(self)@,
                final(self)@,
                *old(connection_send),
                *final(connection_send),
                output_views(old(output)@),
                output_views(final(output)@),
                identity.connection_id,
            ),
            *final(timers) == (TimerState {
                wheel: final(timers).wheel,
                ack: final(timers).ack,
                ..*old(timers)
            }),
            nothing_to_send(old(self)@, old(streams)@) ==> {
                &&& result == Ok::<bool, CoreError>(false)
                &&& final(self)@ == old(self)@
                &&& final(streams)@ == old(streams)@
                &&& *final(timers) == *old(timers)
                &&& *final(connection_send) == *old(connection_send)
                &&& final(output)@ == old(output)@
            },
            result matches Err(error) ==> sending_error(error),
            result == Ok::<bool, CoreError>(false) ==> at_rest(
                final(self)@,
                final(streams)@,
                *final(connection_send),
                config.max_datagram_size,
            ),
            result == Ok::<bool, CoreError>(true) ==> backlog(final(self)@, *final(streams))
                < backlog(old(self)@, *old(streams)),
            exists|answer: LayoutAnswer| #[trigger]
                sending_step(
                    wire,
                    sending_of(
                        old(self)@,
                        old(timers)@,
                        old(streams)@,
                        *old(connection_send),
                        old(output)@,
                    ),
                    answer,
                    *identity,
                    *config,
                    sending_of(
                        final(self)@,
                        final(timers)@,
                        final(streams)@,
                        *final(connection_send),
                        final(output)@,
                    ),
                    result,
                ),
    {
        let ghost first = sending_of(self@, timers@, streams@, *connection_send, output@);
        let ghost before = self@;
        let ghost streams_before = streams@;
        let ghost output_before = output_views(output@);
        match self.take_candidate(identity.now, config.ack_delay, streams) {
            None => {
                proof {
                    lemma_flushed_none(
                        before,
                        *connection_send,
                        output_before,
                        identity.connection_id,
                    );
                    let answer = LayoutAnswer { ack_eliciting: false, encoded: Ok(0usize) };
                    assert(candidate_taken(first, identity.now, config.ack_delay, None, first));
                    assert(sending_step(wire, first, answer, *identity, *config, first, Ok(false)));
                }
                Ok(false)
            },
            Some(candidate) => {
                let ghost taken = sending_of(self@, timers@, streams@, *connection_send, output@);
                proof {
                    assert(candidate_taken(
                        first,
                        identity.now,
                        config.ack_delay,
                        Some(candidate@),
                        taken,
                    ));
                }
                let ack_eliciting: bool = match &candidate {
                    Candidate::Ack(ack) => {
                        let frame = Self::ack_frame(ack);
                        wire.is_ack_eliciting(&frame)
                    },
                    Candidate::Frame(queued) => wire.is_ack_eliciting(queued.frame()),
                };
                let packet = self.build_packet(&candidate, identity, ack_eliciting);
                let encoded = wire.encoded_len(&packet, config.max_datagram_size);
                let ghost view = packet@;
                let ghost streams_now = streams@;
                let ghost given = candidate@;
                assert(packet.packet_number == view.packet_number);
                assert(packet.packet_type == view.packet_type);
                let result = self.commit_packet(
                    candidate,
                    packet,
                    encoded,
                    identity,
                    config,
                    timers,
                    streams,
                    connection_send,
                    output,
                );
                proof {
                    let answer = LayoutAnswer { ack_eliciting, encoded };
                    assert(view == packet_of(taken, given, *identity, ack_eliciting));
                    assert(sending_step(
                        wire,
                        first,
                        answer,
                        *identity,
                        *config,
                        sending_of(self@, timers@, streams@, *connection_send, output@),
                        result,
                    ));
                    assert(only_sending_changed(streams_before, streams_now)) by {
                        assert(streams_now.dom() =~= streams_before.dom());
                    }
                    assert(only_sending_changed(streams_now, streams@)) by {
                        assert(streams@.dom() =~= streams_now.dom());
                    }
                    lemma_flushed_one(
                        before,
                        self@,
                        *old(connection_send),
                        *connection_send,
                        output_before,
                        output_views(output@),
                        identity.connection_id,
                        view,
                    );
                    if result == Ok::<bool, CoreError>(false) && stream_blocked(
                        given,
                        *old(connection_send),
                    ) {
                        let data = given->Frame_0.frame->StreamData_0;
                        assert(streams@.contains_key(data.stream_id.value) && piece_waits(
                            streams@[data.stream_id.value],
                            *connection_send,
                        ));
                    }
                }
                result
            },
        }
    }

    /// Sends what can be sent. Whatever the layout answers, packets are numbered
    /// without a gap, and no more is on its way, or sent to the other side, than
    /// the windows allow.
    pub fn flush<W: Wire>(
        &mut self,
        wire: &W,
        identity: &FlushIdentity,
        config: &ConnectionConfig,
        timers: &mut TimerState,
        streams: &mut StreamManager,
        connection_send: &mut SendFlowControl,
        output: &mut VecDeque<CoreOutput>,
    ) -> (result: Result<(), CoreError>)
        requires
            old(self).well_formed(),
            old(timers).well_formed(),
            old(streams).well_formed(),
        ensures
            final(self).well_formed(),
            final(timers).well_formed(),
            final(timers).same_clock(old(timers)),
            final(streams).well_formed(),
            final(streams).next_number() == old(streams).next_number(),
            only_sending_changed(old(streams)@, final(streams)@),
            flushed(
                old(self)@,
                final(self)@,
                *old(connection_send),
                *final(connection_send),
                output_views(old(output)@),
                output_views(final(output)@),
                identity.connection_id,
            ),
            *final(timers) == (TimerState {
                wheel: final(timers).wheel,
                ack: final(timers).ack,
                ..*old(timers)
            }),
            nothing_to_send(old(self)@, old(streams)@) ==> {
                &&& result is Ok
                &&& final(self)@ == old(self)@
                &&& final(streams)@ == old(streams)@
                &&& *final(timers) == *old(timers)
                &&& *final(connection_send) == *old(connection_send)
                &&& final(output)@ == old(output)@
            },
            result matches Err(error) ==> sending_error(error),
            result is Ok ==> at_rest(
                final(self)@,
                final(streams)@,
                *final(connection_send),
                config.max_datagram_size,
            ),
            sending_done(
                wire,
                sending_of(
                    old(self)@,
                    old(timers)@,
                    old(streams)@,
                    *old(connection_send),
                    old(output)@,
                ),
                *identity,
                *config,
                sending_of(
                    final(self)@,
                    final(timers)@,
                    final(streams)@,
                    *final(connection_send),
                    final(output)@,
                ),
                result,
            ),
    {
        let ghost first = sending_of(self@, timers@, streams@, *connection_send, output@);
        let ghost mut states: Seq<SendingView> = seq![first];
        let ghost mut answers: Seq<LayoutAnswer> = Seq::empty();
        proof {
            lemma_flushed_none(
                self@,
                *connection_send,
                output_views(output@),
                identity.connection_id,
            );
        }
        loop
            invariant
                self.well_formed(),
                timers.well_formed(),
                timers.same_clock(old(timers)),
                streams.well_formed(),
                streams.next_number() == old(streams).next_number(),
                only_sending_changed(old(streams)@, streams@),
                *timers == (TimerState {
                    wheel: timers.wheel,
                    ack: timers.ack,
                    ..*old(timers)
                }),
                flushed(
                    old(self)@,
                    self@,
                    *old(connection_send),
                    *connection_send,
                    output_views(old(output)@),
                    output_views(output@),
                    identity.connection_id,
                ),
                nothing_to_send(old(self)@, old(streams)@) ==> {
                    &&& self@ == old(self)@
                    &&& streams@ == old(streams)@
                    &&& *timers == *old(timers)
                    &&& *connection_send == *old(connection_send)
                    &&& output@ == old(output)@
                },
                sending_run(wire, states, answers, *identity, *config),
                states[0] == first,
                states.last() == sending_of(self@, timers@, streams@, *connection_send, output@),
                first == sending_of(
                    old(self)@,
                    old(timers)@,
                    old(streams)@,
                    *old(connection_send),
                    old(output)@,
                ),
            decreases backlog(self@, *streams),
        {
            let ghost now = states.last();
            let ghost before = self@;
            let ghost send_before = *connection_send;
            let ghost output_before = output_views(output@);
            let result = self.flush_once(
                wire,
                identity,
                config,
                timers,
                streams,
                connection_send,
                output,
            );
            proof {
                lemma_flushed_on(
                    old(self)@,
                    before,
                    self@,
                    *old(connection_send),
                    send_before,
                    *connection_send,
                    output_views(old(output)@),
                    output_before,
                    output_views(output@),
                    identity.connection_id,
                );
            }
            let ghost later = sending_of(self@, timers@, streams@, *connection_send, output@);
            match result {
                Err(error) => {
                    assert(sending_ends(wire, now, *identity, *config, later, Err(error)));
                    return Err(error);
                },
                Ok(more) => {
                    if !more {
                        assert(sending_ends(wire, now, *identity, *config, later, Ok(())));
                        return Ok(());
                    }
                    proof {
                        let answer = choose|answer: LayoutAnswer| #[trigger]
                            sending_step(wire, now, answer, *identity, *config, later, Ok(true));
                        lemma_run_goes_on(wire, states, answers, *identity, *config, answer, later);
                        states = states.push(later);
                        answers = answers.push(answer);
                    }
                },
            }
        }
    }

    /// Puts a frame back to the front of the queue it came from.
    fn requeue_candidate(
        &mut self,
        queued: QueuedFrame,
        streams: &mut StreamManager,
        Ghost(timers): Ghost<Map<u64, Timer<TimerEvent>>>,
    ) -> (result: Result<(), CoreError>)
        requires
            old(self).well_formed(),
            old(streams).well_formed(),
        ensures
            final(self).well_formed(),
            final(streams).well_formed(),
            final(streams).next_number() == old(streams).next_number(),
            ({
                let after = put_back(
                    AckRun {
                        sent: old(self)@.sent,
                        timers,
                        slots: Map::empty(),
                        congestion: old(self)@.congestion,
                        pending: old(self)@.pending,
                        streams: old(streams)@,
                        failed: None,
                    },
                    queued@,
                );
                &&& final(self)@ == (TransportView { pending: after.pending, ..old(self)@ })
                &&& final(streams)@ == after.streams
                &&& match result {
                    Ok(_) => after.failed is None,
                    Err(error) => after.failed == Some(error),
                }
            }),
    {
        let ghost view = queued@;
        let (frame, retransmit_count) = queued.into_parts();
        match frame {
            Frame::StreamData(data) => streams.requeue(&data, retransmit_count),
            other => {
                let ghost before = self.pending_frames@;
                self.pending_frames.push_front(QueuedFrame::with_count(other, retransmit_count));
                assert(queued_views(self.pending_frames@) =~= seq![view] + queued_views(before));
                Ok(())
            },
        }
    }

    /// Keeps a packet for sending again, with its timer.
    fn record_sent(
        &mut self,
        packet_number: PacketNumber,
        encoded_len: usize,
        queued: QueuedFrame,
        now: Duration,
        timers: &mut TimerState,
    ) -> (result: Result<(), CoreError>)
        requires
            packet_number.value < old(self)@.next_packet_number,
            old(self).well_formed(),
            old(timers).well_formed(),
        ensures
            final(self).well_formed(),
            final(timers).well_formed(),
            final(timers).same_clock(old(timers)),
            if is_handshake_frame(queued@.frame) {
                result is Ok && final(self)@ == old(self)@ && *final(timers) == *old(timers)
            } else {
                let generation = if old(self)@.generation == u32::MAX {
                    0u32
                } else {
                    (old(self)@.generation + 1) as u32
                };
                let rto = old(self)@.rtt.rto;
                let number = packet_number.value;
                &&& *final(timers) == (TimerState { wheel: final(timers).wheel, ..*old(timers) })
                &&& match result {
                    Ok(_) => {
                        let id = final(self)@.sent[number].timer_id;
                        &&& old(timers).scheduled(
                            final(timers),
                            TimerEvent::Retransmit { packet_number, generation },
                            rto,
                            id,
                        )
                        &&& final(self)@ == (TransportView {
                            generation,
                            congestion: old(self)@.congestion.after_send(encoded_len),
                            sent: old(self)@.sent.insert(
                                number,
                                SentView {
                                    packet_number,
                                    sent_at: now,
                                    encoded_len,
                                    frame: queued@,
                                    retransmit_count: queued@.retransmit_count,
                                    timer_id: id,
                                    generation,
                                },
                            ),
                            ..old(self)@
                        })
                    },
                    Err(error) => {
                        &&& old(timers).refuses(rto) is Some
                        &&& error == CoreError::Timer(old(timers).refuses(rto)->0)
                        &&& final(timers).timers() == old(timers).timers()
                        &&& final(timers).slots() == old(timers).slots()
                        &&& final(self)@ == (TransportView { generation, ..old(self)@ })
                    },
                }
            },
    {
        match queued.frame() {
            Frame::ClientHello(_) => {
                return Ok(());
            },
            Frame::ServerHello(_) => {
                return Ok(());
            },
            Frame::HandshakeAck(_) => {
                return Ok(());
            },
            _ => {},
        }
        self.generation = self.generation.wrapping_add(1);
        let generation: u32 = self.generation;
        let timer_id = match timers.schedule(
            TimerEvent::Retransmit { packet_number, generation },
            self.rtt.rto(),
        ) {
            Ok(id) => id,
            Err(error) => {
                return Err(error);
            },
        };
        self.congestion.on_sent(encoded_len);
        let retransmit_count: u32 = queued.retransmit_count();
        let ghost sent_before = self.sent@;
        let record = SentPacket::new(
            packet_number,
            now,
            encoded_len,
            queued,
            retransmit_count,
            timer_id,
            generation,
        );
        self.sent.insert(packet_number.value, record);
        assert(sent_views(self.sent@) =~= sent_views(sent_before).insert(
            packet_number.value,
            record@,
        ));
        Ok(())
    }

    /// Queues the frame of a lost packet again, unless it was lost too often.
    fn requeue_lost(
        &mut self,
        queued: QueuedFrame,
        retransmit_count: u32,
        max_retransmissions: u32,
        streams: &mut StreamManager,
        Ghost(run): Ghost<AckRun>,
    ) -> (result: Result<(), CoreError>)
        requires
            old(self).well_formed(),
            old(streams).well_formed(),
            run.pending == old(self)@.pending,
            run.streams == old(streams)@,
            run.failed is None,
        ensures
            final(self).well_formed(),
            final(streams).well_formed(),
            final(streams).next_number() == old(streams).next_number(),
            ({
                let after = requeue_step(
                    run,
                    queued@.frame,
                    retransmit_count,
                    max_retransmissions,
                );
                &&& final(self)@ == (TransportView { pending: after.pending, ..old(self)@ })
                &&& final(streams)@ == after.streams
                &&& match result {
                    Ok(_) => after.failed is None,
                    Err(error) => after.failed == Some(error),
                }
            }),
    {
        let next_count: u32 = retransmit_count.saturating_add(1);
        if next_count > max_retransmissions {
            return Err(CoreError::RetransmissionLimit);
        }
        let (frame, _) = queued.into_parts();
        self.requeue_candidate(
            QueuedFrame::with_count(frame, next_count),
            streams,
            Ghost(Map::empty()),
        )
    }
}

/// What sending works on.
pub open spec fn sending_of(
    transport: TransportView,
    timers: TimersView,
    streams: Map<u64, StreamView>,
    send: SendFlowControl,
    output: Seq<CoreOutput>,
) -> SendingView {
    SendingView { transport, timers, streams, send, output: output_views(output) }
}

/// Whether the other side has no room for the piece of a stream.
pub open spec fn stream_blocked(candidate: CandidateView, send: SendFlowControl) -> bool {
    match candidate {
        CandidateView::Frame(queued) => queued.frame matches FrameView::StreamData(data)
            && queued.retransmit_count == 0 && send.connection_sent_offset + data.data.len()
            > send.connection_max_offset,
        CandidateView::Ack(_) => false,
    }
}

/// What is counted as sent once the candidate is sent.
pub open spec fn accounted(candidate: CandidateView, send: SendFlowControl) -> SendFlowControl {
    match candidate {
        CandidateView::Frame(queued) => match queued.frame {
            FrameView::StreamData(data) => if queued.retransmit_count == 0 {
                SendFlowControl {
                    connection_sent_offset: lesser(
                        send.connection_sent_offset + data.data.len(),
                        u64::MAX as int,
                    ) as u64,
                    ..send
                }
            } else {
                send
            },
            _ => send,
        },
        CandidateView::Ack(_) => send,
    }
}

/// Acknowledgements and losses change nothing of a stream but its sending side.
pub proof fn lemma_runs_send(
    run: AckRun,
    numbers: Seq<u64>,
    ranges: Seq<AckRange>,
    threshold: u64,
    max_retransmissions: u32,
    acked: int,
    lost: int,
)
    ensures
        ({
            let after = ack_run(run, numbers, ranges, acked);
            only_sending_changed(
                run.streams,
                loss_run(after, numbers, ranges, threshold, max_retransmissions, lost).streams,
            )
        }),
    decreases greater(acked, 0) + greater(lost, 0),
{
    let after = ack_run(run, numbers, ranges, acked);
    if lost > 0 {
        lemma_runs_send(run, numbers, ranges, threshold, max_retransmissions, acked, lost - 1);
        let before = loss_run(after, numbers, ranges, threshold, max_retransmissions, lost - 1);
        let next = loss_run(after, numbers, ranges, threshold, max_retransmissions, lost);
        assert(next.streams.dom() =~= before.streams.dom());
    } else if acked > 0 {
        lemma_runs_send(run, numbers, ranges, threshold, max_retransmissions, acked - 1, lost);
    }
}

/// Nothing but the sending side of the streams differs.
pub open spec fn only_sending_changed(
    before: Map<u64, StreamView>,
    after: Map<u64, StreamView>,
) -> bool {
    &&& before.dom() == after.dom()
    &&& forall|id: u64| #[trigger]
        after.contains_key(id) ==> after[id] == (StreamView { send: after[id].send, ..before[id] })
}

/// Whether no acknowledgement is ready, no frame is queued and no piece of a
/// stream may be sent.
pub open spec fn nothing_to_send(view: TransportView, streams: Map<u64, StreamView>) -> bool {
    &&& !(view.ack_pending && view.ack_ready)
    &&& view.pending.len() == 0
    &&& forall|id: u64| #[trigger] streams.contains_key(id) ==> sendable(streams[id]) is None
}

/// The errors with which sending may end.
pub open spec fn sending_error(error: CoreError) -> bool {
    error is Protocol || error is InvalidState || error is Timer || error is UnknownStream
}

/// Whether the next piece of a stream is new and the connection has no room for
/// it.
pub open spec fn piece_waits(stream: StreamView, send: SendFlowControl) -> bool {
    let queue = stream.send.queue;
    &&& queue.len() > 0
    &&& queue[0].retransmit_count == 0
    &&& send.connection_sent_offset + queue[0].data.len() > send.connection_max_offset
}

/// Whether sending may stop: nothing is left, or the congestion window has no
/// room for a packet of the largest size, or the other side has no room for a
/// piece of a stream, or no packet came that could be acknowledged.
pub open spec fn at_rest(
    view: TransportView,
    streams: Map<u64, StreamView>,
    send: SendFlowControl,
    max_datagram_size: usize,
) -> bool {
    ||| nothing_to_send(view, streams)
    ||| view.ack_pending && view.ack_ready && view.held.len() == 0
    ||| !view.congestion.has_room(max_datagram_size)
    ||| exists|id: u64| #[trigger] streams.contains_key(id) && piece_waits(streams[id], send)
}

/// How much waits to be sent.
pub open spec fn backlog(view: TransportView, streams: StreamManager) -> nat {
    view.pending.len() + streams.queued_pieces() + (if view.ack_pending && view.ack_ready {
        1nat
    } else {
        0
    })
}

/// Whether the output sends the packet with this number, which holds one frame.
pub open spec fn sends_number(
    output: OutputView,
    connection_id: ConnectionId,
    number: int,
) -> bool {
    match output {
        OutputView::Send(packet) => {
            &&& packet.connection_id == connection_id
            &&& packet.packet_number.value == number
            &&& packet.frames.len() == 1
        },
        _ => false,
    }
}

/// What sending may change: packets leave in the order of their numbers, and
/// the windows are kept.
pub open spec fn flushed(
    before: TransportView,
    after: TransportView,
    send_before: SendFlowControl,
    send_after: SendFlowControl,
    output_before: Seq<OutputView>,
    output_after: Seq<OutputView>,
    connection_id: ConnectionId,
) -> bool {
    let count = output_after.len() - output_before.len();
    &&& count >= 0
    &&& output_after.subrange(0, output_before.len() as int) == output_before
    &&& forall|i: int|
        output_before.len() <= i < output_after.len() ==> sends_number(
            #[trigger] output_after[i],
            connection_id,
            before.next_packet_number + (i - output_before.len()),
        )
    &&& after.next_packet_number == before.next_packet_number + count
    &&& after.held == before.held
    &&& after.largest_at == before.largest_at
    &&& after.max_ranges == before.max_ranges
    &&& after.rtt == before.rtt
    &&& after.last_ping_nonce == before.last_ping_nonce
    &&& after.congestion == (CongestionController {
        bytes_in_flight: after.congestion.bytes_in_flight,
        ..before.congestion
    })
    &&& after.congestion.bytes_in_flight <= greater(
        before.congestion.bytes_in_flight as int,
        before.congestion.cwnd as int,
    )
    &&& send_after.connection_max_offset == send_before.connection_max_offset
    &&& send_after.connection_sent_offset <= greater(
        send_before.connection_sent_offset as int,
        send_before.connection_max_offset as int,
    )
    &&& send_after.connection_sent_offset >= send_before.connection_sent_offset
    &&& after.ack_pending ==> before.ack_pending
    &&& after.ack_ready ==> before.ack_ready
}

/// Sending nothing changes nothing.
proof fn lemma_flushed_none(
    view: TransportView,
    send: SendFlowControl,
    output: Seq<OutputView>,
    connection_id: ConnectionId,
)
    ensures
        flushed(view, view, send, send, output, output, connection_id),
{
    assert(output.subrange(0, output.len() as int) =~= output);
}

/// One packet at most was sent.
proof fn lemma_flushed_one(
    before: TransportView,
    after: TransportView,
    send_before: SendFlowControl,
    send_after: SendFlowControl,
    output_before: Seq<OutputView>,
    output_after: Seq<OutputView>,
    connection_id: ConnectionId,
    packet: PacketView,
)
    requires
        packet.connection_id == connection_id,
        packet.packet_number.value == before.next_packet_number,
        packet.frames.len() == 1,
        (output_after == output_before && after.next_packet_number == before.next_packet_number)
            || (output_after == output_before.push(OutputView::Send(packet))
            && after.next_packet_number == before.next_packet_number + 1),
        after.held == before.held,
        after.largest_at == before.largest_at,
        after.max_ranges == before.max_ranges,
        after.rtt == before.rtt,
        after.last_ping_nonce == before.last_ping_nonce,
        after.congestion == before.congestion || (after.congestion == (CongestionController {
            bytes_in_flight: after.congestion.bytes_in_flight,
            ..before.congestion
        }) && after.congestion.bytes_in_flight <= before.congestion.cwnd),
        send_after == send_before || (send_after.connection_max_offset
            == send_before.connection_max_offset && send_before.connection_sent_offset
            <= send_after.connection_sent_offset <= send_before.connection_max_offset),
        after.ack_pending ==> before.ack_pending,
        after.ack_ready ==> before.ack_ready,
    ensures
        flushed(
            before,
            after,
            send_before,
            send_after,
            output_before,
            output_after,
            connection_id,
        ),
{
    assert(output_after.subrange(0, output_before.len() as int) =~= output_before);
}

/// Sending twice is sending.
proof fn lemma_flushed_on(
    first: TransportView,
    before: TransportView,
    after: TransportView,
    send_first: SendFlowControl,
    send_before: SendFlowControl,
    send_after: SendFlowControl,
    output_first: Seq<OutputView>,
    output_before: Seq<OutputView>,
    output_after: Seq<OutputView>,
    connection_id: ConnectionId,
)
    requires
        flushed(
            first,
            before,
            send_first,
            send_before,
            output_first,
            output_before,
            connection_id,
        ),
        flushed(
            before,
            after,
            send_before,
            send_after,
            output_before,
            output_after,
            connection_id,
        ),
    ensures
        flushed(
            first,
            after,
            send_first,
            send_after,
            output_first,
            output_after,
            connection_id,
        ),
{
    assert forall|i: int| 0 <= i < output_before.len() implies output_after[i]
        == output_before[i] by {
        assert(output_after.subrange(0, output_before.len() as int)[i] == output_after[i]);
    }
    assert(output_after.subrange(0, output_first.len() as int) =~= output_first) by {
        assert forall|i: int| 0 <= i < output_first.len() implies output_after[i]
            == output_first[i] by {
            assert(output_before.subrange(0, output_first.len() as int)[i] == output_before[i]);
        }
    }
    assert forall|i: int| output_first.len() <= i < output_after.len() implies sends_number(
        #[trigger] output_after[i],
        connection_id,
        first.next_packet_number + (i - output_first.len()),
    ) by {
        if i < output_before.len() {
            assert(output_after[i] == output_before[i]);
            assert(sends_number(
                output_before[i],
                connection_id,
                first.next_packet_number + (i - output_first.len()),
            ));
        } else {
            assert(sends_number(
                output_after[i],
                connection_id,
                before.next_packet_number + (i - output_before.len()),
            ));
        }
    }
}

/// A measurement of at most `limit` keeps all that was measured within it.
proof fn lemma_measured_within(
    before: RttEstimator,
    after: RttEstimator,
    sample: nat,
    ack_delay: nat,
    limit: nat,
)
    requires
        measured(before, after, sample, ack_delay),
        before.measured_within(limit),
        sample <= limit,
    ensures
        after.measured_within(limit),
{
}

/// After a failure nothing more is lost.
proof fn lemma_loss_run_stops(
    run: AckRun,
    numbers: Seq<u64>,
    ranges: Seq<AckRange>,
    threshold: u64,
    max_retransmissions: u32,
    few: int,
    many: int,
)
    requires
        0 <= few <= many,
        loss_run(run, numbers, ranges, threshold, max_retransmissions, few).failed is Some,
    ensures
        loss_run(run, numbers, ranges, threshold, max_retransmissions, many) == loss_run(
            run,
            numbers,
            ranges,
            threshold,
            max_retransmissions,
            few,
        ),
    decreases many,
{
    if few < many {
        lemma_loss_run_stops(
            run,
            numbers,
            ranges,
            threshold,
            max_retransmissions,
            few,
            many - 1,
        );
    }
}

/// What a packet with this frame is for.
fn packet_type(frame: &Frame, state: ConnectionState) -> (packet_type: PacketType)
    ensures
        packet_type == type_of(frame@, state),
{
    match frame {
        Frame::ClientHello(_) => PacketType::Initial,
        Frame::HandshakeAck(_) => PacketType::Handshake,
        Frame::ServerHello(_) => PacketType::Handshake,
        Frame::ConnectionClose(_) => PacketType::Close,
        _ => {
            if state == ConnectionState::Handshaking {
                PacketType::Handshake
            } else {
                PacketType::Data
            }
        },
    }
}

} // verus!
