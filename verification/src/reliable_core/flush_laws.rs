//! When all that was sent is acknowledged, and when it is not yet.

use vstd::prelude::*;

use crate::reliable_core::config::ConnectionConfig;
use crate::reliable_core::congestion::lesser;
use crate::reliable_core::delivery_laws::{
    frame_waits, is_part, law_unacknowledged_frames_are_kept, lemma_acks_take_away,
    lemma_losses_only_take, lemma_waits_on, run_of,
};
use crate::reliable_core::error::CoreError;
use crate::reliable_core::layout::elicits;
use crate::reliable_core::recovery::SentView;
use crate::reliable_core::send::QueuedView;
use crate::reliable_core::sending::{
    candidate_sent, candidate_taken, sending_ends, sending_run, sending_step, LayoutAnswer,
    SendingView,
};
use crate::reliable_core::streams::{opened, StreamView};
use crate::reliable_core::transition::{
    ack_applied, ack_asked, ack_done, ack_follows, ack_taken, acks_done, all_acknowledged,
    answer_given, frame_done, frame_follows, frames_done, frames_taken, identity_of, open_done,
    packet_answered, packet_done, packet_noted, queued, sending_side, sent_on, ConnectionView,
};
use crate::reliable_core::transport::{
    ack_run, is_handshake_frame, is_lost, loss_run, rising_numbers, AckRun, CandidateView,
    FlushIdentity, TransportView,
};
use crate::time_wheel::shape::slots_without;
use crate::wire::{
    ranges_hold, AckRange, AckView, FrameView, PacketType, PacketView, ProtocolError, StreamId,
    StreamOpen, Wire,
};

verus! {

/// The packets that wait for their acknowledgement are under their numbers, which
/// were given before.
pub open spec fn numbers_given(transport: TransportView) -> bool {
    &&& transport.sent.dom().finite()
    &&& forall|number: u64| #[trigger]
        transport.sent.contains_key(number) ==> number < transport.next_packet_number
            && transport.sent[number].packet_number.value == number
}

/// A frame waits to be sent, or a packet that carries it waits for its
/// acknowledgement.
pub open spec fn is_owed(transport: TransportView, frame: FrameView) -> bool {
    is_queued(transport.pending, frame) || exists|number: u64| #[trigger]
        carries(transport, number, frame)
}

/// A frame waits to be sent.
pub open spec fn is_queued(pending: Seq<QueuedView>, frame: FrameView) -> bool {
    exists|i: int| 0 <= i < pending.len() && (#[trigger] pending[i]).frame == frame
}

/// The packet of this number carries the frame and waits for its acknowledgement.
pub open spec fn carries(transport: TransportView, number: u64, frame: FrameView) -> bool {
    transport.sent.contains_key(number) && transport.sent[number].frame.frame == frame
}

/// The layout says of a frame that it asks for an acknowledgement. Pieces of
/// streams and frames of the handshake are left aside: those wait in their
/// streams, and these are repeated by the handshake.
pub open spec fn is_kept_until_acknowledged<W: Wire>(wire: &W, frame: FrameView) -> bool {
    &&& !(frame is StreamData)
    &&& !is_handshake_frame(frame)
    &&& forall|answer: bool| #[trigger] elicits(wire, frame, answer) ==> answer
}

/// What is owed is not all acknowledged.
proof fn lemma_owed_is_open(view: ConnectionView, frame: FrameView)
    requires
        is_owed(view.transport, frame),
    ensures
        !all_acknowledged(view),
{
    if !is_queued(view.transport.pending, frame) {
        let number = choose|number: u64| #[trigger] carries(view.transport, number, frame);
        assert(view.transport.sent.contains_key(number));
    }
}

/// A step of sending keeps a frame until it is acknowledged.
proof fn lemma_step_keeps_owed<W: Wire>(
    wire: &W,
    before: SendingView,
    answer: LayoutAnswer,
    identity: FlushIdentity,
    config: ConnectionConfig,
    after: SendingView,
    result: Result<bool, CoreError>,
    frame: FrameView,
)
    requires
        sending_step(wire, before, answer, identity, config, after, result),
        result is Ok,
        numbers_given(before.transport),
        is_owed(before.transport, frame),
        is_kept_until_acknowledged(wire, frame),
    ensures
        numbers_given(after.transport),
        is_owed(after.transport, frame),
{
    let (candidate, taken) = choose|candidate: Option<CandidateView>, taken: SendingView|
        #[trigger]
        candidate_taken(before, identity.now, config.ack_delay, candidate, taken)
            && match candidate {
            None => after == taken && result == Ok::<bool, CoreError>(false),
            Some(candidate) => candidate_sent(
                wire,
                taken,
                candidate,
                answer,
                identity,
                config,
                after,
                result,
            ),
        };
    let old_sent = before.transport.sent;
    let next = before.transport.next_packet_number;
    let new_sent = after.transport.sent;
    assert(taken.transport.sent == old_sent);
    assert(taken.transport.next_packet_number == next);
    assert(new_sent == old_sent || (new_sent.contains_key(next) && new_sent == old_sent.insert(
        next,
        new_sent[next],
    )));
    assert forall|number: u64| #[trigger] carries(before.transport, number, frame) implies carries(
        after.transport,
        number,
        frame,
    ) by {
        assert(number < next);
    }
    if is_queued(before.transport.pending, frame) {
        let pending = before.transport.pending;
        let place = choose|i: int| 0 <= i < pending.len() && (#[trigger] pending[i]).frame == frame;
        let later = after.transport.pending;
        if before.transport.ack_pending && before.transport.ack_ready {
            assert(later == pending);
        } else {
            let rest = pending.subrange(1, pending.len() as int);
            assert(taken.transport.pending == rest);
            assert(later == rest || later == seq![pending[0]] + rest);
            if later == rest {
                if place > 0 {
                    assert(rest[place - 1].frame == frame);
                } else {
                    assert(candidate == Some(CandidateView::Frame(pending[0])));
                    assert(carries(after.transport, next, frame));
                }
            } else {
                assert((seq![pending[0]] + rest)[place].frame == frame);
            }
        }
    } else {
        let number = choose|number: u64| #[trigger] carries(before.transport, number, frame);
        assert(carries(after.transport, number, frame));
    }
}

proof fn lemma_run_keeps_owed<W: Wire>(
    wire: &W,
    states: Seq<SendingView>,
    answers: Seq<LayoutAnswer>,
    identity: FlushIdentity,
    config: ConnectionConfig,
    count: int,
    frame: FrameView,
)
    requires
        sending_run(wire, states, answers, identity, config),
        0 <= count <= answers.len(),
        numbers_given(states[0].transport),
        is_owed(states[0].transport, frame),
        is_kept_until_acknowledged(wire, frame),
    ensures
        numbers_given(states[count].transport),
        is_owed(states[count].transport, frame),
    decreases count,
{
    if count > 0 {
        lemma_run_keeps_owed(wire, states, answers, identity, config, count - 1, frame);
        let answer = answers[count - 1];
        let before = states[count - 1];
        assert(sending_step(wire, before, answer, identity, config, states[count], Ok(true)));
        lemma_step_keeps_owed(
            wire,
            before,
            answer,
            identity,
            config,
            states[count],
            Ok(true),
            frame,
        );
    }
}

/// Sending keeps a frame until it is acknowledged.
proof fn lemma_sending_keeps_owed<W: Wire>(
    wire: &W,
    before: ConnectionView,
    after: ConnectionView,
    frame: FrameView,
)
    requires
        sent_on(wire, before, after, Ok(())),
        numbers_given(before.transport),
        is_owed(before.transport, frame),
        is_kept_until_acknowledged(wire, frame),
    ensures
        numbers_given(after.transport),
        is_owed(after.transport, frame),
{
    let identity = identity_of(before);
    let config = before.config;
    let start = sending_side(before);
    let end = sending_side(after);
    let (states, answers) = choose|states: Seq<SendingView>, answers: Seq<LayoutAnswer>| #[trigger]
        sending_run(wire, states, answers, identity, config) && states[0] == start && sending_ends(
            wire,
            states.last(),
            identity,
            config,
            end,
            Ok(()),
        );
    lemma_run_keeps_owed(
        wire,
        states,
        answers,
        identity,
        config,
        answers.len() as int,
        frame,
    );
    let (answer, outcome) = choose|answer: LayoutAnswer, outcome: Result<bool, CoreError>|
        #[trigger]
        sending_step(wire, states.last(), answer, identity, config, end, outcome) && match outcome {
            Ok(more) => !more,
            Err(_) => false,
        };
    lemma_step_keeps_owed(
        wire,
        states.last(),
        answer,
        identity,
        config,
        end,
        outcome,
        frame,
    );
}

/// The frame that opens a stream.
pub open spec fn opening_frame(before: ConnectionView, id: StreamId) -> FrameView {
    FrameView::StreamOpen(
        StreamOpen {
            stream_id: id,
            initial_receive_window: before.handshake.peer_initial_stream_window,
            bidirectional: true,
        },
    )
}

/// Once a stream is opened, not all is acknowledged: its opening is still owed.
pub proof fn law_opened_stream_awaits_its_acknowledgement<W: Wire>(
    wire: &W,
    before: ConnectionView,
    after: ConnectionView,
    id: StreamId,
)
    requires
        open_done(wire, before, after, Ok(id)),
        numbers_given(before.transport),
        is_kept_until_acknowledged(wire, opening_frame(before, id)),
    ensures
        numbers_given(after.transport),
        is_owed(after.transport, opening_frame(before, id)),
        !all_acknowledged(after),
{
    let next = before.next_stream;
    let frame = opening_frame(before, id);
    let window = before.handshake.peer_initial_stream_window;
    let stream = choose|stream: StreamView| #[trigger]
        opened(stream, id, true, window, before.config.initial_stream_window) && sent_on(
            wire,
            queued(
                ConnectionView {
                    streams: before.streams.insert(next, stream),
                    next_stream: (next + 2) as u64,
                    ..before
                },
                frame,
            ),
            after,
            Ok(()),
        );
    let asked = queued(
        ConnectionView {
            streams: before.streams.insert(next, stream),
            next_stream: (next + 2) as u64,
            ..before
        },
        frame,
    );
    let place = before.transport.pending.len() as int;
    assert(asked.transport.pending[place].frame == frame);
    lemma_sending_keeps_owed(wire, asked, after, frame);
    lemma_owed_is_open(after, frame);
}

/// The acknowledgements of a packet name no packet that carries the frame.
pub open spec fn leaves_unacknowledged(
    transport: TransportView,
    frames: Seq<FrameView>,
    frame: FrameView,
) -> bool {
    forall|i: int, number: u64|
        0 <= i < frames.len() && #[trigger] carries(transport, number, frame) ==> (
        #[trigger] frames[i] matches FrameView::Ack(ack) ==> !ranges_hold(ack.ranges, number))
}

/// Losses keep a frame that waits.
proof fn lemma_losses_keep_queued(
    run: AckRun,
    numbers: Seq<u64>,
    ranges: Seq<AckRange>,
    threshold: u64,
    max_retransmissions: u32,
    count: int,
    frame: FrameView,
)
    requires
        !(frame is StreamData),
        is_queued(run.pending, frame),
        loss_run(run, numbers, ranges, threshold, max_retransmissions, count).failed is None,
    ensures
        is_queued(
            loss_run(run, numbers, ranges, threshold, max_retransmissions, count).pending,
            frame,
        ),
    decreases count,
{
    if count > 0 {
        let before = loss_run(run, numbers, ranges, threshold, max_retransmissions, count - 1);
        let after = loss_run(run, numbers, ranges, threshold, max_retransmissions, count);
        assert(before.failed is None);
        lemma_losses_keep_queued(
            run,
            numbers,
            ranges,
            threshold,
            max_retransmissions,
            count - 1,
            frame,
        );
        let lost = numbers[count - 1];
        if is_lost(numbers, ranges, lost, threshold) {
            let packet = before.sent[lost];
            let left = AckRun {
                sent: before.sent.remove(lost),
                timers: before.timers.remove(packet.timer_id.value()),
                slots: slots_without(before.slots, packet.timer_id.value()),
                congestion: before.congestion.after_loss(packet.encoded_len),
                ..before
            };
            let again = QueuedView {
                frame: packet.frame.frame,
                retransmit_count: lesser(packet.retransmit_count + 1, u32::MAX as int) as u32,
            };
            assert(frame_waits(left.pending, left.streams, frame));
            lemma_waits_on(left, after, again, frame);
        }
    }
}

/// Packets that leave leave the others under their numbers.
proof fn lemma_fewer_numbers(before: TransportView, after: TransportView)
    requires
        numbers_given(before),
        is_part(after.sent, before.sent),
        after.next_packet_number == before.next_packet_number,
    ensures
        numbers_given(after),
{
    assert(after.sent.dom().subset_of(before.sent.dom()));
    vstd::set_lib::lemma_set_subset_finite(before.sent.dom(), after.sent.dom());
}

/// An acknowledgement that does not name its packets keeps a frame.
proof fn lemma_ack_keeps_owed(
    before: ConnectionView,
    ack: AckView,
    checked: Result<(), ProtocolError>,
    after: ConnectionView,
    frame: FrameView,
)
    requires
        ack_done(before, ack, checked, after, Ok(())),
        numbers_given(before.transport),
        is_owed(before.transport, frame),
        !(frame is StreamData),
        forall|number: u64| #[trigger]
            carries(before.transport, number, frame) ==> !ranges_hold(ack.ranges, number),
    ensures
        numbers_given(after.transport),
        is_owed(after.transport, frame),
        is_part(after.transport.sent, before.transport.sent),
{
    let numbers = choose|numbers: Seq<u64>| #[trigger]
        rising_numbers(numbers, before.transport.sent) && ack_applied(
            before,
            ack,
            numbers,
            after,
            Ok(()),
        );
    lemma_ack_takes_only(before, ack, numbers, after);
    lemma_fewer_numbers(before.transport, after.transport);
    if is_queued(before.transport.pending, frame) {
        let count = numbers.len() as int;
        lemma_losses_keep_queued(
            ack_run(run_of(before), numbers, ack.ranges, count),
            numbers,
            ack.ranges,
            before.config.fast_loss_threshold,
            before.config.max_retransmissions,
            count,
            frame,
        );
    } else {
        let number = choose|number: u64| #[trigger] carries(before.transport, number, frame);
        law_unacknowledged_frames_are_kept(before, ack, checked, after, number);
        if after.transport.sent.contains_key(number) && after.transport.sent[number]
            == before.transport.sent[number] {
            assert(carries(after.transport, number, frame));
        }
    }
}

/// An acknowledgement takes packets away and adds none, and what waits only
/// grows.
proof fn lemma_ack_takes_only(
    before: ConnectionView,
    ack: AckView,
    numbers: Seq<u64>,
    after: ConnectionView,
)
    requires
        rising_numbers(numbers, before.transport.sent),
        ack_applied(before, ack, numbers, after, Ok(())),
    ensures
        is_part(after.transport.sent, before.transport.sent),
        after.transport.next_packet_number == before.transport.next_packet_number,
        ack_run(run_of(before), numbers, ack.ranges, numbers.len() as int).pending
            == before.transport.pending,
        ack_run(run_of(before), numbers, ack.ranges, numbers.len() as int).streams
            == before.streams,
{
    let run = run_of(before);
    let count = numbers.len() as int;
    if count > 0 {
        lemma_acks_take_away(run, numbers, ack.ranges, count, 0);
    }
    lemma_losses_only_take(
        ack_run(run, numbers, ack.ranges, count),
        numbers,
        ack.ranges,
        before.config.fast_loss_threshold,
        before.config.max_retransmissions,
        count,
    );
}

/// The acknowledgements among the first frames keep a frame that they do not
/// name.
proof fn lemma_acks_keep_owed<W: Wire>(
    wire: &W,
    before: ConnectionView,
    frames: Seq<FrameView>,
    count: int,
    after: ConnectionView,
    frame: FrameView,
)
    requires
        acks_done(wire, before, frames, count, after, Ok(())),
        count <= frames.len(),
        numbers_given(before.transport),
        is_owed(before.transport, frame),
        !(frame is StreamData),
        leaves_unacknowledged(before.transport, frames, frame),
    ensures
        numbers_given(after.transport),
        is_owed(after.transport, frame),
        is_part(after.transport.sent, before.transport.sent),
    decreases count,
{
    if count > 0 {
        let (middle, so_far) = choose|middle: ConnectionView, so_far: Result<(), CoreError>|
            #[trigger]
            ack_follows(wire, middle, so_far, frames[count - 1], after, Ok(())) && acks_done(
                wire,
                before,
                frames,
                count - 1,
                middle,
                so_far,
            );
        assert(so_far is Ok && so_far->Ok_0 == ());
        lemma_acks_keep_owed(wire, before, frames, count - 1, middle, frame);
        if let FrameView::Ack(ack) = frames[count - 1] {
            let checked = choose|checked: Result<(), ProtocolError>| #[trigger]
                ack_done(middle, ack, checked, after, Ok(()));
            assert forall|number: u64| #[trigger]
                carries(middle.transport, number, frame) implies !ranges_hold(
                ack.ranges,
                number,
            ) by {
                assert(carries(before.transport, number, frame));
            }
            lemma_ack_keeps_owed(middle, ack, checked, after, frame);
        }
    }
}

/// The other frames of a packet keep what is owed.
proof fn lemma_frames_keep_owed<W: Wire>(
    wire: &W,
    before: ConnectionView,
    packet_type: PacketType,
    frames: Seq<FrameView>,
    count: int,
    after: ConnectionView,
    frame: FrameView,
)
    requires
        frames_done(wire, before, packet_type, frames, count, after, Ok(())),
        numbers_given(before.transport),
        is_owed(before.transport, frame),
    ensures
        numbers_given(after.transport),
        is_owed(after.transport, frame),
    decreases count,
{
    if count > 0 {
        let (middle, so_far) = choose|middle: ConnectionView, so_far: Result<(), CoreError>|
            #[trigger]
            frame_follows(
                wire,
                middle,
                so_far,
                packet_type,
                frames[count - 1],
                after,
                Ok(()),
            ) && frames_done(wire, before, packet_type, frames, count - 1, middle, so_far);
        assert(so_far is Ok && so_far->Ok_0 == ());
        lemma_frames_keep_owed(wire, before, packet_type, frames, count - 1, middle, frame);
        lemma_frame_keeps_owed(wire, middle, packet_type, frames[count - 1], after, frame);
    }
}

/// A frame that comes keeps what is owed.
proof fn lemma_frame_keeps_owed<W: Wire>(
    wire: &W,
    before: ConnectionView,
    packet_type: PacketType,
    taken: FrameView,
    after: ConnectionView,
    frame: FrameView,
)
    requires
        frame_done(wire, before, packet_type, taken, after, Ok(())),
        numbers_given(before.transport),
        is_owed(before.transport, frame),
    ensures
        numbers_given(after.transport),
        is_owed(after.transport, frame),
{
    let pending = before.transport.pending;
    let later = after.transport.pending;
    assert(after.transport == (TransportView { pending: later, ..before.transport }));
    assert(later == pending || (later.len() > 0 && (later == pending.push(later.last()) || later
        == seq![later[0]] + pending)));
    if is_queued(pending, frame) {
        let i = choose|i: int| 0 <= i < pending.len() && (#[trigger] pending[i]).frame == frame;
        assert(later[i].frame == frame || later[i + 1].frame == frame);
    } else {
        let number = choose|number: u64| #[trigger] carries(before.transport, number, frame);
        assert(carries(after.transport, number, frame));
    }
}

/// Until a packet comes that acknowledges it, a frame stays owed, and not all is
/// acknowledged, whatever else comes.
pub proof fn law_owed_until_acknowledged<W: Wire>(
    wire: &W,
    before: ConnectionView,
    packet: PacketView,
    after: ConnectionView,
    frame: FrameView,
)
    requires
        packet_done(wire, before, packet, after, Ok(())),
        numbers_given(before.transport),
        is_owed(before.transport, frame),
        is_kept_until_acknowledged(wire, frame),
        leaves_unacknowledged(before.transport, packet.frames, frame),
    ensures
        numbers_given(after.transport),
        is_owed(after.transport, frame),
        !all_acknowledged(after),
{
    let (noted, acked, taken) = lemma_course(wire, before, packet, after);
    let frames = packet.frames;
    if is_queued(before.transport.pending, frame) {
        assert(is_queued(noted.transport.pending, frame));
    } else {
        let number = choose|number: u64| #[trigger] carries(before.transport, number, frame);
        assert(carries(noted.transport, number, frame));
    }
    assert(leaves_unacknowledged(noted.transport, frames, frame)) by {
        assert forall|i: int, number: u64|
            0 <= i < frames.len() && #[trigger] carries(noted.transport, number, frame) implies (
        #[trigger] frames[i] matches FrameView::Ack(ack) ==> !ranges_hold(ack.ranges, number)) by {
            assert(carries(before.transport, number, frame));
        }
    }
    lemma_acks_keep_owed(wire, noted, frames, frames.len() as int, acked, frame);
    if taken != acked {
        lemma_frames_keep_owed(
            wire,
            acked,
            packet.packet_type,
            frames,
            frames.len() as int,
            taken,
            frame,
        );
    }
    let asked = lemma_answer(wire, taken, frames, after);
    if is_queued(taken.transport.pending, frame) {
        assert(is_queued(asked.transport.pending, frame));
    } else {
        let number = choose|number: u64| #[trigger] carries(taken.transport, number, frame);
        assert(carries(asked.transport, number, frame));
    }
    lemma_sending_keeps_owed(wire, asked, after, frame);
    lemma_owed_is_open(after, frame);
}

/// The steps of a packet that comes without an error.
proof fn lemma_course<W: Wire>(
    wire: &W,
    before: ConnectionView,
    packet: PacketView,
    after: ConnectionView,
) -> (steps: (ConnectionView, ConnectionView, ConnectionView))
    requires
        packet_done(wire, before, packet, after, Ok(())),
    ensures
        packet_noted(before, packet, steps.0, Ok(())),
        acks_done(wire, steps.0, packet.frames, packet.frames.len() as int, steps.1, Ok(())),
        steps.2 == steps.1 || frames_done(
            wire,
            steps.1,
            packet.packet_type,
            packet.frames,
            packet.frames.len() as int,
            steps.2,
            Ok(()),
        ),
        answer_given(wire, steps.2, packet.frames, after, Ok(())),
{
    let count = packet.frames.len() as int;
    let (noted, first) = choose|noted: ConnectionView, first: Result<(), CoreError>| #[trigger]
        packet_noted(before, packet, noted, first) && if first is Ok {
            exists|acked: ConnectionView, second: Result<(), CoreError>| #[trigger]
                acks_done(wire, noted, packet.frames, count, acked, second) && if second is Ok {
                    exists|taken: ConnectionView, third: Result<(), CoreError>| #[trigger]
                        frames_taken(wire, before, packet, acked, taken, third) && if third is Ok {
                            answer_given(wire, taken, packet.frames, after, Ok(()))
                        } else {
                            after == taken && Ok::<(), CoreError>(()) == third
                        }
                } else {
                    after == acked && Ok::<(), CoreError>(()) == second
                }
        } else {
            after == noted && Ok::<(), CoreError>(()) == first
        };
    assert(first is Ok && first->Ok_0 == ());
    let (acked, second) = choose|acked: ConnectionView, second: Result<(), CoreError>| #[trigger]
        acks_done(wire, noted, packet.frames, count, acked, second) && if second is Ok {
            exists|taken: ConnectionView, third: Result<(), CoreError>| #[trigger]
                frames_taken(wire, before, packet, acked, taken, third) && if third is Ok {
                    answer_given(wire, taken, packet.frames, after, Ok(()))
                } else {
                    after == taken && Ok::<(), CoreError>(()) == third
                }
        } else {
            after == acked && Ok::<(), CoreError>(()) == second
        };
    assert(second is Ok && second->Ok_0 == ());
    let (taken, third) = choose|taken: ConnectionView, third: Result<(), CoreError>| #[trigger]
        frames_taken(wire, before, packet, acked, taken, third) && if third is Ok {
            answer_given(wire, taken, packet.frames, after, Ok(()))
        } else {
            after == taken && Ok::<(), CoreError>(()) == third
        };
    assert(third is Ok && third->Ok_0 == ());
    (noted, acked, taken)
}

/// What is sent from once a packet is taken.
proof fn lemma_answer<W: Wire>(
    wire: &W,
    before: ConnectionView,
    frames: Seq<FrameView>,
    after: ConnectionView,
) -> (asked: ConnectionView)
    requires
        answer_given(wire, before, frames, after, Ok(())),
    ensures
        sent_on(wire, asked, after, Ok(())),
        asked.transport == (TransportView {
            ack_pending: asked.transport.ack_pending,
            ack_ready: asked.transport.ack_ready,
            ..before.transport
        }),
        asked.streams == before.streams,
{
    let asks = choose|asks: bool| #[trigger] packet_answered(wire, before, asks, after, Ok(()));
    let (asked, outcome) = choose|asked: ConnectionView, outcome: Result<(), CoreError>| #[trigger]
        ack_asked(before, asks, asked, outcome) && if outcome is Ok {
            sent_on(wire, asked, after, Ok(()))
        } else {
            after == asked && Ok::<(), CoreError>(()) == outcome
        };
    assert(outcome is Ok && outcome->Ok_0 == ());
    asked
}

/// Nothing waits to be sent or to be acknowledged.
pub open spec fn is_idle(transport: TransportView, streams: Map<u64, StreamView>) -> bool {
    &&& transport.pending.len() == 0
    &&& forall|number: u64| !#[trigger] transport.sent.contains_key(number)
    &&& forall|id: u64| #[trigger] streams.contains_key(id) ==> streams[id].send.queue.len() == 0
}

proof fn lemma_step_stays_idle<W: Wire>(
    wire: &W,
    before: SendingView,
    answer: LayoutAnswer,
    identity: FlushIdentity,
    config: ConnectionConfig,
    after: SendingView,
    result: Result<bool, CoreError>,
)
    requires
        sending_step(wire, before, answer, identity, config, after, result),
        is_idle(before.transport, before.streams),
    ensures
        is_idle(after.transport, after.streams),
{
}

proof fn lemma_run_stays_idle<W: Wire>(
    wire: &W,
    states: Seq<SendingView>,
    answers: Seq<LayoutAnswer>,
    identity: FlushIdentity,
    config: ConnectionConfig,
    count: int,
)
    requires
        sending_run(wire, states, answers, identity, config),
        0 <= count <= answers.len(),
        is_idle(states[0].transport, states[0].streams),
    ensures
        is_idle(states[count].transport, states[count].streams),
    decreases count,
{
    if count > 0 {
        lemma_run_stays_idle(wire, states, answers, identity, config, count - 1);
        let answer = answers[count - 1];
        let before = states[count - 1];
        assert(sending_step(wire, before, answer, identity, config, states[count], Ok(true)));
        lemma_step_stays_idle(wire, before, answer, identity, config, states[count], Ok(true));
    }
}

/// Once the only packet is acknowledged that was owed, all is acknowledged.
#[verifier::rlimit(40)]
pub proof fn law_acknowledgement_settles_all<W: Wire>(
    wire: &W,
    before: ConnectionView,
    packet: PacketView,
    ack: AckView,
    after: ConnectionView,
    number: u64,
)
    requires
        packet_done(wire, before, packet, after, Ok(())),
        packet.frames == seq![FrameView::Ack(ack)],
        ranges_hold(ack.ranges, number),
        before.transport.pending.len() == 0,
        forall|id: u64| #[trigger]
            before.streams.contains_key(id) ==> before.streams[id].send.queue.len() == 0,
        forall|other: u64| #[trigger]
            before.transport.sent.contains_key(other) ==> other == number,
    ensures
        all_acknowledged(after),
{
    let (noted, acked, taken) = lemma_course(wire, before, packet, after);
    reveal_with_fuel(acks_done, 2);
    reveal_with_fuel(frames_done, 2);
    assert(packet.frames[0] == FrameView::Ack(ack));
    assert(ack_taken(wire, noted, ack, acked, Ok(())));
    let checked = choose|checked: Result<(), ProtocolError>| #[trigger]
        ack_done(noted, ack, checked, acked, Ok(()));
    let numbers = choose|numbers: Seq<u64>| #[trigger]
        rising_numbers(numbers, noted.transport.sent) && ack_applied(
            noted,
            ack,
            numbers,
            acked,
            Ok(()),
        );
    let count = numbers.len() as int;
    let run = run_of(noted);
    lemma_ack_takes_only(noted, ack, numbers, acked);
    assert forall|i: int| 0 <= i < count implies numbers[i] == number by {
        assert(numbers.contains(numbers[i]));
        assert(noted.transport.sent.contains_key(numbers[i]));
    }
    let left = ack_run(run, numbers, ack.ranges, count);
    assert forall|other: u64| !#[trigger] acked.transport.sent.contains_key(other) by {
        if acked.transport.sent.contains_key(other) {
            assert(noted.transport.sent.contains_key(other));
            assert(numbers.contains(other));
            let at = choose|i: int| 0 <= i < count && numbers[i] == other;
            lemma_acks_take_away(run, numbers, ack.ranges, count, at);
            lemma_losses_only_take(
                left,
                numbers,
                ack.ranges,
                noted.config.fast_loss_threshold,
                noted.config.max_retransmissions,
                count,
            );
        }
    }
    lemma_none_lost(
        left,
        numbers,
        ack.ranges,
        noted.config.fast_loss_threshold,
        noted.config.max_retransmissions,
        count,
    );
    assert(is_idle(acked.transport, acked.streams));
    assert(taken == acked);
    let asked = lemma_answer(wire, taken, packet.frames, after);
    let identity = identity_of(asked);
    let config = asked.config;
    let end = sending_side(after);
    let (states, answers) = choose|states: Seq<SendingView>, answers: Seq<LayoutAnswer>| #[trigger]
        sending_run(wire, states, answers, identity, config) && states[0] == sending_side(asked)
            && sending_ends(wire, states.last(), identity, config, end, Ok(()));
    lemma_run_stays_idle(wire, states, answers, identity, config, answers.len() as int);
    let (answer, outcome) = choose|answer: LayoutAnswer, outcome: Result<bool, CoreError>|
        #[trigger]
        sending_step(wire, states.last(), answer, identity, config, end, outcome);
    lemma_step_stays_idle(wire, states.last(), answer, identity, config, end, outcome);
    assert(after.transport.sent =~= Map::<u64, SentView>::empty());
}

/// Where every packet is acknowledged, none is lost.
proof fn lemma_none_lost(
    run: AckRun,
    numbers: Seq<u64>,
    ranges: Seq<AckRange>,
    threshold: u64,
    max_retransmissions: u32,
    count: int,
)
    requires
        0 <= count <= numbers.len(),
        forall|i: int| 0 <= i < numbers.len() ==> ranges_hold(ranges, #[trigger] numbers[i]),
    ensures
        loss_run(run, numbers, ranges, threshold, max_retransmissions, count) == run,
    decreases count,
{
    if count > 0 {
        lemma_none_lost(run, numbers, ranges, threshold, max_retransmissions, count - 1);
    }
}

/// Nothing of the streams waits to be sent.
pub open spec fn queues_empty(streams: Map<u64, StreamView>) -> bool {
    forall|id: u64| #[trigger] streams.contains_key(id) ==> streams[id].send.queue.len() == 0
}

/// The frame is all that is owed: it waits to be sent, or one packet that carries
/// it waits for its acknowledgement.
pub open spec fn is_owed_alone(transport: TransportView, frame: FrameView) -> bool {
    ||| {
        &&& transport.pending.len() == 1
        &&& transport.pending[0].frame == frame
        &&& forall|number: u64| !#[trigger] transport.sent.contains_key(number)
    }
    ||| {
        &&& transport.pending.len() == 0
        &&& exists|number: u64| #[trigger] carries_alone(transport, number, frame)
    }
}

/// The packet of this number carries the frame, and no other waits for its
/// acknowledgement.
pub open spec fn carries_alone(transport: TransportView, number: u64, frame: FrameView) -> bool {
    &&& carries(transport, number, frame)
    &&& forall|other: u64| #[trigger] transport.sent.contains_key(other) ==> other == number
}

/// What is owed alone is owed.
proof fn lemma_owed_alone(transport: TransportView, frame: FrameView)
    requires
        is_owed_alone(transport, frame),
    ensures
        is_owed(transport, frame),
{
    if transport.pending.len() == 1 {
        assert(is_queued(transport.pending, frame));
    } else {
        let number = choose|number: u64| #[trigger] carries_alone(transport, number, frame);
        assert(carries(transport, number, frame));
    }
}

/// A step of sending adds nothing to what is owed alone.
proof fn lemma_step_keeps_alone<W: Wire>(
    wire: &W,
    before: SendingView,
    answer: LayoutAnswer,
    identity: FlushIdentity,
    config: ConnectionConfig,
    after: SendingView,
    result: Result<bool, CoreError>,
    frame: FrameView,
)
    requires
        sending_step(wire, before, answer, identity, config, after, result),
        result is Ok,
        is_owed_alone(before.transport, frame),
        queues_empty(before.streams),
        is_kept_until_acknowledged(wire, frame),
    ensures
        is_owed_alone(after.transport, frame),
        queues_empty(after.streams),
{
    let pending = before.transport.pending;
    let next = before.transport.next_packet_number;
    if pending.len() == 1 && !(before.transport.ack_pending && before.transport.ack_ready) {
        assert(pending.subrange(1, 1) =~= Seq::empty());
        if after.transport.pending.len() == 0 {
            assert(carries_alone(after.transport, next, frame));
        } else {
            assert(after.transport.pending =~= seq![pending[0]]);
        }
    } else {
        assert(after.transport.pending == pending);
        assert(after.transport.sent == before.transport.sent);
        if pending.len() == 0 {
            let number = choose|number: u64| #[trigger]
                carries_alone(before.transport, number, frame);
            assert(carries_alone(after.transport, number, frame));
        }
    }
}

proof fn lemma_run_keeps_alone<W: Wire>(
    wire: &W,
    states: Seq<SendingView>,
    answers: Seq<LayoutAnswer>,
    identity: FlushIdentity,
    config: ConnectionConfig,
    count: int,
    frame: FrameView,
)
    requires
        sending_run(wire, states, answers, identity, config),
        0 <= count <= answers.len(),
        is_owed_alone(states[0].transport, frame),
        queues_empty(states[0].streams),
        is_kept_until_acknowledged(wire, frame),
    ensures
        is_owed_alone(states[count].transport, frame),
        queues_empty(states[count].streams),
    decreases count,
{
    if count > 0 {
        lemma_run_keeps_alone(wire, states, answers, identity, config, count - 1, frame);
        let answer = answers[count - 1];
        let before = states[count - 1];
        assert(sending_step(wire, before, answer, identity, config, states[count], Ok(true)));
        lemma_step_keeps_alone(
            wire,
            before,
            answer,
            identity,
            config,
            states[count],
            Ok(true),
            frame,
        );
    }
}

/// Sending adds nothing to what is owed alone.
proof fn lemma_sending_keeps_alone<W: Wire>(
    wire: &W,
    before: ConnectionView,
    after: ConnectionView,
    frame: FrameView,
)
    requires
        sent_on(wire, before, after, Ok(())),
        is_owed_alone(before.transport, frame),
        queues_empty(before.streams),
        is_kept_until_acknowledged(wire, frame),
    ensures
        is_owed_alone(after.transport, frame),
        queues_empty(after.streams),
{
    let identity = identity_of(before);
    let config = before.config;
    let end = sending_side(after);
    let (states, answers) = choose|states: Seq<SendingView>, answers: Seq<LayoutAnswer>| #[trigger]
        sending_run(wire, states, answers, identity, config) && states[0] == sending_side(before)
            && sending_ends(wire, states.last(), identity, config, end, Ok(()));
    lemma_run_keeps_alone(
        wire,
        states,
        answers,
        identity,
        config,
        answers.len() as int,
        frame,
    );
    let (answer, outcome) = choose|answer: LayoutAnswer, outcome: Result<bool, CoreError>|
        #[trigger]
        sending_step(wire, states.last(), answer, identity, config, end, outcome) && match outcome {
            Ok(more) => !more,
            Err(_) => false,
        };
    lemma_step_keeps_alone(wire, states.last(), answer, identity, config, end, outcome, frame);
}

/// An acknowledgement that does not name its packet adds nothing to what is owed
/// alone.
proof fn lemma_ack_keeps_alone(
    before: ConnectionView,
    ack: AckView,
    checked: Result<(), ProtocolError>,
    after: ConnectionView,
    frame: FrameView,
)
    requires
        ack_done(before, ack, checked, after, Ok(())),
        is_owed_alone(before.transport, frame),
        queues_empty(before.streams),
        !(frame is StreamData),
        forall|number: u64| #[trigger]
            carries(before.transport, number, frame) ==> !ranges_hold(ack.ranges, number),
    ensures
        is_owed_alone(after.transport, frame),
        queues_empty(after.streams),
{
    let numbers = choose|numbers: Seq<u64>| #[trigger]
        rising_numbers(numbers, before.transport.sent) && ack_applied(
            before,
            ack,
            numbers,
            after,
            Ok(()),
        );
    let count = numbers.len() as int;
    let run = run_of(before);
    let threshold = before.config.fast_loss_threshold;
    let most = before.config.max_retransmissions;
    if count > 0 {
        assert(numbers.contains(numbers[0]));
        if count > 1 {
            assert(numbers.contains(numbers[1]));
            assert(numbers[0] < numbers[1]);
        }
    }
    if before.transport.pending.len() == 1 {
        assert(count == 0);
        assert(after.transport.pending == before.transport.pending);
    } else {
        let number = choose|number: u64| #[trigger] carries_alone(before.transport, number, frame);
        assert(carries(before.transport, number, frame));
        assert(numbers.contains(number));
        assert(count == 1 && numbers[0] == number);
        reveal_with_fuel(ack_run, 2);
        reveal_with_fuel(loss_run, 2);
        let acked = ack_run(run, numbers, ack.ranges, 1);
        assert(acked == run);
        if is_lost(numbers, ack.ranges, number, threshold) {
            let left = loss_run(acked, numbers, ack.ranges, threshold, most, 1);
            assert(left.pending.len() == 1);
            assert(left.pending[0].frame == frame);
        } else {
            assert(carries_alone(after.transport, number, frame));
        }
    }
}

proof fn lemma_acks_keep_alone<W: Wire>(
    wire: &W,
    before: ConnectionView,
    frames: Seq<FrameView>,
    count: int,
    after: ConnectionView,
    frame: FrameView,
)
    requires
        acks_done(wire, before, frames, count, after, Ok(())),
        count <= frames.len(),
        numbers_given(before.transport),
        is_owed_alone(before.transport, frame),
        queues_empty(before.streams),
        !(frame is StreamData),
        leaves_unacknowledged(before.transport, frames, frame),
    ensures
        is_owed_alone(after.transport, frame),
        queues_empty(after.streams),
    decreases count,
{
    if count > 0 {
        let (middle, so_far) = choose|middle: ConnectionView, so_far: Result<(), CoreError>|
            #[trigger]
            ack_follows(wire, middle, so_far, frames[count - 1], after, Ok(())) && acks_done(
                wire,
                before,
                frames,
                count - 1,
                middle,
                so_far,
            );
        assert(so_far is Ok && so_far->Ok_0 == ());
        lemma_acks_keep_alone(wire, before, frames, count - 1, middle, frame);
        lemma_owed_alone(before.transport, frame);
        lemma_acks_keep_owed(wire, before, frames, count - 1, middle, frame);
        if let FrameView::Ack(ack) = frames[count - 1] {
            let checked = choose|checked: Result<(), ProtocolError>| #[trigger]
                ack_done(middle, ack, checked, after, Ok(()));
            assert forall|number: u64| #[trigger]
                carries(middle.transport, number, frame) implies !ranges_hold(
                ack.ranges,
                number,
            ) by {
                assert(carries(before.transport, number, frame));
            }
            lemma_ack_keeps_alone(middle, ack, checked, after, frame);
        }
    }
}

/// A frame that asks for nothing to be sent, but for acknowledgements.
pub open spec fn is_quiet(frame: FrameView) -> bool {
    match frame {
        FrameView::Ack(_) => true,
        FrameView::Pong(_) => true,
        FrameView::StreamOpen(_) => true,
        FrameView::StreamData(_) => true,
        FrameView::ResetStream(_) => true,
        FrameView::MaxStreamData(_) => true,
        FrameView::MaxData(_) => true,
        _ => false,
    }
}

/// A packet of such frames.
pub open spec fn is_quiet_packet(packet: PacketView) -> bool {
    forall|i: int| 0 <= i < packet.frames.len() ==> is_quiet(#[trigger] packet.frames[i])
}

proof fn lemma_quiet_frames<W: Wire>(
    wire: &W,
    before: ConnectionView,
    packet_type: PacketType,
    frames: Seq<FrameView>,
    count: int,
    after: ConnectionView,
)
    requires
        frames_done(wire, before, packet_type, frames, count, after, Ok(())),
        count <= frames.len(),
        queues_empty(before.streams),
        forall|i: int| 0 <= i < frames.len() ==> is_quiet(#[trigger] frames[i]),
    ensures
        after.transport == before.transport,
        queues_empty(after.streams),
    decreases count,
{
    if count > 0 {
        let (middle, so_far) = choose|middle: ConnectionView, so_far: Result<(), CoreError>|
            #[trigger]
            frame_follows(
                wire,
                middle,
                so_far,
                packet_type,
                frames[count - 1],
                after,
                Ok(()),
            ) && frames_done(wire, before, packet_type, frames, count - 1, middle, so_far);
        assert(so_far is Ok && so_far->Ok_0 == ());
        lemma_quiet_frames(wire, before, packet_type, frames, count - 1, middle);
        assert(is_quiet(frames[count - 1]));
        assert(frame_done(wire, middle, packet_type, frames[count - 1], after, Ok(())));
        lemma_quiet_frame(wire, middle, packet_type, frames[count - 1], after);
    }
}

proof fn lemma_quiet_frame<W: Wire>(
    wire: &W,
    before: ConnectionView,
    packet_type: PacketType,
    frame: FrameView,
    after: ConnectionView,
)
    requires
        frame_done(wire, before, packet_type, frame, after, Ok(())),
        queues_empty(before.streams),
        is_quiet(frame),
    ensures
        after.transport == before.transport,
        queues_empty(after.streams),
{
}

/// A quiet packet that does not acknowledge it adds nothing to what is owed alone.
proof fn lemma_packet_keeps_alone<W: Wire>(
    wire: &W,
    before: ConnectionView,
    packet: PacketView,
    after: ConnectionView,
    frame: FrameView,
)
    requires
        packet_done(wire, before, packet, after, Ok(())),
        numbers_given(before.transport),
        is_owed_alone(before.transport, frame),
        queues_empty(before.streams),
        is_kept_until_acknowledged(wire, frame),
        leaves_unacknowledged(before.transport, packet.frames, frame),
        is_quiet_packet(packet),
    ensures
        is_owed_alone(after.transport, frame),
        queues_empty(after.streams),
{
    let (noted, acked, taken) = lemma_course(wire, before, packet, after);
    let frames = packet.frames;
    let count = frames.len() as int;
    lemma_same_owed(before.transport, noted.transport, frame);
    assert(leaves_unacknowledged(noted.transport, frames, frame)) by {
        assert forall|i: int, number: u64|
            0 <= i < frames.len() && #[trigger] carries(noted.transport, number, frame) implies (
        #[trigger] frames[i] matches FrameView::Ack(ack) ==> !ranges_hold(ack.ranges, number)) by {
            assert(carries(before.transport, number, frame));
        }
    }
    lemma_acks_keep_alone(wire, noted, frames, count, acked, frame);
    if taken != acked {
        lemma_quiet_frames(wire, acked, packet.packet_type, frames, count, taken);
    }
    let asked = lemma_answer(wire, taken, frames, after);
    lemma_same_owed(taken.transport, asked.transport, frame);
    lemma_sending_keeps_alone(wire, asked, after, frame);
}

/// What is owed rests on what waits alone.
proof fn lemma_same_owed(before: TransportView, after: TransportView, frame: FrameView)
    requires
        is_owed_alone(before, frame),
        after.pending == before.pending,
        after.sent == before.sent,
    ensures
        is_owed_alone(after, frame),
{
    if before.pending.len() == 0 {
        let number = choose|number: u64| #[trigger] carries_alone(before, number, frame);
        assert(carries_alone(after, number, frame));
    }
}

/// Nothing but what is announced differs, as after what was announced is taken.
pub open spec fn same_but_output(before: ConnectionView, after: ConnectionView) -> bool {
    after == (ConnectionView { output: after.output, ..before })
}

/// A packet comes, and what it led to is taken.
pub open spec fn packet_comes<W: Wire>(
    wire: &W,
    before: ConnectionView,
    packet: PacketView,
    after: ConnectionView,
) -> bool {
    exists|done: ConnectionView| #[trigger]
        packet_done(wire, before, packet, done, Ok(())) && same_but_output(done, after)
}

/// Packets come one after the other, none of which acknowledges the frame.
pub open spec fn unacknowledged_run<W: Wire>(
    wire: &W,
    states: Seq<ConnectionView>,
    packets: Seq<PacketView>,
    frame: FrameView,
) -> bool {
    &&& states.len() == packets.len() + 1
    &&& forall|i: int|
        0 <= i < packets.len() ==> packet_comes(
            wire,
            states[i],
            #[trigger] packets[i],
            states[i + 1],
        ) && leaves_unacknowledged(states[i].transport, packets[i].frames, frame)
}

proof fn lemma_run_owes<W: Wire>(
    wire: &W,
    states: Seq<ConnectionView>,
    packets: Seq<PacketView>,
    frame: FrameView,
    count: int,
)
    requires
        unacknowledged_run(wire, states, packets, frame),
        0 <= count <= packets.len(),
        numbers_given(states[0].transport),
        is_owed_alone(states[0].transport, frame),
        queues_empty(states[0].streams),
        is_kept_until_acknowledged(wire, frame),
    ensures
        numbers_given(states[count].transport),
        is_owed(states[count].transport, frame),
        !all_acknowledged(states[count]),
        (forall|i: int| 0 <= i < packets.len() ==> is_quiet_packet(#[trigger] packets[i]))
            ==> is_owed_alone(states[count].transport, frame) && queues_empty(
            states[count].streams,
        ),
    decreases count,
{
    if count == 0 {
        lemma_owed_alone(states[0].transport, frame);
        lemma_owed_is_open(states[0], frame);
    } else {
        lemma_run_owes(wire, states, packets, frame, count - 1);
        let before = states[count - 1];
        let packet = packets[count - 1];
        assert(packet_comes(wire, before, packet, states[count - 1 + 1]));
        let done = choose|done: ConnectionView| #[trigger]
            packet_done(wire, before, packet, done, Ok(())) && same_but_output(
                done,
                states[count],
            );
        law_owed_until_acknowledged(wire, before, packet, done, frame);
        lemma_owed_is_open(states[count], frame);
        if forall|i: int| 0 <= i < packets.len() ==> is_quiet_packet(#[trigger] packets[i]) {
            lemma_packet_keeps_alone(wire, before, packet, done, frame);
        }
    }
}

/// The whole course of opening a stream where all was acknowledged before. While
/// packets come that do not acknowledge its opening, not all is acknowledged,
/// whatever they hold. If they ask for nothing else to be sent, all is
/// acknowledged once the packet comes that acknowledges it.
pub proof fn law_opening_is_settled_by_its_acknowledgement<W: Wire>(
    wire: &W,
    before: ConnectionView,
    opened: ConnectionView,
    id: StreamId,
    states: Seq<ConnectionView>,
    packets: Seq<PacketView>,
    last: PacketView,
    ack: AckView,
    number: u64,
    after: ConnectionView,
)
    requires
        numbers_given(before.transport),
        all_acknowledged(before),
        open_done(wire, before, opened, Ok(id)),
        is_kept_until_acknowledged(wire, opening_frame(before, id)),
        unacknowledged_run(wire, states, packets, opening_frame(before, id)),
        same_but_output(opened, states[0]),
        packet_done(wire, states.last(), last, after, Ok(())),
        last.frames == seq![FrameView::Ack(ack)],
        carries(states.last().transport, number, opening_frame(before, id)),
        ranges_hold(ack.ranges, number),
    ensures
        forall|i: int| 0 <= i < states.len() ==> !all_acknowledged(#[trigger] states[i]),
        (forall|i: int| 0 <= i < packets.len() ==> is_quiet_packet(#[trigger] packets[i]))
            ==> all_acknowledged(after),
{
    let frame = opening_frame(before, id);
    law_opened_stream_awaits_its_acknowledgement(wire, before, opened, id);
    lemma_opening_is_owed_alone(wire, before, opened, id);
    lemma_same_owed(opened.transport, states[0].transport, frame);
    assert forall|i: int| 0 <= i < states.len() implies !all_acknowledged(#[trigger] states[i]) by {
        lemma_run_owes(wire, states, packets, frame, i);
    }
    if forall|i: int| 0 <= i < packets.len() ==> is_quiet_packet(#[trigger] packets[i]) {
        let end = states.last();
        lemma_run_owes(wire, states, packets, frame, packets.len() as int);
        assert(end.transport.sent.contains_key(number));
        law_acknowledgement_settles_all(wire, end, last, ack, after, number);
    }
}

/// Where all was acknowledged before, the opening of a stream is all that is owed.
proof fn lemma_opening_is_owed_alone<W: Wire>(
    wire: &W,
    before: ConnectionView,
    after: ConnectionView,
    id: StreamId,
)
    requires
        all_acknowledged(before),
        open_done(wire, before, after, Ok(id)),
        is_kept_until_acknowledged(wire, opening_frame(before, id)),
    ensures
        is_owed_alone(after.transport, opening_frame(before, id)),
        queues_empty(after.streams),
{
    let next = before.next_stream;
    let frame = opening_frame(before, id);
    let window = before.handshake.peer_initial_stream_window;
    let stream = choose|stream: StreamView| #[trigger]
        opened(stream, id, true, window, before.config.initial_stream_window) && sent_on(
            wire,
            queued(
                ConnectionView {
                    streams: before.streams.insert(next, stream),
                    next_stream: (next + 2) as u64,
                    ..before
                },
                frame,
            ),
            after,
            Ok(()),
        );
    let asked = queued(
        ConnectionView {
            streams: before.streams.insert(next, stream),
            next_stream: (next + 2) as u64,
            ..before
        },
        frame,
    );
    assert(queues_empty(asked.streams));
    assert(is_owed_alone(asked.transport, frame));
    lemma_sending_keeps_alone(wire, asked, after, frame);
}

} // verus!
