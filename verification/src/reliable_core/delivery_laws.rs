//! What holds of sending, of acknowledgements and of losses together.

use vstd::prelude::*;

use crate::reliable_core::config::ConnectionConfig;
use crate::reliable_core::congestion::{greater, lesser};
use crate::reliable_core::error::CoreError;
use crate::reliable_core::event::OutputView;
use crate::reliable_core::recovery::SentView;
use crate::reliable_core::send::{PendingView, QueuedView};
use crate::reliable_core::sending::{
    sending_done, sending_ends, sending_run, sending_step, LayoutAnswer, SendingView,
};
use crate::reliable_core::streams::StreamView;
use crate::reliable_core::timer::TimerEvent;
use crate::reliable_core::transition::{
    ack_applied, ack_done, stream_data_done, timer_done, ConnectionView,
};
use crate::reliable_core::transport::{
    ack_run, is_lost, loss_run, put_back, rising_numbers, AckRun, FlushIdentity,
};
use crate::time_wheel::shape::slots_without;
use crate::wire::{
    ranges_hold, AckRange, AckView, FrameView, PacketType, ProtocolError, StreamDataView, Wire,
};

verus! {

/// Bytes for one stream change no other stream.
pub proof fn law_streams_are_independent(
    before: ConnectionView,
    packet_type: PacketType,
    data: StreamDataView,
    after: ConnectionView,
    result: Result<(), CoreError>,
    other: u64,
)
    requires
        stream_data_done(before, packet_type, data, after, result),
        other != data.stream_id.value,
    ensures
        after.streams.contains_key(other) == before.streams.contains_key(other),
        after.streams[other] == before.streams[other],
{
}

/// Bytes that are refused change nothing, so that the stream goes on as if they
/// had never come. Where the buffer turns out to be full, they were taken.
pub proof fn law_refused_bytes_change_nothing(
    before: ConnectionView,
    packet_type: PacketType,
    data: StreamDataView,
    after: ConnectionView,
    error: CoreError,
)
    requires
        stream_data_done(before, packet_type, data, after, Err(error)),
        error != CoreError::ReceiveBufferFull,
    ensures
        after == before,
{
}

/// What was sent never passes what the other side allows, and what is on its way
/// never passes the window of the congestion control because of it.
pub open spec fn within_windows(before: SendingView, after: SendingView) -> bool {
    let congestion = before.transport.congestion;
    &&& after.send.connection_max_offset == before.send.connection_max_offset
    &&& before.send.connection_sent_offset <= after.send.connection_sent_offset
    &&& after.send.connection_sent_offset <= greater(
        before.send.connection_sent_offset as int,
        before.send.connection_max_offset as int,
    )
    &&& after.transport.congestion.cwnd == congestion.cwnd
    &&& congestion.bytes_in_flight <= after.transport.congestion.bytes_in_flight
    &&& after.transport.congestion.bytes_in_flight <= greater(
        congestion.bytes_in_flight as int,
        congestion.cwnd as int,
    )
}

/// What is announced from here on are packets, numbered one after the other.
pub open spec fn numbered_on(before: SendingView, after: SendingView) -> bool {
    let start = before.output.len();
    let first = before.transport.next_packet_number;
    &&& start <= after.output.len()
    &&& forall|i: int| 0 <= i < start ==> #[trigger] after.output[i] == before.output[i]
    &&& after.transport.next_packet_number - first == after.output.len() - start
    &&& forall|i: int|
        start <= i < after.output.len() ==> (#[trigger] after.output[i] matches OutputView::Send(
            packet,
        ) && packet.packet_number.value == first + (i - start))
}

proof fn lemma_step_keeps_windows<W: Wire>(
    wire: &W,
    before: SendingView,
    answer: LayoutAnswer,
    identity: FlushIdentity,
    config: ConnectionConfig,
    after: SendingView,
    result: Result<bool, CoreError>,
)
    requires
        sending_step(wire, before, answer, identity, config, after, result),
    ensures
        within_windows(before, after),
        numbered_on(before, after),
{
}

proof fn lemma_run_keeps_windows<W: Wire>(
    wire: &W,
    states: Seq<SendingView>,
    answers: Seq<LayoutAnswer>,
    identity: FlushIdentity,
    config: ConnectionConfig,
    count: int,
)
    requires
        sending_run(wire, states, answers, identity, config),
        0 <= count <= answers.len(),
    ensures
        within_windows(states[0], states[count]),
        numbered_on(states[0], states[count]),
    decreases count,
{
    if count > 0 {
        lemma_run_keeps_windows(wire, states, answers, identity, config, count - 1);
        let answer = answers[count - 1];
        assert(sending_step(
            wire,
            states[count - 1],
            answer,
            identity,
            config,
            states[count],
            Ok(true),
        ));
        lemma_step_keeps_windows(
            wire,
            states[count - 1],
            answer,
            identity,
            config,
            states[count],
            Ok(true),
        );
    }
}

proof fn lemma_sending_keeps_windows<W: Wire>(
    wire: &W,
    before: SendingView,
    identity: FlushIdentity,
    config: ConnectionConfig,
    after: SendingView,
    result: Result<(), CoreError>,
)
    requires
        sending_done(wire, before, identity, config, after, result),
    ensures
        within_windows(before, after),
        numbered_on(before, after),
{
    let (states, answers) = choose|states: Seq<SendingView>, answers: Seq<LayoutAnswer>| #[trigger]
        sending_run(wire, states, answers, identity, config) && states[0] == before && sending_ends(
            wire,
            states.last(),
            identity,
            config,
            after,
            result,
        );
    lemma_run_keeps_windows(wire, states, answers, identity, config, answers.len() as int);
    let (answer, outcome) = choose|answer: LayoutAnswer, outcome: Result<bool, CoreError>|
        #[trigger]
        sending_step(wire, states.last(), answer, identity, config, after, outcome);
    lemma_step_keeps_windows(wire, states.last(), answer, identity, config, after, outcome);
}

/// Sending keeps to what the other side allows and to the window of the
/// congestion control, however it ends: neither is passed by what is sent.
pub proof fn law_sending_keeps_within_the_windows<W: Wire>(
    wire: &W,
    before: SendingView,
    identity: FlushIdentity,
    config: ConnectionConfig,
    after: SendingView,
    result: Result<(), CoreError>,
)
    requires
        sending_done(wire, before, identity, config, after, result),
    ensures
        within_windows(before, after),
{
    lemma_sending_keeps_windows(wire, before, identity, config, after, result);
}

/// No number is used for two packets: those that are sent are numbered one after
/// the other, from the next number on, however sending ends.
pub proof fn law_packets_are_numbered_in_order<W: Wire>(
    wire: &W,
    before: SendingView,
    identity: FlushIdentity,
    config: ConnectionConfig,
    after: SendingView,
    result: Result<(), CoreError>,
)
    requires
        sending_done(wire, before, identity, config, after, result),
    ensures
        numbered_on(before, after),
{
    lemma_sending_keeps_windows(wire, before, identity, config, after, result);
}

/// Whether one map is part of another.
pub open spec fn is_part<V>(part: Map<u64, V>, whole: Map<u64, V>) -> bool {
    forall|key: u64| #[trigger]
        part.contains_key(key) ==> whole.contains_key(key) && part[key] == whole[key]
}

/// The first acknowledgements of a run take the packets away that they name, and
/// their timers, and nothing else.
pub proof fn lemma_acks_take_away(
    run: AckRun,
    numbers: Seq<u64>,
    ranges: Seq<AckRange>,
    count: int,
    at: int,
)
    requires
        forall|i: int, j: int| 0 <= i < j < numbers.len() ==> numbers[i] < numbers[j],
        0 <= count <= numbers.len(),
        0 <= at < numbers.len(),
    ensures
        ({
            let after = ack_run(run, numbers, ranges, count);
            let number = numbers[at];
            &&& after.pending == run.pending
            &&& after.streams == run.streams
            &&& after.failed == run.failed
            &&& is_part(after.sent, run.sent)
            &&& is_part(after.timers, run.timers)
            &&& !ranges_hold(ranges, number) || at >= count ==> after.sent.contains_key(number)
                == run.sent.contains_key(number)
            &&& ranges_hold(ranges, number) && at < count ==> !after.sent.contains_key(number)
            &&& ranges_hold(ranges, number) && at < count && run.sent.contains_key(number)
                ==> !after.timers.contains_key(run.sent[number].timer_id.value())
        }),
    decreases count,
{
    if count > 0 {
        lemma_acks_take_away(run, numbers, ranges, count - 1, at);
        let before = ack_run(run, numbers, ranges, count - 1);
        if at == count - 1 && run.sent.contains_key(numbers[at]) {
            assert(before.sent[numbers[at]] == run.sent[numbers[at]]);
        }
    }
}

/// Whether a frame waits to be sent. Pieces of streams wait in their streams.
pub open spec fn frame_waits(
    pending: Seq<QueuedView>,
    streams: Map<u64, StreamView>,
    frame: FrameView,
) -> bool {
    match frame {
        FrameView::StreamData(data) => {
            let id = data.stream_id.value;
            streams.contains_key(id) && exists|i: int|
                0 <= i < streams[id].send.queue.len() && is_piece(
                    #[trigger] streams[id].send.queue[i],
                    data,
                )
        },
        _ => exists|i: int| 0 <= i < pending.len() && (#[trigger] pending[i]).frame == frame,
    }
}

/// Whether a piece holds these bytes.
pub open spec fn is_piece(piece: PendingView, data: StreamDataView) -> bool {
    piece.offset == data.offset && piece.data == data.data && piece.fin == data.fin
}

/// What a packet carried is not lost: the packet still waits for its
/// acknowledgement, or its frame waits to be sent again.
pub open spec fn still_owed(view: ConnectionView, packet: SentView) -> bool {
    let number = packet.packet_number.value;
    ||| view.transport.sent.contains_key(number) && view.transport.sent[number] == packet
    ||| frame_waits(view.transport.pending, view.streams, packet.frame.frame)
}

/// A frame that waits still waits once another one is put back.
pub proof fn lemma_waits_on(before: AckRun, after: AckRun, queued: QueuedView, frame: FrameView)
    requires
        after == put_back(before, queued),
        after.failed is None,
    ensures
        frame_waits(before.pending, before.streams, frame) ==> frame_waits(
            after.pending,
            after.streams,
            frame,
        ),
        frame_waits(after.pending, after.streams, queued.frame),
{
    if let FrameView::StreamData(data) = queued.frame {
        let id = data.stream_id.value;
        assert(before.streams.contains_key(id));
        assert(is_piece(after.streams[id].send.queue[0], data));
    } else {
        assert(after.pending[0].frame == queued.frame);
    }
    if frame_waits(before.pending, before.streams, frame) {
        if let FrameView::StreamData(data) = frame {
            let id = data.stream_id.value;
            let queue = before.streams[id].send.queue;
            let i = choose|i: int| 0 <= i < queue.len() && is_piece(#[trigger] queue[i], data);
            let longer = after.streams[id].send.queue;
            assert(is_piece(longer[i], data) || is_piece(longer[i + 1], data));
        } else {
            let i = choose|i: int|
                0 <= i < before.pending.len() && (#[trigger] before.pending[i]).frame == frame;
            assert(after.pending[i].frame == frame || after.pending[i + 1].frame == frame);
        }
    }
}

/// The first losses of a run put the frames back that were lost.
proof fn lemma_losses_put_back(
    run: AckRun,
    numbers: Seq<u64>,
    ranges: Seq<AckRange>,
    threshold: u64,
    max_retransmissions: u32,
    count: int,
    number: u64,
)
    requires
        run.sent.contains_key(number),
        0 <= count <= numbers.len(),
    ensures
        ({
            let after = loss_run(run, numbers, ranges, threshold, max_retransmissions, count);
            after.failed is None ==> {
                ||| after.sent.contains_key(number) && after.sent[number] == run.sent[number]
                ||| frame_waits(after.pending, after.streams, run.sent[number].frame.frame)
            }
        }),
    decreases count,
{
    if count > 0 {
        lemma_losses_put_back(
            run,
            numbers,
            ranges,
            threshold,
            max_retransmissions,
            count - 1,
            number,
        );
        let before = loss_run(run, numbers, ranges, threshold, max_retransmissions, count - 1);
        let after = loss_run(run, numbers, ranges, threshold, max_retransmissions, count);
        let lost = numbers[count - 1];
        if after.failed is None && before.failed is None && is_lost(
            numbers,
            ranges,
            lost,
            threshold,
        ) {
            let packet = before.sent[lost];
            let left = AckRun {
                sent: before.sent.remove(lost),
                timers: before.timers.remove(packet.timer_id.value()),
                slots: slots_without(before.slots, packet.timer_id.value()),
                congestion: before.congestion.after_loss(packet.encoded_len),
                ..before
            };
            let again = QueuedView {
                frame: packet.frame.frame,
                retransmit_count: lesser(
                    packet.retransmit_count + 1,
                    u32::MAX as int,
                ) as u32,
            };
            lemma_waits_on(left, after, again, run.sent[number].frame.frame);
        }
    }
}

/// Losses take away and add nothing.
pub proof fn lemma_losses_only_take(
    run: AckRun,
    numbers: Seq<u64>,
    ranges: Seq<AckRange>,
    threshold: u64,
    max_retransmissions: u32,
    count: int,
)
    ensures
        ({
            let after = loss_run(run, numbers, ranges, threshold, max_retransmissions, count);
            is_part(after.sent, run.sent) && is_part(after.timers, run.timers)
        }),
    decreases count,
{
    if count > 0 {
        lemma_losses_only_take(run, numbers, ranges, threshold, max_retransmissions, count - 1);
    }
}

/// A packet that is acknowledged is forgotten, and its timer is cancelled,
/// whatever else the acknowledgement leads to.
pub proof fn law_acknowledged_packets_are_forgotten(
    before: ConnectionView,
    ack: AckView,
    after: ConnectionView,
    result: Result<(), CoreError>,
    number: u64,
)
    requires
        ack_done(before, ack, Ok(()), after, result),
        ack.largest < before.transport.next_packet_number,
        ranges_hold(ack.ranges, number),
        before.transport.sent.contains_key(number),
    ensures
        !after.transport.sent.contains_key(number),
        !after.timers.timers.contains_key(before.transport.sent[number].timer_id.value()),
{
    let numbers = choose|numbers: Seq<u64>| #[trigger]
        rising_numbers(numbers, before.transport.sent) && ack_applied(
            before,
            ack,
            numbers,
            after,
            result,
        );
    let run = run_of(before);
    let count = numbers.len() as int;
    assert(numbers.contains(number));
    let at = choose|i: int| 0 <= i < numbers.len() && numbers[i] == number;
    lemma_acks_take_away(run, numbers, ack.ranges, count, at);
    lemma_losses_only_take(
        ack_run(run, numbers, ack.ranges, count),
        numbers,
        ack.ranges,
        before.config.fast_loss_threshold,
        before.config.max_retransmissions,
        count,
    );
}

/// What acknowledgements and losses start from.
pub open spec fn run_of(view: ConnectionView) -> AckRun {
    AckRun {
        sent: view.transport.sent,
        timers: view.timers.timers,
        slots: view.timers.slots,
        congestion: view.transport.congestion,
        pending: view.transport.pending,
        streams: view.streams,
        failed: None,
    }
}

/// What was sent is never forgotten before it is acknowledged: after an
/// acknowledgement that does not name it, a packet still waits for its own, or
/// its frame waits to be sent again.
pub proof fn law_unacknowledged_frames_are_kept(
    before: ConnectionView,
    ack: AckView,
    checked: Result<(), ProtocolError>,
    after: ConnectionView,
    number: u64,
)
    requires
        ack_done(before, ack, checked, after, Ok(())),
        before.transport.sent.contains_key(number),
        before.transport.sent[number].packet_number.value == number,
        !ranges_hold(ack.ranges, number),
    ensures
        still_owed(after, before.transport.sent[number]),
{
    let numbers = choose|numbers: Seq<u64>| #[trigger]
        rising_numbers(numbers, before.transport.sent) && ack_applied(
            before,
            ack,
            numbers,
            after,
            Ok(()),
        );
    let run = run_of(before);
    let count = numbers.len() as int;
    assert(numbers.contains(number));
    let at = choose|i: int| 0 <= i < numbers.len() && numbers[i] == number;
    lemma_acks_take_away(run, numbers, ack.ranges, count, at);
    lemma_losses_put_back(
        ack_run(run, numbers, ack.ranges, count),
        numbers,
        ack.ranges,
        before.config.fast_loss_threshold,
        before.config.max_retransmissions,
        count,
        number,
    );
}

/// What was sent is not forgotten when its acknowledgement is overdue: its frame
/// waits to be sent again, and other packets wait on.
pub proof fn law_overdue_frames_are_kept<W: Wire>(
    wire: &W,
    before: ConnectionView,
    event: TimerEvent,
    after: ConnectionView,
    number: u64,
)
    requires
        event is Retransmit,
        timer_done(wire, before, event, after, Ok(())),
        before.transport.sent.contains_key(number),
        before.transport.sent[number].packet_number.value == number,
    ensures
        still_owed(after, before.transport.sent[number]),
{
    let packet = before.transport.sent[number];
    let overdue = event->packet_number.value;
    if overdue == number && packet.generation == event->generation {
        let left = AckRun {
            sent: before.transport.sent.remove(number),
            timers: Map::empty(),
            slots: Map::empty(),
            congestion: before.transport.congestion.after_loss(packet.encoded_len),
            ..run_of(before)
        };
        let again = QueuedView {
            frame: packet.frame.frame,
            retransmit_count: lesser(
                packet.retransmit_count + 1,
                u32::MAX as int,
            ) as u32,
        };
        lemma_waits_on(
            left,
            put_back(left, again),
            again,
            packet.frame.frame,
        );
    }
}

} // verus!
