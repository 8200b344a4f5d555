//! Sending, packet by packet: what leaves next, and what changes with it.

use vstd::prelude::*;

use crate::duration::Duration;
use crate::reliable_core::config::ConnectionConfig;
use crate::reliable_core::congestion::{greater, lesser};
use crate::reliable_core::error::CoreError;
use crate::reliable_core::event::OutputView;
use crate::reliable_core::flow_control::SendFlowControl;
use crate::reliable_core::layout::{elicits, measures};
use crate::reliable_core::recovery::SentView;
use crate::reliable_core::send::{PendingView, QueuedView};
use crate::reliable_core::streams::{first_sendable, piece_frame, popped, sendable, StreamView};
use crate::reliable_core::timer::TimerEvent;
use crate::reliable_core::timers::{timer_refused, with_timer, without, TimersView};
use crate::reliable_core::transport::{
    accounted, candidate_type, frame_of, is_handshake_frame, put_back, stream_blocked, AckRun,
    CandidateView, FlushIdentity, TransportView,
};
use crate::wire::{
    AckView, FrameView, PacketFlags, PacketNumber, PacketType, PacketView, ProtocolError, Wire,
};

verus! {

/// What sending works on.
#[verifier::ext_equal]
pub struct SendingView {
    pub transport: TransportView,
    pub timers: TimersView,
    pub streams: Map<u64, StreamView>,
    pub send: SendFlowControl,
    pub output: Seq<OutputView>,
}

/// What the layout answers of a packet: whether it asks for an acknowledgement,
/// and its length.
pub struct LayoutAnswer {
    pub ack_eliciting: bool,
    pub encoded: Result<usize, ProtocolError>,
}

/// What is sent next: an acknowledgement that is ready, else the frame that
/// waits longest, else a piece of the first stream that may send one. It leaves
/// the queue it waits in.
pub open spec fn candidate_taken(
    before: SendingView,
    now: Duration,
    ack_delay: Duration,
    candidate: Option<CandidateView>,
    after: SendingView,
) -> bool {
    let transport = before.transport;
    if transport.ack_pending && transport.ack_ready {
        &&& after == before
        &&& match candidate {
            None => transport.held.len() == 0,
            Some(CandidateView::Ack(ack)) => transport.held.len() > 0 && ack == (AckView {
                largest: transport.held[0].end.value,
                ack_delay: match transport.largest_at {
                    None => 0,
                    Some(at) => lesser(greater(now@ - at@, 0), ack_delay@ as int) as nat,
                },
                ranges: transport.held,
            }),
            Some(CandidateView::Frame(_)) => false,
        }
    } else if transport.pending.len() > 0 {
        &&& candidate == Some(CandidateView::Frame(transport.pending[0]))
        &&& after == (SendingView {
            transport: TransportView {
                pending: transport.pending.subrange(1, transport.pending.len() as int),
                ..transport
            },
            ..before
        })
    } else {
        match candidate {
            None => after == before && forall|id: u64| #[trigger]
                before.streams.contains_key(id) ==> sendable(before.streams[id]) is None,
            Some(CandidateView::Ack(_)) => false,
            Some(CandidateView::Frame(queued)) => exists|id: u64| #[trigger]
                first_sendable(before.streams, id) && queued == piece_frame(
                    id,
                    sendable(before.streams[id])->0,
                ) && after == (SendingView {
                    streams: before.streams.insert(id, popped(before.streams[id])),
                    ..before
                }),
        }
    }
}

/// The packet of a candidate. It holds one frame.
pub open spec fn packet_of(
    before: SendingView,
    candidate: CandidateView,
    identity: FlushIdentity,
    ack_eliciting: bool,
) -> PacketView {
    PacketView {
        packet_type: candidate_type(candidate, identity.state),
        flags: PacketFlags { ack_eliciting, encrypted: false },
        connection_id: identity.connection_id,
        packet_number: PacketNumber { value: before.transport.next_packet_number },
        frames: seq![frame_of(candidate)],
    }
}

/// Length of the datagram of a packet, with what encryption adds.
pub open spec fn datagram_length(
    packet_type: PacketType,
    plain: usize,
    identity: FlushIdentity,
    config: ConnectionConfig,
) -> int {
    if identity.encrypt_data && (packet_type == PacketType::Data || packet_type
        == PacketType::Close) {
        plain + config.limits.seal_len
    } else {
        plain as int
    }
}

/// The frame goes back to the front of the queue it came from, and sending
/// stops.
pub open spec fn returned(
    before: SendingView,
    queued: QueuedView,
    after: SendingView,
    result: Result<bool, CoreError>,
) -> bool {
    let run = put_back(
        AckRun {
            sent: before.transport.sent,
            timers: before.timers.timers,
            slots: before.timers.slots,
            congestion: before.transport.congestion,
            pending: before.transport.pending,
            streams: before.streams,
            failed: None,
        },
        queued,
    );
    &&& after == (SendingView {
        transport: TransportView { pending: run.pending, ..before.transport },
        streams: run.streams,
        ..before
    })
    &&& match result {
        Ok(more) => !more && run.failed is None,
        Err(error) => run.failed == Some(error),
    }
}

/// The packet left. One that asks for an acknowledgement is kept, with a timer,
/// until that comes; the handshake repeats its frames itself.
pub open spec fn departed(
    before: SendingView,
    candidate: CandidateView,
    packet: PacketView,
    length: usize,
    now: Duration,
    after: SendingView,
    result: Result<bool, CoreError>,
) -> bool {
    let transport = TransportView {
        next_packet_number: (before.transport.next_packet_number + 1) as u64,
        ..before.transport
    };
    let sent = SendingView {
        send: accounted(candidate, before.send),
        output: before.output.push(OutputView::Send(packet)),
        ..before
    };
    match candidate {
        CandidateView::Ack(_) => {
            &&& result == Ok::<bool, CoreError>(true)
            &&& after == (SendingView {
                transport: TransportView { ack_pending: false, ack_ready: false, ..transport },
                timers: TimersView {
                    ack: None,
                    ..without(before.timers, before.timers.ack)
                },
                ..sent
            })
        },
        CandidateView::Frame(queued) => if !packet.flags.ack_eliciting || is_handshake_frame(
            queued.frame,
        ) {
            &&& result == Ok::<bool, CoreError>(true)
            &&& after == (SendingView { transport, ..sent })
        } else {
            let generation = if before.transport.generation == u32::MAX {
                0u32
            } else {
                (before.transport.generation + 1) as u32
            };
            let number = packet.packet_number;
            let rto = before.transport.rtt.rto;
            match result {
                Ok(more) => {
                    let id = after.transport.sent[number.value].timer_id;
                    &&& more
                    &&& timer_refused(before.timers, rto) is None
                    &&& !before.timers.timers.contains_key(id.value())
                    &&& after == (SendingView {
                        transport: TransportView {
                            generation,
                            congestion: before.transport.congestion.after_send(length),
                            sent: before.transport.sent.insert(
                                number.value,
                                SentView {
                                    packet_number: number,
                                    sent_at: now,
                                    encoded_len: length,
                                    frame: queued,
                                    retransmit_count: queued.retransmit_count,
                                    timer_id: id,
                                    generation,
                                },
                            ),
                            ..transport
                        },
                        timers: with_timer(
                            before.timers,
                            TimerEvent::Retransmit { packet_number: number, generation },
                            rto,
                            id,
                        ),
                        ..sent
                    })
                },
                Err(error) => {
                    &&& timer_refused(before.timers, rto) == Some(error)
                    &&& after == (SendingView {
                        transport: TransportView { generation, ..transport },
                        ..sent
                    })
                },
            }
        },
    }
}

/// What becomes of a candidate once the length of its packet is known. `false`
/// says that nothing more can be sent now.
pub open spec fn packet_committed(
    before: SendingView,
    candidate: CandidateView,
    packet: PacketView,
    encoded: Result<usize, ProtocolError>,
    identity: FlushIdentity,
    config: ConnectionConfig,
    after: SendingView,
    result: Result<bool, CoreError>,
) -> bool {
    match encoded {
        Err(problem) => after == before && result == Err::<bool, CoreError>(
            CoreError::Protocol(problem),
        ),
        Ok(plain) => {
            let length = datagram_length(packet.packet_type, plain, identity, config);
            if length > usize::MAX {
                after == before && result == Err::<bool, CoreError>(
                    (CoreError::InvalidState { operation: "calculate encrypted packet length" }),
                )
            } else if length > config.max_datagram_size {
                after == before && result == Err::<bool, CoreError>(
                    CoreError::Protocol(
                        (ProtocolError::DatagramTooLarge {
                            maximum: config.max_datagram_size,
                            actual: length as usize,
                        }),
                    ),
                )
            } else if packet.flags.ack_eliciting && !before.transport.congestion.has_room(
                length as usize,
            ) {
                match candidate {
                    CandidateView::Ack(_) => after == before && result == Ok::<bool, CoreError>(
                        false,
                    ),
                    CandidateView::Frame(queued) => returned(before, queued, after, result),
                }
            } else if before.transport.next_packet_number == u64::MAX {
                after == before && result == Err::<bool, CoreError>(
                    (CoreError::InvalidState { operation: "allocate packet number" }),
                )
            } else if stream_blocked(candidate, before.send) {
                returned(before, candidate->Frame_0, after, result)
            } else {
                departed(before, candidate, packet, length as usize, identity.now, after, result)
            }
        },
    }
}

/// What becomes of a candidate, given what the layout answers of its packet.
pub open spec fn candidate_sent<W: Wire>(
    wire: &W,
    before: SendingView,
    candidate: CandidateView,
    answer: LayoutAnswer,
    identity: FlushIdentity,
    config: ConnectionConfig,
    after: SendingView,
    result: Result<bool, CoreError>,
) -> bool {
    let packet = packet_of(before, candidate, identity, answer.ack_eliciting);
    &&& elicits(wire, frame_of(candidate), answer.ack_eliciting)
    &&& measures(wire, packet, config.max_datagram_size, answer.encoded)
    &&& packet_committed(
        before,
        candidate,
        packet,
        answer.encoded,
        identity,
        config,
        after,
        result,
    )
}

/// One packet is sent, or nothing more can be.
pub open spec fn sending_step<W: Wire>(
    wire: &W,
    before: SendingView,
    answer: LayoutAnswer,
    identity: FlushIdentity,
    config: ConnectionConfig,
    after: SendingView,
    result: Result<bool, CoreError>,
) -> bool {
    exists|candidate: Option<CandidateView>, taken: SendingView| #[trigger]
        candidate_taken(before, identity.now, config.ack_delay, candidate, taken)
            && match candidate {
            None => after == taken && result == Ok::<bool, CoreError>(false),
            Some(candidate) => candidate_sent(
                wire,
                taken,
                candidate,
                answer,
                identity,
                config,
                after,
                result,
            ),
        }
}

/// One packet after the other is sent.
pub open spec fn sending_run<W: Wire>(
    wire: &W,
    states: Seq<SendingView>,
    answers: Seq<LayoutAnswer>,
    identity: FlushIdentity,
    config: ConnectionConfig,
) -> bool {
    &&& states.len() == answers.len() + 1
    &&& forall|i: int|
        0 <= i < answers.len() ==> sending_step(
            wire,
            states[i],
            #[trigger] answers[i],
            identity,
            config,
            states[i + 1],
            Ok(true),
        )
}

/// Packets are sent until nothing more can be, or until an error comes up.
pub open spec fn sending_done<W: Wire>(
    wire: &W,
    before: SendingView,
    identity: FlushIdentity,
    config: ConnectionConfig,
    after: SendingView,
    result: Result<(), CoreError>,
) -> bool {
    exists|states: Seq<SendingView>, answers: Seq<LayoutAnswer>| #[trigger]
        sending_run(wire, states, answers, identity, config) && states[0] == before && sending_ends(
            wire,
            states.last(),
            identity,
            config,
            after,
            result,
        )
}

/// The last step: nothing more can be sent, or an error comes up.
pub open spec fn sending_ends<W: Wire>(
    wire: &W,
    before: SendingView,
    identity: FlushIdentity,
    config: ConnectionConfig,
    after: SendingView,
    result: Result<(), CoreError>,
) -> bool {
    exists|answer: LayoutAnswer, outcome: Result<bool, CoreError>| #[trigger]
        sending_step(wire, before, answer, identity, config, after, outcome) && match outcome {
            Ok(more) => !more && result == Ok::<(), CoreError>(()),
            Err(error) => result == Err::<(), CoreError>(error),
        }
}

/// A run with one packet more is a run.
pub proof fn lemma_run_goes_on<W: Wire>(
    wire: &W,
    states: Seq<SendingView>,
    answers: Seq<LayoutAnswer>,
    identity: FlushIdentity,
    config: ConnectionConfig,
    answer: LayoutAnswer,
    next: SendingView,
)
    requires
        sending_run(wire, states, answers, identity, config),
        sending_step(wire, states.last(), answer, identity, config, next, Ok(true)),
    ensures
        sending_run(wire, states.push(next), answers.push(answer), identity, config),
{
    let longer = states.push(next);
    assert forall|i: int| 0 <= i < answers.push(answer).len() implies sending_step(
        wire,
        longer[i],
        #[trigger] answers.push(answer)[i],
        identity,
        config,
        longer[i + 1],
        Ok(true),
    ) by {
        if i < answers.len() {
            assert(answers.push(answer)[i] == answers[i]);
        }
    }
}

/// Whether a packet with this frame is among what was announced from `start` on.
pub open spec fn carried(output: Seq<OutputView>, start: int, frame: FrameView) -> bool {
    exists|i: int|
        start <= i < output.len() && (#[trigger] output[i] matches OutputView::Send(packet)
            && packet.frames == seq![frame])
}

/// Nothing that was announced is taken back.
pub open spec fn announces_more(before: Seq<OutputView>, after: Seq<OutputView>) -> bool {
    &&& before.len() <= after.len()
    &&& forall|i: int| 0 <= i < before.len() ==> #[trigger] after[i] == before[i]
}

/// A step keeps a queued frame or sends it.
proof fn lemma_step_keeps_frames<W: Wire>(
    wire: &W,
    before: SendingView,
    answer: LayoutAnswer,
    identity: FlushIdentity,
    config: ConnectionConfig,
    after: SendingView,
    result: Result<bool, CoreError>,
    queued: QueuedView,
)
    requires
        sending_step(wire, before, answer, identity, config, after, result),
        result is Ok,
        before.transport.pending.contains(queued),
        !(queued.frame is StreamData),
    ensures
        announces_more(before.output, after.output),
        after.transport.pending.contains(queued) || carried(
            after.output,
            before.output.len() as int,
            queued.frame,
        ),
{
    let pending = before.transport.pending;
    let place = choose|i: int| 0 <= i < pending.len() && pending[i] == queued;
    let (candidate, taken) = choose|candidate: Option<CandidateView>, taken: SendingView|
        #[trigger]
        candidate_taken(before, identity.now, config.ack_delay, candidate, taken)
            && match candidate {
            None => after == taken && result == Ok::<bool, CoreError>(false),
            Some(candidate) => candidate_sent(
                wire,
                taken,
                candidate,
                answer,
                identity,
                config,
                after,
                result,
            ),
        };
    if before.transport.ack_pending && before.transport.ack_ready {
        assert(after.transport.pending == pending);
    } else {
        let rest = pending.subrange(1, pending.len() as int);
        assert(taken.transport.pending == rest);
        if place > 0 {
            assert(rest[place - 1] == queued);
            if after.transport.pending != rest {
                assert(after.transport.pending == seq![pending[0]] + rest);
                assert(after.transport.pending[place] == queued);
            }
        } else if after.output == before.output {
            assert(after.transport.pending == seq![queued] + rest);
            assert(after.transport.pending[0] == queued);
        } else {
            assert(after.output[before.output.len() as int] is Send);
        }
    }
}

/// Sending loses no frame: once it stops without an error, each frame that
/// waited either is in a packet that was sent, or still waits. Pieces of streams
/// wait in their streams.
pub proof fn law_queued_frames_are_sent_or_kept<W: Wire>(
    wire: &W,
    before: SendingView,
    identity: FlushIdentity,
    config: ConnectionConfig,
    after: SendingView,
    queued: QueuedView,
)
    requires
        sending_done(wire, before, identity, config, after, Ok(())),
        before.transport.pending.contains(queued),
        !(queued.frame is StreamData),
    ensures
        after.transport.pending.contains(queued) || carried(
            after.output,
            before.output.len() as int,
            queued.frame,
        ),
{
    let (states, answers) = choose|states: Seq<SendingView>, answers: Seq<LayoutAnswer>| #[trigger]
        sending_run(wire, states, answers, identity, config) && states[0] == before && sending_ends(
            wire,
            states.last(),
            identity,
            config,
            after,
            Ok(()),
        );
    let last = answers.len() as int;
    lemma_run_keeps_frames(wire, states, answers, identity, config, queued, last);
    let (answer, outcome) = choose|answer: LayoutAnswer, outcome: Result<bool, CoreError>|
        #[trigger]
        sending_step(wire, states.last(), answer, identity, config, after, outcome) && match outcome {
            Ok(more) => !more,
            Err(_) => false,
        };
    if states[last].transport.pending.contains(queued) {
        lemma_step_keeps_frames(
            wire,
            states[last],
            answer,
            identity,
            config,
            after,
            outcome,
            queued,
        );
        lemma_carried_stays(
            states[last].output,
            after.output,
            before.output.len() as int,
            queued.frame,
        );
    } else {
        lemma_step_announces(wire, states[last], answer, identity, config, after, outcome);
        lemma_carried_stays(
            states[last].output,
            after.output,
            before.output.len() as int,
            queued.frame,
        );
    }
}

/// What was sent stays sent, and may have been sent later.
proof fn lemma_carried_stays(
    before: Seq<OutputView>,
    after: Seq<OutputView>,
    start: int,
    frame: FrameView,
)
    requires
        announces_more(before, after),
        0 <= start <= before.len(),
    ensures
        carried(before, start, frame) ==> carried(after, start, frame),
        carried(after, before.len() as int, frame) ==> carried(after, start, frame),
{
    if carried(before, start, frame) {
        let i = choose|i: int|
            start <= i < before.len() && (#[trigger] before[i] matches OutputView::Send(packet)
                && packet.frames == seq![frame]);
        assert(after[i] == before[i]);
    }
    if carried(after, before.len() as int, frame) {
        let i = choose|i: int|
            before.len() <= i < after.len() && (#[trigger] after[i] matches OutputView::Send(packet)
                && packet.frames == seq![frame]);
        assert(after[i] is Send);
    }
}

/// A step takes back nothing that was announced.
proof fn lemma_step_announces<W: Wire>(
    wire: &W,
    before: SendingView,
    answer: LayoutAnswer,
    identity: FlushIdentity,
    config: ConnectionConfig,
    after: SendingView,
    result: Result<bool, CoreError>,
)
    requires
        sending_step(wire, before, answer, identity, config, after, result),
    ensures
        announces_more(before.output, after.output),
{
}

/// The first steps of a run keep a queued frame or send it.
proof fn lemma_run_keeps_frames<W: Wire>(
    wire: &W,
    states: Seq<SendingView>,
    answers: Seq<LayoutAnswer>,
    identity: FlushIdentity,
    config: ConnectionConfig,
    queued: QueuedView,
    count: int,
)
    requires
        sending_run(wire, states, answers, identity, config),
        states[0].transport.pending.contains(queued),
        !(queued.frame is StreamData),
        0 <= count <= answers.len(),
    ensures
        announces_more(states[0].output, states[count].output),
        states[count].transport.pending.contains(queued) || carried(
            states[count].output,
            states[0].output.len() as int,
            queued.frame,
        ),
    decreases count,
{
    if count > 0 {
        lemma_run_keeps_frames(wire, states, answers, identity, config, queued, count - 1);
        let before = states[count - 1];
        let after = states[count];
        let answer = answers[count - 1];
        assert(sending_step(wire, before, answer, identity, config, after, Ok(true)));
        lemma_step_announces(wire, before, answer, identity, config, after, Ok(true));
        if before.transport.pending.contains(queued) {
            lemma_step_keeps_frames(
                wire,
                before,
                answer,
                identity,
                config,
                after,
                Ok(true),
                queued,
            );
        }
        lemma_carried_stays(
            before.output,
            after.output,
            states[0].output.len() as int,
            queued.frame,
        );
    }
}

/// Whether a piece waits in the queue of a stream.
pub open spec fn piece_queued(view: SendingView, id: u64, piece: PendingView) -> bool {
    view.streams.contains_key(id) && view.streams[id].send.queue.contains(piece)
}

/// A step keeps a piece or sends it.
proof fn lemma_step_keeps_pieces<W: Wire>(
    wire: &W,
    before: SendingView,
    answer: LayoutAnswer,
    identity: FlushIdentity,
    config: ConnectionConfig,
    after: SendingView,
    result: Result<bool, CoreError>,
    id: u64,
    piece: PendingView,
)
    requires
        sending_step(wire, before, answer, identity, config, after, result),
        result is Ok,
        piece_queued(before, id, piece),
    ensures
        piece_queued(after, id, piece) || carried(
            after.output,
            before.output.len() as int,
            piece_frame(id, piece).frame,
        ),
{
    let queue = before.streams[id].send.queue;
    let place = choose|i: int| 0 <= i < queue.len() && queue[i] == piece;
    let (candidate, taken) = choose|candidate: Option<CandidateView>, taken: SendingView|
        #[trigger]
        candidate_taken(before, identity.now, config.ack_delay, candidate, taken)
            && match candidate {
            None => after == taken && result == Ok::<bool, CoreError>(false),
            Some(candidate) => candidate_sent(
                wire,
                taken,
                candidate,
                answer,
                identity,
                config,
                after,
                result,
            ),
        };
    let left = taken.streams[id].send.queue;
    let now = after.streams[id].send.queue;
    if left == queue {
        if now != left {
            assert(now.subrange(1, now.len() as int) =~= left);
            assert(now[place + 1] == piece);
        } else {
            assert(now[place] == piece);
        }
    } else {
        assert(left == queue.subrange(1, queue.len() as int));
        if now == left {
            if place > 0 {
                assert(now[place - 1] == piece);
            } else {
                assert(after.output[before.output.len() as int] is Send);
            }
        } else {
            assert(now =~= queue);
            assert(now[place] == piece);
        }
    }
}

/// The first steps of a run keep a piece or send it.
proof fn lemma_run_keeps_pieces<W: Wire>(
    wire: &W,
    states: Seq<SendingView>,
    answers: Seq<LayoutAnswer>,
    identity: FlushIdentity,
    config: ConnectionConfig,
    id: u64,
    piece: PendingView,
    count: int,
)
    requires
        sending_run(wire, states, answers, identity, config),
        piece_queued(states[0], id, piece),
        0 <= count <= answers.len(),
    ensures
        announces_more(states[0].output, states[count].output),
        piece_queued(states[count], id, piece) || carried(
            states[count].output,
            states[0].output.len() as int,
            piece_frame(id, piece).frame,
        ),
    decreases count,
{
    if count > 0 {
        lemma_run_keeps_pieces(wire, states, answers, identity, config, id, piece, count - 1);
        let before = states[count - 1];
        let after = states[count];
        let answer = answers[count - 1];
        assert(sending_step(wire, before, answer, identity, config, after, Ok(true)));
        lemma_step_announces(wire, before, answer, identity, config, after, Ok(true));
        if piece_queued(before, id, piece) {
            lemma_step_keeps_pieces(
                wire,
                before,
                answer,
                identity,
                config,
                after,
                Ok(true),
                id,
                piece,
            );
        }
        lemma_carried_stays(
            before.output,
            after.output,
            states[0].output.len() as int,
            piece_frame(id, piece).frame,
        );
    }
}

/// Sending loses no byte: once it stops without an error, each piece of a stream
/// that waited either is in a packet that was sent, or still waits.
pub proof fn law_pieces_are_sent_or_kept<W: Wire>(
    wire: &W,
    before: SendingView,
    identity: FlushIdentity,
    config: ConnectionConfig,
    after: SendingView,
    id: u64,
    piece: PendingView,
)
    requires
        sending_done(wire, before, identity, config, after, Ok(())),
        piece_queued(before, id, piece),
    ensures
        piece_queued(after, id, piece) || carried(
            after.output,
            before.output.len() as int,
            piece_frame(id, piece).frame,
        ),
{
    let (states, answers) = choose|states: Seq<SendingView>, answers: Seq<LayoutAnswer>| #[trigger]
        sending_run(wire, states, answers, identity, config) && states[0] == before && sending_ends(
            wire,
            states.last(),
            identity,
            config,
            after,
            Ok(()),
        );
    let last = answers.len() as int;
    lemma_run_keeps_pieces(wire, states, answers, identity, config, id, piece, last);
    let (answer, outcome) = choose|answer: LayoutAnswer, outcome: Result<bool, CoreError>|
        #[trigger]
        sending_step(wire, states.last(), answer, identity, config, after, outcome) && match outcome {
            Ok(more) => !more,
            Err(_) => false,
        };
    lemma_step_announces(wire, states[last], answer, identity, config, after, outcome);
    if piece_queued(states[last], id, piece) {
        lemma_step_keeps_pieces(
            wire,
            states[last],
            answer,
            identity,
            config,
            after,
            outcome,
            id,
            piece,
        );
    }
    lemma_carried_stays(
        states[last].output,
        after.output,
        before.output.len() as int,
        piece_frame(id, piece).frame,
    );
}

} // verus!
