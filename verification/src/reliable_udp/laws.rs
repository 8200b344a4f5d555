//! What holds of the connections of an endpoint as a whole.

use vstd::prelude::*;

use crate::reliable_core::event::{ConnectionState, OutputView};
use crate::reliable_core::transition::{read_done, write_done};
use crate::reliable_core::CoreError;
use crate::reliable_udp::action::{settled_since, settles};
use crate::reliable_udp::error::{EndpointError, StreamError};
use crate::reliable_udp::runtime::{
    accepts_closed, all_closed, connect_closed, established, flushes_answered, flushes_served,
    output_done, output_follows, outputs_done, outputs_processed, read_asked, read_replied,
    read_served, reads_closed, retired, rising_keys, round_done, rounds_done, settled,
    stream_failed, stream_offered, waits, waits_to_read, waits_to_write, write_asked, write_replied,
    write_served, writes_closed, writes_served, PendingRead, RuntimeView, WriteView,
};
use crate::wire::{StreamId, Wire};

verus! {

/// Each request that waited, and the one that came, waits or has been settled.
pub open spec fn none_forgotten<W: Wire>(
    before: RuntimeView<W>,
    came: Option<u64>,
    after: RuntimeView<W>,
) -> bool {
    &&& after.actions.len() >= before.actions.len()
    &&& after.actions.subrange(0, before.actions.len() as int) == before.actions
    &&& forall|request: u64| #[trigger]
        waits(before, request) || came == Some(request) ==> waits(after, request) || settled_since(
            after.actions,
            before.actions.len() as int,
            request,
        )
}

/// No request is forgotten over two steps either.
proof fn lemma_none_forgotten_on<W: Wire>(
    first: RuntimeView<W>,
    came: Option<u64>,
    before: RuntimeView<W>,
    after: RuntimeView<W>,
)
    requires
        none_forgotten(first, came, before),
        none_forgotten(before, None, after),
    ensures
        none_forgotten(first, came, after),
{
    let length = first.actions.len() as int;
    let middle = before.actions.len() as int;
    assert forall|i: int| 0 <= i < middle implies after.actions[i] == before.actions[i] by {
        assert(after.actions.subrange(0, middle)[i] == after.actions[i]);
    }
    assert(after.actions.subrange(0, length) =~= first.actions) by {
        assert forall|i: int| 0 <= i < length implies after.actions[i] == first.actions[i] by {
            assert(before.actions.subrange(0, length)[i] == before.actions[i]);
        }
    }
    assert forall|request: u64| #[trigger] waits(first, request) || came == Some(
        request,
    ) implies waits(after, request) || settled_since(after.actions, length, request) by {
        assert(waits(before, request) || settled_since(before.actions, length, request));
        if waits(before, request) {
            assert(waits(after, request) || settled_since(after.actions, middle, request));
            if !waits(after, request) {
                let i = choose|i: int|
                    middle <= i < after.actions.len() && settles(
                        #[trigger] after.actions[i],
                        request,
                    );
                assert(settles(after.actions[i], request));
            }
        } else {
            let i = choose|i: int|
                length <= i < before.actions.len() && settles(#[trigger] before.actions[i], request);
            assert(settles(before.actions[i], request));
            assert(after.actions[i] == before.actions[i]);
            assert(settles(after.actions[i], request));
        }
    }
}

/// Nobody who waits is lost as long as the requests are the same.
proof fn lemma_same_requests<W: Wire>(before: RuntimeView<W>, after: RuntimeView<W>)
    requires
        after.connect_waiter == before.connect_waiter,
        after.accepts == before.accepts,
        after.reads == before.reads,
        after.writes == before.writes,
        after.flushes == before.flushes,
        after.actions.len() >= before.actions.len(),
        after.actions.subrange(0, before.actions.len() as int) == before.actions,
    ensures
        none_forgotten(before, None, after),
{
    assert forall|request: u64| #[trigger] waits(before, request) implies waits(after, request) by {
    }
}

/// A read is answered or waits, and whoever it takes the place of is let go.
pub proof fn law_read_is_not_forgotten<W: Wire>(
    before: RuntimeView<W>,
    stream_id: StreamId,
    wait: PendingRead,
    after: RuntimeView<W>,
)
    requires
        read_asked(before, stream_id, wait, after),
    ensures
        none_forgotten(before, Some(wait.request), after),
{
    let outcome = choose|outcome: Result<(Seq<u8>, bool), CoreError>| #[trigger]
        read_done(&before.wire, before.core, stream_id, wait.max_len, after.core, outcome) && after
            == read_replied(RuntimeView { core: after.core, ..before }, stream_id, wait, outcome);
    let key = stream_id.value;
    let length = before.actions.len() as int;
    assert(after.actions.subrange(0, length) =~= before.actions);
    assert forall|request: u64| #[trigger] waits(before, request) || Some(wait.request) == Some(
        request,
    ) implies waits(after, request) || settled_since(after.actions, length, request) by {
        if after.actions.len() > length {
            let last = after.actions[length];
            if settles(last, request) {
                assert(settled_since(after.actions, length, request));
            }
        }
        if after.reads.contains_key(key) && after.reads[key].request == request {
            assert(waits(after, request));
        }
        if waits_to_read(before.reads, request) {
            let other = choose|other: u64| #[trigger]
                before.reads.contains_key(other) && before.reads[other].request == request;
            if other != key || after.reads == before.reads {
                assert(after.reads.contains_key(other));
            } else {
                assert(settles(after.actions[length], request));
            }
        }
    }
}

/// A write is answered or waits, and whoever it takes the place of is let go.
pub proof fn law_write_is_not_forgotten<W: Wire>(
    before: RuntimeView<W>,
    stream_id: StreamId,
    wait: WriteView,
    after: RuntimeView<W>,
)
    requires
        write_asked(before, stream_id, wait, after),
    ensures
        none_forgotten(before, Some(wait.request), after),
{
    let outcome = choose|outcome: Result<usize, CoreError>| #[trigger]
        write_done(&before.wire, before.core, stream_id, wait.data, wait.fin, after.core, outcome) && after
            == write_replied(RuntimeView { core: after.core, ..before }, stream_id, wait, outcome);
    let key = stream_id.value;
    let length = before.actions.len() as int;
    assert(after.actions.subrange(0, length) =~= before.actions);
    assert forall|request: u64| #[trigger] waits(before, request) || Some(wait.request) == Some(
        request,
    ) implies waits(after, request) || settled_since(after.actions, length, request) by {
        if after.actions.len() > length {
            let last = after.actions[length];
            if settles(last, request) {
                assert(settled_since(after.actions, length, request));
            }
        }
        if after.writes.contains_key(key) && after.writes[key].request == request {
            assert(waits(after, request));
        }
        if waits_to_write(before.writes, request) {
            let other = choose|other: u64| #[trigger]
                before.writes.contains_key(other) && before.writes[other].request == request;
            if other != key || after.writes == before.writes {
                assert(after.writes.contains_key(other));
            } else {
                assert(settles(after.actions[length], request));
            }
        }
    }
}

proof fn lemma_read_served<W: Wire>(
    before: RuntimeView<W>,
    stream_id: StreamId,
    after: RuntimeView<W>,
)
    requires
        read_served(before, stream_id, after),
    ensures
        none_forgotten(before, None, after),
{
    let key = stream_id.value;
    if before.reads.contains_key(key) {
        let removed = RuntimeView { reads: before.reads.remove(key), ..before };
        law_read_is_not_forgotten(removed, stream_id, before.reads[key], after);
        assert forall|request: u64| #[trigger] waits(before, request) implies waits(
            after,
            request,
        ) || settled_since(after.actions, before.actions.len() as int, request) by {
            if request != before.reads[key].request {
                assert(waits(removed, request)) by {
                    if waits_to_read(before.reads, request) {
                        let other = choose|other: u64| #[trigger]
                            before.reads.contains_key(other) && before.reads[other].request
                                == request;
                        assert(removed.reads.contains_key(other));
                    }
                }
            } else {
                assert(waits(removed, request) || Some(before.reads[key].request) == Some(request));
            }
        }
    } else {
        assert(after.actions.subrange(0, before.actions.len() as int) =~= before.actions);
        lemma_same_requests(before, after);
    }
}

proof fn lemma_write_served<W: Wire>(before: RuntimeView<W>, key: u64, after: RuntimeView<W>)
    requires
        before.writes.contains_key(key),
        write_served(before, key, after),
    ensures
        none_forgotten(before, None, after),
{
    let removed = RuntimeView { writes: before.writes.remove(key), ..before };
    law_write_is_not_forgotten(removed, StreamId { value: key }, before.writes[key], after);
    assert forall|request: u64| #[trigger] waits(before, request) implies waits(after, request)
        || settled_since(after.actions, before.actions.len() as int, request) by {
        if request != before.writes[key].request {
            assert(waits(removed, request)) by {
                if waits_to_write(before.writes, request) {
                    let other = choose|other: u64| #[trigger]
                        before.writes.contains_key(other) && before.writes[other].request
                            == request;
                    assert(removed.writes.contains_key(other));
                }
            }
        } else {
            assert(waits(removed, request) || Some(before.writes[key].request) == Some(request));
        }
    }
}

/// Everybody who waits for a connection that is closed is told so.
pub proof fn law_closing_answers_everybody<W: Wire>(
    before: RuntimeView<W>,
    error_code: u32,
    after: RuntimeView<W>,
)
    requires
        all_closed(before, error_code, after),
    ensures
        none_forgotten(before, None, after),
        forall|request: u64| !#[trigger] waits(after, request),
{
    let (reading, writing) = choose|reading: Seq<u64>, writing: Seq<u64>|
        #![trigger rising_keys(reading, before.reads), rising_keys(writing, before.writes)]
        rising_keys(reading, before.reads) && rising_keys(writing, before.writes) && after == (
        RuntimeView {
            reads: Map::empty(),
            writes: Map::empty(),
            accepts: Seq::empty(),
            connect_waiter: None,
            flushes: Seq::empty(),
            actions: before.actions + reads_closed(before.reads, reading, error_code)
                + writes_closed(before.writes, writing, error_code) + accepts_closed(
                before.accepts,
                error_code,
            ) + connect_closed(before.connect_waiter, error_code) + flushes_answered(
                before.flushes,
                Err(StreamError::ConnectionClosed { error_code }),
            ),
            ..before
        });
    let start = before.actions;
    let one = reads_closed(before.reads, reading, error_code);
    let two = writes_closed(before.writes, writing, error_code);
    let three = accepts_closed(before.accepts, error_code);
    let four = connect_closed(before.connect_waiter, error_code);
    let five = flushes_answered(
        before.flushes,
        Err(StreamError::ConnectionClosed { error_code }),
    );
    let all = after.actions;
    let length = start.len() as int;
    assert(all.subrange(0, length) =~= start);
    assert forall|request: u64| #[trigger] waits(before, request) implies settled_since(
        all,
        length,
        request,
    ) by {
        if before.connect_waiter == Some(request) {
            let i = length + one.len() + two.len() + three.len();
            assert(all[i] == four[0]);
        } else if before.accepts.contains(request) {
            let place = before.accepts.index_of(request);
            let i = length + one.len() + two.len() + place;
            assert(all[i] == three[place]);
        } else if before.flushes.contains(request) {
            let place = before.flushes.index_of(request);
            let i = length + one.len() + two.len() + three.len() + four.len() + place;
            assert(all[i] == five[place]);
        } else if waits_to_read(before.reads, request) {
            let key = choose|key: u64| #[trigger]
                before.reads.contains_key(key) && before.reads[key].request == request;
            assert(reading.contains(key));
            let place = reading.index_of(key);
            assert(all[length + place] == one[place]);
        } else {
            let key = choose|key: u64| #[trigger]
                before.writes.contains_key(key) && before.writes[key].request == request;
            assert(writing.contains(key));
            let place = writing.index_of(key);
            assert(all[length + one.len() + place] == two[place]);
        }
    }
}

proof fn lemma_retired<W: Wire>(before: RuntimeView<W>, error_code: u32, after: RuntimeView<W>)
    requires
        retired(before, error_code, after),
    ensures
        none_forgotten(before, None, after),
        forall|request: u64| !#[trigger] waits(after, request),
{
    let closed = RuntimeView { gone: before.gone, ..after };
    law_closing_answers_everybody(before, error_code, closed);
    assert forall|request: u64| #[trigger] waits(before, request) implies settled_since(
        after.actions,
        before.actions.len() as int,
        request,
    ) by {
        assert(!waits(closed, request));
    }
    assert forall|request: u64| !#[trigger] waits(after, request) by {
        assert(!waits(closed, request));
    }
}

proof fn lemma_output_forgets_none<W: Wire>(
    before: RuntimeView<W>,
    output: OutputView,
    batch: usize,
    slot_free: bool,
    after: RuntimeView<W>,
    result: Result<(), EndpointError>,
)
    requires
        output_done(before, output, batch, slot_free, after, result),
    ensures
        none_forgotten(before, None, after),
{
    let length = before.actions.len() as int;
    assert(before.actions.subrange(0, length) =~= before.actions);
    if before.gone {
        lemma_same_requests(before, after);
    } else {
        match output {
            OutputView::Send(_) => {
                assert(after.actions.subrange(0, length) =~= before.actions);
                lemma_same_requests(before, after);
            },
            OutputView::StreamOpened(stream_id) => {
                lemma_offered(before, stream_id, after);
            },
            OutputView::StreamReadable(stream_id) => {
                lemma_read_served(before, stream_id, after);
            },
            OutputView::StreamFinished(stream_id) => {
                lemma_read_served(before, stream_id, after);
            },
            OutputView::StreamReset { stream_id, error_code } => {
                lemma_stream_failed(before, stream_id.value, error_code, after);
            },
            OutputView::ConnectionStateChanged(state) => {
                if state == ConnectionState::Established {
                    lemma_established(before, slot_free, after);
                } else {
                    lemma_same_requests(before, after);
                }
            },
            OutputView::ConnectionClosed { error_code } => {
                law_closing_answers_everybody(before, error_code, after);
            },
        }
    }
}

proof fn lemma_offered<W: Wire>(before: RuntimeView<W>, stream_id: StreamId, after: RuntimeView<W>)
    requires
        after == stream_offered(before, stream_id),
    ensures
        none_forgotten(before, None, after),
{
    let length = before.actions.len() as int;
    assert(after.actions.subrange(0, length) =~= before.actions);
    assert forall|request: u64| #[trigger] waits(before, request) implies waits(after, request)
        || settled_since(after.actions, length, request) by {
        if before.accepts.contains(request) {
            let place = before.accepts.index_of(request);
            if place == 0 {
                assert(settles(after.actions[length], request));
            } else {
                assert(after.accepts[place - 1] == request);
            }
        }
    }
}

proof fn lemma_stream_failed<W: Wire>(
    before: RuntimeView<W>,
    key: u64,
    error_code: u32,
    after: RuntimeView<W>,
)
    requires
        after == stream_failed(before, key, error_code),
    ensures
        none_forgotten(before, None, after),
{
    let length = before.actions.len() as int;
    assert(after.actions.subrange(0, length) =~= before.actions);
    assert forall|request: u64| #[trigger] waits(before, request) implies waits(after, request)
        || settled_since(after.actions, length, request) by {
        if waits_to_read(before.reads, request) {
            let other = choose|other: u64| #[trigger]
                before.reads.contains_key(other) && before.reads[other].request == request;
            if other == key {
                assert(settles(after.actions[length], request));
            } else {
                assert(after.reads.contains_key(other));
            }
        } else if waits_to_write(before.writes, request) {
            let other = choose|other: u64| #[trigger]
                before.writes.contains_key(other) && before.writes[other].request == request;
            if other == key {
                assert(settles(after.actions[after.actions.len() - 1], request));
            } else {
                assert(after.writes.contains_key(other));
            }
        }
    }
}

proof fn lemma_established<W: Wire>(before: RuntimeView<W>, slot_free: bool, after: RuntimeView<W>)
    requires
        established(before, slot_free, after),
    ensures
        none_forgotten(before, None, after),
{
    let length = before.actions.len() as int;
    if before.is_server && !before.accepted && !slot_free {
        lemma_retired(before, 0, after);
    } else {
        assert(after.actions.subrange(0, length) =~= before.actions);
        assert forall|request: u64| #[trigger] waits(before, request) implies waits(after, request)
            || settled_since(after.actions, length, request) by {
            if before.connect_waiter == Some(request) {
                assert(settles(after.actions[after.actions.len() - 1], request));
            }
        }
    }
}

proof fn lemma_outputs_forget_none<W: Wire>(
    before: RuntimeView<W>,
    outputs: Seq<OutputView>,
    count: int,
    batch: usize,
    slot_free: bool,
    after: RuntimeView<W>,
    result: Result<(), EndpointError>,
)
    requires
        outputs_done(before, outputs, count, batch, slot_free, after, result),
    ensures
        none_forgotten(before, None, after),
    decreases count,
{
    if count <= 0 {
        assert(before.actions.subrange(0, before.actions.len() as int) =~= before.actions);
        lemma_same_requests(before, after);
    } else {
        let (middle, so_far) = choose|middle: RuntimeView<W>, so_far: Result<(), EndpointError>| #[trigger]
            output_follows(
                middle,
                so_far,
                outputs[count - 1],
                batch,
                slot_free,
                after,
                result,
            ) && outputs_done(before, outputs, count - 1, batch, slot_free, middle, so_far);
        lemma_outputs_forget_none(
            before,
            outputs,
            count - 1,
            batch,
            slot_free,
            middle,
            so_far,
        );
        if so_far is Ok {
            lemma_output_forgets_none(
                middle,
                outputs[count - 1],
                batch,
                slot_free,
                after,
                result,
            );
            lemma_none_forgotten_on(before, None, middle, after);
        }
    }
}

proof fn lemma_writes_forget_none<W: Wire>(
    before: RuntimeView<W>,
    keys: Seq<u64>,
    count: int,
    after: RuntimeView<W>,
)
    requires
        rising_keys(keys, before.writes),
        0 <= count <= keys.len(),
        writes_served(before, keys, count, after),
    ensures
        none_forgotten(before, None, after),
        forall|i: int|
            count <= i < keys.len() ==> after.writes.contains_key(#[trigger] keys[i]),
    decreases count,
{
    if count <= 0 {
        assert(before.actions.subrange(0, before.actions.len() as int) =~= before.actions);
        lemma_same_requests(before, after);
        assert forall|i: int| count <= i < keys.len() implies after.writes.contains_key(
            #[trigger] keys[i],
        ) by {
            assert(keys.contains(keys[i]));
        }
    } else {
        let middle = choose|middle: RuntimeView<W>| #[trigger]
            write_served(middle, keys[count - 1], after) && writes_served(
                before,
                keys,
                count - 1,
                middle,
            );
        lemma_writes_forget_none(before, keys, count - 1, middle);
        lemma_write_served(middle, keys[count - 1], after);
        lemma_none_forgotten_on(before, None, middle, after);
        assert forall|i: int| count <= i < keys.len() implies after.writes.contains_key(
            #[trigger] keys[i],
        ) by {
            assert(keys[count - 1] < keys[i]);
            assert(middle.writes.contains_key(keys[i]));
        }
    }
}

proof fn lemma_rounds_forget_none<W: Wire>(
    before: RuntimeView<W>,
    count: nat,
    batch: usize,
    slot_free: bool,
    after: RuntimeView<W>,
    result: Result<(), EndpointError>,
)
    requires
        rounds_done(before, count, batch, slot_free, after, result),
    ensures
        none_forgotten(before, None, after),
    decreases count,
{
    if count == 0 {
        assert(before.actions.subrange(0, before.actions.len() as int) =~= before.actions);
        lemma_same_requests(before, after);
    } else {
        let middle = choose|middle: RuntimeView<W>| #[trigger]
            round_done(middle, batch, slot_free, after, result) && rounds_done(
                before,
                (count - 1) as nat,
                batch,
                slot_free,
                middle,
                Ok(()),
            );
        lemma_rounds_forget_none(before, (count - 1) as nat, batch, slot_free, middle, Ok(()));
        let outputs = middle.core.output;
        if outputs.len() > 0 {
            let drained = RuntimeView {
                core: crate::reliable_core::transition::ConnectionView {
                    output: Seq::empty(),
                    ..middle.core
                },
                ..middle
            };
            assert(drained.actions.subrange(0, middle.actions.len() as int) =~= middle.actions);
            lemma_same_requests(middle, drained);
            lemma_outputs_forget_none(
                drained,
                outputs,
                outputs.len() as int,
                batch,
                slot_free,
                after,
                result,
            );
            lemma_none_forgotten_on(middle, None, drained, after);
        } else {
            let keys = choose|keys: Seq<u64>| #[trigger]
                rising_keys(keys, middle.writes) && writes_served(
                    middle,
                    keys,
                    keys.len() as int,
                    after,
                );
            lemma_writes_forget_none(middle, keys, keys.len() as int, after);
        }
        lemma_none_forgotten_on(before, None, middle, after);
    }
}

/// Whatever a connection puts out, each request that waits for it is answered,
/// let go for another one, or still waits.
pub proof fn law_no_request_is_forgotten<W: Wire>(
    before: RuntimeView<W>,
    batch: usize,
    slot_free: bool,
    after: RuntimeView<W>,
    result: Result<(), EndpointError>,
)
    requires
        outputs_processed(before, batch, slot_free, after, result),
    ensures
        none_forgotten(before, None, after),
{
    let (count, last) = choose|count: nat, last: RuntimeView<W>| #[trigger]
        rounds_done(
            RuntimeView { burst: 0, ..before },
            count,
            batch,
            slot_free,
            last,
            result,
        ) && if result is Ok && !last.gone {
            &&& last.core.output.len() == 0
            &&& crate::reliable_udp::runtime::writes_stuck(last)
            &&& settled(last, after)
        } else {
            after == last
        };
    let reset = RuntimeView { burst: 0, ..before };
    assert(reset.actions.subrange(0, before.actions.len() as int) =~= before.actions);
    lemma_same_requests(before, reset);
    lemma_rounds_forget_none(reset, count, batch, slot_free, last, result);
    lemma_none_forgotten_on(before, None, reset, last);
    if result is Ok && !last.gone {
        let served = flushes_served(last);
        let length = last.actions.len() as int;
        assert(served.actions.subrange(0, length) =~= last.actions);
        assert forall|request: u64| #[trigger] waits(last, request) implies waits(served, request)
            || settled_since(served.actions, length, request) by {
            if last.flushes.contains(request) && served.flushes != last.flushes {
                let place = last.flushes.index_of(request);
                assert(served.actions[length + place] == flushes_answered(
                    last.flushes,
                    Ok(()),
                )[place]);
                assert(settles(served.actions[length + place], request));
            }
        }
        lemma_none_forgotten_on(before, None, last, served);
        if last.core.state == ConnectionState::Closed {
            lemma_retired(served, 0, after);
            lemma_none_forgotten_on(before, None, served, after);
        }
    }
}

} // verus!
