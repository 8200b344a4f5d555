//! What goes into a connection and what comes out of it.

use vstd::prelude::*;

use crate::duration::Duration;
use crate::wire::{Packet, PacketView, StreamId};

verus! {

/// State of a connection.
#[derive(Debug, Clone, Copy, PartialEq, Eq, Structural)]
pub enum ConnectionState {
    Idle,
    Handshaking,
    Established,
    Closing,
    Closed,
}

/// Something that happens to a connection.
#[derive(Debug, Clone, PartialEq, Eq)]
pub enum CoreEvent {
    Datagram(Packet),
    TimePassed(Duration),
}

/// Something that a connection wants done or known.
#[allow(inconsistent_fields)]
#[derive(Debug, Clone, PartialEq, Eq)]
pub enum CoreOutput {
    Send(Packet),
    StreamOpened(StreamId),
    StreamReadable(StreamId),
    StreamFinished(StreamId),
    StreamReset { stream_id: StreamId, error_code: u32 },
    ConnectionStateChanged(ConnectionState),
    ConnectionClosed { error_code: u32 },
}

/// A [`CoreOutput`], as contracts see it.
#[allow(inconsistent_fields)]
pub enum OutputView {
    Send(PacketView),
    StreamOpened(StreamId),
    StreamReadable(StreamId),
    StreamFinished(StreamId),
    StreamReset { stream_id: StreamId, error_code: u32 },
    ConnectionStateChanged(ConnectionState),
    ConnectionClosed { error_code: u32 },
}

impl View for CoreOutput {
    type V = OutputView;

    open spec fn view(&self) -> OutputView {
        match self {
            CoreOutput::Send(packet) => OutputView::Send(packet@),
            CoreOutput::StreamOpened(stream_id) => OutputView::StreamOpened(*stream_id),
            CoreOutput::StreamReadable(stream_id) => OutputView::StreamReadable(*stream_id),
            CoreOutput::StreamFinished(stream_id) => OutputView::StreamFinished(*stream_id),
            CoreOutput::StreamReset { stream_id, error_code } => OutputView::StreamReset {
                stream_id: *stream_id,
                error_code: *error_code,
            },
            CoreOutput::ConnectionStateChanged(state) => OutputView::ConnectionStateChanged(*state),
            CoreOutput::ConnectionClosed { error_code } => OutputView::ConnectionClosed {
                error_code: *error_code,
            },
        }
    }
}

/// Outputs, as contracts see them.
pub open spec fn output_views(outputs: Seq<CoreOutput>) -> Seq<OutputView> {
    Seq::new(outputs.len(), |i: int| outputs[i]@)
}

/// One output more.
pub proof fn lemma_output_pushed(outputs: Seq<CoreOutput>, output: CoreOutput)
    ensures
        output_views(outputs.push(output)) == output_views(outputs).push(output@),
{
    assert(output_views(outputs.push(output)) =~= output_views(outputs).push(output@));
}

} // verus!
