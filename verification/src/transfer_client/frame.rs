//! How data and messages are laid out on a stream.

use vstd::prelude::*;

use crate::bytes::{
    append_bytes, be_bytes, be_value, copy_range, law_be_read_gives_what_was_written,
    lemma_be_limits, push_be, read_be,
};
use crate::transfer_client::error::{ClientError, IoKind};

verus! {

/// The most bytes of data in a frame.
pub const MAX_DATA_FRAME_LEN: usize = 1_048_576;

/// A piece of the data of a file.
#[derive(Debug)]
pub struct DataFrame {
    pub offset: u64,
    pub fin: bool,
    pub data: Vec<u8>,
}

/// What is known of a piece of the data of a file.
#[verifier::ext_equal]
pub struct FrameView {
    pub offset: u64,
    pub fin: bool,
    pub data: Seq<u8>,
}

impl View for DataFrame {
    type V = FrameView;

    open spec fn view(&self) -> FrameView {
        FrameView { offset: self.offset, fin: self.fin, data: self.data@ }
    }
}

/// The byte that says whether a frame is the last.
pub open spec fn fin_byte(fin: bool) -> u8 {
    if fin {
        1
    } else {
        0
    }
}

/// The bytes of a frame.
pub open spec fn frame_bytes(frame: FrameView) -> Seq<u8> {
    be_bytes(frame.offset as nat, 8) + seq![fin_byte(frame.fin)] + be_bytes(frame.data.len(), 4)
        + frame.data
}

/// The error of a frame with too much data.
pub open spec fn frame_too_large() -> ClientError {
    ClientError::Io { kind: IoKind::InvalidData, message: "data frame is too large" }
}

/// The error of a frame that neither is nor is not the last.
pub open spec fn invalid_fin() -> ClientError {
    ClientError::Io { kind: IoKind::InvalidData, message: "invalid data frame FIN flag" }
}

/// The error of a frame that breaks off.
pub open spec fn early_eof() -> ClientError {
    ClientError::Io { kind: IoKind::UnexpectedEof, message: "early eof" }
}

/// The bytes of a frame, unless it has too much data.
pub fn encode_data_frame(offset: u64, fin: bool, data: &[u8]) -> (result: Result<
    Vec<u8>,
    ClientError,
>)
    ensures
        match result {
            Ok(bytes) => data@.len() <= MAX_DATA_FRAME_LEN && bytes@ == frame_bytes(
                FrameView { offset, fin, data: data@ },
            ),
            Err(error) => data@.len() > MAX_DATA_FRAME_LEN && error == frame_too_large(),
        },
{
    if data.len() > MAX_DATA_FRAME_LEN {
        return Err(
            ClientError::Io { kind: IoKind::InvalidData, message: "data frame is too large" },
        );
    }
    let mut bytes: Vec<u8> = Vec::new();
    push_be(&mut bytes, offset as u128, 8);
    bytes.push(
        if fin {
            1
        } else {
            0
        },
    );
    push_be(&mut bytes, data.len() as u128, 4);
    append_bytes(&mut bytes, data);
    assert(bytes@ =~= frame_bytes(FrameView { offset, fin, data: data@ }));
    Ok(bytes)
}

/// Whether this byte says that a frame is the last.
pub fn frame_fin(byte: u8) -> (result: Result<bool, ClientError>)
    ensures
        match result {
            Ok(fin) => byte <= 1 && fin == (byte == 1),
            Err(error) => byte > 1 && error == invalid_fin(),
        },
{
    if byte > 1 {
        return Err(
            ClientError::Io { kind: IoKind::InvalidData, message: "invalid data frame FIN flag" },
        );
    }
    Ok(byte != 0)
}

/// How much data a frame has, if it is not too much.
pub fn frame_length(bytes: &[u8]) -> (result: Result<usize, ClientError>)
    requires
        bytes@.len() == 4,
    ensures
        match result {
            Ok(length) => length == be_value(bytes@) && length <= MAX_DATA_FRAME_LEN,
            Err(error) => be_value(bytes@) > MAX_DATA_FRAME_LEN && error == frame_too_large(),
        },
{
    let length: u128 = read_be(bytes, 0, 4);
    assert(bytes@.subrange(0, 4) =~= bytes@);
    if length > MAX_DATA_FRAME_LEN as u128 {
        return Err(
            ClientError::Io { kind: IoKind::InvalidData, message: "data frame is too large" },
        );
    }
    Ok(length as usize)
}

/// The frame at the beginning of a stream that ends with these bytes, and how many
/// bytes it takes. There is none if the stream ends before it tells where the data
/// goes.
pub open spec fn frame_of(bytes: Seq<u8>) -> Result<Option<(FrameView, int)>, ClientError> {
    if bytes.len() < 8 {
        Ok(None)
    } else if bytes.len() < 9 {
        Err(early_eof())
    } else if bytes[8] > 1 {
        Err(invalid_fin())
    } else if bytes.len() < 13 {
        Err(early_eof())
    } else {
        let length = be_value(bytes.subrange(9, 13)) as int;
        if length > MAX_DATA_FRAME_LEN {
            Err(frame_too_large())
        } else if bytes.len() < 13 + length {
            Err(early_eof())
        } else {
            Ok(
                Some(
                    (
                        FrameView {
                            offset: be_value(bytes.subrange(0, 8)) as u64,
                            fin: bytes[8] == 1,
                            data: bytes.subrange(13, 13 + length),
                        },
                        13 + length,
                    ),
                ),
            )
        }
    }
}

/// The frame at the beginning of a stream that ends with these bytes, and how many
/// bytes it takes.
pub fn parse_data_frame(bytes: &[u8]) -> (result: Result<Option<(DataFrame, usize)>, ClientError>)
    ensures
        match result {
            Ok(Some((frame, used))) => frame_of(bytes@) == Ok::<
                Option<(FrameView, int)>,
                ClientError,
            >(Some((frame@, used as int))),
            Ok(None) => frame_of(bytes@) == Ok::<Option<(FrameView, int)>, ClientError>(None),
            Err(error) => frame_of(bytes@) == Err::<Option<(FrameView, int)>, ClientError>(error),
        },
{
    if bytes.len() < 8 {
        return Ok(None);
    }
    if bytes.len() < 9 {
        return Err(ClientError::Io { kind: IoKind::UnexpectedEof, message: "early eof" });
    }
    let fin: bool = match frame_fin(bytes[8]) {
        Ok(fin) => fin,
        Err(error) => {
            return Err(error);
        },
    };
    if bytes.len() < 13 {
        return Err(ClientError::Io { kind: IoKind::UnexpectedEof, message: "early eof" });
    }
    let prefix: Vec<u8> = copy_range(bytes, 9, 13);
    let length: usize = match frame_length(&prefix) {
        Ok(length) => length,
        Err(error) => {
            return Err(error);
        },
    };
    if bytes.len() < 13 + length {
        return Err(ClientError::Io { kind: IoKind::UnexpectedEof, message: "early eof" });
    }
    proof {
        lemma_be_limits();
    }
    let offset: u64 = read_be(bytes, 0, 8) as u64;
    let data: Vec<u8> = copy_range(bytes, 13, 13 + length);
    Ok(Some((DataFrame { offset, fin, data }, 13 + length)))
}

/// Reading a frame gives the frame that was written, and takes none of what
/// follows it.
pub proof fn law_frame_read_gives_what_was_written(frame: FrameView, more: Seq<u8>)
    requires
        frame.data.len() <= MAX_DATA_FRAME_LEN,
    ensures
        frame_of(frame_bytes(frame) + more) == Ok::<Option<(FrameView, int)>, ClientError>(
            Some((frame, frame_bytes(frame).len() as int)),
        ),
{
    lemma_be_limits();
    let offset = be_bytes(frame.offset as nat, 8);
    let length = be_bytes(frame.data.len(), 4);
    law_be_read_gives_what_was_written(frame.offset as nat, 8);
    law_be_read_gives_what_was_written(frame.data.len(), 4);
    let bytes = frame_bytes(frame) + more;
    assert(bytes.subrange(0, 8) =~= offset);
    assert(bytes[8] == fin_byte(frame.fin));
    assert(bytes.subrange(9, 13) =~= length);
    assert(bytes.subrange(13, 13 + frame.data.len() as int) =~= frame.data);
}

/// How long a message is that begins with these bytes, which it must be between
/// the shortest and the longest.
pub fn message_length(bytes: &[u8], shortest: usize, longest: usize) -> (result: Result<
    usize,
    ClientError,
>)
    requires
        bytes@.len() == 4,
    ensures
        match result {
            Ok(length) => length == be_value(bytes@) && shortest <= length <= longest,
            Err(error) => !(shortest <= be_value(bytes@) <= longest) && error == (ClientError::Io {
                kind: IoKind::InvalidData,
                message: "message length is outside configured limits",
            }),
        },
{
    let length: u128 = read_be(bytes, 0, 4);
    assert(bytes@.subrange(0, 4) =~= bytes@);
    if length < shortest as u128 || length > longest as u128 {
        return Err(
            ClientError::Io {
                kind: IoKind::InvalidData,
                message: "message length is outside configured limits",
            },
        );
    }
    Ok(length as usize)
}

} // verus!
