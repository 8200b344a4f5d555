//! A stream as its user sees it: which operation to start, and which to wait for.

use vstd::prelude::*;

use crate::reliable_core::{greater, lesser};
use crate::reliable_udp::error::StreamError;
use crate::wire::StreamId;

verus! {

/// The state of a stream at its user's side.
#[derive(Debug, Clone, Copy, PartialEq, Eq, Structural)]
pub struct ReliableStream {
    pub id: StreamId,
    /// All bytes were read.
    pub read_eof: bool,
    /// The end was written.
    pub write_closed: bool,
    /// The end is to be written.
    pub shutdown_requested: bool,
    /// A read was started and is not answered.
    pub reading: bool,
    /// A write was started and is not answered.
    pub writing: bool,
    /// A flush was started and is not answered.
    pub flushing: bool,
}

/// What to do to read.
#[derive(Debug, Clone, Copy, PartialEq, Eq, Structural)]
pub enum ReadStep {
    /// Nothing: there is nothing to read, or no room for it.
    Ready,
    /// Ask for so many bytes, then wait for the answer.
    Start { max_len: usize },
    /// Wait for the answer.
    Wait,
}

/// What to do to write.
#[derive(Debug, Clone, Copy, PartialEq, Eq, Structural)]
pub enum WriteStep {
    /// Fail: the stream was ended.
    Broken,
    /// Nothing: there is nothing to write.
    Nothing,
    /// Write so many of the bytes, then wait for the answer.
    Start { amount: usize },
    /// Wait for the answer.
    Wait,
}

/// What to do to flush.
#[derive(Debug, Clone, Copy, PartialEq, Eq, Structural)]
pub enum FlushStep {
    /// Wait for the answer to a write, then ask again.
    AwaitWrite,
    /// Ask for it, then wait for the answer.
    Start,
    /// Wait for the answer.
    Wait,
}

/// What to do to end the stream.
#[derive(Debug, Clone, Copy, PartialEq, Eq, Structural)]
pub enum ShutdownStep {
    /// Nothing: it was ended.
    Done,
    /// Wait for the answer to a write, then ask again.
    AwaitWrite,
    /// Wait for the answer to the write that ends it.
    AwaitLast,
    /// Write the end, then wait for the answer.
    Start,
}

impl ReliableStream {
    /// A stream on which nothing was done.
    pub fn new(id: StreamId) -> (stream: Self)
        ensures
            stream == (ReliableStream {
                id,
                read_eof: false,
                write_closed: false,
                shutdown_requested: false,
                reading: false,
                writing: false,
                flushing: false,
            }),
    {
        ReliableStream {
            id,
            read_eof: false,
            write_closed: false,
            shutdown_requested: false,
            reading: false,
            writing: false,
            flushing: false,
        }
    }

    /// The number of the stream.
    pub fn stream_id(&self) -> (id: StreamId)
        ensures
            id == self.id,
    {
        self.id
    }

    /// What to do to read into `remaining` bytes.
    pub fn poll_read(&mut self, remaining: usize) -> (step: ReadStep)
        ensures
            step == (if old(self).read_eof || remaining == 0 {
                ReadStep::Ready
            } else if old(self).reading {
                ReadStep::Wait
            } else {
                ReadStep::Start { max_len: remaining }
            }),
            *final(self) == (ReliableStream {
                reading: old(self).reading || step is Start,
                ..*old(self)
            }),
    {
        if self.read_eof || remaining == 0 {
            ReadStep::Ready
        } else if self.reading {
            ReadStep::Wait
        } else {
            self.reading = true;
            ReadStep::Start { max_len: remaining }
        }
    }

    /// A read was answered: whether the stream has ended, if it was not refused.
    pub fn read_answered(&mut self, eof: Option<bool>)
        ensures
            *final(self) == (ReliableStream {
                reading: false,
                read_eof: old(self).read_eof || eof == Some(true),
                ..*old(self)
            }),
    {
        self.reading = false;
        match eof {
            Some(eof) => {
                if eof {
                    self.read_eof = true;
                }
            },
            None => {},
        }
    }

    /// What to do to write `length` bytes, of which at most `max_write_size` go at
    /// once.
    pub fn poll_write(&mut self, length: usize, max_write_size: usize) -> (step: WriteStep)
        ensures
            step == (if old(self).write_closed || old(self).shutdown_requested {
                WriteStep::Broken
            } else if length == 0 {
                WriteStep::Nothing
            } else if old(self).writing {
                WriteStep::Wait
            } else {
                WriteStep::Start {
                    amount: lesser(length as int, greater(max_write_size as int, 1)) as usize,
                }
            }),
            *final(self) == (ReliableStream {
                writing: old(self).writing || step is Start,
                ..*old(self)
            }),
    {
        if self.write_closed || self.shutdown_requested {
            return WriteStep::Broken;
        }
        if length == 0 {
            return WriteStep::Nothing;
        }
        if self.writing {
            return WriteStep::Wait;
        }
        self.writing = true;
        let most: usize = if max_write_size < 1 {
            1
        } else {
            max_write_size
        };
        WriteStep::Start {
            amount: if length < most {
                length
            } else {
                most
            },
        }
    }

    /// A write was answered: whether it went well.
    pub fn write_answered(&mut self, well: bool)
        ensures
            *final(self) == (ReliableStream {
                writing: false,
                write_closed: old(self).write_closed || (old(self).shutdown_requested && well),
                ..*old(self)
            }),
    {
        self.writing = false;
        if self.shutdown_requested && well {
            self.write_closed = true;
        }
    }

    /// What to do to have all bytes acknowledged.
    pub fn poll_flush(&mut self) -> (step: FlushStep)
        ensures
            step == (if old(self).writing {
                FlushStep::AwaitWrite
            } else if old(self).flushing {
                FlushStep::Wait
            } else {
                FlushStep::Start
            }),
            *final(self) == (ReliableStream {
                flushing: old(self).flushing || step is Start,
                ..*old(self)
            }),
    {
        if self.writing {
            FlushStep::AwaitWrite
        } else if self.flushing {
            FlushStep::Wait
        } else {
            self.flushing = true;
            FlushStep::Start
        }
    }

    /// A flush was answered.
    pub fn flush_answered(&mut self)
        ensures
            *final(self) == (ReliableStream { flushing: false, ..*old(self) }),
    {
        self.flushing = false;
    }

    /// What to do to end the stream.
    pub fn poll_shutdown(&mut self) -> (step: ShutdownStep)
        ensures
            step == (if old(self).write_closed {
                ShutdownStep::Done
            } else if old(self).writing {
                if old(self).shutdown_requested {
                    ShutdownStep::AwaitLast
                } else {
                    ShutdownStep::AwaitWrite
                }
            } else {
                ShutdownStep::Start
            }),
            *final(self) == (if step is Start {
                ReliableStream { shutdown_requested: true, writing: true, ..*old(self) }
            } else {
                *old(self)
            }),
    {
        if self.write_closed {
            return ShutdownStep::Done;
        }
        if self.writing {
            return if self.shutdown_requested {
                ShutdownStep::AwaitLast
            } else {
                ShutdownStep::AwaitWrite
            };
        }
        self.shutdown_requested = true;
        self.writing = true;
        ShutdownStep::Start
    }

    /// Whether the end is to be written now; `false` if it was. Not while another
    /// operation is under way.
    pub fn begin_shutdown(&self) -> (result: Result<bool, StreamError>)
        ensures
            result == (if self.write_closed {
                Ok::<bool, StreamError>(false)
            } else if self.writing || self.flushing {
                Err(StreamError::InvalidState("stream has a pending I/O operation"))
            } else {
                Ok(true)
            }),
    {
        if self.write_closed {
            return Ok(false);
        }
        if self.writing || self.flushing {
            return Err(StreamError::InvalidState("stream has a pending I/O operation"));
        }
        Ok(true)
    }

    /// The end was written.
    pub fn shutdown_finished(&mut self)
        ensures
            *final(self) == (ReliableStream { write_closed: true, ..*old(self) }),
    {
        self.write_closed = true;
    }
}

} // verus!
