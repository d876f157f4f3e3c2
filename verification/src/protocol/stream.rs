//! Message streams: connections over which messages are exchanged.

use vstd::prelude::*;

use crate::frame::LengthWidth;
use crate::io_error::IoError;
use crate::protocol::{
    Header, HeaderMessagePart, MessageError, MessagePart, MessageType, ReadProgress, ReadStep,
    WriteProgress, WriteStep,
};

verus! {

/// The protocol's side of a connection.
///
/// It says what is to be read from and written to the connection; whoever has
/// the connection itself does the reading and writing.
#[derive(Debug, Clone, Copy, PartialEq, Eq, Structural)]
pub struct MessageStream {
    /// How lengths are sent over the connection.
    pub width: LengthWidth,
}

/// What is to be done next to open a connection as the sender.
#[derive(Debug, PartialEq, Eq)]
pub enum InitSendStep {
    /// Write all of these bytes, which are the given part of the header.
    WriteAll(MessagePart, Vec<u8>),
    /// Nothing: the header was sent, or could not be.
    Done(Result<MessageStream, MessageError<HeaderMessagePart>>),
}

/// What is to be done next to open a connection as the receiver.
#[derive(Debug, PartialEq, Eq)]
pub enum InitReceiveStep {
    /// Read exactly this many bytes, which are the given part of the header.
    ReadExact(MessagePart, usize),
    /// Nothing: the header was received, or could not be.
    Done(Result<(MessageStream, Header), MessageError<HeaderMessagePart>>),
}

/// A failure to receive a message that may not be there yet.
#[derive(Debug, PartialEq, Eq)]
pub enum TryReceiveMessageError<Part> {
    /// Peeking for new data failed.
    Peek(IoError),
    /// The stream was closed.
    Closed,
    /// There is data, but receiving the message failed.
    Receive(MessageError<Part>),
}

/// How far an attempt to receive a message has come.
#[derive(Debug, PartialEq, Eq)]
pub enum TryReceiveProgress {
    /// Nothing was done yet.
    Started,
    /// The stream was peeked for one byte; this many were there.
    Peeked(Result<usize, IoError>),
    /// The part was asked of the reader, with this outcome.
    After(MessagePart, Result<Vec<u8>, IoError>),
}

impl TryReceiveProgress {
    /// The reader gave as many bytes for the length as it was asked for.
    pub open spec fn length_is_whole(self, width: LengthWidth) -> bool {
        self matches TryReceiveProgress::After(MessagePart::Length, Ok(bytes)) ==> bytes@.len()
            == width.spec_size()
    }
}

/// What is to be done next to receive a message that may not be there yet.
#[derive(Debug, PartialEq, Eq)]
pub enum TryReceiveStep<M, Part> {
    /// Peek for a single byte.
    Peek,
    /// Read exactly this many bytes, which are the given part of the message.
    ReadExact(MessagePart, usize),
    /// Nothing: a message was received, none was there, or something failed.
    Done(Result<Option<M>, TryReceiveMessageError<Part>>),
}

impl MessageStream {
    /// The step that opening a connection and sending the header over it takes
    /// next.
    pub fn init_send(width: LengthWidth, header: &Header, progress: WriteProgress) -> (step:
        InitSendStep)
        ensures
            match progress {
                WriteProgress::Started => step matches InitSendStep::WriteAll(part, bytes) && part
                    == MessagePart::Length && bytes@ == crate::frame::be_bytes(
                    header.body().len(),
                    width.spec_size(),
                ),
                WriteProgress::After(MessagePart::Length, Ok(_)) => step matches
                    InitSendStep::WriteAll(part, bytes) && part == MessagePart::Body && bytes@
                    == header.body(),
                WriteProgress::After(MessagePart::Body, Ok(_)) => step == InitSendStep::Done(
                    Ok(MessageStream { width }),
                ),
                WriteProgress::After(at, Err(e)) => step == InitSendStep::Done(
                    Err(MessageError(HeaderMessagePart::Name(at), e)),
                ),
            },
    {
        match header.write_to(width, progress) {
            WriteStep::WriteAll(at, bytes) => InitSendStep::WriteAll(at, bytes),
            WriteStep::Done(Ok(_)) => InitSendStep::Done(Ok(MessageStream { width })),
            WriteStep::Done(Err(e)) => InitSendStep::Done(Err(e)),
        }
    }

    /// The step that opening a connection and receiving the header from it takes
    /// next.
    pub fn init_receive(width: LengthWidth, progress: ReadProgress) -> (step: InitReceiveStep)
        requires
            progress.length_is_whole(width),
        ensures
            match progress {
                ReadProgress::Started => step == InitReceiveStep::ReadExact(
                    MessagePart::Length,
                    width.spec_size() as usize,
                ),
                ReadProgress::After(MessagePart::Length, Ok(bytes)) => step
                    == InitReceiveStep::ReadExact(
                    MessagePart::Body,
                    crate::frame::body_len(bytes@) as usize,
                ),
                ReadProgress::After(MessagePart::Body, Ok(bytes)) => step matches
                    InitReceiveStep::Done(Ok((stream, header))) && stream == (MessageStream {
                    width,
                }) && Header::received_as(bytes@, header),
                ReadProgress::After(at, Err(e)) => step == InitReceiveStep::Done(
                    Err(MessageError(HeaderMessagePart::Name(at), e)),
                ),
            },
    {
        let stream = MessageStream { width };
        match stream.receive_message::<Header>(progress) {
            ReadStep::ReadExact(at, len) => InitReceiveStep::ReadExact(at, len),
            ReadStep::Done(Ok(header)) => InitReceiveStep::Done(Ok((stream, header))),
            ReadStep::Done(Err(e)) => InitReceiveStep::Done(Err(e)),
        }
    }

    /// The step that writing a message to the stream takes next.
    pub fn write_message<M: MessageType>(&self, message: &M, progress: WriteProgress) -> (step:
        WriteStep<M::MessagePart>)
        ensures
            match progress {
                WriteProgress::Started => step matches WriteStep::WriteAll(part, bytes) && part
                    == MessagePart::Length && bytes@ == crate::frame::be_bytes(
                    message.body().len(),
                    self.width.spec_size(),
                ),
                WriteProgress::After(MessagePart::Length, Ok(_)) => step matches WriteStep::WriteAll(
                    part,
                    bytes,
                ) && part == MessagePart::Body && bytes@ == message.body(),
                WriteProgress::After(MessagePart::Body, Ok(_)) => step == WriteStep::<
                    M::MessagePart,
                >::Done(Ok(())),
                WriteProgress::After(at, Err(e)) => step == WriteStep::<M::MessagePart>::Done(
                    Err(MessageError(M::part(at), e)),
                ),
            },
    {
        message.write_to(self.width, progress)
    }

    /// The step that receiving a message from the stream takes next.
    pub fn receive_message<M: MessageType>(&self, progress: ReadProgress) -> (step: ReadStep<
        M,
        M::MessagePart,
    >)
        requires
            progress.length_is_whole(self.width),
        ensures
            match progress {
                ReadProgress::Started => step == ReadStep::<M, M::MessagePart>::ReadExact(
                    MessagePart::Length,
                    self.width.spec_size() as usize,
                ),
                ReadProgress::After(MessagePart::Length, Ok(bytes)) => step == ReadStep::<
                    M,
                    M::MessagePart,
                >::ReadExact(MessagePart::Body, crate::frame::body_len(bytes@) as usize),
                ReadProgress::After(MessagePart::Body, Ok(bytes)) => step matches ReadStep::Done(
                    Ok(message),
                ) && M::received_as(bytes@, message),
                ReadProgress::After(at, Err(e)) => step == ReadStep::<M, M::MessagePart>::Done(
                    Err(MessageError(M::part(at), e)),
                ),
            },
    {
        M::read_from(self.width, progress)
    }

    /// The step that receiving a message, if there is one, takes next.
    ///
    /// The stream is peeked for a single byte. If that runs into the timeout,
    /// there is no message; if there is nothing left to peek at, the stream is
    /// closed; otherwise an entire message is received.
    pub fn try_receive_message<M: MessageType>(&self, progress: TryReceiveProgress) -> (step:
        TryReceiveStep<M, M::MessagePart>)
        requires
            progress.length_is_whole(self.width),
        ensures
            match progress {
                TryReceiveProgress::Started => step == TryReceiveStep::<M, M::MessagePart>::Peek,
                TryReceiveProgress::Peeked(Ok(count)) => step == if count == 0 {
                    TryReceiveStep::<M, M::MessagePart>::Done(Err(TryReceiveMessageError::Closed))
                } else {
                    TryReceiveStep::<M, M::MessagePart>::ReadExact(
                        MessagePart::Length,
                        self.width.spec_size() as usize,
                    )
                },
                TryReceiveProgress::Peeked(Err(e)) => step == if e.kind.spec_is_timeout() {
                    TryReceiveStep::<M, M::MessagePart>::Done(Ok(None))
                } else {
                    TryReceiveStep::<M, M::MessagePart>::Done(
                        Err(TryReceiveMessageError::Peek(e)),
                    )
                },
                TryReceiveProgress::After(MessagePart::Length, Ok(bytes)) => step
                    == TryReceiveStep::<M, M::MessagePart>::ReadExact(
                    MessagePart::Body,
                    crate::frame::body_len(bytes@) as usize,
                ),
                TryReceiveProgress::After(MessagePart::Body, Ok(bytes)) => step matches
                    TryReceiveStep::Done(Ok(Some(message))) && M::received_as(bytes@, message),
                TryReceiveProgress::After(at, Err(e)) => step == TryReceiveStep::<
                    M,
                    M::MessagePart,
                >::Done(Err(TryReceiveMessageError::Receive(MessageError(M::part(at), e)))),
            },
    {
        let received = match progress {
            TryReceiveProgress::Started => {
                return TryReceiveStep::Peek;
            },
            TryReceiveProgress::Peeked(Ok(count)) => {
                if count == 0 {
                    // no bytes to peek at means that the stream is done
                    return TryReceiveStep::Done(Err(TryReceiveMessageError::Closed));
                }
                ReadProgress::Started
            },
            TryReceiveProgress::Peeked(Err(e)) => {
                return if e.kind.is_timeout() {
                    TryReceiveStep::Done(Ok(None))
                } else {
                    TryReceiveStep::Done(Err(TryReceiveMessageError::Peek(e)))
                };
            },
            TryReceiveProgress::After(at, outcome) => ReadProgress::After(at, outcome),
        };
        match self.receive_message::<M>(received) {
            ReadStep::ReadExact(at, len) => TryReceiveStep::ReadExact(at, len),
            ReadStep::Done(Ok(message)) => TryReceiveStep::Done(Ok(Some(message))),
            ReadStep::Done(Err(e)) => TryReceiveStep::Done(
                Err(TryReceiveMessageError::Receive(e)),
            ),
        }
    }
}

} // verus!
