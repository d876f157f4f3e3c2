//! The protocol: a message is sent as the length of its body, followed by the
//! body.
//!
//! The first message that a logger sends over a connection has to be a
//! [`Header`]; all subsequent messages are log messages.
//!
//! Nothing here touches a stream. Sending and receiving are split into steps: a
//! function is told how the last step went, and says what the next one is. The
//! owner of the stream carries the steps out.

pub mod buffer;
mod header;
mod sealed;
mod stream;

use vstd::prelude::*;

use crate::frame::{decode_length, encode_length, LengthWidth};
use crate::io_error::IoError;
use crate::protocol::sealed::Sealed;

pub use crate::protocol::header::{Header, HeaderMessagePart};
pub use crate::protocol::stream::{
    InitReceiveStep, InitSendStep, MessageStream, TryReceiveMessageError, TryReceiveProgress,
    TryReceiveStep,
};

verus! {

/// The parts that a message has on the wire.
#[derive(Debug, Clone, Copy, PartialEq, Eq, Structural)]
pub enum MessagePart {
    /// The first part of the message is the length of the body.
    Length,
    /// The second part of the message is the body.
    Body,
}

impl MessagePart {
    /// The name of the part.
    pub open spec fn spec_text(self) -> Seq<char> {
        match self {
            MessagePart::Length => "length"@,
            MessagePart::Body => "body"@,
        }
    }

    /// The name of the part.
    pub fn text(self) -> (text: &'static str)
        ensures
            text@ == self.spec_text(),
    {
        match self {
            MessagePart::Length => "length",
            MessagePart::Body => "body",
        }
    }
}

/// A failure while a part of a message was read or written.
///
/// The first field says which part it was.
#[derive(Debug, PartialEq, Eq)]
pub struct MessageError<Part>(pub Part, pub IoError);

/// How far the writing of a message has come.
#[derive(Debug, PartialEq, Eq)]
pub enum WriteProgress {
    /// Nothing was written yet.
    Started,
    /// The part was handed to the writer, with this outcome.
    After(MessagePart, Result<(), IoError>),
}

/// What is to be done next to write a message.
#[derive(Debug, PartialEq, Eq)]
pub enum WriteStep<Part> {
    /// Write all of these bytes, which are the given part of the message.
    WriteAll(MessagePart, Vec<u8>),
    /// Nothing: this is how the writing of the message ended.
    Done(Result<(), MessageError<Part>>),
}

/// How far the reading of a message has come.
#[derive(Debug, PartialEq, Eq)]
pub enum ReadProgress {
    /// Nothing was read yet.
    Started,
    /// The part was asked of the reader, with this outcome.
    After(MessagePart, Result<Vec<u8>, IoError>),
}

impl ReadProgress {
    /// The reader gave as many bytes for the length as it was asked for.
    pub open spec fn length_is_whole(self, width: LengthWidth) -> bool {
        self matches ReadProgress::After(MessagePart::Length, Ok(bytes)) ==> bytes@.len()
            == width.spec_size()
    }
}

/// What is to be done next to read a message.
#[derive(Debug, PartialEq, Eq)]
pub enum ReadStep<M, Part> {
    /// Read exactly this many bytes, which are the given part of the message.
    ReadExact(MessagePart, usize),
    /// Nothing: this is how the reading of the message ended.
    Done(Result<M, MessageError<Part>>),
}

/// A message that can be sent and received with this protocol.
pub trait MessageType: Sized + Sealed {
    /// Tells which stage of sending or receiving a failure belongs to.
    type MessagePart;

    /// The body that the message has on the wire.
    spec fn body(&self) -> Seq<u8>;

    /// How a failure in a part of the message is reported.
    spec fn part(at: MessagePart) -> Self::MessagePart;

    /// Whether a body is received as this message.
    spec fn received_as(body: Seq<u8>, message: Self) -> bool;

    /// The step that writing the message takes next.
    ///
    /// First the length is written, then the body; the first failure ends it.
    fn write_to(&self, width: LengthWidth, progress: WriteProgress) -> (step: WriteStep<
        Self::MessagePart,
    >)
        ensures
            match progress {
                WriteProgress::Started => step matches WriteStep::WriteAll(part, bytes) && part
                    == MessagePart::Length && bytes@ == crate::frame::be_bytes(
                    self.body().len(),
                    width.spec_size(),
                ),
                WriteProgress::After(MessagePart::Length, Ok(_)) => step matches WriteStep::WriteAll(
                    part,
                    bytes,
                ) && part == MessagePart::Body && bytes@ == self.body(),
                WriteProgress::After(MessagePart::Body, Ok(_)) => step == WriteStep::<
                    Self::MessagePart,
                >::Done(Ok(())),
                WriteProgress::After(at, Err(e)) => step == WriteStep::<Self::MessagePart>::Done(
                    Err(MessageError(Self::part(at), e)),
                ),
            },
    ;

    /// The step that reading a message takes next.
    ///
    /// First the length is read, then as many bytes as it says; the first
    /// failure ends it.
    fn read_from(width: LengthWidth, progress: ReadProgress) -> (step: ReadStep<
        Self,
        Self::MessagePart,
    >)
        requires
            progress.length_is_whole(width),
        ensures
            match progress {
                ReadProgress::Started => step == ReadStep::<Self, Self::MessagePart>::ReadExact(
                    MessagePart::Length,
                    width.spec_size() as usize,
                ),
                ReadProgress::After(MessagePart::Length, Ok(bytes)) => step == ReadStep::<
                    Self,
                    Self::MessagePart,
                >::ReadExact(MessagePart::Body, crate::frame::body_len(bytes@) as usize),
                ReadProgress::After(MessagePart::Body, Ok(bytes)) => step matches ReadStep::Done(
                    Ok(message),
                ) && Self::received_as(bytes@, message),
                ReadProgress::After(at, Err(e)) => step == ReadStep::<
                    Self,
                    Self::MessagePart,
                >::Done(Err(MessageError(Self::part(at), e))),
            },
    ;
}

impl Sealed for Vec<u8> {

}

/// A binary message is its own body.
impl MessageType for Vec<u8> {
    type MessagePart = MessagePart;

    open spec fn body(&self) -> Seq<u8> {
        self@
    }

    open spec fn part(at: MessagePart) -> MessagePart {
        at
    }

    open spec fn received_as(body: Seq<u8>, message: Self) -> bool {
        message@ == body
    }

    fn write_to(&self, width: LengthWidth, progress: WriteProgress) -> (step: WriteStep<
        MessagePart,
    >) {
        match progress {
            WriteProgress::Started => WriteStep::WriteAll(
                MessagePart::Length,
                encode_length(width, self.len()),
            ),
            WriteProgress::After(MessagePart::Length, Ok(_)) => {
                let body = self.clone();
                assert(body@ =~= self.body());
                WriteStep::WriteAll(MessagePart::Body, body)
            },
            WriteProgress::After(MessagePart::Body, Ok(_)) => WriteStep::Done(Ok(())),
            WriteProgress::After(at, Err(e)) => {
                assert(Self::part(at) == at);
                WriteStep::Done(Err(MessageError(at, e)))
            },
        }
    }

    fn read_from(width: LengthWidth, progress: ReadProgress) -> (step: ReadStep<
        Self,
        MessagePart,
    >) {
        match progress {
            ReadProgress::Started => ReadStep::ReadExact(MessagePart::Length, width.size()),
            ReadProgress::After(MessagePart::Length, Ok(bytes)) => ReadStep::ReadExact(
                MessagePart::Body,
                decode_length(width, &bytes),
            ),
            ReadProgress::After(MessagePart::Body, Ok(bytes)) => ReadStep::Done(Ok(bytes)),
            ReadProgress::After(at, Err(e)) => {
                assert(Self::part(at) == at);
                ReadStep::Done(Err(MessageError(at, e)))
            },
        }
    }
}

} // verus!
