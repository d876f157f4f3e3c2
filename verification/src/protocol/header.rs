//! The header, the first message on a connection.

use vstd::prelude::*;
use vstd::string::StringExecFns;

use crate::frame::LengthWidth;
use crate::protocol::sealed::Sealed;
use crate::protocol::{
    MessageError, MessagePart, MessageType, ReadProgress, ReadStep, WriteProgress, WriteStep,
};
use crate::text::{read_utf8_lossy, utf8_bytes};

verus! {

/// The first thing that a logger sends.
///
/// It contains information regarding the logger itself.
#[derive(Debug, PartialEq, Eq)]
pub struct Header {
    /// The name of the logger.
    ///
    /// The empty string represents a logger without a name.
    pub name: String,
}

impl Clone for Header {
    fn clone(&self) -> (copy: Self)
        ensures
            copy == *self,
    {
        Header { name: self.name.clone() }
    }
}

/// The parts that a [`Header`] has on the wire.
#[derive(Debug, Clone, Copy, PartialEq, Eq, Structural)]
pub enum HeaderMessagePart {
    /// The first, and only, part of a header is the name of the logger.
    Name(MessagePart),
}

impl HeaderMessagePart {
    /// The name of the part.
    pub open spec fn spec_text(self) -> Seq<char> {
        match self {
            HeaderMessagePart::Name(at) => "name "@ + at.spec_text(),
        }
    }

    /// The name of the part.
    pub fn text(self) -> (text: String)
        ensures
            text@ == self.spec_text(),
    {
        match self {
            HeaderMessagePart::Name(at) => {
                let mut text = "name ".to_owned();
                text.append(at.text());
                text
            },
        }
    }
}

impl Sealed for Header {

}

/// A header is sent by sending all its fields in sequence: its name, in UTF-8,
/// as a binary message.
impl MessageType for Header {
    type MessagePart = HeaderMessagePart;

    open spec fn body(&self) -> Seq<u8> {
        vstd::utf8::encode_utf8(self.name@)
    }

    open spec fn part(at: MessagePart) -> HeaderMessagePart {
        HeaderMessagePart::Name(at)
    }

    open spec fn received_as(body: Seq<u8>, message: Self) -> bool {
        crate::text::reads_as(body, message.name@)
    }

    fn write_to(&self, width: LengthWidth, progress: WriteProgress) -> (step: WriteStep<
        HeaderMessagePart,
    >) {
        match utf8_bytes(self.name.as_str()).write_to(width, progress) {
            WriteStep::WriteAll(at, bytes) => WriteStep::WriteAll(at, bytes),
            WriteStep::Done(Ok(_)) => WriteStep::Done(Ok(())),
            WriteStep::Done(Err(e)) => WriteStep::Done(
                Err(MessageError(HeaderMessagePart::Name(e.0), e.1)),
            ),
        }
    }

    fn read_from(width: LengthWidth, progress: ReadProgress) -> (step: ReadStep<
        Self,
        HeaderMessagePart,
    >) {
        match <Vec<u8>>::read_from(width, progress) {
            ReadStep::ReadExact(at, len) => ReadStep::ReadExact(at, len),
            ReadStep::Done(Ok(bytes)) => ReadStep::Done(
                Ok(Header { name: read_utf8_lossy(&bytes) }),
            ),
            ReadStep::Done(Err(e)) => ReadStep::Done(
                Err(MessageError(HeaderMessagePart::Name(e.0), e.1)),
            ),
        }
    }
}

} // verus!
