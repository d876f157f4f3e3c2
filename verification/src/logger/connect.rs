//! Connecting to an output address: the connection is made, and the header is sent
//! over it, before any log message is.

use vstd::prelude::*;

use crate::frame::LengthWidth;
use crate::io_error::IoError;
use crate::logger::{LogFailureStrategy, RemoteLogger};
use crate::protocol::{
    Header, InitSendStep, MessagePart, MessageStream, MessageType, WriteProgress,
};

verus! {

/// How far connecting to an address has come.
#[derive(Debug, PartialEq, Eq)]
pub enum ConnectProgress {
    /// Nothing was done yet.
    Started,
    /// The connection was asked for, with this outcome.
    Connected(Result<(), IoError>),
    /// The part of the header was handed to the stream, with this outcome.
    Written(MessagePart, Result<(), IoError>),
}

/// What is to be done next to connect to an address.
#[derive(Debug, PartialEq, Eq)]
pub enum ConnectStep {
    /// Open a connection to the address.
    Connect,
    /// Write all of these bytes, which are the given part of the header, to the
    /// stream.
    WriteAll(MessagePart, Vec<u8>),
    /// Nothing: the stream is ready for log messages, or something failed.
    Done(Result<(), IoError>),
}

/// The parts of the header of a logger, which has no name.
pub open spec fn header_part(width: LengthWidth, part: MessagePart) -> Seq<u8> {
    let body = vstd::utf8::encode_utf8(Seq::<char>::empty());
    match part {
        MessagePart::Length => crate::frame::be_bytes(body.len(), width.spec_size()),
        MessagePart::Body => body,
    }
}

impl RemoteLogger {
    /// The step that connecting to an output address takes next.
    ///
    /// The first message on a connection has to be a header, so it is sent as soon
    /// as the connection is there. A logger has no name, which the empty name in
    /// its header stands for. A stream that the header cannot be sent over counts
    /// as one that could not be connected to.
    pub fn connect(&self, progress: ConnectProgress) -> (step: ConnectStep)
        ensures
            match progress {
                ConnectProgress::Started => step == ConnectStep::Connect,
                ConnectProgress::Connected(Ok(_)) => step matches ConnectStep::WriteAll(part, bytes)
                    && part == MessagePart::Length && bytes@ == header_part(self@.width, part),
                ConnectProgress::Connected(Err(e)) => step == ConnectStep::Done(Err(e)),
                ConnectProgress::Written(MessagePart::Length, Ok(_)) => step matches
                    ConnectStep::WriteAll(part, bytes) && part == MessagePart::Body && bytes@
                    == header_part(self@.width, part),
                ConnectProgress::Written(MessagePart::Body, Ok(_)) => step == ConnectStep::Done(
                    Ok(()),
                ),
                ConnectProgress::Written(_, Err(e)) => step == ConnectStep::Done(Err(e)),
            },
    {
        let written = match progress {
            ConnectProgress::Started => {
                return ConnectStep::Connect;
            },
            ConnectProgress::Connected(Ok(_)) => WriteProgress::Started,
            ConnectProgress::Connected(Err(e)) => {
                return ConnectStep::Done(Err(e));
            },
            ConnectProgress::Written(part, outcome) => WriteProgress::After(part, outcome),
        };
        let header = Header { name: String::new() };
        assert(header.name@ =~= Seq::<char>::empty());
        match MessageStream::init_send(self.width, &header, written) {
            InitSendStep::WriteAll(part, bytes) => ConnectStep::WriteAll(part, bytes),
            InitSendStep::Done(Ok(_)) => ConnectStep::Done(Ok(())),
            InitSendStep::Done(Err(e)) => ConnectStep::Done(Err(e.1)),
        }
    }
}

/// The bytes that a stream gets, if nothing fails: what is written to connect, and
/// then what is delivered of these messages.
pub open spec fn stream_bytes(
    width: LengthWidth,
    fail_strat: LogFailureStrategy,
    messages: Seq<Seq<char>>,
) -> Seq<u8>
    decreases messages.len(),
{
    if messages.len() == 0 {
        header_part(width, MessagePart::Length) + header_part(width, MessagePart::Body)
    } else {
        let parcel = crate::logger::delivery::parcel_of(width, fail_strat, messages.last());
        stream_bytes(width, fail_strat, messages.drop_last()) + (parcel.length + parcel.body)
    }
}

/// The bodies that messages are sent with.
pub open spec fn bodies(messages: Seq<Seq<char>>) -> Seq<Seq<u8>> {
    messages.map_values(|message: Seq<char>| vstd::utf8::encode_utf8(message))
}

/// What a stream gets from a logger is a session: a header without a name, and then
/// the log messages, in order.
pub proof fn law_a_stream_gets_a_session(
    width: LengthWidth,
    fail_strat: LogFailureStrategy,
    header: Header,
    messages: Seq<Seq<char>>,
)
    requires
        header.name@ == Seq::<char>::empty(),
    ensures
        stream_bytes(width, fail_strat, messages) == crate::protocol::buffer::session(
            width,
            header,
            bodies(messages),
        ),
    decreases messages.len(),
{
    let first = seq![header.body()];
    if messages.len() == 0 {
        assert(first + bodies(messages) =~= Seq::empty().push(header.body()));
        crate::protocol::buffer::lemma_outgoing_push(width, Seq::empty(), header.body());
        assert(crate::protocol::buffer::outgoing(width, Seq::empty()) =~= Seq::<u8>::empty());
        assert(stream_bytes(width, fail_strat, messages) =~= Seq::<u8>::empty()
            + crate::frame::frame(width, header.body()));
    } else {
        let before = messages.drop_last();
        let body = vstd::utf8::encode_utf8(messages.last());
        law_a_stream_gets_a_session(width, fail_strat, header, before);
        assert(first + bodies(messages) =~= (first + bodies(before)).push(body));
        crate::protocol::buffer::lemma_outgoing_push(width, first + bodies(before), body);
    }
}

/// A monitor that reads what a stream gets receives a header without a name first,
/// and then all log messages, each of which is read as it was logged.
pub proof fn law_what_a_logger_sends_is_received(
    width: LengthWidth,
    fail_strat: LogFailureStrategy,
    header: Header,
    messages: Seq<Seq<char>>,
    rest: Seq<u8>,
)
    requires
        header.name@ == Seq::<char>::empty(),
        forall|i: int|
            0 <= i < messages.len() ==> vstd::utf8::encode_utf8(#[trigger] messages[i]).len()
                <= usize::MAX,
    ensures
        ({
            let behind = crate::protocol::buffer::outgoing(width, bodies(messages)) + rest;
            &&& crate::protocol::buffer::incoming(
                width,
                stream_bytes(width, fail_strat, messages) + rest,
            ) == crate::protocol::buffer::Incoming::Whole(header.body(), behind)
            &&& forall|received: Header| #[trigger]
                Header::received_as(header.body(), received) ==> received.name@.len() == 0
            &&& crate::protocol::buffer::incoming_bodies(width, behind, messages.len()) == Some(
                (bodies(messages), rest),
            )
        }),
        forall|i: int, read: Seq<char>|
            0 <= i < messages.len() && #[trigger] crate::text::reads_as(
                bodies(messages)[i],
                read,
            ) ==> read == messages[i],
{
    law_a_stream_gets_a_session(width, fail_strat, header, messages);
    assert forall|i: int| 0 <= i < bodies(messages).len() implies (#[trigger] bodies(
        messages,
    )[i]).len() <= usize::MAX by {
        assert(vstd::utf8::encode_utf8(messages[i]).len() <= usize::MAX);
    }
    crate::protocol::buffer::law_a_session_is_received_as_sent(
        width,
        header,
        bodies(messages),
        rest,
    );
    assert forall|i: int, read: Seq<char>|
        0 <= i < messages.len() && #[trigger] crate::text::reads_as(
            bodies(messages)[i],
            read,
        ) implies read == messages[i] by {
        crate::text::law_text_is_read_as_it_was_sent(messages[i], read);
    }
}

/// The header that a logger sends is the length zero, and nothing behind it.
pub proof fn law_the_header_announces_no_name(width: LengthWidth)
    ensures
        header_part(width, MessagePart::Length).len() == width.spec_size(),
        forall|i: int|
            0 <= i < width.spec_size() ==> (#[trigger] header_part(width, MessagePart::Length)[i])
                == 0,
        header_part(width, MessagePart::Body).len() == 0,
{
    let size = width.spec_size();
    assert(vstd::utf8::encode_utf8(Seq::<char>::empty()).len() == 0);
    crate::frame::law_be_bytes_are_base_256(0, size);
    assert forall|i: int| 0 <= i < size implies (#[trigger] header_part(
        width,
        MessagePart::Length,
    )[i]) == 0 by {
        let p = vstd::arithmetic::power::pow(256, (size - 1 - i) as nat);
        vstd::arithmetic::power::lemma_pow_positive(256, (size - 1 - i) as nat);
        vstd::arithmetic::div_mod::lemma_basic_div(0, p);
    }
}

} // verus!
