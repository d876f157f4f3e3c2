//! Whole messages in memory: what the steps of the protocol come to when the
//! stream is a buffer, and what a receiver gets of what a sender sent.

use vstd::prelude::*;

use crate::frame::LengthWidth;
use crate::io_error::{ErrorKind, IoError};
use crate::protocol::{
    Header, MessageError, MessagePart, MessageType, ReadProgress, ReadStep, WriteProgress,
    WriteStep,
};

verus! {

/// What a receiver finds at the front of a stream of bytes.
pub enum Incoming {
    /// A message with this body, and then these bytes.
    Whole(Seq<u8>, Seq<u8>),
    /// The stream ends in this part of the message.
    CutShort(MessagePart),
}

/// What a receiver finds at the front of `stream`.
pub open spec fn incoming(width: LengthWidth, stream: Seq<u8>) -> Incoming {
    let size = width.spec_size() as int;
    if stream.len() < size {
        Incoming::CutShort(MessagePart::Length)
    } else {
        let len = crate::frame::body_len(stream.take(size)) as int;
        if stream.len() - size < len {
            Incoming::CutShort(MessagePart::Body)
        } else {
            Incoming::Whole(stream.subrange(size, size + len), stream.skip(size + len))
        }
    }
}

/// The bytes that messages with these bodies make when they are sent one after
/// the other.
pub open spec fn outgoing(width: LengthWidth, bodies: Seq<Seq<u8>>) -> Seq<u8>
    decreases bodies.len(),
{
    if bodies.len() == 0 {
        Seq::empty()
    } else {
        crate::frame::frame(width, bodies.first()) + outgoing(width, bodies.drop_first())
    }
}

/// A message that is sent after others stands behind them.
pub proof fn lemma_outgoing_push(width: LengthWidth, bodies: Seq<Seq<u8>>, body: Seq<u8>)
    ensures
        outgoing(width, bodies.push(body)) == outgoing(width, bodies) + crate::frame::frame(
            width,
            body,
        ),
    decreases bodies.len(),
{
    let more = bodies.push(body);
    if bodies.len() == 0 {
        assert(more.drop_first() =~= Seq::empty());
        assert(outgoing(width, more.drop_first()) =~= Seq::<u8>::empty());
        assert(more.first() == body);
        assert(outgoing(width, more) =~= crate::frame::frame(width, body));
        assert(outgoing(width, bodies) + crate::frame::frame(width, body) =~= crate::frame::frame(
            width,
            body,
        ));
    } else {
        assert(more.drop_first() =~= bodies.drop_first().push(body));
        assert(more.first() == bodies.first());
        lemma_outgoing_push(width, bodies.drop_first(), body);
        assert(outgoing(width, more) =~= outgoing(width, bodies) + crate::frame::frame(width, body));
    }
}

/// The bodies of the first `count` messages in `stream`, and the bytes behind
/// them; nothing if the stream does not hold that many.
pub open spec fn incoming_bodies(width: LengthWidth, stream: Seq<u8>, count: nat) -> Option<
    (Seq<Seq<u8>>, Seq<u8>),
>
    decreases count,
{
    if count == 0 {
        Some((Seq::empty(), stream))
    } else {
        match incoming(width, stream) {
            Incoming::Whole(body, rest) => match incoming_bodies(width, rest, (count - 1) as nat) {
                Some((bodies, rest)) => Some((seq![body] + bodies, rest)),
                None => None,
            },
            Incoming::CutShort(_) => None,
        }
    }
}

/// A receiver gets back the body that was sent, and leaves what follows it.
pub proof fn law_a_message_is_received_as_sent(width: LengthWidth, body: Seq<u8>, rest: Seq<u8>)
    requires
        body.len() <= usize::MAX,
    ensures
        incoming(width, crate::frame::frame(width, body) + rest) == Incoming::Whole(body, rest),
{
    let size = width.spec_size() as int;
    let prefix = crate::frame::be_bytes(body.len(), width.spec_size());
    let stream = crate::frame::frame(width, body) + rest;
    crate::frame::law_prefix_tells_the_length(width, body.len());
    assert(stream.take(size) =~= prefix);
    assert(stream.subrange(size, size + body.len()) =~= body);
    assert(stream.skip(size + body.len()) =~= rest);
}

/// A receiver gets all messages of a connection back, in the order in which they
/// were sent, and leaves what follows them.
pub proof fn law_messages_are_received_in_order(
    width: LengthWidth,
    bodies: Seq<Seq<u8>>,
    rest: Seq<u8>,
)
    requires
        forall|i: int| 0 <= i < bodies.len() ==> (#[trigger] bodies[i]).len() <= usize::MAX,
    ensures
        incoming_bodies(width, outgoing(width, bodies) + rest, bodies.len()) == Some((bodies, rest)),
    decreases bodies.len(),
{
    if bodies.len() == 0 {
        assert(outgoing(width, bodies) + rest =~= rest);
        assert(bodies =~= Seq::empty());
    } else {
        let first = bodies.first();
        let others = bodies.drop_first();
        let behind = outgoing(width, others) + rest;
        assert(first == bodies[0]);
        assert(outgoing(width, bodies) + rest =~= crate::frame::frame(width, first) + behind);
        law_a_message_is_received_as_sent(width, first, behind);
        assert forall|i: int| 0 <= i < others.len() implies (#[trigger] others[i]).len()
            <= usize::MAX by {
            assert(others[i] == bodies[i + 1]);
        }
        law_messages_are_received_in_order(width, others, rest);
        assert(seq![first] + others =~= bodies);
    }
}

/// A stream that ends early is noticed, and the part in which it ends is told:
/// the length while the length is not complete, and the body from there on.
pub proof fn law_a_cut_message_is_noticed(width: LengthWidth, body: Seq<u8>, end: nat)
    requires
        body.len() <= usize::MAX,
        end < crate::frame::frame(width, body).len(),
    ensures
        incoming(width, crate::frame::frame(width, body).take(end as int)) == Incoming::CutShort(
            if end < width.spec_size() {
                MessagePart::Length
            } else {
                MessagePart::Body
            },
        ),
{
    let size = width.spec_size() as int;
    let stream = crate::frame::frame(width, body).take(end as int);
    crate::frame::law_prefix_tells_the_length(width, body.len());
    if end >= size {
        assert(stream.take(size) =~= crate::frame::be_bytes(body.len(), width.spec_size()));
    }
}

/// The bytes of a message determine its body: no two bodies are sent alike.
pub proof fn law_no_two_bodies_are_sent_alike(width: LengthWidth, one: Seq<u8>, other: Seq<u8>)
    requires
        one.len() <= usize::MAX,
        other.len() <= usize::MAX,
        crate::frame::frame(width, one) == crate::frame::frame(width, other),
    ensures
        one == other,
{
    law_a_message_is_received_as_sent(width, one, Seq::empty());
    law_a_message_is_received_as_sent(width, other, Seq::empty());
}

/// A binary message is received as it was sent.
pub proof fn law_a_binary_message_is_received_as_sent(sent: Vec<u8>, received: Vec<u8>)
    requires
        <Vec<u8> as MessageType>::received_as(sent.body(), received),
    ensures
        received@ == sent@,
{
}

/// The name of a logger is received as it was sent, whatever it is made of.
pub proof fn law_a_header_is_received_as_sent(sent: Header, received: Header)
    requires
        Header::received_as(sent.body(), received),
    ensures
        received.name@ == sent.name@,
{
    crate::text::law_text_is_read_as_it_was_sent(sent.name@, received.name@);
}

/// The bytes that a logger sends over a connection: its header, and then its log
/// messages.
pub open spec fn session(width: LengthWidth, header: Header, messages: Seq<Seq<u8>>) -> Seq<u8> {
    outgoing(width, seq![header.body()] + messages)
}

/// A monitor that reads the header first, and then log messages, gets all of them
/// back as they were sent, and leaves what follows them.
pub proof fn law_a_session_is_received_as_sent(
    width: LengthWidth,
    header: Header,
    messages: Seq<Seq<u8>>,
    rest: Seq<u8>,
)
    requires
        header.body().len() <= usize::MAX,
        forall|i: int| 0 <= i < messages.len() ==> (#[trigger] messages[i]).len() <= usize::MAX,
    ensures
        incoming(width, session(width, header, messages) + rest) == Incoming::Whole(
            header.body(),
            outgoing(width, messages) + rest,
        ),
        forall|received: Header| #[trigger]
            Header::received_as(header.body(), received) ==> received.name@ == header.name@,
        incoming_bodies(width, outgoing(width, messages) + rest, messages.len()) == Some(
            (messages, rest),
        ),
{
    let bodies = seq![header.body()] + messages;
    assert(bodies.first() == header.body());
    assert(bodies.drop_first() =~= messages);
    assert(session(width, header, messages) + rest =~= crate::frame::frame(width, header.body()) + (
    outgoing(width, messages) + rest));
    law_a_message_is_received_as_sent(width, header.body(), outgoing(width, messages) + rest);
    law_messages_are_received_in_order(width, messages, rest);
    assert forall|received: Header| #[trigger]
        Header::received_as(header.body(), received) implies received.name@ == header.name@ by {
        law_a_header_is_received_as_sent(header, received);
    }
}

/// Carries out the steps that write `message`, appending to `out`.
pub fn write_to_buffer<M: MessageType>(message: &M, width: LengthWidth, out: &mut Vec<u8>)
    ensures
        final(out)@ == old(out)@ + crate::frame::frame(width, message.body()),
{
    let mut progress = WriteProgress::Started;
    loop
        invariant
            match progress {
                WriteProgress::Started => out@ == old(out)@,
                WriteProgress::After(MessagePart::Length, Ok(_)) => out@ == old(out)@
                    + crate::frame::be_bytes(message.body().len(), width.spec_size()),
                WriteProgress::After(MessagePart::Body, Ok(_)) => out@ == old(out)@
                    + crate::frame::frame(width, message.body()),
                WriteProgress::After(_, Err(_)) => false,
            },
        decreases
                match progress {
                    WriteProgress::Started => 2int,
                    WriteProgress::After(MessagePart::Length, _) => 1int,
                    WriteProgress::After(MessagePart::Body, _) => 0int,
                },
    {
        match message.write_to(width, progress) {
            WriteStep::WriteAll(at, mut bytes) => {
                out.append(&mut bytes);
                progress = WriteProgress::After(at, Ok(()));
                assert(old(out)@ + crate::frame::frame(width, message.body()) =~= old(out)@
                    + crate::frame::be_bytes(message.body().len(), width.spec_size())
                    + message.body());
            },
            WriteStep::Done(_) => {
                return;
            },
        }
    }
}

/// The bytes of `stream` from `from` on, if `len` are there.
fn read_exact(stream: &Vec<u8>, from: usize, len: usize) -> (outcome: Result<Vec<u8>, IoError>)
    requires
        from <= stream@.len(),
    ensures
        match outcome {
            Ok(bytes) => from + len <= stream@.len() && bytes@ == stream@.subrange(
                from as int,
                from + len,
            ),
            Err(e) => from + len > stream@.len() && e.kind == ErrorKind::UnexpectedEof && e.message@
                == "failed to fill whole buffer"@,
        },
{
    if stream.len() - from < len {
        return Err(
            IoError {
                kind: ErrorKind::UnexpectedEof,
                message: "failed to fill whole buffer".to_owned(),
            },
        );
    }
    let total: usize = stream.len();
    let mut bytes: Vec<u8> = Vec::new();
    let mut at: usize = 0;
    while at < len
        invariant
            at <= len,
            total == stream@.len(),
            from + len <= total,
            bytes@ =~= stream@.subrange(from as int, from + at),
        decreases len - at,
    {
        bytes.push(stream[from + at]);
        at = at + 1;
    }
    Ok(bytes)
}

/// Carries out the steps that read a message from `stream`, from `from` on.
///
/// With the message comes the place at which the bytes behind it start.
pub fn read_from_buffer<M: MessageType>(
    width: LengthWidth,
    stream: &Vec<u8>,
    from: usize,
) -> (received: Result<(M, usize), MessageError<M::MessagePart>>)
    requires
        from <= stream@.len(),
    ensures
        match incoming(width, stream@.skip(from as int)) {
            Incoming::Whole(body, rest) => received matches Ok((message, end)) && M::received_as(
                body,
                message,
            ) && end <= stream@.len() && stream@.skip(end as int) == rest,
            Incoming::CutShort(at) => received matches Err(e) && e.0 == M::part(at) && e.1.kind
                == ErrorKind::UnexpectedEof && e.1.message@ == "failed to fill whole buffer"@,
        },
{
    let total: usize = stream.len();
    let mut progress = ReadProgress::Started;
    let mut end: usize = from;
    let ghost left = stream@.skip(from as int);
    let ghost size = width.spec_size() as int;
    loop
        invariant
            from <= end <= total,
            total == stream@.len(),
            left == stream@.skip(from as int),
            size == width.spec_size(),
            match progress {
                ReadProgress::Started => end == from,
                ReadProgress::After(MessagePart::Length, Ok(bytes)) => end == from + size
                    && bytes@ == left.take(size) && bytes@.len() == size,
                ReadProgress::After(MessagePart::Body, Ok(bytes)) => incoming(width, left)
                    == Incoming::Whole(bytes@, stream@.skip(end as int)),
                ReadProgress::After(at, Err(e)) => incoming(width, left) == Incoming::CutShort(at)
                    && e.kind == ErrorKind::UnexpectedEof && e.message@
                    == "failed to fill whole buffer"@,
            },
        decreases
                match progress {
                    ReadProgress::Started => 2int,
                    ReadProgress::After(MessagePart::Length, Ok(_)) => 1int,
                    ReadProgress::After(_, _) => 0int,
                },
    {
        let ghost before = progress;
        let ghost begun = end;
        match M::read_from(width, progress) {
            ReadStep::ReadExact(at, len) => {
                let outcome = read_exact(stream, end, len);
                if outcome.is_ok() {
                    end = end + len;
                }
                proof {
                    if outcome is Err {
                    } else if before is Started {
                        assert(stream@.subrange(begun as int, begun + size) =~= left.take(size));
                    } else {
                        assert(left.subrange(size, size + len) =~= stream@.subrange(
                            begun as int,
                            begun + len,
                        ));
                        assert(left.skip(size + len) =~= stream@.skip(begun + len));
                    }
                }
                progress = ReadProgress::After(at, outcome);
            },
            ReadStep::Done(Ok(message)) => {
                return Ok((message, end));
            },
            ReadStep::Done(Err(e)) => {
                return Err(e);
            },
        }
    }
}

/// What a receiver finds at the front of a stream: if the stream holds a length and
/// as many bytes behind it as the length says, these bytes and then all others; if
/// not, the part that is cut short.
pub proof fn law_what_a_receiver_finds(width: LengthWidth, stream: Seq<u8>)
    ensures
        ({
            let size = if width == LengthWidth::U64 {
                8int
            } else {
                16int
            };
            let len = crate::frame::body_len(stream.take(size));
            let found = incoming(width, stream);
            &&& stream.len() < size ==> found == Incoming::CutShort(MessagePart::Length)
            &&& size <= stream.len() < size + len ==> found == Incoming::CutShort(MessagePart::Body)
            &&& size + len <= stream.len() ==> (found matches Incoming::Whole(body, rest)
                && body.len() == len && stream == stream.take(size) + body + rest)
        }),
{
    let size = width.spec_size() as int;
    if let Incoming::Whole(body, rest) = incoming(width, stream) {
        assert(stream =~= stream.take(size) + body + rest);
    }
}

/// A binary message is its own body, byte for byte, and a failure in a part of it is
/// reported as one in that part.
pub proof fn law_a_binary_message_is_its_own_body(message: Vec<u8>, body: Seq<u8>, at: MessagePart)
    ensures
        message.body() == message@,
        <Vec<u8> as MessageType>::received_as(body, message) <==> message@ == body,
        <Vec<u8> as MessageType>::part(at) == at,
{
}

/// The body of a header is its name in UTF-8; a body is received as the name that its
/// bytes are read as; and a failure in a part of it is reported as one in that part
/// of the name.
pub proof fn law_a_header_is_its_name(header: Header, body: Seq<u8>, at: MessagePart)
    ensures
        header.body() == vstd::utf8::encode_utf8(header.name@),
        vstd::utf8::decode_utf8(header.body()) == header.name@,
        Header::received_as(body, header) ==> header.name@ == crate::text::utf8_lossy(body),
        Header::received_as(body, header) && vstd::utf8::valid_utf8(body) ==> header.body() == body,
        Header::part(at) == crate::protocol::HeaderMessagePart::Name(at),
{
    vstd::utf8::encode_utf8_decode_utf8(header.name@);
    if Header::received_as(body, header) {
        crate::text::law_bytes_are_read_in_one_way(body, header.name@);
    }
}

} // verus!
