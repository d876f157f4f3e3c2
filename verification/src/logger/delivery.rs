//! The delivery of a log message to all streams of a logger.
//!
//! The owner of the streams carries out what the delivery says: it is told how
//! the last step went, and says what the next one is.

use vstd::prelude::*;
use vstd::string::StringExecFns;

use crate::frame::{encode_length, LengthWidth};
use crate::io_error::IoError;
use crate::logger::LogFailureStrategy;
use crate::protocol::MessagePart;

verus! {

/// A message on its way to the streams of a logger.
pub struct Delivery {
    length: Vec<u8>,
    body: Vec<u8>,
    fail_strat: LogFailureStrategy,
}

/// What is being delivered.
pub struct Parcel {
    /// The bytes that are sent first.
    pub length: Seq<u8>,
    /// The bytes that are sent next.
    pub body: Seq<u8>,
    /// What happens when the message cannot be sent.
    pub fail_strat: LogFailureStrategy,
}

impl View for Delivery {
    type V = Parcel;

    closed spec fn view(&self) -> Parcel {
        Parcel { length: self.length@, body: self.body@, fail_strat: self.fail_strat }
    }
}

/// What is delivered of a message: its length, and then the message, in UTF-8.
pub open spec fn parcel_of(
    width: LengthWidth,
    fail_strat: LogFailureStrategy,
    message: Seq<char>,
) -> Parcel {
    let body = vstd::utf8::encode_utf8(message);
    Parcel { length: crate::frame::be_bytes(body.len(), width.spec_size()), body, fail_strat }
}

/// A part of the message for one of the streams.
#[derive(Debug, Clone, Copy, PartialEq, Eq, Structural)]
pub struct Cursor {
    /// The stream, by its place among the streams.
    pub stream: usize,
    /// How many streams there are.
    pub count: usize,
    /// The part of the message.
    pub part: MessagePart,
}

/// How far a delivery has come.
#[derive(Debug, PartialEq, Eq)]
pub enum LogProgress {
    /// Nothing was done yet.
    Started,
    /// The streams were locked, and there are this many; or why they could not
    /// be, in words.
    Locked(Result<usize, String>),
    /// The part was handed to the stream, with this outcome.
    Written(Cursor, Result<(), IoError>),
    /// The part could not be written, and the stream was asked for the address of
    /// its other end, which is here as it is written out, if it is known.
    PeerAsked(Cursor, IoError, Option<String>),
}

/// What is to be done next to deliver a message.
#[derive(Debug, PartialEq, Eq)]
pub enum LogStep {
    /// Lock the streams.
    Lock,
    /// Write all bytes of the part to the stream.
    WriteAll(Cursor),
    /// Ask the stream for the address of its other end, so that the failure to
    /// write the part can be described.
    PeerAddr(Cursor, IoError),
    /// Panic with this message.
    Panic(String),
    /// Nothing: the delivery has ended.
    Done,
}

impl Cursor {
    /// The part behind this one: the body follows the length, and the length for
    /// the next stream follows the body. There may be none.
    pub open spec fn spec_next(self) -> Option<Cursor> {
        match self.part {
            MessagePart::Length => Some(Cursor { part: MessagePart::Body, ..self }),
            MessagePart::Body => if self.stream + 1 < self.count {
                Some(
                    Cursor {
                        stream: (self.stream + 1) as usize,
                        part: MessagePart::Length,
                        ..self
                    },
                )
            } else {
                None
            },
        }
    }

    /// The part behind this one.
    fn next(self) -> (next: Option<Cursor>)
        requires
            self.stream < self.count,
        ensures
            next == self.spec_next(),
    {
        match self.part {
            MessagePart::Length => Some(
                Cursor { stream: self.stream, count: self.count, part: MessagePart::Body },
            ),
            MessagePart::Body => {
                if self.stream + 1 < self.count {
                    Some(
                        Cursor {
                            stream: self.stream + 1,
                            count: self.count,
                            part: MessagePart::Length,
                        },
                    )
                } else {
                    None
                }
            },
        }
    }
}

/// The step that starts writing a part, if there is one.
pub open spec fn write_step(at: Option<Cursor>) -> LogStep {
    match at {
        Some(cursor) => LogStep::WriteAll(cursor),
        None => LogStep::Done,
    }
}

/// The description of a failure to write a part to a stream whose other end is
/// at the given address, if that is known.
pub open spec fn failure_text(part: MessagePart, peer: Option<Seq<char>>, error: Seq<char>) -> Seq<
    char,
> {
    (match part {
        MessagePart::Length => "failed to write length of message to "@,
        MessagePart::Body => "failed to write message to "@,
    }) + (match peer {
        Some(addr) => addr,
        None => "a stream"@,
    }) + ": "@ + error
}

/// The description of a failure to write a part to a stream.
fn describe_failure(part: MessagePart, peer: &Option<String>, error: &str) -> (text: String)
    ensures
        text@ == failure_text(
            part,
            match *peer {
                Some(addr) => Some(addr@),
                None => None,
            },
            error@,
        ),
{
    let mut text = match part {
        MessagePart::Length => "failed to write length of message to ".to_owned(),
        MessagePart::Body => "failed to write message to ".to_owned(),
    };
    match peer {
        Some(addr) => {
            text.append(addr.as_str());
        },
        None => {
            text.append("a stream");
        },
    }
    text.append(": ");
    text.append(error);
    text
}

impl LogProgress {
    /// The progress speaks of a stream that is there.
    pub open spec fn is_among_streams(self) -> bool {
        self matches LogProgress::Written(cursor, _) ==> cursor.stream < cursor.count
    }
}

impl Delivery {
    /// The delivery of a message: its length goes first, and then the message, in
    /// UTF-8.
    pub fn new(width: LengthWidth, fail_strat: LogFailureStrategy, message: &str) -> (delivery:
        Delivery)
        ensures
            delivery@ == parcel_of(width, fail_strat, message@),
            delivery@.body.len() <= usize::MAX,
    {
        let body = crate::text::utf8_bytes(message);
        let length = encode_length(width, body.len());
        Delivery { length, body, fail_strat }
    }

    /// The bytes of a part of the message.
    pub fn bytes(&self, part: MessagePart) -> (bytes: &Vec<u8>)
        ensures
            bytes@ == match part {
                MessagePart::Length => self@.length,
                MessagePart::Body => self@.body,
            },
    {
        match part {
            MessagePart::Length => &self.length,
            MessagePart::Body => &self.body,
        }
    }

    /// The step that the delivery takes next.
    ///
    /// Each stream is sent the length of the message and then the message. If
    /// something fails, the failure strategy decides: either the delivery goes on
    /// as if nothing had failed, or it ends in a panic that describes the failure.
    pub fn log(&self, progress: LogProgress) -> (step: LogStep)
        requires
            progress.is_among_streams(),
        ensures
            match progress {
                LogProgress::Started => step == LogStep::Lock,
                LogProgress::Locked(Ok(count)) => step == write_step(
                    if count == 0 {
                        None
                    } else {
                        Some(Cursor { stream: 0, count, part: MessagePart::Length })
                    },
                ),
                LogProgress::Locked(Err(e)) => match self@.fail_strat {
                    LogFailureStrategy::Ignore => step == LogStep::Done,
                    LogFailureStrategy::Panic => step matches LogStep::Panic(text) && text@
                        == "failed to obtain lock for streams: "@ + e@,
                },
                LogProgress::Written(cursor, Ok(_)) => step == write_step(cursor.spec_next()),
                LogProgress::Written(cursor, Err(e)) => match self@.fail_strat {
                    LogFailureStrategy::Ignore => step == write_step(cursor.spec_next()),
                    LogFailureStrategy::Panic => step == LogStep::PeerAddr(cursor, e),
                },
                LogProgress::PeerAsked(cursor, e, peer) => step matches LogStep::Panic(text)
                    && text@ == failure_text(
                    cursor.part,
                    match peer {
                        Some(addr) => Some(addr@),
                        None => None,
                    },
                    e.message@,
                ),
            },
    {
        let next = match progress {
            LogProgress::Started => {
                return LogStep::Lock;
            },
            LogProgress::Locked(Ok(count)) => {
                if count == 0 {
                    None
                } else {
                    Some(Cursor { stream: 0, count, part: MessagePart::Length })
                }
            },
            LogProgress::Locked(Err(e)) => {
                return match self.fail_strat {
                    LogFailureStrategy::Ignore => LogStep::Done,
                    LogFailureStrategy::Panic => {
                        let mut text = "failed to obtain lock for streams: ".to_owned();
                        text.append(e.as_str());
                        LogStep::Panic(text)
                    },
                };
            },
            LogProgress::Written(cursor, Ok(_)) => cursor.next(),
            LogProgress::Written(cursor, Err(e)) => match self.fail_strat {
                LogFailureStrategy::Ignore => cursor.next(),
                LogFailureStrategy::Panic => {
                    return LogStep::PeerAddr(cursor, e);
                },
            },
            LogProgress::PeerAsked(cursor, e, peer) => {
                return LogStep::Panic(describe_failure(cursor.part, &peer, e.message.as_str()));
            },
        };
        match next {
            Some(cursor) => LogStep::WriteAll(cursor),
            None => LogStep::Done,
        }
    }
}

/// A bound on how many parts are left, from a given one on.
pub open spec fn parts_left(at: Option<Cursor>) -> int {
    match at {
        Some(cursor) if cursor.stream < cursor.count => 2 * (cursor.count - cursor.stream) + (
        if cursor.part == MessagePart::Length {
            1int
        } else {
            0int
        }),
        _ => 0,
    }
}

/// The parts that are written from a given one on, as long as nothing makes the
/// delivery panic.
pub open spec fn parts_from(at: Option<Cursor>) -> Seq<Cursor>
    decreases parts_left(at),
{
    match at {
        Some(cursor) if cursor.stream < cursor.count => seq![cursor] + parts_from(
            cursor.spec_next(),
        ),
        _ => Seq::empty(),
    }
}

/// The part that is written as the `i`-th to `count` streams.
pub open spec fn nth_part(count: usize, i: int) -> Cursor {
    Cursor {
        stream: (i / 2) as usize,
        count,
        part: if i % 2 == 0 {
            MessagePart::Length
        } else {
            MessagePart::Body
        },
    }
}

proof fn lemma_parts_from(count: usize, from: int)
    requires
        0 <= from < 2 * count,
    ensures
        parts_from(Some(nth_part(count, from))) == Seq::new(
            (2 * count - from) as nat,
            |i: int| nth_part(count, from + i),
        ),
    decreases 2 * count - from,
{
    let at = nth_part(count, from);
    let parts = Seq::new((2 * count - from) as nat, |i: int| nth_part(count, from + i));
    if from + 1 < 2 * count {
        lemma_parts_from(count, from + 1);
        assert(at.spec_next() == Some(nth_part(count, from + 1)));
        assert(parts =~= seq![at] + Seq::new(
            (2 * count - (from + 1)) as nat,
            |i: int| nth_part(count, from + 1 + i),
        ));
    } else {
        assert(at.spec_next() is None);
        assert(parts_from(at.spec_next()) =~= Seq::empty());
        assert(parts =~= seq![at]);
    }
}

/// A delivery that is not stopped writes to every stream, in order, the length
/// of the message and then the message, each exactly once.
pub proof fn law_every_stream_gets_the_whole_message(count: usize)
    requires
        count > 0,
    ensures
        ({
            let parts = parts_from(Some(Cursor { stream: 0, count, part: MessagePart::Length }));
            &&& parts.len() == 2 * count
            &&& forall|i: int|
                0 <= i < parts.len() ==> (#[trigger] parts[i]).stream == i / 2 && parts[i].count
                    == count && (parts[i].part is Length <==> i % 2 == 0)
        }),
{
    lemma_parts_from(count, 0);
    assert(nth_part(count, 0) == (Cursor { stream: 0, count, part: MessagePart::Length }));
    assert(Seq::new((2 * count - 0) as nat, |i: int| nth_part(count, 0 + i)) =~= Seq::new(
        2 * count as nat,
        |i: int| nth_part(count, i),
    ));
}

/// The parts that a delivery tries to write from a given one on, where `fails`
/// tells for which of them the stream reports a failure.
pub open spec fn parts_tried(
    fail_strat: LogFailureStrategy,
    fails: spec_fn(Cursor) -> bool,
    at: Option<Cursor>,
) -> Seq<Cursor>
    decreases parts_left(at),
{
    match at {
        Some(cursor) if cursor.stream < cursor.count => if fails(cursor) && fail_strat
            == LogFailureStrategy::Panic {
            seq![cursor]
        } else {
            seq![cursor] + parts_tried(fail_strat, fails, cursor.spec_next())
        },
        _ => Seq::empty(),
    }
}

/// With the strategy to ignore failures, every part is tried on every stream,
/// whatever fails.
pub proof fn law_ignored_failures_stop_nothing(fails: spec_fn(Cursor) -> bool, at: Option<Cursor>)
    ensures
        parts_tried(LogFailureStrategy::Ignore, fails, at) == parts_from(at),
    decreases parts_from(at).len(),
{
    match at {
        Some(cursor) if cursor.stream < cursor.count => {
            law_ignored_failures_stop_nothing(fails, cursor.spec_next());
        },
        _ => {},
    }
}

/// With the strategy to panic, the parts are tried in the same order, up to the
/// first that fails and no further.
pub proof fn law_the_first_failure_stops_a_delivery(
    fails: spec_fn(Cursor) -> bool,
    at: Option<Cursor>,
)
    ensures
        ({
            let tried = parts_tried(LogFailureStrategy::Panic, fails, at);
            &&& tried.is_prefix_of(parts_from(at))
            &&& forall|i: int| 0 <= i < tried.len() - 1 ==> !fails(#[trigger] tried[i])
            &&& tried == parts_from(at) || fails(tried.last())
        }),
    decreases parts_from(at).len(),
{
    match at {
        Some(cursor) if cursor.stream < cursor.count => {
            let all = parts_from(at);
            let tried = parts_tried(LogFailureStrategy::Panic, fails, at);
            assert(all[0] == cursor);
            if fails(cursor) {
                assert(tried =~= all.take(1));
            } else {
                let next = cursor.spec_next();
                let later = parts_tried(LogFailureStrategy::Panic, fails, next);
                law_the_first_failure_stops_a_delivery(fails, next);
                assert(tried =~= all.take(tried.len() as int));
                assert forall|i: int| 0 <= i < tried.len() - 1 implies !fails(#[trigger] tried[i]) by {
                    if i > 0 {
                        assert(tried[i] == later[i - 1]);
                    }
                }
            }
        },
        _ => {},
    }
}

/// What a delivery sends to a stream, the length and then the body, is received as
/// one message, and is read as the text that was delivered.
pub proof fn law_a_delivered_message_is_received(
    width: LengthWidth,
    fail_strat: LogFailureStrategy,
    message: Seq<char>,
    rest: Seq<u8>,
)
    requires
        parcel_of(width, fail_strat, message).body.len() <= usize::MAX,
    ensures
        ({
            let parcel = parcel_of(width, fail_strat, message);
            &&& crate::protocol::buffer::incoming(width, parcel.length + parcel.body + rest)
                == crate::protocol::buffer::Incoming::Whole(parcel.body, rest)
            &&& forall|read: Seq<char>| #[trigger]
                crate::text::reads_as(parcel.body, read) ==> read == message
        }),
{
    let parcel = parcel_of(width, fail_strat, message);
    crate::protocol::buffer::law_a_message_is_received_as_sent(width, parcel.body, rest);
    assert forall|read: Seq<char>| #[trigger] crate::text::reads_as(parcel.body, read) implies read
        == message by {
        crate::text::law_text_is_read_as_it_was_sent(message, read);
    }
}

/// What follows a part: the body of the message behind its length, on the same
/// stream; behind the body, the length on the next stream, as long as there is one.
pub proof fn law_what_follows_a_part(cursor: Cursor)
    requires
        cursor.stream < cursor.count,
    ensures
        cursor.part is Length ==> (cursor.spec_next() matches Some(next) && next.stream
            == cursor.stream && next.count == cursor.count && next.part is Body),
        cursor.part is Body && cursor.stream + 1 < cursor.count ==> (
        cursor.spec_next() matches Some(next) && next.stream == cursor.stream + 1 && next.count
            == cursor.count && next.part is Length),
        cursor.part is Body && cursor.stream + 1 == cursor.count ==> cursor.spec_next() is None,
{
}

/// As long as a part is left, that part is written; a delivery has ended exactly when
/// none is.
pub proof fn law_a_part_that_is_left_is_written(at: Option<Cursor>)
    ensures
        at matches Some(cursor) ==> (write_step(at) matches LogStep::WriteAll(written) && written
            == cursor),
        at is None <==> write_step(at) is Done,
{
}

/// What is delivered of a message: all of it, in UTF-8, and ahead of it a length that
/// stands for the number of its bytes.
pub proof fn law_a_parcel_holds_the_whole_message(
    width: LengthWidth,
    fail_strat: LogFailureStrategy,
    message: Seq<char>,
)
    requires
        vstd::utf8::encode_utf8(message).len() <= usize::MAX,
    ensures
        ({
            let parcel = parcel_of(width, fail_strat, message);
            &&& parcel.body == vstd::utf8::encode_utf8(message)
            &&& vstd::utf8::decode_utf8(parcel.body) == message
            &&& parcel.length.len() == width.spec_size()
            &&& crate::frame::be_value(parcel.length) == parcel.body.len()
            &&& parcel.fail_strat == fail_strat
        }),
{
    let body = vstd::utf8::encode_utf8(message);
    vstd::utf8::encode_utf8_decode_utf8(message);
    crate::frame::law_a_frame_is_a_length_and_a_body(width, body);
    crate::frame::lemma_be_bytes_len(body.len(), width.spec_size());
    let size = width.spec_size() as int;
    assert(crate::frame::frame(width, body).take(size) =~= crate::frame::be_bytes(
        body.len(),
        width.spec_size(),
    ));
}

/// What a description of a failure is made of, from the front to the back: what was
/// to be written, where, a colon and a space, and all of the error.
pub proof fn law_a_description_tells_all_of_the_failure(
    part: MessagePart,
    peer: Option<Seq<char>>,
    error: Seq<char>,
)
    ensures
        ({
            let text = failure_text(part, peer, error);
            let what = if part is Length {
                "failed to write length of message to "@
            } else {
                "failed to write message to "@
            };
            let place = if peer is Some {
                peer->0
            } else {
                "a stream"@
            };
            let end = what.len() + place.len() as int;
            &&& text.len() == end + 2 + error.len()
            &&& text.take(what.len() as int) == what
            &&& text.subrange(what.len() as int, end) == place
            &&& text[end] == ':' && text[end + 1] == ' '
            &&& text.skip(end + 2) == error
        }),
{
    reveal_strlit(": ");
    let text = failure_text(part, peer, error);
    let what = match part {
        MessagePart::Length => "failed to write length of message to "@,
        MessagePart::Body => "failed to write message to "@,
    };
    let place = match peer {
        Some(addr) => addr,
        None => "a stream"@,
    };
    let end = what.len() + place.len() as int;
    assert(text.take(what.len() as int) =~= what);
    assert(text.subrange(what.len() as int, end) =~= place);
    assert(text.skip(end + 2) =~= error);
}

} // verus!
