//! The monitor: accepts connections from loggers, and receives their messages.
//!
//! Nothing here touches a stream. What has to be done with streams is split into
//! steps: a function is told how the last step went, and says what the next one
//! is. The owner of the streams, which keeps each of them under the identifier
//! of its connection, carries the steps out.

pub mod accept;
pub mod entries;
pub mod metadata;
pub mod report;
pub mod round;
pub mod slots;

use std::collections::VecDeque;

use vstd::prelude::*;

use crate::io_error::IoError;
use crate::monitor::entries::Entries;
use crate::monitor::metadata::ConnectionMetadata;
use crate::monitor::slots::{ConnectionId, Slots};
use crate::protocol::{MessageError, MessagePart, TryReceiveMessageError};
use crate::text::read_utf8_lossy;

verus! {

/// A failure to read from a stream.
#[derive(Debug, PartialEq, Eq)]
pub enum ReadFromStreamError {
    /// Peeking for new data failed.
    Peek(ConnectionId, IoError),
    /// Receiving a message failed.
    Receive(ConnectionId, MessageError<MessagePart>),
}

/// A round in which every open connection is polled for a message once.
struct Tick {
    ids: Vec<ConnectionId>,
    at: usize,
    closed: Vec<ConnectionId>,
}

/// Receives the messages of all loggers that connect.
pub struct RemoteMonitor {
    streams: Slots,
    closed_streams: Vec<ConnectionMetadata>,
    message_queue: VecDeque<(ConnectionId, String)>,
    tick: Option<Tick>,
}

/// How far a round has come in which every open connection is polled once.
pub struct TickState {
    /// The connections, in the sequence in which they are polled.
    pub ids: Seq<ConnectionId>,
    /// The place of the connection that is being polled.
    pub at: int,
    /// The connections that turned out to be closed.
    pub closed: Seq<ConnectionId>,
}

/// What a monitor holds.
pub struct MonitorState {
    /// The open connections.
    pub open: Entries,
    /// The connections that were closed, and were not told of yet.
    pub closed: Seq<ConnectionMetadata>,
    /// The messages that were received, and were not handed out yet.
    pub queue: Seq<(ConnectionId, Seq<char>)>,
    /// The round in which connections are being polled, if there is one.
    pub tick: Option<TickState>,
}

impl TickState {
    /// The connection that is being polled.
    pub open spec fn current(self) -> ConnectionId {
        self.ids[self.at]
    }

    /// The round fits the open connections and the messages: it polls open
    /// connections, each once; what is closed was polled, and so was what sent a
    /// message, but nothing is both.
    pub open spec fn wf(self, open: Entries, queue: Seq<(ConnectionId, Seq<char>)>) -> bool {
        &&& 0 <= self.at < self.ids.len()
        &&& self.ids.no_duplicates()
        &&& forall|i: int|
            0 <= i < self.ids.len() ==> crate::monitor::slots::holds(open, #[trigger] self.ids[i])
        &&& self.closed.no_duplicates()
        &&& forall|i: int|
            0 <= i < self.closed.len() ==> self.ids.take(self.at).contains(
                #[trigger] self.closed[i],
            )
        &&& forall|i: int|
            0 <= i < queue.len() ==> self.ids.take(self.at).contains((#[trigger] queue[i]).0)
        &&& forall|i: int|
            0 <= i < queue.len() ==> !self.closed.contains((#[trigger] queue[i]).0)
    }
}

impl MonitorState {
    /// Every connection has an identifier of its own, and every message that
    /// waits to be handed out comes from a connection that is open.
    pub open spec fn wf(self) -> bool {
        &&& crate::monitor::entries::entries_wf(self.open)
        &&& forall|i: int|
            0 <= i < self.queue.len() ==> crate::monitor::slots::holds(
                self.open,
                (#[trigger] self.queue[i]).0,
            )
        &&& self.tick matches Some(tick) ==> tick.wf(self.open, self.queue)
    }
}

/// The messages in a queue, with their texts spelled out.
pub open spec fn messages(queue: Seq<(ConnectionId, String)>) -> Seq<(ConnectionId, Seq<char>)> {
    queue.map_values(|message: (ConnectionId, String)| (message.0, message.1@))
}

/// What polling a connection gave.
pub type Polled = Result<Option<Vec<u8>>, TryReceiveMessageError<MessagePart>>;

/// What is to be done next to get the next message.
pub enum NextStep {
    /// Try to receive a message from the stream of this connection.
    Poll(ConnectionId),
    /// Nothing: there is a message, there is none, or something failed.
    Done {
        /// The message, with the connection that it came from.
        next: Result<Option<(ConnectionId, String)>, ReadFromStreamError>,
        /// The connections that are not open any more, in the sequence in which
        /// they were taken out.
        removed: Vec<ConnectionId>,
    },
}

/// The messages that wait after a connection was polled.
pub open spec fn queue_after(
    queue: Seq<(ConnectionId, Seq<char>)>,
    id: ConnectionId,
    polled: Polled,
) -> Seq<(ConnectionId, Seq<char>)> {
    match polled {
        Ok(Some(bytes)) => queue.push((id, crate::text::utf8_lossy(bytes@))),
        _ => queue,
    }
}

/// The connections that turned out to be closed after a connection was polled.
pub open spec fn closed_after(
    closed: Seq<ConnectionId>,
    id: ConnectionId,
    polled: Polled,
) -> Seq<ConnectionId> {
    match polled {
        Err(TryReceiveMessageError::Closed) => closed.push(id),
        _ => closed,
    }
}

/// The step hands out the first message of a queue, if there is one.
pub open spec fn hands_out(
    next: Result<Option<(ConnectionId, String)>, ReadFromStreamError>,
    queue: Seq<(ConnectionId, Seq<char>)>,
) -> bool {
    if queue.len() == 0 {
        next == Ok::<Option<(ConnectionId, String)>, ReadFromStreamError>(None)
    } else {
        next matches Ok(Some((id, text))) && (id, text@) == queue[0]
    }
}

/// A queue after its first message was handed out, if there was one.
pub open spec fn rest(queue: Seq<(ConnectionId, Seq<char>)>) -> Seq<(ConnectionId, Seq<char>)> {
    if queue.len() == 0 {
        queue
    } else {
        queue.drop_first()
    }
}

/// `removed` holds the same connections as `closed`, in descending order.
pub open spec fn arranged(closed: Seq<ConnectionId>, removed: Seq<ConnectionId>) -> bool {
    &&& crate::monitor::entries::descending(removed)
    &&& removed.len() == closed.len()
    &&& forall|id: ConnectionId| #[trigger] removed.contains(id) <==> closed.contains(id)
}

/// What was known of connections, in sequence.
pub open spec fn infos(open: Entries, removed: Seq<ConnectionId>) -> Seq<ConnectionMetadata> {
    removed.map_values(|id: ConnectionId| crate::monitor::entries::info(open, id))
}

/// Sorts identifiers into descending order.
fn sort_descending(ids: &mut Vec<ConnectionId>)
    requires
        old(ids)@.no_duplicates(),
        forall|i: int| 0 <= i < old(ids)@.len() ==> (#[trigger] old(ids)@[i]).is_taken(),
    ensures
        arranged(old(ids)@, final(ids)@),
        final(ids)@.no_duplicates(),
{
    let mut done: usize = 0;
    while done < ids.len()
        invariant
            done <= ids@.len(),
            ids@.len() == old(ids)@.len(),
            ids@.no_duplicates(),
            forall|i: int| 0 <= i < ids@.len() ==> (#[trigger] ids@[i]).is_taken(),
            crate::monitor::entries::descending(ids@.take(done as int)),
            forall|id: ConnectionId| #[trigger] ids@.contains(id) <==> old(ids)@.contains(id),
        decreases ids@.len() - done,
    {
        let moving: ConnectionId = ids[done];
        let mut to: usize = done;
        while to > 0 && ids[to - 1].before(moving)
            invariant
                to <= done < ids@.len(),
                moving == ids@[done as int],
                forall|i: int| 0 <= i < ids@.len() ==> (#[trigger] ids@[i]).is_taken(),
                forall|i: int| to <= i < done ==> (#[trigger] ids@[i]).spec_before(moving),
            decreases to,
        {
            to = to - 1;
        }
        let ghost before = ids@;
        let id = ids.remove(done);
        ids.insert(to, id);
        proof {
            let after = ids@;
            let sorted = before.take(done as int);
            assert forall|i: int| 0 <= i < after.len() implies #[trigger] after[i] == before[moved_from(
                i,
                done as int,
                to as int,
            )] by {}
            assert forall|i: int| 0 <= i < before.len() implies #[trigger] before[i]
                == after[moved_to(i, done as int, to as int)] by {}
            assert forall|i: int, j: int|
                0 <= i < after.len() && 0 <= j < after.len() && i != j implies after[i]
                != after[j] by {
                assert(after[i] == before[moved_from(i, done as int, to as int)]);
                assert(after[j] == before[moved_from(j, done as int, to as int)]);
            }
            assert forall|id: ConnectionId| #[trigger] after.contains(id) <==> old(
                ids,
            )@.contains(id) by {
                if after.contains(id) {
                    let i = choose|i: int| 0 <= i < after.len() && after[i] == id;
                    assert(before[moved_from(i, done as int, to as int)] == id);
                    assert(before.contains(id));
                }
                if before.contains(id) {
                    let i = choose|i: int| 0 <= i < before.len() && before[i] == id;
                    assert(after[moved_to(i, done as int, to as int)] == id);
                }
            }
            assert forall|i: int| 0 <= i < after.len() implies (#[trigger] after[i]).is_taken() by {
                assert(after[i] == before[moved_from(i, done as int, to as int)]);
            }
            assert forall|i: int, j: int| 0 <= i < j < done + 1 implies (#[trigger] after.take(
                done + 1,
            )[j]).spec_before(#[trigger] after.take(done + 1)[i]) by {
                let k = moved_from(i, done as int, to as int);
                let l = moved_from(j, done as int, to as int);
                assert(after[i] == before[k] && after[j] == before[l]);
                if i == to {
                    assert(before[l].spec_before(moving));
                } else if j == to {
                    assert(sorted[i] == before[i] && sorted[to - 1] == before[to - 1]);
                    if i < to - 1 {
                        assert(sorted[to - 1].spec_before(sorted[i]));
                    }
                    assert(!before[to - 1].spec_before(moving));
                    before[to - 1].lemma_before_is_total(moving);
                } else {
                    assert(sorted[k] == before[k] && sorted[l] == before[l]);
                    assert(sorted[l].spec_before(sorted[k]));
                }
            }
        }
        done = done + 1;
    }
    assert(ids@.take(done as int) =~= ids@);
}

/// Where the element at `i` stood before the one at `from` was moved to `to`.
spec fn moved_from(i: int, from: int, to: int) -> int {
    if i == to {
        from
    } else if to < i <= from {
        i - 1
    } else {
        i
    }
}

/// Where the element at `i` stands after the one at `from` was moved to `to`.
spec fn moved_to(i: int, from: int, to: int) -> int {
    if i == from {
        to
    } else if to <= i < from {
        i + 1
    } else {
        i
    }
}

impl View for RemoteMonitor {
    type V = MonitorState;

    closed spec fn view(&self) -> MonitorState {
        MonitorState {
            open: crate::monitor::slots::slot_entries(self.streams),
            closed: self.closed_streams@,
            queue: messages(self.message_queue@),
            tick: match self.tick {
                Some(tick) => Some(
                    TickState { ids: tick.ids@, at: tick.at as int, closed: tick.closed@ },
                ),
                None => None,
            },
        }
    }
}

impl RemoteMonitor {
    /// A monitor without connections.
    pub fn new() -> (monitor: Self)
        ensures
            monitor@.wf(),
            monitor@ == (MonitorState {
                open: Seq::empty(),
                closed: Seq::empty(),
                queue: Seq::empty(),
                tick: None,
            }),
    {
        let monitor = RemoteMonitor {
            streams: Slots::new(),
            closed_streams: Vec::new(),
            message_queue: VecDeque::new(),
            tick: None,
        };
        assert(monitor@.queue =~= Seq::<(ConnectionId, Seq<char>)>::empty());
        monitor
    }

    /// The connections that were closed since this was last asked.
    pub fn closed_connections(&mut self) -> (closed: Vec<ConnectionMetadata>)
        requires
            old(self)@.wf(),
        ensures
            final(self)@.wf(),
            closed@ == old(self)@.closed,
            final(self)@ == (MonitorState { closed: Seq::empty(), ..old(self)@ }),
    {
        let mut closed: Vec<ConnectionMetadata> = Vec::new();
        std::mem::swap(&mut closed, &mut self.closed_streams);
        closed
    }

    /// What is known of an open connection.
    pub fn connection_info(&self, id: ConnectionId) -> (metadata: &ConnectionMetadata)
        requires
            self@.wf(),
            crate::monitor::slots::holds(self@.open, id),
        ensures
            *metadata == crate::monitor::entries::info(self@.open, id),
    {
        proof {
            crate::monitor::entries::lemma_place(self@.open, id);
        }
        self.streams.index(id)
    }

    /// Whether a connection is open.
    pub fn is_open(&self, id: ConnectionId) -> (yes: bool)
        ensures
            yes == crate::monitor::slots::holds(self@.open, id),
    {
        let keys = self.streams.keys();
        let mut at: usize = 0;
        while at < keys.len()
            invariant
                at <= keys@.len(),
                keys@ == crate::monitor::entries::ids(self@.open),
                forall|i: int| 0 <= i < at ==> (#[trigger] self@.open[i]).0 != id,
            decreases keys@.len() - at,
        {
            if keys[at] == id {
                assert(self@.open[at as int].0 == id);
                return true;
            }
            at = at + 1;
        }
        false
    }

    /// The number of open connections.
    pub fn num_connections(&self) -> (count: usize)
        ensures
            count == self@.open.len(),
    {
        self.streams.len()
    }

    /// Whether a round is under way in which connections are polled.
    pub fn is_polling(&self) -> (yes: bool)
        ensures
            yes == (self@.tick is Some),
    {
        self.tick.is_some()
    }

    /// The step that getting the next message starts with.
    ///
    /// A message that waits is handed out. Otherwise, every open connection is
    /// polled for a message once.
    pub fn next_message(&mut self) -> (step: NextStep)
        requires
            old(self)@.wf(),
            old(self)@.tick is None,
        ensures
            final(self)@.wf(),
            if old(self)@.queue.len() == 0 && old(self)@.open.len() > 0 {
                &&& step == NextStep::Poll(old(self)@.open[0].0)
                &&& final(self)@ == (MonitorState {
                    tick: Some(
                        TickState {
                            ids: crate::monitor::entries::ids(old(self)@.open),
                            at: 0,
                            closed: Seq::empty(),
                        },
                    ),
                    ..old(self)@
                })
            } else {
                &&& step matches NextStep::Done { next, removed }
                &&& hands_out(next, old(self)@.queue)
                &&& removed@ == Seq::<ConnectionId>::empty()
                &&& final(self)@ == (MonitorState { queue: rest(old(self)@.queue), ..old(self)@ })
            },
            old(self)@.queue.len() > 0 ==> (step matches NextStep::Done {
                next: Ok(Some((id, text))),
                ..
            } && old(self)@.queue == seq![(id, text@)] + final(self)@.queue),
            step matches NextStep::Done { next: Ok(Some((id, _))), .. }
                ==> crate::monitor::slots::holds(final(self)@.open, id),
    {
        let ghost before = self@;
        proof {
            law_one_message_is_handed_out(before.queue);
        }
        if self.message_queue.len() == 0 {
            let ids = self.streams.keys();
            if !ids.is_empty() {
                let first: ConnectionId = ids[0];
                self.tick = Some(Tick { ids, at: 0, closed: Vec::new() });
                proof {
                    let tick = self@.tick->0;
                    assert(tick.ids == crate::monitor::entries::ids(before.open));
                    assert forall|i: int| 0 <= i < tick.ids.len() implies crate::monitor::slots::holds(
                        self@.open,
                        #[trigger] tick.ids[i],
                    ) by {
                        assert(before.open[i].0 == tick.ids[i]);
                    }
                }
                return NextStep::Poll(first);
            }
        }
        let next = self.hand_out();
        NextStep::Done { next: Ok(next), removed: Vec::new() }
    }

    /// Takes the first message out of the queue, if there is one.
    fn hand_out(&mut self) -> (next: Option<(ConnectionId, String)>)
        requires
            old(self)@.wf(),
            old(self)@.tick is None,
        ensures
            final(self)@.wf(),
            hands_out(
                Ok::<Option<(ConnectionId, String)>, ReadFromStreamError>(next),
                old(self)@.queue,
            ),
            final(self)@ == (MonitorState { queue: rest(old(self)@.queue), ..old(self)@ }),
            next matches Some((id, _)) ==> crate::monitor::slots::holds(final(self)@.open, id),
    {
        let ghost before = self@;
        let next = self.message_queue.pop_front();
        proof {
            assert(self@.queue =~= rest(before.queue));
            if before.queue.len() > 0 {
                assert(crate::monitor::slots::holds(before.open, before.queue[0].0));
                assert forall|i: int| 0 <= i < self@.queue.len() implies crate::monitor::slots::holds(
                    self@.open,
                    (#[trigger] self@.queue[i]).0,
                ) by {
                    assert(self@.queue[i] == before.queue[i + 1]);
                }
            }
        }
        next
    }

    /// The step that getting the next message takes after a connection was
    /// polled.
    ///
    /// The first failure ends the round; what was received until then waits to be
    /// handed out, and the connections that turned out to be closed stay open.
    /// Otherwise, once every connection was polled, the closed ones are taken out,
    /// and a message that waits is handed out.
    pub fn message_tick(&mut self, polled: Polled) -> (step: NextStep)
        requires
            old(self)@.wf(),
            old(self)@.tick is Some,
        ensures
            final(self)@.wf(),
            ({
                let tick = old(self)@.tick->0;
                let id = tick.current();
                let queue = queue_after(old(self)@.queue, id, polled);
                let closed = closed_after(tick.closed, id, polled);
                match polled {
                    Err(TryReceiveMessageError::Peek(e)) => {
                        &&& step matches NextStep::Done { next, removed }
                        &&& next == Err::<Option<(ConnectionId, String)>, ReadFromStreamError>(
                            ReadFromStreamError::Peek(id, e),
                        )
                        &&& removed@ == Seq::<ConnectionId>::empty()
                        &&& final(self)@ == (MonitorState { tick: None, ..old(self)@ })
                    },
                    Err(TryReceiveMessageError::Receive(e)) => {
                        &&& step matches NextStep::Done { next, removed }
                        &&& next == Err::<Option<(ConnectionId, String)>, ReadFromStreamError>(
                            ReadFromStreamError::Receive(id, e),
                        )
                        &&& removed@ == Seq::<ConnectionId>::empty()
                        &&& final(self)@ == (MonitorState { tick: None, ..old(self)@ })
                    },
                    _ => if tick.at + 1 < tick.ids.len() {
                        &&& step == NextStep::Poll(tick.ids[tick.at + 1])
                        &&& final(self)@ == (MonitorState {
                            queue,
                            tick: Some(TickState { at: tick.at + 1, closed, ..tick }),
                            ..old(self)@
                        })
                    } else {
                        &&& step matches NextStep::Done { next, removed }
                        &&& hands_out(next, queue)
                        &&& arranged(closed, removed@)
                        &&& final(self)@ == (MonitorState {
                            open: crate::monitor::entries::without(old(self)@.open, removed@),
                            closed: old(self)@.closed + infos(old(self)@.open, removed@),
                            queue: rest(queue),
                            tick: None,
                        })
                    },
                }
            }),
            step matches NextStep::Done { next: Ok(Some((id, _))), .. }
                ==> crate::monitor::slots::holds(final(self)@.open, id),
            polled matches Ok(Some(bytes)) ==> crate::text::reads_as(
                bytes@,
                queue_after(old(self)@.queue, old(self)@.tick->0.current(), polled).last().1,
            ),
    {
        let ghost before = self@;
        let ghost was = before.tick->0;
        let mut tick = self.tick.take().unwrap();
        let id: ConnectionId = tick.ids[tick.at];
        proof {
            assert(crate::monitor::slots::holds(before.open, was.ids[was.at]));
        }
        match polled {
            Ok(None) => {},
            Ok(Some(bytes)) => {
                self.message_queue.push_back((id, read_utf8_lossy(&bytes)));
                assert(self@.queue =~= queue_after(before.queue, id, polled));
            },
            Err(TryReceiveMessageError::Closed) => {
                tick.closed.push(id);
            },
            Err(TryReceiveMessageError::Peek(e)) => {
                return NextStep::Done {
                    next: Err(ReadFromStreamError::Peek(id, e)),
                    removed: Vec::new(),
                };
            },
            Err(TryReceiveMessageError::Receive(e)) => {
                return NextStep::Done {
                    next: Err(ReadFromStreamError::Receive(id, e)),
                    removed: Vec::new(),
                };
            },
        }
        let ghost queue = queue_after(before.queue, id, polled);
        let ghost closed = closed_after(was.closed, id, polled);
        proof {
            lemma_polled(was, before.open, before.queue, polled);
        }
        let total: usize = tick.ids.len();
        tick.at = tick.at + 1;
        if tick.at < total {
            let next: ConnectionId = tick.ids[tick.at];
            self.tick = Some(tick);
            return NextStep::Poll(next);
        }
        let removed = self.remove_closed(tick.closed);
        proof {
            assert forall|i: int| 0 <= i < queue.len() implies crate::monitor::slots::holds(
                self@.open,
                (#[trigger] queue[i]).0,
            ) by {
                assert(!closed.contains(queue[i].0));
                assert(!removed@.contains(queue[i].0));
            }
        }
        let next = self.hand_out();
        NextStep::Done { next: Ok(next), removed }
    }

    /// Takes connections out, in descending order, and remembers what was known of
    /// them.
    fn remove_closed(&mut self, closed: Vec<ConnectionId>) -> (removed: Vec<ConnectionId>)
        requires
            crate::monitor::entries::entries_wf(old(self)@.open),
            closed@.no_duplicates(),
            forall|i: int|
                0 <= i < closed@.len() ==> crate::monitor::slots::holds(
                    old(self)@.open,
                    #[trigger] closed@[i],
                ),
        ensures
            arranged(closed@, removed@),
            final(self)@ == (MonitorState {
                open: crate::monitor::entries::without(old(self)@.open, removed@),
                closed: old(self)@.closed + infos(old(self)@.open, removed@),
                ..old(self)@
            }),
            crate::monitor::entries::entries_wf(final(self)@.open),
            forall|id: ConnectionId| #[trigger]
                crate::monitor::slots::holds(final(self)@.open, id) <==> {
                    &&& crate::monitor::slots::holds(old(self)@.open, id)
                    &&& !removed@.contains(id)
                },
    {
        let ghost open = self@.open;
        let mut removed = closed;
        proof {
            assert forall|i: int| 0 <= i < removed@.len() implies (
            #[trigger] removed@[i]).is_taken() by {
                crate::monitor::entries::lemma_place(open, closed@[i]);
            }
        }
        sort_descending(&mut removed);
        proof {
            assert forall|i: int| 0 <= i < removed@.len() implies crate::monitor::slots::holds(
                open,
                #[trigger] removed@[i],
            ) by {
                assert(removed@.contains(removed@[i]));
                let k = choose|k: int| 0 <= k < closed@.len() && closed@[k] == removed@[i];
                assert(crate::monitor::slots::holds(open, closed@[k]));
            }
            assert(removed@.take(0) =~= Seq::<ConnectionId>::empty());
            assert(self@.closed =~= old(self)@.closed + infos(open, removed@.take(0)));
        }
        let mut at: usize = 0;
        while at < removed.len()
            invariant
                at <= removed@.len(),
                open == old(self)@.open,
                crate::monitor::entries::entries_wf(open),
                removed@.no_duplicates(),
                forall|i: int|
                    0 <= i < removed@.len() ==> crate::monitor::slots::holds(
                        open,
                        #[trigger] removed@[i],
                    ),
                self@ == (MonitorState {
                    open: crate::monitor::entries::without(open, removed@.take(at as int)),
                    closed: old(self)@.closed + infos(open, removed@.take(at as int)),
                    ..old(self)@
                }),
            decreases removed@.len() - at,
        {
            let id: ConnectionId = removed[at];
            let ghost gone = removed@.take(at as int);
            let ghost left = self@.open;
            proof {
                assert forall|i: int| 0 <= i < gone.len() implies crate::monitor::slots::holds(
                    open,
                    #[trigger] gone[i],
                ) by {
                    assert(gone[i] == removed@[i]);
                }
                crate::monitor::entries::law_only_removed_connections_are_gone(open, gone);
                assert(!gone.contains(id));
                assert(crate::monitor::slots::holds(left, id));
                crate::monitor::entries::lemma_place(left, id);
            }
            let metadata = self.streams.remove(id);
            self.closed_streams.push(metadata);
            proof {
                assert(removed@.take(at + 1).drop_last() =~= gone);
                assert(self@.open == crate::monitor::entries::without_one(left, id));
                assert(infos(open, removed@.take(at + 1)) =~= infos(open, gone).push(metadata));
                assert(self@.closed =~= old(self)@.closed + infos(open, removed@.take(at + 1)));
            }
            at = at + 1;
        }
        proof {
            assert(removed@.take(at as int) =~= removed@);
            crate::monitor::entries::law_only_removed_connections_are_gone(open, removed@);
        }
        removed
    }
}

/// Polling a connection keeps a round fitting.
proof fn lemma_polled(
    tick: TickState,
    open: Entries,
    queue: Seq<(ConnectionId, Seq<char>)>,
    polled: Polled,
)
    requires
        tick.wf(open, queue),
    ensures
        ({
            let id = tick.current();
            let queue = queue_after(queue, id, polled);
            let closed = closed_after(tick.closed, id, polled);
            &&& closed.no_duplicates()
            &&& forall|i: int|
                0 <= i < closed.len() ==> tick.ids.take(tick.at + 1).contains(#[trigger] closed[i])
            &&& forall|i: int|
                0 <= i < closed.len() ==> crate::monitor::slots::holds(open, #[trigger] closed[i])
            &&& forall|i: int|
                0 <= i < queue.len() ==> tick.ids.take(tick.at + 1).contains(
                    (#[trigger] queue[i]).0,
                )
            &&& forall|i: int|
                0 <= i < queue.len() ==> crate::monitor::slots::holds(
                    open,
                    (#[trigger] queue[i]).0,
                )
            &&& forall|i: int| 0 <= i < queue.len() ==> !closed.contains((#[trigger] queue[i]).0)
        }),
{
    let id = tick.current();
    let seen = tick.ids.take(tick.at);
    let now = tick.ids.take(tick.at + 1);
    let queue_now = queue_after(queue, id, polled);
    let closed_now = closed_after(tick.closed, id, polled);
    assert(now =~= seen.push(id));
    assert(now[tick.at] == id);
    assert(!seen.contains(id)) by {
        if seen.contains(id) {
            let i = choose|i: int| 0 <= i < seen.len() && seen[i] == id;
            assert(tick.ids[i] == tick.ids[tick.at]);
        }
    }
    assert forall|other: ConnectionId| #[trigger] seen.contains(other) implies now.contains(other)
        && crate::monitor::slots::holds(open, other) by {
        let i = choose|i: int| 0 <= i < seen.len() && seen[i] == other;
        assert(now[i] == other);
        assert(tick.ids[i] == other);
    }
    assert(crate::monitor::slots::holds(open, tick.ids[tick.at]));
    assert forall|i: int| 0 <= i < closed_now.len() implies now.contains(#[trigger] closed_now[i])
        && crate::monitor::slots::holds(open, closed_now[i]) by {
        if i < tick.closed.len() {
            assert(closed_now[i] == tick.closed[i]);
        }
    }
    assert forall|i: int| 0 <= i < queue_now.len() implies now.contains((#[trigger] queue_now[i]).0)
        && crate::monitor::slots::holds(open, queue_now[i].0) && !closed_now.contains(
        queue_now[i].0,
    ) by {
        if i < queue.len() {
            assert(queue_now[i] == queue[i]);
            assert(seen.contains(queue[i].0));
            if closed_now.contains(queue[i].0) {
                let k = choose|k: int| 0 <= k < closed_now.len() && closed_now[k] == queue[i].0;
                if k < tick.closed.len() {
                    assert(tick.closed[k] == queue[i].0);
                }
            }
        } else {
            if closed_now.contains(id) {
                let k = choose|k: int| 0 <= k < closed_now.len() && closed_now[k] == id;
                assert(seen.contains(tick.closed[k]));
            }
        }
    }
    assert forall|i: int, j: int|
        0 <= i < closed_now.len() && 0 <= j < closed_now.len() && i != j implies closed_now[i]
        != closed_now[j] by {
        if i < tick.closed.len() {
            assert(seen.contains(tick.closed[i]));
        }
        if j < tick.closed.len() {
            assert(seen.contains(tick.closed[j]));
        }
    }
}

/// Handing out takes the first message from a queue and leaves all others, in order:
/// what is handed out and what is left make the queue. Of an empty queue, nothing is
/// handed out, and nothing is left.
pub proof fn law_one_message_is_handed_out(queue: Seq<(ConnectionId, Seq<char>)>)
    ensures
        queue.len() == 0 ==> rest(queue).len() == 0,
        queue.len() > 0 ==> rest(queue).len() == queue.len() - 1,
        forall|i: int| 0 <= i < rest(queue).len() ==> (#[trigger] rest(queue)[i]) == queue[i + 1],
        forall|next: Result<Option<(ConnectionId, String)>, ReadFromStreamError>| #[trigger]
            hands_out(next, queue) ==> match next {
                Ok(Some((id, text))) => queue == seq![(id, text@)] + rest(queue),
                Ok(None) => queue.len() == 0,
                Err(_) => false,
            },
{
    if queue.len() > 0 {
        assert(queue =~= seq![queue[0]] + rest(queue));
    }
}

/// What is left of a queue after a number of messages were handed out.
pub open spec fn left_after(queue: Seq<(ConnectionId, Seq<char>)>, calls: nat) -> Seq<
    (ConnectionId, Seq<char>),
>
    decreases calls,
{
    if calls == 0 {
        queue
    } else {
        rest(left_after(queue, (calls - 1) as nat))
    }
}

/// Over repeated calls, the messages of a queue are handed out each once, in order:
/// the call after `calls` others hands out the message at that place, and when all
/// were handed out, nothing is left.
pub proof fn law_messages_are_handed_out_each_once_in_order(
    queue: Seq<(ConnectionId, Seq<char>)>,
    calls: nat,
    next: Result<Option<(ConnectionId, String)>, ReadFromStreamError>,
)
    requires
        calls <= queue.len(),
    ensures
        left_after(queue, calls) == queue.skip(calls as int),
        hands_out(next, left_after(queue, calls)) ==> match next {
            Ok(Some((id, text))) => calls < queue.len() && queue[calls as int] == (id, text@),
            Ok(None) => calls == queue.len(),
            Err(_) => false,
        },
    decreases calls,
{
    if calls > 0 {
        let before = left_after(queue, (calls - 1) as nat);
        law_messages_are_handed_out_each_once_in_order(queue, (calls - 1) as nat, next);
        law_one_message_is_handed_out(before);
        assert(rest(before) =~= queue.skip(calls as int));
    } else {
        assert(queue.skip(0) =~= queue);
    }
    law_one_message_is_handed_out(left_after(queue, calls));
}

/// Polling a connection puts a message that it had behind those that wait, under the
/// identifier of the connection, and does nothing else to them; if it turned out to
/// be closed, it is put behind those that did before, and nothing else is.
pub proof fn law_what_polling_adds(
    queue: Seq<(ConnectionId, Seq<char>)>,
    closed: Seq<ConnectionId>,
    id: ConnectionId,
    polled: Polled,
)
    ensures
        ({
            let after = queue_after(queue, id, polled);
            &&& queue.is_prefix_of(after)
            &&& match polled {
                Ok(Some(bytes)) => after.len() == queue.len() + 1 && after[queue.len() as int].0
                    == id && after[queue.len() as int].1 == crate::text::utf8_lossy(bytes@),
                _ => after.len() == queue.len(),
            }
        }),
        ({
            let after = closed_after(closed, id, polled);
            &&& closed.is_prefix_of(after)
            &&& match polled {
                Err(TryReceiveMessageError::Closed) => after.len() == closed.len() + 1
                    && after[closed.len() as int] == id,
                _ => after.len() == closed.len(),
            }
        }),
{
    assert(queue.is_prefix_of(queue_after(queue, id, polled)));
    assert(closed.is_prefix_of(closed_after(closed, id, polled)));
}

/// The connections that are taken out are those that turned out to be closed, each
/// once, the later ones in the order of the identifiers first, and what was known of
/// them is kept in the same sequence.
pub proof fn law_what_is_closed_is_taken_out(
    open: Entries,
    closed: Seq<ConnectionId>,
    removed: Seq<ConnectionId>,
)
    requires
        arranged(closed, removed),
        crate::monitor::entries::entries_wf(open),
    ensures
        removed.len() == closed.len(),
        removed.no_duplicates(),
        forall|id: ConnectionId| #[trigger] removed.contains(id) <==> closed.contains(id),
        forall|i: int, j: int|
            0 <= i < j < removed.len() ==> (#[trigger] removed[j]).spec_before(
                #[trigger] removed[i],
            ),
        infos(open, removed).len() == removed.len(),
        forall|i: int, at: int|
            0 <= i < removed.len() && 0 <= at < open.len() && (#[trigger] open[at]).0 == removed[i]
                ==> (#[trigger] infos(open, removed)[i]) == open[at].1,
{
    assert forall|i: int, j: int|
        0 <= i < removed.len() && 0 <= j < removed.len() && i != j implies removed[i]
        != removed[j] by {
        if i < j {
            assert(removed[j].spec_before(removed[i]));
        } else {
            assert(removed[i].spec_before(removed[j]));
        }
    }
    assert forall|i: int, at: int|
        0 <= i < removed.len() && 0 <= at < open.len() && (#[trigger] open[at]).0
            == removed[i] implies (#[trigger] infos(open, removed)[i]) == open[at].1 by {
        crate::monitor::entries::law_what_is_known_stands_beside_the_identifier(open, at);
    }
}

/// Each message of a queue stands at its place, with its connection and its text.
pub proof fn law_messages_keep_their_places(queue: Seq<(ConnectionId, String)>)
    ensures
        messages(queue).len() == queue.len(),
        forall|i: int|
            0 <= i < queue.len() ==> (#[trigger] messages(queue)[i]).0 == queue[i].0 && messages(
                queue,
            )[i].1 == queue[i].1@,
{
}

/// The connection that is being polled is the one whose turn it is: each round takes
/// the connections one after the other.
pub proof fn law_connections_are_polled_in_turn(tick: TickState)
    ensures
        tick.current() == tick.ids[tick.at],
{
}

} // verus!
