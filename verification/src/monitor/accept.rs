//! Accepting connections.

use vstd::prelude::*;

use crate::address::PeerAddr;
use crate::io_error::IoError;
use crate::monitor::entries::Entries;
use crate::monitor::metadata::ConnectionMetadata;
use crate::monitor::slots::ConnectionId;
use crate::monitor::{MonitorState, RemoteMonitor};
use crate::protocol::{Header, HeaderMessagePart, MessageError};

verus! {

/// How long a stream is waited for when it is read, in milliseconds.
pub const READ_TIMEOUT_MILLIS: u64 = 2;

/// What happened to the thread that waits for connections.
#[derive(Debug, Clone, Copy, PartialEq, Eq, Structural)]
pub enum ListenerEvent {
    /// It was started.
    Started,
    /// It accepted a connection.
    Accepted,
    /// It failed to accept a connection.
    AcceptFailed,
    /// It handed a connection over.
    HandedOver,
    /// It could not hand a connection over, since nobody takes them any more.
    ReceiverGone,
}

/// What the thread that waits for connections does next.
#[derive(Debug, Clone, Copy, PartialEq, Eq, Structural)]
pub enum ListenerAction {
    /// Wait for a connection.
    Accept,
    /// Hand the connection over.
    HandOver,
    /// Stop.
    Stop,
}

/// What the thread that waits for connections does next.
pub fn listen(event: ListenerEvent) -> (action: ListenerAction)
    ensures
        action == match event {
            ListenerEvent::Accepted => ListenerAction::HandOver,
            ListenerEvent::ReceiverGone => ListenerAction::Stop,
            ListenerEvent::Started | ListenerEvent::AcceptFailed | ListenerEvent::HandedOver =>
                ListenerAction::Accept,
        },
{
    match event {
        ListenerEvent::Accepted => ListenerAction::HandOver,
        ListenerEvent::ReceiverGone => ListenerAction::Stop,
        ListenerEvent::Started | ListenerEvent::AcceptFailed | ListenerEvent::HandedOver =>
            ListenerAction::Accept,
    }
}

/// A failure to take up new connections.
#[derive(Debug, PartialEq, Eq)]
pub enum UpdateStreamsError {
    /// The timeout of the stream from this address could not be set.
    SetTimeout(PeerAddr, IoError),
    /// The header could not be received from this address.
    ReceiveHeader(PeerAddr, MessageError<HeaderMessagePart>),
    /// The thread that accepts connections exited early.
    Disconnected,
}

/// Whether a connection has come in.
#[derive(Debug, PartialEq, Eq)]
pub enum Arrival {
    /// One has, from this address.
    Connection(PeerAddr),
    /// None has yet.
    Empty,
    /// None has, and none will any more.
    Disconnected,
}

/// How far taking up new connections has come. With each stage come the
/// connections that were taken up until then.
#[derive(Debug, PartialEq, Eq)]
pub enum AcceptProgress {
    /// Nothing was done yet.
    Started,
    /// It was asked whether a connection has come in.
    Arrived(Vec<ConnectionMetadata>, Arrival),
    /// The timeout of the stream from this address was set, with this outcome.
    TimeoutSet(Vec<ConnectionMetadata>, PeerAddr, Result<(), IoError>),
    /// The header was asked of the stream from this address, with this outcome.
    HeaderReceived(
        Vec<ConnectionMetadata>,
        PeerAddr,
        Result<Header, MessageError<HeaderMessagePart>>,
    ),
    /// The stream is kept under its identifier.
    Kept(Vec<ConnectionMetadata>),
}

/// What is to be done next to take up new connections. With each step come the
/// connections that were taken up until then.
#[derive(Debug, PartialEq, Eq)]
pub enum AcceptStep {
    /// See whether a connection has come in, without waiting.
    TryAccept(Vec<ConnectionMetadata>),
    /// Set the timeout of the stream that has come in to this many milliseconds.
    SetReadTimeout(Vec<ConnectionMetadata>, PeerAddr, u64),
    /// Receive the header from the stream that has come in.
    ReceiveHeader(Vec<ConnectionMetadata>, PeerAddr),
    /// Keep the stream that has come in under this identifier.
    Keep(Vec<ConnectionMetadata>, ConnectionId),
    /// Nothing: these connections were taken up, or something failed.
    Done(Result<Vec<ConnectionMetadata>, UpdateStreamsError>),
}

/// An open connection has this name.
pub open spec fn has_name(open: Entries, name: Seq<char>) -> bool {
    exists|i: int|
        0 <= i < open.len() && ((#[trigger] open[i]).1.name matches Some(other) && other@ == name)
}

/// What is known of a connection, given its header and the connections that are
/// open already.
///
/// An empty name stands for no name.
pub open spec fn metadata_of(open: Entries, addr: PeerAddr, header: Header) -> ConnectionMetadata {
    ConnectionMetadata {
        addr,
        name: if header.name@.len() == 0 {
            None
        } else {
            Some(header.name)
        },
        name_unique: header.name@.len() > 0 && has_name(open, header.name@),
    }
}

impl RemoteMonitor {
    /// Whether an open connection has this name.
    fn knows_name(&self, name: &String) -> (yes: bool)
        requires
            self@.wf(),
        ensures
            yes == has_name(self@.open, name@),
    {
        let keys = self.streams.keys();
        let mut at: usize = 0;
        while at < keys.len()
            invariant
                self@.wf(),
                at <= keys@.len(),
                keys@ == crate::monitor::entries::ids(self@.open),
                forall|i: int|
                    0 <= i < at ==> !((#[trigger] self@.open[i]).1.name matches Some(other)
                        && other@ == name@),
            decreases keys@.len() - at,
        {
            assert(self@.open[at as int].0 == keys@[at as int]);
            let metadata = self.streams.index(keys[at]);
            assert(*metadata == self@.open[at as int].1);
            if let Some(other) = &metadata.name {
                if *other == *name {
                    return true;
                }
            }
            at = at + 1;
        }
        false
    }

    /// The step that taking up new connections takes next.
    ///
    /// Every connection that has come in is given a timeout, asked for its header,
    /// and kept, until there is none left. The first failure ends it: the
    /// connections that were taken up before stay open, though they are not told
    /// of.
    pub fn receive_connections(&mut self, progress: AcceptProgress) -> (step: AcceptStep)
        requires
            old(self)@.wf(),
            progress matches AcceptProgress::HeaderReceived(_, _, Ok(_)) ==> old(self)@.open.len()
                < 0xffff_fffe,
        ensures
            final(self)@.wf(),
            match progress {
                AcceptProgress::Started => {
                    &&& step matches AcceptStep::TryAccept(opened)
                    &&& opened@ == Seq::<ConnectionMetadata>::empty()
                    &&& final(self)@ == old(self)@
                },
                AcceptProgress::Arrived(opened, Arrival::Connection(addr)) => {
                    &&& step == AcceptStep::SetReadTimeout(opened, addr, READ_TIMEOUT_MILLIS)
                    &&& final(self)@ == old(self)@
                },
                AcceptProgress::Arrived(opened, Arrival::Empty) => {
                    &&& step == AcceptStep::Done(Ok(opened))
                    &&& final(self)@ == old(self)@
                },
                AcceptProgress::Arrived(opened, Arrival::Disconnected) => {
                    &&& step == if opened@.len() == 0 {
                        AcceptStep::Done(Err(UpdateStreamsError::Disconnected))
                    } else {
                        AcceptStep::Done(Ok(opened))
                    }
                    &&& final(self)@ == old(self)@
                },
                AcceptProgress::TimeoutSet(opened, addr, Ok(_)) => {
                    &&& step == AcceptStep::ReceiveHeader(opened, addr)
                    &&& final(self)@ == old(self)@
                },
                AcceptProgress::TimeoutSet(opened, addr, Err(e)) => {
                    &&& step == AcceptStep::Done(Err(UpdateStreamsError::SetTimeout(addr, e)))
                    &&& final(self)@ == old(self)@
                },
                AcceptProgress::HeaderReceived(opened, addr, Ok(header)) => {
                    let metadata = metadata_of(old(self)@.open, addr, header);
                    &&& step matches AcceptStep::Keep(more, id)
                    &&& more@ == opened@.push(metadata)
                    &&& !crate::monitor::slots::holds(old(self)@.open, id)
                    &&& final(self)@ == (MonitorState {
                        open: old(self)@.open.push((id, metadata)),
                        ..old(self)@
                    })
                },
                AcceptProgress::HeaderReceived(opened, addr, Err(e)) => {
                    &&& step == AcceptStep::Done(Err(UpdateStreamsError::ReceiveHeader(addr, e)))
                    &&& final(self)@ == old(self)@
                },
                AcceptProgress::Kept(opened) => {
                    &&& step == AcceptStep::TryAccept(opened)
                    &&& final(self)@ == old(self)@
                },
            },
    {
        match progress {
            AcceptProgress::Started => AcceptStep::TryAccept(Vec::new()),
            AcceptProgress::Arrived(opened, Arrival::Connection(addr)) =>
                AcceptStep::SetReadTimeout(opened, addr, READ_TIMEOUT_MILLIS),
            AcceptProgress::Arrived(opened, Arrival::Empty) => AcceptStep::Done(Ok(opened)),
            AcceptProgress::Arrived(opened, Arrival::Disconnected) => {
                if opened.is_empty() {
                    AcceptStep::Done(Err(UpdateStreamsError::Disconnected))
                } else {
                    AcceptStep::Done(Ok(opened))
                }
            },
            AcceptProgress::TimeoutSet(opened, addr, Ok(_)) => AcceptStep::ReceiveHeader(
                opened,
                addr,
            ),
            AcceptProgress::TimeoutSet(_, addr, Err(e)) => AcceptStep::Done(
                Err(UpdateStreamsError::SetTimeout(addr, e)),
            ),
            AcceptProgress::HeaderReceived(opened, addr, Ok(header)) => {
                let ghost before = self@;
                let name_unique = !header.name.as_str().is_empty() && self.knows_name(&header.name);
                let name = if header.name.as_str().is_empty() {
                    None
                } else {
                    Some(header.name)
                };
                let metadata = ConnectionMetadata { addr, name, name_unique };
                let mut more = opened;
                more.push(metadata.clone());
                let id = self.streams.insert(metadata);
                proof {
                    crate::monitor::entries::lemma_added(before.open, id, metadata);
                }
                AcceptStep::Keep(more, id)
            },
            AcceptProgress::HeaderReceived(_, addr, Err(e)) => AcceptStep::Done(
                Err(UpdateStreamsError::ReceiveHeader(addr, e)),
            ),
            AcceptProgress::Kept(opened) => AcceptStep::TryAccept(opened),
        }
    }
}

/// What is known of a connection: the address that it came from; the name in its
/// header, unless that is empty; and whether a connection of that name, which is not
/// empty, is open already.
pub proof fn law_what_is_known_of_a_connection(open: Entries, addr: PeerAddr, header: Header)
    ensures
        ({
            let metadata = metadata_of(open, addr, header);
            &&& metadata.addr == addr
            &&& header.name@.len() == 0 ==> metadata.name is None && !metadata.name_unique
            &&& header.name@.len() > 0 ==> metadata.name == Some(header.name) && (
            metadata.name_unique <==> exists|i: int|
                0 <= i < open.len() && ((#[trigger] open[i]).1.name matches Some(other) && other@
                    == header.name@))
        }),
{
}

} // verus!
