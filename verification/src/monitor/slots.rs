//! The open connections, kept in a slot map.

use vstd::prelude::*;

use crate::monitor::metadata::ConnectionMetadata;

verus! {

/// Identifies an open connection.
#[derive(Debug, Clone, Copy, PartialEq, Eq, Hash, Structural)]
pub struct ConnectionId {
    bits: u64,
}

impl ConnectionId {
    /// The slot that the connection is kept in.
    pub closed spec fn slot(self) -> nat {
        self.bits as nat % 0x1_0000_0000
    }

    /// How often the slot was taken and given up.
    pub closed spec fn version(self) -> nat {
        self.bits as nat / 0x1_0000_0000
    }

    /// The identifier may belong to a connection: its slot is taken.
    pub open spec fn is_taken(self) -> bool {
        self.version() % 2 == 1
    }

    /// The identifier is ordered ahead of another: by slot, and by version where
    /// the slots are the same.
    pub open spec fn spec_before(self, other: ConnectionId) -> bool {
        ||| self.slot() < other.slot()
        ||| self.slot() == other.slot() && self.version() < other.version()
    }

    /// Of two different identifiers, one is ordered ahead of the other.
    pub proof fn lemma_before_is_total(self, other: ConnectionId)
        ensures
            self != other ==> self.spec_before(other) || other.spec_before(self),
            !(self.spec_before(other) && other.spec_before(self)),
    {
        if self.slot() == other.slot() && self.version() == other.version() {
            assert(self.bits == other.bits);
        }
    }

    /// Compares two keys of a `slotmap::DenseSlotMap`, made from the identifiers,
    /// with `<`: a key is smaller than another if its index is, or if its index is
    /// the same and its version is smaller.
    #[verifier::external_body]
    pub(crate) fn before(self, other: ConnectionId) -> (yes: bool)
        requires
            self.is_taken(),
            other.is_taken(),
        ensures
            yes == self.spec_before(other),
    {
        let one = slotmap::DefaultKey::from(slotmap::KeyData::from_ffi(self.bits));
        let another = slotmap::DefaultKey::from(slotmap::KeyData::from_ffi(other.bits));
        one < another
    }
}

/// The open connections.
#[verifier::external_body]
pub struct Slots {
    slots: slotmap::DenseSlotMap<slotmap::DefaultKey, ConnectionMetadata>,
}

/// What a slot map holds, in the sequence in which it hands it out.
pub uninterp spec fn slot_entries(slots: Slots) -> Seq<(ConnectionId, ConnectionMetadata)>;

/// The sequence without the entry at a place, which the last entry takes.
pub open spec fn swap_removed(
    entries: Seq<(ConnectionId, ConnectionMetadata)>,
    at: int,
) -> Seq<(ConnectionId, ConnectionMetadata)> {
    entries.update(at, entries.last()).drop_last()
}

/// The entries hold a connection with this identifier.
pub open spec fn holds(
    entries: Seq<(ConnectionId, ConnectionMetadata)>,
    id: ConnectionId,
) -> bool {
    exists|i: int| 0 <= i < entries.len() && (#[trigger] entries[i]).0 == id
}

impl Slots {
    /// Calls `slotmap::DenseSlotMap::with_key`: the slot map holds nothing.
    #[verifier::external_body]
    pub(crate) fn new() -> (slots: Slots)
        ensures
            slot_entries(slots) == Seq::<(ConnectionId, ConnectionMetadata)>::empty(),
    {
        Slots { slots: slotmap::DenseSlotMap::with_key() }
    }

    /// Calls `slotmap::DenseSlotMap::len`: the number of entries.
    #[verifier::external_body]
    pub(crate) fn len(&self) -> (len: usize)
        ensures
            len == slot_entries(*self).len(),
    {
        self.slots.len()
    }

    /// Calls `slotmap::DenseSlotMap::insert`: the value becomes the last entry,
    /// under a key that no other entry has. Which key that is, is left open. A
    /// slot map that holds all entries that it can makes the call panic.
    #[verifier::external_body]
    pub(crate) fn insert(&mut self, metadata: ConnectionMetadata) -> (id: ConnectionId)
        requires
            slot_entries(*old(self)).len() < 0xffff_fffe,
        ensures
            id.is_taken(),
            !holds(slot_entries(*old(self)), id),
            slot_entries(*final(self)) == slot_entries(*old(self)).push((id, metadata)),
    {
        let key = self.slots.insert(metadata);
        ConnectionId { bits: slotmap::Key::data(&key).as_ffi() }
    }

    /// Calls `slotmap::DenseSlotMap::remove` for a key that is there: the entry is
    /// taken out, the last entry takes its place, and its value is returned.
    #[verifier::external_body]
    pub(crate) fn remove(&mut self, id: ConnectionId) -> (metadata: ConnectionMetadata)
        requires
            holds(slot_entries(*old(self)), id),
        ensures
            forall|at: int|
                0 <= at < slot_entries(*old(self)).len() && (#[trigger] slot_entries(
                    *old(self),
                )[at]).0 == id ==> {
                    &&& metadata == slot_entries(*old(self))[at].1
                    &&& slot_entries(*final(self)) == swap_removed(slot_entries(*old(self)), at)
                },
    {
        let key = slotmap::DefaultKey::from(slotmap::KeyData::from_ffi(id.bits));
        self.slots.remove(key).unwrap()
    }

    /// Calls `slotmap::DenseSlotMap::keys` and collects what it hands out: the
    /// keys of the entries, in sequence.
    #[verifier::external_body]
    pub(crate) fn keys(&self) -> (ids: Vec<ConnectionId>)
        ensures
            ids@ == slot_entries(*self).map_values(
                |entry: (ConnectionId, ConnectionMetadata)| entry.0,
            ),
    {
        self.slots
            .keys()
            .map(|key| ConnectionId { bits: slotmap::Key::data(&key).as_ffi() })
            .collect()
    }

    /// Indexes a `slotmap::DenseSlotMap` with a key that is there: the value of
    /// the entry.
    #[verifier::external_body]
    pub(crate) fn index(&self, id: ConnectionId) -> (metadata: &ConnectionMetadata)
        requires
            holds(slot_entries(*self), id),
        ensures
            forall|at: int|
                0 <= at < slot_entries(*self).len() && (#[trigger] slot_entries(*self)[at]).0 == id
                    ==> *metadata == slot_entries(*self)[at].1,
    {
        let key = slotmap::DefaultKey::from(slotmap::KeyData::from_ffi(id.bits));
        &self.slots[key]
    }
}

/// Identifiers are ordered by their slots; in one slot, the later version is behind.
pub proof fn law_identifiers_are_ordered_by_slot(one: ConnectionId, other: ConnectionId)
    ensures
        one.slot() < other.slot() ==> one.spec_before(other) && !other.spec_before(one),
        one.slot() == other.slot() && one.version() < other.version() ==> one.spec_before(other)
            && !other.spec_before(one),
        one.slot() == other.slot() && one.version() == other.version() ==> one == other
            && !one.spec_before(other),
{
    one.lemma_before_is_total(other);
}

/// Taking an entry out makes the sequence one shorter: the last entry takes the place
/// that came free, and all others stay where they are.
pub proof fn law_the_last_entry_takes_the_free_place(
    entries: Seq<(ConnectionId, ConnectionMetadata)>,
    at: int,
)
    requires
        0 <= at < entries.len(),
    ensures
        ({
            let less = swap_removed(entries, at);
            &&& less.len() == entries.len() - 1
            &&& at < less.len() ==> less[at] == entries[entries.len() - 1]
            &&& forall|i: int| 0 <= i < less.len() && i != at ==> (#[trigger] less[i]) == entries[i]
        }),
{
}

} // verus!
