//! Open connections as a sequence: looking them up and taking them out.

use vstd::prelude::*;

use crate::monitor::metadata::ConnectionMetadata;
use crate::monitor::slots::ConnectionId;

verus! {

/// Connections with their identifiers.
pub type Entries = Seq<(ConnectionId, ConnectionMetadata)>;

/// The identifiers of the connections.
pub open spec fn ids(entries: Entries) -> Seq<ConnectionId> {
    entries.map_values(|entry: (ConnectionId, ConnectionMetadata)| entry.0)
}

/// Every connection has an identifier of its own, and its slot is taken.
pub open spec fn entries_wf(entries: Entries) -> bool {
    &&& ids(entries).no_duplicates()
    &&& forall|i: int| 0 <= i < entries.len() ==> (#[trigger] entries[i]).0.is_taken()
}

/// The place of a connection.
pub open spec fn place(entries: Entries, id: ConnectionId) -> int {
    choose|i: int| 0 <= i < entries.len() && (#[trigger] entries[i]).0 == id
}

/// What is known of a connection.
pub open spec fn info(entries: Entries, id: ConnectionId) -> ConnectionMetadata {
    entries[place(entries, id)].1
}

/// What is left when a connection is taken out.
pub open spec fn without_one(entries: Entries, id: ConnectionId) -> Entries {
    crate::monitor::slots::swap_removed(entries, place(entries, id))
}

/// What is left when connections are taken out one after the other.
pub open spec fn without(entries: Entries, removed: Seq<ConnectionId>) -> Entries
    decreases removed.len(),
{
    if removed.len() == 0 {
        entries
    } else {
        without_one(without(entries, removed.drop_last()), removed.last())
    }
}

/// The identifiers are in descending order.
pub open spec fn descending(removed: Seq<ConnectionId>) -> bool {
    forall|i: int, j: int|
        0 <= i < j < removed.len() ==> (#[trigger] removed[j]).spec_before(#[trigger] removed[i])
}

/// A connection that is there stands at its place.
pub proof fn lemma_place(entries: Entries, id: ConnectionId)
    requires
        crate::monitor::slots::holds(entries, id),
    ensures
        0 <= place(entries, id) < entries.len(),
        entries[place(entries, id)].0 == id,
{
}

/// A connection that stands at a place has no other.
pub proof fn lemma_only_place(entries: Entries, at: int)
    requires
        entries_wf(entries),
        0 <= at < entries.len(),
    ensures
        place(entries, entries[at].0) == at,
        info(entries, entries[at].0) == entries[at].1,
{
    let there = place(entries, entries[at].0);
    assert(entries[at].0 == entries[at].0);
    assert(ids(entries)[there] == ids(entries)[at]);
}

/// Adding a connection keeps the others and what is known of them.
pub proof fn lemma_added(entries: Entries, id: ConnectionId, metadata: ConnectionMetadata)
    requires
        entries_wf(entries),
        id.is_taken(),
        !crate::monitor::slots::holds(entries, id),
    ensures
        entries_wf(entries.push((id, metadata))),
        crate::monitor::slots::holds(entries.push((id, metadata)), id),
        info(entries.push((id, metadata)), id) == metadata,
        forall|other: ConnectionId| #[trigger]
            crate::monitor::slots::holds(entries, other) ==> crate::monitor::slots::holds(
                entries.push((id, metadata)),
                other,
            ) && info(entries.push((id, metadata)), other) == info(entries, other),
{
    let more = entries.push((id, metadata));
    assert forall|i: int, j: int|
        0 <= i < more.len() && 0 <= j < more.len() && i != j implies ids(more)[i] != ids(more)[j] by {
        if i < entries.len() && j < entries.len() {
            assert(ids(entries)[i] != ids(entries)[j]);
        } else if i < entries.len() {
            assert(entries[i].0 != id);
        } else {
            assert(entries[j].0 != id);
        }
    }
    assert forall|i: int| 0 <= i < more.len() implies (#[trigger] more[i]).0.is_taken() by {
        if i < entries.len() {
            assert(more[i] == entries[i]);
        }
    }
    assert(more[entries.len() as int].0 == id);
    lemma_only_place(more, entries.len() as int);
    assert forall|other: ConnectionId| #[trigger]
        crate::monitor::slots::holds(entries, other) implies crate::monitor::slots::holds(
        more,
        other,
    ) && info(more, other) == info(entries, other) by {
        let at = place(entries, other);
        assert(more[at] == entries[at]);
        lemma_only_place(more, at);
        lemma_only_place(entries, at);
    }
}

/// Taking a connection out keeps the others and what is known of them.
pub proof fn lemma_taken_out(entries: Entries, id: ConnectionId)
    requires
        entries_wf(entries),
        crate::monitor::slots::holds(entries, id),
    ensures
        entries_wf(without_one(entries, id)),
        without_one(entries, id).len() == entries.len() - 1,
        !crate::monitor::slots::holds(without_one(entries, id), id),
        forall|other: ConnectionId|
            other != id ==> (#[trigger] crate::monitor::slots::holds(
                without_one(entries, id),
                other,
            ) <==> crate::monitor::slots::holds(entries, other)),
        forall|other: ConnectionId| #[trigger]
            crate::monitor::slots::holds(without_one(entries, id), other) ==> info(
                without_one(entries, id),
                other,
            ) == info(entries, other),
{
    let at = place(entries, id);
    let less = without_one(entries, id);
    let last = entries.len() - 1;
    lemma_place(entries, id);
    assert forall|i: int| 0 <= i < less.len() implies #[trigger] less[i] == entries[if i == at {
        last
    } else {
        i
    }] by {}
    assert forall|i: int, j: int|
        0 <= i < less.len() && 0 <= j < less.len() && i != j implies ids(less)[i] != ids(less)[j] by {
        let k = if i == at {
            last
        } else {
            i
        };
        let l = if j == at {
            last
        } else {
            j
        };
        assert(less[i] == entries[k] && less[j] == entries[l]);
        assert(ids(entries)[k] != ids(entries)[l]);
    }
    assert forall|i: int| 0 <= i < less.len() implies (#[trigger] less[i]).0.is_taken()
        && less[i].0 != id by {
        let k = if i == at {
            last
        } else {
            i
        };
        assert(less[i] == entries[k]);
        assert(ids(entries)[k] != ids(entries)[at]);
    }
    assert forall|other: ConnectionId| other != id implies (#[trigger] crate::monitor::slots::holds(
        less,
        other,
    ) <==> crate::monitor::slots::holds(entries, other)) by {
        if crate::monitor::slots::holds(less, other) {
            let i = place(less, other);
            let k = if i == at {
                last
            } else {
                i
            };
            assert(entries[k].0 == other);
        }
        if crate::monitor::slots::holds(entries, other) {
            let k = place(entries, other);
            let i = if k == last {
                at
            } else {
                k
            };
            assert(less[i].0 == other);
        }
    }
    assert forall|other: ConnectionId| #[trigger]
        crate::monitor::slots::holds(less, other) implies info(less, other) == info(
        entries,
        other,
    ) by {
        let i = place(less, other);
        let k = if i == at {
            last
        } else {
            i
        };
        lemma_place(less, other);
        assert(less[i] == entries[k]);
        lemma_only_place(entries, k);
    }
}

/// Taking connections out leaves exactly the others, and what is known of them.
pub proof fn law_only_removed_connections_are_gone(entries: Entries, removed: Seq<ConnectionId>)
    requires
        entries_wf(entries),
        removed.no_duplicates(),
        forall|i: int|
            0 <= i < removed.len() ==> crate::monitor::slots::holds(entries, #[trigger] removed[i]),
    ensures
        entries_wf(without(entries, removed)),
        without(entries, removed).len() == entries.len() - removed.len(),
        forall|id: ConnectionId| #[trigger]
            crate::monitor::slots::holds(without(entries, removed), id) <==> {
                &&& crate::monitor::slots::holds(entries, id)
                &&& !removed.contains(id)
            },
        forall|id: ConnectionId| #[trigger]
            crate::monitor::slots::holds(without(entries, removed), id) ==> info(
                without(entries, removed),
                id,
            ) == info(entries, id),
    decreases removed.len(),
{
    if removed.len() > 0 {
        let before = removed.drop_last();
        let last = removed.last();
        assert forall|i: int| 0 <= i < before.len() implies crate::monitor::slots::holds(
            entries,
            #[trigger] before[i],
        ) by {
            assert(before[i] == removed[i]);
        }
        law_only_removed_connections_are_gone(entries, before);
        assert(removed[removed.len() - 1] == last);
        assert(!before.contains(last));
        lemma_taken_out(without(entries, before), last);
        assert forall|id: ConnectionId| #[trigger]
            crate::monitor::slots::holds(without(entries, removed), id) <==> (
        crate::monitor::slots::holds(entries, id) && !removed.contains(id)) by {
            if removed.contains(id) && id != last {
                let i = choose|i: int| 0 <= i < removed.len() && removed[i] == id;
                assert(before[i] == id);
            }
            if before.contains(id) {
                let i = choose|i: int| 0 <= i < before.len() && before[i] == id;
                assert(removed[i] == id);
            }
        }
    }
}

/// Connections can be put into descending order in one way only.
pub proof fn law_descending_in_one_way(one: Seq<ConnectionId>, other: Seq<ConnectionId>)
    requires
        descending(one),
        descending(other),
        forall|id: ConnectionId| #[trigger] one.contains(id) <==> other.contains(id),
    ensures
        one == other,
    decreases one.len(),
{
    if one.len() == 0 || other.len() == 0 {
        if one.len() > 0 {
            assert(one.contains(one[0]));
        }
        if other.len() > 0 {
            assert(other.contains(other[0]));
            assert(one.contains(other[0]));
        }
        assert(one =~= other);
    } else {
        let last = one.last();
        let end = other.last();
        assert(one[one.len() - 1] == last && one.contains(last));
        assert(other.contains(last));
        assert(other[other.len() - 1] == end && other.contains(end));
        assert(one.contains(end));
        let i = choose|i: int| 0 <= i < other.len() && other[i] == last;
        let j = choose|j: int| 0 <= j < one.len() && one[j] == end;
        if last != end {
            assert(other[other.len() - 1].spec_before(other[i]));
            assert(one[one.len() - 1].spec_before(one[j]));
            last.lemma_before_is_total(end);
        }
        lemma_all_but_last(one);
        lemma_all_but_last(other);
        assert forall|id: ConnectionId| #[trigger] one.drop_last().contains(id)
            <==> other.drop_last().contains(id) by {
            assert(one.contains(id) <==> other.contains(id));
            assert(other.drop_last().contains(id) <==> other.contains(id) && id != last);
        }
        law_descending_in_one_way(one.drop_last(), other.drop_last());
        assert(one =~= one.drop_last().push(last));
        assert(other =~= other.drop_last().push(last));
    }
}

proof fn lemma_all_but_last(sorted: Seq<ConnectionId>)
    requires
        descending(sorted),
        sorted.len() > 0,
    ensures
        descending(sorted.drop_last()),
        forall|id: ConnectionId| #[trigger]
            sorted.drop_last().contains(id) <==> sorted.contains(id) && id != sorted.last(),
{
    let start = sorted.drop_last();
    let last = sorted.last();
    assert forall|i: int, j: int| 0 <= i < j < start.len() implies (
    #[trigger] start[j]).spec_before(#[trigger] start[i]) by {
        assert(start[i] == sorted[i] && start[j] == sorted[j]);
    }
    assert forall|id: ConnectionId| #[trigger] start.contains(id) <==> sorted.contains(id) && id
        != last by {
        if start.contains(id) {
            let i = choose|i: int| 0 <= i < start.len() && start[i] == id;
            assert(sorted[i] == id);
            assert(sorted[sorted.len() - 1].spec_before(sorted[i]));
        }
        if sorted.contains(id) && id != last {
            let i = choose|i: int| 0 <= i < sorted.len() && sorted[i] == id;
            assert(start[i] == id);
        }
    }
}

/// The identifiers are those of the connections, each at its place, and a connection
/// is held exactly if its identifier is among them.
pub proof fn law_identifiers_stand_at_their_places(entries: Entries, id: ConnectionId)
    ensures
        ids(entries).len() == entries.len(),
        forall|i: int| 0 <= i < entries.len() ==> (#[trigger] ids(entries)[i]) == entries[i].0,
        crate::monitor::slots::holds(entries, id) <==> ids(entries).contains(id),
{
    if crate::monitor::slots::holds(entries, id) {
        let i = choose|i: int| 0 <= i < entries.len() && (#[trigger] entries[i]).0 == id;
        assert(ids(entries)[i] == id);
    }
    if ids(entries).contains(id) {
        let i = choose|i: int| 0 <= i < ids(entries).len() && ids(entries)[i] == id;
        assert(entries[i].0 == id);
    }
}

/// What is known of a connection is what stands beside its identifier.
pub proof fn law_what_is_known_stands_beside_the_identifier(entries: Entries, at: int)
    requires
        entries_wf(entries),
        0 <= at < entries.len(),
    ensures
        info(entries, entries[at].0) == entries[at].1,
{
    lemma_only_place(entries, at);
}

/// Taking connections out is taking out one after the other: each leaves its place to
/// the last, and nothing else moves.
pub proof fn law_connections_are_taken_out_one_by_one(
    entries: Entries,
    removed: Seq<ConnectionId>,
    at: int,
)
    requires
        entries_wf(without(entries, removed)),
        0 <= at < without(entries, removed).len(),
    ensures
        without(entries, Seq::empty()) == entries,
        ({
            let before = without(entries, removed);
            let after = without(entries, removed.push(before[at].0));
            &&& after.len() == before.len() - 1
            &&& at < after.len() ==> after[at] == before[before.len() - 1]
            &&& forall|i: int|
                0 <= i < after.len() && i != at ==> (#[trigger] after[i]) == before[i]
        }),
{
    let before = without(entries, removed);
    lemma_only_place(before, at);
    assert(removed.push(before[at].0).drop_last() =~= removed);
    crate::monitor::slots::law_the_last_entry_takes_the_free_place(before, at);
}

} // verus!
