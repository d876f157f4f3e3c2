//! What a whole round comes to in which every open connection is polled once.

use vstd::prelude::*;

use crate::monitor::slots::ConnectionId;
use crate::monitor::{Polled, TickState};
use crate::protocol::TryReceiveMessageError;

verus! {

/// The messages that wait once connections were polled, in sequence, none having
/// waited before.
pub open spec fn received(ids: Seq<ConnectionId>, polls: Seq<Polled>) -> Seq<
    (ConnectionId, Seq<char>),
>
    decreases polls.len(),
{
    if polls.len() == 0 {
        Seq::empty()
    } else {
        crate::monitor::queue_after(
            received(ids, polls.drop_last()),
            ids[polls.len() - 1],
            polls.last(),
        )
    }
}

/// The connections that turned out to be closed once connections were polled, in
/// sequence.
pub open spec fn found_closed(ids: Seq<ConnectionId>, polls: Seq<Polled>) -> Seq<ConnectionId>
    decreases polls.len(),
{
    if polls.len() == 0 {
        Seq::empty()
    } else {
        crate::monitor::closed_after(
            found_closed(ids, polls.drop_last()),
            ids[polls.len() - 1],
            polls.last(),
        )
    }
}

/// The round, and the messages that wait, are what these polls make of them.
pub open spec fn comes_of(
    tick: TickState,
    queue: Seq<(ConnectionId, Seq<char>)>,
    polls: Seq<Polled>,
) -> bool {
    &&& tick.at == polls.len()
    &&& queue == received(tick.ids, polls)
    &&& tick.closed == found_closed(tick.ids, polls)
}

/// A round that starts while no message waits comes of no polls.
pub proof fn law_a_round_starts_empty(ids: Seq<ConnectionId>)
    ensures
        comes_of(TickState { ids, at: 0, closed: Seq::empty() }, Seq::empty(), Seq::empty()),
{
}

/// Polling the next connection adds that poll to those that the round comes of.
pub proof fn law_a_round_goes_on(
    tick: TickState,
    queue: Seq<(ConnectionId, Seq<char>)>,
    polls: Seq<Polled>,
    polled: Polled,
)
    requires
        comes_of(tick, queue, polls),
    ensures
        comes_of(
            TickState {
                at: tick.at + 1,
                closed: crate::monitor::closed_after(tick.closed, tick.current(), polled),
                ..tick
            },
            crate::monitor::queue_after(queue, tick.current(), polled),
            polls.push(polled),
        ),
{
    assert(polls.push(polled).drop_last() =~= polls);
}

/// A message is what the connection that was polled as the `i`-th had.
pub open spec fn came_in_at(
    ids: Seq<ConnectionId>,
    polls: Seq<Polled>,
    i: int,
    message: (ConnectionId, Seq<char>),
) -> bool {
    &&& 0 <= i < polls.len()
    &&& ids[i] == message.0
    &&& polls[i] matches Ok(Some(bytes)) && crate::text::utf8_lossy(bytes@) == message.1
}

/// A message is what one of the connections had.
pub open spec fn came_in(
    ids: Seq<ConnectionId>,
    polls: Seq<Polled>,
    message: (ConnectionId, Seq<char>),
) -> bool {
    exists|i: int| #[trigger] came_in_at(ids, polls, i, message)
}

/// Two messages are what two of the connections had, the first of which was polled
/// ahead of the other.
pub open spec fn came_in_sequence(
    ids: Seq<ConnectionId>,
    polls: Seq<Polled>,
    one: (ConnectionId, Seq<char>),
    other: (ConnectionId, Seq<char>),
) -> bool {
    exists|i: int, j: int|
        i < j && #[trigger] came_in_at(ids, polls, i, one) && #[trigger] came_in_at(
            ids,
            polls,
            j,
            other,
        )
}

/// The number of polls that gave a message.
pub open spec fn message_count(polls: Seq<Polled>) -> nat
    decreases polls.len(),
{
    if polls.len() == 0 {
        0
    } else {
        message_count(polls.drop_last()) + (if polls.last() matches Ok(Some(_)) {
            1nat
        } else {
            0nat
        })
    }
}

/// A round loses no message and makes none up: what waits after it are the
/// messages that were received, one for each connection that had one, in the
/// sequence in which the connections were polled.
pub proof fn law_a_round_keeps_every_message(ids: Seq<ConnectionId>, polls: Seq<Polled>)
    requires
        polls.len() <= ids.len(),
    ensures
        ({
            let queue = received(ids, polls);
            &&& queue.len() == message_count(polls)
            &&& forall|i: int|
                0 <= i < polls.len() ==> ((#[trigger] polls[i]) matches Ok(Some(bytes))
                    ==> queue.contains((ids[i], crate::text::utf8_lossy(bytes@))))
            &&& forall|k: int| 0 <= k < queue.len() ==> #[trigger] came_in(ids, polls, queue[k])
            &&& forall|k: int, l: int|
                0 <= k < l < queue.len() ==> #[trigger] came_in_sequence(
                    ids,
                    polls,
                    queue[k],
                    queue[l],
                )
        }),
    decreases polls.len(),
{
    if polls.len() > 0 {
        let last = polls.len() - 1;
        let before = polls.drop_last();
        let was = received(ids, before);
        let queue = received(ids, polls);
        law_a_round_keeps_every_message(ids, before);
        assert(was.is_prefix_of(queue));
        assert forall|i: int| 0 <= i < polls.len() implies ((#[trigger] polls[i]) matches Ok(
            Some(bytes),
        ) ==> queue.contains((ids[i], crate::text::utf8_lossy(bytes@)))) by {
            if let Ok(Some(bytes)) = polls[i] {
                let message = (ids[i], crate::text::utf8_lossy(bytes@));
                if i < last {
                    assert(before[i] == polls[i]);
                    let k = choose|k: int| 0 <= k < was.len() && was[k] == message;
                    assert(queue[k] == message);
                } else {
                    assert(queue[was.len() as int] == message);
                }
            }
        }
        assert forall|i: int, message: (ConnectionId, Seq<char>)| #[trigger]
            came_in_at(ids, before, i, message) implies came_in_at(ids, polls, i, message) by {
            assert(polls[i] == before[i]);
        }
        if queue.len() > was.len() {
            assert(came_in_at(ids, polls, last, queue[was.len() as int]));
        }
        assert forall|k: int| 0 <= k < queue.len() implies #[trigger] came_in(
            ids,
            polls,
            queue[k],
        ) by {
            if k < was.len() {
                assert(queue[k] == was[k]);
                assert(came_in(ids, before, was[k]));
                let i = choose|i: int| #[trigger] came_in_at(ids, before, i, was[k]);
                assert(came_in_at(ids, polls, i, queue[k]));
            }
        }
        assert forall|k: int, l: int|
            0 <= k < l < queue.len() implies #[trigger] came_in_sequence(
            ids,
            polls,
            queue[k],
            queue[l],
        ) by {
            assert(queue[k] == was[k]);
            if l < was.len() {
                assert(queue[l] == was[l]);
                assert(came_in_sequence(ids, before, was[k], was[l]));
                let (i, j) = choose|i: int, j: int|
                    i < j && #[trigger] came_in_at(ids, before, i, was[k])
                        && #[trigger] came_in_at(ids, before, j, was[l]);
                assert(came_in_at(ids, polls, i, queue[k]));
                assert(came_in_at(ids, polls, j, queue[l]));
            } else {
                assert(came_in(ids, before, was[k]));
                let i = choose|i: int| #[trigger] came_in_at(ids, before, i, was[k]);
                assert(came_in_at(ids, polls, i, queue[k]));
                assert(came_in_at(ids, polls, last, queue[l]));
            }
        }
    }
}

/// A round closes exactly the connections that turned out to be closed.
pub proof fn law_a_round_finds_what_is_closed(ids: Seq<ConnectionId>, polls: Seq<Polled>)
    requires
        ids.no_duplicates(),
        polls.len() <= ids.len(),
    ensures
        forall|i: int|
            0 <= i < polls.len() ==> (found_closed(ids, polls).contains(ids[i]) <==> (
            #[trigger] polls[i]) == Polled::Err(TryReceiveMessageError::Closed)),
        forall|id: ConnectionId| #[trigger]
            found_closed(ids, polls).contains(id) ==> ids.take(polls.len() as int).contains(id),
    decreases polls.len(),
{
    let closed = found_closed(ids, polls);
    if polls.len() > 0 {
        let last = polls.len() - 1;
        let before = polls.drop_last();
        let was = found_closed(ids, before);
        law_a_round_finds_what_is_closed(ids, before);
        assert forall|id: ConnectionId| #[trigger] closed.contains(id) <==> was.contains(id) || (
        polls.last() == Polled::Err(TryReceiveMessageError::Closed) && id == ids[last]) by {
            if was.contains(id) {
                let k = choose|k: int| 0 <= k < was.len() && was[k] == id;
                assert(closed[k] == id);
            }
            if polls.last() == Polled::Err(TryReceiveMessageError::Closed) {
                assert(closed[was.len() as int] == ids[last]);
            }
        }
        assert forall|id: ConnectionId| #[trigger] closed.contains(id) implies ids.take(
            polls.len() as int,
        ).contains(id) by {
            if was.contains(id) {
                let k = choose|k: int| 0 <= k < last && ids.take(last as int)[k] == id;
                assert(ids.take(polls.len() as int)[k] == id);
            } else {
                assert(ids.take(polls.len() as int)[last] == id);
            }
        }
        assert(!was.contains(ids[last])) by {
            if was.contains(ids[last]) {
                let k = choose|k: int| 0 <= k < last && ids.take(last as int)[k] == ids[last];
                assert(ids[k] == ids[last]);
            }
        }
        assert forall|i: int| 0 <= i < polls.len() implies (closed.contains(ids[i]) <==> (
        #[trigger] polls[i]) == Polled::Err(TryReceiveMessageError::Closed)) by {
            if i < last {
                assert(before[i] == polls[i]);
                assert(ids[i] != ids[last]);
            }
        }
    }
}

/// Text that was sent in UTF-8 waits to be handed out as it was sent.
pub proof fn law_a_received_text_waits_as_it_was_sent(
    queue: Seq<(ConnectionId, Seq<char>)>,
    id: ConnectionId,
    bytes: Vec<u8>,
    sent: Seq<char>,
)
    requires
        bytes@ == vstd::utf8::encode_utf8(sent),
    ensures
        ({
            let after = crate::monitor::queue_after(queue, id, Ok(Some(bytes)));
            crate::text::reads_as(bytes@, after.last().1) ==> after == queue.push((id, sent))
        }),
{
    let after = crate::monitor::queue_after(queue, id, Ok(Some(bytes)));
    crate::text::law_text_is_read_as_it_was_sent(sent, after.last().1);
}

} // verus!
