//! The decisions of one connection that streams snapshots to its peer.
//!
//! The connection waits for the next snapshot of its subscription, pushes it
//! to the peer, and waits again. It ends, releasing its subscription, when the
//! subscription is closed, when it fell behind the feed (a lagging subscriber
//! is disconnected rather than skipped ahead), or when a push fails. It never
//! retries: the peer is expected to reconnect.

use vstd::prelude::*;

verus! {

/// How many snapshots may wait, per subscriber, for delivery. A subscriber
/// that falls further behind is disconnected.
pub const FEED_CAPACITY: usize = 16;

/// Where a connection stands.
#[derive(Clone, Copy, Debug, PartialEq, Eq, Structural)]
pub enum ConnectionState {
    /// Waiting for the next snapshot of the subscription.
    Waiting,
    /// A snapshot is being pushed to the peer.
    Pushing,
    /// The connection is over; its subscription is released.
    Closed,
}

/// What happened since the connection's last action.
#[derive(Clone, Debug, PartialEq)]
pub enum ConnectionEvent<S> {
    /// The subscription handed over the next snapshot.
    Delivered(S),
    /// The subscription fell behind and missed this many snapshots.
    Lagged(u64),
    /// The feed was shut down.
    FeedClosed,
    /// The last push reached the peer.
    Pushed,
    /// The last push failed: the peer is gone.
    PushFailed,
}

/// What the connection does next.
#[derive(Clone, Debug, PartialEq)]
pub enum ConnectionAction<S> {
    /// Wait for the next snapshot.
    Receive,
    /// Send this snapshot to the peer.
    Push(S),
    /// Release the subscription and close the connection.
    Close,
}

/// The state and action that follow `event` in `state`.
pub open spec fn next<S>(state: ConnectionState, event: ConnectionEvent<S>) -> (
    ConnectionState,
    ConnectionAction<S>,
) {
    match (state, event) {
        (ConnectionState::Waiting, ConnectionEvent::Delivered(s)) => (
            ConnectionState::Pushing,
            ConnectionAction::Push(s),
        ),
        (ConnectionState::Pushing, ConnectionEvent::Pushed) => (
            ConnectionState::Waiting,
            ConnectionAction::Receive,
        ),
        _ => (ConnectionState::Closed, ConnectionAction::Close),
    }
}

/// One decision of a connection. A snapshot delivered while waiting is pushed
/// as it came; a push that reached the peer leads back to waiting. Anything
/// else (a lag, the feed's end, a failed push, or an event that does not fit
/// the state) closes the connection, and a closed connection stays closed.
pub fn connection_step<S>(state: ConnectionState, event: ConnectionEvent<S>) -> (r: (
    ConnectionState,
    ConnectionAction<S>,
))
    ensures
        r == next(state, event),
{
    match (state, event) {
        (ConnectionState::Waiting, ConnectionEvent::Delivered(s)) => (
            ConnectionState::Pushing,
            ConnectionAction::Push(s),
        ),
        (ConnectionState::Pushing, ConnectionEvent::Pushed) => (
            ConnectionState::Waiting,
            ConnectionAction::Receive,
        ),
        _ => (ConnectionState::Closed, ConnectionAction::Close),
    }
}

/// The state reached and the snapshots pushed, in order, when a connection
/// that starts waiting meets `events`.
pub open spec fn drive<S>(events: Seq<ConnectionEvent<S>>) -> (ConnectionState, Seq<S>)
    decreases events.len(),
{
    if events.len() == 0 {
        (ConnectionState::Waiting, Seq::empty())
    } else {
        let (state, pushed) = drive(events.drop_last());
        let (after, action) = next(state, events.last());
        match action {
            ConnectionAction::Push(s) => (after, pushed.push(s)),
            _ => (after, pushed),
        }
    }
}

/// The events of a subscription that delivers `snapshots` in order, each
/// push reaching the peer before the next delivery.
pub open spec fn steady_feed<S>(snapshots: Seq<S>) -> Seq<ConnectionEvent<S>>
    decreases snapshots.len(),
{
    if snapshots.len() == 0 {
        Seq::empty()
    } else {
        steady_feed(snapshots.drop_last()) + seq![
            ConnectionEvent::Delivered(snapshots.last()),
            ConnectionEvent::Pushed,
        ]
    }
}

/// A connection whose subscription delivers snapshots in order, and whose
/// pushes all succeed, pushes exactly those snapshots, in that order, with no
/// duplicate and no omission, and is still waiting for more.
pub proof fn lemma_forwards_in_order<S>(snapshots: Seq<S>)
    ensures
        drive(steady_feed(snapshots)) == (ConnectionState::Waiting, snapshots),
    decreases snapshots.len(),
{
    if snapshots.len() > 0 {
        let prev = snapshots.drop_last();
        lemma_forwards_in_order(prev);
        let e = steady_feed(prev);
        let delivered = e.push(ConnectionEvent::Delivered(snapshots.last()));
        let all = steady_feed(snapshots);
        assert(all.drop_last() =~= delivered);
        assert(delivered.drop_last() =~= e);
        assert(prev.push(snapshots.last()) =~= snapshots);
        assert(drive(delivered) == (ConnectionState::Pushing, snapshots));
    } else {
        assert(snapshots =~= Seq::<S>::empty());
    }
}

} // verus!
