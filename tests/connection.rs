use cpu_telemetry::connection::{
    connection_step, ConnectionAction, ConnectionEvent, ConnectionState, FEED_CAPACITY,
};
use cpu_telemetry::sampler::{CoreRecord, HistoryStore};
use tokio::sync::broadcast;

#[test]
fn delivered_snapshot_is_pushed() {
    let (st, act) = connection_step(ConnectionState::Waiting, ConnectionEvent::Delivered(7u32));
    assert_eq!(st, ConnectionState::Pushing);
    assert_eq!(act, ConnectionAction::Push(7u32));
}

#[test]
fn successful_push_returns_to_waiting() {
    let (st, act) = connection_step::<u32>(ConnectionState::Pushing, ConnectionEvent::Pushed);
    assert_eq!(st, ConnectionState::Waiting);
    assert_eq!(act, ConnectionAction::Receive);
}

#[test]
fn failed_push_closes() {
    let (st, act) = connection_step::<u32>(ConnectionState::Pushing, ConnectionEvent::PushFailed);
    assert_eq!(st, ConnectionState::Closed);
    assert_eq!(act, ConnectionAction::Close);
}

#[test]
fn lag_closes() {
    let (st, act) = connection_step::<u32>(ConnectionState::Waiting, ConnectionEvent::Lagged(3));
    assert_eq!(st, ConnectionState::Closed);
    assert_eq!(act, ConnectionAction::Close);
}

#[test]
fn feed_end_closes() {
    let (st, act) = connection_step::<u32>(ConnectionState::Waiting, ConnectionEvent::FeedClosed);
    assert_eq!(st, ConnectionState::Closed);
    assert_eq!(act, ConnectionAction::Close);
}

#[test]
fn closed_stays_closed() {
    let (st, act) = connection_step(ConnectionState::Closed, ConnectionEvent::Delivered(1u32));
    assert_eq!(st, ConnectionState::Closed);
    assert_eq!(act, ConnectionAction::Close);
}

#[test]
fn unexpected_event_closes() {
    let (st, act) = connection_step(ConnectionState::Pushing, ConnectionEvent::Delivered(1u32));
    assert_eq!(st, ConnectionState::Closed);
    assert_eq!(act, ConnectionAction::Close);
}

fn forward_all(rx: &mut broadcast::Receiver<Vec<CoreRecord<f32>>>) -> Vec<Vec<CoreRecord<f32>>> {
    let mut pushed = Vec::new();
    let mut state = ConnectionState::Waiting;
    loop {
        let event = match rx.try_recv() {
            Ok(s) => ConnectionEvent::Delivered(s),
            Err(broadcast::error::TryRecvError::Lagged(n)) => ConnectionEvent::Lagged(n),
            Err(_) => return pushed,
        };
        let (st, act) = connection_step(state, event);
        state = st;
        match act {
            ConnectionAction::Push(s) => {
                pushed.push(s);
                let (st, _) = connection_step::<Vec<CoreRecord<f32>>>(state, ConnectionEvent::Pushed);
                state = st;
            }
            ConnectionAction::Receive => {}
            ConnectionAction::Close => return pushed,
        }
    }
}

fn usages(tick: u32) -> Vec<f32> {
    vec![tick as f32, 100.0 - tick as f32]
}

#[test]
fn subscriber_receives_every_tick_in_order() {
    let (tx, _) = broadcast::channel(FEED_CAPACITY);
    let mut store: HistoryStore<f32> = HistoryStore::new();
    for t in 0..3 {
        let _ = tx.send(store.tick(&usages(t)));
    }
    let mut rx = tx.subscribe();
    let mut published = Vec::new();
    for t in 3..9 {
        let snap = store.tick(&usages(t));
        published.push(snap.clone());
        let _ = tx.send(snap);
    }
    assert_eq!(forward_all(&mut rx), published);
}

#[test]
fn late_subscriber_gets_nothing_earlier() {
    let (tx, _) = broadcast::channel(FEED_CAPACITY);
    let mut store: HistoryStore<f32> = HistoryStore::new();
    let _ = tx.send(store.tick(&usages(0)));
    let mut rx = tx.subscribe();
    assert!(forward_all(&mut rx).is_empty());
    let next = store.tick(&usages(1));
    let _ = tx.send(next.clone());
    assert_eq!(forward_all(&mut rx), vec![next]);
}

#[test]
fn two_subscribers_see_identical_snapshots() {
    let (tx, _) = broadcast::channel(FEED_CAPACITY);
    let mut a = tx.subscribe();
    let mut b = tx.subscribe();
    let mut store: HistoryStore<f32> = HistoryStore::new();
    for t in 0..5 {
        let _ = tx.send(store.tick(&usages(t)));
    }
    let got_a = forward_all(&mut a);
    let got_b = forward_all(&mut b);
    assert_eq!(got_a.len(), 5);
    assert_eq!(got_a, got_b);
}

#[test]
fn dropping_one_subscriber_leaves_the_others_served() {
    let (tx, _) = broadcast::channel(FEED_CAPACITY);
    let a = tx.subscribe();
    let mut b = tx.subscribe();
    let mut store: HistoryStore<f32> = HistoryStore::new();
    let _ = tx.send(store.tick(&usages(0)));
    drop(a);
    for t in 1..4 {
        assert!(tx.send(store.tick(&usages(t))).is_ok());
    }
    assert_eq!(forward_all(&mut b).len(), 4);
}

#[test]
fn lagging_subscriber_is_disconnected_without_stalling_publication() {
    let (tx, _) = broadcast::channel(FEED_CAPACITY);
    let mut slow = tx.subscribe();
    let mut store: HistoryStore<f32> = HistoryStore::new();
    for t in 0..(FEED_CAPACITY as u32 + 4) {
        assert!(tx.send(store.tick(&usages(t))).is_ok());
    }
    assert!(forward_all(&mut slow).is_empty());
}
