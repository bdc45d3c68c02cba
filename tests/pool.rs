use micro_url::duration::{DurationError, TimeSpan};
use micro_url::msgs::{ActorInputMessage, DbInput, ViewInput};
use micro_url::pool::{
    parse_count, ActorPool, ActorPoolConfig, ConfigError, PoolEvent, PoolPhase, SendError,
    TrySendError,
};
use sea_orm::DatabaseConnection;

fn view(id: &str) -> ActorInputMessage {
    ActorInputMessage::UpdateViews(ViewInput {
        id: id.to_string(),
        cached: false,
        ip: None,
        headers: None,
        conn: DatabaseConnection::Disconnected,
    })
}

fn id_of(msg: &ActorInputMessage) -> Option<String> {
    match msg {
        ActorInputMessage::UpdateViews(v) => Some(v.id.clone()),
        _ => None,
    }
}

fn small_pool(cap: usize) -> (ActorPool, async_channel::Receiver<ActorInputMessage>) {
    let config = ActorPoolConfig { capacity: Some(cap), ..ActorPoolConfig::default() };
    ActorPool::new(&config).unwrap()
}

#[test]
fn default_settings() {
    let c = ActorPoolConfig::default();
    assert_eq!(c.workers, 4);
    assert_eq!(c.blocking_workers, 2);
    assert_eq!(c.stack_size, 2 * 1024 * 1024);
    assert_eq!(c.keep_alive, TimeSpan { secs: 10, nanos: 0 });
    assert_eq!(c.clean_sessions, TimeSpan { secs: 15, nanos: 0 });
    assert_eq!(c.clean_links, TimeSpan { secs: 1800, nanos: 0 });
    assert_eq!(c.capacity, None);
}

#[test]
fn capacity_is_twice_workers_and_producers() {
    assert_eq!(ActorPoolConfig::default().channel_capacity(), Some(12));
    let one = ActorPoolConfig { workers: 1, ..ActorPoolConfig::default() };
    assert_eq!(one.channel_capacity(), Some(6));
    let set = ActorPoolConfig { capacity: Some(5), ..ActorPoolConfig::default() };
    assert_eq!(set.channel_capacity(), Some(5));
}

#[test]
fn capacity_that_cannot_be_refused() {
    let zero = ActorPoolConfig { capacity: Some(0), ..ActorPoolConfig::default() };
    assert_eq!(zero.channel_capacity(), None);
    assert!(ActorPool::new(&zero).is_none());
    let huge = ActorPoolConfig { workers: usize::MAX, ..ActorPoolConfig::default() };
    assert_eq!(huge.channel_capacity(), None);
    assert!(ActorPool::new(&huge).is_none());
}

#[test]
fn a_full_channel_hands_the_item_back_without_failing() {
    let (pool, rx) = small_pool(2);
    assert!(pool.send_blocking(view("a")).is_ok());
    assert!(pool.send_blocking(view("b")).is_ok());
    match pool.try_send(view("c")) {
        Err(TrySendError::Full(m)) => assert_eq!(id_of(&m), Some("c".to_string())),
        _ => panic!("expected a full channel"),
    }
    assert!(!pool.is_closed());
    let first = rx.try_recv().unwrap();
    assert_eq!(id_of(&first), Some("a".to_string()));
    assert!(pool.try_send(view("c")).is_ok());
}

#[test]
fn a_closed_pool_refuses_and_returns_the_item() {
    let (mut pool, rx) = small_pool(4);
    pool.close();
    assert!(pool.is_closed());
    match pool.send_blocking(view("late")) {
        Err(SendError(m)) => assert_eq!(id_of(&m), Some("late".to_string())),
        Ok(()) => panic!("a closed pool took work"),
    }
    match pool.try_send(view("later")) {
        Err(TrySendError::Closed(m)) => assert_eq!(id_of(&m), Some("later".to_string())),
        _ => panic!("expected a closed pool"),
    }
    assert!(pool.sender().is_none());
    assert!(rx.try_recv().is_err());
    pool.close();
    assert!(pool.is_closed());
}

#[test]
fn closing_also_stops_other_handles() {
    let (mut pool, _rx) = small_pool(4);
    let producer = pool.sender().unwrap();
    pool.close();
    assert!(producer.send_blocking(ActorInputMessage::Noop).is_err());
}

#[test]
fn items_queued_before_close_are_still_delivered() {
    let (mut pool, rx) = small_pool(4);
    assert!(pool.send_blocking(view("one")).is_ok());
    assert!(pool.send_blocking(view("two")).is_ok());
    assert!(pool.send_blocking(ActorInputMessage::CleanUrls(DbInput {
        conn: DatabaseConnection::Disconnected
    }))
    .is_ok());
    pool.close();
    assert_eq!(id_of(&rx.recv_blocking().unwrap()), Some("one".to_string()));
    assert_eq!(id_of(&rx.recv_blocking().unwrap()), Some("two".to_string()));
    assert!(matches!(rx.recv_blocking().unwrap(), ActorInputMessage::CleanUrls(_)));
    assert!(rx.recv_blocking().is_err());
}

#[test]
fn lifecycle_runs_one_way() {
    let p = PoolPhase::Running;
    assert!(p.accepts());
    let p = p.next(PoolEvent::Drained);
    assert_eq!(p, PoolPhase::Running);
    let p = p.next(PoolEvent::CloseRequested);
    assert_eq!(p, PoolPhase::Closing);
    assert!(!p.accepts());
    let p = p.next(PoolEvent::CloseRequested);
    assert_eq!(p, PoolPhase::Closing);
    let p = p.next(PoolEvent::Drained);
    assert_eq!(p, PoolPhase::Closed);
    assert!(!p.accepts());
    assert_eq!(p.next(PoolEvent::CloseRequested), PoolPhase::Closed);
}

#[test]
fn settings_from_text() {
    let c = ActorPoolConfig::from_settings(Some("8"), Some("1m"), None).unwrap();
    assert_eq!(c.workers, 8);
    assert_eq!(c.clean_sessions, TimeSpan { secs: 60, nanos: 0 });
    assert_eq!(c.clean_links, TimeSpan { secs: 1800, nanos: 0 });
    assert_eq!(c.blocking_workers, 2);
    let d = ActorPoolConfig::from_settings(None, None, Some("2h")).unwrap();
    assert_eq!(d.workers, 4);
    assert_eq!(d.clean_sessions, TimeSpan { secs: 15, nanos: 0 });
    assert_eq!(d.clean_links, TimeSpan { secs: 7200, nanos: 0 });
}

#[test]
fn each_bad_setting_is_named() {
    assert_eq!(
        ActorPoolConfig::from_settings(Some("four"), Some("x"), None).unwrap_err(),
        ConfigError::Workers
    );
    assert_eq!(
        ActorPoolConfig::from_settings(Some("4"), Some("soon"), Some("x")).unwrap_err(),
        ConfigError::SessionInterval(DurationError::Malformed)
    );
    assert_eq!(
        ActorPoolConfig::from_settings(None, None, Some("9223372036854776s")).unwrap_err(),
        ConfigError::LinkInterval(DurationError::TooLarge)
    );
}

#[test]
fn counts_in_decimal() {
    assert_eq!(parse_count("0"), Some(0));
    assert_eq!(parse_count("12"), Some(12));
    assert_eq!(parse_count(""), None);
    assert_eq!(parse_count("1a"), None);
    assert_eq!(parse_count("-1"), None);
    assert_eq!(parse_count("+4"), Some(4));
    assert_eq!(parse_count("+"), None);
    assert_eq!(parse_count("++4"), None);
    assert_eq!(parse_count("4+"), None);
    assert_eq!(parse_count("18446744073709551616"), None);
    assert_eq!(parse_count("18446744073709551615"), Some(usize::MAX));
}

#[test]
fn channel_opens_with_the_configured_capacity() {
    let (pool, rx) = ActorPool::new(&ActorPoolConfig::default()).unwrap();
    assert_eq!(pool.sender().unwrap().capacity(), Some(12));
    assert_eq!(rx.capacity(), Some(12));
    let one = ActorPoolConfig { workers: 1, ..ActorPoolConfig::default() };
    let (pool, _rx) = ActorPool::new(&one).unwrap();
    assert_eq!(pool.sender().unwrap().capacity(), Some(6));
    let (_pool, rx) = ActorPool::new(&ActorPoolConfig { capacity: Some(3), ..one }).unwrap();
    assert_eq!(rx.capacity(), Some(3));
}
