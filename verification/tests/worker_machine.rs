//! The worker's state machine, command by command and over a queue.

use worker_lib::cache::error::CacheError;
use worker_lib::cache::worker::{handler, Command, Response, Worker};
use worker_lib::worker::{WorkerState, OK};

const ID: &str = "Wk0aB3dE5gH7jK9m";

fn worker() -> Worker {
    Worker::new(ID.to_string()).expect("should create the worker")
}

fn put(worker: &mut Worker, key: &str, value: &str) -> Option<String> {
    match worker.handle(Command::Put(key.to_string(), value.to_string())) {
        Response::Value(previous) => previous,
        other => panic!("unexpected reply: {:?}", other),
    }
}

fn sorted(mut keys: Vec<String>) -> Vec<String> {
    keys.sort();
    keys
}

#[test]
fn fresh_worker_is_idle_and_empty() {
    let worker = worker();
    assert_eq!(worker.id(), ID);
    assert_eq!(worker.state(), WorkerState::Idle);
    assert_eq!(worker.error_count(), 0);
    assert!(!worker.is_shutdown());
    assert_eq!(worker.len(), 0);
    assert!(worker.keys().is_empty());
    assert_eq!(worker.get("missing"), None);
}

#[test]
fn id_must_have_sixteen_characters() {
    for id in ["", "short", "0123456789abcde", "0123456789abcdefg"] {
        match Worker::new(id.to_string()) {
            Err(CacheError::InvalidWorkerId(text)) => assert_eq!(text, id),
            other => panic!("unexpected outcome: {:?}", other),
        }
    }
    assert!(Worker::new("0123456789abcdef".to_string()).is_ok());
    assert!(Worker::new("éééééééééééééééé".to_string()).is_ok());
}

#[test]
fn put_returns_the_previous_value() {
    let mut worker = worker();
    assert_eq!(put(&mut worker, "k", "one"), None);
    assert_eq!(put(&mut worker, "k", "two"), Some("one".to_string()));
    assert_eq!(put(&mut worker, "k", ""), Some("two".to_string()));
    assert_eq!(put(&mut worker, "k", "three"), Some(String::new()));
    assert_eq!(worker.get("k"), Some("three".to_string()));
    assert_eq!(worker.len(), 1);
}

#[test]
fn get_does_not_change_the_worker() {
    let mut worker = worker();
    put(&mut worker, "k", "v");
    for _ in 0..3 {
        assert!(matches!(
            worker.handle(Command::Get("k".to_string())),
            Response::Value(Some(v)) if v == "v"
        ));
        assert!(matches!(worker.handle(Command::Get("other".to_string())), Response::Value(None)));
    }
    assert_eq!(worker.len(), 1);
    assert_eq!(worker.error_count(), 0);
    assert_eq!(worker.state(), WorkerState::Idle);
}

#[test]
fn remove_returns_the_value_once() {
    let mut worker = worker();
    put(&mut worker, "a", "1");
    put(&mut worker, "b", "2");
    assert!(matches!(
        worker.handle(Command::Remove("a".to_string())),
        Response::Value(Some(v)) if v == "1"
    ));
    assert!(matches!(worker.handle(Command::Remove("a".to_string())), Response::Value(None)));
    assert_eq!(worker.get("a"), None);
    assert_eq!(worker.get("b"), Some("2".to_string()));
    assert_eq!(worker.len(), 1);
}

#[test]
fn keys_lists_every_key_once() {
    let mut worker = worker();
    for key in ["c", "a", "b", "a"] {
        put(&mut worker, key, "v");
    }
    let keys = match worker.handle(Command::Keys) {
        Response::Keys(keys) => keys,
        other => panic!("unexpected reply: {:?}", other),
    };
    assert_eq!(sorted(keys), vec!["a", "b", "c"]);
    assert_eq!(sorted(worker.keys()), vec!["a", "b", "c"]);
    assert!(matches!(worker.handle(Command::Len), Response::Len(3)));
}

#[test]
fn status_reports_the_worker_as_it_is() {
    let mut worker = worker();
    worker.reply_failed();
    worker.reply_failed();
    match worker.handle(Command::Status("0 days, 00:01:02".to_string())) {
        Response::Status(status) => {
            assert_eq!(status.worker_id, ID);
            assert_eq!(status.status, OK);
            assert_eq!(status.state, WorkerState::Idle);
            assert_eq!(status.uptime, "0 days, 00:01:02");
            assert_eq!(status.error_count, 2);
        },
        other => panic!("unexpected reply: {:?}", other),
    }
}

#[test]
fn failed_reply_keeps_the_write() {
    let mut worker = worker();
    assert_eq!(put(&mut worker, "k", "v"), None);
    worker.reply_failed();
    assert_eq!(worker.error_count(), 1);
    assert_eq!(worker.get("k"), Some("v".to_string()));
    assert_eq!(worker.len(), 1);
    assert_eq!(worker.state(), WorkerState::Idle);
    assert_eq!(worker.id(), ID);
}

#[test]
fn error_count_stops_at_its_ceiling() {
    let mut worker = worker();
    for expected in 1..=u16::MAX {
        worker.reply_failed();
        assert_eq!(worker.error_count(), expected);
    }
    worker.reply_failed();
    assert_eq!(worker.error_count(), u16::MAX);
    worker.reply_failed();
    assert_eq!(worker.error_count(), u16::MAX);
}

#[test]
fn shutdown_is_terminal() {
    let mut worker = worker();
    put(&mut worker, "k", "v");
    assert!(matches!(worker.handle(Command::Shutdown), Response::Closed));
    assert!(worker.is_shutdown());
    assert_eq!(worker.state(), WorkerState::Shutdown);
    assert_eq!(worker.len(), 0);

    let later = vec![
        Command::Put("k".to_string(), "w".to_string()),
        Command::Get("k".to_string()),
        Command::Remove("k".to_string()),
        Command::Keys,
        Command::Len,
        Command::Status("0 days, 00:00:00".to_string()),
        Command::Shutdown,
    ];
    for command in later {
        assert!(matches!(worker.handle(command), Response::Closed));
        assert_eq!(worker.state(), WorkerState::Shutdown);
        assert_eq!(worker.len(), 0);
        assert_eq!(worker.get("k"), None);
    }
}

#[test]
fn handler_answers_in_arrival_order() {
    let replies = handler(
        ID.to_string(),
        vec![
            Command::Len,
            Command::Put("a".to_string(), "1".to_string()),
            Command::Put("a".to_string(), "2".to_string()),
            Command::Get("a".to_string()),
            Command::Put("b".to_string(), "3".to_string()),
            Command::Len,
            Command::Remove("a".to_string()),
            Command::Get("a".to_string()),
            Command::Keys,
        ],
    )
    .expect("should run");
    assert_eq!(replies.len(), 9);
    assert!(matches!(&replies[0], Response::Len(0)));
    assert!(matches!(&replies[1], Response::Value(None)));
    assert!(matches!(&replies[2], Response::Value(Some(v)) if v == "1"));
    assert!(matches!(&replies[3], Response::Value(Some(v)) if v == "2"));
    assert!(matches!(&replies[4], Response::Value(None)));
    assert!(matches!(&replies[5], Response::Len(2)));
    assert!(matches!(&replies[6], Response::Value(Some(v)) if v == "2"));
    assert!(matches!(&replies[7], Response::Value(None)));
    assert!(matches!(&replies[8], Response::Keys(keys) if keys == &vec!["b".to_string()]));
}

#[test]
fn handler_processes_nothing_behind_shutdown() {
    let replies = handler(
        ID.to_string(),
        vec![
            Command::Put("a".to_string(), "1".to_string()),
            Command::Shutdown,
            Command::Get("a".to_string()),
            Command::Put("b".to_string(), "2".to_string()),
            Command::Len,
        ],
    )
    .expect("should run");
    assert_eq!(replies.len(), 5);
    assert!(matches!(&replies[0], Response::Value(None)));
    for reply in &replies[1..] {
        assert!(matches!(reply, Response::Closed));
    }
}

#[test]
fn handler_with_an_empty_queue() {
    let replies = handler(ID.to_string(), Vec::new()).expect("should run");
    assert!(replies.is_empty());
}

#[test]
fn handler_rejects_an_invalid_id() {
    match handler("bad".to_string(), vec![Command::Len]) {
        Err(CacheError::InvalidWorkerId(text)) => assert_eq!(text, "bad"),
        other => panic!("unexpected outcome: {:?}", other),
    }
}
