//! One worker driven command by command.

use worker_lib::cache::worker::{Command, Response, Worker};
use worker_lib::worker::{WorkerState, OK};

const UPTIME: &str = "0 days, 00:00:00";

fn create_worker() -> Worker {
    Worker::new("Wk0aB3dE5gH7jK9m".to_string()).expect("should create the worker")
}

fn len_of(worker: &mut Worker) -> usize {
    match worker.handle(Command::Len) {
        Response::Len(sz) => sz,
        other => panic!("receeve should not fail: {:?}", other),
    }
}

fn status_round_trip() {
    let mut worker = create_worker();
    assert_eq!(worker.id().len(), 16);

    let resp = worker.handle(Command::Status(UPTIME.to_string()));
    println!("{:?}", resp);
    if let Response::Status(resp) = resp {
        println!("{:?}", resp);
        assert_eq!(resp.status, OK);
        assert_eq!(resp.state, WorkerState::Idle);
    } else {
        panic!("status response failed");
    }

    assert!(matches!(worker.handle(Command::Shutdown), Response::Closed));
    assert!(worker.is_shutdown());
}

#[test]
fn worker_new() {
    status_round_trip();
}

#[test]
fn cache_worker_new() {
    status_round_trip();
}

#[test]
fn kv_handler_new() {
    assert!(true);
}

#[test]
fn set_get_remove() {
    let mut worker = create_worker();
    assert_eq!(worker.id().len(), 16);

    assert_eq!(len_of(&mut worker), 0_usize);

    // now set the first value
    let key = "my-key";
    let value = "my value";

    // get the response; should be None on the first insert
    let resp = worker.handle(Command::Put(key.to_string(), value.to_string()));
    println!("set response: {:?}", resp);
    if let Response::Value(resp) = resp {
        assert_eq!(resp, None);
    } else {
        panic!("status response failed");
    }

    // check the size
    assert_eq!(len_of(&mut worker), 1_usize);

    // get the value from key
    let v = match worker.handle(Command::Get(key.to_string())) {
        Response::Value(v) => v.unwrap(),
        other => panic!("receeve should not fail: {:?}", other),
    };
    println!("v: {}", v);
    assert_eq!(v, value);

    // remove the value by key
    let v = match worker.handle(Command::Remove(key.to_string())) {
        Response::Value(v) => v.unwrap(),
        other => panic!("receeve should not fail: {:?}", other),
    };
    println!("v: {}", v);
    assert_eq!(v, value);

    assert_eq!(len_of(&mut worker), 0_usize);

    // stop the worker
    assert!(matches!(worker.handle(Command::Shutdown), Response::Closed));
}
