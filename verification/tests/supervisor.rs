//! The pool end to end: routed writes and reads, fan-out calls, shutdown.

use worker_lib::cache::route::route_shards;
use worker_lib::cache::supervisor::Supervisor;
use worker_lib::worker::{WorkerState, OK};

const UPTIME: &str = "0 days, 00:00:00";

const ALPHABET: &[u8] = b"0123456789ABCDEFGHIJKLMNOPQRSTUVWXYZabcdefghijklmnopqrstuvwxyz";

#[derive(Debug, Default, Clone)]
pub struct TestStruct {
    pub id: String,
    pub name: String,
    pub age: u8,
}

pub fn random_word() -> String {
    let mut word = String::new();
    word.push(fastrand::uppercase());
    for _ in 0..10 {
        word.push(fastrand::lowercase());
    }

    word
}

/// A key of 16 characters: 12 drawn at random, then `serial` in four digits,
/// so that keys with different serials differ.
fn create_key(serial: usize) -> String {
    let mut key = String::new();
    for _ in 0..12 {
        key.push(ALPHABET[fastrand::usize(..ALPHABET.len())] as char);
    }
    key.push_str(&format!("{:04}", serial % 10000));
    key
}

fn worker_ids(pool_size: usize) -> Vec<String> {
    (0..pool_size).map(create_key).collect()
}

/// Stands in for the route function: a shard for the key, from its bytes.
fn parse_route(key: &str, shards: Option<u8>) -> Option<u8> {
    let count = shards?;
    let sum: usize = key.bytes().map(|b| b as usize).sum();
    Some((sum % count as usize) as u8)
}

impl TestStruct {
    pub fn new(serial: usize) -> TestStruct {
        TestStruct { id: create_key(serial), name: random_word(), age: fastrand::u8(21..95) }
    }

    fn to_json(&self) -> String {
        let mut object = serde_json::Map::new();
        object.insert("id".to_string(), serde_json::Value::from(self.id.clone()));
        object.insert("name".to_string(), serde_json::Value::from(self.name.clone()));
        object.insert("age".to_string(), serde_json::Value::from(self.age));
        serde_json::to_string(&serde_json::Value::Object(object)).unwrap()
    }

    fn from_json(json: &str) -> Option<TestStruct> {
        let value: serde_json::Value = serde_json::from_str(json).ok()?;
        Some(TestStruct {
            id: value.get("id")?.as_str()?.to_string(),
            name: value.get("name")?.as_str()?.to_string(),
            age: u8::try_from(value.get("age")?.as_u64()?).ok()?,
        })
    }
}

fn exercise_pool(pool_size: usize, set_count: usize) {
    let mut supervisor =
        Supervisor::new(worker_ids(pool_size)).expect("should create the supervisor");

    assert_eq!(supervisor.pool_size, pool_size);
    assert_eq!(supervisor.workers.len(), pool_size);

    // now get the status, should be ok
    let status = supervisor.status(UPTIME);
    println!("{:?}", status);
    assert_eq!(status.len(), pool_size);

    for sts in status.iter() {
        assert_eq!(sts.worker_id.len(), 16);
        assert_eq!(sts.status, OK);
        assert_eq!(sts.state, WorkerState::Idle);
        assert!(sts.uptime.starts_with("0 days, 00:00"));
        assert_eq!(sts.error_count, 0);
    }

    // get the count and keys, should be zero
    assert_eq!(supervisor.len(), 0);

    // set a number of of values
    println!("count: {}", set_count);
    let shards = route_shards(pool_size);
    let mut ids: Vec<String> = Vec::with_capacity(set_count);
    for n in 0..set_count {
        let tst = TestStruct::new(n);
        ids.push(tst.id.to_string());
        assert_eq!(tst.id.len(), 16);
        let parsed = parse_route(&tst.id, shards);
        let route = supervisor.get_route(parsed);
        println!("{:?} {}", tst, route);
        assert!(route < pool_size);

        let json = tst.to_json();
        let r = supervisor.set(tst.id, json, parsed).expect("should return ok from set");
        assert_eq!(r, None, "should be none on first set");
    }

    assert_eq!(ids.len(), set_count);
    assert_eq!(supervisor.len(), set_count);

    // now read them all back
    for id in ids.iter() {
        let resp = supervisor
            .get(id.to_string(), parse_route(id, shards))
            .expect("should return an Optional<string> vaule");
        if let Some(json) = resp {
            println!("{}", json);
            let tst = TestStruct::from_json(&json).expect("should be able to parse");
            assert_eq!(tst.id, id.to_string());
        } else {
            assert!(false, "should not bew None");
        }
    }

    // read an existing value; update and verify old value
    let key = ids[10].to_string();
    println!("{}", &key);
    let json = supervisor
        .get(key.to_string(), parse_route(&key, shards))
        .expect("should return a result")
        .unwrap();
    println!("{}", json);
    let mut tst = TestStruct::from_json(&json).unwrap();
    assert_eq!(tst.id, key);
    let old_age = tst.age;
    tst.age += 1;
    let json = tst.to_json();
    println!("{}", json);
    let resp = supervisor
        .set(key.to_string(), json, parse_route(&key, shards))
        .expect("should return a result")
        .unwrap();
    println!("{}", resp);
    let tst = TestStruct::from_json(&resp).unwrap();
    assert_eq!(tst.age, old_age);

    // read back the list of keys and ensure that all are in the list (count == count)
    let list = supervisor.keys();
    assert_eq!(list.len(), ids.len());

    // remove a few and verify the new count
    let key = ids[3].to_string();
    if let Some(json) = supervisor.remove(key.to_string(), parse_route(&key, shards)).unwrap() {
        let tst = TestStruct::from_json(&json).unwrap();
        assert_eq!(tst.id, key.to_string());
    } else {
        assert!(false);
    }

    assert_eq!(supervisor.len(), ids.len() - 1);

    // shut down
    assert!(supervisor.shutdown().is_ok());
}

#[test]
fn supervisor_new() {
    exercise_pool(4, 20);
}

#[test]
fn worker_pool() {
    exercise_pool(32, 1000);
}

#[test]
fn single_worker() {
    let mut supervisor = Supervisor::new(worker_ids(1)).expect("should create the supervisor");

    assert_eq!(supervisor.pool_size, 1);
    assert_eq!(supervisor.workers.len(), 1);

    // now get the status, should be ok
    let status = supervisor.status(UPTIME);
    println!("{:?}", status);
    assert_eq!(status.len(), 1);
    for sts in status.iter() {
        assert_eq!(sts.worker_id.len(), 16);
        assert_eq!(sts.status, OK);
        assert_eq!(sts.state, WorkerState::Idle);
        assert!(sts.uptime.starts_with("0 days, 00:00"));
        assert_eq!(sts.error_count, 0);
    }

    // get the count and keys, should be zero
    assert_eq!(supervisor.len(), 0);

    // shut down
    assert!(supervisor.shutdown().is_ok());
}
