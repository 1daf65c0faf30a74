//! One shard of the cache as a sequential state machine.
//!
//! A worker owns the entries of its shard and answers one command at a time.
//! Whoever drives it hands it each command in arrival order, delivers the
//! reply, and tells the worker when a reply could not be delivered.

use vstd::prelude::*;
use crate::cache::error::CacheError;
use crate::cache::store::{lookup, store_entries, text_of, Entries, Store};
use crate::worker::{WorkerState, WorkerStatus, OK, WORKER_ID_LEN};

verus! {

/// A request to a worker. `Status` carries the uptime text that the snapshot
/// is to report: the worker keeps no clock of its own.
#[derive(Debug, Clone)]
pub enum Command {
    Put(String, String),
    Get(String),
    Remove(String),
    Keys,
    Len,
    Status(String),
    Shutdown,
}

/// What a worker answers. `Closed` stands for no answer at all: the worker
/// has stopped and takes no further commands.
#[derive(Debug)]
pub enum Response {
    Value(Option<String>),
    Keys(Vec<String>),
    Len(usize),
    Status(WorkerStatus),
    Closed,
}

/// A worker as its contracts see it.
pub struct WorkerView {
    pub id: Seq<char>,
    pub state: WorkerState,
    pub error_count: u16,
    pub entries: Entries,
}

/// Whether a worker with this view takes commands.
pub open spec fn is_live(worker: WorkerView) -> bool {
    worker.state != WorkerState::Shutdown
}

/// What every worker satisfies: a well-formed identifier, finitely many
/// entries, and nothing left in a shard that has shut down.
pub open spec fn valid_view(worker: WorkerView) -> bool {
    &&& worker.id.len() == WORKER_ID_LEN
    &&& worker.state == WorkerState::Idle || worker.state == WorkerState::Shutdown
    &&& worker.entries.dom().finite()
    &&& worker.state == WorkerState::Shutdown ==> worker.entries == Entries::empty()
}

/// The view of a worker that has just been created with this identifier.
pub open spec fn fresh_view(id: Seq<char>) -> WorkerView {
    WorkerView { id, state: WorkerState::Idle, error_count: 0, entries: Entries::empty() }
}

/// The worker after it has been handed `command`.
///
/// A worker that has shut down ignores every command. `Put` and `Remove`
/// change the one entry they name, `Shutdown` stops the worker and drops its
/// entries, and the other commands only read.
pub open spec fn step(worker: WorkerView, command: Command) -> WorkerView {
    if !is_live(worker) {
        worker
    } else {
        match command {
            Command::Put(key, value) => WorkerView {
                entries: worker.entries.insert(key@, value@),
                ..worker
            },
            Command::Remove(key) => WorkerView { entries: worker.entries.remove(key@), ..worker },
            Command::Shutdown => WorkerView {
                state: WorkerState::Shutdown,
                entries: Entries::empty(),
                ..worker
            },
            _ => worker,
        }
    }
}

/// Whether `snapshot` is what a worker with this view reports at `uptime`.
pub open spec fn reports(worker: WorkerView, uptime: Seq<char>, snapshot: WorkerStatus) -> bool {
    &&& snapshot.worker_id@ == worker.id
    &&& snapshot.status@ == OK@
    &&& snapshot.state == worker.state
    &&& snapshot.uptime@ == uptime
    &&& snapshot.error_count == worker.error_count
}

/// Whether `keys` lists the keys of `entries`: each key once, in any order.
pub open spec fn lists_keys(entries: Entries, keys: Seq<Seq<char>>) -> bool {
    &&& keys.no_duplicates()
    &&& keys.to_set() == entries.dom()
}

/// Whether `reply` is the answer that a worker with this view owes to
/// `command`.
pub open spec fn answers(worker: WorkerView, command: Command, reply: Response) -> bool {
    if !is_live(worker) {
        reply is Closed
    } else {
        match command {
            Command::Put(key, _) => reply matches Response::Value(previous)
                && text_of(previous) == lookup(worker.entries, key@),
            Command::Get(key) => reply matches Response::Value(found)
                && text_of(found) == lookup(worker.entries, key@),
            Command::Remove(key) => reply matches Response::Value(removed)
                && text_of(removed) == lookup(worker.entries, key@),
            Command::Keys => reply matches Response::Keys(keys)
                && lists_keys(worker.entries, keys.deep_view()),
            Command::Len => reply matches Response::Len(count)
                && count == worker.entries.len(),
            Command::Status(uptime) => reply matches Response::Status(snapshot)
                && reports(worker, uptime@, snapshot),
            Command::Shutdown => reply is Closed,
        }
    }
}

/// A shard worker: its identifier, its place in the lifecycle, the number of
/// replies it could not deliver, and the entries of its shard.
#[derive(Debug)]
pub struct Worker {
    id: String,
    state: WorkerState,
    error_count: u16,
    cache: Store,
}

impl View for Worker {
    type V = WorkerView;

    closed spec fn view(&self) -> WorkerView {
        WorkerView {
            id: self.id@,
            state: self.state,
            error_count: self.error_count,
            entries: store_entries(self.cache),
        }
    }
}

impl Worker {
    /// Whether this worker is in a state that its own operations leave it in.
    pub open spec fn wf(&self) -> bool {
        valid_view(self@)
    }

    /// A new worker under the given identifier: idle, without errors, its
    /// shard empty. The identifier must be `WORKER_ID_LEN` characters long.
    pub fn new(id: String) -> (made: Result<Worker, CacheError>)
        ensures
            match made {
                Ok(worker) => {
                    &&& id@.len() == WORKER_ID_LEN
                    &&& worker.wf()
                    &&& worker@ == fresh_view(id@)
                },
                Err(error) => {
                    &&& id@.len() != WORKER_ID_LEN
                    &&& error matches CacheError::InvalidWorkerId(text)
                    &&& text@ == id@
                },
            },
    {
        if id.as_str().unicode_len() != WORKER_ID_LEN {
            return Err(CacheError::InvalidWorkerId(id));
        }
        Ok(Worker { id, state: WorkerState::Idle, error_count: 0, cache: Store::new() })
    }

    /// The worker's identifier.
    pub fn id(&self) -> (id: String)
        ensures
            id@ == self@.id,
    {
        self.id.clone()
    }

    /// Where the worker is in its life.
    pub fn state(&self) -> (state: WorkerState)
        ensures
            state == self@.state,
    {
        self.state
    }

    /// How many replies the worker could not deliver so far.
    pub fn error_count(&self) -> (count: u16)
        ensures
            count == self@.error_count,
    {
        self.error_count
    }

    /// Whether the worker has shut down and takes no further commands.
    pub fn is_shutdown(&self) -> (stopped: bool)
        ensures
            stopped == !is_live(self@),
    {
        match self.state {
            WorkerState::Shutdown => true,
            _ => false,
        }
    }

    /// The value stored under `key`, if any.
    pub fn get(&self, key: &str) -> (found: Option<String>)
        ensures
            text_of(found) == lookup(self@.entries, key@),
    {
        match self.cache.get(key) {
            Some(value) => Some(value.clone()),
            None => None,
        }
    }

    /// The keys of the shard, each once, in no particular order.
    pub fn keys(&self) -> (keys: Vec<String>)
        ensures
            lists_keys(self@.entries, keys.deep_view()),
    {
        self.cache.keys()
    }

    /// The number of entries in the shard.
    pub fn len(&self) -> (count: usize)
        ensures
            count == self@.entries.len(),
    {
        self.cache.len()
    }

    /// The worker's snapshot, reporting the given uptime.
    pub fn status(&self, uptime: String) -> (snapshot: WorkerStatus)
        ensures
            reports(self@, uptime@, snapshot),
    {
        WorkerStatus::new(
            self.id.clone(),
            String::from_str(OK),
            self.state,
            uptime,
            self.error_count,
        )
    }

    /// Hands the worker one command and returns its reply.
    ///
    /// The worker moves to `step` of its state and the command, and the reply
    /// is the one that `answers` describes. A worker that has shut down stays
    /// as it is and replies `Closed`.
    pub fn handle(&mut self, command: Command) -> (reply: Response)
        ensures
            final(self)@ == step(old(self)@, command),
            answers(old(self)@, command, reply),
            old(self).wf() ==> final(self).wf(),
    {
        if self.is_shutdown() {
            return Response::Closed;
        }
        match command {
            Command::Put(key, value) => Response::Value(self.cache.insert(key, value)),
            Command::Get(key) => Response::Value(self.get(key.as_str())),
            Command::Remove(key) => Response::Value(self.cache.remove(key.as_str())),
            Command::Keys => Response::Keys(self.keys()),
            Command::Len => Response::Len(self.len()),
            Command::Status(uptime) => Response::Status(self.status(uptime)),
            Command::Shutdown => {
                self.state = WorkerState::Shutdown;
                self.cache = Store::new();
                Response::Closed
            },
        }
    }

    /// Records that a reply could not be delivered: the error count goes up
    /// by one and stays at its ceiling once it has reached it. Nothing else
    /// changes; what the command did to the shard stands.
    pub fn reply_failed(&mut self)
        ensures
            final(self)@ == (WorkerView {
                error_count: if old(self)@.error_count < u16::MAX {
                    (old(self)@.error_count + 1) as u16
                } else {
                    u16::MAX
                },
                ..old(self)@
            }),
            old(self).wf() ==> final(self).wf(),
    {
        if self.error_count < u16::MAX {
            self.error_count = self.error_count + 1;
        }
    }
}

/// The worker after a queue of commands, handed to it first to last.
pub open spec fn run(worker: WorkerView, commands: Seq<Command>) -> WorkerView
    decreases commands.len(),
{
    if commands.len() == 0 {
        worker
    } else {
        step(run(worker, commands.drop_last()), commands.last())
    }
}

/// Runs a new worker under `id` over a queue of commands and returns its
/// replies, one per command and in the order of the commands.
///
/// Each command meets the worker as the commands before it left it. From
/// `Shutdown` on the worker processes nothing: every later command is
/// answered `Closed` and changes nothing.
///
/// Fails if `id` is not `WORKER_ID_LEN` characters long.
pub fn handler(id: String, commands: Vec<Command>) -> (outcome: Result<Vec<Response>, CacheError>)
    ensures
        match outcome {
            Ok(replies) => {
                &&& id@.len() == WORKER_ID_LEN
                &&& replies@.len() == commands@.len()
                &&& forall|i: int|
                    0 <= i < replies@.len() ==> answers(
                        run(fresh_view(id@), commands@.take(i)),
                        commands@[i],
                        #[trigger] replies@[i],
                    )
            },
            Err(error) => {
                &&& id@.len() != WORKER_ID_LEN
                &&& error matches CacheError::InvalidWorkerId(text)
                &&& text@ == id@
            },
        },
{
    let ghost queue = commands@;
    let ghost start = fresh_view(id@);
    let mut worker = match Worker::new(id) {
        Ok(worker) => worker,
        Err(error) => {
            return Err(error);
        },
    };
    let mut replies: Vec<Response> = Vec::new();
    for command in iter: commands
        invariant
            iter.seq() == queue,
            worker@ == run(start, queue.take(iter.index() as int)),
            replies@.len() == iter.index(),
            forall|i: int|
                0 <= i < replies@.len() ==> answers(
                    run(start, queue.take(i)),
                    queue[i],
                    #[trigger] replies@[i],
                ),
    {
        let ghost done = iter.index() as int;
        assert(queue.take(done + 1).drop_last() =~= queue.take(done));
        let reply = worker.handle(command);
        replies.push(reply);
    }
    Ok(replies)
}

} // verus!
