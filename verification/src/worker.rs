//! Lifecycle states of a shard worker and the status snapshot it reports.

use vstd::prelude::*;

verus! {

/// Values stored in the cache are opaque text, by convention JSON.
pub type JsonString = String;

/// Status code of a worker that answers.
pub const OK: &'static str = "Ok";

/// Status code reported on behalf of a worker that cannot be reached.
pub const DOWN: &'static str = "Down";

/// Number of characters in a worker identifier.
pub const WORKER_ID_LEN: usize = 16;

/// Where a worker is in its life.
#[derive(Debug, Clone, Copy, PartialEq, Eq, Structural)]
pub enum WorkerState {
    Idle,
    Busy,
    Broken,
    Shutdown,
}

impl Default for WorkerState {
    fn default() -> (state: WorkerState)
        ensures
            state == WorkerState::Idle,
    {
        WorkerState::Idle
    }
}

/// The text under which a state appears in an encoded snapshot.
pub open spec fn state_name(state: WorkerState) -> Seq<char> {
    match state {
        WorkerState::Idle => "Idle"@,
        WorkerState::Busy => "Busy"@,
        WorkerState::Broken => "Broken"@,
        WorkerState::Shutdown => "Shutdown"@,
    }
}

impl WorkerState {
    /// The name of the state, one of `Idle`, `Busy`, `Broken`, `Shutdown`.
    pub fn name(&self) -> (text: &'static str)
        ensures
            text@ == state_name(*self),
    {
        match self {
            WorkerState::Idle => "Idle",
            WorkerState::Busy => "Busy",
            WorkerState::Broken => "Broken",
            WorkerState::Shutdown => "Shutdown",
        }
    }
}

/// A snapshot of one worker: who it is, whether it answers, where it is in
/// its life, how long it has been up, and how many replies it failed to deliver.
#[derive(Debug, Clone)]
pub struct WorkerStatus {
    pub worker_id: String,
    pub status: String,
    pub state: WorkerState,
    pub uptime: String,
    pub error_count: u16,
}

/// Whether `snapshot` is the one reported in place of a worker that cannot
/// be reached: status `DOWN`, state `Broken`, no uptime, no errors counted.
pub open spec fn is_down(worker_id: Seq<char>, snapshot: WorkerStatus) -> bool {
    &&& snapshot.worker_id@ == worker_id
    &&& snapshot.status@ == DOWN@
    &&& snapshot.state == WorkerState::Broken
    &&& snapshot.uptime@ == Seq::<char>::empty()
    &&& snapshot.error_count == 0
}

impl WorkerStatus {
    /// A snapshot holding exactly the given fields.
    pub fn new(
        worker_id: String,
        status: String,
        state: WorkerState,
        uptime: String,
        error_count: u16,
    ) -> (snapshot: WorkerStatus)
        ensures
            snapshot.worker_id == worker_id,
            snapshot.status == status,
            snapshot.state == state,
            snapshot.uptime == uptime,
            snapshot.error_count == error_count,
    {
        WorkerStatus { worker_id, status, state, uptime, error_count }
    }

    /// The snapshot reported in place of a worker whose command channel is
    /// down: status `DOWN`, state `Broken`, no uptime, no errors counted.
    pub fn worker_down(worker_id: String) -> (snapshot: WorkerStatus)
        ensures
            snapshot.worker_id == worker_id,
            is_down(worker_id@, snapshot),
    {
        WorkerStatus {
            worker_id,
            status: String::from_str(DOWN),
            state: WorkerState::Broken,
            uptime: String::new(),
            error_count: 0,
        }
    }
}

} // verus!
