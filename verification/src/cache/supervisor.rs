//! The supervisor owns a fixed pool of shard workers and is the cache's
//! public face: every call goes to the one worker that the route selects, or
//! to all workers in index order.

use vstd::prelude::*;
use crate::cache::error::CacheError;
use crate::cache::laws::law_stopped_pool_is_valid;
use crate::cache::pool::{
    all_keys, first_invalid, fresh_pool, id_valid_at, lemma_disjoint_listing, lemma_listing_len,
    lemma_pool_listing, lemma_total_len_next, lists_pool_keys, pool_step, pool_stopped, served,
    shards_disjoint, status_of, total_len, valid_pool, Pool,
};
use crate::cache::route::route_index;
use crate::cache::store::lookup;
use crate::cache::worker::{fresh_view, step, valid_view, Command, Response, Worker, WorkerView};
use crate::worker::{JsonString, WorkerStatus};

verus! {

/// The supervisor of a pool of workers. The worker at index `i` owns shard
/// `i`; the pool never changes size.
#[derive(Debug)]
pub struct Supervisor {
    pub pool_size: usize,
    pub auto_routing: bool,
    pub workers: Vec<Worker>,
}

impl View for Supervisor {
    type V = Pool;

    open spec fn view(&self) -> Pool {
        Seq::new(self.workers@.len(), |i: int| self.workers@[i]@)
    }
}

impl Default for Supervisor {
    /// A supervisor without workers.
    fn default() -> (pool: Supervisor)
        ensures
            pool.wf(),
            pool.pool_size == 0,
            !pool.auto_routing,
            pool@ == Pool::empty(),
    {
        let pool = Supervisor { pool_size: 0, auto_routing: false, workers: Vec::new() };
        assert(pool@ =~= Pool::empty());
        pool
    }
}

impl Supervisor {
    /// Whether the supervisor is as its own operations leave it: as many
    /// workers as `pool_size` says, and a valid pool.
    pub open spec fn wf(&self) -> bool {
        &&& self.workers@.len() == self.pool_size
        &&& valid_pool(self@)
    }

    /// Creates the pool: one worker per identifier, in the order given.
    ///
    /// Fails on the first identifier that cannot be given to a worker, and
    /// names it.
    pub fn new(ids: Vec<String>) -> (made: Result<Supervisor, CacheError>)
        ensures
            match made {
                Ok(pool) => {
                    &&& first_invalid(ids.deep_view(), 0) == ids.len()
                    &&& pool.wf()
                    &&& pool.pool_size == ids.len()
                    &&& pool.auto_routing
                    &&& pool@ == fresh_pool(ids.deep_view())
                },
                Err(error) => {
                    &&& first_invalid(ids.deep_view(), 0) < ids.len()
                    &&& error matches CacheError::InvalidWorkerId(text)
                    &&& text@ == ids.deep_view()[first_invalid(ids.deep_view(), 0)]
                },
            },
    {
        let ghost texts = ids.deep_view();
        let mut workers: Vec<Worker> = Vec::new();
        let mut i: usize = 0;
        while i < ids.len()
            invariant
                i <= ids.len(),
                texts == ids.deep_view(),
                workers@.len() == i,
                first_invalid(texts, 0) == first_invalid(texts, i as int),
                forall|k: int| 0 <= k < i ==> (#[trigger] workers@[k])@ == fresh_view(texts[k]),
                forall|k: int| 0 <= k < i ==> id_valid_at(texts, k),
            decreases ids.len() - i,
        {
            assert(texts[i as int] == ids@[i as int]@);
            let mut k: usize = 0;
            while k < i
                invariant
                    k <= i < ids.len(),
                    texts == ids.deep_view(),
                    texts[i as int] == ids@[i as int]@,
                    first_invalid(texts, 0) == first_invalid(texts, i as int),
                    forall|earlier: int| 0 <= earlier < k ==> texts[earlier] != texts[i as int],
                decreases i - k,
            {
                assert(texts[k as int] == ids@[k as int]@);
                if ids[k] == ids[i] {
                    return Err(CacheError::InvalidWorkerId(ids[i].clone()));
                }
                k += 1;
            }
            match Worker::new(ids[i].clone()) {
                Ok(worker) => {
                    workers.push(worker);
                },
                Err(error) => {
                    return Err(error);
                },
            }
            i += 1;
        }
        let pool = Supervisor { pool_size: ids.len(), auto_routing: true, workers };
        assert(pool@ =~= fresh_pool(texts));
        assert(valid_pool(pool@)) by {
            assert forall|k: int| 0 <= k < pool@.len() implies valid_view(#[trigger] pool@[k]) by {
                assert(id_valid_at(texts, k));
            }
            assert forall|j: int, k: int| 0 <= j < k < pool@.len() implies pool@[j].id
                != pool@[k].id by {
                assert(id_valid_at(texts, k));
            }
        }
        Ok(pool)
    }

    /// The index of the worker for `parsed`, the route function's answer for
    /// a key (nothing if it was not asked or could not tell).
    pub fn get_route(&self, parsed: Option<u8>) -> (index: usize)
        ensures
            index == route_index(self.pool_size, parsed),
            self.pool_size > 0 ==> index < self.pool_size,
            self.pool_size <= 1 ==> index == 0,
    {
        route_index(self.pool_size, parsed)
    }

    /// Stores `value` under `key` in the shard that `parsed` routes to, and
    /// returns the value that the key had there, if any.
    ///
    /// Fails, changing nothing, if the worker of that shard has shut down.
    pub fn set(&mut self, key: String, value: JsonString, parsed: Option<u8>) -> (outcome: Result<
        Option<String>,
        CacheError,
    >)
        requires
            old(self).wf(),
            old(self).pool_size > 0,
        ensures
            final(self).wf(),
            final(self).pool_size == old(self).pool_size,
            final(self).auto_routing == old(self).auto_routing,
            final(self)@ == pool_step(
                old(self)@,
                route_index(old(self).pool_size, parsed) as int,
                Command::Put(key, value),
            ),
            served(
                old(self)@[route_index(old(self).pool_size, parsed) as int],
                lookup(old(self)@[route_index(old(self).pool_size, parsed) as int].entries, key@),
                outcome,
            ),
    {
        let route = self.get_route(parsed);
        let worker = &mut self.workers[route];
        let outcome = match worker.handle(Command::Put(key, value)) {
            Response::Value(previous) => Ok(previous),
            _ => Err(CacheError::WorkerUnreachable(worker.id())),
        };
        assert(self@ =~= pool_step(old(self)@, route as int, Command::Put(key, value)));
        outcome
    }

    /// The value stored under `key` in the shard that `parsed` routes to, if
    /// any.
    ///
    /// Fails if the worker of that shard has shut down.
    pub fn get(&self, key: String, parsed: Option<u8>) -> (outcome: Result<
        Option<String>,
        CacheError,
    >)
        requires
            self.wf(),
            self.pool_size > 0,
        ensures
            served(
                self@[route_index(self.pool_size, parsed) as int],
                lookup(self@[route_index(self.pool_size, parsed) as int].entries, key@),
                outcome,
            ),
    {
        let route = self.get_route(parsed);
        let worker = &self.workers[route];
        if worker.is_shutdown() {
            return Err(CacheError::WorkerUnreachable(worker.id()));
        }
        Ok(worker.get(key.as_str()))
    }

    /// Removes `key` from the shard that `parsed` routes to, and returns the
    /// value that it had there, if any.
    ///
    /// Fails, changing nothing, if the worker of that shard has shut down.
    pub fn remove(&mut self, key: String, parsed: Option<u8>) -> (outcome: Result<
        Option<String>,
        CacheError,
    >)
        requires
            old(self).wf(),
            old(self).pool_size > 0,
        ensures
            final(self).wf(),
            final(self).pool_size == old(self).pool_size,
            final(self).auto_routing == old(self).auto_routing,
            final(self)@ == pool_step(
                old(self)@,
                route_index(old(self).pool_size, parsed) as int,
                Command::Remove(key),
            ),
            served(
                old(self)@[route_index(old(self).pool_size, parsed) as int],
                lookup(old(self)@[route_index(old(self).pool_size, parsed) as int].entries, key@),
                outcome,
            ),
    {
        let route = self.get_route(parsed);
        let worker = &mut self.workers[route];
        let outcome = match worker.handle(Command::Remove(key)) {
            Response::Value(removed) => Ok(removed),
            _ => Err(CacheError::WorkerUnreachable(worker.id())),
        };
        assert(self@ =~= pool_step(old(self)@, route as int, Command::Remove(key)));
        outcome
    }

    /// Stops every worker, in index order. Each worker drops its entries and
    /// takes no further commands; one that had stopped before stays so.
    pub fn shutdown(&mut self) -> (outcome: Result<(), CacheError>)
        ensures
            outcome is Ok,
            old(self).wf() ==> final(self).wf(),
            final(self).pool_size == old(self).pool_size,
            final(self).auto_routing == old(self).auto_routing,
            final(self)@ == pool_stopped(old(self)@),
    {
        let ghost before = self@;
        let mut i: usize = 0;
        while i < self.workers.len()
            invariant
                i <= self.workers@.len(),
                self.workers@.len() == before.len(),
                self.pool_size == old(self).pool_size,
                self.auto_routing == old(self).auto_routing,
                forall|k: int|
                    0 <= k < i ==> (#[trigger] self@[k]) == step(before[k], Command::Shutdown),
                forall|k: int| i <= k < before.len() ==> (#[trigger] self@[k]) == before[k],
            decreases self.workers@.len() - i,
        {
            let ghost current = self@;
            assert(current[i as int] == before[i as int]);
            let _ = self.workers[i].handle(Command::Shutdown);
            assert(self@ =~= current.update(i as int, step(before[i as int], Command::Shutdown)));
            i += 1;
        }
        assert(self@ =~= pool_stopped(before));
        proof {
            if old(self).wf() {
                law_stopped_pool_is_valid(before);
            }
        }
        Ok(())
    }

    /// The report on one worker at `uptime`: its own snapshot if it takes
    /// commands, the down marker under its identifier if not.
    fn worker_status(worker: &Worker, uptime: &str) -> (snapshot: WorkerStatus)
        ensures
            status_of(worker@, uptime@, snapshot),
    {
        if worker.is_shutdown() {
            WorkerStatus::worker_down(worker.id())
        } else {
            worker.status(String::from_str(uptime))
        }
    }

    /// The report on every worker, in index order, at `uptime`. A worker
    /// that has shut down is reported by the down marker.
    pub fn status(&self, uptime: &str) -> (list: Vec<WorkerStatus>)
        ensures
            list@.len() == self@.len(),
            forall|i: int|
                0 <= i < list@.len() ==> status_of(self@[i], uptime@, #[trigger] list@[i]),
    {
        let mut list: Vec<WorkerStatus> = Vec::new();
        let mut i: usize = 0;
        while i < self.workers.len()
            invariant
                i <= self.workers@.len(),
                list@.len() == i,
                forall|k: int| 0 <= k < i ==> status_of(self@[k], uptime@, #[trigger] list@[k]),
            decreases self.workers@.len() - i,
        {
            let snapshot = Self::worker_status(&self.workers[i], uptime);
            list.push(snapshot);
            i += 1;
        }
        list
    }

    /// The keys of all shards: the keys of the first shard, then those of
    /// the second, and so on. Within a shard the order is not fixed. A key
    /// comes once for each shard that holds it.
    pub fn keys(&self) -> (keys: Vec<String>)
        ensures
            lists_pool_keys(self@, keys.deep_view()),
            keys@.len() == total_len(self@),
            keys.deep_view().to_set() == all_keys(self@),
            shards_disjoint(self@) ==> keys.deep_view().no_duplicates(),
    {
        let mut keys: Vec<String> = Vec::new();
        let mut i: usize = 0;
        while i < self.workers.len()
            invariant
                i <= self.workers@.len(),
                lists_pool_keys(self@.take(i as int), keys.deep_view()),
            decreases self.workers@.len() - i,
        {
            let mut part = self.workers[i].keys();
            let ghost head = keys.deep_view();
            let ghost tail = part.deep_view();
            proof {
                lemma_listing_len(self@[i as int], tail);
            }
            keys.append(&mut part);
            proof {
                let joined = keys.deep_view();
                let shards = self@.take(i as int + 1);
                assert(joined =~= head + tail);
                assert(shards.drop_last() =~= self@.take(i as int));
                assert(joined.skip(joined.len() - tail.len()) =~= tail);
                assert(joined.take(joined.len() - tail.len()) =~= head);
            }
            i += 1;
        }
        proof {
            assert(self@.take(i as int) =~= self@);
            lemma_pool_listing(self@, keys.deep_view());
            if shards_disjoint(self@) {
                lemma_disjoint_listing(self@, keys.deep_view());
            }
        }
        keys
    }

    /// The number of entries in all shards together. A total that `usize`
    /// cannot hold is reported as `usize::MAX`.
    pub fn len(&self) -> (count: usize)
        ensures
            count == if total_len(self@) <= usize::MAX {
                total_len(self@)
            } else {
                usize::MAX as nat
            },
    {
        let mut count: usize = 0;
        let mut i: usize = 0;
        while i < self.workers.len()
            invariant
                i <= self.workers@.len(),
                count == if total_len(self@.take(i as int)) <= usize::MAX {
                    total_len(self@.take(i as int))
                } else {
                    usize::MAX as nat
                },
            decreases self.workers@.len() - i,
        {
            proof {
                lemma_total_len_next(self@, i as int);
            }
            let part = self.workers[i].len();
            count = if part <= usize::MAX - count {
                count + part
            } else {
                usize::MAX
            };
            i += 1;
        }
        assert(self@.take(i as int) =~= self@);
        count
    }
}

} // verus!
