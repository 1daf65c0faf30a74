//! The pool of workers as its contracts see it: a sequence of worker views,
//! index by index, and what holds of its sizes and keys.

use vstd::prelude::*;
use crate::cache::error::CacheError;
use crate::cache::route::route_index;
use crate::cache::store::text_of;
use crate::cache::worker::{
    fresh_view, is_live, lists_keys, reports, step, valid_view, Command, WorkerView,
};
use crate::worker::{is_down, WorkerStatus, WORKER_ID_LEN};

verus! {

/// A pool as contracts see it: the views of its workers, index by index.
pub type Pool = Seq<WorkerView>;

/// A history of commands, each with the route answer for its key.
pub type History = Seq<(Option<u8>, Command)>;

/// Whether the identifier at `index` can be given to a worker: it has the
/// length of a worker identifier and no earlier worker carries it.
pub open spec fn id_valid_at(ids: Seq<Seq<char>>, index: int) -> bool {
    &&& ids[index].len() == WORKER_ID_LEN
    &&& forall|earlier: int| 0 <= earlier < index ==> ids[earlier] != ids[index]
}

/// The least index from `from` on whose identifier cannot be given to a
/// worker, or the number of identifiers if there is none.
pub open spec fn first_invalid(ids: Seq<Seq<char>>, from: int) -> int
    decreases ids.len() - from,
{
    if from < 0 || from >= ids.len() {
        ids.len() as int
    } else if !id_valid_at(ids, from) {
        from
    } else {
        first_invalid(ids, from + 1)
    }
}

/// The pool right after construction: one fresh worker per identifier.
pub open spec fn fresh_pool(ids: Seq<Seq<char>>) -> Pool {
    Seq::new(ids.len(), |i: int| fresh_view(ids[i]))
}

/// Whether no two workers of the pool carry the same identifier.
pub open spec fn ids_distinct(shards: Pool) -> bool {
    forall|i: int, j: int| 0 <= i < j < shards.len() ==> shards[i].id != shards[j].id
}

/// What every pool satisfies: each worker is valid and their identifiers
/// differ.
pub open spec fn valid_pool(shards: Pool) -> bool {
    &&& forall|i: int| 0 <= i < shards.len() ==> valid_view(#[trigger] shards[i])
    &&& ids_distinct(shards)
}

/// The pool after the worker at `index` has been handed `command`.
pub open spec fn pool_step(shards: Pool, index: int, command: Command) -> Pool {
    shards.update(index, step(shards[index], command))
}

/// The pool after every worker has been handed `Shutdown`.
pub open spec fn pool_stopped(shards: Pool) -> Pool {
    Seq::new(shards.len(), |i: int| step(shards[i], Command::Shutdown))
}

/// Whether `outcome` is what a call on one key owes its caller: from a worker
/// that takes commands the value `held` under the key, and from one that has
/// shut down the failure that names it.
pub open spec fn served(
    worker: WorkerView,
    held: Option<Seq<char>>,
    outcome: Result<Option<String>, CacheError>,
) -> bool {
    match outcome {
        Ok(value) => is_live(worker) && text_of(value) == held,
        Err(error) => {
            &&& !is_live(worker)
            &&& error matches CacheError::WorkerUnreachable(id)
            &&& id@ == worker.id
        },
    }
}

/// Whether `snapshot` is the pool's report on this worker at `uptime`: the
/// worker's own snapshot if it takes commands, the down marker if not.
pub open spec fn status_of(worker: WorkerView, uptime: Seq<char>, snapshot: WorkerStatus) -> bool {
    if is_live(worker) {
        reports(worker, uptime, snapshot)
    } else {
        is_down(worker.id, snapshot)
    }
}

/// The number of entries in all shards together.
pub open spec fn total_len(shards: Pool) -> nat
    decreases shards.len(),
{
    if shards.len() == 0 {
        0
    } else {
        total_len(shards.drop_last()) + shards.last().entries.len()
    }
}

/// Whether the shard at `index` holds `key`.
pub open spec fn holds_key(shards: Pool, index: int, key: Seq<char>) -> bool {
    0 <= index < shards.len() && shards[index].entries.contains_key(key)
}

/// Whether no key is held by two shards.
pub open spec fn shards_disjoint(shards: Pool) -> bool {
    forall|i: int, j: int, key: Seq<char>|
        holds_key(shards, i, key) && holds_key(shards, j, key) ==> i == j
}

/// The keys held by any shard.
pub open spec fn all_keys(shards: Pool) -> Set<Seq<char>> {
    Set::new(|key: Seq<char>| exists|i: int| holds_key(shards, i, key))
}

/// Whether `keys` lists the keys of the pool shard by shard: first a listing
/// of the first shard's keys, then one of the second's, and so on.
pub open spec fn lists_pool_keys(shards: Pool, keys: Seq<Seq<char>>) -> bool
    decreases shards.len(),
{
    if shards.len() == 0 {
        keys.len() == 0
    } else {
        let count = shards.last().entries.len();
        &&& count <= keys.len()
        &&& lists_keys(shards.last().entries, keys.skip(keys.len() - count))
        &&& lists_pool_keys(shards.drop_last(), keys.take(keys.len() - count))
    }
}

/// By how many entries the pool grows when the worker at `index` is handed
/// `command`: one for a new key put, one less for a held key removed, all its
/// entries less for a worker that stops, and nothing otherwise.
pub open spec fn growth(shards: Pool, index: int, command: Command) -> int {
    let worker = shards[index];
    if !is_live(worker) {
        0
    } else {
        match command {
            Command::Put(key, _) => if worker.entries.contains_key(key@) {
                0
            } else {
                1
            },
            Command::Remove(key) => if worker.entries.contains_key(key@) {
                -1
            } else {
                0
            },
            Command::Shutdown => -(worker.entries.len() as int),
            _ => 0,
        }
    }
}

/// The pool of `pool_size` workers after a history of commands, each sent
/// to the worker that its route answer selects.
pub open spec fn run_history(shards: Pool, pool_size: usize, history: History) -> Pool
    decreases history.len(),
{
    if history.len() == 0 {
        shards
    } else {
        pool_step(
            run_history(shards, pool_size, history.drop_last()),
            route_index(pool_size, history.last().0) as int,
            history.last().1,
        )
    }
}

/// By how many entries the pool grows over a history of commands: the sum
/// of `growth` over its steps.
pub open spec fn net_growth(shards: Pool, pool_size: usize, history: History) -> int
    decreases history.len(),
{
    if history.len() == 0 {
        0
    } else {
        net_growth(shards, pool_size, history.drop_last()) + growth(
            run_history(shards, pool_size, history.drop_last()),
            route_index(pool_size, history.last().0) as int,
            history.last().1,
        )
    }
}

/// The key that a command puts a value under, if it is a `Put`.
pub open spec fn put_key(command: Command) -> Option<Seq<char>> {
    match command {
        Command::Put(key, _) => Some(key@),
        _ => None,
    }
}

/// Whether the command at `at` of the history puts a value under `key` and
/// is routed to the worker at `index`.
pub open spec fn put_to(
    pool_size: usize,
    history: History,
    at: int,
    index: int,
    key: Seq<char>,
) -> bool {
    puts_key(history, at, key) && route_index(pool_size, history[at].0) == index
}

/// Whether the history routes by key: whenever two of its commands put a
/// value under the same key, they are routed to the same worker.
pub open spec fn routes_by_key(pool_size: usize, history: History) -> bool {
    forall|i: int, j: int, key: Seq<char>|
        puts_key(history, i, key) && puts_key(history, j, key) ==> route_index(
            pool_size,
            history[i].0,
        ) == route_index(pool_size, history[j].0)
}

/// Whether the command at `index` of the history puts a value under `key`.
pub open spec fn puts_key(history: History, index: int, key: Seq<char>) -> bool {
    0 <= index < history.len() && put_key(history[index].1) == Some(key)
}

/// The keys that a history of commands puts values under.
pub open spec fn keys_put(history: History) -> Set<Seq<char>> {
    Set::new(|key: Seq<char>| exists|i: int| puts_key(history, i, key))
}

/// Whether every command of the history is a `Put`.
pub open spec fn only_puts(history: History) -> bool {
    forall|i: int| 0 <= i < history.len() ==> put_key((#[trigger] history[i]).1) is Some
}

/// Whether no two commands of the history put a value under the same key.
pub open spec fn puts_distinct(history: History) -> bool {
    forall|i: int, j: int|
        0 <= i < j < history.len() ==> put_key((#[trigger] history[i]).1) != put_key(
            (#[trigger] history[j]).1,
        )
}

/// Whether every worker of the pool takes commands.
pub open spec fn all_live(shards: Pool) -> bool {
    forall|i: int| 0 <= i < shards.len() ==> is_live(#[trigger] shards[i])
}

/// A listing of a shard's keys is as long as the shard has entries.
pub proof fn lemma_listing_len(worker: WorkerView, keys: Seq<Seq<char>>)
    requires
        lists_keys(worker.entries, keys),
    ensures
        keys.len() == worker.entries.len(),
{
    keys.unique_seq_to_set();
}

/// Taking one more shard adds that shard's entries to the total.
pub proof fn lemma_total_len_next(shards: Pool, index: int)
    requires
        0 <= index < shards.len(),
    ensures
        total_len(shards.take(index + 1)) == total_len(shards.take(index))
            + shards[index].entries.len(),
{
    assert(shards.take(index + 1).drop_last() =~= shards.take(index));
}

/// Replacing one shard changes the total by the difference of the two
/// shards' sizes.
pub proof fn lemma_total_len_update(shards: Pool, index: int, worker: WorkerView)
    requires
        0 <= index < shards.len(),
    ensures
        total_len(shards.update(index, worker)) + shards[index].entries.len() == total_len(shards)
            + worker.entries.len(),
    decreases shards.len(),
{
    let changed = shards.update(index, worker);
    if index == shards.len() - 1 {
        assert(changed.drop_last() =~= shards.drop_last());
    } else {
        assert(changed.drop_last() =~= shards.drop_last().update(index, worker));
        lemma_total_len_update(shards.drop_last(), index, worker);
    }
}

/// A shard-by-shard listing of the pool's keys has one item per entry of
/// the pool, and holds exactly the keys that some shard holds.
pub proof fn lemma_pool_listing(shards: Pool, keys: Seq<Seq<char>>)
    requires
        lists_pool_keys(shards, keys),
    ensures
        keys.len() == total_len(shards),
        keys.to_set() == all_keys(shards),
    decreases shards.len(),
{
    if shards.len() == 0 {
        assert(keys.to_set() =~= all_keys(shards));
    } else {
        let count = shards.last().entries.len();
        let head = keys.take(keys.len() - count);
        let tail = keys.skip(keys.len() - count);
        let front = shards.drop_last();
        lemma_pool_listing(front, head);
        lemma_listing_len(shards.last(), tail);
        assert(keys =~= head + tail);
        assert forall|key: Seq<char>| keys.to_set().contains(key) <==> all_keys(shards).contains(
            key,
        ) by {
            if keys.to_set().contains(key) {
                let at = choose|at: int| 0 <= at < keys.len() && keys[at] == key;
                if at < head.len() {
                    assert(head[at] == key);
                    assert(all_keys(front).contains(key));
                    let i = choose|i: int| holds_key(front, i, key);
                    assert(holds_key(shards, i, key));
                } else {
                    assert(tail[at - head.len()] == key);
                    assert(tail.to_set().contains(key));
                    assert(holds_key(shards, shards.len() - 1, key));
                }
            }
            if all_keys(shards).contains(key) {
                let i = choose|i: int| holds_key(shards, i, key);
                if i < shards.len() - 1 {
                    assert(holds_key(front, i, key));
                    assert(head.to_set().contains(key));
                    let at = choose|at: int| 0 <= at < head.len() && head[at] == key;
                    assert(keys[at] == key);
                } else {
                    assert(tail.to_set().contains(key));
                    let at = choose|at: int| 0 <= at < tail.len() && tail[at] == key;
                    assert(keys[head.len() + at] == key);
                }
            }
        }
        assert(keys.to_set() =~= all_keys(shards));
    }
}

/// Where no key is held by two shards, a shard-by-shard listing of the
/// pool's keys names no key twice.
pub proof fn lemma_disjoint_listing(shards: Pool, keys: Seq<Seq<char>>)
    requires
        lists_pool_keys(shards, keys),
        shards_disjoint(shards),
    ensures
        keys.no_duplicates(),
    decreases shards.len(),
{
    if shards.len() > 0 {
        let count = shards.last().entries.len();
        let head = keys.take(keys.len() - count);
        let tail = keys.skip(keys.len() - count);
        let front = shards.drop_last();
        assert forall|i: int, j: int, key: Seq<char>|
            holds_key(front, i, key) && holds_key(front, j, key) implies i == j by {
            assert(holds_key(shards, i, key) && holds_key(shards, j, key));
        }
        lemma_disjoint_listing(front, head);
        lemma_pool_listing(front, head);
        assert forall|i: int, j: int| 0 <= i < j < keys.len() implies keys[i] != keys[j] by {
            if j < head.len() {
                assert(head[i] == keys[i] && head[j] == keys[j]);
            } else if i >= head.len() {
                assert(tail[i - head.len()] == keys[i] && tail[j - head.len()] == keys[j]);
            } else if keys[i] == keys[j] {
                assert(head[i] == keys[i]);
                assert(head.to_set().contains(keys[i]));
                let at = choose|at: int| holds_key(front, at, keys[i]);
                assert(holds_key(shards, at, keys[i]));
                assert(tail[j - head.len()] == keys[j]);
                assert(tail.to_set().contains(keys[j]));
                assert(holds_key(shards, shards.len() - 1, keys[j]));
            }
        }
    }
}

} // verus!
