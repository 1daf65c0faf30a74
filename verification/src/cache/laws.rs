//! What holds of the cache whatever the calls: each law is stated over the
//! views and spec functions that the contracts of the supervisor and the
//! worker use, and proved from them.

use vstd::prelude::*;
use crate::cache::error::CacheError;
use crate::cache::pool::{
    all_keys, all_live, first_invalid, fresh_pool, growth, holds_key, id_valid_at, keys_put,
    lemma_total_len_update, net_growth, only_puts, pool_step, pool_stopped, put_key, put_to,
    puts_distinct, puts_key, routes_by_key, run_history, served, shards_disjoint, status_of,
    total_len, valid_pool, History, Pool,
};
use crate::cache::route::route_index;
use crate::cache::store::{lookup, Entries};
use crate::cache::worker::{is_live, run, step, valid_view, Command, WorkerView};
use crate::worker::{WorkerState, WorkerStatus, OK, WORKER_ID_LEN};

verus! {

/// A valid worker stays valid whatever command it is handed, keeps its
/// identifier and its error count, and never comes back from shutdown.
pub proof fn law_step_keeps_worker_valid(worker: WorkerView, command: Command)
    requires
        valid_view(worker),
    ensures
        valid_view(step(worker, command)),
        step(worker, command).id == worker.id,
        step(worker, command).error_count == worker.error_count,
        !is_live(worker) ==> step(worker, command) == worker,
{
}

/// Shutdown is terminal: a worker that has shut down is left as it is by
/// any queue of commands.
pub proof fn law_shutdown_is_terminal(worker: WorkerView, commands: Seq<Command>)
    requires
        !is_live(worker),
    ensures
        run(worker, commands) == worker,
    decreases commands.len(),
{
    if commands.len() > 0 {
        law_shutdown_is_terminal(worker, commands.drop_last());
    }
}

/// Handing a valid pool's worker a command leaves a valid pool of the same
/// size.
pub proof fn law_step_keeps_pool_valid(shards: Pool, index: int, command: Command)
    requires
        valid_pool(shards),
        0 <= index < shards.len(),
    ensures
        valid_pool(pool_step(shards, index, command)),
        pool_step(shards, index, command).len() == shards.len(),
{
    let after = pool_step(shards, index, command);
    assert(valid_view(shards[index]));
    assert forall|i: int| 0 <= i < after.len() implies valid_view(#[trigger] after[i]) by {
        assert(valid_view(shards[i]));
    }
}

/// A value that was set is the value that is read: `set(key, value)` on a
/// worker that takes commands returns nothing if the key was not held, and
/// `get(key)` by the same route then returns `value`.
pub proof fn law_get_after_set(
    shards: Pool,
    pool_size: usize,
    parsed: Option<u8>,
    key: String,
    value: String,
    replaced: Result<Option<String>, CacheError>,
    read: Result<Option<String>, CacheError>,
)
    requires
        valid_pool(shards),
        shards.len() == pool_size,
        pool_size > 0,
        is_live(shards[route_index(pool_size, parsed) as int]),
        ({
            let route = route_index(pool_size, parsed) as int;
            let after = pool_step(shards, route, Command::Put(key, value));
            &&& served(shards[route], lookup(shards[route].entries, key@), replaced)
            &&& served(after[route], lookup(after[route].entries, key@), read)
        }),
    ensures
        !shards[route_index(pool_size, parsed) as int].entries.contains_key(key@)
            ==> replaced matches Ok(None),
        read matches Ok(Some(text)) && text@ == value@,
{
}

/// An update returns what it replaces: after `set(key, first)` on a worker
/// that takes commands, `set(key, second)` by the same route returns `first`.
pub proof fn law_set_returns_previous(
    shards: Pool,
    pool_size: usize,
    parsed: Option<u8>,
    key: String,
    first: String,
    second: String,
    replaced: Result<Option<String>, CacheError>,
)
    requires
        valid_pool(shards),
        shards.len() == pool_size,
        pool_size > 0,
        is_live(shards[route_index(pool_size, parsed) as int]),
        ({
            let route = route_index(pool_size, parsed) as int;
            let after = pool_step(shards, route, Command::Put(key, first));
            served(after[route], lookup(after[route].entries, key@), replaced)
        }),
    ensures
        replaced matches Ok(Some(text)) && text@ == first@,
        ({
            let route = route_index(pool_size, parsed) as int;
            let after = pool_step(shards, route, Command::Put(key, first));
            let last = pool_step(after, route, Command::Put(key, second));
            lookup(last[route].entries, key@) == Some(second@)
        }),
{
}

/// Removing a key that is held returns the value it had, and a later
/// `get(key)` by the same route finds nothing.
pub proof fn law_remove_present(
    shards: Pool,
    pool_size: usize,
    parsed: Option<u8>,
    key: String,
    removed: Result<Option<String>, CacheError>,
    read: Result<Option<String>, CacheError>,
)
    requires
        valid_pool(shards),
        shards.len() == pool_size,
        pool_size > 0,
        is_live(shards[route_index(pool_size, parsed) as int]),
        shards[route_index(pool_size, parsed) as int].entries.contains_key(key@),
        ({
            let route = route_index(pool_size, parsed) as int;
            let after = pool_step(shards, route, Command::Remove(key));
            &&& served(shards[route], lookup(shards[route].entries, key@), removed)
            &&& served(after[route], lookup(after[route].entries, key@), read)
        }),
    ensures
        removed matches Ok(Some(text)) && text@ == shards[route_index(
            pool_size,
            parsed,
        ) as int].entries[key@],
        read matches Ok(None),
{
}

/// Removing a key that is not held returns nothing and changes neither the
/// pool nor its length.
pub proof fn law_remove_absent(
    shards: Pool,
    pool_size: usize,
    parsed: Option<u8>,
    key: String,
    removed: Result<Option<String>, CacheError>,
)
    requires
        valid_pool(shards),
        shards.len() == pool_size,
        pool_size > 0,
        is_live(shards[route_index(pool_size, parsed) as int]),
        !shards[route_index(pool_size, parsed) as int].entries.contains_key(key@),
        served(
            shards[route_index(pool_size, parsed) as int],
            lookup(shards[route_index(pool_size, parsed) as int].entries, key@),
            removed,
        ),
    ensures
        removed matches Ok(None),
        pool_step(shards, route_index(pool_size, parsed) as int, Command::Remove(key)) == shards,
        total_len(pool_step(shards, route_index(pool_size, parsed) as int, Command::Remove(key)))
            == total_len(shards),
{
    let route = route_index(pool_size, parsed) as int;
    let after = pool_step(shards, route, Command::Remove(key));
    assert(shards[route].entries.remove(key@) =~= shards[route].entries);
    assert(after =~= shards);
}

/// One command changes the pool's length by its `growth`.
pub proof fn law_len_after_step(shards: Pool, index: int, command: Command)
    requires
        valid_pool(shards),
        0 <= index < shards.len(),
    ensures
        total_len(pool_step(shards, index, command)) == total_len(shards) + growth(
            shards,
            index,
            command,
        ),
{
    let worker = shards[index];
    assert(valid_view(worker));
    lemma_total_len_update(shards, index, step(worker, command));
    if is_live(worker) {
        match command {
            Command::Put(key, value) => {
                if worker.entries.contains_key(key@) {
                    assert(worker.entries.insert(key@, value@).dom() =~= worker.entries.dom());
                }
            },
            Command::Remove(key) => {
                if !worker.entries.contains_key(key@) {
                    assert(worker.entries.remove(key@).dom() =~= worker.entries.dom());
                }
            },
            _ => {},
        }
    }
}

/// A `set` makes the pool one entry longer exactly when it returns that the
/// key was new, and leaves its length otherwise.
pub proof fn law_len_after_set(
    shards: Pool,
    pool_size: usize,
    parsed: Option<u8>,
    key: String,
    value: String,
    replaced: Result<Option<String>, CacheError>,
)
    requires
        valid_pool(shards),
        shards.len() == pool_size,
        pool_size > 0,
        served(
            shards[route_index(pool_size, parsed) as int],
            lookup(shards[route_index(pool_size, parsed) as int].entries, key@),
            replaced,
        ),
    ensures
        total_len(
            pool_step(shards, route_index(pool_size, parsed) as int, Command::Put(key, value)),
        ) == total_len(shards) + if replaced matches Ok(None) {
            1int
        } else {
            0int
        },
{
    law_len_after_step(shards, route_index(pool_size, parsed) as int, Command::Put(key, value));
}

/// A `remove` makes the pool one entry shorter exactly when it returns a
/// value, and leaves its length otherwise.
pub proof fn law_len_after_remove(
    shards: Pool,
    pool_size: usize,
    parsed: Option<u8>,
    key: String,
    removed: Result<Option<String>, CacheError>,
)
    requires
        valid_pool(shards),
        shards.len() == pool_size,
        pool_size > 0,
        served(
            shards[route_index(pool_size, parsed) as int],
            lookup(shards[route_index(pool_size, parsed) as int].entries, key@),
            removed,
        ),
    ensures
        total_len(pool_step(shards, route_index(pool_size, parsed) as int, Command::Remove(key)))
            == total_len(shards) - if removed matches Ok(Some(_)) {
            1int
        } else {
            0int
        },
{
    law_len_after_step(shards, route_index(pool_size, parsed) as int, Command::Remove(key));
}

/// A history of commands leaves a valid pool of the same size.
pub proof fn law_history_keeps_pool_valid(shards: Pool, pool_size: usize, history: History)
    requires
        valid_pool(shards),
        shards.len() == pool_size,
        pool_size > 0,
    ensures
        valid_pool(run_history(shards, pool_size, history)),
        run_history(shards, pool_size, history).len() == pool_size,
    decreases history.len(),
{
    if history.len() > 0 {
        law_history_keeps_pool_valid(shards, pool_size, history.drop_last());
        law_step_keeps_pool_valid(
            run_history(shards, pool_size, history.drop_last()),
            route_index(pool_size, history.last().0) as int,
            history.last().1,
        );
    }
}

/// The length of the pool is additive: after any history of commands it is
/// the length before plus the net growth of the history, that is the new
/// keys put less the held keys removed and the entries that stopping
/// workers dropped.
pub proof fn law_len_additive(shards: Pool, pool_size: usize, history: History)
    requires
        valid_pool(shards),
        shards.len() == pool_size,
        pool_size > 0,
    ensures
        total_len(run_history(shards, pool_size, history)) == total_len(shards) + net_growth(
            shards,
            pool_size,
            history,
        ),
    decreases history.len(),
{
    if history.len() > 0 {
        let earlier = history.drop_last();
        law_len_additive(shards, pool_size, earlier);
        law_history_keeps_pool_valid(shards, pool_size, earlier);
        law_len_after_step(
            run_history(shards, pool_size, earlier),
            route_index(pool_size, history.last().0) as int,
            history.last().1,
        );
    }
}

/// Stopping every worker of a valid pool leaves a valid pool.
pub proof fn law_stopped_pool_is_valid(shards: Pool)
    requires
        valid_pool(shards),
    ensures
        valid_pool(pool_stopped(shards)),
        pool_stopped(shards).len() == shards.len(),
{
    let stopped = pool_stopped(shards);
    assert forall|i: int| 0 <= i < stopped.len() implies valid_view(#[trigger] stopped[i]) by {
        assert(valid_view(shards[i]));
    }
}

/// Shutdown leaves nothing behind: after it no worker takes commands, and
/// the pool holds no entry and no key.
pub proof fn law_stopped_pool_is_empty(shards: Pool)
    requires
        valid_pool(shards),
    ensures
        forall|i: int| 0 <= i < shards.len() ==> !is_live(#[trigger] pool_stopped(shards)[i]),
        total_len(pool_stopped(shards)) == 0,
        all_keys(pool_stopped(shards)) == Set::<Seq<char>>::empty(),
    decreases shards.len(),
{
    let stopped = pool_stopped(shards);
    assert forall|i: int| 0 <= i < shards.len() implies !is_live(#[trigger] stopped[i])
        && stopped[i].entries == Entries::empty() by {
        assert(valid_view(shards[i]));
    }
    if shards.len() > 0 {
        assert(valid_pool(shards.drop_last())) by {
            assert forall|i: int| 0 <= i < shards.drop_last().len() implies valid_view(
                #[trigger] shards.drop_last()[i],
            ) by {
                assert(valid_view(shards[i]));
            }
        }
        law_stopped_pool_is_empty(shards.drop_last());
        assert(stopped.drop_last() =~= pool_stopped(shards.drop_last()));
    }
    assert(all_keys(stopped) =~= Set::<Seq<char>>::empty());
}

/// A pool that has just been created holds nothing.
pub proof fn law_fresh_pool_is_empty(ids: Seq<Seq<char>>)
    ensures
        total_len(fresh_pool(ids)) == 0,
        all_keys(fresh_pool(ids)) == Set::<Seq<char>>::empty(),
    decreases ids.len(),
{
    let pool = fresh_pool(ids);
    if ids.len() > 0 {
        law_fresh_pool_is_empty(ids.drop_last());
        assert(pool.drop_last() =~= fresh_pool(ids.drop_last()));
    }
    assert(all_keys(pool) =~= Set::<Seq<char>>::empty());
}

/// The keys of the pool are complete: after a history of `set` calls and
/// nothing else, on a pool whose workers all take commands, the pool holds
/// the keys it held before and the keys that were set, and no others.
pub proof fn law_keys_complete(shards: Pool, pool_size: usize, history: History)
    requires
        valid_pool(shards),
        shards.len() == pool_size,
        pool_size > 0,
        all_live(shards),
        only_puts(history),
    ensures
        all_live(run_history(shards, pool_size, history)),
        all_keys(run_history(shards, pool_size, history)) == all_keys(shards).union(
            keys_put(history),
        ),
    decreases history.len(),
{
    let after = run_history(shards, pool_size, history);
    if history.len() == 0 {
        assert(all_keys(after) =~= all_keys(shards).union(keys_put(history)));
    } else {
        let last = history.len() - 1;
        let earlier = history.drop_last();
        let before = run_history(shards, pool_size, earlier);
        let route = route_index(pool_size, history[last].0) as int;
        assert forall|i: int| 0 <= i < earlier.len() implies put_key(
            (#[trigger] earlier[i]).1,
        ) is Some by {
            assert(earlier[i] == history[i]);
        }
        law_keys_complete(shards, pool_size, earlier);
        law_history_keeps_pool_valid(shards, pool_size, earlier);
        assert(put_key(history[last].1) is Some);
        assert(is_live(before[route]));
        assert forall|i: int| 0 <= i < after.len() implies is_live(#[trigger] after[i]) by {
            assert(is_live(before[i]));
        }
        assert forall|k: Seq<char>| all_keys(after).contains(k) <==> all_keys(shards).union(
            keys_put(history),
        ).contains(k) by {
            if all_keys(after).contains(k) {
                let i = choose|i: int| holds_key(after, i, k);
                if holds_key(before, i, k) {
                    assert(all_keys(before).contains(k));
                    if keys_put(earlier).contains(k) {
                        let at = choose|at: int| puts_key(earlier, at, k);
                        assert(puts_key(history, at, k));
                    }
                } else {
                    assert(puts_key(history, last, k));
                }
            }
            if keys_put(history).contains(k) {
                let at = choose|at: int| puts_key(history, at, k);
                if at == last {
                    assert(holds_key(after, route, k));
                } else {
                    assert(puts_key(earlier, at, k));
                }
            }
            if all_keys(before).contains(k) {
                let i = choose|i: int| holds_key(before, i, k);
                assert(holds_key(after, i, k));
            }
        }
        assert(all_keys(after) =~= all_keys(shards).union(keys_put(history)));
    }
}

/// Keys that are set once each are counted once each: after a history of
/// `set` calls under keys that differ from each other and from the keys
/// held before, on a pool whose workers all take commands, the pool is
/// longer by the number of calls.
pub proof fn law_unique_keys_counted(shards: Pool, pool_size: usize, history: History)
    requires
        valid_pool(shards),
        shards.len() == pool_size,
        pool_size > 0,
        all_live(shards),
        only_puts(history),
        puts_distinct(history),
        all_keys(shards).disjoint(keys_put(history)),
    ensures
        total_len(run_history(shards, pool_size, history)) == total_len(shards) + history.len(),
    decreases history.len(),
{
    if history.len() > 0 {
        let last = history.len() - 1;
        let earlier = history.drop_last();
        let before = run_history(shards, pool_size, earlier);
        let route = route_index(pool_size, history[last].0) as int;
        assert forall|i: int| 0 <= i < earlier.len() implies put_key(
            (#[trigger] earlier[i]).1,
        ) is Some by {
            assert(earlier[i] == history[i]);
        }
        assert forall|i: int, j: int| 0 <= i < j < earlier.len() implies put_key(
            (#[trigger] earlier[i]).1,
        ) != put_key((#[trigger] earlier[j]).1) by {
            assert(earlier[i] == history[i] && earlier[j] == history[j]);
        }
        assert forall|k: Seq<char>| keys_put(earlier).contains(k) implies keys_put(
            history,
        ).contains(k) by {
            let at = choose|at: int| puts_key(earlier, at, k);
            assert(puts_key(history, at, k));
        }
        law_unique_keys_counted(shards, pool_size, earlier);
        law_keys_complete(shards, pool_size, earlier);
        law_history_keeps_pool_valid(shards, pool_size, earlier);
        law_len_after_step(before, route, history[last].1);
        assert(put_key(history[last].1) is Some);
        let key = put_key(history[last].1)->0;
        assert(puts_key(history, last, key));
        assert(!before[route].entries.contains_key(key)) by {
            if before[route].entries.contains_key(key) {
                assert(holds_key(before, route, key));
                assert(all_keys(before).contains(key));
                let at = choose|at: int| puts_key(earlier, at, key);
                assert(put_key(history[at].1) == put_key(history[last].1));
            }
        }
        assert(is_live(before[route]));
    }
}

/// Whatever a shard holds was put there: after any history of commands on
/// a pool that held nothing, each key that a worker holds was put by a
/// command of the history that was routed to that worker.
pub proof fn law_held_keys_were_put(
    shards: Pool,
    pool_size: usize,
    history: History,
    index: int,
    key: Seq<char>,
)
    requires
        valid_pool(shards),
        shards.len() == pool_size,
        pool_size > 0,
        all_keys(shards) == Set::<Seq<char>>::empty(),
        holds_key(run_history(shards, pool_size, history), index, key),
    ensures
        exists|at: int| put_to(pool_size, history, at, index, key),
    decreases history.len(),
{
    if history.len() == 0 {
        assert(all_keys(shards).contains(key));
    } else {
        let last = history.len() - 1;
        let earlier = history.drop_last();
        let before = run_history(shards, pool_size, earlier);
        law_history_keeps_pool_valid(shards, pool_size, earlier);
        if holds_key(before, index, key) {
            law_held_keys_were_put(shards, pool_size, earlier, index, key);
            let at = choose|at: int| put_to(pool_size, earlier, at, index, key);
            assert(put_to(pool_size, history, at, index, key));
        } else {
            assert(put_to(pool_size, history, last, index, key));
        }
    }
}

/// Every key has one shard: after any history of commands that routes by
/// key, on a pool that held nothing, no key is held by two workers.
pub proof fn law_one_shard_per_key(shards: Pool, pool_size: usize, history: History)
    requires
        valid_pool(shards),
        shards.len() == pool_size,
        pool_size > 0,
        all_keys(shards) == Set::<Seq<char>>::empty(),
        routes_by_key(pool_size, history),
    ensures
        shards_disjoint(run_history(shards, pool_size, history)),
{
    let after = run_history(shards, pool_size, history);
    assert forall|i: int, j: int, key: Seq<char>|
        holds_key(after, i, key) && holds_key(after, j, key) implies i == j by {
        law_held_keys_were_put(shards, pool_size, history, i, key);
        law_held_keys_were_put(shards, pool_size, history, j, key);
        let first = choose|at: int| put_to(pool_size, history, at, i, key);
        let second = choose|at: int| put_to(pool_size, history, at, j, key);
        assert(puts_key(history, first, key) && puts_key(history, second, key));
    }
}

/// Every identifier of a list without an invalid one can be given to a
/// worker.
pub proof fn law_all_ids_valid(ids: Seq<Seq<char>>, from: int, index: int)
    requires
        0 <= from <= index < ids.len(),
        first_invalid(ids, from) == ids.len(),
    ensures
        id_valid_at(ids, index),
    decreases ids.len() - from,
{
    if from < index {
        law_all_ids_valid(ids, from + 1, index);
    }
}

/// A pool created from identifiers that can all be given to workers is
/// valid, and each of its workers takes commands.
pub proof fn law_fresh_pool_valid(ids: Seq<Seq<char>>)
    requires
        first_invalid(ids, 0) == ids.len(),
    ensures
        valid_pool(fresh_pool(ids)),
        all_live(fresh_pool(ids)),
{
    let pool = fresh_pool(ids);
    assert forall|i: int| 0 <= i < pool.len() implies valid_view(#[trigger] pool[i]) by {
        law_all_ids_valid(ids, 0, i);
    }
    assert forall|i: int, j: int| 0 <= i < j < pool.len() implies pool[i].id != pool[j].id by {
        law_all_ids_valid(ids, 0, j);
    }
}

/// Keys set once each on a new pool are the pool's keys: after a history of
/// `set` calls under keys that all differ, and nothing else, a pool that was
/// new before holds exactly the keys that were set, one entry for each.
pub proof fn law_fresh_pool_keys(ids: Seq<Seq<char>>, pool_size: usize, history: History)
    requires
        first_invalid(ids, 0) == ids.len(),
        ids.len() == pool_size,
        pool_size > 0,
        only_puts(history),
        puts_distinct(history),
    ensures
        all_keys(run_history(fresh_pool(ids), pool_size, history)) == keys_put(history),
        total_len(run_history(fresh_pool(ids), pool_size, history)) == history.len(),
{
    let pool = fresh_pool(ids);
    law_fresh_pool_valid(ids);
    law_fresh_pool_is_empty(ids);
    law_keys_complete(pool, pool_size, history);
    law_unique_keys_counted(pool, pool_size, history);
    assert(all_keys(pool).union(keys_put(history)) =~= keys_put(history));
}

/// Status right after construction is well formed: in a pool that has just
/// been created, the report on every worker carries the identifier the
/// worker was given, which is `WORKER_ID_LEN` characters long, the status
/// `OK`, the state `Idle`, the uptime asked for, and no errors.
pub proof fn law_fresh_status(
    ids: Seq<Seq<char>>,
    index: int,
    uptime: Seq<char>,
    snapshot: WorkerStatus,
)
    requires
        first_invalid(ids, 0) == ids.len(),
        0 <= index < ids.len(),
        status_of(fresh_pool(ids)[index], uptime, snapshot),
    ensures
        snapshot.worker_id@ == ids[index],
        snapshot.worker_id@.len() == WORKER_ID_LEN,
        snapshot.status@ == OK@,
        snapshot.state == WorkerState::Idle,
        snapshot.uptime@ == uptime,
        snapshot.error_count == 0,
{
    law_all_ids_valid(ids, 0, index);
}

} // verus!
