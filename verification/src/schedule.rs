//! Assignment of work items to a fixed pool of workers.
//!
//! Items are dealt round-robin: the item at position `i` goes to worker
//! `i % workers` as that worker's item number `i / workers`. The identifier
//! under which a worker reports its item is the item's position again, so no
//! two items of a run share one.

use vstd::prelude::*;
use vstd::arithmetic::div_mod::{
    lemma_basic_div, lemma_fundamental_div_mod, lemma_fundamental_div_mod_converse,
};
use crate::item::{item_views, CopyItem};

verus! {

/// The number of workers that copy at one time, and with it the number of
/// indicators that the display has room for.
pub const MAX_CONCURRENT_FILES: usize = 10;

/// The run-wide identifier of the `local_id`-th item handled by worker `worker_id`
/// when items are dealt round-robin to `total_workers` workers.
pub open spec fn global_id(local_id: int, worker_id: int, total_workers: int) -> int {
    local_id * total_workers + worker_id
}

/// The number of items that worker `worker` gets out of `n`.
pub open spec fn share_len(n: int, worker: int, workers: int) -> int {
    (n + workers - 1 - worker) / workers
}

/// The items that worker `worker` gets, in the order in which it handles
/// them: those at positions `worker`, `worker + workers`, and so on.
pub open spec fn share<T>(items: Seq<T>, worker: int, workers: int) -> Seq<T> {
    Seq::new(
        share_len(items.len() as int, worker, workers) as nat,
        |k: int| items[global_id(k, worker, workers)],
    )
}

/// Computes the run-wide identifier of a worker's `local_id`-th item.
pub fn calculate_global_id(local_id: usize, worker_id: usize, total_workers: usize) -> (id: usize)
    requires
        global_id(local_id as int, worker_id as int, total_workers as int) <= usize::MAX,
    ensures
        id == global_id(local_id as int, worker_id as int, total_workers as int),
{
    assert(local_id * total_workers >= 0) by (nonlinear_arith);
    local_id * total_workers + worker_id
}

/// One more item goes to the worker whose turn it is, and to no other.
pub proof fn lemma_share_len_step(n: int, worker: int, workers: int)
    requires
        0 <= n,
        0 <= worker < workers,
    ensures
        share_len(n + 1, worker, workers) == share_len(n, worker, workers) + if n % workers
            == worker {
            1int
        } else {
            0int
        },
        n % workers == worker ==> share_len(n, worker, workers) == n / workers,
        share_len(0, worker, workers) == 0,
        share_len(n, worker, workers) >= 0,
{
    let q = n / workers;
    let r = n % workers;
    lemma_fundamental_div_mod(n, workers);
    assert(workers * q == q * workers) by (nonlinear_arith);
    assert((q + 1) * workers == q * workers + workers) by (nonlinear_arith);
    let a = n + workers - 1 - worker;
    if r > worker {
        lemma_fundamental_div_mod_converse(a, workers, q + 1, r - worker - 1);
    } else {
        lemma_fundamental_div_mod_converse(a, workers, q, r + workers - 1 - worker);
    }
    if r >= worker {
        lemma_fundamental_div_mod_converse(a + 1, workers, q + 1, r - worker);
    } else {
        lemma_fundamental_div_mod_converse(a + 1, workers, q, r + workers - worker);
    }
    lemma_basic_div(workers - 1 - worker, workers);
    assert(q >= 0) by (nonlinear_arith)
        requires
            n == workers * q + r,
            0 <= r < workers,
            n >= 0,
    ;
}

/// A worker's item number `k` exists exactly where its position lies within
/// the items.
pub proof fn lemma_share_positions(n: int, worker: int, workers: int, k: int)
    requires
        0 <= n,
        0 <= worker < workers,
        0 <= k,
    ensures
        k < share_len(n, worker, workers) <==> global_id(k, worker, workers) < n,
    decreases n,
{
    lemma_share_len_step(n, worker, workers);
    if n == 0 {
        assert(k * workers >= 0) by (nonlinear_arith)
            requires
                k >= 0,
                workers > 0,
        ;
    } else {
        lemma_share_positions(n - 1, worker, workers, k);
        lemma_share_len_step(n - 1, worker, workers);
        if (n - 1) % workers == worker {
            lemma_fundamental_div_mod(n - 1, workers);
            let q = (n - 1) / workers;
            assert(workers * q == q * workers) by (nonlinear_arith);
            if k > q {
                assert(k * workers >= (q + 1) * workers) by (nonlinear_arith)
                    requires
                        k >= q + 1,
                        workers > 0,
                ;
                assert((q + 1) * workers == q * workers + workers) by (nonlinear_arith);
            }
        } else if global_id(k, worker, workers) == n - 1 {
            lemma_fundamental_div_mod_converse(n - 1, workers, k, worker);
        }
    }
}

/// The item that joins a list goes to the end of the share of the worker
/// whose turn it is, and the other shares stay as they are.
pub proof fn lemma_share_grows<T>(items: Seq<T>, worker: int, workers: int)
    requires
        items.len() > 0,
        0 <= worker < workers,
    ensures
        share(items, worker, workers) == if (items.len() - 1) % (workers as int) == worker {
            share(items.drop_last(), worker, workers).push(items.last())
        } else {
            share(items.drop_last(), worker, workers)
        },
{
    let front = items.drop_last();
    let n = front.len() as int;
    let grown = share(items, worker, workers);
    let kept = share(front, worker, workers);
    lemma_share_len_step(n, worker, workers);
    assert forall|k: int| 0 <= k < kept.len() implies grown[k] == kept[k] by {
        lemma_share_positions(n, worker, workers, k);
    }
    if n % workers == worker {
        lemma_fundamental_div_mod(n, workers);
        assert(workers * (n / workers) == (n / workers) * workers) by (nonlinear_arith);
        assert(grown =~= kept.push(items.last()));
    } else {
        assert(grown =~= kept);
    }
}

/// Deals `files` round-robin to `total_workers` workers.
pub fn distribute_files_to_workers(files: &Vec<CopyItem>, total_workers: usize) -> (queues: Vec<
    Vec<CopyItem>,
>)
    requires
        total_workers > 0 || files.len() == 0,
    ensures
        queues.len() == total_workers,
        forall|w: int|
            0 <= w < total_workers ==> item_views((#[trigger] queues[w])@) == share(
                item_views(files@),
                w,
                total_workers as int,
            ),
{
    let mut queues: Vec<Vec<CopyItem>> = Vec::new();
    let mut w: usize = 0;
    let ghost all = item_views(files@);
    while w < total_workers
        invariant
            w <= total_workers,
            queues.len() == w,
            forall|v: int| 0 <= v < w ==> (#[trigger] queues[v])@.len() == 0,
        decreases total_workers - w,
    {
        queues.push(Vec::new());
        w = w + 1;
    }
    proof {
        assert forall|v: int| 0 <= v < total_workers implies item_views((#[trigger] queues[v])@)
            == share(all.take(0), v, total_workers as int) by {
            lemma_share_len_step(0, v, total_workers as int);
            assert(item_views(queues[v]@) =~= share(all.take(0), v, total_workers as int));
        }
    }
    let mut i: usize = 0;
    while i < files.len()
        invariant
            i <= files.len(),
            total_workers > 0 || files.len() == 0,
            queues.len() == total_workers,
            all == item_views(files@),
            forall|v: int|
                0 <= v < total_workers ==> item_views((#[trigger] queues[v])@) == share(
                    all.take(i as int),
                    v,
                    total_workers as int,
                ),
        decreases files.len() - i,
    {
        let worker_id = i % total_workers;
        let ghost before = queues;
        queues[worker_id].push(files[i].clone());
        proof {
            let grown = all.take(i + 1);
            assert(grown.drop_last() =~= all.take(i as int));
            assert(grown.last() == files@[i as int]@);
            assert forall|v: int| 0 <= v < total_workers implies item_views(
                (#[trigger] queues[v])@,
            ) == share(grown, v, total_workers as int) by {
                lemma_share_grows(grown, v, total_workers as int);
                if v == worker_id {
                    assert(item_views(queues[v]@) =~= item_views(before[v]@).push(
                        files@[i as int]@,
                    ));
                } else {
                    assert(queues[v] == before[v]);
                }
            }
        }
        i = i + 1;
    }
    assert(all.take(files.len() as int) =~= all);
    queues
}

/// Every item is dealt to exactly one worker: the item at position `i` is
/// item number `i / workers` of worker `i % workers`, and its identifier is
/// `i`.
pub proof fn lemma_every_item_dealt<T>(items: Seq<T>, workers: int, i: int)
    requires
        0 < workers,
        0 <= i < items.len(),
    ensures
        0 <= i % workers < workers,
        0 <= i / workers < share(items, i % workers, workers).len(),
        share(items, i % workers, workers)[i / workers] == items[i],
        global_id(i / workers, i % workers, workers) == i,
{
    lemma_fundamental_div_mod(i, workers);
    assert(workers * (i / workers) == (i / workers) * workers) by (nonlinear_arith);
    assert(i / workers >= 0) by (nonlinear_arith)
        requires
            i == workers * (i / workers) + i % workers,
            0 <= i % workers < workers,
            i >= 0,
    ;
    lemma_share_positions(items.len() as int, i % workers, workers, i / workers);
}

/// Every item of a worker's share is an item of the list, at the position
/// that its identifier gives, and no other place in any share holds that
/// position.
pub proof fn lemma_share_is_of_items<T>(items: Seq<T>, workers: int, worker: int, k: int)
    requires
        0 <= worker < workers,
        0 <= k < share(items, worker, workers).len(),
    ensures
        0 <= global_id(k, worker, workers) < items.len(),
        share(items, worker, workers)[k] == items[global_id(k, worker, workers)],
        global_id(k, worker, workers) / workers == k,
        global_id(k, worker, workers) % workers == worker,
{
    lemma_share_positions(items.len() as int, worker, workers, k);
    lemma_fundamental_div_mod_converse(global_id(k, worker, workers), workers, k, worker);
    assert(k * workers >= 0) by (nonlinear_arith)
        requires
            k >= 0,
            workers > 0,
    ;
}

/// No two items of a run share an identifier: an identifier determines the
/// worker and the item number that it was computed from.
pub proof fn lemma_ids_unique(k1: int, w1: int, k2: int, w2: int, workers: int)
    requires
        0 <= w1 < workers,
        0 <= w2 < workers,
        global_id(k1, w1, workers) == global_id(k2, w2, workers),
    ensures
        k1 == k2,
        w1 == w2,
{
    let id = global_id(k1, w1, workers);
    lemma_fundamental_div_mod_converse(id, workers, k1, w1);
    lemma_fundamental_div_mod_converse(id, workers, k2, w2);
}

} // verus!
