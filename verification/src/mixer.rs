//! The mixer: what one tick takes from the store and what it puts out.

use crate::config::{FRAME_SIZE, MAX_SAMPLE, MIN_SAMPLE};
use crate::queue::{after_tick, head_frame, is_ready};
use crate::store::BufferStore;
use vstd::prelude::*;
use vstd::set::fold::{is_fun_commutative, lemma_fold_empty, lemma_fold_insert};

verus! {

/// The identities whose queues take part in a tick of `store`.
pub open spec fn ready_ids(store: Map<Seq<char>, Seq<i16>>) -> Set<Seq<char>> {
    Set::new(|id: Seq<char>| store.contains_key(id) && is_ready(store[id]))
}

/// What a tick leaves of `store`: the same identities, each ready queue
/// shorter by its head frame, every other queue as it was.
pub open spec fn store_after_tick(store: Map<Seq<char>, Seq<i16>>) -> Map<Seq<char>, Seq<i16>> {
    Map::new(|id: Seq<char>| store.contains_key(id), |id: Seq<char>| after_tick(store[id]))
}

/// Adds sample `i` of the queue of `id` to a running sum.
pub open spec fn add_sample_of(store: Map<Seq<char>, Seq<i16>>, i: int) -> spec_fn(
    int,
    Seq<char>,
) -> int {
    |sum: int, id: Seq<char>| sum + store[id][i]
}

/// The sum, over the identities in `ids`, of sample `i` of their queues.
pub open spec fn column_sum(store: Map<Seq<char>, Seq<i16>>, ids: Set<Seq<char>>, i: int) -> int {
    ids.fold(0int, add_sample_of(store, i))
}

/// `a / b` rounded toward zero, for a positive `b`.
pub open spec fn trunc_div(a: int, b: int) -> int {
    if a >= 0 {
        a / b
    } else {
        -((-a) / b)
    }
}

/// `v` held to the range of a sample.
pub open spec fn clamp_sample(v: int) -> i16 {
    if v < MIN_SAMPLE {
        MIN_SAMPLE
    } else if v > MAX_SAMPLE {
        MAX_SAMPLE
    } else {
        v as i16
    }
}

/// The output sample for a column that sums to `sum` over `active`
/// sources: their average, rounded toward zero, then clamped.
pub open spec fn mixed_sample(sum: int, active: int) -> i16 {
    clamp_sample(trunc_div(sum, active))
}

/// The frame that a tick of `store` puts out: silence if no queue is
/// ready, else sample by sample the mix of the ready queues' head frames.
pub open spec fn mixed_frame(store: Map<Seq<char>, Seq<i16>>) -> Seq<i16> {
    let ids = ready_ids(store);
    Seq::new(
        FRAME_SIZE as nat,
        |i: int|
            if ids.len() == 0 {
                0i16
            } else {
                mixed_sample(column_sum(store, ids, i), ids.len() as int)
            },
    )
}

/// A column sum grows by the sample of the identity that joins.
pub proof fn lemma_column_sum_insert(
    store: Map<Seq<char>, Seq<i16>>,
    ids: Set<Seq<char>>,
    id: Seq<char>,
    i: int,
)
    requires
        ids.finite(),
        !ids.contains(id),
    ensures
        column_sum(store, ids.insert(id), i) == column_sum(store, ids, i) + store[id][i],
{
    let f = add_sample_of(store, i);
    assert(is_fun_commutative(f));
    lemma_fold_insert(ids, 0int, f, id);
}

/// The column sum over no identity is zero.
pub proof fn lemma_column_sum_empty(store: Map<Seq<char>, Seq<i16>>, i: int)
    ensures
        column_sum(store, Set::empty(), i) == 0,
{
    lemma_fold_empty(0int, add_sample_of(store, i));
}

/// The output sample for a column sum over `active` sources.
pub fn mix_sample(sum: i128, active: usize) -> (s: i16)
    requires
        active > 0,
    ensures
        s == mixed_sample(sum as int, active as int),
{
    let negative: bool = sum < 0;
    let magnitude: u128 = if negative {
        (-(sum + 1)) as u128 + 1
    } else {
        sum as u128
    };
    let quotient: u128 = magnitude / (active as u128);
    if negative {
        if quotient >= 32768 {
            MIN_SAMPLE
        } else {
            (-(quotient as i32)) as i16
        }
    } else {
        if quotient >= 32767 {
            MAX_SAMPLE
        } else {
            quotient as i16
        }
    }
}

/// What one tick puts out.
pub struct Tick {
    /// The output frame: `FRAME_SIZE` samples.
    pub frame: Vec<i16>,
    /// How many sources were mixed into it.
    pub active_sources: usize,
}

/// `store` with the queues of `ids` ticked and the others as they were.
spec fn ticked(store: Map<Seq<char>, Seq<i16>>, ids: Set<Seq<char>>) -> Map<Seq<char>, Seq<i16>> {
    Map::new(
        |id: Seq<char>| store.contains_key(id),
        |id: Seq<char>|
            if ids.contains(id) {
                after_tick(store[id])
            } else {
                store[id]
            },
    )
}

/// The first `k + 1` items of a sequence are its first `k` and item `k`.
proof fn lemma_take_step(order: Seq<Seq<char>>, k: int)
    requires
        0 <= k < order.len(),
    ensures
        forall|x: Seq<char>|
            order.take(k + 1).contains(x) <==> order.take(k).contains(x) || x == order[k],
{
    let shorter = order.take(k);
    let longer = order.take(k + 1);
    assert forall|x: Seq<char>| longer.contains(x) implies shorter.contains(x) || x == order[k] by {
        let j = longer.index_of(x);
        assert(longer[j] == x);
        if j < k {
            assert(shorter[j] == x);
        }
    }
    assert forall|x: Seq<char>| shorter.contains(x) || x == order[k] implies longer.contains(x) by {
        if shorter.contains(x) {
            let j = shorter.index_of(x);
            assert(shorter[j] == x);
            assert(longer[j] == x);
        } else {
            assert(longer[k] == x);
        }
    }
}

/// Adds `frame` into the accumulator, column by column.
fn accumulate(acc: &mut Vec<i128>, frame: &Vec<i16>, Ghost(active): Ghost<int>)
    requires
        old(acc)@.len() == FRAME_SIZE,
        frame@.len() == FRAME_SIZE,
        0 <= active < usize::MAX,
        forall|i: int|
            0 <= i < FRAME_SIZE ==> -32768 * active <= #[trigger] old(acc)@[i] <= 32767 * active,
    ensures
        final(acc)@.len() == FRAME_SIZE,
        forall|i: int|
            0 <= i < FRAME_SIZE ==> #[trigger] final(acc)@[i] == old(acc)@[i] + frame@[i],
{
    let mut i: usize = 0;
    while i < FRAME_SIZE
        invariant
            i <= FRAME_SIZE,
            acc@.len() == FRAME_SIZE,
            frame@.len() == FRAME_SIZE,
            0 <= active < usize::MAX,
            forall|j: int|
                0 <= j < FRAME_SIZE ==> -32768 * active <= #[trigger] old(acc)@[j] <= 32767
                    * active,
            forall|j: int| 0 <= j < i ==> #[trigger] acc@[j] == old(acc)@[j] + frame@[j],
            forall|j: int| i <= j < FRAME_SIZE ==> #[trigger] acc@[j] == old(acc)@[j],
        decreases FRAME_SIZE - i,
    {
        let sum: i128 = acc[i] + frame[i] as i128;
        acc.set(i, sum);
        i += 1;
    }
}

/// Runs one tick: every ready queue gives up its head frame, and the
/// frames are averaged sample by sample into the output frame. With no
/// ready queue the output is silence. Exactly one frame comes out.
pub fn mix_tick(store: &mut BufferStore) -> (tick: Tick)
    requires
        old(store).wf(),
    ensures
        final(store).wf(),
        final(store)@ == store_after_tick(old(store)@),
        tick.frame@.len() == FRAME_SIZE,
        tick.frame@ == mixed_frame(old(store)@),
        tick.active_sources == ready_ids(old(store)@).len(),
{
    let n: usize = store.source_count();
    let mut acc: Vec<i128> = Vec::with_capacity(FRAME_SIZE);
    let mut i: usize = 0;
    while i < FRAME_SIZE
        invariant
            i <= FRAME_SIZE,
            acc@.len() == i,
            forall|j: int| 0 <= j < i ==> #[trigger] acc@[j] == 0,
        decreases FRAME_SIZE - i,
    {
        acc.push(0i128);
        i += 1;
    }
    let ghost before = old(store)@;
    let ghost order = old(store).scan_order();
    let ghost mut seen: Set<Seq<char>> = Set::empty();
    let mut active: usize = 0;
    let mut k: usize = 0;
    proof {
        old(store).lemma_wf();
        assert(store@ =~= ticked(before, order.take(0).to_set()));
        assert forall|i: int| 0 <= i < FRAME_SIZE implies #[trigger] acc@[i] == column_sum(
            before,
            seen,
            i,
        ) by {
            lemma_column_sum_empty(before, i);
        }
    }
    while k < n
        invariant
            k <= n,
            n == order.len(),
            before == old(store)@,
            order == old(store).scan_order(),
            order.no_duplicates(),
            order.to_set() == before.dom(),
            store.wf(),
            store.scan_order() == order,
            store@ == ticked(before, order.take(k as int).to_set()),
            seen.finite(),
            seen.len() == active,
            active <= k,
            forall|id: Seq<char>|
                seen.contains(id) <==> order.take(k as int).contains(id) && is_ready(before[id]),
            acc@.len() == FRAME_SIZE,
            forall|i: int|
                0 <= i < FRAME_SIZE ==> #[trigger] acc@[i] == column_sum(before, seen, i),
            forall|i: int|
                0 <= i < FRAME_SIZE ==> -32768 * active <= #[trigger] acc@[i] <= 32767 * active,
        decreases n - k,
    {
        let ghost id = order[k as int];
        let ghost visited = order.take(k as int);
        proof {
            assert(order.contains(id));
            assert(before.dom().contains(id));
            assert(!visited.contains(id)) by {
                if visited.contains(id) {
                    let j = visited.index_of(id);
                    assert(visited[j] == id);
                    assert(order[j] == id);
                }
            }
            assert(store@[id] == before[id]);
        }
        let taken: Option<Vec<i16>> = store.take_frame_at(k);
        proof {
            lemma_take_step(order, k as int);
            assert(order.take(k + 1).to_set() =~= visited.to_set().insert(id));
            assert(store@ =~= ticked(before, order.take(k + 1).to_set()));
        }
        match taken {
            Some(frame) => {
                accumulate(&mut acc, &frame, Ghost(active as int));
                active += 1;
                proof {
                    assert forall|i: int| 0 <= i < FRAME_SIZE implies #[trigger] acc@[i]
                        == column_sum(before, seen.insert(id), i) by {
                        lemma_column_sum_insert(before, seen, id, i);
                        assert(frame@[i] == before[id][i]);
                    }
                    seen = seen.insert(id);
                }
            },
            None => {},
        }
        k += 1;
    }
    proof {
        assert(order.take(n as int) =~= order);
        assert(seen =~= ready_ids(before));
        assert(store@ =~= store_after_tick(before));
    }
    let mut frame: Vec<i16> = Vec::with_capacity(FRAME_SIZE);
    let mut i: usize = 0;
    while i < FRAME_SIZE
        invariant
            i <= FRAME_SIZE,
            acc@.len() == FRAME_SIZE,
            frame@.len() == i,
            active == ready_ids(before).len(),
            forall|j: int|
                0 <= j < FRAME_SIZE ==> #[trigger] acc@[j] == column_sum(
                    before,
                    ready_ids(before),
                    j,
                ),
            forall|j: int| 0 <= j < i ==> #[trigger] frame@[j] == mixed_frame(before)[j],
        decreases FRAME_SIZE - i,
    {
        let s: i16 = if active > 0 {
            mix_sample(acc[i], active)
        } else {
            0i16
        };
        frame.push(s);
        i += 1;
    }
    proof {
        assert(frame@ =~= mixed_frame(before));
    }
    Tick { frame, active_sources: active }
}

/// A column sum depends only on the queues of the identities summed over.
pub proof fn lemma_column_sum_local(
    first: Map<Seq<char>, Seq<i16>>,
    second: Map<Seq<char>, Seq<i16>>,
    ids: Set<Seq<char>>,
    i: int,
)
    requires
        ids.finite(),
        forall|id: Seq<char>| ids.contains(id) ==> first[id][i] == second[id][i],
    ensures
        column_sum(first, ids, i) == column_sum(second, ids, i),
    decreases ids.len(),
{
    if ids.len() == 0 {
        assert(ids =~= Set::empty());
        lemma_column_sum_empty(first, i);
        lemma_column_sum_empty(second, i);
    } else {
        let id = ids.choose();
        let rest = ids.remove(id);
        assert(ids =~= rest.insert(id));
        lemma_column_sum_local(first, second, rest, i);
        lemma_column_sum_insert(first, rest, id, i);
        lemma_column_sum_insert(second, rest, id, i);
    }
}

/// With no ready queue the output is silence: every sample is zero.
pub proof fn lemma_silence(store: Map<Seq<char>, Seq<i16>>)
    requires
        forall|id: Seq<char>| store.contains_key(id) ==> !is_ready(#[trigger] store[id]),
    ensures
        mixed_frame(store) == Seq::new(FRAME_SIZE as nat, |i: int| 0i16),
{
    assert(ready_ids(store) =~= Set::empty());
    assert(mixed_frame(store) =~= Seq::new(FRAME_SIZE as nat, |i: int| 0i16));
}

/// With one ready queue the output is that queue's head frame, unchanged.
pub proof fn lemma_mix_of_one(store: Map<Seq<char>, Seq<i16>>, a: Seq<char>)
    requires
        store.contains_key(a),
        forall|id: Seq<char>| store.contains_key(id) ==> (is_ready(#[trigger] store[id]) <==> id == a),
    ensures
        mixed_frame(store) == head_frame(store[a]),
{
    let ids = ready_ids(store);
    let none = Set::<Seq<char>>::empty();
    assert(ids =~= none.insert(a));
    assert forall|i: int| 0 <= i < FRAME_SIZE implies mixed_frame(store)[i] == store[a][i] by {
        lemma_column_sum_empty(store, i);
        lemma_column_sum_insert(store, none, a, i);
    }
    assert(mixed_frame(store) =~= head_frame(store[a]));
}

/// With two ready queues every output sample is the sum of the two head
/// samples, halved toward zero and clamped.
pub proof fn lemma_mix_of_two(store: Map<Seq<char>, Seq<i16>>, a: Seq<char>, b: Seq<char>, i: int)
    requires
        store.contains_key(a),
        store.contains_key(b),
        a != b,
        forall|id: Seq<char>|
            store.contains_key(id) ==> (is_ready(#[trigger] store[id]) <==> id == a || id == b),
        0 <= i < FRAME_SIZE,
    ensures
        mixed_frame(store)[i] == clamp_sample(
            trunc_div(head_frame(store[a])[i] + head_frame(store[b])[i], 2),
        ),
{
    let ids = ready_ids(store);
    let none = Set::<Seq<char>>::empty();
    assert(ids =~= none.insert(a).insert(b));
    lemma_column_sum_empty(store, i);
    lemma_column_sum_insert(store, none, a, i);
    lemma_column_sum_insert(store, none.insert(a), b, i);
}

/// A queue below the jitter threshold takes no part in a tick: the tick
/// leaves it as it is, and the output is what it would be without it.
pub proof fn lemma_unready_takes_no_part(store: Map<Seq<char>, Seq<i16>>, id: Seq<char>)
    requires
        store.dom().finite(),
        store.contains_key(id),
        !is_ready(store[id]),
    ensures
        store_after_tick(store)[id] == store[id],
        ready_ids(store.remove(id)) == ready_ids(store),
        mixed_frame(store.remove(id)) == mixed_frame(store),
{
    let without = store.remove(id);
    let ids = ready_ids(store);
    assert(ready_ids(without) =~= ids);
    assert(ids.subset_of(store.dom()));
    vstd::set_lib::lemma_len_subset(ids, store.dom());
    assert forall|i: int| 0 <= i < FRAME_SIZE implies mixed_frame(without)[i] == mixed_frame(
        store,
    )[i] by {
        lemma_column_sum_local(without, store, ids, i);
    }
    assert(mixed_frame(without) =~= mixed_frame(store));
}

/// The average of samples is itself in range, so whenever a column holds
/// the sum of `active` samples the clamp changes nothing.
pub proof fn lemma_average_in_range(sum: int, active: int)
    requires
        active > 0,
        MIN_SAMPLE * active <= sum <= MAX_SAMPLE * active,
    ensures
        mixed_sample(sum, active) == trunc_div(sum, active),
{
    assert(MIN_SAMPLE * active == -32768 * active && MAX_SAMPLE * active == 32767 * active);
    if sum >= 0 {
        assert(sum / active <= 32767) by (nonlinear_arith)
            requires
                active > 0,
                0 <= sum <= 32767 * active,
        ;
        assert(sum / active >= 0) by (nonlinear_arith)
            requires
                active > 0,
                0 <= sum,
        ;
    } else {
        assert((-sum) / active <= 32768) by (nonlinear_arith)
            requires
                active > 0,
                0 <= -sum <= 32768 * active,
        ;
        assert((-sum) / active >= 0) by (nonlinear_arith)
            requires
                active > 0,
                0 <= -sum,
        ;
    }
}

/// A tick neither adds nor removes an identity, and its output has
/// `FRAME_SIZE` samples whatever the store holds.
pub proof fn lemma_tick_shape(store: Map<Seq<char>, Seq<i16>>)
    ensures
        store_after_tick(store).dom() == store.dom(),
        mixed_frame(store).len() == FRAME_SIZE,
{
    assert(store_after_tick(store).dom() =~= store.dom());
}

/// A source that has been removed is gone for the next tick: it is not
/// mixed, and the tick does not bring it back.
pub proof fn lemma_removed_takes_no_part(store: Map<Seq<char>, Seq<i16>>, id: Seq<char>)
    ensures
        !ready_ids(store.remove(id)).contains(id),
        !store_after_tick(store.remove(id)).contains_key(id),
{
}

} // verus!
