//! The load balancer: one adapter for each request, under a strategy.

use crate::backend::registry::{healthy_backends, same_weights, BackendRegistry};
use crate::backend::slots::{holds, put, unique, value_of, Slots, SlotTable};
use crate::backend::adapter::{Adapter, AdapterState};
use crate::chance::random_below;
use crate::error::{AppError, ErrorKind, Result};
use vstd::arithmetic::div_mod::{
    lemma_add_mod_noop, lemma_fundamental_div_mod, lemma_mod_add_multiples_vanish,
    lemma_mod_multiples_vanish, lemma_mod_twice, lemma_small_mod,
};
use vstd::prelude::*;

verus! {

/// How the load balancer picks among the healthy adapters.
#[derive(Clone, Copy, Debug, PartialEq, Eq, Structural)]
pub enum LoadBalancingStrategy {
    /// Each adapter in turn.
    RoundRobin,
    /// Each adapter in turn, as many times in a row as its weight says.
    WeightedRoundRobin,
    /// Any adapter, by chance.
    Random,
    /// An adapter with the fewest requests outstanding, those in turn.
    LeastConnections,
}

/// The load balancer as contracts see it.
pub struct BalancerState {
    pub strategy: LoadBalancingStrategy,
    /// The cursor of the round-robin strategies, kept below the number of
    /// places it last walked.
    pub counter: nat,
    /// The requests outstanding at each adapter, by name.
    pub connections: Slots<usize>,
}

/// The sum of the weights.
pub open spec fn total_weight(healthy: Seq<AdapterState>) -> nat
    decreases healthy.len(),
{
    if healthy.len() == 0 {
        0
    } else {
        total_weight(healthy.drop_last()) + healthy.last().weight as nat
    }
}

/// The adapter at place `place` of the sequence in which each adapter
/// stands as many times in a row as its weight says.
pub open spec fn weighted_owner(healthy: Seq<AdapterState>, place: nat) -> int
    decreases healthy.len(),
{
    if healthy.len() == 0 {
        0
    } else if place >= total_weight(healthy.drop_last()) {
        healthy.len() - 1
    } else {
        weighted_owner(healthy.drop_last(), place)
    }
}

/// The requests outstanding at the adapter of that name.
pub open spec fn outstanding(connections: Slots<usize>, name: Seq<char>) -> nat {
    if holds(connections, name) {
        value_of(connections, name) as nat
    } else {
        0
    }
}

/// The requests outstanding at each adapter, in order.
pub open spec fn loads(healthy: Seq<AdapterState>, connections: Slots<usize>) -> Seq<
    nat,
> {
    Seq::new(healthy.len(), |i: int| outstanding(connections, healthy[i].name))
}

/// The least of the loads; 0 where there is none.
pub open spec fn least(loads: Seq<nat>) -> nat
    decreases loads.len(),
{
    if loads.len() == 0 {
        0
    } else if loads.len() == 1 {
        loads[0]
    } else if loads.last() < least(loads.drop_last()) {
        loads.last()
    } else {
        least(loads.drop_last())
    }
}

/// The places of the loads that equal `load`, in order.
pub open spec fn places_with(loads: Seq<nat>, load: nat) -> Seq<int>
    decreases loads.len(),
{
    if loads.len() == 0 {
        Seq::empty()
    } else if loads.last() == load {
        places_with(loads.drop_last(), load).push(loads.len() - 1)
    } else {
        places_with(loads.drop_last(), load)
    }
}

/// The connections after one more request went to the adapter of that
/// name: its count is one higher, up to the largest count that fits.
pub open spec fn acquired(connections: Slots<usize>, name: Seq<char>) -> Slots<usize> {
    if holds(connections, name) {
        if value_of(connections, name) < usize::MAX {
            put(connections, name, (value_of(connections, name) + 1) as usize)
        } else {
            connections
        }
    } else {
        put(connections, name, 1usize)
    }
}

/// The connections after a request to the adapter of that name ended: its
/// count is one lower, and stays at 0.
pub open spec fn released(connections: Slots<usize>, name: Seq<char>) -> Slots<usize> {
    if holds(connections, name) && value_of(connections, name) > 0 {
        put(connections, name, (value_of(connections, name) - 1) as usize)
    } else {
        connections
    }
}

/// The adapter that takes the next request, as a place among the healthy
/// adapters, and the load balancer afterwards; `None` where no adapter can
/// be picked. `draw` is a number drawn at random, read by the random
/// strategy only.
pub open spec fn choice(state: BalancerState, healthy: Seq<AdapterState>, draw: nat) -> Option<
    (int, BalancerState),
> {
    let n = healthy.len();
    if n == 0 {
        None
    } else {
        match state.strategy {
            LoadBalancingStrategy::RoundRobin => Some(
                (
                    (state.counter % n) as int,
                    BalancerState { counter: (state.counter + 1) % n, ..state },
                ),
            ),
            LoadBalancingStrategy::WeightedRoundRobin => {
                let total = total_weight(healthy);
                if total == 0 {
                    None
                } else {
                    Some(
                        (
                            weighted_owner(healthy, state.counter % total),
                            BalancerState { counter: (state.counter + 1) % total, ..state },
                        ),
                    )
                }
            },
            LoadBalancingStrategy::Random => Some(((draw % n) as int, state)),
            LoadBalancingStrategy::LeastConnections => {
                let all = loads(healthy, state.connections);
                let lightest = places_with(all, least(all));
                let place = lightest[(state.counter % lightest.len()) as int];
                Some(
                    (
                        place,
                        BalancerState {
                            counter: (state.counter + 1) % lightest.len(),
                            connections: acquired(state.connections, healthy[place].name),
                            ..state
                        },
                    ),
                )
            },
        }
    }
}

/// A selection picks a place among the healthy adapters.
pub proof fn lemma_choice_within(state: BalancerState, healthy: Seq<AdapterState>, draw: nat)
    requires
        choice(state, healthy, draw) is Some,
    ensures
        0 <= choice(state, healthy, draw).unwrap().0 < healthy.len(),
{
    match state.strategy {
        LoadBalancingStrategy::WeightedRoundRobin => {
            lemma_owner_within(healthy, state.counter % total_weight(healthy));
        },
        LoadBalancingStrategy::LeastConnections => {
            let all = loads(healthy, state.connections);
            lemma_least(all);
            lemma_places_within(all, least(all));
            let lightest = places_with(all, least(all));
            let turn = (state.counter % lightest.len()) as int;
            assert(0 <= lightest[turn] && lightest[turn] < all.len());
        },
        _ => {},
    }
}

/// The load balancer after the first `n` selections of a run, none by
/// chance. `lists[i]` holds the healthy adapters at selection `i`: what an
/// adapter has done between two selections may have changed it. A
/// selection that picks no adapter leaves the load balancer as it is.
pub open spec fn state_after(
    state: BalancerState,
    lists: Seq<Seq<AdapterState>>,
    n: nat,
) -> BalancerState
    decreases n,
{
    if n == 0 {
        state
    } else {
        let before = state_after(state, lists, (n - 1) as nat);
        match choice(before, lists[n - 1], 0) {
            Some(next) => next.1,
            None => before,
        }
    }
}

/// The adapters picked by the first `n` selections of a run, as places
/// among the healthy adapters of each selection.
pub open spec fn picks(state: BalancerState, lists: Seq<Seq<AdapterState>>, n: nat) -> Seq<int> {
    Seq::new(
        n,
        |i: int|
            match choice(state_after(state, lists, i as nat), lists[i], 0) {
                Some(next) => next.0,
                None => -1,
            },
    )
}

/// Each of the first `n` lists holds `k` adapters.
pub open spec fn all_of_length(lists: Seq<Seq<AdapterState>>, n: nat, k: nat) -> bool {
    n <= lists.len() && forall|i: int| 0 <= i < n ==> (#[trigger] lists[i]).len() == k
}

/// Each of the first `n` lists holds the adapters of `healthy` as far as
/// their number and their weights go.
pub open spec fn all_weighted_as(
    lists: Seq<Seq<AdapterState>>,
    n: nat,
    healthy: Seq<AdapterState>,
) -> bool {
    n <= lists.len() && forall|i: int| 0 <= i < n ==> same_weights(#[trigger] lists[i], healthy)
}

/// How often `place` stands among `picked`.
pub open spec fn occurrences(picked: Seq<int>, place: int) -> nat
    decreases picked.len(),
{
    if picked.len() == 0 {
        0
    } else {
        occurrences(picked.drop_last(), place) + if picked.last() == place {
            1nat
        } else {
            0nat
        }
    }
}

/// How often `(start + i) % k` is `place`, for `i` below `n`.
spec fn hits(start: nat, k: nat, place: int, n: nat) -> nat
    decreases n,
{
    if n == 0 {
        0
    } else {
        hits(start, k, place, (n - 1) as nat) + if (start + n - 1) % (k as int) == place {
            1nat
        } else {
            0nat
        }
    }
}

/// Among `k` numbers in a row, exactly one leaves the remainder `place`.
proof fn lemma_hits_window(start: nat, k: nat, place: int, n: nat)
    requires
        k > 0,
        0 <= place < k,
        n <= k,
    ensures
        hits(start, k, place, n) == (if n > (place - start) % (k as int) {
            1nat
        } else {
            0nat
        }),
    decreases n,
{
    let first = (place - start) % (k as int);
    let m = k as int;
    lemma_fundamental_div_mod(place - start, m);
    let q = (place - start) / m;
    assert(start + first == m * (-q) + place) by (nonlinear_arith)
        requires
            place - start == m * q + first,
    ;
    lemma_mod_multiples_vanish(-q, place, m);
    lemma_small_mod(place as nat, k);
    assert((start + first) % m == place);
    if n > 0 {
        lemma_hits_window(start, k, place, (n - 1) as nat);
        let i = n - 1;
        if i != first && (start + i) % m == place {
            vstd::arithmetic::div_mod::lemma_mod_equivalence(start + i, start + first, m);
            let d = i - first;
            assert((start + i) - (start + first) == d);
            if d > 0 {
                lemma_small_mod(d as nat, k);
            } else {
                lemma_mod_add_multiples_vanish(d, m);
                lemma_small_mod((m + d) as nat, k);
            }
        }
    }
}

/// Walking on by `k` places does not change which numbers leave the
/// remainder `place`.
proof fn lemma_hits_block(start: nat, k: nat, place: int, c: nat, n: nat)
    requires
        k > 0,
        0 <= place < k,
        n <= k,
    ensures
        hits(start, k, place, c * k + n) == c + hits(start, k, place, n),
    decreases c, n,
{
    if n == 0 {
        if c > 0 {
            assert(c * k == (c - 1) * k + k) by (nonlinear_arith);
            lemma_hits_block(start, k, place, (c - 1) as nat, k);
            lemma_hits_window(start, k, place, k);
        } else {
            assert(c * k == 0) by (nonlinear_arith)
                requires
                    c == 0,
            ;
        }
    } else {
        lemma_hits_block(start, k, place, c, (n - 1) as nat);
        let m = k as int;
        assert((start + c * k + n - 1) % m == (start + n - 1) % m) by {
            lemma_mod_multiples_vanish(c as int, start + n - 1, m);
            assert(m * c + (start + n - 1) == start + c * k + n - 1) by (nonlinear_arith)
                requires
                    m == k,
            ;
        }
        assert(c * k + n - 1 == c * k + (n - 1));
    }
}

/// Under round robin over `k` adapters the `i`-th selection from a counter
/// picks the place `(counter + i) % k`.
proof fn lemma_round_robin_pick(
    state: BalancerState,
    lists: Seq<Seq<AdapterState>>,
    k: nat,
    i: nat,
)
    requires
        state.strategy == LoadBalancingStrategy::RoundRobin,
        k > 0,
        all_of_length(lists, i + 1, k),
    ensures
        state_after(state, lists, i).strategy == LoadBalancingStrategy::RoundRobin,
        state_after(state, lists, i).counter % k == (state.counter + i) % k,
        picks(state, lists, i + 1)[i as int] == (state.counter + i) % k,
    decreases i,
{
    assert(lists[i as int].len() == k);
    if i > 0 {
        assert(lists[i - 1].len() == k);
        lemma_round_robin_pick(state, lists, k, (i - 1) as nat);
        let before = state_after(state, lists, (i - 1) as nat);
        lemma_mod_twice((before.counter + 1) as int, k as int);
        lemma_add_mod_noop(before.counter as int, 1, k as int);
        lemma_add_mod_noop(state.counter + i - 1, 1, k as int);
    }
}

/// How often a place stands among the picks of round robin is how often
/// its remainder comes up.
proof fn lemma_round_robin_occurrences(
    state: BalancerState,
    lists: Seq<Seq<AdapterState>>,
    k: nat,
    place: int,
    n: nat,
)
    requires
        state.strategy == LoadBalancingStrategy::RoundRobin,
        k > 0,
        all_of_length(lists, n, k),
    ensures
        occurrences(picks(state, lists, n), place) == hits(state.counter, k, place, n),
    decreases n,
{
    if n > 0 {
        lemma_round_robin_occurrences(state, lists, k, place, (n - 1) as nat);
        lemma_round_robin_pick(state, lists, k, (n - 1) as nat);
        assert(picks(state, lists, n).drop_last() =~= picks(state, lists, (n - 1) as nat));
    }
}

/// Round robin is fair: as long as `k` adapters are healthy, `c * k`
/// selections in a row pick each place among them exactly `c` times,
/// wherever the counter stands at the first of them and whatever else of
/// the adapters changes between two selections.
pub proof fn lemma_round_robin_fair(
    state: BalancerState,
    lists: Seq<Seq<AdapterState>>,
    k: nat,
    c: nat,
    place: int,
)
    requires
        state.strategy == LoadBalancingStrategy::RoundRobin,
        k > 0,
        all_of_length(lists, c * k, k),
        0 <= place < k,
    ensures
        occurrences(picks(state, lists, c * k), place) == c,
{
    lemma_round_robin_occurrences(state, lists, k, place, c * k);
    lemma_hits_block(state.counter, k, place, c, 0);
}

/// Lists with the same weights have the same sum of weights and the same
/// adapter at each place of the weighted sequence.
pub proof fn lemma_same_weights(a: Seq<AdapterState>, b: Seq<AdapterState>, place: nat)
    requires
        same_weights(a, b),
    ensures
        total_weight(a) == total_weight(b),
        weighted_owner(a, place) == weighted_owner(b, place),
    decreases a.len(),
{
    if a.len() > 0 {
        assert(a.last().weight == b.last().weight) by {
            assert(a[a.len() - 1].weight == b[a.len() - 1].weight);
        }
        assert(same_weights(a.drop_last(), b.drop_last())) by {
            assert forall|j: int| 0 <= j < a.drop_last().len() implies (#[trigger] a.drop_last()[j]).weight
                == b.drop_last()[j].weight by {
                assert(a[j].weight == b[j].weight);
            }
        }
        lemma_same_weights(a.drop_last(), b.drop_last(), place);
        lemma_same_weights(a.drop_last(), b.drop_last(), 0);
    }
}

/// The adapter at a place of the weighted sequence is one of the adapters.
proof fn lemma_owner_within(healthy: Seq<AdapterState>, place: nat)
    requires
        healthy.len() > 0,
    ensures
        0 <= weighted_owner(healthy, place) < healthy.len(),
    decreases healthy.len(),
{
    if place < total_weight(healthy.drop_last()) {
        lemma_owner_within(healthy.drop_last(), place);
    }
}

/// How many of the first `m` places of the weighted sequence an adapter holds.
spec fn places_held(healthy: Seq<AdapterState>, adapter: int, m: nat) -> nat
    decreases m,
{
    if m == 0 {
        0
    } else {
        places_held(healthy, adapter, (m - 1) as nat) + if weighted_owner(healthy, (m - 1) as nat)
            == adapter {
            1nat
        } else {
            0nat
        }
    }
}

/// Below the weights of all adapters but the last, the last adapter holds
/// no place and every other holds what it holds without the last.
proof fn lemma_places_held_before(healthy: Seq<AdapterState>, adapter: int, m: nat)
    requires
        healthy.len() > 0,
        0 <= adapter < healthy.len(),
        m <= total_weight(healthy.drop_last()),
    ensures
        places_held(healthy, adapter, m) == (if adapter == healthy.len() - 1 {
            0nat
        } else {
            places_held(healthy.drop_last(), adapter, m)
        }),
    decreases m,
{
    if m > 0 {
        lemma_places_held_before(healthy, adapter, (m - 1) as nat);
        lemma_owner_within(healthy.drop_last(), (m - 1) as nat);
    }
}

/// From the weights of all adapters but the last on, every place is held
/// by the last adapter.
proof fn lemma_places_held_last(healthy: Seq<AdapterState>, adapter: int, m: nat)
    requires
        healthy.len() > 0,
        0 <= adapter < healthy.len(),
        total_weight(healthy.drop_last()) <= m,
    ensures
        places_held(healthy, adapter, m) == places_held(
            healthy,
            adapter,
            total_weight(healthy.drop_last()),
        ) + (if adapter == healthy.len() - 1 {
            (m - total_weight(healthy.drop_last())) as nat
        } else {
            0nat
        }),
    decreases m,
{
    if m > total_weight(healthy.drop_last()) {
        lemma_places_held_last(healthy, adapter, (m - 1) as nat);
    }
}

/// In the weighted sequence each adapter holds as many places as its weight says.
proof fn lemma_places_held(healthy: Seq<AdapterState>, adapter: int)
    requires
        0 <= adapter < healthy.len(),
    ensures
        places_held(healthy, adapter, total_weight(healthy)) == healthy[adapter].weight,
    decreases healthy.len(),
{
    let shorter = healthy.drop_last();
    let before = total_weight(shorter);
    lemma_places_held_last(healthy, adapter, total_weight(healthy));
    lemma_places_held_before(healthy, adapter, before);
    if adapter < healthy.len() - 1 {
        lemma_places_held(shorter, adapter);
    }
}

/// How often the selections `(start + i) % total`, for `i` below `n`, fall
/// on one of the first `m` places that an adapter holds.
spec fn hits_held(
    healthy: Seq<AdapterState>,
    adapter: int,
    start: nat,
    total: nat,
    n: nat,
    m: nat,
) -> nat
    decreases m,
{
    if m == 0 {
        0
    } else {
        hits_held(healthy, adapter, start, total, n, (m - 1) as nat) + if weighted_owner(
            healthy,
            (m - 1) as nat,
        ) == adapter {
            hits(start, total, m - 1, n)
        } else {
            0nat
        }
    }
}

/// One more selection adds one hit where it falls on a place that the
/// adapter holds, and none elsewhere.
proof fn lemma_hits_held_step(
    healthy: Seq<AdapterState>,
    adapter: int,
    start: nat,
    total: nat,
    n: nat,
    m: nat,
)
    requires
        total > 0,
        n > 0,
        m <= total,
    ensures
        hits_held(healthy, adapter, start, total, n, m) == hits_held(
            healthy,
            adapter,
            start,
            total,
            (n - 1) as nat,
            m,
        ) + (if (start + n - 1) % (total as int) < m && weighted_owner(
            healthy,
            ((start + n - 1) % (total as int)) as nat,
        ) == adapter {
            1nat
        } else {
            0nat
        }),
    decreases m,
{
    if m > 0 {
        lemma_hits_held_step(healthy, adapter, start, total, n, (m - 1) as nat);
    }
}

/// Over whole rounds of the weighted sequence an adapter is hit once a
/// round for every place that it holds.
proof fn lemma_hits_held_rounds(
    healthy: Seq<AdapterState>,
    adapter: int,
    start: nat,
    total: nat,
    c: nat,
    m: nat,
)
    requires
        total > 0,
        m <= total,
    ensures
        hits_held(healthy, adapter, start, total, c * total, m) == c * places_held(
            healthy,
            adapter,
            m,
        ),
    decreases m,
{
    if m > 0 {
        lemma_hits_held_rounds(healthy, adapter, start, total, c, (m - 1) as nat);
        lemma_hits_block(start, total, m - 1, c, 0);
        assert(hits(start, total, m - 1, c * total) == c);
        let held = places_held(healthy, adapter, (m - 1) as nat);
        assert(c * (held + 1) == c * held + c) by (nonlinear_arith);
    } else {
        assert(c * 0 == 0) by (nonlinear_arith);
    }
}

/// Under weighted round robin the `i`-th selection from a counter picks the
/// adapter at place `(counter + i) % total` of the weighted sequence.
proof fn lemma_weighted_pick(
    state: BalancerState,
    lists: Seq<Seq<AdapterState>>,
    healthy: Seq<AdapterState>,
    i: nat,
)
    requires
        state.strategy == LoadBalancingStrategy::WeightedRoundRobin,
        healthy.len() > 0,
        total_weight(healthy) > 0,
        all_weighted_as(lists, i + 1, healthy),
    ensures
        state_after(state, lists, i).strategy == LoadBalancingStrategy::WeightedRoundRobin,
        state_after(state, lists, i).counter % total_weight(healthy) == (state.counter + i)
            % total_weight(healthy),
        picks(state, lists, i + 1)[i as int] == weighted_owner(
            healthy,
            (state.counter + i) % total_weight(healthy),
        ),
    decreases i,
{
    let total = total_weight(healthy) as int;
    assert(same_weights(lists[i as int], healthy));
    if i > 0 {
        assert(same_weights(lists[i - 1], healthy));
        lemma_same_weights(lists[i - 1], healthy, 0);
        lemma_weighted_pick(state, lists, healthy, (i - 1) as nat);
        let before = state_after(state, lists, (i - 1) as nat);
        lemma_mod_twice((before.counter + 1) as int, total);
        lemma_add_mod_noop(before.counter as int, 1, total);
        lemma_add_mod_noop(state.counter + i - 1, 1, total);
    }
    let now = state_after(state, lists, i);
    lemma_same_weights(lists[i as int], healthy, (now.counter % total_weight(healthy)) as nat);
}

/// How often an adapter stands among the picks of weighted round robin is
/// how often the selections fall on a place that it holds.
proof fn lemma_weighted_occurrences(
    state: BalancerState,
    lists: Seq<Seq<AdapterState>>,
    healthy: Seq<AdapterState>,
    adapter: int,
    n: nat,
)
    requires
        state.strategy == LoadBalancingStrategy::WeightedRoundRobin,
        healthy.len() > 0,
        total_weight(healthy) > 0,
        all_weighted_as(lists, n, healthy),
    ensures
        occurrences(picks(state, lists, n), adapter) == hits_held(
            healthy,
            adapter,
            state.counter,
            total_weight(healthy),
            n,
            total_weight(healthy),
        ),
    decreases n,
{
    let total = total_weight(healthy);
    if n > 0 {
        lemma_weighted_occurrences(state, lists, healthy, adapter, (n - 1) as nat);
        lemma_weighted_pick(state, lists, healthy, (n - 1) as nat);
        assert(picks(state, lists, n).drop_last() =~= picks(state, lists, (n - 1) as nat));
        lemma_hits_held_step(healthy, adapter, state.counter, total, n, total);
        assert(0 <= (state.counter + n - 1) % (total as int) < total) by (nonlinear_arith)
            requires
                total > 0,
        ;
    } else {
        lemma_hits_held_none(healthy, adapter, state.counter, total, total);
    }
}

/// Without a selection nothing is hit.
proof fn lemma_hits_held_none(
    healthy: Seq<AdapterState>,
    adapter: int,
    start: nat,
    total: nat,
    m: nat,
)
    ensures
        hits_held(healthy, adapter, start, total, 0, m) == 0,
    decreases m,
{
    if m > 0 {
        lemma_hits_held_none(healthy, adapter, start, total, (m - 1) as nat);
    }
}

/// Weighted round robin follows the weights: where `total` is the sum of
/// the weights of the healthy adapters, and as long as the same number of
/// adapters with the same weights is healthy, `c * total` selections in a
/// row pick each adapter `c` times its weight, wherever the counter stands
/// at the first of them and whatever else of the adapters changes between
/// two selections.
pub proof fn lemma_weighted_round_robin_fair(
    state: BalancerState,
    lists: Seq<Seq<AdapterState>>,
    healthy: Seq<AdapterState>,
    c: nat,
    adapter: int,
)
    requires
        state.strategy == LoadBalancingStrategy::WeightedRoundRobin,
        total_weight(healthy) > 0,
        all_weighted_as(lists, c * total_weight(healthy), healthy),
        0 <= adapter < healthy.len(),
    ensures
        occurrences(picks(state, lists, c * total_weight(healthy)), adapter) == c
            * healthy[adapter].weight,
{
    let total = total_weight(healthy);
    lemma_weighted_occurrences(state, lists, healthy, adapter, c * total);
    lemma_hits_held_rounds(healthy, adapter, state.counter, total, c, total);
    lemma_places_held(healthy, adapter);
}

/// Weights add up along the list.
proof fn lemma_total_weight_step(healthy: Seq<AdapterState>, i: int)
    requires
        0 <= i < healthy.len(),
    ensures
        total_weight(healthy.take(i + 1)) == total_weight(healthy.take(i)) + healthy[i].weight,
{
    assert(healthy.take(i + 1).drop_last() =~= healthy.take(i));
}

/// The sum of the weights up to a place grows with the place.
proof fn lemma_total_weight_grows(healthy: Seq<AdapterState>, i: int, j: int)
    requires
        0 <= i <= j <= healthy.len(),
    ensures
        total_weight(healthy.take(i)) <= total_weight(healthy.take(j)),
    decreases j - i,
{
    if i < j {
        lemma_total_weight_step(healthy, j - 1);
        lemma_total_weight_grows(healthy, i, j - 1);
    }
}

/// The adapter at a place of the weighted sequence is the one whose run
/// of places holds it.
proof fn lemma_weighted_owner(healthy: Seq<AdapterState>, place: nat, i: int)
    requires
        0 <= i < healthy.len(),
        total_weight(healthy.take(i)) <= place < total_weight(healthy.take(i + 1)),
    ensures
        weighted_owner(healthy, place) == i,
    decreases healthy.len(),
{
    let shorter = healthy.drop_last();
    assert(shorter =~= healthy.take(healthy.len() - 1));
    if i == healthy.len() - 1 {
    } else {
        lemma_total_weight_grows(healthy, i + 1, healthy.len() - 1);
        assert(shorter.take(i) =~= healthy.take(i));
        assert(shorter.take(i + 1) =~= healthy.take(i + 1));
        lemma_weighted_owner(shorter, place, i);
    }
}

/// The least load is one of the loads and no load is below it.
proof fn lemma_least(all: Seq<nat>)
    requires
        all.len() > 0,
    ensures
        forall|i: int| 0 <= i < all.len() ==> least(all) <= #[trigger] all[i],
        exists|i: int| 0 <= i < all.len() && #[trigger] all[i] == least(all),
        places_with(all, least(all)).len() > 0,
    decreases all.len(),
{
    if all.len() > 1 {
        let shorter = all.drop_last();
        lemma_least(shorter);
        let i = choose|i: int| 0 <= i < shorter.len() && #[trigger] shorter[i] == least(shorter);
        assert forall|j: int| 0 <= j < all.len() implies least(all) <= #[trigger] all[j] by {
            if j < shorter.len() {
                assert(least(shorter) <= shorter[j]);
            }
        }
        if all.last() < least(shorter) {
            assert(all[all.len() - 1] == least(all));
        } else {
            assert(all[i] == least(all));
        }
        lemma_places_found(all, least(all));
    } else {
        assert(all[0] == least(all));
        assert(all.drop_last() =~= Seq::<nat>::empty());
    }
}

/// A load that stands among the loads has a place.
proof fn lemma_places_found(all: Seq<nat>, load: nat)
    requires
        exists|i: int| 0 <= i < all.len() && #[trigger] all[i] == load,
    ensures
        places_with(all, load).len() > 0,
    decreases all.len(),
{
    if all.len() > 0 && all.last() != load {
        let i = choose|i: int| 0 <= i < all.len() && #[trigger] all[i] == load;
        assert(all.drop_last()[i] == load);
        lemma_places_found(all.drop_last(), load);
    }
}

/// Every place of a load is a place among the loads.
proof fn lemma_places_within(all: Seq<nat>, load: nat)
    ensures
        forall|k: int|
            0 <= k < places_with(all, load).len() ==> {
                &&& 0 <= #[trigger] places_with(all, load)[k]
                &&& places_with(all, load)[k] < all.len()
            },
    decreases all.len(),
{
    if all.len() > 0 {
        lemma_places_within(all.drop_last(), load);
        let shorter = places_with(all.drop_last(), load);
        assert forall|k: int| 0 <= k < places_with(all, load).len() implies {
            &&& 0 <= #[trigger] places_with(all, load)[k]
            &&& places_with(all, load)[k] < all.len()
        } by {
            if k < shorter.len() {
                assert(places_with(all, load)[k] == shorter[k]);
            }
        }
    }
}

/// The adapters behind a list of references, as contracts see them.
pub open spec fn adapter_views(adapters: Seq<&Adapter>) -> Seq<AdapterState> {
    Seq::new(adapters.len(), |i: int| adapters[i]@)
}

/// The message of a selection that found no candidate.
pub open spec fn no_candidate_message() -> Seq<char> {
    "No healthy backends available"@
}

/// Selects one backend for each request.
pub struct LoadBalancer {
    strategy: LoadBalancingStrategy,
    counter: u128,
    connections: SlotTable<usize>,
}

impl View for LoadBalancer {
    type V = BalancerState;

    closed spec fn view(&self) -> BalancerState {
        BalancerState {
            strategy: self.strategy,
            counter: self.counter as nat,
            connections: self.connections.entries(),
        }
    }
}

impl LoadBalancer {
    /// The counts of outstanding requests are kept under unique names.
    pub closed spec fn wf(&self) -> bool {
        self.connections.wf()
    }

    /// A load balancer that picks in turn, with nothing outstanding.
    pub fn new() -> (balancer: Self)
        ensures
            balancer.wf(),
            balancer@.strategy == LoadBalancingStrategy::RoundRobin,
            balancer@.counter == 0,
            balancer@.connections == Slots::<usize>::empty(),
    {
        LoadBalancer {
            strategy: LoadBalancingStrategy::RoundRobin,
            counter: 0,
            connections: SlotTable::new(),
        }
    }

    /// The strategy in use.
    pub fn strategy(&self) -> (strategy: LoadBalancingStrategy)
        ensures
            strategy == self@.strategy,
    {
        self.strategy
    }

    /// Switches to another strategy.
    pub fn set_strategy(&mut self, strategy: LoadBalancingStrategy)
        ensures
            final(self)@ == (BalancerState { strategy, ..old(self)@ }),
            final(self).wf() == old(self).wf(),
    {
        self.strategy = strategy;
    }

    /// The requests outstanding at the adapter of that name.
    pub fn outstanding(&self, name: &str) -> (count: usize)
        requires
            self.wf(),
        ensures
            count == outstanding(self@.connections, name@),
    {
        match self.connections.get(name) {
            Some(count) => *count,
            None => 0,
        }
    }

    /// Counts one more request outstanding at the adapter of that name.
    fn acquire(&mut self, name: &str)
        requires
            old(self).wf(),
        ensures
            final(self).wf(),
            final(self)@ == (BalancerState {
                connections: acquired(old(self)@.connections, name@),
                ..old(self)@
            }),
    {
        let current = match self.connections.get(name) {
            Some(count) => Some(*count),
            None => None,
        };
        match current {
            Some(count) => {
                if count < usize::MAX {
                    self.connections.insert(name.to_string(), count + 1);
                }
            },
            None => {
                self.connections.insert(name.to_string(), 1);
            },
        }
    }

    /// Counts one request less outstanding at the adapter of that name.
    pub fn release(&mut self, name: &str)
        requires
            old(self).wf(),
        ensures
            final(self).wf(),
            final(self)@ == (BalancerState {
                connections: released(old(self)@.connections, name@),
                ..old(self)@
            }),
    {
        let current = match self.connections.get(name) {
            Some(count) => Some(*count),
            None => None,
        };
        match current {
            Some(count) => {
                if count > 0 {
                    self.connections.insert(name.to_string(), count - 1);
                }
            },
            None => {},
        }
    }

    /// The sum of the weights of the adapters.
    fn sum_weights(healthy: &Vec<&Adapter>) -> (total: u128)
        ensures
            total == total_weight(adapter_views(healthy@)),
    {
        let ghost views = adapter_views(healthy@);
        let mut total: u128 = 0;
        let mut i: usize = 0;
        assert(views.take(0) =~= Seq::empty());
        while i < healthy.len()
            invariant
                i <= healthy.len(),
                views == adapter_views(healthy@),
                total == total_weight(views.take(i as int)),
                total <= i * 0xffff_ffff,
            decreases healthy.len() - i,
        {
            proof {
                lemma_total_weight_step(views, i as int);
            }
            total = total + healthy[i].weight() as u128;
            i = i + 1;
        }
        assert(views.take(views.len() as int) =~= views);
        total
    }

    /// The adapter at a place of the weighted sequence.
    fn owner_of(healthy: &Vec<&Adapter>, place: u128) -> (i: usize)
        requires
            place < total_weight(adapter_views(healthy@)),
        ensures
            i < healthy@.len(),
            i == weighted_owner(adapter_views(healthy@), place as nat),
    {
        let ghost views = adapter_views(healthy@);
        let mut before: u128 = 0;
        let mut i: usize = 0;
        assert(views.take(0) =~= Seq::empty());
        assert(views.take(views.len() as int) =~= views);
        // The place is below the sum of all weights, so one adapter holds it.
        loop
            invariant
                i < healthy.len(),
                views == adapter_views(healthy@),
                before == total_weight(views.take(i as int)),
                before <= place,
                before <= i * 0xffff_ffff,
                place < total_weight(views),
            decreases healthy.len() - i,
        {
            proof {
                lemma_total_weight_step(views, i as int);
            }
            let next = before + healthy[i].weight() as u128;
            if place < next {
                proof {
                    lemma_weighted_owner(views, place as nat, i as int);
                }
                return i;
            }
            before = next;
            i = i + 1;
        }
    }

    /// The adapter that takes the next request, as a place among `healthy`.
    /// `draw` is a number drawn at random, read by the random strategy only.
    pub fn pick(&mut self, healthy: &Vec<&Adapter>, draw: usize) -> (place: Option<usize>)
        requires
            old(self).wf(),
        ensures
            final(self).wf(),
            place is Some <==> choice(old(self)@, adapter_views(healthy@), draw as nat) is Some,
            place matches Some(i) ==> i < healthy@.len() && i == choice(
                old(self)@,
                adapter_views(healthy@),
                draw as nat,
            ).unwrap().0 && final(self)@ == choice(
                old(self)@,
                adapter_views(healthy@),
                draw as nat,
            ).unwrap().1,
            place is None ==> final(self)@ == old(self)@,
    {
        let n = healthy.len();
        if n == 0 {
            return None;
        }
        let ghost views = adapter_views(healthy@);
        match self.strategy {
            LoadBalancingStrategy::RoundRobin => {
                let here = self.counter % (n as u128);
                proof {
                    lemma_add_mod_noop(self.counter as int, 1, n as int);
                    lemma_mod_twice(self.counter as int, n as int);
                    if n > 1 {
                        lemma_small_mod(1, n as nat);
                    }
                }
                self.counter = (here + 1) % (n as u128);
                Some(here as usize)
            },
            LoadBalancingStrategy::WeightedRoundRobin => {
                let total = Self::sum_weights(healthy);
                if total == 0 {
                    return None;
                }
                let here = self.counter % total;
                proof {
                    lemma_add_mod_noop(self.counter as int, 1, total as int);
                    lemma_mod_twice(self.counter as int, total as int);
                    if total > 1 {
                        lemma_small_mod(1, total as nat);
                    }
                }
                let place = Self::owner_of(healthy, here);
                self.counter = (here + 1) % total;
                Some(place)
            },
            LoadBalancingStrategy::Random => Some(draw % n),
            LoadBalancingStrategy::LeastConnections => {
                let ghost all = loads(views, self@.connections);
                let mut counts: Vec<usize> = Vec::new();
                let mut i: usize = 0;
                while i < n
                    invariant
                        i <= n,
                        n == healthy@.len(),
                        self.wf(),
                        self@ == old(self)@,
                        views == adapter_views(healthy@),
                        all == loads(views, self@.connections),
                        counts@.len() == i,
                        forall|j: int| 0 <= j < i ==> (#[trigger] counts@[j]) as nat == all[j],
                    decreases n - i,
                {
                    counts.push(self.outstanding(healthy[i].name()));
                    i = i + 1;
                }
                let mut lowest: usize = counts[0];
                let mut i: usize = 1;
                proof {
                    assert(all.take(1).drop_last() =~= Seq::<nat>::empty());
                }
                while i < n
                    invariant
                        1 <= i <= n,
                        n == all.len(),
                        counts@.len() == n,
                        forall|j: int| 0 <= j < n ==> (#[trigger] counts@[j]) as nat == all[j],
                        lowest as nat == least(all.take(i as int)),
                    decreases n - i,
                {
                    proof {
                        assert(all.take(i + 1).drop_last() =~= all.take(i as int));
                    }
                    if counts[i] < lowest {
                        lowest = counts[i];
                    }
                    i = i + 1;
                }
                assert(all.take(n as int) =~= all);
                let mut lightest: Vec<usize> = Vec::new();
                let mut i: usize = 0;
                assert(all.take(0) =~= Seq::<nat>::empty());
                while i < n
                    invariant
                        i <= n,
                        n == all.len(),
                        counts@.len() == n,
                        forall|j: int| 0 <= j < n ==> (#[trigger] counts@[j]) as nat == all[j],
                        lightest@.len() == places_with(all.take(i as int), lowest as nat).len(),
                        forall|j: int|
                            0 <= j < lightest@.len() ==> (#[trigger] lightest@[j]) as int
                                == places_with(all.take(i as int), lowest as nat)[j],
                    decreases n - i,
                {
                    proof {
                        assert(all.take(i + 1).drop_last() =~= all.take(i as int));
                    }
                    if counts[i] == lowest {
                        lightest.push(i);
                    }
                    i = i + 1;
                }
                proof {
                    lemma_least(all);
                    lemma_places_within(all, least(all));
                }
                let m = lightest.len();
                let turn = self.counter % (m as u128);
                proof {
                    lemma_add_mod_noop(self.counter as int, 1, m as int);
                    lemma_mod_twice(self.counter as int, m as int);
                    if m > 1 {
                        lemma_small_mod(1, m as nat);
                    }
                }
                let place = lightest[turn as usize];
                self.counter = (turn + 1) % (m as u128);
                self.acquire(healthy[place].name());
                Some(place)
            },
        }
    }

    /// Selects the backend for a request. A backend that is asked for by
    /// name is handed out as it is, whatever its state; else the strategy
    /// picks among the backends that are enabled and have a healthy endpoint.
    pub fn select_backend<'a>(
        &mut self,
        registry: &'a BackendRegistry,
        backend_name: Option<&str>,
    ) -> (r: Result<&'a Adapter>)
        requires
            old(self).wf(),
            registry.wf(),
        ensures
            final(self).wf(),
            backend_name matches Some(name) ==> final(self)@ == old(self)@ && (r is Ok <==> holds(
                registry@,
                name@,
            )),
            backend_name matches Some(name) ==> (r matches Ok(adapter) ==> adapter@ == value_of(
                registry@,
                name@,
            ) && adapter@.name == name@),
            backend_name matches Some(name) ==> (r matches Err(e) ==> e.has(
                ErrorKind::BackendNotFound,
                name@,
            )),
            backend_name is None ==> exists|draw: nat|
                selects(old(self)@, healthy_backends(registry@), draw, r, final(self)@),
            backend_name is None && old(self)@.strategy != LoadBalancingStrategy::Random ==> selects(
                old(self)@,
                healthy_backends(registry@),
                0,
                r,
                final(self)@,
            ),
    {
        match backend_name {
            Some(name) => {
                match registry.get(name) {
                    Some(adapter) => Ok(adapter),
                    None => Err(AppError::BackendNotFound(name.to_string())),
                }
            },
            None => {
                let healthy = registry.get_healthy();
                assert(adapter_views(healthy@) =~= healthy_backends(registry@));
                let is_random = match self.strategy {
                    LoadBalancingStrategy::Random => true,
                    _ => false,
                };
                let draw = if is_random && healthy.len() > 0 {
                    random_below(healthy.len())
                } else {
                    0
                };
                let r = match self.pick(&healthy, draw) {
                    Some(place) => Ok(healthy[place]),
                    None => Err(
                        AppError::NoHealthyBackends("No healthy backends available".to_string()),
                    ),
                };
                assert(selects(
                    old(self)@,
                    healthy_backends(registry@),
                    draw as nat,
                    r,
                    self@,
                ));
                r
            },
        }
    }
}

/// A selection went as the strategy says: the adapter that `choice` names
/// was handed out and the load balancer is as `choice` leaves it, or no
/// adapter could be picked and the load balancer is as it was.
pub open spec fn selects(
    before: BalancerState,
    healthy: Seq<AdapterState>,
    draw: nat,
    r: Result<&Adapter>,
    after: BalancerState,
) -> bool {
    match choice(before, healthy, draw) {
        Some(next) => r is Ok && 0 <= next.0 < healthy.len() && r->Ok_0@ == healthy[next.0] && after
            == next.1,
        None => r is Err && r->Err_0.has(ErrorKind::NoHealthyBackends, no_candidate_message())
            && after == before,
    }
}

/// Where no backend is registered, a selection without a name finds no
/// healthy backend, whatever the strategy and the draw.
pub proof fn lemma_empty_registry_selects_none(state: BalancerState, draw: nat)
    ensures
        healthy_backends(Slots::<AdapterState>::empty()).len() == 0,
        choice(state, healthy_backends(Slots::<AdapterState>::empty()), draw) is None,
{
    reveal(Seq::filter);
}

impl Default for LoadBalancer {
    fn default() -> (balancer: Self)
        ensures
            balancer.wf(),
            balancer@.strategy == LoadBalancingStrategy::RoundRobin,
    {
        Self::new()
    }
}

} // verus!
