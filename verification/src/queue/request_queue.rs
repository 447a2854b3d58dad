//! The request queue: the one place where image requests are admitted.
//!
//! A request is admitted to a backend and ends there: once a backend was
//! chosen, no other backend is tried. Sending the request is left to the
//! caller, who hands the reply back.

use crate::backend::registry::{
    healthy_backends, lemma_change_keeps_weights, lemma_healthy_held, same_names, same_weights,
    well_named, with_adapter, BackendRegistry,
};
use crate::backend::slots::{holds, lemma_put, named_at, position, unique, value_of, Slots};
use crate::backend::adapter::{
    after_selection, operation_path, reply_effect, reply_error, selected, with_marked,
    AdapterState, Operation, UpstreamReply, UpstreamRequest,
};
use crate::error::{ErrorKind, Result};
use crate::gateway::load_balancer::{
    choice, lemma_choice_within, lemma_round_robin_fair, lemma_weighted_round_robin_fair,
    no_candidate_message, occurrences, picks, released, selects, state_after, total_weight,
    BalancerState, LoadBalancer, LoadBalancingStrategy,
};
use crate::gateway::router::{route_of, slice_text, Route, Router};
use vstd::prelude::*;

verus! {

/// A request that was admitted: where it goes and what to send.
#[derive(Clone, Debug)]
pub struct Dispatch {
    /// The name of the backend that takes the request.
    pub backend: String,
    /// The call to send to it.
    pub request: UpstreamRequest,
}

/// An image request went to the backend `name`: the cursor of that backend
/// has moved on where it had a healthy endpoint, and the request goes to
/// the endpoint under it; where it had none, the request is refused.
pub open spec fn admitted_to(
    before: Slots<AdapterState>,
    name: Seq<char>,
    after: Slots<AdapterState>,
    r: Result<Dispatch>,
) -> bool {
    &&& after == with_adapter(before, name, after_selection(value_of(before, name)))
    &&& r is Ok <==> selected(value_of(before, name)) is Some
    &&& r is Ok ==> r->Ok_0.backend@ == name && r->Ok_0.request.calls(
        value_of(before, name),
        selected(value_of(before, name)).unwrap(),
        operation_path(Operation::ImageGeneration),
    )
    &&& r is Err ==> r->Err_0.has(ErrorKind::NoHealthyBackends, name)
}

/// An image request was handed to the load balancer, which drew `draw`:
/// the request went to the backend that the strategy picked, or was
/// refused where the strategy could pick none.
pub open spec fn balanced(
    balancer: BalancerState,
    before: Slots<AdapterState>,
    draw: nat,
    balancer_after: BalancerState,
    after: Slots<AdapterState>,
    r: Result<Dispatch>,
) -> bool {
    match choice(balancer, healthy_backends(before), draw) {
        Some(next) => 0 <= next.0 < healthy_backends(before).len() && balancer_after == next.1
            && admitted_to(before, healthy_backends(before)[next.0].name, after, r),
        None => balancer_after == balancer && after == before && r is Err && r->Err_0.has(
            ErrorKind::NoHealthyBackends,
            no_candidate_message(),
        ),
    }
}

/// The load balancer and the registry after `n` requests in a row that
/// are left to the load balancer, none by chance: each request goes to the
/// backend that is picked and moves the endpoint cursor of that backend.
pub open spec fn after_dispatches(
    balancer: BalancerState,
    model: Slots<AdapterState>,
    n: nat,
) -> (BalancerState, Slots<AdapterState>)
    decreases n,
{
    if n == 0 {
        (balancer, model)
    } else {
        let before = after_dispatches(balancer, model, (n - 1) as nat);
        let healthy = healthy_backends(before.1);
        match choice(before.0, healthy, 0) {
            Some(next) => (
                next.1,
                with_adapter(
                    before.1,
                    healthy[next.0].name,
                    after_selection(value_of(before.1, healthy[next.0].name)),
                ),
            ),
            None => before,
        }
    }
}

/// The backends that can take a request at each of the first `n` such requests.
pub open spec fn dispatch_lists(
    balancer: BalancerState,
    model: Slots<AdapterState>,
    n: nat,
) -> Seq<Seq<AdapterState>> {
    Seq::new(n, |i: int| healthy_backends(after_dispatches(balancer, model, i as nat).1))
}

/// The backends that the first `n` such requests go to, each as its place
/// among the backends that can take a request.
pub open spec fn dispatched(balancer: BalancerState, model: Slots<AdapterState>, n: nat) -> Seq<int> {
    picks(balancer, dispatch_lists(balancer, model, n), n)
}

/// A request that was handed to the load balancer without a draw is one
/// step of `after_dispatches`.
pub proof fn lemma_balanced_is_a_dispatch(
    balancer: BalancerState,
    before: Slots<AdapterState>,
    balancer_after: BalancerState,
    after: Slots<AdapterState>,
    r: Result<Dispatch>,
)
    requires
        balanced(balancer, before, 0, balancer_after, after, r),
    ensures
        (balancer_after, after) == after_dispatches(balancer, before, 1),
{
    reveal_with_fuel(after_dispatches, 2);
}

/// Requests that are left to the load balancer leave the backends that can
/// take a request as they are, as far as their number, their names and
/// their weights go; and the load balancer goes through the states that
/// its selections give.
pub proof fn lemma_dispatches_keep_backends(
    balancer: BalancerState,
    model: Slots<AdapterState>,
    n: nat,
    m: nat,
)
    requires
        unique(model),
        well_named(model),
        n <= m,
    ensures
        unique(after_dispatches(balancer, model, n).1),
        well_named(after_dispatches(balancer, model, n).1),
        same_weights(
            healthy_backends(after_dispatches(balancer, model, n).1),
            healthy_backends(model),
        ),
        same_names(
            healthy_backends(after_dispatches(balancer, model, n).1),
            healthy_backends(model),
        ),
        state_after(balancer, dispatch_lists(balancer, model, m), n) == after_dispatches(
            balancer,
            model,
            n,
        ).0,
    decreases n,
{
    if n > 0 {
        lemma_dispatches_keep_backends(balancer, model, (n - 1) as nat, m);
        let before = after_dispatches(balancer, model, (n - 1) as nat);
        let healthy = healthy_backends(before.1);
        assert(dispatch_lists(balancer, model, m)[n - 1] == healthy);
        if choice(before.0, healthy, 0) is Some {
            let next = choice(before.0, healthy, 0).unwrap();
            lemma_choice_within(before.0, healthy, 0);
            lemma_healthy_held(before.1, next.0);
            let name = healthy[next.0].name;
            let old = value_of(before.1, name);
            let at = position(before.1, name);
            assert(named_at(before.1, name, at));
            lemma_put(before.1, name, after_selection(old));
            lemma_change_keeps_weights(before.1, at, after_selection(old));
            let after = after_dispatches(balancer, model, n).1;
            assert(after == before.1.update(at, Some((name, after_selection(old)))));
            assert forall|j: int|
                0 <= j < after.len() && (#[trigger] after[j]) is Some implies after[j].unwrap().1.name
                == after[j].unwrap().0 by {
                if j != at {
                    assert(before.1[j] is Some);
                }
            }
        }
    }
}

/// Round robin is fair to the backends: as long as `k` backends can take a
/// request, `c * k` requests in a row that are left to the load balancer go
/// to each of them exactly `c` times, wherever the counter stands at the
/// first request.
pub proof fn lemma_dispatches_in_turn(
    balancer: BalancerState,
    model: Slots<AdapterState>,
    c: nat,
    place: int,
)
    requires
        balancer.strategy == LoadBalancingStrategy::RoundRobin,
        unique(model),
        well_named(model),
        0 <= place < healthy_backends(model).len(),
    ensures
        occurrences(dispatched(balancer, model, c * healthy_backends(model).len()), place) == c,
{
    let k = healthy_backends(model).len();
    let n = c * k;
    let lists = dispatch_lists(balancer, model, n);
    assert forall|i: int| 0 <= i < n implies (#[trigger] lists[i]).len() == k by {
        lemma_dispatches_keep_backends(balancer, model, i as nat, n);
    }
    lemma_round_robin_fair(balancer, lists, k, c, place);
}

/// Weighted round robin follows the weights of the backends: where `total`
/// is the sum of the weights of the backends that can take a request,
/// `c * total` requests in a row that are left to the load balancer go to
/// each of them `c` times its weight, wherever the counter stands at the
/// first request.
pub proof fn lemma_dispatches_follow_weights(
    balancer: BalancerState,
    model: Slots<AdapterState>,
    c: nat,
    place: int,
)
    requires
        balancer.strategy == LoadBalancingStrategy::WeightedRoundRobin,
        unique(model),
        well_named(model),
        total_weight(healthy_backends(model)) > 0,
        0 <= place < healthy_backends(model).len(),
    ensures
        occurrences(
            dispatched(balancer, model, c * total_weight(healthy_backends(model))),
            place,
        ) == c * healthy_backends(model)[place].weight,
{
    let healthy = healthy_backends(model);
    let n = c * total_weight(healthy);
    let lists = dispatch_lists(balancer, model, n);
    assert forall|i: int| 0 <= i < n implies same_weights(#[trigger] lists[i], healthy) by {
        lemma_dispatches_keep_backends(balancer, model, i as nat, n);
    }
    lemma_weighted_round_robin_fair(balancer, lists, healthy, c, place);
}

/// Admits image requests.
pub struct RequestQueue {
    router: Router,
}

impl RequestQueue {
    /// The default backend of the routing policy.
    pub closed spec fn default_backend(&self) -> Option<Seq<char>> {
        self.router.default_backend()
    }

    /// Whether the routing policy falls back to the load balancer.
    pub closed spec fn fallback_enabled(&self) -> bool {
        self.router.fallback_enabled()
    }

    /// A queue with the default routing policy.
    pub fn new() -> (queue: Self)
        ensures
            queue.default_backend() is None,
            queue.fallback_enabled(),
    {
        RequestQueue { router: Router::new() }
    }

    /// A queue with the given router.
    pub fn with_router(router: Router) -> (queue: Self)
        ensures
            queue.default_backend() == router.default_backend(),
            queue.fallback_enabled() == router.fallback_enabled(),
    {
        RequestQueue { router }
    }

    /// Admits an image request: the router names a backend, an explicit
    /// name first, and the next healthy endpoint of that backend takes the
    /// request.
    pub fn submit(
        &self,
        registry: &mut BackendRegistry,
        balancer: &mut LoadBalancer,
        backend_name: Option<&str>,
        model: Option<&str>,
    ) -> (r: Result<Dispatch>)
        requires
            old(registry).wf(),
            old(balancer).wf(),
        ensures
            final(registry).wf(),
            final(balancer).wf(),
            route_of(
                self.default_backend(),
                self.fallback_enabled(),
                old(registry)@,
                slice_text(backend_name),
                slice_text(model),
            ) matches Route::Direct(name) ==> final(balancer)@ == old(balancer)@ && admitted_to(
                old(registry)@,
                name,
                final(registry)@,
                r,
            ),
            route_of(
                self.default_backend(),
                self.fallback_enabled(),
                old(registry)@,
                slice_text(backend_name),
                slice_text(model),
            ) is Balanced ==> exists|draw: nat|
                balanced(
                    old(balancer)@,
                    old(registry)@,
                    draw,
                    final(balancer)@,
                    final(registry)@,
                    r,
                ),
            route_of(
                self.default_backend(),
                self.fallback_enabled(),
                old(registry)@,
                slice_text(backend_name),
                slice_text(model),
            ) is Balanced && old(balancer)@.strategy != LoadBalancingStrategy::Random ==> balanced(
                old(balancer)@,
                old(registry)@,
                0,
                final(balancer)@,
                final(registry)@,
                r,
            ) && (final(balancer)@, final(registry)@) == after_dispatches(
                old(balancer)@,
                old(registry)@,
                1,
            ),
            route_of(
                self.default_backend(),
                self.fallback_enabled(),
                old(registry)@,
                slice_text(backend_name),
                slice_text(model),
            ) is Refused ==> final(balancer)@ == old(balancer)@ && final(registry)@ == old(
                registry,
            )@ && r is Err && r->Err_0.has(ErrorKind::NoHealthyBackends, no_candidate_message()),
    {
        let ghost route = route_of(
            self.default_backend(),
            self.fallback_enabled(),
            registry@,
            slice_text(backend_name),
            slice_text(model),
        );
        let ghost before = registry@;
        let ghost balancer_before = balancer@;
        let picked = self.router.route(registry, balancer, backend_name, model);
        let ghost draw: nat = if route is Balanced {
            choose|draw: nat|
                selects(balancer_before, healthy_backends(before), draw, picked, balancer@)
        } else {
            0
        };
        let ghost draw: nat = if route is Balanced && balancer_before.strategy
            != LoadBalancingStrategy::Random {
            0
        } else {
            draw
        };
        let name = match picked {
            Ok(adapter) => adapter.name().to_string(),
            Err(e) => {
                proof {
                    if route is Balanced {
                        assert(balanced(balancer_before, before, draw, balancer@, registry@, Err(e)));
                        if draw == 0 {
                            lemma_balanced_is_a_dispatch(
                                balancer_before,
                                before,
                                balancer@,
                                registry@,
                                Err(e),
                            );
                        }
                    }
                }
                return Err(e);
            },
        };
        proof {
            registry.lemma_wf();
            if route is Balanced {
                let next = choice(balancer_before, healthy_backends(before), draw).unwrap();
                lemma_healthy_held(before, next.0);
            }
        }
        let r = match registry.begin(name.as_str(), Operation::ImageGeneration) {
            Ok(request) => Ok(Dispatch { backend: name, request }),
            Err(e) => Err(e),
        };
        proof {
            if route is Balanced {
                assert(balanced(balancer_before, before, draw, balancer@, registry@, r));
                if draw == 0 {
                    lemma_balanced_is_a_dispatch(balancer_before, before, balancer@, registry@, r);
                }
            }
        }
        r
    }

    /// Ends a request that was admitted: what the reply means for the
    /// endpoint is recorded, where the backend is still registered, one
    /// request less is outstanding at the backend, and the parsed body or
    /// the error is handed back unchanged.
    pub fn complete<T>(
        &self,
        registry: &mut BackendRegistry,
        balancer: &mut LoadBalancer,
        dispatch: &Dispatch,
        reply: UpstreamReply<T>,
    ) -> (r: Result<T>)
        requires
            old(registry).wf(),
            old(balancer).wf(),
        ensures
            final(registry).wf(),
            final(balancer).wf(),
            final(balancer)@ == (BalancerState {
                connections: released(old(balancer)@.connections, dispatch.backend@),
                ..old(balancer)@
            }),
            !holds(old(registry)@, dispatch.backend@) ==> final(registry)@ == old(registry)@,
            holds(old(registry)@, dispatch.backend@) ==> final(registry)@ == with_adapter(
                old(registry)@,
                dispatch.backend@,
                with_marked(
                    value_of(old(registry)@, dispatch.backend@),
                    dispatch.request.endpoint@,
                    reply_effect(reply),
                ),
            ),
            r is Err <==> reply_error(reply) is Some,
            r matches Err(e) ==> e.has(reply_error(reply).unwrap().0, reply_error(reply).unwrap().1),
            r matches Ok(value) ==> reply matches UpstreamReply::Answered { parsed: Ok(p), .. }
                && value == p,
    {
        balancer.release(dispatch.backend.as_str());
        registry.complete(dispatch.backend.as_str(), dispatch.request.endpoint.as_str(), reply)
    }
}

impl Default for RequestQueue {
    fn default() -> (queue: Self)
        ensures
            queue.default_backend() is None,
            queue.fallback_enabled(),
    {
        Self::new()
    }
}

} // verus!
