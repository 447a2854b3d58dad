//! Text backend registry for managing text generation backends.

use crate::backend::index::{index_drop_slot, index_entries, index_get, index_insert, index_new};
use crate::backend::registry::already_exists_message;
use crate::backend::slots::{
    holds, lemma_first_free_exists, lemma_held_is_listed, lemma_position, lemma_put, lemma_viewed,
    lemma_viewed_count, lemma_viewed_put, lemma_viewed_values, lemma_viewed_without, lemma_without,
    live_count, live_names, live_values, named_at, position, put, unique, value_of, viewed,
    without, Slots, SlotTable,
};
use crate::backend::text_backend::{
    create_text_backend, text_backend_of, text_protocol_tag, ModelsPlan, ModelsResponse,
    TextBackend, TextBackendState, TextBackendStatus,
};
use crate::backend::adapter::{
    after_selection, any_passed, operation_path, probed, reply_effect, reply_error, selected,
    with_marked, Adapter, AdapterState, Operation, ProbeReply, UpstreamReply, UpstreamRequest,
};
use crate::config::settings::{BackendConfig, BackendType};
use crate::error::{AppError, ErrorKind, Result};
use crate::text::{concat3, views};
use dashmap::DashMap;
use vstd::prelude::*;

verus! {

/// The text registry as contracts see it: the backends in their slots, and
/// the backend name that each model identifier is bound to.
pub struct TextRegistryState {
    pub backends: Slots<TextBackendState>,
    pub models: Map<Seq<char>, Seq<char>>,
}

/// `models` with every declared model bound to `name`, whoever owned it before.
pub open spec fn bound(
    models: Map<Seq<char>, Seq<char>>,
    declared: Seq<Seq<char>>,
    name: Seq<char>,
) -> Map<Seq<char>, Seq<char>> {
    Map::new(
        |m: Seq<char>| models.contains_key(m) || declared.contains(m),
        |m: Seq<char>|
            if declared.contains(m) {
                name
            } else {
                models[m]
            },
    )
}

/// `models` without the entries that point to `name`.
pub open spec fn unbound(models: Map<Seq<char>, Seq<char>>, name: Seq<char>) -> Map<
    Seq<char>,
    Seq<char>,
> {
    Map::new(|m: Seq<char>| models.contains_key(m) && models[m] != name, |m: Seq<char>| models[m])
}

/// The message for a backend that is not a text backend.
pub open spec fn not_text_message(name: Seq<char>) -> Seq<char> {
    "Backend '"@ + name + "' is not a text backend"@
}

/// The message for a model that no backend is available for.
pub open spec fn no_backend_message(model: Seq<char>) -> Seq<char> {
    "no available backend for model '"@ + model + "'"@
}

/// The registry after `add_backend`, or the error: a backend that is not a
/// text backend and a protocol that no text backend speaks are internal
/// errors, a taken name is an invalid request; else the new backend is
/// held under its name and each of its models is bound to it.
pub open spec fn text_added(
    state: TextRegistryState,
    config: BackendConfig,
    env: Seq<(String, String)>,
) -> std::result::Result<TextRegistryState, (ErrorKind, Seq<char>)> {
    if config.backend_type != BackendType::Text {
        Err((ErrorKind::Internal, not_text_message(config.name@)))
    } else if holds(state.backends, config.name@) {
        Err((ErrorKind::InvalidRequest, already_exists_message(config.name@)))
    } else {
        match text_backend_of(config, env) {
            Err(e) => Err(e),
            Ok(backend) => Ok(
                TextRegistryState {
                    backends: put(state.backends, config.name@, backend),
                    models: bound(state.models, views(config.models@), config.name@),
                },
            ),
        }
    }
}

/// The registry after `remove_backend`, or the error for a name that is
/// not held: the backend is gone, and so is every binding that pointed to it.
pub open spec fn text_removed(state: TextRegistryState, name: Seq<char>) -> std::result::Result<
    TextRegistryState,
    (ErrorKind, Seq<char>),
> {
    if holds(state.backends, name) {
        Ok(
            TextRegistryState {
                backends: without(state.backends, name),
                models: unbound(state.models, name),
            },
        )
    } else {
        Err((ErrorKind::BackendNotFound, name))
    }
}

/// Whether slot `i` holds an enabled backend that declares `model`.
pub open spec fn serves_at(backends: Slots<TextBackendState>, model: Seq<char>, i: int) -> bool {
    0 <= i < backends.len() && backends[i] is Some && backends[i].unwrap().1.adapter.enabled
        && backends[i].unwrap().1.adapter.models.contains(model)
}

/// Whether slot `i` holds an enabled backend.
pub open spec fn enabled_at(backends: Slots<TextBackendState>, i: int) -> bool {
    0 <= i < backends.len() && backends[i] is Some && backends[i].unwrap().1.adapter.enabled
}

/// `i` is the first slot with an enabled backend that declares `model`, or
/// the number of slots if there is none.
pub open spec fn is_first_serving(
    backends: Slots<TextBackendState>,
    model: Seq<char>,
    i: int,
) -> bool {
    &&& 0 <= i <= backends.len()
    &&& i < backends.len() ==> serves_at(backends, model, i)
    &&& forall|j: int| 0 <= j < i ==> !#[trigger] serves_at(backends, model, j)
}

/// `i` is the first slot with an enabled backend, or the number of slots if
/// there is none.
pub open spec fn is_first_enabled(backends: Slots<TextBackendState>, i: int) -> bool {
    &&& 0 <= i <= backends.len()
    &&& i < backends.len() ==> enabled_at(backends, i)
    &&& forall|j: int| 0 <= j < i ==> !#[trigger] enabled_at(backends, j)
}

/// The first slot with an enabled backend that declares `model`.
pub open spec fn first_serving(backends: Slots<TextBackendState>, model: Seq<char>) -> int {
    choose|i: int| is_first_serving(backends, model, i)
}

/// The first slot with an enabled backend.
pub open spec fn first_enabled(backends: Slots<TextBackendState>) -> int {
    choose|i: int| is_first_enabled(backends, i)
}

/// The first serving slot is the one that `is_first_serving` describes.
pub proof fn lemma_first_serving(
    backends: Slots<TextBackendState>,
    model: Seq<char>,
    i: int,
)
    requires
        is_first_serving(backends, model, i),
    ensures
        first_serving(backends, model) == i,
{
    let g = first_serving(backends, model);
    assert(is_first_serving(backends, model, g));
    if g < i {
        assert(!serves_at(backends, model, g));
    }
    if i < g {
        assert(!serves_at(backends, model, i));
    }
}

/// The first enabled slot is the one that `is_first_enabled` describes.
pub proof fn lemma_first_enabled(backends: Slots<TextBackendState>, i: int)
    requires
        is_first_enabled(backends, i),
    ensures
        first_enabled(backends) == i,
{
    let g = first_enabled(backends);
    assert(is_first_enabled(backends, g));
    if g < i {
        assert(!enabled_at(backends, g));
    }
    if i < g {
        assert(!enabled_at(backends, i));
    }
}

/// The name of the backend that serves `model`. In order: the preferred
/// backend where it is registered, whatever its state; the backend that
/// the model is bound to, where it is enabled; the first enabled backend
/// that declares the model; the first enabled backend; else none.
pub open spec fn backend_for_model(
    state: TextRegistryState,
    model: Seq<char>,
    preferred: Option<Seq<char>>,
) -> Option<Seq<char>> {
    if preferred is Some && holds(state.backends, preferred.unwrap()) {
        preferred
    } else if state.models.contains_key(model) && holds(state.backends, state.models[model])
        && value_of(state.backends, state.models[model]).adapter.enabled {
        Some(state.models[model])
    } else if first_serving(state.backends, model) < state.backends.len() {
        Some(state.backends[first_serving(state.backends, model)].unwrap().0)
    } else if first_enabled(state.backends) < state.backends.len() {
        Some(state.backends[first_enabled(state.backends)].unwrap().0)
    } else {
        None
    }
}

/// The registry with the backend under `name` replaced by `backend`; as it
/// was where nothing is held under `name`.
pub open spec fn with_backend(
    state: TextRegistryState,
    name: Seq<char>,
    backend: TextBackendState,
) -> TextRegistryState {
    if holds(state.backends, name) {
        TextRegistryState { backends: put(state.backends, name, backend), ..state }
    } else {
        state
    }
}

/// A text backend with another adapter.
pub open spec fn with_adapter_state(
    backend: TextBackendState,
    adapter: AdapterState,
) -> TextBackendState {
    TextBackendState { adapter, ..backend }
}

/// Where an enabled backend was added, each model it declares resolves to
/// it when no backend is preferred.
pub proof fn lemma_added_serves_models(
    state: TextRegistryState,
    config: BackendConfig,
    env: Seq<(String, String)>,
    model: Seq<char>,
)
    requires
        unique(state.backends),
        text_added(state, config, env) is Ok,
        config.enabled,
        views(config.models@).contains(model),
    ensures
        backend_for_model(text_added(state, config, env)->Ok_0, model, None) == Some(config.name@),
        value_of(text_added(state, config, env)->Ok_0.backends, config.name@) == text_backend_of(
            config,
            env,
        )->Ok_0,
{
    lemma_put(state.backends, config.name@, text_backend_of(config, env)->Ok_0);
}

/// After a backend was removed, it is no longer found and no model is
/// bound to it.
pub proof fn lemma_removed_unbinds(state: TextRegistryState, name: Seq<char>, model: Seq<char>)
    requires
        unique(state.backends),
        text_removed(state, name) is Ok,
    ensures
        !holds(text_removed(state, name)->Ok_0.backends, name),
        text_removed(state, name)->Ok_0.models.contains_key(model) ==> text_removed(
            state,
            name,
        )->Ok_0.models[model] != name,
{
    lemma_without(state.backends, name);
}

/// Where two backends were added one after the other and both declare a
/// model, the model is bound to the second.
pub proof fn lemma_second_add_wins(
    state: TextRegistryState,
    first: BackendConfig,
    second: BackendConfig,
    env: Seq<(String, String)>,
    model: Seq<char>,
)
    requires
        text_added(state, first, env) is Ok,
        text_added(text_added(state, first, env)->Ok_0, second, env) is Ok,
        views(first.models@).contains(model),
        views(second.models@).contains(model),
    ensures
        text_added(text_added(state, first, env)->Ok_0, second, env)->Ok_0.models.contains_key(model),
        text_added(text_added(state, first, env)->Ok_0, second, env)->Ok_0.models[model]
            == second.name@,
{
}

/// The registry after a round of probes: the endpoints of the backend are
/// marked as the replies say, where the backend is registered.
pub open spec fn after_round(
    state: TextRegistryState,
    name: Seq<char>,
    replies: Seq<(String, ProbeReply)>,
) -> TextRegistryState {
    with_backend(
        state,
        name,
        with_adapter_state(
            value_of(state.backends, name),
            AdapterState {
                endpoints: probed(value_of(state.backends, name).adapter.endpoints, replies),
                ..value_of(state.backends, name).adapter
            },
        ),
    )
}

/// The registry after rounds of probes, round by round.
pub open spec fn after_rounds(
    state: TextRegistryState,
    rounds: Seq<(String, Vec<(String, ProbeReply)>)>,
) -> TextRegistryState
    decreases rounds.len(),
{
    if rounds.len() == 0 {
        state
    } else {
        after_round(
            after_rounds(state, rounds.drop_last()),
            rounds.last().0@,
            rounds.last().1@,
        )
    }
}

/// How many rounds were of a registered backend and had a probe that
/// passed, where `passing` says so, or had none, where it does not.
pub open spec fn rounds_counted(
    state: TextRegistryState,
    rounds: Seq<(String, Vec<(String, ProbeReply)>)>,
    passing: bool,
) -> nat
    decreases rounds.len(),
{
    if rounds.len() == 0 {
        0
    } else {
        rounds_counted(state, rounds.drop_last(), passing) + if holds(
            after_rounds(state, rounds.drop_last()).backends,
            rounds.last().0@,
        ) && any_passed(rounds.last().1@) == passing {
            1nat
        } else {
            0nat
        }
    }
}

/// The registry after a call of `add_backend`, whether it succeeded or not.
pub open spec fn after_text_add(
    state: TextRegistryState,
    config: BackendConfig,
    env: Seq<(String, String)>,
) -> TextRegistryState {
    match text_added(state, config, env) {
        Ok(after) => after,
        Err(_) => state,
    }
}

/// The registry after a call of `remove_backend`, whether it succeeded or not.
pub open spec fn after_text_remove(state: TextRegistryState, name: Seq<char>) -> TextRegistryState {
    match text_removed(state, name) {
        Ok(after) => after,
        Err(_) => state,
    }
}

/// For every text registry and two text backends with distinct names that
/// speak a protocol of text backends: after both were added, both are
/// found and both are listed; and a backend that was removed is no longer
/// found.
pub proof fn lemma_text_added_are_listed(
    state: TextRegistryState,
    a: BackendConfig,
    b: BackendConfig,
    env: Seq<(String, String)>,
)
    requires
        unique(state.backends),
        a.name@ != b.name@,
        a.backend_type == BackendType::Text,
        b.backend_type == BackendType::Text,
        text_backend_of(a, env) is Ok,
        text_backend_of(b, env) is Ok,
    ensures
        holds(after_text_add(after_text_add(state, a, env), b, env).backends, a.name@),
        holds(after_text_add(after_text_add(state, a, env), b, env).backends, b.name@),
        live_names(
            after_text_add(after_text_add(state, a, env), b, env).backends,
        ).contains(a.name@),
        live_names(
            after_text_add(after_text_add(state, a, env), b, env).backends,
        ).contains(b.name@),
        !holds(
            after_text_remove(after_text_add(after_text_add(state, a, env), b, env), a.name@).backends,
            a.name@,
        ),
{
    let first = after_text_add(state, a, env);
    lemma_put(state.backends, a.name@, text_backend_of(a, env)->Ok_0);
    assert(holds(first.backends, a.name@));
    assert(unique(first.backends));
    let second = after_text_add(first, b, env);
    lemma_put(first.backends, b.name@, text_backend_of(b, env)->Ok_0);
    assert(holds(second.backends, a.name@));
    assert(holds(second.backends, b.name@));
    assert(unique(second.backends));
    lemma_held_is_listed(second.backends, a.name@);
    lemma_held_is_listed(second.backends, b.name@);
    lemma_without(second.backends, a.name@);
}

/// Where a text backend was added, removing it by name brings the registry
/// back to the size it had before.
pub proof fn lemma_text_add_remove_size(
    state: TextRegistryState,
    config: BackendConfig,
    env: Seq<(String, String)>,
)
    requires
        unique(state.backends),
        text_added(state, config, env) is Ok,
    ensures
        text_removed(text_added(state, config, env)->Ok_0, config.name@) is Ok,
        live_count(text_removed(text_added(state, config, env)->Ok_0, config.name@)->Ok_0.backends)
            == live_count(state.backends),
{
    let backend = text_backend_of(config, env)->Ok_0;
    lemma_put(state.backends, config.name@, backend);
    lemma_without(put(state.backends, config.name@, backend), config.name@);
}

/// Where a text backend was added, adding it once more is refused as an
/// invalid request that names the backend, and the registry stays as it is.
pub proof fn lemma_text_add_twice(
    state: TextRegistryState,
    config: BackendConfig,
    env: Seq<(String, String)>,
)
    requires
        unique(state.backends),
        text_added(state, config, env) is Ok,
    ensures
        text_added(text_added(state, config, env)->Ok_0, config, env) == Err::<
            TextRegistryState,
            (ErrorKind, Seq<char>),
        >((ErrorKind::InvalidRequest, already_exists_message(config.name@))),
        after_text_add(text_added(state, config, env)->Ok_0, config, env) == text_added(
            state,
            config,
            env,
        )->Ok_0,
{
    lemma_put(state.backends, config.name@, text_backend_of(config, env)->Ok_0);
}

/// Registry for text generation backends.
pub struct TextBackendRegistry {
    backends: SlotTable<TextBackend>,
    model_to_backend: DashMap<String, usize>,
}

impl View for TextBackendRegistry {
    type V = TextRegistryState;

    closed spec fn view(&self) -> TextRegistryState {
        TextRegistryState {
            backends: viewed(self.backends.entries()),
            models: Map::new(
                |m: Seq<char>| index_entries(self.model_to_backend).contains_key(m),
                |m: Seq<char>|
                    self.backends.entries()[index_entries(self.model_to_backend)[m] as int].unwrap().0,
            ),
        }
    }
}

impl TextBackendRegistry {
    /// The slots agree with their index, every backend is held under its
    /// own name, and every model is bound to a slot that holds a backend.
    pub closed spec fn wf(&self) -> bool {
        &&& self.backends.wf()
        &&& forall|i: int|
            0 <= i < self.backends.entries().len() && (#[trigger] self.backends.entries()[i]) is Some
                ==> self.backends.entries()[i].unwrap().1@.adapter.name
                == self.backends.entries()[i].unwrap().0
        &&& forall|m: Seq<char>| #[trigger]
            index_entries(self.model_to_backend).contains_key(m) ==> index_entries(
                self.model_to_backend,
            )[m] < self.backends.entries().len() && self.backends.entries()[index_entries(
                self.model_to_backend,
            )[m] as int] is Some
    }

    /// In a well-formed registry names are unique, and every model is bound
    /// to a backend that is held.
    pub proof fn lemma_wf(&self)
        requires
            self.wf(),
        ensures
            unique(self@.backends),
            forall|m: Seq<char>| #[trigger]
                self@.models.contains_key(m) ==> holds(self@.backends, self@.models[m]),
    {
        self.backends.lemma_unique();
        lemma_viewed(self.backends.entries(), Seq::empty());
        assert forall|m: Seq<char>| #[trigger] self@.models.contains_key(m) implies holds(
            self@.backends,
            self@.models[m],
        ) by {
            let slot = index_entries(self.model_to_backend)[m] as int;
            assert(named_at(self@.backends, self@.models[m], slot));
        }
    }

    /// Create a new text backend registry.
    pub fn new() -> (registry: Self)
        ensures
            registry.wf(),
            registry@.backends == Slots::<TextBackendState>::empty(),
            registry@.models == Map::<Seq<char>, Seq<char>>::empty(),
    {
        let registry = TextBackendRegistry {
            backends: SlotTable::new(),
            model_to_backend: index_new(),
        };
        assert(registry@.backends =~= Slots::<TextBackendState>::empty());
        assert(registry@.models =~= Map::<Seq<char>, Seq<char>>::empty());
        registry
    }

    /// Add a backend from configuration.
    pub fn add_backend(
        &mut self,
        config: BackendConfig,
        env: &Vec<(String, String)>,
    ) -> (r: Result<()>)
        requires
            old(self).wf(),
        ensures
            final(self).wf(),
            r is Ok <==> text_added(old(self)@, config, env@) is Ok,
            r is Ok ==> final(self)@ == text_added(old(self)@, config, env@)->Ok_0,
            r matches Err(e) ==> final(self)@ == old(self)@ && e.has(
                text_added(old(self)@, config, env@)->Err_0.0,
                text_added(old(self)@, config, env@)->Err_0.1,
            ),
    {
        let ghost before = self.backends.entries();
        let ghost bindings = index_entries(self.model_to_backend);
        let ghost models_before = self@.models;
        proof {
            self.backends.lemma_unique();
            lemma_viewed(before, config.name@);
        }
        if config.backend_type != BackendType::Text {
            return Err(
                AppError::Internal(
                    concat3("Backend '", config.name.as_str(), "' is not a text backend"),
                ),
            );
        }
        if self.backends.contains(config.name.as_str()) {
            return Err(
                AppError::InvalidRequest(
                    concat3("Backend '", config.name.as_str(), "' already exists"),
                ),
            );
        }
        let backend = match create_text_backend(&config, env) {
            Ok(backend) => backend,
            Err(e) => {
                return Err(e);
            },
        };
        let name = config.name.clone();
        proof {
            lemma_viewed_put(before, name@, backend);
            lemma_first_free_exists(before);
            lemma_put(before, name@, backend);
        }
        self.backends.insert(name, backend);
        let ghost held = self.backends.entries();
        let slot = match self.backends.slot_of(config.name.as_str()) {
            Some(slot) => slot,
            None => {
                return Ok(());
            },
        };
        proof {
            assert forall|m: Seq<char>| #[trigger] bindings.contains_key(m) implies bindings[m]
                < held.len() && held[bindings[m] as int] == before[bindings[m] as int] by {
                assert(before[bindings[m] as int] is Some);
            }
            assert(self@.models =~= bound(models_before, Seq::<Seq<char>>::empty(), config.name@));
        }
        let mut i: usize = 0;
        while i < config.models.len()
            invariant
                i <= config.models.len(),
                self.backends.wf(),
                self.backends.entries() == held,
                slot < held.len(),
                named_at(held, config.name@, slot as int),
                forall|j: int|
                    0 <= j < held.len() && (#[trigger] held[j]) is Some ==> held[j].unwrap().1@.adapter.name
                        == held[j].unwrap().0,
                forall|m: Seq<char>| #[trigger]
                    index_entries(self.model_to_backend).contains_key(m) ==> index_entries(
                        self.model_to_backend,
                    )[m] < held.len() && held[index_entries(self.model_to_backend)[m] as int] is Some,
                self@.models == bound(
                    models_before,
                    views(config.models@).take(i as int),
                    config.name@,
                ),
            decreases config.models.len() - i,
        {
            let ghost earlier = self@.models;
            let ghost declared = views(config.models@);
            index_insert(&mut self.model_to_backend, config.models[i].clone(), slot);
            proof {
                let now = declared.take(i + 1);
                assert(now[i as int] == config.models@[i as int]@);
                assert forall|m: Seq<char>| now.contains(m) <==> (declared.take(i as int).contains(m)
                    || m == config.models@[i as int]@) by {
                    if declared.take(i as int).contains(m) {
                        let k = choose|k: int|
                            0 <= k < declared.take(i as int).len() && declared.take(i as int)[k] == m;
                        assert(now[k] == m);
                    }
                    if now.contains(m) {
                        let k = choose|k: int| 0 <= k < now.len() && now[k] == m;
                        if k < i {
                            assert(declared.take(i as int)[k] == m);
                        }
                    }
                }
                let key = config.models@[i as int]@;
                let target = bound(models_before, now, config.name@);
                assert(held[slot as int].unwrap().0 == config.name@);
                assert forall|m: Seq<char>| self@.models.contains_key(m) == target.contains_key(
                    m,
                ) by {
                    assert(earlier.contains_key(m) == (models_before.contains_key(m)
                        || declared.take(i as int).contains(m)));
                    assert(now.contains(m) <==> (declared.take(i as int).contains(m) || m == key));
                }
                assert forall|m: Seq<char>| self@.models.contains_key(m) implies self@.models[m]
                    == target[m] by {
                    assert(now.contains(m) <==> (declared.take(i as int).contains(m) || m == key));
                    if m != key {
                        assert(earlier.contains_key(m));
                        assert(self@.models[m] == earlier[m]);
                    }
                }
                assert(self@.models =~= target);
            }
            i = i + 1;
        }
        assert(views(config.models@).take(config.models@.len() as int) =~= views(config.models@));
        Ok(())
    }
    /// Remove a backend, and with it every binding of a model to it.
    pub fn remove_backend(&mut self, name: &str) -> (r: Result<()>)
        requires
            old(self).wf(),
        ensures
            final(self).wf(),
            r is Ok <==> text_removed(old(self)@, name@) is Ok,
            r is Ok ==> final(self)@ == text_removed(old(self)@, name@)->Ok_0,
            r matches Err(e) ==> final(self)@ == old(self)@ && e.has(
                ErrorKind::BackendNotFound,
                name@,
            ),
    {
        let ghost before = self.backends.entries();
        let ghost bindings = index_entries(self.model_to_backend);
        let ghost models_before = self@.models;
        proof {
            self.backends.lemma_unique();
            lemma_viewed(before, name@);
            lemma_viewed_without(before, name@);
            lemma_without(before, name@);
        }
        let slot = match self.backends.slot_of(name) {
            Some(slot) => slot,
            None => {
                return Err(AppError::BackendNotFound(name.to_string()));
            },
        };
        self.backends.remove(name);
        index_drop_slot(&mut self.model_to_backend, slot);
        proof {
            let after = self.backends.entries();
            let kept = index_entries(self.model_to_backend);
            assert(after == before.update(slot as int, None));
            assert forall|m: Seq<char>| kept.contains_key(m) <==> (bindings.contains_key(m)
                && bindings[m] != slot) by {}
            assert forall|m: Seq<char>| #[trigger] kept.contains_key(m) implies kept[m]
                == bindings[m] by {}
            assert forall|m: Seq<char>| bindings.contains_key(m) implies (bindings[m] == slot
                <==> models_before[m] == name@) by {
                let at = bindings[m] as int;
                assert(before[at] is Some);
                if models_before[m] == name@ {
                    assert(named_at(before, name@, at));
                    lemma_position(before, name@, at);
                }
            }
            assert forall|m: Seq<char>| self@.models.contains_key(m) == unbound(
                models_before,
                name@,
            ).contains_key(m) by {}
            assert forall|m: Seq<char>| self@.models.contains_key(m) implies self@.models[m]
                == unbound(models_before, name@)[m] by {}
            assert(self@.models =~= unbound(models_before, name@));
        }
        Ok(())
    }

    /// Get a backend by name.
    pub fn get_backend(&self, name: &str) -> (backend: Option<&TextBackend>)
        requires
            self.wf(),
        ensures
            backend is Some <==> holds(self@.backends, name@),
            backend matches Some(found) ==> found@ == value_of(self@.backends, name@)
                && found@.adapter.name == name@,
    {
        proof {
            self.backends.lemma_unique();
            lemma_viewed(self.backends.entries(), name@);
            if holds(self.backends.entries(), name@) {
                assert(named_at(
                    self.backends.entries(),
                    name@,
                    position(self.backends.entries(), name@),
                ));
            }
        }
        self.backends.get(name)
    }

    /// The first slot with an enabled backend that declares `model`, or the
    /// number of slots.
    fn find_serving(&self, model: &str) -> (i: usize)
        ensures
            is_first_serving(self@.backends, model@, i as int),
            i as int == first_serving(self@.backends, model@),
    {
        let n = self.backends.slot_count();
        let mut i: usize = 0;
        while i < n
            invariant
                i <= n,
                n == self@.backends.len(),
                n == self.backends.entries().len(),
                forall|j: int| 0 <= j < i ==> !#[trigger] serves_at(self@.backends, model@, j),
            decreases n - i,
        {
            match self.backends.value_at(i) {
                Some(backend) => {
                    if backend.is_enabled() && backend.serves(model) {
                        proof {
                            lemma_first_serving(self@.backends, model@, i as int);
                        }
                        return i;
                    }
                },
                None => {},
            }
            i = i + 1;
        }
        proof {
            lemma_first_serving(self@.backends, model@, i as int);
        }
        i
    }

    /// The first slot with an enabled backend, or the number of slots.
    fn find_enabled(&self) -> (i: usize)
        ensures
            is_first_enabled(self@.backends, i as int),
            i as int == first_enabled(self@.backends),
    {
        let n = self.backends.slot_count();
        let mut i: usize = 0;
        while i < n
            invariant
                i <= n,
                n == self@.backends.len(),
                n == self.backends.entries().len(),
                forall|j: int| 0 <= j < i ==> !#[trigger] enabled_at(self@.backends, j),
            decreases n - i,
        {
            match self.backends.value_at(i) {
                Some(backend) => {
                    if backend.is_enabled() {
                        proof {
                            lemma_first_enabled(self@.backends, i as int);
                        }
                        return i;
                    }
                },
                None => {},
            }
            i = i + 1;
        }
        proof {
            lemma_first_enabled(self@.backends, i as int);
        }
        i
    }

    /// Get a backend for a specific model.
    pub fn get_backend_for_model(&self, model: &str, preferred_backend: Option<&str>) -> (r: Result<
        &TextBackend,
    >)
        requires
            self.wf(),
        ensures
            r is Ok <==> backend_for_model(
                self@,
                model@,
                match preferred_backend {
                    Some(p) => Some(p@),
                    None => None,
                },
            ) is Some,
            r matches Ok(backend) ==> backend@ == value_of(
                self@.backends,
                backend_for_model(
                    self@,
                    model@,
                    match preferred_backend {
                        Some(p) => Some(p@),
                        None => None,
                    },
                ).unwrap(),
            ) && backend@.adapter.name == backend_for_model(
                self@,
                model@,
                match preferred_backend {
                    Some(p) => Some(p@),
                    None => None,
                },
            ).unwrap(),
            r is Ok ==> holds(
                self@.backends,
                backend_for_model(
                    self@,
                    model@,
                    match preferred_backend {
                        Some(p) => Some(p@),
                        None => None,
                    },
                ).unwrap(),
            ),
            r matches Err(e) ==> e.has(ErrorKind::NoHealthyBackends, no_backend_message(model@)),
    {
        let ghost entries = self.backends.entries();
        proof {
            self.backends.lemma_unique();
            self.lemma_wf();
            lemma_viewed(entries, model@);
        }
        // If preferred backend specified, use it
        if let Some(backend_name) = preferred_backend {
            if let Some(backend) = self.get_backend(backend_name) {
                return Ok(backend);
            }
        }
        // Try to find backend by model mapping
        if let Some(slot) = index_get(&self.model_to_backend, model) {
            proof {
                let name = self@.models[model@];
                assert(named_at(entries, name, slot as int));
                lemma_position(entries, name, slot as int);
                lemma_viewed(entries, name);
            }
            if let Some(backend) = self.backends.value_at(slot) {
                if backend.is_enabled() {
                    return Ok(backend);
                }
            }
        }
        // Fall back to first enabled backend that has the model
        let serving = self.find_serving(model);
        if serving < self.backends.slot_count() {
            proof {
                let name = entries[serving as int].unwrap().0;
                assert(named_at(entries, name, serving as int));
                lemma_position(entries, name, serving as int);
                lemma_viewed(entries, name);
            }
            if let Some(backend) = self.backends.value_at(serving) {
                return Ok(backend);
            }
        }
        // Fall back to any enabled backend
        let enabled = self.find_enabled();
        if enabled < self.backends.slot_count() {
            proof {
                let name = entries[enabled as int].unwrap().0;
                assert(named_at(entries, name, enabled as int));
                lemma_position(entries, name, enabled as int);
                lemma_viewed(entries, name);
            }
            if let Some(backend) = self.backends.value_at(enabled) {
                return Ok(backend);
            }
        }
        Err(
            AppError::NoHealthyBackends(concat3("no available backend for model '", model, "'")),
        )
    }

    /// List all backends with status, in slot order.
    pub fn list_backends(&self) -> (statuses: Vec<TextBackendStatus>)
        ensures
            statuses@.len() == live_values(self@.backends).len(),
            forall|k: int|
                0 <= k < statuses@.len() ==> (#[trigger] statuses@[k]).reports(
                    live_values(self@.backends)[k].adapter,
                    text_protocol_tag(live_values(self@.backends)[k]),
                ),
    {
        let all = self.get_all_backends();
        let mut statuses: Vec<TextBackendStatus> = Vec::new();
        let mut i: usize = 0;
        while i < all.len()
            invariant
                i <= all.len(),
                all@.len() == live_values(self@.backends).len(),
                forall|k: int|
                    0 <= k < all@.len() ==> (#[trigger] all@[k])@ == live_values(self@.backends)[k],
                statuses@.len() == i,
                forall|k: int|
                    0 <= k < i ==> (#[trigger] statuses@[k]).reports(
                        live_values(self@.backends)[k].adapter,
                        text_protocol_tag(live_values(self@.backends)[k]),
                    ),
            decreases all.len() - i,
        {
            statuses.push(all[i].status());
            i = i + 1;
        }
        statuses
    }

    /// Get all backends, in slot order.
    pub fn get_all_backends(&self) -> (backends: Vec<&TextBackend>)
        ensures
            backends@.len() == live_values(self@.backends).len(),
            forall|k: int|
                0 <= k < backends@.len() ==> (#[trigger] backends@[k])@ == live_values(
                    self@.backends,
                )[k],
    {
        proof {
            lemma_viewed_values(self.backends.entries());
        }
        self.backends.values()
    }

    /// The number of registered backends.
    pub fn len(&self) -> (n: usize)
        requires
            self.wf(),
        ensures
            n == live_count(self@.backends),
    {
        proof {
            lemma_viewed_count(self.backends.entries());
        }
        self.backends.len()
    }
    /// What follows from a backend having changed in place, under its name.
    proof fn lemma_changed(&self, after: Self, name: Seq<char>, backend: TextBackend)
        requires
            self.wf(),
            holds(self.backends.entries(), name),
            after.backends.wf(),
            after.backends.entries() == put(self.backends.entries(), name, backend),
            after.model_to_backend == self.model_to_backend,
            backend@.adapter.name == name,
        ensures
            after.wf(),
            after@ == with_backend(self@, name, backend@),
    {
        let before = self.backends.entries();
        self.backends.lemma_unique();
        lemma_viewed(before, name);
        lemma_viewed_put(before, name, backend);
        let i = position(before, name);
        assert(named_at(before, name, i));
        let entries = after.backends.entries();
        assert forall|j: int| 0 <= j < entries.len() && (#[trigger] entries[j]) is Some implies entries[j].unwrap().1@.adapter.name
            == entries[j].unwrap().0 by {
            if j != i {
                assert(before[j] is Some);
            }
        }
        let bindings = index_entries(self.model_to_backend);
        assert forall|m: Seq<char>| #[trigger] bindings.contains_key(m) implies bindings[m]
            < entries.len() && entries[bindings[m] as int] is Some && entries[bindings[m] as int].unwrap().0
            == before[bindings[m] as int].unwrap().0 by {
            assert(before[bindings[m] as int] is Some);
        }
        assert(after@.models =~= self@.models);
    }

    /// The name under which a backend is held is the name of its adapter.
    proof fn lemma_named(&self, name: Seq<char>)
        requires
            self.wf(),
            holds(self.backends.entries(), name),
        ensures
            value_of(self.backends.entries(), name)@.adapter.name == name,
            holds(self@.backends, name),
            value_of(self@.backends, name) == value_of(self.backends.entries(), name)@,
    {
        self.backends.lemma_unique();
        lemma_viewed(self.backends.entries(), name);
        assert(named_at(self.backends.entries(), name, position(self.backends.entries(), name)));
    }

    /// Starts a chat or text completion on the backend of that name: its
    /// next healthy endpoint is selected, and the call to send is handed back.
    pub fn begin(&mut self, name: &str, operation: Operation) -> (r: Result<UpstreamRequest>)
        requires
            old(self).wf(),
        ensures
            final(self).wf(),
            !holds(old(self)@.backends, name@) ==> final(self)@ == old(self)@ && r is Err
                && r->Err_0.has(ErrorKind::BackendNotFound, name@),
            holds(old(self)@.backends, name@) ==> final(self)@ == with_backend(
                old(self)@,
                name@,
                with_adapter_state(
                    value_of(old(self)@.backends, name@),
                    after_selection(value_of(old(self)@.backends, name@).adapter),
                ),
            ) && (r is Ok <==> selected(value_of(old(self)@.backends, name@).adapter) is Some),
            holds(old(self)@.backends, name@) && r is Ok ==> r->Ok_0.calls(
                value_of(old(self)@.backends, name@).adapter,
                selected(value_of(old(self)@.backends, name@).adapter).unwrap(),
                operation_path(operation),
            ),
            holds(old(self)@.backends, name@) && r is Err ==> r->Err_0.has(
                ErrorKind::NoHealthyBackends,
                name@,
            ),
    {
        let ghost before = *self;
        let ghost mut changed: Option<TextBackend> = None;
        proof {
            self.backends.lemma_unique();
            lemma_viewed(self.backends.entries(), name@);
            if holds(self.backends.entries(), name@) {
                self.lemma_named(name@);
            }
        }
        let r = match self.backends.get_mut(name) {
            Some(backend) => {
                let r = backend.begin(operation);
                proof {
                    changed = Some(*backend);
                }
                r
            },
            None => Err(AppError::BackendNotFound(name.to_string())),
        };
        proof {
            if changed is Some {
                before.lemma_changed(*self, name@, changed.unwrap());
            }
        }
        r
    }

    /// Ends a completion on the backend of that name: what the reply means
    /// for the endpoint is recorded, where the backend is still registered,
    /// and the parsed body or the error is handed back.
    pub fn complete<T>(
        &mut self,
        name: &str,
        endpoint: &str,
        reply: UpstreamReply<T>,
    ) -> (r: Result<T>)
        requires
            old(self).wf(),
        ensures
            final(self).wf(),
            final(self)@ == with_backend(
                old(self)@,
                name@,
                with_adapter_state(
                    value_of(old(self)@.backends, name@),
                    with_marked(
                        value_of(old(self)@.backends, name@).adapter,
                        endpoint@,
                        reply_effect(reply),
                    ),
                ),
            ),
            r is Err <==> reply_error(reply) is Some,
            r matches Err(e) ==> e.has(reply_error(reply).unwrap().0, reply_error(reply).unwrap().1),
            r matches Ok(value) ==> reply matches UpstreamReply::Answered { parsed: Ok(p), .. }
                && value == p,
    {
        let ghost before = *self;
        let ghost mut changed: Option<TextBackend> = None;
        proof {
            self.backends.lemma_unique();
            lemma_viewed(self.backends.entries(), name@);
            if holds(self.backends.entries(), name@) {
                self.lemma_named(name@);
            }
        }
        let r = match self.backends.get_mut(name) {
            Some(backend) => {
                let r = backend.complete(endpoint, reply);
                proof {
                    changed = Some(*backend);
                }
                r
            },
            None => Adapter::outcome(reply),
        };
        proof {
            if changed is Some {
                before.lemma_changed(*self, name@, changed.unwrap());
            }
        }
        r
    }

    /// Starts listing the models of the backend of that name.
    pub fn list_models(&mut self, name: &str) -> (r: Result<ModelsPlan>)
        requires
            old(self).wf(),
        ensures
            final(self).wf(),
            !holds(old(self)@.backends, name@) ==> final(self)@ == old(self)@ && r is Err
                && r->Err_0.has(ErrorKind::BackendNotFound, name@),
            holds(old(self)@.backends, name@) && value_of(old(self)@.backends, name@).anthropic
                ==> final(self)@ == old(self)@ && r is Ok && r->Ok_0 is Known
                && r->Ok_0->Known_0.lists(
                value_of(old(self)@.backends, name@).adapter.models,
                "anthropic"@,
            ),
            holds(old(self)@.backends, name@) && !value_of(old(self)@.backends, name@).anthropic
                ==> final(self)@ == with_backend(
                old(self)@,
                name@,
                with_adapter_state(
                    value_of(old(self)@.backends, name@),
                    after_selection(value_of(old(self)@.backends, name@).adapter),
                ),
            ) && (r is Ok <==> selected(value_of(old(self)@.backends, name@).adapter) is Some),
            holds(old(self)@.backends, name@) && !value_of(old(self)@.backends, name@).anthropic
                && r is Ok ==> r->Ok_0 is Ask && r->Ok_0->Ask_0.calls(
                value_of(old(self)@.backends, name@).adapter,
                selected(value_of(old(self)@.backends, name@).adapter).unwrap(),
                operation_path(Operation::ListModels),
            ),
            holds(old(self)@.backends, name@) && !value_of(old(self)@.backends, name@).anthropic
                && r is Err ==> r->Err_0.has(ErrorKind::NoHealthyBackends, name@),
    {
        let ghost before = *self;
        let ghost mut changed: Option<TextBackend> = None;
        proof {
            self.backends.lemma_unique();
            lemma_viewed(self.backends.entries(), name@);
            if holds(self.backends.entries(), name@) {
                self.lemma_named(name@);
            }
        }
        let r = match self.backends.get_mut(name) {
            Some(backend) => {
                let r = backend.list_models();
                proof {
                    changed = Some(*backend);
                }
                r
            },
            None => Err(AppError::BackendNotFound(name.to_string())),
        };
        proof {
            if changed is Some {
                before.lemma_changed(*self, name@, changed.unwrap());
                lemma_put(
                    before@.backends,
                    name@,
                    changed.unwrap()@,
                );
                if value_of(before@.backends, name@).anthropic {
                    let i = position(before@.backends, name@);
                    assert(named_at(before@.backends, name@, i));
                    assert(self@.backends =~= before@.backends);
                }
            }
        }
        r
    }

    /// Ends listing the models of the backend of that name. Where the
    /// backend is no longer registered nothing is recorded, and an answer
    /// that is no list gives the error that it stands for.
    pub fn complete_list_models(
        &mut self,
        name: &str,
        endpoint: &str,
        reply: UpstreamReply<ModelsResponse>,
    ) -> (r: Result<ModelsResponse>)
        requires
            old(self).wf(),
        ensures
            final(self).wf(),
            final(self)@ == with_backend(
                old(self)@,
                name@,
                with_adapter_state(
                    value_of(old(self)@.backends, name@),
                    with_marked(
                        value_of(old(self)@.backends, name@).adapter,
                        endpoint@,
                        reply_effect(reply),
                    ),
                ),
            ),
            reply_error(reply) is None ==> r is Ok && reply is Answered && reply->parsed is Ok
                && r->Ok_0 == reply->parsed->Ok_0,
            reply is Unreachable ==> r is Err && r->Err_0.has(
                ErrorKind::HttpClient,
                reply->Unreachable_0@,
            ),
            holds(old(self)@.backends, name@) && reply_error(reply) is Some && !(reply is Unreachable)
                ==> r is Ok && r->Ok_0.lists(
                value_of(old(self)@.backends, name@).adapter.models,
                name@,
            ),
            !holds(old(self)@.backends, name@) && reply_error(reply) is Some ==> r is Err
                && r->Err_0.has(reply_error(reply).unwrap().0, reply_error(reply).unwrap().1),
    {
        let ghost before = *self;
        let ghost mut changed: Option<TextBackend> = None;
        proof {
            self.backends.lemma_unique();
            lemma_viewed(self.backends.entries(), name@);
            if holds(self.backends.entries(), name@) {
                self.lemma_named(name@);
            }
        }
        let r = match self.backends.get_mut(name) {
            Some(backend) => {
                let r = backend.complete_list_models(endpoint, reply);
                proof {
                    changed = Some(*backend);
                }
                r
            },
            None => Adapter::outcome(reply),
        };
        proof {
            if changed is Some {
                before.lemma_changed(*self, name@, changed.unwrap());
            }
        }
        r
    }

    /// Records a round of probes of the backend of that name and says
    /// whether any of them passed; `None` where no such backend is registered.
    pub fn record_probes(
        &mut self,
        name: &str,
        replies: &Vec<(String, ProbeReply)>,
    ) -> (passed: Option<bool>)
        requires
            old(self).wf(),
        ensures
            final(self).wf(),
            passed is Some <==> holds(old(self)@.backends, name@),
            passed is Some ==> passed == Some(any_passed(replies@)),
            final(self)@ == with_backend(
                old(self)@,
                name@,
                with_adapter_state(
                    value_of(old(self)@.backends, name@),
                    AdapterState {
                        endpoints: probed(
                            value_of(old(self)@.backends, name@).adapter.endpoints,
                            replies@,
                        ),
                        ..value_of(old(self)@.backends, name@).adapter
                    },
                ),
            ),
    {
        let ghost before = *self;
        let ghost mut changed: Option<TextBackend> = None;
        proof {
            self.backends.lemma_unique();
            lemma_viewed(self.backends.entries(), name@);
            if holds(self.backends.entries(), name@) {
                self.lemma_named(name@);
            }
        }
        let passed = match self.backends.get_mut(name) {
            Some(backend) => {
                let any = backend.health_check(replies);
                proof {
                    changed = Some(*backend);
                }
                Some(any)
            },
            None => None,
        };
        proof {
            if changed is Some {
                before.lemma_changed(*self, name@, changed.unwrap());
            }
        }
        passed
    }
    /// Run health checks on all backends: records the probes of each round
    /// and counts the rounds of registered backends, those in which a probe
    /// passed, and those in which none did.
    pub fn health_check_all(
        &mut self,
        rounds: &Vec<(String, Vec<(String, ProbeReply)>)>,
    ) -> (summary: (usize, usize, usize))
        requires
            old(self).wf(),
        ensures
            final(self).wf(),
            final(self)@ == after_rounds(old(self)@, rounds@),
            summary.1 == rounds_counted(old(self)@, rounds@, true),
            summary.2 == rounds_counted(old(self)@, rounds@, false),
            summary.0 == summary.1 + summary.2,
    {
        let mut healthy: usize = 0;
        let mut unhealthy: usize = 0;
        let mut i: usize = 0;
        assert(rounds@.take(0) =~= Seq::empty());
        while i < rounds.len()
            invariant
                i <= rounds.len(),
                self.wf(),
                self@ == after_rounds(old(self)@, rounds@.take(i as int)),
                healthy == rounds_counted(old(self)@, rounds@.take(i as int), true),
                unhealthy == rounds_counted(old(self)@, rounds@.take(i as int), false),
                healthy + unhealthy <= i,
            decreases rounds.len() - i,
        {
            proof {
                assert(rounds@.take(i + 1).drop_last() =~= rounds@.take(i as int));
                assert(rounds@.take(i + 1).last() == rounds@[i as int]);
            }
            match self.record_probes(rounds[i].0.as_str(), &rounds[i].1) {
                Some(true) => {
                    healthy = healthy + 1;
                },
                Some(false) => {
                    unhealthy = unhealthy + 1;
                },
                None => {},
            }
            i = i + 1;
        }
        assert(rounds@.take(rounds@.len() as int) =~= rounds@);
        (healthy + unhealthy, healthy, unhealthy)
    }
}

impl Default for TextBackendRegistry {
    fn default() -> (registry: Self)
        ensures
            registry.wf(),
            registry@.backends == Slots::<TextBackendState>::empty(),
    {
        Self::new()
    }
}

} // verus!
