//! Backend registry for managing multiple image generation backends.

use crate::backend::slots::{
    holds, lemma_first_free_exists, lemma_held_is_listed, lemma_live_names_match, lemma_live_value,
    lemma_put, lemma_viewed, lemma_viewed_count, lemma_viewed_put, lemma_viewed_values,
    lemma_viewed_without, lemma_without, live_count, live_names, live_values, named_at, position,
    put, unique, value_of, viewed, without, Slots, SlotTable,
};
use crate::backend::adapter::{
    adapter_of, after_selection, any_healthy, operation_path, probed, reply_effect, reply_error,
    selected, text_of, with_marked, any_passed, Adapter, AdapterState, BackendStatus, Operation,
    ProbeReply, UpstreamReply, UpstreamRequest,
};
use crate::config::settings::{protocol_tag, BackendConfig, ProtocolType};
use crate::error::{AppError, ErrorKind, Result};
use crate::text::{concat, concat3, str_eq};
use vstd::prelude::*;

verus! {

/// The value of a variable in a snapshot of the environment: that of the
/// first entry under that name.
pub open spec fn env_value(env: Seq<(String, String)>, name: Seq<char>) -> Option<Seq<char>>
    decreases env.len(),
{
    if env.len() == 0 {
        None
    } else {
        match env_value(env.drop_last(), name) {
            Some(value) => Some(value),
            None => if env.last().0@ == name {
                Some(env.last().1@)
            } else {
                None
            },
        }
    }
}

/// The token that the environment holds for a configuration: the value of
/// the variable that `auth.token_env` names.
pub open spec fn token_of(config: BackendConfig, env: Seq<(String, String)>) -> Option<Seq<char>> {
    match config.auth.token_env {
        Some(variable) => env_value(env, variable@),
        None => None,
    }
}

/// The value of a variable in a snapshot of the environment.
pub fn lookup_env(env: &Vec<(String, String)>, name: &str) -> (value: Option<String>)
    ensures
        text_of(value) == env_value(env@, name@),
{
    let mut value: Option<String> = None;
    let mut i: usize = 0;
    assert(env@.take(0) =~= Seq::empty());
    while i < env.len()
        invariant
            i <= env.len(),
            text_of(value) == env_value(env@.take(i as int), name@),
        decreases env.len() - i,
    {
        proof {
            assert(env@.take(i + 1).drop_last() =~= env@.take(i as int));
            assert(env@.take(i + 1).last() == env@[i as int]);
        }
        if value.is_none() && str_eq(env[i].0.as_str(), name) {
            value = Some(env[i].1.clone());
        }
        i = i + 1;
    }
    assert(env@.take(env@.len() as int) =~= env@);
    value
}

/// The token that the environment holds for a configuration.
pub fn lookup_token(config: &BackendConfig, env: &Vec<(String, String)>) -> (token: Option<String>)
    ensures
        text_of(token) == token_of(*config, env@),
{
    match &config.auth.token_env {
        Some(variable) => lookup_env(env, variable.as_str()),
        None => None,
    }
}

/// The protocols an image backend can speak.
pub open spec fn image_protocol(protocol: ProtocolType) -> bool {
    protocol == ProtocolType::Http || protocol == ProtocolType::OpenAI || protocol
        == ProtocolType::Grpc
}

/// The message for a protocol that no image backend speaks.
pub open spec fn unsupported_protocol_message(protocol: ProtocolType) -> Seq<char> {
    "Unsupported protocol for image backend: "@ + protocol_tag(protocol)
}

/// The message for a name that is taken.
pub open spec fn already_exists_message(name: Seq<char>) -> Seq<char> {
    "Backend '"@ + name + "' already exists"@
}

/// Every adapter is held under its own name.
pub open spec fn well_named(model: Slots<AdapterState>) -> bool {
    forall|i: int|
        0 <= i < model.len() && (#[trigger] model[i]) is Some ==> model[i].unwrap().1.name
            == model[i].unwrap().0
}

/// The registry after `add_backend`, or the error: a taken name is an
/// invalid request, a protocol that no image backend speaks a
/// configuration error; else the new adapter is held under its name.
pub open spec fn added(
    model: Slots<AdapterState>,
    config: BackendConfig,
    env: Seq<(String, String)>,
) -> std::result::Result<Slots<AdapterState>, (ErrorKind, Seq<char>)> {
    if holds(model, config.name@) {
        Err((ErrorKind::InvalidRequest, already_exists_message(config.name@)))
    } else if !image_protocol(config.protocol) {
        Err((ErrorKind::Config, unsupported_protocol_message(config.protocol)))
    } else {
        Ok(put(model, config.name@, adapter_of(config, token_of(config, env))))
    }
}

/// The registry after `remove_backend`, or the error for a name that is not held.
pub open spec fn removed(model: Slots<AdapterState>, name: Seq<char>) -> std::result::Result<
    Slots<AdapterState>,
    (ErrorKind, Seq<char>),
> {
    if holds(model, name) {
        Ok(without(model, name))
    } else {
        Err((ErrorKind::BackendNotFound, name))
    }
}

/// The registry after one entry of a configuration list at start-up: a
/// disabled entry and one with a protocol that no image backend speaks are
/// passed over; any other takes its name, in place of what was held under it.
pub open spec fn admitted(
    model: Slots<AdapterState>,
    config: BackendConfig,
    env: Seq<(String, String)>,
) -> Slots<AdapterState> {
    if config.enabled && image_protocol(config.protocol) {
        put(model, config.name@, adapter_of(config, token_of(config, env)))
    } else {
        model
    }
}

/// The registry after a configuration list at start-up, entry by entry.
pub open spec fn initialized(
    model: Slots<AdapterState>,
    configs: Seq<BackendConfig>,
    env: Seq<(String, String)>,
) -> Slots<AdapterState>
    decreases configs.len(),
{
    if configs.len() == 0 {
        model
    } else {
        admitted(initialized(model, configs.drop_last(), env), configs.last(), env)
    }
}

/// Whether an adapter can take a request: it is enabled and one of its
/// endpoints is healthy.
pub open spec fn available(adapter: AdapterState) -> bool {
    adapter.enabled && any_healthy(adapter.endpoints)
}

/// The adapters that can take a request, in slot order.
pub open spec fn healthy_backends(model: Slots<AdapterState>) -> Seq<AdapterState> {
    live_values(model).filter(|adapter: AdapterState| available(adapter))
}

/// Two lists hold as many adapters, with the same weight at each place.
pub open spec fn same_weights(a: Seq<AdapterState>, b: Seq<AdapterState>) -> bool {
    a.len() == b.len() && forall|j: int| 0 <= j < a.len() ==> (#[trigger] a[j]).weight == b[j].weight
}

/// Two lists hold as many adapters, with the same name at each place.
pub open spec fn same_names(a: Seq<AdapterState>, b: Seq<AdapterState>) -> bool {
    a.len() == b.len() && forall|j: int| 0 <= j < a.len() ==> (#[trigger] a[j]).name == b[j].name
}

/// Where the adapter in a slot changes, but neither its name, nor its
/// weight, nor whether it can take a request, the adapters that can take a
/// request are as many as before, and each is named and weighs as before.
pub proof fn lemma_change_keeps_weights(model: Slots<AdapterState>, i: int, adapter: AdapterState)
    requires
        0 <= i < model.len(),
        model[i] is Some,
        adapter.name == model[i].unwrap().1.name,
        adapter.weight == model[i].unwrap().1.weight,
        available(adapter) == available(model[i].unwrap().1),
    ensures
        same_weights(
            healthy_backends(model.update(i, Some((model[i].unwrap().0, adapter)))),
            healthy_backends(model),
        ),
        same_names(
            healthy_backends(model.update(i, Some((model[i].unwrap().0, adapter)))),
            healthy_backends(model),
        ),
    decreases model.len(),
{
    reveal(Seq::filter);
    let changed = model.update(i, Some((model[i].unwrap().0, adapter)));
    let shorter = model.drop_last();
    let wanted = |adapter: AdapterState| available(adapter);
    if i == model.len() - 1 {
        assert(changed.drop_last() =~= shorter);
        let before = live_values(shorter);
        assert(live_values(changed).drop_last() =~= before);
        assert(live_values(model).drop_last() =~= before);
    } else {
        assert(changed.drop_last() =~= shorter.update(i, Some((model[i].unwrap().0, adapter))));
        lemma_change_keeps_weights(shorter, i, adapter);
        if model.last() is Some {
            assert(live_values(changed).drop_last() =~= live_values(changed.drop_last()));
            assert(live_values(model).drop_last() =~= live_values(shorter));
        }
    }
}

/// A backend that is listed as healthy is held under its name, with the
/// state that is listed.
pub proof fn lemma_healthy_held(model: Slots<AdapterState>, place: int)
    requires
        unique(model),
        well_named(model),
        0 <= place < healthy_backends(model).len(),
    ensures
        holds(model, healthy_backends(model)[place].name),
        value_of(model, healthy_backends(model)[place].name) == healthy_backends(model)[place],
{
    let all = live_values(model);
    let wanted = |adapter: AdapterState| available(adapter);
    let adapter = healthy_backends(model)[place];
    assert(all.filter(wanted).contains(adapter));
    all.lemma_filter_contains_rev(wanted, adapter);
    let k = choose|k: int| 0 <= k < all.len() && all[k] == adapter;
    lemma_live_value(model, k);
    lemma_live_names_match(model, k);
    let i = choose|i: int|
        0 <= i < model.len() && (#[trigger] model[i]) is Some && model[i].unwrap().0 == live_names(
            model,
        )[k] && model[i].unwrap().1 == all[k];
    assert(model[i].unwrap().1.name == model[i].unwrap().0);
}

/// The registry with the adapter under `name` replaced by `adapter`; as it
/// was where nothing is held under `name`.
pub open spec fn with_adapter(
    model: Slots<AdapterState>,
    name: Seq<char>,
    adapter: AdapterState,
) -> Slots<AdapterState> {
    if holds(model, name) {
        put(model, name, adapter)
    } else {
        model
    }
}

/// The registry after a call of `add_backend`, whether it succeeded or not.
pub open spec fn after_add(
    model: Slots<AdapterState>,
    config: BackendConfig,
    env: Seq<(String, String)>,
) -> Slots<AdapterState> {
    match added(model, config, env) {
        Ok(after) => after,
        Err(_) => model,
    }
}

/// The registry after a call of `remove_backend`, whether it succeeded or not.
pub open spec fn after_remove(model: Slots<AdapterState>, name: Seq<char>) -> Slots<AdapterState> {
    match removed(model, name) {
        Ok(after) => after,
        Err(_) => model,
    }
}

/// Adding keeps the registry well-formed: names stay unique and every
/// adapter stays under its own name.
pub proof fn lemma_add_keeps_form(
    model: Slots<AdapterState>,
    config: BackendConfig,
    env: Seq<(String, String)>,
)
    requires
        unique(model),
        well_named(model),
    ensures
        unique(after_add(model, config, env)),
        well_named(after_add(model, config, env)),
{
    let adapter = adapter_of(config, token_of(config, env));
    lemma_put(model, config.name@, adapter);
    lemma_first_free_exists(model);
    if added(model, config, env) is Ok {
        let after = after_add(model, config, env);
        assert forall|i: int| 0 <= i < after.len() && (#[trigger] after[i]) is Some implies after[i].unwrap().1.name
            == after[i].unwrap().0 by {
            if i < model.len() && after[i] == model[i] {
                assert(model[i] is Some);
            }
        }
    }
}

/// For every registry and two image backends with distinct names: after
/// both were added, both are found and both are listed; and a backend
/// that was removed is no longer found.
pub proof fn lemma_added_are_listed(
    model: Slots<AdapterState>,
    a: BackendConfig,
    b: BackendConfig,
    env: Seq<(String, String)>,
)
    requires
        unique(model),
        well_named(model),
        a.name@ != b.name@,
        image_protocol(a.protocol),
        image_protocol(b.protocol),
    ensures
        holds(after_add(after_add(model, a, env), b, env), a.name@),
        holds(after_add(after_add(model, a, env), b, env), b.name@),
        exists|k: int|
            0 <= k < live_values(after_add(after_add(model, a, env), b, env)).len() && (
            #[trigger] live_values(after_add(after_add(model, a, env), b, env))[k]).name == a.name@,
        exists|k: int|
            0 <= k < live_values(after_add(after_add(model, a, env), b, env)).len() && (
            #[trigger] live_values(after_add(after_add(model, a, env), b, env))[k]).name == b.name@,
        !holds(after_remove(after_add(after_add(model, a, env), b, env), a.name@), a.name@),
{
    let first = after_add(model, a, env);
    let second = after_add(first, b, env);
    lemma_put(model, a.name@, adapter_of(a, token_of(a, env)));
    lemma_add_keeps_form(model, a, env);
    assert(holds(first, a.name@));
    lemma_put(first, b.name@, adapter_of(b, token_of(b, env)));
    lemma_add_keeps_form(first, b, env);
    assert(holds(second, b.name@));
    assert(holds(second, a.name@));
    lemma_held_is_listed(second, a.name@);
    lemma_held_is_listed(second, b.name@);
    let ia = position(second, a.name@);
    assert(named_at(second, a.name@, ia));
    let ib = position(second, b.name@);
    assert(named_at(second, b.name@, ib));
    lemma_without(second, a.name@);
}

/// Where a backend was added, removing it by name brings the registry
/// back to the size it had before.
pub proof fn lemma_add_remove_size(
    model: Slots<AdapterState>,
    config: BackendConfig,
    env: Seq<(String, String)>,
)
    requires
        unique(model),
        added(model, config, env) is Ok,
    ensures
        removed(added(model, config, env)->Ok_0, config.name@) is Ok,
        live_count(removed(added(model, config, env)->Ok_0, config.name@)->Ok_0) == live_count(
            model,
        ),
{
    let adapter = adapter_of(config, token_of(config, env));
    lemma_put(model, config.name@, adapter);
    lemma_without(put(model, config.name@, adapter), config.name@);
}

/// Where a backend was added, adding it once more is refused as an invalid
/// request that names the backend, and the registry stays as it is.
pub proof fn lemma_add_twice(
    model: Slots<AdapterState>,
    config: BackendConfig,
    env: Seq<(String, String)>,
)
    requires
        unique(model),
        added(model, config, env) is Ok,
    ensures
        added(added(model, config, env)->Ok_0, config, env) == Err::<
            Slots<AdapterState>,
            (ErrorKind, Seq<char>),
        >((ErrorKind::InvalidRequest, already_exists_message(config.name@))),
        after_add(added(model, config, env)->Ok_0, config, env) == added(model, config, env)->Ok_0,
{
    lemma_put(model, config.name@, adapter_of(config, token_of(config, env)));
}

/// Registry for managing image generation backends.
pub struct BackendRegistry {
    backends: SlotTable<Adapter>,
}

impl View for BackendRegistry {
    type V = Slots<AdapterState>;

    closed spec fn view(&self) -> Slots<AdapterState> {
        viewed(self.backends.entries())
    }
}

impl BackendRegistry {
    /// The slots agree with their index, and every adapter is held under its own name.
    pub closed spec fn wf(&self) -> bool {
        self.backends.wf() && well_named(self@)
    }

    /// In a well-formed registry names are unique and adapters carry the
    /// name they are held under.
    pub proof fn lemma_wf(&self)
        requires
            self.wf(),
        ensures
            unique(self@),
            well_named(self@),
    {
        self.backends.lemma_unique();
        lemma_viewed(self.backends.entries(), Seq::empty());
    }

    /// Create a new empty backend registry.
    pub fn new() -> (registry: Self)
        ensures
            registry.wf(),
            registry@ == Slots::<AdapterState>::empty(),
    {
        let registry = BackendRegistry { backends: SlotTable::new() };
        assert(registry@ =~= Slots::<AdapterState>::empty());
        registry
    }

    /// Create a backend from configuration.
    pub fn create_backend(
        config: &BackendConfig,
        env: &Vec<(String, String)>,
    ) -> (r: Result<Adapter>)
        ensures
            r is Ok <==> image_protocol(config.protocol),
            r matches Ok(adapter) ==> adapter@ == adapter_of(*config, token_of(*config, env@)),
            r matches Err(e) ==> e.has(
                ErrorKind::Config,
                unsupported_protocol_message(config.protocol),
            ),
    {
        match config.protocol {
            ProtocolType::Http | ProtocolType::OpenAI | ProtocolType::Grpc => {
                Ok(Adapter::new(config, lookup_token(config, env)))
            },
            _ => Err(
                AppError::Config(
                    concat("Unsupported protocol for image backend: ", config.protocol.as_str()),
                ),
            ),
        }
    }

    /// Puts an adapter under its own name.
    fn hold(&mut self, adapter: Adapter)
        requires
            old(self).wf(),
        ensures
            final(self).wf(),
            final(self)@ == put(old(self)@, adapter@.name, adapter@),
    {
        let ghost before = self.backends.entries();
        let name = adapter.name().to_string();
        proof {
            self.backends.lemma_unique();
            lemma_viewed_put(before, name@, adapter);
        }
        self.backends.insert(name, adapter);
        proof {
            let after = self@;
            assert forall|i: int| 0 <= i < after.len() && (#[trigger] after[i]) is Some implies after[i].unwrap().1.name
                == after[i].unwrap().0 by {
                lemma_viewed(before, adapter@.name);
                lemma_first_free_exists(viewed(before));
                if i < viewed(before).len() && after[i] == viewed(before)[i] {
                    assert(viewed(before)[i] is Some);
                }
            }
        }
    }

    /// Initialize the registry from configuration: every enabled entry
    /// whose adapter can be made is registered, the others are passed over.
    pub fn initialize_from_config(
        &mut self,
        configs: &Vec<BackendConfig>,
        env: &Vec<(String, String)>,
    ) -> (r: Result<()>)
        requires
            old(self).wf(),
        ensures
            final(self).wf(),
            r is Ok,
            final(self)@ == initialized(old(self)@, configs@, env@),
    {
        let mut i: usize = 0;
        assert(configs@.take(0) =~= Seq::empty());
        while i < configs.len()
            invariant
                i <= configs.len(),
                self.wf(),
                self@ == initialized(old(self)@, configs@.take(i as int), env@),
            decreases configs.len() - i,
        {
            proof {
                assert(configs@.take(i + 1).drop_last() =~= configs@.take(i as int));
                assert(configs@.take(i + 1).last() == configs@[i as int]);
            }
            let config = &configs[i];
            if config.enabled {
                match Self::create_backend(config, env) {
                    Ok(backend) => {
                        self.hold(backend);
                    },
                    Err(_) => {},
                }
            }
            i = i + 1;
        }
        assert(configs@.take(configs@.len() as int) =~= configs@);
        Ok(())
    }

    /// Add a new backend dynamically.
    pub fn add_backend(
        &mut self,
        config: BackendConfig,
        env: &Vec<(String, String)>,
    ) -> (r: Result<()>)
        requires
            old(self).wf(),
        ensures
            final(self).wf(),
            r is Ok <==> added(old(self)@, config, env@) is Ok,
            r is Ok ==> final(self)@ == added(old(self)@, config, env@)->Ok_0,
            r matches Err(e) ==> final(self)@ == old(self)@ && e.has(
                added(old(self)@, config, env@)->Err_0.0,
                added(old(self)@, config, env@)->Err_0.1,
            ),
    {
        proof {
            self.backends.lemma_unique();
            lemma_viewed(self.backends.entries(), config.name@);
        }
        if self.backends.contains(config.name.as_str()) {
            return Err(
                AppError::InvalidRequest(
                    concat3("Backend '", config.name.as_str(), "' already exists"),
                ),
            );
        }
        match Self::create_backend(&config, env) {
            Ok(backend) => {
                self.hold(backend);
                Ok(())
            },
            Err(e) => Err(e),
        }
    }

    /// Remove a backend.
    pub fn remove_backend(&mut self, name: &str) -> (r: Result<()>)
        requires
            old(self).wf(),
        ensures
            final(self).wf(),
            r is Ok <==> holds(old(self)@, name@),
            r is Ok ==> final(self)@ == without(old(self)@, name@),
            r matches Err(e) ==> final(self)@ == old(self)@ && e.has(
                ErrorKind::BackendNotFound,
                name@,
            ),
    {
        let ghost before = self.backends.entries();
        proof {
            self.backends.lemma_unique();
            lemma_viewed(before, name@);
            lemma_viewed_without(before, name@);
        }
        match self.backends.remove(name) {
            Some(_) => {
                proof {
                    let after = self@;
                    assert forall|i: int|
                        0 <= i < after.len() && (#[trigger] after[i]) is Some implies after[i].unwrap().1.name
                        == after[i].unwrap().0 by {
                        assert(viewed(before)[i] is Some);
                    }
                }
                Ok(())
            },
            None => Err(AppError::BackendNotFound(name.to_string())),
        }
    }

    /// Get a backend by name.
    pub fn get(&self, name: &str) -> (backend: Option<&Adapter>)
        requires
            self.wf(),
        ensures
            backend is Some <==> holds(self@, name@),
            backend matches Some(adapter) ==> adapter@ == value_of(self@, name@) && adapter@.name
                == name@,
    {
        proof {
            self.backends.lemma_unique();
            lemma_viewed(self.backends.entries(), name@);
            if holds(self@, name@) {
                assert(named_at(self@, name@, position(self@, name@)));
            }
        }
        self.backends.get(name)
    }

    /// Get all backends, in slot order.
    pub fn get_all(&self) -> (backends: Vec<&Adapter>)
        ensures
            backends@.len() == live_values(self@).len(),
            forall|k: int| 0 <= k < backends@.len() ==> (#[trigger] backends@[k])@ == live_values(self@)[k],
    {
        proof {
            lemma_viewed_values(self.backends.entries());
        }
        self.backends.values()
    }

    /// What follows from an adapter having changed in place, under its name.
    proof fn lemma_changed(
        before: Slots<Adapter>,
        after: Slots<Adapter>,
        name: Seq<char>,
        adapter: Adapter,
    )
        requires
            unique(before),
            well_named(viewed(before)),
            holds(before, name),
            after == put(before, name, adapter),
            adapter@.name == name,
        ensures
            well_named(viewed(after)),
            viewed(after) == put(viewed(before), name, adapter@),
            viewed(after) == with_adapter(viewed(before), name, adapter@),
    {
        lemma_viewed(before, name);
        lemma_viewed_put(before, name, adapter);
        let i = position(before, name);
        assert(named_at(before, name, i));
        assert forall|j: int|
            0 <= j < viewed(after).len() && (#[trigger] viewed(after)[j]) is Some implies viewed(
            after,
        )[j].unwrap().1.name == viewed(after)[j].unwrap().0 by {
            if j != i {
                assert(viewed(before)[j] is Some);
            }
        }
    }

    /// Get all healthy backends: those that are enabled and have a healthy
    /// endpoint, in slot order.
    pub fn get_healthy(&self) -> (healthy: Vec<&Adapter>)
        ensures
            healthy@.len() == healthy_backends(self@).len(),
            forall|k: int|
                0 <= k < healthy@.len() ==> (#[trigger] healthy@[k])@ == healthy_backends(self@)[k],
    {
        let all = self.get_all();
        let ghost states = live_values(self@);
        let ghost wanted = |adapter: AdapterState| available(adapter);
        let mut healthy: Vec<&Adapter> = Vec::new();
        let mut i: usize = 0;
        proof {
            reveal(Seq::filter);
            assert(states.take(0) =~= Seq::empty());
        }
        while i < all.len()
            invariant
                i <= all.len(),
                all@.len() == states.len(),
                states == live_values(self@),
                wanted == |adapter: AdapterState| available(adapter),
                forall|k: int| 0 <= k < all@.len() ==> (#[trigger] all@[k])@ == states[k],
                healthy@.len() == states.take(i as int).filter(wanted).len(),
                forall|k: int|
                    0 <= k < healthy@.len() ==> (#[trigger] healthy@[k])@ == states.take(
                        i as int,
                    ).filter(wanted)[k],
            decreases all.len() - i,
        {
            proof {
                reveal(Seq::filter);
                assert(states.take(i + 1).drop_last() =~= states.take(i as int));
                assert(states.take(i + 1).last() == states[i as int]);
            }
            let adapter = all[i];
            if adapter.is_enabled() && adapter.is_healthy() {
                healthy.push(adapter);
            }
            i = i + 1;
        }
        assert(states.take(states.len() as int) =~= states);
        healthy
    }

    /// List all backends with their status, in slot order.
    pub fn list_backends(&self) -> (statuses: Vec<BackendStatus>)
        ensures
            statuses@.len() == live_values(self@).len(),
            forall|k: int|
                0 <= k < statuses@.len() ==> (#[trigger] statuses@[k]).reports(
                    live_values(self@)[k],
                    protocol_tag(live_values(self@)[k].protocol),
                ),
    {
        let all = self.get_all();
        let mut statuses: Vec<BackendStatus> = Vec::new();
        let mut i: usize = 0;
        while i < all.len()
            invariant
                i <= all.len(),
                all@.len() == live_values(self@).len(),
                forall|k: int| 0 <= k < all@.len() ==> (#[trigger] all@[k])@ == live_values(self@)[k],
                statuses@.len() == i,
                forall|k: int|
                    0 <= k < i ==> (#[trigger] statuses@[k]).reports(
                        live_values(self@)[k],
                        protocol_tag(live_values(self@)[k].protocol),
                    ),
            decreases all.len() - i,
        {
            statuses.push(all[i].status());
            i = i + 1;
        }
        statuses
    }

    /// Starts an operation on the backend of that name: its next healthy
    /// endpoint is selected, and the call to send is handed back.
    pub fn begin(&mut self, name: &str, operation: Operation) -> (r: Result<UpstreamRequest>)
        requires
            old(self).wf(),
        ensures
            final(self).wf(),
            !holds(old(self)@, name@) ==> final(self)@ == old(self)@ && r is Err && r->Err_0.has(
                ErrorKind::BackendNotFound,
                name@,
            ),
            holds(old(self)@, name@) ==> final(self)@ == with_adapter(
                old(self)@,
                name@,
                after_selection(value_of(old(self)@, name@)),
            ) && (r is Ok <==> selected(value_of(old(self)@, name@)) is Some),
            holds(old(self)@, name@) && r is Ok ==> r->Ok_0.calls(
                value_of(old(self)@, name@),
                selected(value_of(old(self)@, name@)).unwrap(),
                operation_path(operation),
            ),
            holds(old(self)@, name@) && r is Err ==> r->Err_0.has(
                ErrorKind::NoHealthyBackends,
                name@,
            ),
    {
        let ghost before = self.backends.entries();
        proof {
            self.backends.lemma_unique();
            lemma_viewed(before, name@);
            if holds(before, name@) {
                assert(named_at(viewed(before), name@, position(before, name@)));
            }
        }
        let r = match self.backends.get_mut(name) {
            Some(adapter) => {
                let r = adapter.begin(operation);
                proof {
                    Self::lemma_changed(before, put(before, name@, *adapter), name@, *adapter);
                }
                r
            },
            None => Err(AppError::BackendNotFound(name.to_string())),
        };
        r
    }

    /// Ends an operation on the backend of that name: what the reply means
    /// for the endpoint is recorded, where the backend is still registered,
    /// and the parsed body or the error is handed back.
    pub fn complete<T>(
        &mut self,
        name: &str,
        endpoint: &str,
        reply: UpstreamReply<T>,
    ) -> (r: Result<T>)
        requires
            old(self).wf(),
        ensures
            final(self).wf(),
            !holds(old(self)@, name@) ==> final(self)@ == old(self)@,
            holds(old(self)@, name@) ==> final(self)@ == with_adapter(
                old(self)@,
                name@,
                with_marked(value_of(old(self)@, name@), endpoint@, reply_effect(reply)),
            ),
            r is Err <==> reply_error(reply) is Some,
            r matches Err(e) ==> e.has(reply_error(reply).unwrap().0, reply_error(reply).unwrap().1),
            r matches Ok(value) ==> reply matches UpstreamReply::Answered { parsed: Ok(p), .. }
                && value == p,
    {
        let ghost before = self.backends.entries();
        proof {
            self.backends.lemma_unique();
            lemma_viewed(before, name@);
            if holds(before, name@) {
                assert(named_at(viewed(before), name@, position(before, name@)));
            }
        }
        let r = match self.backends.get_mut(name) {
            Some(adapter) => {
                let r = adapter.complete(endpoint, reply);
                proof {
                    Self::lemma_changed(before, put(before, name@, *adapter), name@, *adapter);
                }
                r
            },
            None => Adapter::outcome(reply),
        };
        r
    }

    /// Records a round of probes of the backend of that name and says
    /// whether any of them passed; `None` where no such backend is registered.
    pub fn record_probes(
        &mut self,
        name: &str,
        replies: &Vec<(String, ProbeReply)>,
    ) -> (passed: Option<bool>)
        requires
            old(self).wf(),
        ensures
            final(self).wf(),
            passed is Some <==> holds(old(self)@, name@),
            passed is Some ==> passed == Some(any_passed(replies@)) && final(self)@ == with_adapter(
                old(self)@,
                name@,
                AdapterState {
                    endpoints: probed(value_of(old(self)@, name@).endpoints, replies@),
                    ..value_of(old(self)@, name@)
                },
            ),
            passed is None ==> final(self)@ == old(self)@,
    {
        let ghost before = self.backends.entries();
        proof {
            self.backends.lemma_unique();
            lemma_viewed(before, name@);
            if holds(before, name@) {
                assert(named_at(viewed(before), name@, position(before, name@)));
            }
        }
        let passed = match self.backends.get_mut(name) {
            Some(adapter) => {
                let any = adapter.health_check(replies);
                proof {
                    Self::lemma_changed(before, put(before, name@, *adapter), name@, *adapter);
                }
                Some(any)
            },
            None => None,
        };
        passed
    }

    /// The adapter of each slot, in slot order; `None` for a free slot.
    pub fn slots(&self) -> (all: Vec<Option<&Adapter>>)
        requires
            self.wf(),
        ensures
            all@.len() == self@.len(),
            forall|j: int| 0 <= j < all@.len() ==> ((#[trigger] all@[j]) is Some <==> self@[j] is Some),
            forall|j: int|
                0 <= j < all@.len() && (#[trigger] all@[j]) is Some ==> all@[j].unwrap()@
                    == self@[j].unwrap().1 && all@[j].unwrap()@.name == self@[j].unwrap().0,
    {
        let n = self.backends.slot_count();
        let mut all: Vec<Option<&Adapter>> = Vec::new();
        let mut i: usize = 0;
        while i < n
            invariant
                i <= n,
                n == self@.len(),
                n == self.backends.entries().len(),
                well_named(self@),
                all@.len() == i,
                forall|j: int| 0 <= j < i ==> ((#[trigger] all@[j]) is Some <==> self@[j] is Some),
                forall|j: int|
                    0 <= j < i && (#[trigger] all@[j]) is Some ==> all@[j].unwrap()@
                        == self@[j].unwrap().1 && all@[j].unwrap()@.name == self@[j].unwrap().0,
            decreases n - i,
        {
            all.push(self.backends.value_at(i));
            i = i + 1;
        }
        all
    }

    /// Get the number of registered backends.
    pub fn len(&self) -> (n: usize)
        requires
            self.wf(),
        ensures
            n == live_count(self@),
    {
        proof {
            lemma_viewed_count(self.backends.entries());
        }
        self.backends.len()
    }

    /// Check if the registry is empty.
    pub fn is_empty(&self) -> (empty: bool)
        requires
            self.wf(),
        ensures
            empty == (live_count(self@) == 0),
    {
        proof {
            lemma_viewed_count(self.backends.entries());
        }
        self.backends.is_empty()
    }

    /// Check if a backend exists.
    pub fn contains(&self, name: &str) -> (found: bool)
        requires
            self.wf(),
        ensures
            found == holds(self@, name@),
    {
        proof {
            self.backends.lemma_unique();
            lemma_viewed(self.backends.entries(), name@);
        }
        self.backends.contains(name)
    }
}

impl Default for BackendRegistry {
    fn default() -> (registry: Self)
        ensures
            registry.wf(),
            registry@ == Slots::<AdapterState>::empty(),
    {
        Self::new()
    }
}

} // verus!
