//! The health-check manager: what the last probe of each backend found.
//!
//! The manager observes and does not enforce: the load balancer and the
//! router look at the health that each adapter keeps of its endpoints.

use crate::backend::registry::{with_adapter, BackendRegistry};
use crate::backend::slots::{
    holds, lemma_viewed, lemma_viewed_put, live_values, put, unique, value_of, viewed, Slots,
    SlotTable,
};
use crate::backend::adapter::{
    any_passed, probed, text_of, AdapterState, ProbeReply, UpstreamRequest,
};
use crate::clock::instant_now;
use crate::config::settings::BackendConfig;
use std::time::Instant;
use crate::text::views;
use vstd::prelude::*;

verus! {

/// What the last probe of a backend found.
#[derive(Debug)]
pub struct HealthRecord {
    pub is_healthy: bool,
    pub last_check_time: Instant,
    pub consecutive_failures: u32,
    pub last_error_message: Option<String>,
}

/// A health record as contracts see it.
pub struct HealthRecordState {
    pub is_healthy: bool,
    pub consecutive_failures: u32,
    pub last_error_message: Option<Seq<char>>,
}

impl View for HealthRecord {
    type V = HealthRecordState;

    open spec fn view(&self) -> HealthRecordState {
        HealthRecordState {
            is_healthy: self.is_healthy,
            consecutive_failures: self.consecutive_failures,
            last_error_message: text_of(self.last_error_message),
        }
    }
}

/// The message of a probe round in which no endpoint passed.
pub open spec fn probe_failed_message() -> Seq<char> {
    "Health check failed"@
}

/// The record after a probe round, given the record before it if there was
/// one: a pass makes the backend healthy and clears the failures; a
/// failure makes it unhealthy and counts one more failure, up to the
/// largest count that fits.
pub open spec fn next_record(prior: Option<HealthRecordState>, passed: bool) -> HealthRecordState {
    if passed {
        HealthRecordState { is_healthy: true, consecutive_failures: 0, last_error_message: None }
    } else {
        HealthRecordState {
            is_healthy: false,
            consecutive_failures: match prior {
                Some(record) => if record.consecutive_failures == u32::MAX {
                    u32::MAX
                } else {
                    (record.consecutive_failures + 1) as u32
                },
                None => 1,
            },
            last_error_message: Some(probe_failed_message()),
        }
    }
}

/// The record held under `name`, if there is one.
pub open spec fn record_of(records: Slots<HealthRecordState>, name: Seq<char>) -> Option<
    HealthRecordState,
> {
    if holds(records, name) {
        Some(value_of(records, name))
    } else {
        None
    }
}

/// The records after a probe round of the backend `name`.
pub open spec fn recorded(
    records: Slots<HealthRecordState>,
    name: Seq<char>,
    passed: bool,
) -> Slots<HealthRecordState> {
    put(records, name, next_record(record_of(records, name), passed))
}

/// A backend counts as healthy until a record says otherwise.
pub open spec fn considered_healthy(records: Slots<HealthRecordState>, name: Seq<char>) -> bool {
    !holds(records, name) || value_of(records, name).is_healthy
}

/// How many of the adapters count as healthy.
pub open spec fn healthy_count(
    records: Slots<HealthRecordState>,
    adapters: Seq<AdapterState>,
) -> nat
    decreases adapters.len(),
{
    if adapters.len() == 0 {
        0
    } else {
        healthy_count(records, adapters.drop_last()) + if considered_healthy(
            records,
            adapters.last().name,
        ) {
            1nat
        } else {
            0nat
        }
    }
}

/// The names whose record says unhealthy, in slot order.
pub open spec fn unhealthy_names(records: Slots<HealthRecordState>) -> Seq<Seq<char>>
    decreases records.len(),
{
    if records.len() == 0 {
        Seq::empty()
    } else if records.last() is Some && !records.last().unwrap().1.is_healthy {
        unhealthy_names(records.drop_last()).push(records.last().unwrap().0)
    } else {
        unhealthy_names(records.drop_last())
    }
}

/// The least health-check interval of the backends, of which there is one.
pub open spec fn least_interval(configs: Seq<BackendConfig>) -> u64
    decreases configs.len(),
{
    if configs.len() <= 1 {
        if configs.len() == 1 {
            configs[0].health_check.interval_secs
        } else {
            0
        }
    } else if configs.last().health_check.interval_secs < least_interval(configs.drop_last()) {
        configs.last().health_check.interval_secs
    } else {
        least_interval(configs.drop_last())
    }
}

/// The seconds between two probe cycles: the least interval that a backend
/// is configured with, and no less than one; 30 where no backend is configured.
pub open spec fn interval_of(configs: Seq<BackendConfig>) -> u64 {
    if configs.len() == 0 {
        30
    } else if least_interval(configs) < 1 {
        1
    } else {
        least_interval(configs)
    }
}

/// The replies to the probes of one backend in one cycle.
#[derive(Clone, Debug)]
pub struct ProbeRound {
    /// The name of the backend.
    pub backend: String,
    /// The endpoint that was probed and what came back, one entry for each probe.
    pub replies: Vec<(String, ProbeReply)>,
}

/// The probes to send to one backend in one cycle.
#[derive(Clone, Debug)]
pub struct ProbePlan {
    /// The name of the backend.
    pub backend: String,
    /// What to send, one request for each endpoint.
    pub requests: Vec<UpstreamRequest>,
    /// The seconds a probe may take; one that takes longer counts as not reached.
    pub timeout_secs: u64,
}

/// The milliseconds a probe may take: the health-check timeout of the
/// backend, as far as it can be counted in milliseconds; where none is
/// configured, the time that a request to the backend may take.
pub open spec fn probe_limit_ms(timeout_secs: u64, request_timeout_ms: u64) -> u64 {
    if timeout_secs == 0 {
        request_timeout_ms
    } else if timeout_secs > u64::MAX / 1000 {
        u64::MAX
    } else {
        (timeout_secs * 1000) as u64
    }
}

impl ProbePlan {
    /// The milliseconds that the probe sent with `request` may take; a probe
    /// that takes longer counts as not reached.
    pub fn limit_ms(&self, request: &UpstreamRequest) -> (limit: u64)
        ensures
            limit == probe_limit_ms(self.timeout_secs, request.timeout_ms),
    {
        if self.timeout_secs == 0 {
            request.timeout_ms
        } else if self.timeout_secs > u64::MAX / 1000 {
            u64::MAX
        } else {
            self.timeout_secs * 1000
        }
    }

    /// This plan probes every endpoint of `adapter`.
    pub open spec fn probes(&self, adapter: AdapterState) -> bool {
        &&& self.backend@ == adapter.name
        &&& self.timeout_secs == adapter.probe_timeout_secs
        &&& self.requests@.len() == adapter.endpoints.len()
        &&& forall|i: int|
            0 <= i < self.requests@.len() ==> (#[trigger] self.requests@[i]).calls(
                adapter,
                adapter.endpoints[i].url,
                adapter.health_check_path,
            )
    }
}

/// The registry after one probe round: the endpoints of the backend are
/// marked as the replies say, where the backend is registered.
pub open spec fn registry_after_round(
    model: Slots<AdapterState>,
    name: Seq<char>,
    replies: Seq<(String, ProbeReply)>,
) -> Slots<AdapterState> {
    if holds(model, name) {
        with_adapter(
            model,
            name,
            AdapterState {
                endpoints: probed(value_of(model, name).endpoints, replies),
                ..value_of(model, name)
            },
        )
    } else {
        model
    }
}

/// The registry after a probe cycle, round by round.
pub open spec fn registry_after_cycle(
    model: Slots<AdapterState>,
    rounds: Seq<ProbeRound>,
) -> Slots<AdapterState>
    decreases rounds.len(),
{
    if rounds.len() == 0 {
        model
    } else {
        registry_after_round(
            registry_after_cycle(model, rounds.drop_last()),
            rounds.last().backend@,
            rounds.last().replies@,
        )
    }
}

/// The records after a probe cycle, round by round: a round of a backend
/// that is registered is recorded, any other is passed over.
pub open spec fn records_after_cycle(
    records: Slots<HealthRecordState>,
    model: Slots<AdapterState>,
    rounds: Seq<ProbeRound>,
) -> Slots<HealthRecordState>
    decreases rounds.len(),
{
    if rounds.len() == 0 {
        records
    } else {
        let earlier = records_after_cycle(records, model, rounds.drop_last());
        if holds(registry_after_cycle(model, rounds.drop_last()), rounds.last().backend@) {
            recorded(earlier, rounds.last().backend@, any_passed(rounds.last().replies@))
        } else {
            earlier
        }
    }
}

/// Keeps the health record of each backend.
pub struct HealthCheckManager {
    records: SlotTable<HealthRecord>,
}

impl View for HealthCheckManager {
    type V = Slots<HealthRecordState>;

    closed spec fn view(&self) -> Slots<HealthRecordState> {
        viewed(self.records.entries())
    }
}

impl HealthCheckManager {
    /// The records are kept under unique names.
    pub closed spec fn wf(&self) -> bool {
        self.records.wf()
    }

    /// In a well-formed manager no backend has two records.
    pub proof fn lemma_wf(&self)
        requires
            self.wf(),
        ensures
            unique(self@),
    {
        self.records.lemma_unique();
        lemma_viewed(self.records.entries(), Seq::empty());
    }

    /// A manager without records.
    pub fn new() -> (manager: Self)
        ensures
            manager.wf(),
            manager@ == Slots::<HealthRecordState>::empty(),
    {
        let manager = HealthCheckManager { records: SlotTable::new() };
        assert(manager@ =~= Slots::<HealthRecordState>::empty());
        manager
    }

    /// The seconds between two probe cycles.
    pub fn probe_interval(configs: &Vec<BackendConfig>) -> (seconds: u64)
        ensures
            seconds == interval_of(configs@),
    {
        if configs.len() == 0 {
            return 30;
        }
        let mut least: u64 = configs[0].health_check.interval_secs;
        let mut i: usize = 1;
        assert(configs@.take(1).drop_last() =~= Seq::<BackendConfig>::empty());
        while i < configs.len()
            invariant
                1 <= i <= configs.len(),
                least == least_interval(configs@.take(i as int)),
            decreases configs.len() - i,
        {
            proof {
                assert(configs@.take(i + 1).drop_last() =~= configs@.take(i as int));
            }
            if configs[i].health_check.interval_secs < least {
                least = configs[i].health_check.interval_secs;
            }
            i = i + 1;
        }
        assert(configs@.take(configs@.len() as int) =~= configs@);
        if least < 1 {
            1
        } else {
            least
        }
    }

    /// The probes of one cycle: for each registered backend, in slot order,
    /// what to send to each of its endpoints.
    pub fn plan(registry: &BackendRegistry) -> (plans: Vec<ProbePlan>)
        ensures
            plans@.len() == live_values(registry@).len(),
            forall|k: int|
                0 <= k < plans@.len() ==> (#[trigger] plans@[k]).probes(live_values(registry@)[k]),
    {
        let all = registry.get_all();
        let mut plans: Vec<ProbePlan> = Vec::new();
        let mut i: usize = 0;
        while i < all.len()
            invariant
                i <= all.len(),
                all@.len() == live_values(registry@).len(),
                forall|k: int| 0 <= k < all@.len() ==> (#[trigger] all@[k])@ == live_values(registry@)[k],
                plans@.len() == i,
                forall|k: int| 0 <= k < i ==> (#[trigger] plans@[k]).probes(live_values(registry@)[k]),
            decreases all.len() - i,
        {
            plans.push(
                ProbePlan {
                    backend: all[i].name().to_string(),
                    requests: all[i].probe_requests(),
                    timeout_secs: all[i].probe_timeout_secs(),
                },
            );
            i = i + 1;
        }
        plans
    }

    /// Records the outcome of a probe round of the backend `name`.
    pub fn record(&mut self, name: &str, passed: bool)
        requires
            old(self).wf(),
        ensures
            final(self).wf(),
            final(self)@ == recorded(old(self)@, name@, passed),
    {
        let ghost before = self.records.entries();
        proof {
            self.records.lemma_unique();
            lemma_viewed(before, name@);
        }
        let failures: u32 = match self.records.get(name) {
            Some(record) => {
                if record.consecutive_failures == u32::MAX {
                    u32::MAX
                } else {
                    record.consecutive_failures + 1
                }
            },
            None => 1,
        };
        let record = if passed {
            HealthRecord {
                is_healthy: true,
                last_check_time: instant_now(),
                consecutive_failures: 0,
                last_error_message: None,
            }
        } else {
            HealthRecord {
                is_healthy: false,
                last_check_time: instant_now(),
                consecutive_failures: failures,
                last_error_message: Some("Health check failed".to_string()),
            }
        };
        proof {
            lemma_viewed_put(before, name@, record);
        }
        self.records.insert(name.to_string(), record);
    }

    /// Records a probe cycle: each round marks the endpoints of its backend
    /// in the registry and renews the record of the backend. A round of a
    /// backend that is no longer registered is passed over.
    pub fn run_cycle(&mut self, registry: &mut BackendRegistry, rounds: &Vec<ProbeRound>)
        requires
            old(self).wf(),
            old(registry).wf(),
        ensures
            final(self).wf(),
            final(registry).wf(),
            final(registry)@ == registry_after_cycle(old(registry)@, rounds@),
            final(self)@ == records_after_cycle(old(self)@, old(registry)@, rounds@),
    {
        let mut i: usize = 0;
        assert(rounds@.take(0) =~= Seq::empty());
        while i < rounds.len()
            invariant
                i <= rounds.len(),
                self.wf(),
                registry.wf(),
                registry@ == registry_after_cycle(old(registry)@, rounds@.take(i as int)),
                self@ == records_after_cycle(old(self)@, old(registry)@, rounds@.take(i as int)),
            decreases rounds.len() - i,
        {
            proof {
                assert(rounds@.take(i + 1).drop_last() =~= rounds@.take(i as int));
                assert(rounds@.take(i + 1).last() == rounds@[i as int]);
            }
            let round = &rounds[i];
            match registry.record_probes(round.backend.as_str(), &round.replies) {
                Some(passed) => {
                    self.record(round.backend.as_str(), passed);
                },
                None => {},
            }
            i = i + 1;
        }
        assert(rounds@.take(rounds@.len() as int) =~= rounds@);
    }

    /// Whether a backend counts as healthy: it does until a record says otherwise.
    pub fn is_healthy(&self, name: &str) -> (healthy: bool)
        requires
            self.wf(),
        ensures
            healthy == considered_healthy(self@, name@),
    {
        proof {
            self.records.lemma_unique();
            lemma_viewed(self.records.entries(), name@);
        }
        match self.records.get(name) {
            Some(record) => record.is_healthy,
            None => true,
        }
    }

    /// The record of a backend, if it was probed.
    pub fn get_status(&self, name: &str) -> (status: Option<&HealthRecord>)
        requires
            self.wf(),
        ensures
            status is Some <==> holds(self@, name@),
            status matches Some(record) ==> record@ == value_of(self@, name@),
    {
        proof {
            self.records.lemma_unique();
            lemma_viewed(self.records.entries(), name@);
        }
        self.records.get(name)
    }

    /// The names of the backends whose record says unhealthy, in slot order.
    pub fn get_unhealthy_backends(&self) -> (names: Vec<String>)
        ensures
            views(names@) == unhealthy_names(self@),
    {
        let n = self.records.slot_count();
        let ghost records = self@;
        let mut names: Vec<String> = Vec::new();
        let mut i: usize = 0;
        assert(records.take(0) =~= Seq::empty());
        while i < n
            invariant
                i <= n,
                n == self.records.entries().len(),
                records == self@,
                views(names@) == unhealthy_names(records.take(i as int)),
            decreases n - i,
        {
            proof {
                assert(records.take(i + 1).drop_last() =~= records.take(i as int));
                assert(records.take(i + 1).last() == records[i as int]);
            }
            let ghost before = names@;
            match self.records.value_at(i) {
                Some(record) => {
                    if !record.is_healthy {
                        match self.records.name_at(i) {
                            Some(name) => {
                                names.push(name.to_string());
                                assert(views(names@) =~= views(
                                    before,
                                ).push(name@));
                            },
                            None => {},
                        }
                    }
                },
                None => {},
            }
            i = i + 1;
        }
        assert(records.take(records.len() as int) =~= records);
        names
    }

    /// The number of registered backends, of those that count as healthy,
    /// and of those that do not.
    pub fn get_health_summary(&self, registry: &BackendRegistry) -> (summary: (usize, usize, usize))
        requires
            self.wf(),
        ensures
            summary.0 == live_values(registry@).len(),
            summary.1 == healthy_count(self@, live_values(registry@)),
            summary.0 == summary.1 + summary.2,
    {
        let all = registry.get_all();
        let ghost adapters = live_values(registry@);
        let mut healthy: usize = 0;
        let mut i: usize = 0;
        assert(adapters.take(0) =~= Seq::empty());
        while i < all.len()
            invariant
                i <= all.len(),
                self.wf(),
                adapters == live_values(registry@),
                all@.len() == adapters.len(),
                forall|k: int| 0 <= k < all@.len() ==> (#[trigger] all@[k])@ == adapters[k],
                healthy <= i,
                healthy == healthy_count(self@, adapters.take(i as int)),
            decreases all.len() - i,
        {
            proof {
                assert(adapters.take(i + 1).drop_last() =~= adapters.take(i as int));
                assert(adapters.take(i + 1).last() == adapters[i as int]);
            }
            if self.is_healthy(all[i].name()) {
                healthy = healthy + 1;
            }
            i = i + 1;
        }
        assert(adapters.take(adapters.len() as int) =~= adapters);
        (all.len(), healthy, all.len() - healthy)
    }
}

impl Default for HealthCheckManager {
    fn default() -> (manager: Self)
        ensures
            manager.wf(),
            manager@ == Slots::<HealthRecordState>::empty(),
    {
        Self::new()
    }
}

} // verus!
