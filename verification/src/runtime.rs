//! The runtime engine: which service processes run, and what is done about it.

use std::collections::VecDeque;
use std::sync::Arc;

use vstd::prelude::*;

use crate::catalog;
use crate::config::ConfigSnapshot;
use crate::graph;
use crate::lifecycle;
use crate::lifecycle::{
    EffectModel, EngineModel, EventModel, PendingModel, PlanModel, RuntimeModel, StatusModel,
};
use crate::model;
use crate::model::{ProcessType, Readiness, RestartPolicy, ServiceId, Supervision};
use crate::text;

verus! {

/// What a service is asked to be.
#[derive(Clone, Copy, Debug, PartialEq, Eq, Structural)]
pub enum DesiredState {
    Inactive,
    Active,
}

/// What a service is.
#[derive(Clone, Copy, Debug, PartialEq, Eq, Structural)]
pub enum ObservedState {
    Inactive,
    Starting,
    Active,
    Stopping,
    Failed,
}

/// What a timer of a service is for.
#[derive(Clone, Copy, Debug, PartialEq, Eq, Structural)]
pub enum TimerKind {
    Start,
    Stop,
    Restart,
}

/// How a process ended.
#[derive(Clone, Copy, Debug, PartialEq, Eq, Structural)]
pub enum ExitOutcome {
    Success,
    ExitCode(i32),
    Signal(i32),
}

/// How a stop begins.
#[derive(Clone, Copy, Debug, PartialEq, Eq, Structural)]
pub enum StopSignal {
    Term,
    Kill,
}

/// What becomes of a service whose stop has completed.
#[derive(Clone, Copy, Debug, PartialEq, Eq, Structural)]
pub enum StopResult {
    Inactive,
    Failed,
    Restart,
    RestartFailure,
}

/// What happened to a service.
#[derive(Debug, PartialEq, Eq)]
pub enum RuntimeEvent {
    ExecSucceeded { service: ServiceId, generation: u64, at_ms: u64 },
    Ready { service: ServiceId, generation: u64, at_ms: u64 },
    SpawnFailed { service: ServiceId, generation: u64, at_ms: u64 },
    ReadinessFailed { service: ServiceId, generation: u64, at_ms: u64 },
    Exited { service: ServiceId, generation: u64, outcome: ExitOutcome, at_ms: u64 },
    Timer { service: ServiceId, generation: u64, kind: TimerKind, at_ms: u64 },
}

impl View for RuntimeEvent {
    type V = EventModel;

    open spec fn view(&self) -> EventModel {
        match *self {
            RuntimeEvent::ExecSucceeded { service, generation, at_ms } =>
                EventModel::ExecSucceeded { service: service@, generation, at_ms },
            RuntimeEvent::Ready { service, generation, at_ms } => EventModel::Ready {
                service: service@,
                generation,
                at_ms,
            },
            RuntimeEvent::SpawnFailed { service, generation, at_ms } => EventModel::SpawnFailed {
                service: service@,
                generation,
                at_ms,
            },
            RuntimeEvent::ReadinessFailed { service, generation, at_ms } =>
                EventModel::ReadinessFailed { service: service@, generation, at_ms },
            RuntimeEvent::Exited { service, generation, outcome, at_ms } => EventModel::Exited {
                service: service@,
                generation,
                outcome,
                at_ms,
            },
            RuntimeEvent::Timer { service, generation, kind, at_ms } => EventModel::Timer {
                service: service@,
                generation,
                kind,
                at_ms,
            },
        }
    }
}

/// What is to be done about a service.
#[derive(Debug, PartialEq, Eq)]
pub enum RuntimeEffect {
    Spawn { service: ServiceId, generation: u64 },
    Terminate { service: ServiceId, generation: u64, force: bool },
    ArmTimer { service: ServiceId, generation: u64, kind: TimerKind, after_ms: u64 },
}

impl View for RuntimeEffect {
    type V = EffectModel;

    open spec fn view(&self) -> EffectModel {
        match *self {
            RuntimeEffect::Spawn { service, generation } => EffectModel::Spawn {
                service: service@,
                generation,
            },
            RuntimeEffect::Terminate { service, generation, force } => EffectModel::Terminate {
                service: service@,
                generation,
                force,
            },
            RuntimeEffect::ArmTimer { service, generation, kind, after_ms } =>
                EffectModel::ArmTimer { service: service@, generation, kind, after_ms },
        }
    }
}

/// What a list of effects says.
pub open spec fn effect_models(list: Seq<RuntimeEffect>) -> Seq<EffectModel> {
    Seq::new(list.len(), |i: int| list[i]@)
}

/// What is shown of a service.
#[derive(Debug, PartialEq, Eq)]
pub struct ServiceStatus {
    pub desired: DesiredState,
    pub observed: ObservedState,
    pub generation: u64,
    pub blocked_by: Option<ServiceId>,
    pub queued_at_ms: Option<u64>,
    pub started_at_ms: Option<u64>,
    pub ready_at_ms: Option<u64>,
    pub exited_at_ms: Option<u64>,
}

impl View for ServiceStatus {
    type V = StatusModel;

    open spec fn view(&self) -> StatusModel {
        StatusModel {
            desired: self.desired,
            observed: self.observed,
            generation: self.generation,
            blocked_by: optional_id(self.blocked_by),
            queued_at_ms: self.queued_at_ms,
            started_at_ms: self.started_at_ms,
            ready_at_ms: self.ready_at_ms,
            exited_at_ms: self.exited_at_ms,
        }
    }
}

/// The name of an optional identifier.
pub open spec fn optional_id(id: Option<ServiceId>) -> Option<Seq<char>> {
    match id {
        Some(id) => Some(id@),
        None => None,
    }
}

/// The state of one service.
pub struct ServiceRuntime {
    desired: DesiredState,
    observed: ObservedState,
    generation: u64,
    has_process: bool,
    stop_signal: StopSignal,
    waiting_restart: bool,
    restart_blocked: bool,
    blocked_by: Option<ServiceId>,
    stop_result: StopResult,
    queued_at_ms: Option<u64>,
    started_at_ms: u64,
    ready_at_ms: Option<u64>,
    exited_at_ms: Option<u64>,
    restart_history: VecDeque<u64>,
    backoff_ms: u64,
}

impl View for ServiceRuntime {
    type V = RuntimeModel;

    closed spec fn view(&self) -> RuntimeModel {
        RuntimeModel {
            desired: self.desired,
            observed: self.observed,
            generation: self.generation,
            has_process: self.has_process,
            stop_signal: self.stop_signal,
            waiting_restart: self.waiting_restart,
            restart_blocked: self.restart_blocked,
            blocked_by: optional_id(self.blocked_by),
            stop_result: self.stop_result,
            queued_at_ms: self.queued_at_ms,
            started_at_ms: self.started_at_ms,
            ready_at_ms: self.ready_at_ms,
            exited_at_ms: self.exited_at_ms,
            restart_history: self.restart_history@,
            backoff_ms: self.backoff_ms,
        }
    }
}

/// What a list of service states holds.
pub open spec fn runtime_models(list: Seq<ServiceRuntime>) -> Seq<RuntimeModel> {
    Seq::new(list.len(), |i: int| list[i]@)
}

impl ServiceRuntime {
    /// The state of a service whose last attempt had the given number and that is
    /// otherwise new.
    fn fresh(generation: u64) -> (r: ServiceRuntime)
        ensures
            r@ == (RuntimeModel { generation, ..lifecycle::fresh() }),
    {
        ServiceRuntime {
            desired: DesiredState::Inactive,
            observed: ObservedState::Inactive,
            generation,
            has_process: false,
            stop_signal: StopSignal::Term,
            waiting_restart: false,
            restart_blocked: false,
            blocked_by: None,
            stop_result: StopResult::Inactive,
            queued_at_ms: None,
            started_at_ms: 0,
            ready_at_ms: None,
            exited_at_ms: None,
            restart_history: VecDeque::new(),
            backoff_ms: lifecycle::INITIAL_RESTART_BACKOFF_MS,
        }
    }

    /// What is shown of the service.
    fn status(&self) -> (r: ServiceStatus)
        ensures
            r@ == self@.status(),
    {
        ServiceStatus {
            desired: self.desired,
            observed: self.observed,
            generation: self.generation,
            blocked_by: match &self.blocked_by {
                Some(id) => Some(id.clone()),
                None => None,
            },
            queued_at_ms: self.queued_at_ms,
            started_at_ms: if self.generation > 0 {
                Some(self.started_at_ms)
            } else {
                None
            },
            ready_at_ms: self.ready_at_ms,
            exited_at_ms: self.exited_at_ms,
        }
    }

    fn at_rest(&self) -> (r: bool)
        ensures
            r == self@.at_rest(),
    {
        self.observed == ObservedState::Inactive || self.observed == ObservedState::Failed
    }

    fn lingers(&self) -> (r: bool)
        ensures
            r == self@.lingers(),
    {
        self.has_process || self.observed == ObservedState::Stopping
    }

    fn serves(&self) -> (r: bool)
        ensures
            r == self@.serves(),
    {
        self.observed == ObservedState::Active && self.blocked_by.is_none()
    }

    fn over(&self) -> (r: bool)
        ensures
            r == self@.over(),
    {
        (self.observed == ObservedState::Failed && self.blocked_by.is_none()) || (self.observed
            == ObservedState::Inactive && self.restart_blocked)
    }
}

/// A configuration that waits until the services it affects have stopped.
struct PendingApply {
    snapshot: Arc<ConfigSnapshot>,
    affected: Vec<bool>,
}

/// The runtime engine: a configuration and the state of each of its services.
pub struct RuntimeEngine {
    snapshot: Arc<ConfigSnapshot>,
    services: Vec<ServiceRuntime>,
    pending: Option<PendingApply>,
}

impl View for RuntimeEngine {
    type V = EngineModel;

    closed spec fn view(&self) -> EngineModel {
        EngineModel {
            snapshot: self.snapshot@,
            services: runtime_models(self.services@),
            pending: match self.pending {
                Some(pending) => Some(
                    PendingModel {
                        snapshot: pending.snapshot@,
                        affected: pending.affected@,
                    },
                ),
                None => None,
            },
        }
    }
}

impl EngineModel {
    /// Whether there is one state for each service, the configuration is valid, and so
    /// is one that waits.
    pub open spec fn consistent(self) -> bool {
        &&& self.snapshot.valid()
        &&& self.services.len() == self.snapshot.catalog.services.len()
        &&& self.pending matches Some(pending) ==> pending.snapshot.valid()
            && pending.affected.len() == self.services.len()
    }
}

impl RuntimeEngine {
    /// An engine in which no service was started.
    pub fn new(snapshot: Arc<ConfigSnapshot>) -> (r: RuntimeEngine)
        ensures
            r@.consistent(),
            r@ == (EngineModel {
                snapshot: snapshot@,
                services: Seq::new(
                    snapshot@.catalog.services.len(),
                    |i: int| lifecycle::fresh(),
                ),
                pending: None,
            }),
    {
        let definitions = snapshot.services();
        let mut services: Vec<ServiceRuntime> = Vec::new();
        let mut i: usize = 0;
        while i < definitions.len()
            invariant
                i <= definitions@.len(),
                services@.len() == i,
                forall|k: int| 0 <= k < i ==> services@[k]@ == lifecycle::fresh(),
            decreases definitions@.len() - i,
        {
            services.push(ServiceRuntime::fresh(0));
            i = i + 1;
        }
        proof {
            assert(definitions@.len() == catalog::service_models(definitions@).len());
            assert(runtime_models(services@) =~= Seq::new(
                snapshot@.catalog.services.len(),
                |i: int| lifecycle::fresh(),
            ));
        }
        RuntimeEngine { snapshot, services, pending: None }
    }

    /// The configuration in use.
    pub fn snapshot(&self) -> (r: &Arc<ConfigSnapshot>)
        ensures
            r@ == self@.snapshot,
    {
        &self.snapshot
    }

    /// Whether a configuration waits.
    pub fn apply_pending(&self) -> (r: bool)
        ensures
            r == (self@.pending is Some),
    {
        self.pending.is_some()
    }

    /// Gives up a configuration that waits.
    pub(crate) fn drop_pending(&mut self)
        requires
            old(self)@.consistent(),
        ensures
            final(self)@ == (EngineModel { pending: None, ..old(self)@ }),
            final(self)@.consistent(),
    {
        self.pending = None;
    }

    /// The position of a service.
    fn find(&self, id: &ServiceId) -> (r: Option<usize>)
        requires
            self@.consistent(),
        ensures
            match r {
                Some(i) => i < self@.services.len() && lifecycle::position(
                    self@.snapshot.catalog,
                    id@,
                ) == Some(i as int) && self@.snapshot.catalog.services[i as int].id == id@,
                None => lifecycle::position(self@.snapshot.catalog, id@) is None,
            },
    {
        let r = self.snapshot.find_service(id);
        proof {
            let c = self@.snapshot.catalog;
            match r {
                Some(i) => {
                    lifecycle::position_unique(c, i as int);
                },
                None => {
                    let names = catalog::service_ids(c.services);
                    assert forall|i: int|
                        0 <= i < c.services.len() implies (#[trigger] c.services[i]).id
                        != id@ by {
                        assert(names[i] == c.services[i].id);
                    }
                },
            }
        }
        r
    }

    /// The status of a service.
    pub fn status(&self, service: &ServiceId) -> (r: Option<ServiceStatus>)
        requires
            self@.consistent(),
        ensures
            match r {
                Some(status) => lifecycle::position(self@.snapshot.catalog, service@) matches Some(
                    i,
                ) && status@ == self@.services[i].status(),
                None => lifecycle::position(self@.snapshot.catalog, service@) is None,
            },
    {
        match self.find(service) {
            Some(i) => Some(self.services[i].status()),
            None => None,
        }
    }

    /// Whether nobody waits any longer for a service to come up: it is active, has failed
    /// for good, or should not run.
    pub fn has_arrived(&self, service: &ServiceId) -> (r: Option<bool>)
        requires
            self@.consistent(),
        ensures
            r == match lifecycle::position(self@.snapshot.catalog, service@) {
                Some(i) => Some(lifecycle::arrived(self@.snapshot.catalog, self@.services, i)),
                None => None,
            },
    {
        match self.find(service) {
            Some(i) => Some(self.arrived(i)),
            None => None,
        }
    }

    /// Whether a service has done its work: it is active and needs no process, has failed,
    /// or has exited for good.
    pub fn is_through(&self, service: &ServiceId) -> (r: Option<bool>)
        requires
            self@.consistent(),
        ensures
            r == match lifecycle::position(self@.snapshot.catalog, service@) {
                Some(i) => Some(self@.services[i].through()),
                None => None,
            },
    {
        match self.find(service) {
            Some(i) => {
                let r = &self.services[i];
                proof {
                    assert(self@.services[i as int] == r@);
                }
                Some(
                    (r.observed == ObservedState::Active && !r.has_process) || r.observed
                        == ObservedState::Failed || r.over(),
                )
            },
            None => None,
        }
    }

    /// The status of every service, in ascending order of their names.
    pub fn statuses(&self) -> (r: Vec<(ServiceId, ServiceStatus)>)
        requires
            self@.consistent(),
        ensures
            r@.len() == self@.services.len(),
            forall|i: int|
                0 <= i < r@.len() ==> (#[trigger] r@[i]).0@ == self@.snapshot.catalog.services[i].id
                    && r@[i].1@ == self@.services[i].status(),
    {
        let definitions = self.snapshot.services();
        let mut r: Vec<(ServiceId, ServiceStatus)> = Vec::new();
        let mut i: usize = 0;
        while i < self.services.len()
            invariant
                self@.consistent(),
                catalog::service_models(definitions@) == self@.snapshot.catalog.services,
                i <= self.services@.len(),
                r@.len() == i,
                forall|k: int|
                    0 <= k < i ==> (#[trigger] r@[k]).0@ == self@.snapshot.catalog.services[k].id
                        && r@[k].1@ == self@.services[k].status(),
            decreases self.services@.len() - i,
        {
            proof {
                assert(definitions@.len() == catalog::service_models(definitions@).len());
                assert(self@.snapshot.catalog.services[i as int] == definitions@[i as int]@);
            }
            r.push((definitions[i].id.clone(), self.services[i].status()));
            i = i + 1;
        }
        r
    }
}

impl RuntimeEngine {
    /// The services of the configuration.
    fn definitions(&self) -> (r: &Vec<model::ServiceDefinition>)
        ensures
            catalog::service_models(r@) == self@.snapshot.catalog.services,
            r@.len() == self@.snapshot.catalog.services.len(),
            forall|i: int|
                0 <= i < r@.len() ==> self@.snapshot.catalog.services[i] == (#[trigger] r@[i])@,
    {
        let r = self.snapshot.services();
        proof {
            assert(r@.len() == catalog::service_models(r@).len());
        }
        r
    }

    /// The first service that service `i` needs and that has failed.
    fn failed_need(&self, i: usize) -> (r: Option<usize>)
        requires
            self@.consistent(),
            i < self@.services.len(),
        ensures
            match r {
                Some(j) => j < self@.services.len() && lifecycle::failed_need(
                    self@.snapshot.catalog,
                    self@.services,
                    i as int,
                ) == Some(j as int),
                None => lifecycle::failed_need(
                    self@.snapshot.catalog,
                    self@.services,
                    i as int,
                ) is None,
            },
    {
        let ghost c = self@.snapshot.catalog;
        let ghost st = self@.services;
        let ghost bad = |j: int| st[j].observed == ObservedState::Failed;
        let ghost all = catalog::needed_services(c, i as int);
        let list = self.snapshot.needed(i);
        proof {
            graph::selected_law(|j: int| c.needs(i as int, j), c.services.len());
            lifecycle::first_need_law(c, i as int, bad, c.services.len());
        }
        let mut k: usize = 0;
        while k < list.len()
            invariant
                self@.consistent(),
                st == self@.services,
                c == self@.snapshot.catalog,
                i < st.len(),
                bad == (|j: int| st[j].observed == ObservedState::Failed),
                all == catalog::needed_services(c, i as int),
                all == graph::ints(list@),
                forall|q: int| 0 <= q < all.len() ==> 0 <= #[trigger] all[q] < st.len(),
                k <= list@.len(),
                forall|q: int|
                    0 <= q < k ==> st[#[trigger] all[q]].observed != ObservedState::Failed,
            decreases list@.len() - k,
        {
            let j = list[k];
            proof {
                assert(all[k as int] == j);
                assert(st[j as int] == self.services@[j as int]@);
            }
            if self.services[j].observed == ObservedState::Failed {
                proof {
                    graph::selected_law(|j: int| c.needs(i as int, j), c.services.len());
                    lifecycle::first_need_law(c, i as int, bad, c.services.len());
                    let found = lifecycle::first_need(c, i as int, bad, c.services.len());
                    let holds = |j: int| c.needs(i as int, j);
                    assert(holds(all[k as int]));
                    assert(c.needs(i as int, j as int) && bad(j as int));
                    assert(found is Some);
                    if found != Some(j as int) {
                        let q = found->0;
                        assert(q < j);
                        assert(holds(q));
                        let p = choose|p: int| 0 <= p < all.len() && all[p] == q;
                        if p >= k {
                            assert(all[p] >= all[k as int]);
                        }
                        assert(bad(q));
                        assert(st[all[p]].observed != ObservedState::Failed);
                    }
                }
                return Some(j);
            }
            k = k + 1;
        }
        proof {
            let found = lifecycle::first_need(c, i as int, bad, c.services.len());
            if found is Some {
                let q = found->0;
                let holds = |j: int| c.needs(i as int, j);
                assert(holds(q));
                let p = choose|p: int| 0 <= p < all.len() && all[p] == q;
                assert(bad(q));
                assert(st[all[p]].observed != ObservedState::Failed);
            }
        }
        None
    }

    /// The first service that service `i` needs and that is not there for it.
    fn unmet_need(&self, i: usize) -> (r: Option<usize>)
        requires
            self@.consistent(),
            i < self@.services.len(),
        ensures
            match r {
                Some(j) => j < self@.services.len() && lifecycle::unmet_need(
                    self@.snapshot.catalog,
                    self@.services,
                    i as int,
                ) == Some(j as int),
                None => lifecycle::unmet_need(
                    self@.snapshot.catalog,
                    self@.services,
                    i as int,
                ) is None,
            },
    {
        let ghost c = self@.snapshot.catalog;
        let ghost st = self@.services;
        let ghost bad = |j: int| !st[j].serves();
        let ghost all = catalog::needed_services(c, i as int);
        let list = self.snapshot.needed(i);
        proof {
            graph::selected_law(|j: int| c.needs(i as int, j), c.services.len());
            lifecycle::first_need_law(c, i as int, bad, c.services.len());
        }
        let mut k: usize = 0;
        while k < list.len()
            invariant
                self@.consistent(),
                st == self@.services,
                c == self@.snapshot.catalog,
                i < st.len(),
                bad == (|j: int| !st[j].serves()),
                all == catalog::needed_services(c, i as int),
                all == graph::ints(list@),
                forall|q: int| 0 <= q < all.len() ==> 0 <= #[trigger] all[q] < st.len(),
                k <= list@.len(),
                forall|q: int|
                    0 <= q < k ==> st[#[trigger] all[q]].serves(),
            decreases list@.len() - k,
        {
            let j = list[k];
            proof {
                assert(all[k as int] == j);
                assert(st[j as int] == self.services@[j as int]@);
            }
            if !self.services[j].serves() {
                proof {
                    graph::selected_law(|j: int| c.needs(i as int, j), c.services.len());
                    lifecycle::first_need_law(c, i as int, bad, c.services.len());
                    let found = lifecycle::first_need(c, i as int, bad, c.services.len());
                    let holds = |j: int| c.needs(i as int, j);
                    assert(holds(all[k as int]));
                    assert(c.needs(i as int, j as int) && bad(j as int));
                    assert(found is Some);
                    if found != Some(j as int) {
                        let q = found->0;
                        assert(q < j);
                        assert(holds(q));
                        let p = choose|p: int| 0 <= p < all.len() && all[p] == q;
                        if p >= k {
                            assert(all[p] >= all[k as int]);
                        }
                        assert(bad(q));
                        assert(st[all[p]].serves());
                    }
                }
                return Some(j);
            }
            k = k + 1;
        }
        proof {
            let found = lifecycle::first_need(c, i as int, bad, c.services.len());
            if found is Some {
                let q = found->0;
                let holds = |j: int| c.needs(i as int, j);
                assert(holds(q));
                let p = choose|p: int| 0 <= p < all.len() && all[p] == q;
                assert(bad(q));
                assert(st[all[p]].serves());
            }
        }
        None
    }

    /// Whether service `j` needs service `i`.
    fn needs(&self, j: usize, i: usize) -> (r: bool)
        requires
            self@.consistent(),
            j < self@.services.len(),
            i < self@.services.len(),
        ensures
            r == self@.snapshot.catalog.needs(j as int, i as int),
    {
        let ghost c = self@.snapshot.catalog;
        let ghost all = catalog::needed_services(c, j as int);
        let list = self.snapshot.needed(j);
        let ghost holds = |q: int| c.needs(j as int, q);
        proof {
            graph::selected_law(holds, c.services.len());
        }
        let mut k: usize = 0;
        while k < list.len()
            invariant
                all == catalog::needed_services(c, j as int),
                all == graph::ints(list@),
                c == self@.snapshot.catalog,
                holds == (|q: int| c.needs(j as int, q)),
                k <= list@.len(),
                forall|q: int| 0 <= q < k ==> #[trigger] all[q] != i,
            decreases list@.len() - k,
        {
            proof {
                assert(all[k as int] == list@[k as int]);
            }
            if list[k] == i {
                proof {
                    graph::selected_law(holds, c.services.len());
                    assert(holds(all[k as int]));
                }
                return true;
            }
            k = k + 1;
        }
        proof {
            if c.needs(j as int, i as int) {
                assert(holds(i as int));
                let p = choose|p: int| 0 <= p < all.len() && all[p] == i;
                assert(all[p] != i);
            }
        }
        false
    }

    /// Whether nothing runs that service `i` conflicts with.
    fn conflicts_clear(&self, i: usize) -> (r: bool)
        requires
            self@.consistent(),
            i < self@.services.len(),
        ensures
            r == lifecycle::conflicts_clear(self@.snapshot.catalog, self@.services, i as int),
    {
        let definitions = self.definitions();
        let ghost c = self@.snapshot.catalog;
        let ghost st = self@.services;
        let mut j: usize = 0;
        while j < self.services.len()
            invariant
                self@.consistent(),
                c == self@.snapshot.catalog,
                st == self@.services,
                definitions@.len() == c.services.len(),
                forall|q: int|
                    0 <= q < definitions@.len() ==> c.services[q] == (#[trigger] definitions@[q])@,
                i < st.len(),
                j <= st.len(),
                forall|q: int|
                    0 <= q < j && q != i && !(#[trigger] st[q]).at_rest()
                        ==> !lifecycle::conflicting(c, i as int, q),
            decreases st.len() - j,
        {
            proof {
                assert(st[j as int] == self.services@[j as int]@);
                assert(c.services[i as int] == definitions@[i as int]@);
                assert(c.services[j as int] == definitions@[j as int]@);
            }
            if j != i && !self.services[j].at_rest() {
                if model::contains_id(
                    &definitions[i].dependencies.conflicts,
                    &definitions[j].id,
                ) || model::contains_id(
                    &definitions[j].dependencies.conflicts,
                    &definitions[i].id,
                ) {
                    proof {
                        assert(!st[j as int].at_rest());
                        assert(lifecycle::conflicting(c, i as int, j as int));
                    }
                    return false;
                }
            }
            j = j + 1;
        }
        true
    }

    /// Whether everything that service `i` is ordered after has settled.
    fn ordering_ready(&self, i: usize) -> (r: bool)
        requires
            self@.consistent(),
            i < self@.services.len(),
        ensures
            r == lifecycle::ordering_ready(self@.snapshot.catalog, self@.services, i as int),
    {
        let definitions = self.definitions();
        let ghost c = self@.snapshot.catalog;
        let ghost st = self@.services;
        let after = &definitions[i].dependencies.after;
        let ghost names = c.services[i as int].dependencies.after;
        proof {
            assert(c.services[i as int] == definitions@[i as int]@);
            assert(names == model::id_texts(after@));
            assert(c.dependencies(i as int).after == names);
            assert(catalog::all_present(c, c.dependencies(i as int).after));
        }
        let mut k: usize = 0;
        while k < after.len()
            invariant
                self@.consistent(),
                c == self@.snapshot.catalog,
                st == self@.services,
                i < st.len(),
                names == c.services[i as int].dependencies.after,
                names == model::id_texts(after@),
                catalog::all_present(c, names),
                k <= after@.len(),
                forall|q: int, j: int|
                    0 <= q < k && 0 <= j < c.services.len() && #[trigger] c.activates(
                        c.node(names[q]),
                        j,
                    ) ==> lifecycle::settled(st[j]),
            decreases after@.len() - k,
        {
            proof {
                assert(names[k as int] == after@[k as int]@);
                assert(c.contains(names[k as int]));
            }
            if let Some(x) = self.snapshot.find_node(&after[k]) {
                proof {
                    catalog::catalog_distinct(c, x as int, c.node(names[k as int]));
                }
                let list = self.snapshot.activated(x);
                let ghost all = catalog::activated_services(c, x as int);
                let ghost holds = |j: int| c.activates(x as int, j);
                proof {
                    graph::selected_law(holds, c.services.len());
                }
                let mut m: usize = 0;
                while m < list.len()
                    invariant
                        self@.consistent(),
                        st == self@.services,
                        c == self@.snapshot.catalog,
                        i < st.len(),
                        k < names.len(),
                        names == c.services[i as int].dependencies.after,
                        x as int == c.node(names[k as int]),
                        all == graph::ints(list@),
                        holds == (|j: int| c.activates(x as int, j)),
                        forall|q: int|
                            0 <= q < all.len() ==> 0 <= #[trigger] all[q] < st.len() && holds(
                                all[q],
                            ),
                        m <= list@.len(),
                        forall|q: int| 0 <= q < m ==> lifecycle::settled(st[#[trigger] all[q]]),
                    decreases list@.len() - m,
                {
                    let j = list[m];
                    proof {
                        assert(all[m as int] == j);
                        assert(st[j as int] == self.services@[j as int]@);
                        assert(holds(all[m as int]));
                    }
                    let state = &self.services[j];
                    if !(state.desired == DesiredState::Inactive || state.observed
                        == ObservedState::Active || state.observed == ObservedState::Failed) {
                        proof {
                            assert(c.activates(
                                c.node(c.services[i as int].dependencies.after[k as int]),
                                j as int,
                            ));
                        }
                        return false;
                    }
                    m = m + 1;
                }
                proof {
                    assert forall|q: int, j: int|
                        0 <= q < k + 1 && 0 <= j < c.services.len() && #[trigger] c.activates(
                            c.node(names[q]),
                            j,
                        ) implies lifecycle::settled(st[j]) by {
                        if q == k {
                            assert(holds(j));
                            let p = choose|p: int| 0 <= p < all.len() && all[p] == j;
                            assert(lifecycle::settled(st[all[p]]));
                        }
                    }
                }
            }
            k = k + 1;
        }
        true
    }

    /// Whether a service that should stop and still runs needs service `i`.
    fn has_stopping_dependent(&self, i: usize) -> (r: bool)
        requires
            self@.consistent(),
            i < self@.services.len(),
        ensures
            r == lifecycle::has_stopping_dependent(
                self@.snapshot.catalog,
                self@.services,
                i as int,
            ),
    {
        let ghost c = self@.snapshot.catalog;
        let ghost st = self@.services;
        let mut j: usize = 0;
        while j < self.services.len()
            invariant
                self@.consistent(),
                c == self@.snapshot.catalog,
                st == self@.services,
                i < st.len(),
                j <= st.len(),
                forall|q: int|
                    0 <= q < j && q != i && (#[trigger] st[q]).desired == DesiredState::Inactive
                        && st[q].lingers() ==> !c.needs(q, i as int),
            decreases st.len() - j,
        {
            proof {
                assert(st[j as int] == self.services@[j as int]@);
            }
            if j != i && self.services[j].desired == DesiredState::Inactive
                && self.services[j].lingers() && self.needs(j, i) {
                return true;
            }
            j = j + 1;
        }
        false
    }

    /// Whether another service that has a process needs service `i`.
    fn has_running_dependent(&self, i: usize) -> (r: bool)
        requires
            self@.consistent(),
            i < self@.services.len(),
        ensures
            r == lifecycle::has_running_dependent(
                self@.snapshot.catalog,
                self@.services,
                i as int,
            ),
    {
        let ghost c = self@.snapshot.catalog;
        let ghost st = self@.services;
        let mut j: usize = 0;
        while j < self.services.len()
            invariant
                self@.consistent(),
                c == self@.snapshot.catalog,
                st == self@.services,
                i < st.len(),
                j <= st.len(),
                forall|q: int|
                    0 <= q < j && q != i && (#[trigger] st[q]).has_process ==> !c.needs(
                        q,
                        i as int,
                    ),
            decreases st.len() - j,
        {
            proof {
                assert(st[j as int] == self.services@[j as int]@);
            }
            if j != i && self.services[j].has_process && self.needs(j, i) {
                return true;
            }
            j = j + 1;
        }
        false
    }

    /// Whether service `i` has failed for good.
    fn terminal(&self, i: usize) -> (r: bool)
        requires
            self@.consistent(),
            i < self@.services.len(),
        ensures
            r == lifecycle::terminal(self@.snapshot.catalog, self@.services, i as int),
    {
        let ghost c = self@.snapshot.catalog;
        let ghost st = self@.services;
        proof {
            assert(st[i as int] == self.services@[i as int]@);
        }
        if self.services[i].over() {
            return true;
        }
        if self.services[i].observed != ObservedState::Failed {
            return false;
        }
        let ghost all = catalog::needed_services(c, i as int);
        let ghost holds = |j: int| c.needs(i as int, j);
        let list = self.snapshot.needed(i);
        proof {
            graph::selected_law(holds, c.services.len());
        }
        let mut k: usize = 0;
        while k < list.len()
            invariant
                self@.consistent(),
                st == self@.services,
                c == self@.snapshot.catalog,
                i < st.len(),
                st[i as int].observed == ObservedState::Failed,
                holds == (|j: int| c.needs(i as int, j)),
                all == graph::ints(list@),
                forall|q: int|
                    0 <= q < all.len() ==> 0 <= #[trigger] all[q] < st.len() && holds(all[q]),
                k <= list@.len(),
                forall|q: int| 0 <= q < k ==> !st[#[trigger] all[q]].over(),
            decreases list@.len() - k,
        {
            let j = list[k];
            proof {
                assert(all[k as int] == j);
                assert(st[j as int] == self.services@[j as int]@);
            }
            if self.services[j].over() {
                proof {
                    assert(holds(all[k as int]));
                    assert(c.needs(i as int, j as int));
                }
                return true;
            }
            k = k + 1;
        }
        proof {
            assert forall|j: int|
                0 <= j < c.services.len() && #[trigger] c.needs(
                    i as int,
                    j,
                ) implies !st[j].over() by {
                assert(holds(j));
                let p = choose|p: int| 0 <= p < all.len() && all[p] == j;
                assert(!st[all[p]].over());
            }
        }
        false
    }

    /// Whether nobody waits any longer for service `i` to come up.
    fn arrived(&self, i: usize) -> (r: bool)
        requires
            self@.consistent(),
            i < self@.services.len(),
        ensures
            r == lifecycle::arrived(self@.snapshot.catalog, self@.services, i as int),
    {
        proof {
            assert(self@.services[i as int] == self.services@[i as int]@);
        }
        self.services[i].desired == DesiredState::Inactive || self.services[i].observed
            == ObservedState::Active || self.terminal(i)
    }

    /// Whether everything that service `i` waits for has arrived.
    fn awaited_arrived(&self, i: usize) -> (r: bool)
        requires
            self@.consistent(),
            i < self@.services.len(),
        ensures
            r == lifecycle::awaited_arrived(self@.snapshot.catalog, self@.services, i as int),
    {
        let ghost c = self@.snapshot.catalog;
        let ghost st = self@.services;
        let ghost all = catalog::awaited_services(c, i as int);
        let ghost holds = |j: int| c.awaits(i as int, j);
        let list = self.snapshot.awaited(i);
        proof {
            graph::selected_law(holds, c.services.len());
        }
        let mut k: usize = 0;
        while k < list.len()
            invariant
                self@.consistent(),
                st == self@.services,
                c == self@.snapshot.catalog,
                i < st.len(),
                holds == (|j: int| c.awaits(i as int, j)),
                all == graph::ints(list@),
                forall|q: int|
                    0 <= q < all.len() ==> 0 <= #[trigger] all[q] < st.len() && holds(all[q]),
                k <= list@.len(),
                forall|q: int| 0 <= q < k ==> lifecycle::arrived(c, st, #[trigger] all[q]),
            decreases list@.len() - k,
        {
            let j = list[k];
            proof {
                assert(all[k as int] == j);
            }
            if !self.arrived(j) {
                proof {
                    assert(holds(all[k as int]));
                    assert(c.awaits(i as int, j as int));
                }
                return false;
            }
            k = k + 1;
        }
        proof {
            assert forall|j: int|
                0 <= j < c.services.len() && #[trigger] c.awaits(
                    i as int,
                    j,
                ) implies lifecycle::arrived(c, st, j) by {
                assert(holds(j));
                let p = choose|p: int| 0 <= p < all.len() && all[p] == j;
                assert(lifecycle::arrived(c, st, all[p]));
            }
        }
        true
    }
}

fn push_effect(effects: &mut Vec<RuntimeEffect>, effect: RuntimeEffect)
    ensures
        effect_models(final(effects)@) == effect_models(old(effects)@).push(effect@),
{
    let ghost before = effects@;
    effects.push(effect);
    proof {
        assert(effect_models(effects@) =~= effect_models(before).push(effect@));
    }
}

fn append_effects(effects: &mut Vec<RuntimeEffect>, more: Vec<RuntimeEffect>)
    ensures
        effect_models(final(effects)@) == effect_models(old(effects)@) + effect_models(more@),
{
    let ghost before = effects@;
    let ghost added = more@;
    let mut rest = more;
    effects.append(&mut rest);
    proof {
        assert(effect_models(effects@) =~= effect_models(before) + effect_models(added));
    }
}

fn push_launch(
    effects: &mut Vec<RuntimeEffect>,
    definition: &model::ServiceDefinition,
    generation: u64,
)
    ensures
        effect_models(final(effects)@) == effect_models(old(effects)@)
            + lifecycle::launch_effects(definition@, generation),
{
    let ghost before = effect_models(effects@);
    push_effect(effects, RuntimeEffect::Spawn { service: definition.id.clone(), generation });
    if definition.supervision.start_timeout_ms > 0 {
        push_effect(
            effects,
            RuntimeEffect::ArmTimer {
                service: definition.id.clone(),
                generation,
                kind: TimerKind::Start,
                after_ms: definition.supervision.start_timeout_ms,
            },
        );
    }
    proof {
        assert(effect_models(effects@) =~= before + lifecycle::launch_effects(
            definition@,
            generation,
        ));
    }
}

fn push_stop(
    effects: &mut Vec<RuntimeEffect>,
    definition: &model::ServiceDefinition,
    generation: u64,
    force: bool,
)
    ensures
        effect_models(final(effects)@) == effect_models(old(effects)@) + lifecycle::stop_effects(
            definition@,
            generation,
            force,
        ),
{
    let ghost before = effect_models(effects@);
    push_effect(
        effects,
        RuntimeEffect::Terminate { service: definition.id.clone(), generation, force },
    );
    if !force && definition.supervision.stop_timeout_ms > 0 {
        push_effect(
            effects,
            RuntimeEffect::ArmTimer {
                service: definition.id.clone(),
                generation,
                kind: TimerKind::Stop,
                after_ms: definition.supervision.stop_timeout_ms,
            },
        );
    }
    proof {
        assert(effect_models(effects@) =~= before + lifecycle::stop_effects(
            definition@,
            generation,
            force,
        ));
    }
}

fn next_generation(generation: u64) -> (r: u64)
    ensures
        r == lifecycle::next_generation(generation),
{
    if generation == u64::MAX {
        1
    } else {
        generation + 1
    }
}

impl RuntimeEngine {
    /// Lets every service recover that can.
    fn recover(&mut self)
        requires
            old(self)@.consistent(),
        ensures
            final(self)@ == (EngineModel {
                services: lifecycle::recover_all(
                    old(self)@.snapshot.catalog,
                    old(self)@.services,
                ),
                ..old(self)@
            }),
            final(self)@.consistent(),
    {
        let ghost before = self@;
        let ghost c = self@.snapshot.catalog;
        let mut free: Vec<bool> = Vec::new();
        let mut i: usize = 0;
        while i < self.services.len()
            invariant
                before == self@,
                c == before.snapshot.catalog,
                before.consistent(),
                i <= before.services.len(),
                free@.len() == i,
                forall|k: int|
                    0 <= k < i ==> lifecycle::recovered(c, before.services, k) == (
                    if #[trigger] free@[k] {
                        RuntimeModel {
                            blocked_by: None,
                            observed: ObservedState::Inactive,
                            ..before.services[k]
                        }
                    } else {
                        before.services[k]
                    }),
            decreases before.services.len() - i,
        {
            proof {
                assert(before.services[i as int] == self.services@[i as int]@);
            }
            let available = match &self.services[i].blocked_by {
                None => false,
                Some(id) => match self.find(id) {
                    None => false,
                    Some(j) => {
                        proof {
                            assert(before.services[j as int] == self.services@[j as int]@);
                        }
                        self.services[j].serves()
                    },
                },
            };
            free.push(
                available && !self.services[i].has_process && self.services[i].desired
                    == DesiredState::Active,
            );
            i = i + 1;
        }
        let mut k: usize = 0;
        while k < self.services.len()
            invariant
                before.consistent(),
                c == before.snapshot.catalog,
                self@.snapshot == before.snapshot,
                self@.pending == before.pending,
                self.services@.len() == before.services.len(),
                free@.len() == before.services.len(),
                k <= before.services.len(),
                forall|q: int|
                    0 <= q < k ==> (#[trigger] self.services@[q])@ == lifecycle::recovered(
                        c,
                        before.services,
                        q,
                    ),
                forall|q: int|
                    k <= q < self.services@.len() ==> (#[trigger] self.services@[q])@
                        == before.services[q],
                forall|q: int|
                    0 <= q < free@.len() ==> lifecycle::recovered(c, before.services, q) == (
                    if #[trigger] free@[q] {
                        RuntimeModel {
                            blocked_by: None,
                            observed: ObservedState::Inactive,
                            ..before.services[q]
                        }
                    } else {
                        before.services[q]
                    }),
            decreases before.services.len() - k,
        {
            if free[k] {
                let r = &mut self.services[k];
                r.blocked_by = None;
                r.observed = ObservedState::Inactive;
            }
            k = k + 1;
        }
        proof {
            assert(self@.services =~= lifecycle::recover_all(c, before.services));
        }
    }

    /// How many services may be started.
    fn capacity(&self) -> (r: usize)
        requires
            self@.consistent(),
        ensures
            r == lifecycle::capacity(self@.snapshot, self@.services),
    {
        let ghost st = self@.services;
        let limit = self.snapshot.max_starting();
        let mut busy: usize = 0;
        let mut i: usize = 0;
        while i < self.services.len()
            invariant
                st == self@.services,
                st.len() == self.services@.len(),
                i <= st.len(),
                busy <= i,
                busy == lifecycle::launching_count(st, i as nat),
            decreases st.len() - i,
        {
            proof {
                assert(st[i as int] == self.services@[i as int]@);
            }
            if self.services[i].observed == ObservedState::Starting
                && self.services[i].has_process {
                busy = busy + 1;
            }
            i = i + 1;
        }
        if busy >= limit {
            0
        } else {
            limit - busy
        }
    }

    /// Starts what can be started.
    fn schedule(&mut self, now_ms: u64) -> (effects: Vec<RuntimeEffect>)
        requires
            old(self)@.consistent(),
        ensures
            ({
                let p = lifecycle::schedule(old(self)@.snapshot, old(self)@.services, now_ms);
                &&& final(self)@ == (EngineModel { services: p.services, ..old(self)@ })
                &&& effect_models(effects@) == p.effects
            }),
            final(self)@.consistent(),
    {
        let ghost before = self@;
        let ghost c = self@.snapshot.catalog;
        self.recover();
        let mut effects: Vec<RuntimeEffect> = Vec::new();
        let mut available = self.capacity();
        let ghost start = lifecycle::Progress {
            services: self@.services,
            effects: Seq::empty(),
            available: available as nat,
        };
        proof {
            assert(effect_models(effects@) =~= Seq::empty());
        }
        let mut i: usize = 0;
        while i < self.services.len() && available > 0
            invariant
                before.consistent(),
                c == before.snapshot.catalog,
                self@.consistent(),
                self@.snapshot == before.snapshot,
                self@.pending == before.pending,
                self.services@.len() == c.services.len(),
                i <= c.services.len(),
                lifecycle::schedule(before.snapshot, before.services, now_ms)
                    == lifecycle::schedule_from(c, start, 0, now_ms),
                lifecycle::schedule_from(c, start, 0, now_ms) == lifecycle::schedule_from(
                    c,
                    lifecycle::Progress {
                        services: self@.services,
                        effects: effect_models(effects@),
                        available: available as nat,
                    },
                    i as nat,
                    now_ms,
                ),
            decreases c.services.len() - i,
        {
            let ghost st = self@.services;
            let ghost done = effect_models(effects@);
            let ghost p = lifecycle::Progress {
                services: st,
                effects: done,
                available: available as nat,
            };
            proof {
                assert(st[i as int] == self.services@[i as int]@);
            }
            if self.services[i].desired == DesiredState::Active && self.services[i].observed
                == ObservedState::Inactive && !self.services[i].restart_blocked
                && !self.services[i].waiting_restart && self.conflicts_clear(i) {
                match self.failed_need(i) {
                    Some(j) => {
                        let by = {
                            let definitions = self.definitions();
                            proof {
                                assert(c.services[j as int] == definitions@[j as int]@);
                            }
                            definitions[j].id.clone()
                        };
                        let r = &mut self.services[i];
                        r.observed = ObservedState::Failed;
                        r.blocked_by = Some(by);
                        proof {
                            assert(self@.services =~= lifecycle::schedule_one(
                                c,
                                p,
                                i as int,
                                now_ms,
                            ).services);
                        }
                    },
                    None => {
                        if self.unmet_need(i).is_none() && self.awaited_arrived(i)
                            && self.ordering_ready(i) {
                            let generation = next_generation(self.services[i].generation);
                            let r = &mut self.services[i];
                            r.generation = generation;
                            r.observed = ObservedState::Starting;
                            r.has_process = true;
                            r.started_at_ms = now_ms;
                            r.ready_at_ms = None;
                            r.exited_at_ms = None;
                            r.blocked_by = None;
                            let definitions = self.definitions();
                            proof {
                                assert(c.services[i as int] == definitions@[i as int]@);
                            }
                            push_launch(&mut effects, &definitions[i], generation);
                            available = available - 1;
                            proof {
                                assert(self@.services =~= lifecycle::schedule_one(
                                    c,
                                    p,
                                    i as int,
                                    now_ms,
                                ).services);
                            }
                        }
                    },
                }
            }
            i = i + 1;
        }
        effects
    }
}

impl RuntimeEngine {
    /// Stops what should not run, dependants first.
    fn schedule_stops(&mut self) -> (effects: Vec<RuntimeEffect>)
        requires
            old(self)@.consistent(),
        ensures
            ({
                let p = lifecycle::schedule_stops(
                    old(self)@.snapshot.catalog,
                    old(self)@.services,
                );
                &&& final(self)@ == (EngineModel { services: p.services, ..old(self)@ })
                &&& effect_models(effects@) == p.effects
            }),
            final(self)@.consistent(),
    {
        let ghost before = self@;
        let ghost c = self@.snapshot.catalog;
        let mut effects: Vec<RuntimeEffect> = Vec::new();
        let ghost start = lifecycle::Stopped { services: self@.services, effects: Seq::empty() };
        proof {
            assert(effect_models(effects@) =~= Seq::empty());
        }
        let mut i: usize = 0;
        while i < self.services.len()
            invariant
                before.consistent(),
                c == before.snapshot.catalog,
                self@.consistent(),
                self@.snapshot == before.snapshot,
                self@.pending == before.pending,
                self.services@.len() == c.services.len(),
                i <= c.services.len(),
                lifecycle::stop_from(c, start, 0) == lifecycle::stop_from(
                    c,
                    lifecycle::Stopped {
                        services: self@.services,
                        effects: effect_models(effects@),
                    },
                    i as nat,
                ),
            decreases c.services.len() - i,
        {
            let ghost p = lifecycle::Stopped {
                services: self@.services,
                effects: effect_models(effects@),
            };
            proof {
                assert(p.services[i as int] == self.services@[i as int]@);
            }
            if self.services[i].desired == DesiredState::Inactive && self.services[i].observed
                != ObservedState::Inactive && self.services[i].observed
                != ObservedState::Stopping && !self.has_stopping_dependent(i) {
                let r = &mut self.services[i];
                if r.has_process {
                    r.observed = ObservedState::Stopping;
                    r.stop_result = StopResult::Inactive;
                    let generation = r.generation;
                    let force = r.stop_signal == StopSignal::Kill;
                    let definitions = self.definitions();
                    proof {
                        assert(c.services[i as int] == definitions@[i as int]@);
                    }
                    push_stop(&mut effects, &definitions[i], generation, force);
                } else {
                    r.observed = ObservedState::Inactive;
                }
            }
            proof {
                assert(self@.services =~= lifecycle::stop_one(c, p, i as int).services);
            }
            i = i + 1;
        }
        effects
    }

    /// The name of service `j`.
    fn name_of(&self, j: usize) -> (r: ServiceId)
        requires
            self@.consistent(),
            j < self@.services.len(),
        ensures
            r@ == self@.snapshot.catalog.services[j as int].id,
    {
        let definitions = self.definitions();
        proof {
            assert(self@.snapshot.catalog.services[j as int] == definitions@[j as int]@);
        }
        definitions[j].id.clone()
    }

    /// What service `i` is held up by.
    fn lacked(&self, i: usize) -> (r: Option<ServiceId>)
        requires
            self@.consistent(),
            i < self@.services.len(),
        ensures
            (match r {
                Some(id) => Some(id@),
                None => None,
            }) == lifecycle::lacked(self@.snapshot.catalog, self@.services, i as int),
    {
        proof {
            assert(self@.services[i as int] == self.services@[i as int]@);
        }
        match &self.services[i].blocked_by {
            Some(id) => Some(id.clone()),
            None => match self.unmet_need(i) {
                Some(j) => Some(self.name_of(j)),
                None => None,
            },
        }
    }

    /// Stops service `i`, which should run and has a process, for want of something that
    /// it needs; it waits where something that runs needs the service.
    fn yield_to_loss(&mut self, i: usize, effects: &mut Vec<RuntimeEffect>)
        requires
            old(self)@.consistent(),
            i < old(self)@.services.len(),
            old(self)@.services[i as int].desired == DesiredState::Active,
            old(self)@.services[i as int].has_process,
        ensures
            ({
                let p = lifecycle::propagate_one(
                    old(self)@.snapshot.catalog,
                    lifecycle::Stopped {
                        services: old(self)@.services,
                        effects: effect_models(old(effects)@),
                    },
                    i as int,
                );
                &&& final(self)@ == (EngineModel { services: p.services, ..old(self)@ })
                &&& effect_models(final(effects)@) == p.effects
            }),
            final(self)@.consistent(),
    {
        let ghost before = self@;
        let ghost c = self@.snapshot.catalog;
        let ghost p = lifecycle::propagate_one(
            c,
            lifecycle::Stopped { services: before.services, effects: effect_models(effects@) },
            i as int,
        );
        proof {
            assert(before.services[i as int] == self.services@[i as int]@);
        }
        if let Some(by) = self.lacked(i) {
            let told = self.services[i].observed == ObservedState::Stopping
                && self.services[i].blocked_by.is_some();
            if !told {
                let waits = self.has_running_dependent(i);
                let r = &mut self.services[i];
                r.blocked_by = Some(by);
                if !waits {
                    r.observed = ObservedState::Stopping;
                    r.stop_result = StopResult::Failed;
                    let generation = r.generation;
                    let force = r.stop_signal == StopSignal::Kill;
                    let definitions = self.definitions();
                    proof {
                        assert(c.services[i as int] == definitions@[i as int]@);
                    }
                    push_stop(effects, &definitions[i], generation, force);
                }
            }
        }
        proof {
            assert(self@.services =~= p.services);
        }
    }

    /// Hands on the loss of needed services.
    fn propagate(&mut self) -> (effects: Vec<RuntimeEffect>)
        requires
            old(self)@.consistent(),
        ensures
            ({
                let p = lifecycle::propagate(old(self)@.snapshot.catalog, old(self)@.services);
                &&& final(self)@ == (EngineModel { services: p.services, ..old(self)@ })
                &&& effect_models(effects@) == p.effects
            }),
            final(self)@.consistent(),
    {
        let ghost before = self@;
        let ghost c = self@.snapshot.catalog;
        let mut effects: Vec<RuntimeEffect> = Vec::new();
        let ghost start = lifecycle::Stopped { services: self@.services, effects: Seq::empty() };
        proof {
            assert(effect_models(effects@) =~= Seq::empty());
        }
        let mut i: usize = 0;
        while i < self.services.len()
            invariant
                before.consistent(),
                c == before.snapshot.catalog,
                self@.consistent(),
                self@.snapshot == before.snapshot,
                self@.pending == before.pending,
                self.services@.len() == c.services.len(),
                i <= c.services.len(),
                lifecycle::propagate_from(c, start, 0) == lifecycle::propagate_from(
                    c,
                    lifecycle::Stopped {
                        services: self@.services,
                        effects: effect_models(effects@),
                    },
                    i as nat,
                ),
            decreases c.services.len() - i,
        {
            let ghost p = lifecycle::Stopped {
                services: self@.services,
                effects: effect_models(effects@),
            };
            proof {
                assert(p.services[i as int] == self.services@[i as int]@);
            }
            if self.services[i].desired == DesiredState::Active {
                if self.services[i].has_process {
                    self.yield_to_loss(i, &mut effects);
                } else if self.services[i].blocked_by.is_none() {
                    let missed = if self.services[i].observed == ObservedState::Active {
                        self.unmet_need(i)
                    } else {
                        self.failed_need(i)
                    };
                    if let Some(j) = missed {
                        let by = self.name_of(j);
                        let r = &mut self.services[i];
                        r.blocked_by = Some(by);
                        r.observed = ObservedState::Failed;
                    }
                }
            }
            proof {
                assert(self@.services =~= lifecycle::propagate_one(c, p, i as int).services);
            }
            i = i + 1;
        }
        effects
    }

    /// Stops what should not run, then starts what can be started.
    fn settle(&mut self, now_ms: u64) -> (effects: Vec<RuntimeEffect>)
        requires
            old(self)@.consistent(),
        ensures
            final(self)@ == lifecycle::settle(old(self)@, now_ms).engine,
            effect_models(effects@) == lifecycle::settle(old(self)@, now_ms).effects,
            final(self)@.consistent(),
    {
        let mut effects = self.schedule_stops();
        let started = self.schedule(now_ms);
        append_effects(&mut effects, started);
        effects
    }

    /// Marks the services that activating a node activates.
    fn activation_marks(&self, node: usize) -> (marks: Vec<bool>)
        requires
            self@.consistent(),
            node < self@.snapshot.catalog.len(),
        ensures
            marks@.len() == self@.services.len(),
            forall|i: int|
                0 <= i < marks@.len() ==> #[trigger] marks@[i] == self@.snapshot.catalog.activates(
                    node as int,
                    i,
                ),
    {
        let ghost c = self@.snapshot.catalog;
        let list = self.snapshot.activated(node);
        let ghost all = catalog::activated_services(c, node as int);
        let ghost holds = |j: int| c.activates(node as int, j);
        proof {
            graph::selected_law(holds, c.services.len());
        }
        let mut marks: Vec<bool> = Vec::new();
        let mut i: usize = 0;
        while i < self.services.len()
            invariant
                i <= self.services@.len(),
                marks@.len() == i,
                forall|q: int| 0 <= q < i ==> !marks@[q],
            decreases self.services@.len() - i,
        {
            marks.push(false);
            i = i + 1;
        }
        let mut k: usize = 0;
        while k < list.len()
            invariant
                all == graph::ints(list@),
                marks@.len() == c.services.len(),
                forall|q: int|
                    0 <= q < all.len() ==> 0 <= #[trigger] all[q] < c.services.len() && holds(
                        all[q],
                    ),
                k <= list@.len(),
                forall|q: int|
                    0 <= q < marks@.len() ==> (#[trigger] marks@[q] <==> exists|p: int|
                        0 <= p < k && all[p] == q),
            decreases list@.len() - k,
        {
            let j = list[k];
            proof {
                assert(all[k as int] == j);
            }
            let ghost earlier = marks@;
            marks.set(j, true);
            proof {
                assert forall|q: int| 0 <= q < marks@.len() implies (#[trigger] marks@[q]
                    <==> exists|p: int| 0 <= p < k + 1 && all[p] == q) by {
                    if q == j {
                        assert(all[k as int] == q);
                    } else if earlier[q] {
                        let p = choose|p: int| 0 <= p < k && all[p] == q;
                        assert(all[p] == q);
                    } else if exists|p: int| 0 <= p < k + 1 && all[p] == q {
                        let p = choose|p: int| 0 <= p < k + 1 && all[p] == q;
                        assert(p < k);
                        assert(earlier[q]);
                    }
                }
            }
            k = k + 1;
        }
        proof {
            assert forall|i: int| 0 <= i < marks@.len() implies #[trigger] marks@[i]
                == c.activates(node as int, i) by {
                if marks@[i] {
                    let p = choose|p: int| 0 <= p < k && all[p] == i;
                    assert(holds(all[p]));
                }
                if holds(i) {
                    let p = choose|p: int| 0 <= p < all.len() && all[p] == i;
                    assert(all[p] == i);
                }
            }
        }
        marks
    }

    /// Makes exactly what the default group activates run.
    pub fn reconcile_default(&mut self, now_ms: u64) -> (effects: Vec<RuntimeEffect>)
        requires
            old(self)@.consistent(),
        ensures
            final(self)@ == lifecycle::reconcile_default(old(self)@, now_ms).engine,
            effect_models(effects@) == lifecycle::reconcile_default(old(self)@, now_ms).effects,
            final(self)@.consistent(),
    {
        let ghost before = self@;
        let ghost c = self@.snapshot.catalog;
        let ghost root = c.node(before.snapshot.default_group);
        let marks = match self.snapshot.find_node(self.snapshot.default_group()) {
            Some(x) => {
                proof {
                    assert(c.contains(before.snapshot.default_group));
                    catalog::catalog_distinct(c, x as int, root);
                }
                self.activation_marks(x)
            },
            None => {
                proof {
                    let names = catalog::group_ids(c.groups);
                    let g = choose|g: int|
                        0 <= g < names.len() && names[g] == before.snapshot.default_group;
                    assert(c.id(c.services.len() + g) == before.snapshot.default_group);
                }
                Vec::new()
            },
        };
        let mut i: usize = 0;
        while i < self.services.len()
            invariant
                before.consistent(),
                c == before.snapshot.catalog,
                root == c.node(before.snapshot.default_group),
                self@.snapshot == before.snapshot,
                self@.pending == before.pending,
                self.services@.len() == before.services.len(),
                marks@.len() == before.services.len(),
                forall|q: int|
                    0 <= q < marks@.len() ==> #[trigger] marks@[q] == c.activates(root, q),
                i <= before.services.len(),
                forall|q: int|
                    0 <= q < i ==> (#[trigger] self.services@[q])@ == lifecycle::reconciled(
                        before.services[q],
                        c.activates(root, q),
                        now_ms,
                    ),
                forall|q: int|
                    i <= q < self.services@.len() ==> (#[trigger] self.services@[q])@
                        == before.services[q],
            decreases before.services.len() - i,
        {
            let r = &mut self.services[i];
            if marks[i] {
                if r.desired == DesiredState::Inactive {
                    r.queued_at_ms = Some(now_ms);
                }
                r.restart_blocked = false;
                r.desired = DesiredState::Active;
            } else {
                r.desired = DesiredState::Inactive;
            }
            i = i + 1;
        }
        proof {
            assert(self@.services =~= lifecycle::reconciled_all(
                before.snapshot,
                before.services,
                now_ms,
            ));
        }
        self.settle(now_ms)
    }
}

/// The position of a service in a configuration.
fn find_in(snapshot: &ConfigSnapshot, id: &ServiceId) -> (r: Option<usize>)
    ensures
        match r {
            Some(i) => i < snapshot@.catalog.services.len() && lifecycle::position(
                snapshot@.catalog,
                id@,
            ) == Some(i as int) && snapshot@.catalog.services[i as int].id == id@,
            None => lifecycle::position(snapshot@.catalog, id@) is None,
        },
{
    let _ = snapshot.services();
    let r = snapshot.find_service(id);
    proof {
        let c = snapshot@.catalog;
        match r {
            Some(i) => {
                lifecycle::position_unique(c, i as int);
            },
            None => {
                let names = catalog::service_ids(c.services);
                assert forall|i: int| 0 <= i < c.services.len() implies (
                #[trigger] c.services[i]).id != id@ by {
                    assert(names[i] == c.services[i].id);
                }
            },
        }
    }
    r
}

impl ServiceRuntime {
    /// A copy of the state.
    fn copy(&self) -> (r: ServiceRuntime)
        ensures
            r@ == self@,
    {
        let mut restart_history: VecDeque<u64> = VecDeque::new();
        let mut i: usize = 0;
        while i < self.restart_history.len()
            invariant
                i <= self.restart_history@.len(),
                restart_history@ == self.restart_history@.take(i as int),
            decreases self.restart_history@.len() - i,
        {
            restart_history.push_back(self.restart_history[i]);
            proof {
                assert(self.restart_history@.take(i + 1) =~= self.restart_history@.take(
                    i as int,
                ).push(self.restart_history@[i as int]));
            }
            i = i + 1;
        }
        proof {
            assert(self.restart_history@.take(self.restart_history@.len() as int)
                =~= self.restart_history@);
        }
        ServiceRuntime {
            desired: self.desired,
            observed: self.observed,
            generation: self.generation,
            has_process: self.has_process,
            stop_signal: self.stop_signal,
            waiting_restart: self.waiting_restart,
            restart_blocked: self.restart_blocked,
            blocked_by: match &self.blocked_by {
                Some(id) => Some(id.clone()),
                None => None,
            },
            stop_result: self.stop_result,
            queued_at_ms: self.queued_at_ms,
            started_at_ms: self.started_at_ms,
            ready_at_ms: self.ready_at_ms,
            exited_at_ms: self.exited_at_ms,
            restart_history,
            backoff_ms: self.backoff_ms,
        }
    }
}

/// Why a request to the engine is refused.
#[derive(Debug, PartialEq, Eq)]
pub enum RuntimeError {
    UnknownTarget(ServiceId),
    NotService(ServiceId),
    DefinitionChange,
    ApplyInProgress,
}

/// What a [`RuntimeError`] says.
#[verifier::ext_equal]
pub enum RuntimeErrorModel {
    UnknownTarget(Seq<char>),
    NotService(Seq<char>),
    DefinitionChange,
    ApplyInProgress,
}

impl View for RuntimeError {
    type V = RuntimeErrorModel;

    open spec fn view(&self) -> RuntimeErrorModel {
        match *self {
            RuntimeError::UnknownTarget(id) => RuntimeErrorModel::UnknownTarget(id@),
            RuntimeError::NotService(id) => RuntimeErrorModel::NotService(id@),
            RuntimeError::DefinitionChange => RuntimeErrorModel::DefinitionChange,
            RuntimeError::ApplyInProgress => RuntimeErrorModel::ApplyInProgress,
        }
    }
}

/// The text of a [`RuntimeError`].
pub open spec fn runtime_error_message(error: RuntimeErrorModel) -> Seq<char> {
    match error {
        RuntimeErrorModel::UnknownTarget(id) => "unknown service or group "@ + id,
        RuntimeErrorModel::NotService(id) => "operation requires a service, not group "@ + id,
        RuntimeErrorModel::DefinitionChange =>
            "reload changes service definitions; use a full apply"@,
        RuntimeErrorModel::ApplyInProgress =>
            "another configuration apply is already in progress"@,
    }
}

impl RuntimeError {
    /// The text of the error.
    pub fn message(&self) -> (r: String)
        ensures
            r@ == runtime_error_message(self@),
    {
        match self {
            RuntimeError::UnknownTarget(id) => text::concat2(
                "unknown service or group ",
                id.as_str(),
            ),
            RuntimeError::NotService(id) => text::concat2(
                "operation requires a service, not group ",
                id.as_str(),
            ),
            RuntimeError::DefinitionChange => text::owned(
                "reload changes service definitions; use a full apply",
            ),
            RuntimeError::ApplyInProgress => text::owned(
                "another configuration apply is already in progress",
            ),
        }
    }
}

impl RuntimeEngine {
    /// Whether a new configuration changes how service `i` runs, or removes it.
    fn changed(&self, new: &ConfigSnapshot, i: usize) -> (r: bool)
        requires
            self@.consistent(),
            i < self@.services.len(),
        ensures
            r == lifecycle::changed(self@.snapshot, new@, i as int),
    {
        let definitions = self.definitions();
        let service = &definitions[i];
        proof {
            assert(self@.snapshot.catalog.services[i as int] == definitions@[i as int]@);
        }
        match find_in(new, &service.id) {
            None => true,
            Some(k) => {
                let others = new.services();
                proof {
                    assert(others@.len() == catalog::service_models(others@).len());
                    assert(new@.catalog.services[k as int] == others@[k as int]@);
                }
                let other = &others[k];
                !service.process.same(&other.process) || !service.actions.same(&other.actions)
                    || !service.io.same(&other.io)
            },
        }
    }

    /// Which services a new configuration affects.
    fn affected(&self, new: &ConfigSnapshot) -> (marks: Vec<bool>)
        requires
            self@.consistent(),
        ensures
            marks@ == lifecycle::affected(self@.snapshot, new@),
    {
        let ghost old = self@.snapshot;
        let ghost c = old.catalog;
        let mut direct: Vec<bool> = Vec::new();
        let mut i: usize = 0;
        while i < self.services.len()
            invariant
                self@.consistent(),
                old == self@.snapshot,
                c == old.catalog,
                i <= c.services.len(),
                direct@.len() == i,
                forall|q: int|
                    0 <= q < i ==> #[trigger] direct@[q] == lifecycle::changed(old, new@, q),
            decreases c.services.len() - i,
        {
            let changed = self.changed(new, i);
            direct.push(changed);
            i = i + 1;
        }
        let mut marks: Vec<bool> = Vec::new();
        let mut k: usize = 0;
        while k < self.services.len()
            invariant
                self@.consistent(),
                old == self@.snapshot,
                c == old.catalog,
                k <= c.services.len(),
                direct@.len() == c.services.len(),
                forall|q: int|
                    0 <= q < direct@.len() ==> #[trigger] direct@[q] == lifecycle::changed(
                        old,
                        new@,
                        q,
                    ),
                marks@.len() == k,
                forall|q: int|
                    0 <= q < k ==> #[trigger] marks@[q] == lifecycle::affects(old, new@, q),
            decreases c.services.len() - k,
        {
            let list = self.snapshot.needed(k);
            let ghost all = catalog::needed_services(c, k as int);
            let ghost holds = |j: int| c.needs(k as int, j);
            proof {
                graph::selected_law(holds, c.services.len());
            }
            let mut hit = direct[k];
            let mut m: usize = 0;
            while m < list.len()
                invariant
                    k < c.services.len(),
                    direct@.len() == c.services.len(),
                    all == graph::ints(list@),
                    holds == (|j: int| c.needs(k as int, j)),
                    forall|q: int|
                        0 <= q < direct@.len() ==> #[trigger] direct@[q] == lifecycle::changed(
                            old,
                            new@,
                            q,
                        ),
                    forall|q: int|
                        0 <= q < all.len() ==> 0 <= #[trigger] all[q] < c.services.len() && holds(
                            all[q],
                        ),
                    m <= list@.len(),
                    hit == (lifecycle::changed(old, new@, k as int) || exists|q: int|
                        0 <= q < m && lifecycle::changed(old, new@, #[trigger] all[q])),
                decreases list@.len() - m,
            {
                proof {
                    assert(all[m as int] == list@[m as int]);
                }
                let ghost earlier = hit;
                if direct[list[m]] {
                    hit = true;
                    proof {
                        assert(lifecycle::changed(old, new@, all[m as int]));
                    }
                }
                m = m + 1;
            }
            proof {
                if hit && !lifecycle::changed(old, new@, k as int) {
                    let q = choose|q: int|
                        0 <= q < all.len() && lifecycle::changed(old, new@, #[trigger] all[q]);
                    assert(holds(all[q]));
                    assert(c.needs(k as int, all[q]));
                }
                if lifecycle::affects(old, new@, k as int) && !lifecycle::changed(
                    old,
                    new@,
                    k as int,
                ) {
                    let j = choose|j: int|
                        0 <= j < c.services.len() && #[trigger] c.needs(k as int, j)
                            && lifecycle::changed(old, new@, j);
                    assert(holds(j));
                    let q = choose|q: int| 0 <= q < all.len() && all[q] == j;
                    assert(lifecycle::changed(old, new@, all[q]));
                }
            }
            marks.push(hit);
            k = k + 1;
        }
        proof {
            assert(marks@ =~= lifecycle::affected(old, new@));
        }
        marks
    }

    /// Puts a new configuration in place.
    fn install(&mut self, new: Arc<ConfigSnapshot>, affected: &Vec<bool>)
        requires
            old(self)@.consistent(),
            affected@.len() == old(self)@.services.len(),
        ensures
            final(self)@ == lifecycle::installed(old(self)@, new@, affected@),
            final(self)@.consistent(),
    {
        let ghost before = self@;
        let definitions = new.services();
        let mut services: Vec<ServiceRuntime> = Vec::new();
        let mut k: usize = 0;
        while k < definitions.len()
            invariant
                before == self@,
                before.consistent(),
                affected@.len() == before.services.len(),
                catalog::service_models(definitions@) == new@.catalog.services,
                k <= definitions@.len(),
                services@.len() == k,
                forall|q: int|
                    0 <= q < k ==> (#[trigger] services@[q])@ == lifecycle::carried(
                        before.snapshot.catalog,
                        before.services,
                        affected@,
                        new@.catalog,
                        q,
                    ),
            decreases definitions@.len() - k,
        {
            proof {
                assert(definitions@.len() == catalog::service_models(definitions@).len());
                assert(new@.catalog.services[k as int] == definitions@[k as int]@);
            }
            let state = match self.find(&definitions[k].id) {
                None => ServiceRuntime::fresh(0),
                Some(i) => {
                    proof {
                        assert(before.services[i as int] == self.services@[i as int]@);
                    }
                    if affected[i] {
                        ServiceRuntime::fresh(self.services[i].generation)
                    } else {
                        self.services[i].copy()
                    }
                },
            };
            services.push(state);
            k = k + 1;
        }
        let ghost states = services@;
        proof {
            assert(definitions@.len() == catalog::service_models(definitions@).len());
            assert(runtime_models(states) =~= lifecycle::installed(
                before,
                new@,
                affected@,
            ).services);
        }
        self.services = services;
        self.snapshot = new;
        self.pending = None;
    }

    /// Installs the configuration that waits once everything it affects has stopped.
    fn advance(&mut self, now_ms: u64) -> (effects: Vec<RuntimeEffect>)
        requires
            old(self)@.consistent(),
        ensures
            final(self)@ == lifecycle::advance(old(self)@, now_ms).engine,
            effect_models(effects@) == lifecycle::advance(old(self)@, now_ms).effects,
            final(self)@.consistent(),
    {
        let ghost before = self@;
        let none: Vec<RuntimeEffect> = Vec::new();
        proof {
            assert(effect_models(none@) =~= Seq::empty());
        }
        let ready = match &self.pending {
            None => false,
            Some(pending) => {
                let mut ready = true;
                let mut i: usize = 0;
                while ready && i < self.services.len()
                    invariant
                        before == self@,
                        before.consistent(),
                        before.pending == Some(
                            PendingModel {
                                snapshot: pending.snapshot@,
                                affected: pending.affected@,
                            },
                        ),
                        pending.affected@.len() == before.services.len(),
                        i <= before.services.len(),
                        ready ==> forall|q: int|
                            0 <= q < i && #[trigger] pending.affected@[q]
                                ==> !before.services[q].has_process
                                && before.services[q].at_rest(),
                        !ready ==> !lifecycle::drained(before.services, pending.affected@),
                    decreases before.services.len() - i,
                {
                    proof {
                        assert(before.services[i as int] == self.services@[i as int]@);
                    }
                    if pending.affected[i] && (self.services[i].has_process
                        || !self.services[i].at_rest()) {
                        proof {
                            assert(pending.affected@[i as int]);
                        }
                        ready = false;
                    }
                    i = i + 1;
                }
                ready
            },
        };
        if !ready {
            return none;
        }
        match self.pending.take() {
            None => none,
            Some(pending) => {
                self.install(pending.snapshot, &pending.affected);
                self.reconcile_default(now_ms)
            },
        }
    }

    /// Applies a complete configuration: services that it changes or removes, and
    /// those that need one of them, are stopped before the new definitions are
    /// installed.
    pub fn apply_snapshot(&mut self, snapshot: Arc<ConfigSnapshot>, now_ms: u64) -> (r: Result<
        Vec<RuntimeEffect>,
        RuntimeError,
    >)
        requires
            old(self)@.consistent(),
        ensures
            match r {
                Ok(effects) => {
                    let applied = lifecycle::apply_snapshot(old(self)@, snapshot@, now_ms);
                    &&& old(self)@.pending is None
                    &&& final(self)@ == applied.engine
                    &&& effect_models(effects@) == applied.effects
                },
                Err(e) => {
                    &&& old(self)@.pending is Some
                    &&& e@ == RuntimeErrorModel::ApplyInProgress
                    &&& final(self)@ == old(self)@
                },
            },
            final(self)@.consistent(),
    {
        if self.pending.is_some() {
            return Err(RuntimeError::ApplyInProgress);
        }
        let ghost before = self@;
        let marks = self.affected(&snapshot);
        let _ = snapshot.services();
        let mut any = false;
        let mut i: usize = 0;
        while i < marks.len()
            invariant
                i <= marks@.len(),
                any == exists|q: int| 0 <= q < i && #[trigger] marks@[q],
            decreases marks@.len() - i,
        {
            if marks[i] {
                any = true;
            }
            i = i + 1;
        }
        if !any {
            self.install(snapshot, &marks);
            return Ok(self.reconcile_default(now_ms));
        }
        let mut k: usize = 0;
        while k < self.services.len()
            invariant
                before.consistent(),
                self@.snapshot == before.snapshot,
                self@.pending == before.pending,
                self.services@.len() == before.services.len(),
                marks@.len() == before.services.len(),
                k <= before.services.len(),
                forall|q: int|
                    0 <= q < k ==> (#[trigger] self.services@[q])@ == (if marks@[q] {
                        lifecycle::withdrawn(before.services[q])
                    } else {
                        before.services[q]
                    }),
                forall|q: int|
                    k <= q < self.services@.len() ==> (#[trigger] self.services@[q])@
                        == before.services[q],
            decreases before.services.len() - k,
        {
            if marks[k] {
                let r = &mut self.services[k];
                r.desired = DesiredState::Inactive;
                r.waiting_restart = false;
                r.restart_blocked = false;
            }
            k = k + 1;
        }
        proof {
            assert(self@.services =~= Seq::new(
                before.services.len(),
                |i: int|
                    if marks@[i] {
                        lifecycle::withdrawn(before.services[i])
                    } else {
                        before.services[i]
                    },
            ));
        }
        let mut effects = self.schedule_stops();
        self.pending = Some(PendingApply { snapshot, affected: marks });
        let more = self.advance(now_ms);
        append_effects(&mut effects, more);
        Ok(effects)
    }

    /// Replaces the configuration by one with the same services, keeping every
    /// attempt.
    pub fn replace_snapshot(&mut self, snapshot: Arc<ConfigSnapshot>) -> (r: Result<
        (),
        RuntimeError,
    >)
        requires
            old(self)@.consistent(),
        ensures
            match r {
                Ok(_) => {
                    &&& model::plain_services(snapshot@.catalog.services)
                        == model::plain_services(old(self)@.snapshot.catalog.services)
                    &&& final(self)@ == (EngineModel { snapshot: snapshot@, ..old(self)@ })
                },
                Err(e) => {
                    &&& model::plain_services(snapshot@.catalog.services)
                        != model::plain_services(old(self)@.snapshot.catalog.services)
                    &&& e@ == RuntimeErrorModel::DefinitionChange
                    &&& final(self)@ == old(self)@
                },
            },
            final(self)@.consistent(),
    {
        let definitions = self.definitions();
        let others = snapshot.services();
        let ghost mine = model::plain_services(self@.snapshot.catalog.services);
        let ghost theirs = model::plain_services(snapshot@.catalog.services);
        proof {
            assert(others@.len() == catalog::service_models(others@).len());
        }
        if definitions.len() != others.len() {
            proof {
                assert(mine.len() != theirs.len());
            }
            return Err(RuntimeError::DefinitionChange);
        }
        let mut i: usize = 0;
        while i < definitions.len()
            invariant
                catalog::service_models(definitions@) == self@.snapshot.catalog.services,
                catalog::service_models(others@) == snapshot@.catalog.services,
                mine == model::plain_services(self@.snapshot.catalog.services),
                theirs == model::plain_services(snapshot@.catalog.services),
                definitions@.len() == others@.len(),
                i <= definitions@.len(),
                forall|q: int| 0 <= q < i ==> mine[q] == theirs[q],
                self@ == old(self)@,
                self@.consistent(),
            decreases definitions@.len() - i,
        {
            proof {
                assert(mine[i as int] == definitions@[i as int]@.plain());
                assert(theirs[i as int] == others@[i as int]@.plain());
            }
            if !definitions[i].same(&others[i]) {
                return Err(RuntimeError::DefinitionChange);
            }
            i = i + 1;
        }
        proof {
            assert(mine =~= theirs);
        }
        self.snapshot = snapshot;
        Ok(())
    }
}

/// Whether the effects hold a kill of one attempt of a service.
fn holds_kill(effects: &Vec<RuntimeEffect>, id: &ServiceId, attempt: u64) -> (r: bool)
    ensures
        r == effect_models(effects@).contains(
            EffectModel::Terminate { service: id@, generation: attempt, force: true },
        ),
{
    let ghost kill = EffectModel::Terminate { service: id@, generation: attempt, force: true };
    let ghost all = effect_models(effects@);
    let mut i: usize = 0;
    while i < effects.len()
        invariant
            kill == (EffectModel::Terminate { service: id@, generation: attempt, force: true }),
            all == effect_models(effects@),
            i <= effects@.len(),
            forall|q: int| 0 <= q < i ==> #[trigger] all[q] != kill,
        decreases effects@.len() - i,
    {
        proof {
            assert(all[i as int] == effects@[i as int]@);
        }
        if let RuntimeEffect::Terminate { service, generation, force } = &effects[i] {
            if *force && *generation == attempt && service.same(id) {
                proof {
                    assert(all[i as int] == kill);
                }
                return true;
            }
        }
        i = i + 1;
    }
    false
}

impl RuntimeEngine {
    /// Asks for a service or group to run.
    pub fn start(&mut self, target: &ServiceId, now_ms: u64) -> (r: Result<
        Vec<RuntimeEffect>,
        RuntimeError,
    >)
        requires
            old(self)@.consistent(),
        ensures
            match r {
                Ok(effects) => {
                    let c = old(self)@.snapshot.catalog;
                    let started = lifecycle::start(old(self)@, c.node(target@), now_ms);
                    &&& c.contains(target@)
                    &&& final(self)@ == started.engine
                    &&& effect_models(effects@) == started.effects
                },
                Err(e) => {
                    &&& !old(self)@.snapshot.catalog.contains(target@)
                    &&& e@ == RuntimeErrorModel::UnknownTarget(target@)
                    &&& final(self)@ == old(self)@
                },
            },
            final(self)@.consistent(),
    {
        let ghost before = self@;
        let ghost c = self@.snapshot.catalog;
        let node = match self.snapshot.find_node(target) {
            Some(x) => x,
            None => return Err(RuntimeError::UnknownTarget(target.clone())),
        };
        proof {
            assert(c.contains(target@));
            catalog::catalog_distinct(c, node as int, c.node(target@));
        }
        let marks = self.activation_marks(node);
        let mut i: usize = 0;
        while i < self.services.len()
            invariant
                before.consistent(),
                c == before.snapshot.catalog,
                self@.snapshot == before.snapshot,
                self@.pending == before.pending,
                self.services@.len() == before.services.len(),
                marks@.len() == before.services.len(),
                forall|q: int|
                    0 <= q < marks@.len() ==> #[trigger] marks@[q] == c.activates(node as int, q),
                i <= before.services.len(),
                forall|q: int|
                    0 <= q < i ==> (#[trigger] self.services@[q])@ == (if c.activates(
                        node as int,
                        q,
                    ) {
                        lifecycle::requested(before.services[q], now_ms)
                    } else {
                        before.services[q]
                    }),
                forall|q: int|
                    i <= q < self.services@.len() ==> (#[trigger] self.services@[q])@
                        == before.services[q],
            decreases before.services.len() - i,
        {
            if marks[i] {
                let r = &mut self.services[i];
                if r.desired == DesiredState::Inactive {
                    r.queued_at_ms = Some(now_ms);
                }
                r.desired = DesiredState::Active;
                r.stop_signal = StopSignal::Term;
                r.restart_blocked = false;
                r.blocked_by = None;
                if r.observed == ObservedState::Failed && !r.has_process {
                    r.observed = ObservedState::Inactive;
                }
            }
            i = i + 1;
        }
        proof {
            assert(self@.services =~= Seq::new(
                c.services.len(),
                |i: int|
                    if c.activates(node as int, i) {
                        lifecycle::requested(before.services[i], now_ms)
                    } else {
                        before.services[i]
                    },
            ));
        }
        Ok(self.schedule(now_ms))
    }

    /// Marks the services that a request to stop a node stops.
    fn stop_marks(&self, node: usize) -> (marks: Vec<bool>)
        requires
            self@.consistent(),
            node < self@.snapshot.catalog.len(),
        ensures
            marks@.len() == self@.services.len(),
            forall|i: int|
                0 <= i < marks@.len() ==> #[trigger] marks@[i] == lifecycle::stop_covers(
                    self@.snapshot.catalog,
                    node as int,
                    i,
                ),
    {
        let ghost c = self@.snapshot.catalog;
        let named = if node < self.services.len() {
            let mut named: Vec<bool> = Vec::new();
            let mut i: usize = 0;
            while i < self.services.len()
                invariant
                    i <= self.services@.len(),
                    named@.len() == i,
                    forall|q: int| 0 <= q < i ==> #[trigger] named@[q] == (q == node),
                decreases self.services@.len() - i,
            {
                named.push(i == node);
                i = i + 1;
            }
            named
        } else {
            self.activation_marks(node)
        };
        proof {
            assert forall|q: int| 0 <= q < named@.len() implies #[trigger] named@[q]
                == lifecycle::stop_names(c, node as int, q) by {}
        }
        let mut marks: Vec<bool> = Vec::new();
        let mut k: usize = 0;
        while k < self.services.len()
            invariant
                self@.consistent(),
                c == self@.snapshot.catalog,
                k <= c.services.len(),
                named@.len() == c.services.len(),
                forall|q: int|
                    0 <= q < named@.len() ==> #[trigger] named@[q] == lifecycle::stop_names(
                        c,
                        node as int,
                        q,
                    ),
                marks@.len() == k,
                forall|q: int|
                    0 <= q < k ==> #[trigger] marks@[q] == lifecycle::stop_covers(
                        c,
                        node as int,
                        q,
                    ),
            decreases c.services.len() - k,
        {
            let list = self.snapshot.needed(k);
            let ghost all = catalog::needed_services(c, k as int);
            let ghost holds = |j: int| c.needs(k as int, j);
            proof {
                graph::selected_law(holds, c.services.len());
            }
            let mut hit = named[k];
            let mut m: usize = 0;
            while m < list.len()
                invariant
                    k < c.services.len(),
                    named@.len() == c.services.len(),
                    all == graph::ints(list@),
                    holds == (|j: int| c.needs(k as int, j)),
                    forall|q: int|
                        0 <= q < named@.len() ==> #[trigger] named@[q] == lifecycle::stop_names(
                            c,
                            node as int,
                            q,
                        ),
                    forall|q: int|
                        0 <= q < all.len() ==> 0 <= #[trigger] all[q] < c.services.len() && holds(
                            all[q],
                        ),
                    m <= list@.len(),
                    hit == (lifecycle::stop_names(c, node as int, k as int) || exists|q: int|
                        0 <= q < m && lifecycle::stop_names(c, node as int, #[trigger] all[q])),
                decreases list@.len() - m,
            {
                proof {
                    assert(all[m as int] == list@[m as int]);
                }
                if named[list[m]] {
                    hit = true;
                    proof {
                        assert(lifecycle::stop_names(c, node as int, all[m as int]));
                    }
                }
                m = m + 1;
            }
            proof {
                if hit && !lifecycle::stop_names(c, node as int, k as int) {
                    let q = choose|q: int|
                        0 <= q < all.len() && lifecycle::stop_names(
                            c,
                            node as int,
                            #[trigger] all[q],
                        );
                    assert(holds(all[q]));
                    assert(c.needs(k as int, all[q]));
                }
                if lifecycle::stop_covers(c, node as int, k as int) && !lifecycle::stop_names(
                    c,
                    node as int,
                    k as int,
                ) {
                    let j = choose|j: int|
                        0 <= j < c.services.len() && #[trigger] c.needs(k as int, j)
                            && lifecycle::stop_names(c, node as int, j);
                    assert(holds(j));
                    let q = choose|q: int| 0 <= q < all.len() && all[q] == j;
                    assert(lifecycle::stop_names(c, node as int, all[q]));
                }
            }
            marks.push(hit);
            k = k + 1;
        }
        marks
    }

    /// Asks for a service or group to stop. What needs it stops too; a group stops with
    /// everything that it activates. With `force` each stop begins with a kill.
    pub fn stop_with_force(&mut self, target: &ServiceId, force: bool) -> (r: Result<
        Vec<RuntimeEffect>,
        RuntimeError,
    >)
        requires
            old(self)@.consistent(),
        ensures
            match r {
                Ok(effects) => {
                    let c = old(self)@.snapshot.catalog;
                    let stopped = lifecycle::stop(old(self)@, c.node(target@), force);
                    &&& c.contains(target@)
                    &&& final(self)@ == stopped.engine
                    &&& effect_models(effects@) == stopped.effects
                },
                Err(e) => {
                    &&& !old(self)@.snapshot.catalog.contains(target@)
                    &&& e@ == RuntimeErrorModel::UnknownTarget(target@)
                    &&& final(self)@ == old(self)@
                },
            },
            final(self)@.consistent(),
    {
        let ghost before = self@;
        let ghost c = self@.snapshot.catalog;
        let node = match self.snapshot.find_node(target) {
            Some(x) => x,
            None => return Err(RuntimeError::UnknownTarget(target.clone())),
        };
        proof {
            assert(c.contains(target@));
            catalog::catalog_distinct(c, node as int, c.node(target@));
        }
        let marks = self.stop_marks(node);
        let mut i: usize = 0;
        while i < self.services.len()
            invariant
                before.consistent(),
                c == before.snapshot.catalog,
                self@.snapshot == before.snapshot,
                self@.pending == before.pending,
                self.services@.len() == before.services.len(),
                marks@.len() == before.services.len(),
                forall|q: int|
                    0 <= q < marks@.len() ==> #[trigger] marks@[q] == lifecycle::stop_covers(
                        c,
                        node as int,
                        q,
                    ),
                i <= before.services.len(),
                forall|q: int|
                    0 <= q < i ==> (#[trigger] self.services@[q])@ == (
                    if lifecycle::stop_covers(c, node as int, q) {
                        lifecycle::dismissed(before.services[q], force)
                    } else {
                        before.services[q]
                    }),
                forall|q: int|
                    i <= q < self.services@.len() ==> (#[trigger] self.services@[q])@
                        == before.services[q],
            decreases before.services.len() - i,
        {
            if marks[i] {
                let r = &mut self.services[i];
                r.desired = DesiredState::Inactive;
                r.stop_signal = if force {
                    StopSignal::Kill
                } else {
                    StopSignal::Term
                };
                r.restart_blocked = false;
                r.waiting_restart = false;
                r.blocked_by = None;
            }
            i = i + 1;
        }
        proof {
            assert(self@.services =~= lifecycle::dismissed_all(
                c,
                before.services,
                node as int,
                force,
            ));
        }
        let mut effects = self.schedule_stops();
        if force {
            let ghost stopped = self@.services;
            let ghost base = effect_models(effects@);
            let definitions = self.definitions();
            let mut k: usize = 0;
            while k < self.services.len()
                invariant
                    self@.consistent(),
                    c == self@.snapshot.catalog,
                    stopped == self@.services,
                    definitions@.len() == c.services.len(),
                    forall|q: int|
                        0 <= q < definitions@.len() ==> c.services[q] == (
                        #[trigger] definitions@[q])@,
                    k <= c.services.len(),
                    effect_models(effects@) == lifecycle::with_kills(c, stopped, base, k as nat),
                decreases c.services.len() - k,
            {
                proof {
                    assert(stopped[k as int] == self.services@[k as int]@);
                    assert(c.services[k as int] == definitions@[k as int]@);
                }
                if self.services[k].observed == ObservedState::Stopping
                    && self.services[k].stop_signal == StopSignal::Kill && !holds_kill(
                    &effects,
                    &definitions[k].id,
                    self.services[k].generation,
                ) {
                    push_effect(
                        &mut effects,
                        RuntimeEffect::Terminate {
                            service: definitions[k].id.clone(),
                            generation: self.services[k].generation,
                            force: true,
                        },
                    );
                }
                k = k + 1;
            }
        }
        Ok(effects)
    }

    /// Asks for a service or group to stop.
    pub fn stop(&mut self, target: &ServiceId) -> (r: Result<Vec<RuntimeEffect>, RuntimeError>)
        requires
            old(self)@.consistent(),
        ensures
            match r {
                Ok(effects) => {
                    let c = old(self)@.snapshot.catalog;
                    let stopped = lifecycle::stop(old(self)@, c.node(target@), false);
                    &&& c.contains(target@)
                    &&& final(self)@ == stopped.engine
                    &&& effect_models(effects@) == stopped.effects
                },
                Err(e) => {
                    &&& !old(self)@.snapshot.catalog.contains(target@)
                    &&& e@ == RuntimeErrorModel::UnknownTarget(target@)
                    &&& final(self)@ == old(self)@
                },
            },
            final(self)@.consistent(),
    {
        self.stop_with_force(target, false)
    }

    /// Asks for everything to stop.
    pub fn stop_all(&mut self) -> (effects: Vec<RuntimeEffect>)
        requires
            old(self)@.consistent(),
        ensures
            final(self)@ == lifecycle::stop_all(old(self)@).engine,
            effect_models(effects@) == lifecycle::stop_all(old(self)@).effects,
            final(self)@.consistent(),
    {
        let ghost before = self@;
        let mut i: usize = 0;
        while i < self.services.len()
            invariant
                before.consistent(),
                self@.snapshot == before.snapshot,
                self@.pending == before.pending,
                self.services@.len() == before.services.len(),
                i <= before.services.len(),
                forall|q: int|
                    0 <= q < i ==> (#[trigger] self.services@[q])@ == (RuntimeModel {
                        desired: DesiredState::Inactive,
                        restart_blocked: false,
                        waiting_restart: false,
                        blocked_by: None,
                        ..before.services[q]
                    }),
                forall|q: int|
                    i <= q < self.services@.len() ==> (#[trigger] self.services@[q])@
                        == before.services[q],
            decreases before.services.len() - i,
        {
            let r = &mut self.services[i];
            r.desired = DesiredState::Inactive;
            r.restart_blocked = false;
            r.waiting_restart = false;
            r.blocked_by = None;
            i = i + 1;
        }
        proof {
            assert(self@.services =~= Seq::new(
                before.snapshot.catalog.services.len(),
                |i: int|
                    RuntimeModel {
                        desired: DesiredState::Inactive,
                        restart_blocked: false,
                        waiting_restart: false,
                        blocked_by: None,
                        ..before.services[i]
                    },
            ));
        }
        self.schedule_stops()
    }

    /// Asks for a complete stop and a fresh start of one service.
    pub fn restart(&mut self, service: &ServiceId, now_ms: u64) -> (r: Result<
        Vec<RuntimeEffect>,
        RuntimeError,
    >)
        requires
            old(self)@.consistent(),
        ensures
            match r {
                Ok(effects) => {
                    &&& lifecycle::position(old(self)@.snapshot.catalog, service@) matches Some(i)
                    &&& final(self)@ == lifecycle::restart(old(self)@, i, now_ms).engine
                    &&& effect_models(effects@) == lifecycle::restart(
                        old(self)@,
                        i,
                        now_ms,
                    ).effects
                },
                Err(e) => {
                    let c = old(self)@.snapshot.catalog;
                    &&& lifecycle::position(c, service@) is None
                    &&& e@ == (if catalog::group_ids(c.groups).contains(service@) {
                        RuntimeErrorModel::NotService(service@)
                    } else {
                        RuntimeErrorModel::UnknownTarget(service@)
                    })
                    &&& final(self)@ == old(self)@
                },
            },
            final(self)@.consistent(),
    {
        let ghost before = self@;
        let ghost c = self@.snapshot.catalog;
        let i = match self.find(service) {
            Some(i) => i,
            None => {
                let node = self.snapshot.find_node(service);
                proof {
                    let names = catalog::group_ids(c.groups);
                    match node {
                        Some(x) => {
                            if x < c.services.len() {
                                assert(c.services[x as int].id == service@);
                            }
                            assert(names[x - c.services.len()] == service@);
                        },
                        None => {
                            if names.contains(service@) {
                                let g = choose|g: int|
                                    0 <= g < names.len() && names[g] == service@;
                                assert(c.id(c.services.len() + g) == service@);
                            }
                        },
                    }
                }
                return if node.is_some() {
                    Err(RuntimeError::NotService(service.clone()))
                } else {
                    Err(RuntimeError::UnknownTarget(service.clone()))
                };
            },
        };
        proof {
            assert(before.services[i as int] == self.services@[i as int]@);
        }
        let r = &mut self.services[i];
        r.desired = DesiredState::Active;
        r.queued_at_ms = Some(now_ms);
        r.restart_blocked = false;
        r.blocked_by = None;
        if r.has_process {
            r.observed = ObservedState::Stopping;
            r.stop_result = StopResult::Restart;
            let generation = r.generation;
            let mut effects: Vec<RuntimeEffect> = Vec::new();
            let definitions = self.definitions();
            proof {
                assert(c.services[i as int] == definitions@[i as int]@);
                assert(effect_models(effects@) =~= Seq::empty());
            }
            push_stop(&mut effects, &definitions[i], generation, false);
            proof {
                assert(self@.services =~= lifecycle::restart(
                    before,
                    i as int,
                    now_ms,
                ).engine.services);
                assert(effect_models(effects@) =~= lifecycle::restart(
                    before,
                    i as int,
                    now_ms,
                ).effects);
            }
            Ok(effects)
        } else {
            r.observed = ObservedState::Inactive;
            proof {
                assert(self@.services =~= before.services.update(
                    i as int,
                    RuntimeModel {
                        observed: ObservedState::Inactive,
                        desired: DesiredState::Active,
                        queued_at_ms: Some(now_ms),
                        restart_blocked: false,
                        blocked_by: None,
                        ..before.services[i as int]
                    },
                ));
            }
            Ok(self.schedule(now_ms))
        }
    }

    /// Clears a terminal failure.
    pub fn reset_failed(&mut self, service: &ServiceId) -> (r: Result<(), RuntimeError>)
        requires
            old(self)@.consistent(),
        ensures
            match r {
                Ok(_) => {
                    &&& lifecycle::position(old(self)@.snapshot.catalog, service@) matches Some(i)
                    &&& final(self)@ == (EngineModel {
                        services: old(self)@.services.update(
                            i,
                            lifecycle::cleared(old(self)@.services[i]),
                        ),
                        ..old(self)@
                    })
                },
                Err(e) => {
                    &&& lifecycle::position(old(self)@.snapshot.catalog, service@) is None
                    &&& e@ == RuntimeErrorModel::UnknownTarget(service@)
                    &&& final(self)@ == old(self)@
                },
            },
            final(self)@.consistent(),
    {
        let ghost before = self@;
        match self.find(service) {
            None => Err(RuntimeError::UnknownTarget(service.clone())),
            Some(i) => {
                proof {
                    assert(before.services[i as int] == self.services@[i as int]@);
                }
                let r = &mut self.services[i];
                r.restart_blocked = false;
                r.blocked_by = None;
                if r.observed == ObservedState::Failed && !r.has_process {
                    r.observed = ObservedState::Inactive;
                }
                proof {
                    assert(self@.services =~= before.services.update(
                        i as int,
                        lifecycle::cleared(before.services[i as int]),
                    ));
                }
                Ok(())
            },
        }
    }
}

fn minus(a: u64, b: u64) -> (r: u64)
    ensures
        r == lifecycle::minus(a, b),
{
    if a >= b {
        a - b
    } else {
        0
    }
}

fn doubled(backoff_ms: u64, max_ms: u64) -> (r: u64)
    ensures
        r == lifecycle::doubled(backoff_ms, max_ms),
{
    let twice: u64 = match backoff_ms.checked_add(backoff_ms) {
        Some(sum) => sum,
        None => u64::MAX,
    };
    if twice < max_ms {
        twice
    } else {
        max_ms
    }
}

impl ServiceRuntime {
    /// Counts a restart, where the restart limit leaves room for one.
    fn register_restart(&mut self, s: &Supervision, at_ms: u64) -> (r: bool)
        ensures
            r == lifecycle::may_restart(old(self)@, *s, at_ms),
            ({
                let counted = lifecycle::windowed(old(self)@, *s, at_ms);
                final(self)@ == (if r {
                    RuntimeModel {
                        restart_history: counted.restart_history.push(at_ms),
                        ..counted
                    }
                } else {
                    counted
                })
            }),
    {
        if minus(at_ms, self.started_at_ms) >= s.restart_reset_ms {
            self.restart_history.clear();
            self.backoff_ms = lifecycle::INITIAL_RESTART_BACKOFF_MS;
        }
        let ghost aged = self@;
        proof {
            assert(aged.restart_history =~= lifecycle::aged(
                old(self)@,
                *s,
                at_ms,
            ).restart_history);
        }
        let window_start = minus(at_ms, s.restart_window_ms);
        while self.restart_history.len() > 0 && self.restart_history[0] < window_start
            invariant
                aged == lifecycle::aged(old(self)@, *s, at_ms),
                self@ == (RuntimeModel { restart_history: self.restart_history@, ..aged }),
                lifecycle::recent(aged.restart_history, window_start) == lifecycle::recent(
                    self.restart_history@,
                    window_start,
                ),
            decreases self.restart_history@.len(),
        {
            let ghost before = self.restart_history@;
            let _ = self.restart_history.pop_front();
            proof {
                assert(self.restart_history@ =~= before.drop_first());
            }
        }
        if self.restart_history.len() as u64 >= s.restart_limit as u64 {
            return false;
        }
        self.restart_history.push_back(at_ms);
        true
    }

    /// The process has ended unasked.
    fn end(
        &mut self,
        definition: &model::ServiceDefinition,
        outcome: ExitOutcome,
        at_ms: u64,
        effects: &mut Vec<RuntimeEffect>,
    )
        ensures
            final(self)@ == lifecycle::ended(
                old(self)@,
                definition@.supervision,
                outcome,
                at_ms,
            ),
            effect_models(final(effects)@) == effect_models(old(effects)@)
                + lifecycle::end_effects(definition@, old(self)@, outcome, at_ms),
    {
        let ghost before = self@;
        let ghost done = effect_models(effects@);
        let success = match outcome {
            ExitOutcome::Success => true,
            _ => false,
        };
        let failed = !success || self.observed == ObservedState::Starting;
        let should_restart = self.desired == DesiredState::Active
            && match definition.supervision.restart {
            RestartPolicy::No => false,
            RestartPolicy::OnFailure => failed,
            RestartPolicy::Always => true,
        };
        if should_restart && self.register_restart(&definition.supervision, at_ms) {
            self.observed = ObservedState::Starting;
            self.queued_at_ms = Some(at_ms);
            self.waiting_restart = true;
            push_effect(
                effects,
                RuntimeEffect::ArmTimer {
                    service: definition.id.clone(),
                    generation: self.generation,
                    kind: TimerKind::Restart,
                    after_ms: self.backoff_ms,
                },
            );
            self.backoff_ms = doubled(
                self.backoff_ms,
                definition.supervision.restart_backoff_max_ms,
            );
        } else {
            self.observed = if failed {
                ObservedState::Failed
            } else {
                ObservedState::Inactive
            };
            self.restart_blocked = true;
            self.waiting_restart = false;
        }
        proof {
            assert(effect_models(effects@) =~= done + lifecycle::end_effects(
                definition@,
                before,
                outcome,
                at_ms,
            ));
        }
    }

    fn current(&self, generation: u64) -> (r: bool)
        ensures
            r == lifecycle::current(self@, generation),
    {
        self.generation == generation && self.has_process
    }

    fn activate(&mut self, at_ms: u64)
        ensures
            final(self)@ == lifecycle::activated(old(self)@, at_ms),
    {
        self.observed = ObservedState::Active;
        self.ready_at_ms = Some(at_ms);
        self.blocked_by = None;
    }

    fn unready(
        &mut self,
        definition: &model::ServiceDefinition,
        effects: &mut Vec<RuntimeEffect>,
    )
        ensures
            final(self)@ == lifecycle::unready(definition@, old(self)@).service,
            effect_models(final(effects)@) == effect_models(old(effects)@) + lifecycle::unready(
                definition@,
                old(self)@,
            ).effects,
    {
        self.observed = ObservedState::Stopping;
        self.stop_result = StopResult::RestartFailure;
        push_stop(effects, definition, self.generation, false);
    }

    /// The process has ended.
    fn exited(
        &mut self,
        definition: &model::ServiceDefinition,
        outcome: ExitOutcome,
        at_ms: u64,
        effects: &mut Vec<RuntimeEffect>,
    )
        ensures
            final(self)@ == lifecycle::exited(definition@, old(self)@, outcome, at_ms).service,
            effect_models(final(effects)@) == effect_models(old(effects)@) + lifecycle::exited(
                definition@,
                old(self)@,
                outcome,
                at_ms,
            ).effects,
    {
        let ghost done = effect_models(effects@);
        proof {
            assert(done + Seq::empty() =~= done);
        }
        self.has_process = false;
        self.exited_at_ms = Some(at_ms);
        if self.observed == ObservedState::Stopping {
            let result = self.stop_result;
            self.stop_result = StopResult::Inactive;
            self.observed = if result == StopResult::Failed {
                ObservedState::Failed
            } else {
                ObservedState::Inactive
            };
            if result == StopResult::RestartFailure {
                self.end(definition, ExitOutcome::ExitCode(124), at_ms, effects);
            }
            return ;
        }
        let success = match outcome {
            ExitOutcome::Success => true,
            _ => false,
        };
        if definition.process.kind == ProcessType::Oneshot && self.observed
            == ObservedState::Starting && success {
            self.observed = ObservedState::Active;
            self.ready_at_ms = Some(at_ms);
            self.blocked_by = None;
            self.restart_history.clear();
            self.backoff_ms = lifecycle::INITIAL_RESTART_BACKOFF_MS;
            proof {
                assert(self@.restart_history =~= Seq::empty());
            }
            return ;
        }
        self.end(definition, outcome, at_ms, effects);
    }

    /// A timer has run out.
    fn timed_out(
        &mut self,
        definition: &model::ServiceDefinition,
        kind: TimerKind,
        effects: &mut Vec<RuntimeEffect>,
    )
        ensures
            final(self)@ == lifecycle::timed_out(definition@, old(self)@, kind).service,
            effect_models(final(effects)@) == effect_models(old(effects)@)
                + lifecycle::timed_out(definition@, old(self)@, kind).effects,
    {
        let ghost done = effect_models(effects@);
        let ghost before = self@;
        match kind {
            TimerKind::Start => {
                if self.observed == ObservedState::Starting && self.has_process {
                    self.unready(definition, effects);
                }
            },
            TimerKind::Stop => {
                if self.observed == ObservedState::Stopping {
                    push_effect(
                        effects,
                        RuntimeEffect::Terminate {
                            service: definition.id.clone(),
                            generation: self.generation,
                            force: true,
                        },
                    );
                }
            },
            TimerKind::Restart => {
                if self.waiting_restart {
                    self.waiting_restart = false;
                    self.observed = ObservedState::Inactive;
                }
            },
        }
        proof {
            assert(effect_models(effects@) =~= done + lifecycle::timed_out(
                definition@,
                before,
                kind,
            ).effects);
        }
    }

    /// What an event does to its service.
    fn react(
        &mut self,
        definition: &model::ServiceDefinition,
        event: &RuntimeEvent,
        effects: &mut Vec<RuntimeEffect>,
    )
        ensures
            final(self)@ == lifecycle::react(definition@, old(self)@, event@).service,
            effect_models(final(effects)@) == effect_models(old(effects)@) + lifecycle::react(
                definition@,
                old(self)@,
                event@,
            ).effects,
    {
        let ghost done = effect_models(effects@);
        proof {
            assert(done + Seq::empty() =~= done);
        }
        match event {
            RuntimeEvent::ExecSucceeded { generation, at_ms, .. } => {
                if self.current(*generation) && self.observed == ObservedState::Starting
                    && definition.process.readiness == Readiness::Exec {
                    self.activate(*at_ms);
                }
            },
            RuntimeEvent::Ready { generation, at_ms, .. } => {
                if self.current(*generation) && self.observed == ObservedState::Starting
                    && definition.process.readiness == Readiness::Notify {
                    self.activate(*at_ms);
                }
            },
            RuntimeEvent::SpawnFailed { generation, at_ms, .. } => {
                if self.current(*generation) {
                    self.has_process = false;
                    self.exited_at_ms = Some(*at_ms);
                    self.end(definition, ExitOutcome::ExitCode(127), *at_ms, effects);
                }
            },
            RuntimeEvent::ReadinessFailed { generation, .. } => {
                if self.current(*generation) && self.observed == ObservedState::Starting {
                    self.unready(definition, effects);
                }
            },
            RuntimeEvent::Exited { generation, outcome, at_ms, .. } => {
                if self.current(*generation) {
                    self.exited(definition, *outcome, *at_ms, effects);
                }
            },
            RuntimeEvent::Timer { generation, kind, .. } => {
                if self.generation == *generation {
                    self.timed_out(definition, *kind, effects);
                }
            },
        }
    }
}

impl RuntimeEvent {
    /// The service that the event belongs to.
    pub fn service(&self) -> (r: &ServiceId)
        ensures
            r@ == self@.service(),
    {
        match self {
            RuntimeEvent::ExecSucceeded { service, .. } => service,
            RuntimeEvent::Ready { service, .. } => service,
            RuntimeEvent::SpawnFailed { service, .. } => service,
            RuntimeEvent::ReadinessFailed { service, .. } => service,
            RuntimeEvent::Exited { service, .. } => service,
            RuntimeEvent::Timer { service, .. } => service,
        }
    }

    /// The attempt that the event belongs to.
    pub fn generation(&self) -> (r: u64)
        ensures
            r == self@.generation(),
    {
        match self {
            RuntimeEvent::ExecSucceeded { generation, .. } => *generation,
            RuntimeEvent::Ready { generation, .. } => *generation,
            RuntimeEvent::SpawnFailed { generation, .. } => *generation,
            RuntimeEvent::ReadinessFailed { generation, .. } => *generation,
            RuntimeEvent::Exited { generation, .. } => *generation,
            RuntimeEvent::Timer { generation, .. } => *generation,
        }
    }

    /// When it happened.
    pub fn at_ms(&self) -> (r: u64)
        ensures
            r == self@.at_ms(),
    {
        match self {
            RuntimeEvent::ExecSucceeded { at_ms, .. } => *at_ms,
            RuntimeEvent::Ready { at_ms, .. } => *at_ms,
            RuntimeEvent::SpawnFailed { at_ms, .. } => *at_ms,
            RuntimeEvent::ReadinessFailed { at_ms, .. } => *at_ms,
            RuntimeEvent::Exited { at_ms, .. } => *at_ms,
            RuntimeEvent::Timer { at_ms, .. } => *at_ms,
        }
    }
}

impl RuntimeEngine {
    /// Whether an event belongs to the attempt that its service is in.
    fn is_current(&self, event: &RuntimeEvent) -> (r: bool)
        requires
            self@.consistent(),
        ensures
            r == lifecycle::is_current(self@, event@),
    {
        match self.find(event.service()) {
            None => false,
            Some(i) => {
                proof {
                    assert(self@.services[i as int] == self.services@[i as int]@);
                }
                let timer = match event {
                    RuntimeEvent::Timer { .. } => true,
                    _ => false,
                };
                self.services[i].generation == event.generation() && (timer
                    || self.services[i].has_process)
            },
        }
    }

    /// Handles an event; one that does not belong to the attempt that its service is in is
    /// discarded. A process can only have started or ended for a service of the
    /// configuration.
    pub fn handle(&mut self, event: RuntimeEvent) -> (effects: Vec<RuntimeEffect>)
        requires
            old(self)@.consistent(),
            event is ExecSucceeded || event is Exited ==> lifecycle::position(
                old(self)@.snapshot.catalog,
                event@.service(),
            ) is Some,
        ensures
            final(self)@ == lifecycle::handle(old(self)@, event@).engine,
            effect_models(effects@) == lifecycle::handle(old(self)@, event@).effects,
            final(self)@.consistent(),
    {
        let ghost before = self@;
        let ghost c = self@.snapshot.catalog;
        let now_ms = event.at_ms();
        let mut effects: Vec<RuntimeEffect> = Vec::new();
        proof {
            assert(effect_models(effects@) =~= Seq::empty());
        }
        if !self.is_current(&event) {
            return effects;
        }
        if let Some(i) = self.find(event.service()) {
            proof {
                assert(before.services[i as int] == self.services@[i as int]@);
            }
            let snapshot = &self.snapshot;
            let definitions = snapshot.services();
            proof {
                assert(definitions@.len() == catalog::service_models(definitions@).len());
                assert(c.services[i as int] == definitions@[i as int]@);
            }
            self.services[i].react(&definitions[i], &event, &mut effects);
            proof {
                assert(self@.services =~= lifecycle::reacted(before, event@).services);
            }
        }
        let ghost first = lifecycle::reacted(before, event@);
        proof {
            assert(effect_models(effects@) =~= first.effects);
            assert(self@ == (EngineModel { services: first.services, ..before }));
        }
        let lost = self.propagate();
        let settled = self.settle(now_ms);
        let advanced = self.advance(now_ms);
        let ghost base = effect_models(effects@);
        append_effects(&mut effects, lost);
        append_effects(&mut effects, settled);
        append_effects(&mut effects, advanced);
        proof {
            assert(effect_models(effects@) =~= base + (effect_models(lost@) + effect_models(
                settled@,
            ) + effect_models(advanced@)));
        }
        effects
    }
}

/// What a new configuration does to the services.
#[derive(Debug, PartialEq, Eq)]
pub struct ApplyPlan {
    pub start: Vec<String>,
    pub stop: Vec<String>,
    pub restart: Vec<String>,
    pub update: Vec<String>,
    pub remove: Vec<String>,
}

impl View for ApplyPlan {
    type V = PlanModel;

    open spec fn view(&self) -> PlanModel {
        PlanModel {
            start: text::texts(self.start@),
            stop: text::texts(self.stop@),
            restart: text::texts(self.restart@),
            update: text::texts(self.update@),
            remove: text::texts(self.remove@),
        }
    }
}

impl Default for ApplyPlan {
    fn default() -> (r: ApplyPlan)
        ensures
            r.start@.len() == 0,
            r.stop@.len() == 0,
            r.restart@.len() == 0,
            r.update@.len() == 0,
            r.remove@.len() == 0,
    {
        ApplyPlan {
            start: Vec::new(),
            stop: Vec::new(),
            restart: Vec::new(),
            update: Vec::new(),
            remove: Vec::new(),
        }
    }
}

fn push_name(list: &mut Vec<String>, id: &ServiceId)
    ensures
        text::texts(final(list)@) == text::texts(old(list)@).push(id@),
{
    let ghost before = list@;
    list.push(id.to_text());
    proof {
        assert(text::texts(list@) =~= text::texts(before).push(id@));
    }
}

/// The services of two configurations, each once, in ascending order of the names.
fn merged_ids(a: &Vec<model::ServiceDefinition>, b: &Vec<model::ServiceDefinition>) -> (r: Vec<
    ServiceId,
>)
    ensures
        model::id_texts(r@) == lifecycle::merged(
            catalog::service_ids(catalog::service_models(a@)),
            catalog::service_ids(catalog::service_models(b@)),
        ),
{
    let ghost left = catalog::service_ids(catalog::service_models(a@));
    let ghost right = catalog::service_ids(catalog::service_models(b@));
    let mut r: Vec<ServiceId> = Vec::new();
    let mut i: usize = 0;
    let mut j: usize = 0;
    proof {
        assert(left.skip(0) =~= left);
        assert(right.skip(0) =~= right);
        assert(model::id_texts(r@) + lifecycle::merged(left, right) =~= lifecycle::merged(
            left,
            right,
        ));
    }
    while i < a.len() || j < b.len()
        invariant
            left == catalog::service_ids(catalog::service_models(a@)),
            right == catalog::service_ids(catalog::service_models(b@)),
            i <= a@.len(),
            j <= b@.len(),
            lifecycle::merged(left, right) == model::id_texts(r@) + lifecycle::merged(
                left.skip(i as int),
                right.skip(j as int),
            ),
        decreases a@.len() - i + b@.len() - j,
    {
        let ghost la = left.skip(i as int);
        let ghost lb = right.skip(j as int);
        let ghost before = model::id_texts(r@);
        let ghost taken = r@;
        proof {
            if i < a@.len() {
                assert(la[0] == a@[i as int].id@);
                assert(la.drop_first() =~= left.skip(i + 1));
            }
            if j < b@.len() {
                assert(lb[0] == b@[j as int].id@);
                assert(lb.drop_first() =~= right.skip(j + 1));
            }
        }
        if j >= b.len() {
            r.push(a[i].id.clone());
            proof {
                assert(lifecycle::merged(la.drop_first(), lb) =~= la.drop_first());
                assert(la =~= seq![la[0]] + la.drop_first());
            }
            i = i + 1;
        } else if i >= a.len() {
            r.push(b[j].id.clone());
            proof {
                assert(lb =~= seq![lb[0]] + lb.drop_first());
            }
            j = j + 1;
        } else if a[i].id.same(&b[j].id) {
            r.push(a[i].id.clone());
            i = i + 1;
            j = j + 1;
        } else if a[i].id.precedes(&b[j].id) {
            r.push(a[i].id.clone());
            i = i + 1;
        } else {
            r.push(b[j].id.clone());
            j = j + 1;
        }
        proof {
            let head = r@[taken.len() as int]@;
            let rest = lifecycle::merged(left.skip(i as int), right.skip(j as int));
            assert(lifecycle::merged(la, lb) =~= seq![head] + rest);
            assert(model::id_texts(r@) =~= before.push(head));
            assert(before + (seq![head] + rest) =~= before.push(head) + rest);
        }
    }
    proof {
        assert(lifecycle::merged(left.skip(i as int), right.skip(j as int)) =~= Seq::empty());
        assert(model::id_texts(r@) + Seq::<Seq<char>>::empty() =~= model::id_texts(r@));
    }
    r
}

impl RuntimeEngine {
    /// The plan that applying a configuration would carry out.
    pub fn plan_snapshot(&self, snapshot: &ConfigSnapshot) -> (plan: ApplyPlan)
        requires
            self@.consistent(),
        ensures
            plan@ == lifecycle::plan(self@, snapshot@),
    {
        let ghost e = self@;
        let ghost new = snapshot@;
        let definitions = self.definitions();
        let others = snapshot.services();
        let affected = self.affected(snapshot);
        let ids = merged_ids(definitions, others);
        let ghost all = lifecycle::planned_ids(e, new);
        let ghost root = new.catalog.node(new.default_group);
        proof {
            assert(others@.len() == catalog::service_models(others@).len());
        }
        let root_node = match snapshot.find_node(snapshot.default_group()) {
            Some(x) => {
                proof {
                    assert(new.catalog.contains(new.default_group));
                    catalog::catalog_distinct(new.catalog, x as int, root);
                }
                x
            },
            None => {
                proof {
                    let names = catalog::group_ids(new.catalog.groups);
                    let g = choose|g: int| 0 <= g < names.len() && names[g] == new.default_group;
                    assert(new.catalog.id(new.catalog.services.len() + g) == new.default_group);
                }
                0
            },
        };
        let active = snapshot.activated(root_node);
        let ghost members = catalog::activated_services(new.catalog, root);
        let mut plan = ApplyPlan::default();
        let mut k: usize = 0;
        proof {
            assert(plan@ =~= lifecycle::plan_of(e, new, 0));
        }
        while k < ids.len()
            invariant
                e == self@,
                new == snapshot@,
                e.consistent(),
                new.valid(),
                root == new.catalog.node(new.default_group),
                members == catalog::activated_services(new.catalog, root),
                members == graph::ints(active@),
                definitions@.len() == e.services.len(),
                e.snapshot.catalog.services == catalog::service_models(definitions@),
                new.catalog.services == catalog::service_models(others@),
                others@.len() == new.catalog.services.len(),
                affected@ == lifecycle::affected(e.snapshot, new),
                all == lifecycle::planned_ids(e, new),
                all == model::id_texts(ids@),
                k <= ids@.len(),
                plan@ == lifecycle::plan_of(e, new, k as nat),
            decreases ids@.len() - k,
        {
            let id = &ids[k];
            proof {
                assert(all[k as int] == id@);
            }
            let mine = self.find(id);
            let theirs = find_in(snapshot, id);
            let running = match mine {
                Some(i) => {
                    proof {
                        assert(e.services[i as int] == self.services@[i as int]@);
                    }
                    !self.services[i].at_rest()
                },
                None => false,
            };
            let hit = match mine {
                Some(i) => affected[i],
                None => false,
            };
            let enabled = match theirs {
                Some(m) => {
                    let found = contains_index(active, m);
                    proof {
                        let holds = |j: int| new.catalog.activates(root, j);
                        graph::selected_law(holds, new.catalog.services.len());
                        if found {
                            let p = choose|p: int| 0 <= p < members.len() && members[p] == m;
                            assert(holds(members[p]));
                        }
                        if new.catalog.activates(root, m as int) {
                            assert(holds(m as int));
                            assert(members.contains(m as int));
                        }
                    }
                    found
                },
                None => false,
            };
            let stop = running && (!enabled || hit);
            let start = enabled && (!running || hit);
            let update = match theirs {
                None => false,
                Some(m) => match mine {
                    None => true,
                    Some(i) => {
                        proof {
                            assert(e.snapshot.catalog.services[i as int]
                                == definitions@[i as int]@);
                            assert(new.catalog.services[m as int] == others@[m as int]@);
                        }
                        !definitions[i].same(&others[m])
                    },
                },
            };
            proof {
                assert(running == lifecycle::running(e, id@));
                assert(enabled == lifecycle::enabled(new, id@));
                assert(hit == lifecycle::is_affected(e, new, id@));
                assert(update == lifecycle::plans_update(e, new, id@));
            }
            if stop && start {
                push_name(&mut plan.restart, id);
            } else if stop {
                push_name(&mut plan.stop, id);
            } else if start {
                push_name(&mut plan.start, id);
            }
            if theirs.is_none() {
                push_name(&mut plan.remove, id);
            } else if update {
                push_name(&mut plan.update, id);
            }
            proof {
                let next = lifecycle::plan_of(e, new, k as nat + 1);
                assert(plan@.start == next.start);
                assert(plan@.stop == next.stop);
                assert(plan@.restart == next.restart);
                assert(plan@.update == next.update);
                assert(plan@.remove == next.remove);
            }
            k = k + 1;
        }
        plan
    }
}

fn contains_index(list: &Vec<usize>, x: usize) -> (r: bool)
    ensures
        r == graph::ints(list@).contains(x as int),
{
    let ghost all = graph::ints(list@);
    let mut i: usize = 0;
    while i < list.len()
        invariant
            all == graph::ints(list@),
            i <= list@.len(),
            forall|q: int| 0 <= q < i ==> #[trigger] all[q] != x,
        decreases list@.len() - i,
    {
        proof {
            assert(all[i as int] == list@[i as int]);
        }
        if list[i] == x {
            proof {
                assert(all.contains(x as int));
            }
            return true;
        }
        i = i + 1;
    }
    false
}

/// Walks as integers.
spec fn walks(queue: Seq<Vec<usize>>) -> Seq<Seq<int>> {
    Seq::new(queue.len(), |q: int| graph::ints(queue[q]@))
}

impl RuntimeEngine {
    /// The names on the way from the default group to a required service that should run
    /// and has failed for good.
    pub fn boot_failure(&self) -> (r: Option<String>)
        requires
            self@.consistent(),
        ensures
            text::optional_text(r) == lifecycle::boot_failure(self@),
    {
        let ghost e = self@;
        let ghost c = self@.snapshot.catalog;
        let ghost root = c.node(e.snapshot.default_group);
        let start = match self.snapshot.find_node(self.snapshot.default_group()) {
            Some(x) => {
                proof {
                    assert(c.contains(e.snapshot.default_group));
                    catalog::catalog_distinct(c, x as int, root);
                }
                x
            },
            None => {
                proof {
                    let names = catalog::group_ids(c.groups);
                    let g = choose|g: int|
                        0 <= g < names.len() && names[g] == e.snapshot.default_group;
                    assert(c.id(c.services.len() + g) == e.snapshot.default_group);
                }
                0
            },
        };
        let count = self.snapshot.node_count();
        let mut marks: Vec<bool> = Vec::new();
        let mut i: usize = 0;
        while i < count
            invariant
                i <= count,
                marks@.len() == i,
                forall|q: int| 0 <= q < i ==> !marks@[q],
            decreases count - i,
        {
            marks.push(false);
            i = i + 1;
        }
        let mut first: Vec<usize> = Vec::new();
        first.push(start);
        let mut queue: VecDeque<Vec<usize>> = VecDeque::new();
        queue.push_back(first);
        proof {
            assert(marks@ =~= Seq::new(c.len(), |x: int| false));
            assert(graph::ints(first@) =~= seq![root]);
            assert(walks(queue@) =~= seq![seq![root]]);
        }
        while queue.len() > 0
            invariant
                e == self@,
                c == e.snapshot.catalog,
                e.consistent(),
                marks@.len() == c.len(),
                forall|q: int|
                    #![trigger queue@[q]]
                    0 <= q < queue@.len() ==> queue@[q]@.len() > 0 && forall|m: int|
                        0 <= m < queue@[q]@.len() ==> #[trigger] queue@[q]@[m] < c.len(),
                lifecycle::boot_walk(e) == lifecycle::boot_search(e, walks(queue@), marks@),
            decreases graph::unmarked(marks@), queue@.len(),
        {
            let ghost before = queue@;
            let ghost all = walks(queue@);
            let path = match queue.pop_front() {
                Some(path) => path,
                None => Vec::new(),
            };
            proof {
                assert(path == before[0]);
                assert(before[0]@.len() > 0);
                assert(all[0] == graph::ints(path@));
                assert forall|q: int| 0 <= q < queue@.len() implies #[trigger] queue@[q]
                    == before[q + 1] by {}
                assert(walks(queue@) =~= all.drop_first());
            }
            let x = path[path.len() - 1];
            proof {
                assert(before[0]@[path@.len() - 1] < c.len());
                assert(graph::ints(path@).last() == x as int);
                assert(x < c.len());
            }
            if !marks[x] {
                if x < self.services.len() {
                    proof {
                        assert(e.services[x as int] == self.services@[x as int]@);
                    }
                    if self.services[x].desired == DesiredState::Active && self.terminal(x) {
                        let names = self.snapshot.node_names(&path);
                        return Some(text::join_strings(&names, " -> "));
                    }
                }
                proof {
                    graph::unmarked_update(marks@, x as int);
                }
                marks.set(x, true);
                let required = &self.snapshot.node_dependencies(x).requires;
                let ghost ids = c.dependencies(x as int).requires;
                let ghost rest = walks(queue@);
                let ghost more = lifecycle::extended(c, graph::ints(path@));
                let mut k: usize = 0;
                proof {
                    assert(catalog::all_present(c, c.dependencies(x as int).requires));
                    assert(rest + more.take(0) =~= rest);
                }
                while k < required.len()
                    invariant
                        e == self@,
                        c == e.snapshot.catalog,
                        e.consistent(),
                        x < c.len(),
                        ids == c.dependencies(x as int).requires,
                        ids == model::id_texts(required@),
                        catalog::all_present(c, ids),
                        graph::ints(path@).last() == x as int,
                        path@.len() > 0,
                        forall|m: int| 0 <= m < path@.len() ==> #[trigger] path@[m] < c.len(),
                        more == lifecycle::extended(c, graph::ints(path@)),
                        k <= required@.len(),
                        forall|q: int|
                            #![trigger queue@[q]]
                            0 <= q < queue@.len() ==> queue@[q]@.len() > 0 && forall|m: int|
                                0 <= m < queue@[q]@.len() ==> #[trigger] queue@[q]@[m] < c.len(),
                        walks(queue@) == rest + more.take(k as int),
                    decreases required@.len() - k,
                {
                    proof {
                        assert(ids[k as int] == required@[k as int]@);
                        assert(c.contains(ids[k as int]));
                    }
                    if let Some(y) = self.snapshot.find_node(&required[k]) {
                        let mut longer: Vec<usize> = Vec::new();
                        let mut m: usize = 0;
                        while m < path.len()
                            invariant
                                m <= path@.len(),
                                longer@ == path@.take(m as int),
                            decreases path@.len() - m,
                        {
                            longer.push(path[m]);
                            proof {
                                assert(path@.take(m + 1) =~= path@.take(m as int).push(
                                    path@[m as int],
                                ));
                            }
                            m = m + 1;
                        }
                        longer.push(y);
                        let ghost earlier = queue@;
                        let ghost step = longer@;
                        proof {
                            catalog::catalog_distinct(c, y as int, c.node(ids[k as int]));
                            assert(path@.take(path@.len() as int) =~= path@);
                            assert(graph::ints(step) =~= graph::ints(path@).push(y as int));
                            assert(more[k as int] == graph::ints(step));
                        }
                        queue.push_back(longer);
                        proof {
                            assert(queue@ =~= earlier.push(longer));
                            assert(walks(queue@) =~= walks(earlier).push(graph::ints(step)));
                            assert(more.take(k + 1) =~= more.take(k as int).push(more[k as int]));
                            assert(rest + more.take(k + 1) =~= (rest + more.take(k as int)).push(
                                more[k as int],
                            ));
                            assert forall|q: int|
                                #![trigger queue@[q]]
                                0 <= q < queue@.len() implies queue@[q]@.len() > 0 && forall|
                                m: int,
                            |
                                0 <= m < queue@[q]@.len() ==> #[trigger] queue@[q]@[m]
                                    < c.len() by {
                                if q < earlier.len() {
                                    assert(queue@[q] == earlier[q]);
                                } else {
                                    assert(queue@[q]@ == step);
                                }
                            }
                        }
                    }
                    k = k + 1;
                }
                proof {
                    assert(more.take(more.len() as int) =~= more);
                }
            }
        }
        None
    }
}

} // verus!
