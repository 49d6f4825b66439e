//! The life of services as a state machine: states, events, effects, and the steps
//! between them.

use vstd::prelude::*;

use crate::catalog;
use crate::catalog::CatalogModel;
use crate::config::SnapshotModel;
use crate::graph;
use crate::model::{ProcessType, Readiness, RestartPolicy, ServiceModel, Supervision};
use crate::runtime::{
    DesiredState, ExitOutcome, ObservedState, StopResult, StopSignal, TimerKind,
};
use crate::text;

verus! {

/// The pause before the first restart, in milliseconds.
pub const INITIAL_RESTART_BACKOFF_MS: u64 = 100;

/// The state of one service.
#[verifier::ext_equal]
pub struct RuntimeModel {
    pub desired: DesiredState,
    pub observed: ObservedState,
    pub generation: u64,
    pub has_process: bool,
    pub stop_signal: StopSignal,
    pub waiting_restart: bool,
    pub restart_blocked: bool,
    pub blocked_by: Option<Seq<char>>,
    pub stop_result: StopResult,
    pub queued_at_ms: Option<u64>,
    pub started_at_ms: u64,
    pub ready_at_ms: Option<u64>,
    pub exited_at_ms: Option<u64>,
    pub restart_history: Seq<u64>,
    pub backoff_ms: u64,
}

/// What is shown of a service.
#[verifier::ext_equal]
pub struct StatusModel {
    pub desired: DesiredState,
    pub observed: ObservedState,
    pub generation: u64,
    pub blocked_by: Option<Seq<char>>,
    pub queued_at_ms: Option<u64>,
    pub started_at_ms: Option<u64>,
    pub ready_at_ms: Option<u64>,
    pub exited_at_ms: Option<u64>,
}

/// What happened to a service.
#[verifier::ext_equal]
pub enum EventModel {
    ExecSucceeded { service: Seq<char>, generation: u64, at_ms: u64 },
    Ready { service: Seq<char>, generation: u64, at_ms: u64 },
    SpawnFailed { service: Seq<char>, generation: u64, at_ms: u64 },
    ReadinessFailed { service: Seq<char>, generation: u64, at_ms: u64 },
    Exited { service: Seq<char>, generation: u64, outcome: ExitOutcome, at_ms: u64 },
    Timer { service: Seq<char>, generation: u64, kind: TimerKind, at_ms: u64 },
}

/// What is to be done about a service.
#[verifier::ext_equal]
pub enum EffectModel {
    Spawn { service: Seq<char>, generation: u64 },
    Terminate { service: Seq<char>, generation: u64, force: bool },
    ArmTimer { service: Seq<char>, generation: u64, kind: TimerKind, after_ms: u64 },
}

/// A configuration that waits until the services it changes have stopped.
#[verifier::ext_equal]
pub struct PendingModel {
    pub snapshot: SnapshotModel,
    pub affected: Seq<bool>,
}

/// The state of the engine: the configuration, one state for each of its services,
/// and a configuration that waits.
#[verifier::ext_equal]
pub struct EngineModel {
    pub snapshot: SnapshotModel,
    pub services: Seq<RuntimeModel>,
    pub pending: Option<PendingModel>,
}

/// The services that a new configuration starts, stops, restarts, redefines and
/// removes.
#[verifier::ext_equal]
pub struct PlanModel {
    pub start: Seq<Seq<char>>,
    pub stop: Seq<Seq<char>>,
    pub restart: Seq<Seq<char>>,
    pub update: Seq<Seq<char>>,
    pub remove: Seq<Seq<char>>,
}

/// The state of a service that was never started.
pub open spec fn fresh() -> RuntimeModel {
    RuntimeModel {
        desired: DesiredState::Inactive,
        observed: ObservedState::Inactive,
        generation: 0,
        has_process: false,
        stop_signal: StopSignal::Term,
        waiting_restart: false,
        restart_blocked: false,
        blocked_by: None,
        stop_result: StopResult::Inactive,
        queued_at_ms: None,
        started_at_ms: 0,
        ready_at_ms: None,
        exited_at_ms: None,
        restart_history: Seq::empty(),
        backoff_ms: INITIAL_RESTART_BACKOFF_MS,
    }
}

impl RuntimeModel {
    /// What is shown of the service; it has started once it has had an attempt.
    pub open spec fn status(self) -> StatusModel {
        StatusModel {
            desired: self.desired,
            observed: self.observed,
            generation: self.generation,
            blocked_by: self.blocked_by,
            queued_at_ms: self.queued_at_ms,
            started_at_ms: if self.generation > 0 {
                Some(self.started_at_ms)
            } else {
                None
            },
            ready_at_ms: self.ready_at_ms,
            exited_at_ms: self.exited_at_ms,
        }
    }

    /// Whether the service neither runs nor is on its way to or from it.
    pub open spec fn at_rest(self) -> bool {
        self.observed == ObservedState::Inactive || self.observed == ObservedState::Failed
    }

    /// Whether the end of the service takes time: it has a process, or is on its way to
    /// stop.
    pub open spec fn lingers(self) -> bool {
        self.has_process || self.observed == ObservedState::Stopping
    }

    /// Whether the service is there for those that need it: it is active, and is not to be
    /// stopped for want of something that it needs itself.
    pub open spec fn serves(self) -> bool {
        self.observed == ObservedState::Active && self.blocked_by is None
    }

    /// Whether the service has come to an end by itself and is not started again: it has
    /// failed, or has exited for good.
    pub open spec fn over(self) -> bool {
        ||| self.observed == ObservedState::Failed && self.blocked_by is None
        ||| self.observed == ObservedState::Inactive && self.restart_blocked
    }

    /// Whether the service has done its work: it is active and needs no process, has failed,
    /// or has exited for good.
    pub open spec fn through(self) -> bool {
        ||| self.observed == ObservedState::Active && !self.has_process
        ||| self.observed == ObservedState::Failed
        ||| self.over()
    }

    /// Whether the service is starting with a process.
    pub open spec fn launching(self) -> bool {
        self.observed == ObservedState::Starting && self.has_process
    }
}

/// The position of the service that has a name.
pub open spec fn position(c: CatalogModel, id: Seq<char>) -> Option<int> {
    if exists|i: int| 0 <= i < c.services.len() && (#[trigger] c.services[i]).id == id {
        Some(choose|i: int| 0 <= i < c.services.len() && (#[trigger] c.services[i]).id == id)
    } else {
        None
    }
}

/// In an ordered catalog a service is at the position of its name.
pub proof fn position_unique(c: CatalogModel, i: int)
    requires
        c.ordered(),
        0 <= i < c.services.len(),
    ensures
        position(c, c.services[i].id) == Some(i),
{
    let id = c.services[i].id;
    let j = choose|j: int| 0 <= j < c.services.len() && (#[trigger] c.services[j]).id == id;
    assert(catalog::service_ids(c.services)[i] == id);
    assert(catalog::service_ids(c.services)[j] == id);
    catalog::ascending_distinct(catalog::service_ids(c.services), i, j);
}

/// The first service among the first `n` that service `i` needs and that is in the
/// given condition.
pub open spec fn first_need(c: CatalogModel, i: int, bad: spec_fn(int) -> bool, n: nat) -> Option<
    int,
>
    decreases n,
{
    if n == 0 {
        None
    } else {
        match first_need(c, i, bad, (n - 1) as nat) {
            Some(j) => Some(j),
            None => if c.needs(i, n - 1) && bad(n - 1) {
                Some(n - 1)
            } else {
                None
            },
        }
    }
}

/// The first service that service `i` needs and that has failed.
pub open spec fn failed_need(c: CatalogModel, st: Seq<RuntimeModel>, i: int) -> Option<int> {
    first_need(c, i, |j: int| st[j].observed == ObservedState::Failed, c.services.len())
}

/// The first service that service `i` needs and that is not there for it.
pub open spec fn unmet_need(c: CatalogModel, st: Seq<RuntimeModel>, i: int) -> Option<int> {
    first_need(c, i, |j: int| !st[j].serves(), c.services.len())
}

/// Whether service `i` has failed for good: it has come to an end itself, or has failed for
/// want of a service that has.
pub open spec fn terminal(c: CatalogModel, st: Seq<RuntimeModel>, i: int) -> bool {
    st[i].over() || (st[i].observed == ObservedState::Failed && exists|j: int|
        0 <= j < c.services.len() && #[trigger] c.needs(i, j) && st[j].over())
}

/// Whether nobody waits any longer for service `i` to come up: it is active, has failed for
/// good, or should not run.
pub open spec fn arrived(c: CatalogModel, st: Seq<RuntimeModel>, i: int) -> bool {
    st[i].desired == DesiredState::Inactive || st[i].observed == ObservedState::Active
        || terminal(c, st, i)
}

/// Whether everything that service `i` waits for has arrived.
pub open spec fn awaited_arrived(c: CatalogModel, st: Seq<RuntimeModel>, i: int) -> bool {
    forall|j: int| 0 <= j < c.services.len() && #[trigger] c.awaits(i, j) ==> arrived(c, st, j)
}

/// Whether no other service runs that service `i` conflicts with, in either
/// direction.
pub open spec fn conflicts_clear(c: CatalogModel, st: Seq<RuntimeModel>, i: int) -> bool {
    forall|j: int|
        0 <= j < c.services.len() && j != i && !(#[trigger] st[j]).at_rest() ==> !conflicting(
            c,
            i,
            j,
        )
}

/// Whether one of two services names the other as a conflict.
pub open spec fn conflicting(c: CatalogModel, i: int, j: int) -> bool {
    c.services[i].dependencies.conflicts.contains(c.services[j].id)
        || c.services[j].dependencies.conflicts.contains(c.services[i].id)
}

/// Whether a service no longer holds up those that are ordered after it.
pub open spec fn settled(r: RuntimeModel) -> bool {
    r.desired == DesiredState::Inactive || r.observed == ObservedState::Active || r.observed
        == ObservedState::Failed
}

/// Whether everything that service `i` is ordered after has settled.
pub open spec fn ordering_ready(c: CatalogModel, st: Seq<RuntimeModel>, i: int) -> bool {
    forall|k: int, j: int|
        0 <= k < c.services[i].dependencies.after.len() && 0 <= j < c.services.len()
            && #[trigger] c.activates(c.node(c.services[i].dependencies.after[k]), j) ==> settled(
            st[j],
        )
}

/// The number of the next attempt; zero is not used.
pub open spec fn next_generation(generation: u64) -> u64 {
    if generation == u64::MAX {
        1
    } else {
        (generation + 1) as u64
    }
}

/// The service with a new attempt.
pub open spec fn launched(r: RuntimeModel, now_ms: u64) -> RuntimeModel {
    RuntimeModel {
        generation: next_generation(r.generation),
        observed: ObservedState::Starting,
        has_process: true,
        started_at_ms: now_ms,
        ready_at_ms: None,
        exited_at_ms: None,
        blocked_by: None,
        ..r
    }
}

/// The effects of a new attempt: the process, and the start timeout unless it is
/// switched off.
pub open spec fn launch_effects(service: ServiceModel, generation: u64) -> Seq<EffectModel> {
    let spawn = EffectModel::Spawn { service: service.id, generation };
    if service.supervision.start_timeout_ms > 0 {
        seq![
            spawn,
            EffectModel::ArmTimer {
                service: service.id,
                generation,
                kind: TimerKind::Start,
                after_ms: service.supervision.start_timeout_ms,
            },
        ]
    } else {
        seq![spawn]
    }
}

/// The effects of a stop: the signal, and the stop timeout unless the signal is
/// final or the timeout is switched off.
pub open spec fn stop_effects(
    service: ServiceModel,
    generation: u64,
    force: bool,
) -> Seq<EffectModel> {
    let terminate = EffectModel::Terminate { service: service.id, generation, force };
    if !force && service.supervision.stop_timeout_ms > 0 {
        seq![
            terminate,
            EffectModel::ArmTimer {
                service: service.id,
                generation,
                kind: TimerKind::Stop,
                after_ms: service.supervision.stop_timeout_ms,
            },
        ]
    } else {
        seq![terminate]
    }
}

/// What scheduling makes of a service.
pub enum Decision {
    Skip,
    Block(int),
    Launch,
}

/// A service that should run and is at rest is started once nothing conflicts,
/// everything it needs is active, every member of a group that it needs has come up or has
/// failed for good, and everything before it has settled; it fails where something it
/// needs has failed.
pub open spec fn decision(c: CatalogModel, st: Seq<RuntimeModel>, i: int) -> Decision {
    let r = st[i];
    if r.desired != DesiredState::Active || r.observed != ObservedState::Inactive
        || r.restart_blocked || r.waiting_restart || !conflicts_clear(c, st, i) {
        Decision::Skip
    } else {
        match failed_need(c, st, i) {
            Some(j) => Decision::Block(j),
            None => if unmet_need(c, st, i) is Some || !awaited_arrived(c, st, i)
                || !ordering_ready(c, st, i) {
                Decision::Skip
            } else {
                Decision::Launch
            },
        }
    }
}

/// The states and effects that scheduling has come to, and how many services may
/// still be started.
#[verifier::ext_equal]
pub struct Progress {
    pub services: Seq<RuntimeModel>,
    pub effects: Seq<EffectModel>,
    pub available: nat,
}

/// Scheduling of service `i`.
pub open spec fn schedule_one(c: CatalogModel, p: Progress, i: int, now_ms: u64) -> Progress {
    match decision(c, p.services, i) {
        Decision::Skip => p,
        Decision::Block(j) => Progress {
            services: p.services.update(
                i,
                RuntimeModel {
                    observed: ObservedState::Failed,
                    blocked_by: Some(c.services[j].id),
                    ..p.services[i]
                },
            ),
            ..p
        },
        Decision::Launch => Progress {
            services: p.services.update(i, launched(p.services[i], now_ms)),
            effects: p.effects + launch_effects(
                c.services[i],
                next_generation(p.services[i].generation),
            ),
            available: (p.available - 1) as nat,
        },
    }
}

/// Scheduling of the services from `i` on, in order, while any may be started.
pub open spec fn schedule_from(c: CatalogModel, p: Progress, i: nat, now_ms: u64) -> Progress
    decreases c.services.len() - i,
{
    if i >= c.services.len() || p.available == 0 {
        p
    } else {
        schedule_from(c, schedule_one(c, p, i as int, now_ms), i + 1, now_ms)
    }
}

/// How many of the first `n` services are starting with a process.
pub open spec fn launching_count(st: Seq<RuntimeModel>, n: nat) -> nat
    decreases n,
{
    if n == 0 {
        0
    } else {
        launching_count(st, (n - 1) as nat) + if st[n - 1].launching() {
            1nat
        } else {
            0nat
        }
    }
}

/// A service that should run, has no process and was held up by a service that is
/// active now is at rest again.
pub open spec fn recovered(c: CatalogModel, st: Seq<RuntimeModel>, i: int) -> RuntimeModel {
    let r = st[i];
    let free = match r.blocked_by {
        None => false,
        Some(id) => match position(c, id) {
            None => false,
            Some(j) => st[j].serves(),
        },
    };
    if free && !r.has_process && r.desired == DesiredState::Active {
        RuntimeModel { blocked_by: None, observed: ObservedState::Inactive, ..r }
    } else {
        r
    }
}

/// Every service that can recover has recovered.
pub open spec fn recover_all(c: CatalogModel, st: Seq<RuntimeModel>) -> Seq<RuntimeModel> {
    Seq::new(c.services.len(), |i: int| recovered(c, st, i))
}

/// How many services may be started.
pub open spec fn capacity(s: SnapshotModel, st: Seq<RuntimeModel>) -> nat {
    let busy = launching_count(st, s.catalog.services.len());
    if busy >= s.max_starting {
        0
    } else {
        (s.max_starting - busy) as nat
    }
}

/// Scheduling: recover, then start what can be started, in order of the names,
/// within the bound on parallel starts.
pub open spec fn schedule(s: SnapshotModel, st: Seq<RuntimeModel>, now_ms: u64) -> Progress {
    let ready = recover_all(s.catalog, st);
    schedule_from(
        s.catalog,
        Progress { services: ready, effects: Seq::empty(), available: capacity(s, ready) },
        0,
        now_ms,
    )
}

/// Whether another service that should stop, and does not end at once, needs service `i`.
pub open spec fn has_stopping_dependent(c: CatalogModel, st: Seq<RuntimeModel>, i: int) -> bool {
    exists|j: int|
        0 <= j < c.services.len() && j != i && (#[trigger] st[j]).desired == DesiredState::Inactive
            && st[j].lingers() && c.needs(j, i)
}

/// The states and effects that stopping has come to.
#[verifier::ext_equal]
pub struct Stopped {
    pub services: Seq<RuntimeModel>,
    pub effects: Seq<EffectModel>,
}

/// Whether service `i` is to be stopped now: it should not run, does, and nothing
/// that still runs and should stop needs it.
pub open spec fn stops_now(c: CatalogModel, st: Seq<RuntimeModel>, i: int) -> bool {
    &&& st[i].desired == DesiredState::Inactive
    &&& st[i].observed != ObservedState::Inactive
    &&& st[i].observed != ObservedState::Stopping
    &&& !has_stopping_dependent(c, st, i)
}

/// Stopping of service `i`.
pub open spec fn stop_one(c: CatalogModel, p: Stopped, i: int) -> Stopped {
    let r = p.services[i];
    if !stops_now(c, p.services, i) {
        p
    } else if r.has_process {
        Stopped {
            services: p.services.update(
                i,
                RuntimeModel {
                    observed: ObservedState::Stopping,
                    stop_result: StopResult::Inactive,
                    ..r
                },
            ),
            effects: p.effects + stop_effects(
                c.services[i],
                r.generation,
                r.stop_signal == StopSignal::Kill,
            ),
        }
    } else {
        Stopped {
            services: p.services.update(
                i,
                RuntimeModel { observed: ObservedState::Inactive, ..r },
            ),
            effects: p.effects,
        }
    }
}

/// Stopping of the services from `i` on, in order.
pub open spec fn stop_from(c: CatalogModel, p: Stopped, i: nat) -> Stopped
    decreases c.services.len() - i,
{
    if i >= c.services.len() {
        p
    } else {
        stop_from(c, stop_one(c, p, i as int), i + 1)
    }
}

/// Stopping of what should not run, dependants first.
pub open spec fn schedule_stops(c: CatalogModel, st: Seq<RuntimeModel>) -> Stopped {
    stop_from(c, Stopped { services: st, effects: Seq::empty() }, 0)
}

/// Whether another service that has a process needs service `i`.
pub open spec fn has_running_dependent(c: CatalogModel, st: Seq<RuntimeModel>, i: int) -> bool {
    exists|j: int|
        0 <= j < c.services.len() && j != i && (#[trigger] st[j]).has_process && c.needs(j, i)
}

/// What service `i` is held up by: what it was found to lack before, or the first service
/// that it needs and that is not there.
pub open spec fn lacked(c: CatalogModel, st: Seq<RuntimeModel>, i: int) -> Option<Seq<char>> {
    match st[i].blocked_by {
        Some(id) => Some(id),
        None => match unmet_need(c, st, i) {
            Some(j) => Some(c.services[j].id),
            None => None,
        },
    }
}

/// Whether service `i` is on its way to stop for want of something that it needs.
pub open spec fn yielding(r: RuntimeModel) -> bool {
    r.observed == ObservedState::Stopping && r.blocked_by is Some
}

/// What service `i`, which has no process, fails for want of: where it is active, the first
/// service that it needs and that is not there for it, and where it is not, the first that
/// has failed.
pub open spec fn missed(c: CatalogModel, st: Seq<RuntimeModel>, i: int) -> Option<int> {
    if st[i].observed == ObservedState::Active {
        unmet_need(c, st, i)
    } else {
        failed_need(c, st, i)
    }
}

/// Loss of what service `i` needs. One that has a process is stopped, once nothing that
/// runs needs it. One that has none fails: where it is active, for want of what is not
/// there, and where it waits, for want of what has failed.
pub open spec fn propagate_one(c: CatalogModel, p: Stopped, i: int) -> Stopped {
    let r = p.services[i];
    if r.desired != DesiredState::Active {
        p
    } else if r.has_process {
        match lacked(c, p.services, i) {
            None => p,
            Some(id) => if yielding(r) {
                p
            } else if has_running_dependent(c, p.services, i) {
                Stopped {
                    services: p.services.update(i, RuntimeModel { blocked_by: Some(id), ..r }),
                    effects: p.effects,
                }
            } else {
                Stopped {
                    services: p.services.update(
                        i,
                        RuntimeModel {
                            blocked_by: Some(id),
                            observed: ObservedState::Stopping,
                            stop_result: StopResult::Failed,
                            ..r
                        },
                    ),
                    effects: p.effects + stop_effects(
                        c.services[i],
                        r.generation,
                        r.stop_signal == StopSignal::Kill,
                    ),
                }
            },
        }
    } else {
        match missed(c, p.services, i) {
            None => p,
            Some(j) => if r.blocked_by is Some {
                p
            } else {
                Stopped {
                    services: p.services.update(
                        i,
                        RuntimeModel {
                            blocked_by: Some(c.services[j].id),
                            observed: ObservedState::Failed,
                            ..r
                        },
                    ),
                    effects: p.effects,
                }
            },
        }
    }
}

/// Loss of what the services from `i` on need, in order.
pub open spec fn propagate_from(c: CatalogModel, p: Stopped, i: nat) -> Stopped
    decreases c.services.len() - i,
{
    if i >= c.services.len() {
        p
    } else {
        propagate_from(c, propagate_one(c, p, i as int), i + 1)
    }
}

/// Loss of needed services, handed on to every service.
pub open spec fn propagate(c: CatalogModel, st: Seq<RuntimeModel>) -> Stopped {
    propagate_from(c, Stopped { services: st, effects: Seq::empty() }, 0)
}

/// The service with a new desired state out of the default group.
pub open spec fn reconciled(r: RuntimeModel, enabled: bool, now_ms: u64) -> RuntimeModel {
    if enabled {
        RuntimeModel {
            desired: DesiredState::Active,
            queued_at_ms: if r.desired == DesiredState::Inactive {
                Some(now_ms)
            } else {
                r.queued_at_ms
            },
            restart_blocked: false,
            ..r
        }
    } else {
        RuntimeModel { desired: DesiredState::Inactive, ..r }
    }
}

/// The states in which exactly what the default group activates should run.
pub open spec fn reconciled_all(
    s: SnapshotModel,
    st: Seq<RuntimeModel>,
    now_ms: u64,
) -> Seq<RuntimeModel> {
    let root = s.catalog.node(s.default_group);
    Seq::new(
        s.catalog.services.len(),
        |i: int| reconciled(st[i], s.catalog.activates(root, i), now_ms),
    )
}

/// The engine and the effects after a step.
#[verifier::ext_equal]
pub struct Outcome {
    pub engine: EngineModel,
    pub effects: Seq<EffectModel>,
}

/// Stopping of what should not run, then scheduling.
pub open spec fn settle(e: EngineModel, now_ms: u64) -> Outcome {
    let stopped = schedule_stops(e.snapshot.catalog, e.services);
    let started = schedule(e.snapshot, stopped.services, now_ms);
    Outcome {
        engine: EngineModel { services: started.services, ..e },
        effects: stopped.effects + started.effects,
    }
}

/// Reconciliation with the default group.
pub open spec fn reconcile_default(e: EngineModel, now_ms: u64) -> Outcome {
    settle(
        EngineModel { services: reconciled_all(e.snapshot, e.services, now_ms), ..e },
        now_ms,
    )
}

/// Whether a new configuration changes how a service runs, or removes it.
pub open spec fn changed(old: SnapshotModel, new: SnapshotModel, i: int) -> bool {
    let service = old.catalog.services[i];
    match position(new.catalog, service.id) {
        None => true,
        Some(k) => {
            let other = new.catalog.services[k];
            service.process.plain() != other.process.plain() || service.actions != other.actions
                || service.io.plain() != other.io.plain()
        },
    }
}

/// Whether a new configuration affects a running service: it is changed, or needs
/// one that is.
pub open spec fn affects(old: SnapshotModel, new: SnapshotModel, i: int) -> bool {
    changed(old, new, i) || exists|j: int|
        0 <= j < old.catalog.services.len() && #[trigger] old.catalog.needs(i, j) && changed(
            old,
            new,
            j,
        )
}

/// Which services a new configuration affects.
pub open spec fn affected(old: SnapshotModel, new: SnapshotModel) -> Seq<bool> {
    Seq::new(old.catalog.services.len(), |i: int| affects(old, new, i))
}

/// The state that service `k` of a new configuration begins with: that of the same
/// service before, a fresh one where it is new, and a fresh one with the number of the
/// last attempt where it was affected.
pub open spec fn carried(
    old: CatalogModel,
    st: Seq<RuntimeModel>,
    affected: Seq<bool>,
    new: CatalogModel,
    k: int,
) -> RuntimeModel {
    match position(old, new.services[k].id) {
        None => fresh(),
        Some(i) => if affected[i] {
            RuntimeModel { generation: st[i].generation, ..fresh() }
        } else {
            st[i]
        },
    }
}

/// The engine with a new configuration.
pub open spec fn installed(e: EngineModel, new: SnapshotModel, affected: Seq<bool>) -> EngineModel {
    EngineModel {
        snapshot: new,
        services: Seq::new(
            new.catalog.services.len(),
            |k: int| carried(e.snapshot.catalog, e.services, affected, new.catalog, k),
        ),
        pending: None,
    }
}

/// Whether every affected service is at rest without a process.
pub open spec fn drained(st: Seq<RuntimeModel>, affected: Seq<bool>) -> bool {
    forall|i: int|
        0 <= i < st.len() && #[trigger] affected[i] ==> !st[i].has_process && st[i].at_rest()
}

/// Installs the configuration that waits once everything it affects has stopped.
pub open spec fn advance(e: EngineModel, now_ms: u64) -> Outcome {
    match e.pending {
        None => Outcome { engine: e, effects: Seq::empty() },
        Some(pending) => if drained(e.services, pending.affected) {
            reconcile_default(installed(e, pending.snapshot, pending.affected), now_ms)
        } else {
            Outcome { engine: e, effects: Seq::empty() }
        },
    }
}

/// The service set to stop for a new configuration.
pub open spec fn withdrawn(r: RuntimeModel) -> RuntimeModel {
    RuntimeModel {
        desired: DesiredState::Inactive,
        waiting_restart: false,
        restart_blocked: false,
        ..r
    }
}

/// Application of a new configuration: at once where no running service is
/// affected, else after the affected ones have stopped.
pub open spec fn apply_snapshot(e: EngineModel, new: SnapshotModel, now_ms: u64) -> Outcome {
    let marks = affected(e.snapshot, new);
    if forall|i: int| 0 <= i < marks.len() ==> !#[trigger] marks[i] {
        reconcile_default(installed(e, new, marks), now_ms)
    } else {
        let stopped = schedule_stops(
            e.snapshot.catalog,
            Seq::new(
                e.services.len(),
                |i: int|
                    if marks[i] {
                        withdrawn(e.services[i])
                    } else {
                        e.services[i]
                    },
            ),
        );
        let waiting = EngineModel {
            snapshot: e.snapshot,
            services: stopped.services,
            pending: Some(PendingModel { snapshot: new, affected: marks }),
        };
        let advanced = advance(waiting, now_ms);
        Outcome { engine: advanced.engine, effects: stopped.effects + advanced.effects }
    }
}

/// The service after a request to start it.
pub open spec fn requested(r: RuntimeModel, now_ms: u64) -> RuntimeModel {
    RuntimeModel {
        desired: DesiredState::Active,
        queued_at_ms: if r.desired == DesiredState::Inactive {
            Some(now_ms)
        } else {
            r.queued_at_ms
        },
        stop_signal: StopSignal::Term,
        restart_blocked: false,
        blocked_by: None,
        observed: if r.observed == ObservedState::Failed && !r.has_process {
            ObservedState::Inactive
        } else {
            r.observed
        },
        ..r
    }
}

/// A request to start a node: what it activates should run.
pub open spec fn start(e: EngineModel, node: int, now_ms: u64) -> Outcome {
    let c = e.snapshot.catalog;
    let started = schedule(
        e.snapshot,
        Seq::new(
            c.services.len(),
            |i: int|
                if c.activates(node, i) {
                    requested(e.services[i], now_ms)
                } else {
                    e.services[i]
                },
        ),
        now_ms,
    );
    Outcome {
        engine: EngineModel { services: started.services, ..e },
        effects: started.effects,
    }
}

/// Whether a request to stop a node stops a service: a service itself or what a
/// group activates, and everything that needs one of them.
pub open spec fn stop_covers(c: CatalogModel, node: int, i: int) -> bool {
    stop_names(c, node, i) || exists|j: int|
        0 <= j < c.services.len() && #[trigger] c.needs(i, j) && stop_names(c, node, j)
}

/// Whether a request to stop a node names a service: the service itself, or what a
/// group activates.
pub open spec fn stop_names(c: CatalogModel, node: int, i: int) -> bool {
    if node < c.services.len() {
        i == node
    } else {
        c.activates(node, i)
    }
}

/// The service after a request to stop it.
pub open spec fn dismissed(r: RuntimeModel, force: bool) -> RuntimeModel {
    RuntimeModel {
        desired: DesiredState::Inactive,
        stop_signal: if force {
            StopSignal::Kill
        } else {
            StopSignal::Term
        },
        restart_blocked: false,
        waiting_restart: false,
        blocked_by: None,
        ..r
    }
}

/// The states after a request to stop a node.
pub open spec fn dismissed_all(
    c: CatalogModel,
    st: Seq<RuntimeModel>,
    node: int,
    force: bool,
) -> Seq<RuntimeModel> {
    Seq::new(
        c.services.len(),
        |i: int|
            if stop_covers(c, node, i) {
                dismissed(st[i], force)
            } else {
                st[i]
            },
    )
}

/// The kill of service `i`.
pub open spec fn kill_effect(c: CatalogModel, st: Seq<RuntimeModel>, i: int) -> EffectModel {
    EffectModel::Terminate {
        service: c.services[i].id,
        generation: st[i].generation,
        force: true,
    }
}

/// The effects with a kill of every one of the first `n` services that is stopping
/// and is to be killed, each once.
pub open spec fn with_kills(
    c: CatalogModel,
    st: Seq<RuntimeModel>,
    effects: Seq<EffectModel>,
    n: nat,
) -> Seq<EffectModel>
    decreases n,
{
    if n == 0 {
        effects
    } else {
        let before = with_kills(c, st, effects, (n - 1) as nat);
        let r = st[n - 1];
        let kill = kill_effect(c, st, n - 1);
        if r.observed == ObservedState::Stopping && r.stop_signal == StopSignal::Kill
            && !before.contains(kill) {
            before.push(kill)
        } else {
            before
        }
    }
}

/// A request to stop a node.
pub open spec fn stop(e: EngineModel, node: int, force: bool) -> Outcome {
    let c = e.snapshot.catalog;
    let stopped = schedule_stops(c, dismissed_all(c, e.services, node, force));
    Outcome {
        engine: EngineModel { services: stopped.services, ..e },
        effects: if force {
            with_kills(c, stopped.services, stopped.effects, c.services.len())
        } else {
            stopped.effects
        },
    }
}

/// A request to stop everything.
pub open spec fn stop_all(e: EngineModel) -> Outcome {
    let c = e.snapshot.catalog;
    let stopped = schedule_stops(
        c,
        Seq::new(
            c.services.len(),
            |i: int|
                RuntimeModel {
                    desired: DesiredState::Inactive,
                    restart_blocked: false,
                    waiting_restart: false,
                    blocked_by: None,
                    ..e.services[i]
                },
        ),
    );
    Outcome {
        engine: EngineModel { services: stopped.services, ..e },
        effects: stopped.effects,
    }
}

/// A request to restart service `i`: its process is stopped first where it has one.
pub open spec fn restart(e: EngineModel, i: int, now_ms: u64) -> Outcome {
    let c = e.snapshot.catalog;
    let asked = RuntimeModel {
        desired: DesiredState::Active,
        queued_at_ms: Some(now_ms),
        restart_blocked: false,
        blocked_by: None,
        ..e.services[i]
    };
    if asked.has_process {
        Outcome {
            engine: EngineModel {
                services: e.services.update(
                    i,
                    RuntimeModel {
                        observed: ObservedState::Stopping,
                        stop_result: StopResult::Restart,
                        ..asked
                    },
                ),
                ..e
            },
            effects: stop_effects(c.services[i], asked.generation, false),
        }
    } else {
        let started = schedule(
            e.snapshot,
            e.services.update(i, RuntimeModel { observed: ObservedState::Inactive, ..asked }),
            now_ms,
        );
        Outcome {
            engine: EngineModel { services: started.services, ..e },
            effects: started.effects,
        }
    }
}

/// The service with a terminal failure cleared.
pub open spec fn cleared(r: RuntimeModel) -> RuntimeModel {
    RuntimeModel {
        restart_blocked: false,
        blocked_by: None,
        observed: if r.observed == ObservedState::Failed && !r.has_process {
            ObservedState::Inactive
        } else {
            r.observed
        },
        ..r
    }
}

/// A number less another, or zero.
pub open spec fn minus(a: u64, b: u64) -> u64 {
    if a >= b {
        (a - b) as u64
    } else {
        0
    }
}

/// The times without those at the front that lie before the start of the window.
pub open spec fn recent(history: Seq<u64>, window_start: u64) -> Seq<u64>
    decreases history.len(),
{
    if history.len() > 0 && history[0] < window_start {
        recent(history.drop_first(), window_start)
    } else {
        history
    }
}

/// The service whose restarts are forgotten where its last attempt lived long
/// enough.
pub open spec fn aged(r: RuntimeModel, s: Supervision, at_ms: u64) -> RuntimeModel {
    if minus(at_ms, r.started_at_ms) >= s.restart_reset_ms {
        RuntimeModel {
            restart_history: Seq::empty(),
            backoff_ms: INITIAL_RESTART_BACKOFF_MS,
            ..r
        }
    } else {
        r
    }
}

/// The service whose restarts before the window are forgotten.
pub open spec fn windowed(r: RuntimeModel, s: Supervision, at_ms: u64) -> RuntimeModel {
    let old = aged(r, s, at_ms);
    RuntimeModel {
        restart_history: recent(old.restart_history, minus(at_ms, s.restart_window_ms)),
        ..old
    }
}

/// Whether the restart limit leaves room for another restart.
pub open spec fn may_restart(r: RuntimeModel, s: Supervision, at_ms: u64) -> bool {
    windowed(r, s, at_ms).restart_history.len() < s.restart_limit
}

/// Twice a pause, up to a bound.
pub open spec fn doubled(backoff_ms: u64, max_ms: u64) -> u64 {
    let twice = if backoff_ms + backoff_ms > u64::MAX {
        u64::MAX
    } else {
        (backoff_ms + backoff_ms) as u64
    };
    if twice < max_ms {
        twice
    } else {
        max_ms
    }
}

/// Whether an end counts as a failure: the process failed, or it was not ready yet.
pub open spec fn end_failed(r: RuntimeModel, outcome: ExitOutcome) -> bool {
    outcome != ExitOutcome::Success || r.observed == ObservedState::Starting
}

/// Whether the restart policy asks for a restart.
pub open spec fn wants_restart(r: RuntimeModel, s: Supervision, outcome: ExitOutcome) -> bool {
    r.desired == DesiredState::Active && match s.restart {
        RestartPolicy::No => false,
        RestartPolicy::OnFailure => end_failed(r, outcome),
        RestartPolicy::Always => true,
    }
}

/// The service after its process has ended unasked.
pub open spec fn ended(
    r: RuntimeModel,
    s: Supervision,
    outcome: ExitOutcome,
    at_ms: u64,
) -> RuntimeModel {
    if wants_restart(r, s, outcome) {
        let counted = windowed(r, s, at_ms);
        if may_restart(r, s, at_ms) {
            RuntimeModel {
                observed: ObservedState::Starting,
                queued_at_ms: Some(at_ms),
                waiting_restart: true,
                restart_history: counted.restart_history.push(at_ms),
                backoff_ms: doubled(counted.backoff_ms, s.restart_backoff_max_ms),
                ..counted
            }
        } else {
            given_up(counted, outcome)
        }
    } else {
        given_up(r, outcome)
    }
}

/// The service that is not started again.
pub open spec fn given_up(r: RuntimeModel, outcome: ExitOutcome) -> RuntimeModel {
    RuntimeModel {
        observed: if end_failed(r, outcome) {
            ObservedState::Failed
        } else {
            ObservedState::Inactive
        },
        restart_blocked: true,
        waiting_restart: false,
        ..r
    }
}

/// The effects of an unasked end: the pause before the restart, where there is one.
pub open spec fn end_effects(
    service: ServiceModel,
    r: RuntimeModel,
    outcome: ExitOutcome,
    at_ms: u64,
) -> Seq<EffectModel> {
    let s = service.supervision;
    if wants_restart(r, s, outcome) && may_restart(r, s, at_ms) {
        seq![
            EffectModel::ArmTimer {
                service: service.id,
                generation: r.generation,
                kind: TimerKind::Restart,
                after_ms: aged(r, s, at_ms).backoff_ms,
            },
        ]
    } else {
        Seq::empty()
    }
}

/// Whether an event belongs to the attempt that the service is in.
pub open spec fn current(r: RuntimeModel, generation: u64) -> bool {
    r.generation == generation && r.has_process
}

/// The service that has become ready.
pub open spec fn activated(r: RuntimeModel, at_ms: u64) -> RuntimeModel {
    RuntimeModel {
        observed: ObservedState::Active,
        ready_at_ms: Some(at_ms),
        blocked_by: None,
        ..r
    }
}

/// One service and the effects after an event.
#[verifier::ext_equal]
pub struct Step {
    pub service: RuntimeModel,
    pub effects: Seq<EffectModel>,
}

/// Nothing changes.
pub open spec fn unchanged(r: RuntimeModel) -> Step {
    Step { service: r, effects: Seq::empty() }
}

/// The service that is stopped because it did not become ready.
pub open spec fn unready(service: ServiceModel, r: RuntimeModel) -> Step {
    Step {
        service: RuntimeModel {
            observed: ObservedState::Stopping,
            stop_result: StopResult::RestartFailure,
            ..r
        },
        effects: stop_effects(service, r.generation, false),
    }
}

/// The service whose process has ended.
pub open spec fn exited(
    service: ServiceModel,
    before: RuntimeModel,
    outcome: ExitOutcome,
    at_ms: u64,
) -> Step {
    let r = RuntimeModel { has_process: false, exited_at_ms: Some(at_ms), ..before };
    if r.observed == ObservedState::Stopping {
        let stopped = RuntimeModel {
            stop_result: StopResult::Inactive,
            observed: if r.stop_result == StopResult::Failed {
                ObservedState::Failed
            } else {
                ObservedState::Inactive
            },
            ..r
        };
        if r.stop_result == StopResult::RestartFailure {
            Step {
                service: ended(stopped, service.supervision, ExitOutcome::ExitCode(124), at_ms),
                effects: end_effects(service, stopped, ExitOutcome::ExitCode(124), at_ms),
            }
        } else {
            unchanged(stopped)
        }
    } else if service.process.kind == ProcessType::Oneshot && r.observed
        == ObservedState::Starting && outcome == ExitOutcome::Success {
        unchanged(
            RuntimeModel {
                observed: ObservedState::Active,
                ready_at_ms: Some(at_ms),
                blocked_by: None,
                restart_history: Seq::empty(),
                backoff_ms: INITIAL_RESTART_BACKOFF_MS,
                ..r
            },
        )
    } else {
        Step {
            service: ended(r, service.supervision, outcome, at_ms),
            effects: end_effects(service, r, outcome, at_ms),
        }
    }
}

impl EventModel {
    /// The name of the service.
    pub open spec fn service(self) -> Seq<char> {
        match self {
            EventModel::ExecSucceeded { service, .. } => service,
            EventModel::Ready { service, .. } => service,
            EventModel::SpawnFailed { service, .. } => service,
            EventModel::ReadinessFailed { service, .. } => service,
            EventModel::Exited { service, .. } => service,
            EventModel::Timer { service, .. } => service,
        }
    }

    /// The attempt that the event belongs to.
    pub open spec fn generation(self) -> u64 {
        match self {
            EventModel::ExecSucceeded { generation, .. } => generation,
            EventModel::Ready { generation, .. } => generation,
            EventModel::SpawnFailed { generation, .. } => generation,
            EventModel::ReadinessFailed { generation, .. } => generation,
            EventModel::Exited { generation, .. } => generation,
            EventModel::Timer { generation, .. } => generation,
        }
    }

    /// When it happened.
    pub open spec fn at_ms(self) -> u64 {
        match self {
            EventModel::ExecSucceeded { at_ms, .. } => at_ms,
            EventModel::Ready { at_ms, .. } => at_ms,
            EventModel::SpawnFailed { at_ms, .. } => at_ms,
            EventModel::ReadinessFailed { at_ms, .. } => at_ms,
            EventModel::Exited { at_ms, .. } => at_ms,
            EventModel::Timer { at_ms, .. } => at_ms,
        }
    }
}

/// The timer of a service has run out.
pub open spec fn timed_out(service: ServiceModel, r: RuntimeModel, kind: TimerKind) -> Step {
    match kind {
        TimerKind::Start => if r.observed == ObservedState::Starting && r.has_process {
            unready(service, r)
        } else {
            unchanged(r)
        },
        TimerKind::Stop => if r.observed == ObservedState::Stopping {
            Step {
                service: r,
                effects: seq![
                    EffectModel::Terminate {
                        service: service.id,
                        generation: r.generation,
                        force: true,
                    },
                ],
            }
        } else {
            unchanged(r)
        },
        TimerKind::Restart => if r.waiting_restart {
            unchanged(
                RuntimeModel {
                    waiting_restart: false,
                    observed: ObservedState::Inactive,
                    ..r
                },
            )
        } else {
            unchanged(r)
        },
    }
}

/// What an event does to its service. An event of an earlier attempt does nothing.
pub open spec fn react(service: ServiceModel, r: RuntimeModel, event: EventModel) -> Step {
    match event {
        EventModel::ExecSucceeded { generation, at_ms, .. } => if current(r, generation)
            && r.observed == ObservedState::Starting && service.process.readiness
            == Readiness::Exec {
            unchanged(activated(r, at_ms))
        } else {
            unchanged(r)
        },
        EventModel::Ready { generation, at_ms, .. } => if current(r, generation) && r.observed
            == ObservedState::Starting && service.process.readiness == Readiness::Notify {
            unchanged(activated(r, at_ms))
        } else {
            unchanged(r)
        },
        EventModel::SpawnFailed { generation, at_ms, .. } => if current(r, generation) {
            let lost = RuntimeModel { has_process: false, exited_at_ms: Some(at_ms), ..r };
            Step {
                service: ended(lost, service.supervision, ExitOutcome::ExitCode(127), at_ms),
                effects: end_effects(service, lost, ExitOutcome::ExitCode(127), at_ms),
            }
        } else {
            unchanged(r)
        },
        EventModel::ReadinessFailed { generation, .. } => if current(r, generation) && r.observed
            == ObservedState::Starting {
            unready(service, r)
        } else {
            unchanged(r)
        },
        EventModel::Exited { generation, outcome, at_ms, .. } => if current(r, generation) {
            exited(service, r, outcome, at_ms)
        } else {
            unchanged(r)
        },
        EventModel::Timer { generation, kind, .. } => if r.generation == generation {
            timed_out(service, r, kind)
        } else {
            unchanged(r)
        },
    }
}

/// The states and effects right after an event; one of an unknown service changes
/// nothing.
pub open spec fn reacted(e: EngineModel, event: EventModel) -> Stopped {
    let c = e.snapshot.catalog;
    match position(c, event.service()) {
        None => Stopped { services: e.services, effects: Seq::empty() },
        Some(i) => {
            let step = react(c.services[i], e.services[i], event);
            Stopped { services: e.services.update(i, step.service), effects: step.effects }
        },
    }
}

/// What follows every event: losses are handed on, what should stop is stopped,
/// what can start is started, and a waiting configuration is installed.
pub open spec fn follow_up(e: EngineModel, now_ms: u64) -> Outcome {
    let lost = propagate(e.snapshot.catalog, e.services);
    let settled = settle(EngineModel { services: lost.services, ..e }, now_ms);
    let advanced = advance(settled.engine, now_ms);
    Outcome {
        engine: advanced.engine,
        effects: lost.effects + settled.effects + advanced.effects,
    }
}

/// Whether an event belongs to the attempt that its service is in. A timer belongs to the
/// last attempt also where that has ended.
pub open spec fn is_current(e: EngineModel, event: EventModel) -> bool {
    match position(e.snapshot.catalog, event.service()) {
        None => false,
        Some(i) => e.services[i].generation == event.generation() && (event is Timer
            || e.services[i].has_process),
    }
}

/// Handling of an event. One that belongs to no current attempt is discarded.
pub open spec fn handle(e: EngineModel, event: EventModel) -> Outcome {
    if is_current(e, event) {
        handle_current(e, event)
    } else {
        Outcome { engine: e, effects: Seq::empty() }
    }
}

/// Handling of an event of a current attempt.
pub open spec fn handle_current(e: EngineModel, event: EventModel) -> Outcome {
    let first = reacted(e, event);
    let rest = follow_up(EngineModel { services: first.services, ..e }, event.at_ms());
    Outcome { engine: rest.engine, effects: first.effects + rest.effects }
}

/// What the first need in a condition is.
pub proof fn first_need_law(c: CatalogModel, i: int, bad: spec_fn(int) -> bool, n: nat)
    ensures
        match first_need(c, i, bad, n) {
            Some(j) => 0 <= j < n && c.needs(i, j) && bad(j) && forall|q: int|
                0 <= q < j ==> !(#[trigger] c.needs(i, q) && bad(q)),
            None => forall|q: int| 0 <= q < n ==> !(#[trigger] c.needs(i, q) && bad(q)),
        },
    decreases n,
{
    if n > 0 {
        first_need_law(c, i, bad, (n - 1) as nat);
    }
}

/// Two ascending lists of names as one, each name once.
pub open spec fn merged(a: Seq<Seq<char>>, b: Seq<Seq<char>>) -> Seq<Seq<char>>
    decreases a.len() + b.len(),
{
    if a.len() == 0 {
        b
    } else if b.len() == 0 {
        a
    } else if a[0] == b[0] {
        seq![a[0]] + merged(a.drop_first(), b.drop_first())
    } else if text::text_less(a[0], b[0]) {
        seq![a[0]] + merged(a.drop_first(), b)
    } else {
        seq![b[0]] + merged(a, b.drop_first())
    }
}

/// A merged list holds exactly the names of both lists, and ascends where they do.
pub proof fn merged_law(a: Seq<Seq<char>>, b: Seq<Seq<char>>)
    requires
        catalog::ascending(a),
        catalog::ascending(b),
    ensures
        forall|id: Seq<char>| #[trigger]
            merged(a, b).contains(id) <==> a.contains(id) || b.contains(id),
        catalog::ascending(merged(a, b)),
    decreases a.len() + b.len(),
{
    let m = merged(a, b);
    if a.len() > 0 && b.len() > 0 {
        let head = m[0];
        let (ra, rb) = if a[0] == b[0] {
            (a.drop_first(), b.drop_first())
        } else if text::text_less(a[0], b[0]) {
            (a.drop_first(), b)
        } else {
            (a, b.drop_first())
        };
        text::text_less_total(a[0], b[0]);
        tail_ascends(a);
        tail_ascends(b);
        merged_law(ra, rb);
        let rest = merged(ra, rb);
        assert(m =~= seq![head] + rest);
        assert forall|id: Seq<char>| #[trigger] m.contains(id) <==> a.contains(id) || b.contains(
            id,
        ) by {
            tail_contains(a, id);
            tail_contains(b, id);
            if m.contains(id) {
                let k = choose|k: int| 0 <= k < m.len() && m[k] == id;
                if k > 0 {
                    assert(rest[k - 1] == id);
                    assert(rest.contains(id));
                } else {
                    assert(a.contains(a[0]) && b.contains(b[0]));
                }
            }
            if a.contains(id) || b.contains(id) {
                if id != head {
                    assert(rest.contains(id));
                    let k = choose|k: int| 0 <= k < rest.len() && rest[k] == id;
                    assert(m[k + 1] == id);
                } else {
                    assert(m[0] == id);
                }
            }
        }
        assert forall|j: int| 0 <= j < rest.len() implies text::text_less(
            head,
            #[trigger] rest[j],
        ) by {
            assert(rest.contains(rest[j]));
            if ra.contains(rest[j]) {
                tail_contains(a, rest[j]);
                let k = choose|k: int| 0 <= k < ra.len() && ra[k] == rest[j];
                if ra.len() < a.len() {
                    assert(a[k + 1] == rest[j]);
                    assert(text::text_less(a[0], a[k + 1]));
                } else {
                    if k > 0 {
                        text::text_less_transitive(b[0], a[0], a[k]);
                    }
                }
            } else {
                let k = choose|k: int| 0 <= k < rb.len() && rb[k] == rest[j];
                if rb.len() < b.len() {
                    assert(b[k + 1] == rest[j]);
                    assert(text::text_less(b[0], b[k + 1]));
                } else {
                    if k > 0 {
                        text::text_less_transitive(a[0], b[0], b[k]);
                    }
                }
            }
        }
        assert forall|i: int, j: int| 0 <= i < j < m.len() implies text::text_less(
            m[i],
            m[j],
        ) by {
            assert(m[j] == rest[j - 1]);
            if i > 0 {
                assert(m[i] == rest[i - 1]);
            }
        }
    }
}

proof fn tail_ascends(a: Seq<Seq<char>>)
    requires
        catalog::ascending(a),
        a.len() > 0,
    ensures
        catalog::ascending(a.drop_first()),
{
    let rest = a.drop_first();
    assert forall|i: int, j: int| 0 <= i < j < rest.len() implies text::text_less(
        rest[i],
        rest[j],
    ) by {
        assert(rest[i] == a[i + 1]);
        assert(rest[j] == a[j + 1]);
    }
}

proof fn tail_contains(a: Seq<Seq<char>>, id: Seq<char>)
    requires
        a.len() > 0,
    ensures
        a.contains(id) <==> id == a[0] || a.drop_first().contains(id),
{
    let rest = a.drop_first();
    if a.contains(id) && id != a[0] {
        let k = choose|k: int| 0 <= k < a.len() && a[k] == id;
        assert(rest[k - 1] == id);
    }
    if rest.contains(id) {
        let k = choose|k: int| 0 <= k < rest.len() && rest[k] == id;
        assert(a[k + 1] == id);
    }
}

/// The names among the first `n` that satisfy the predicate, in order.
pub open spec fn kept(ids: Seq<Seq<char>>, holds: spec_fn(Seq<char>) -> bool, n: nat) -> Seq<
    Seq<char>,
>
    decreases n,
{
    if n == 0 {
        Seq::empty()
    } else if holds(ids[n - 1]) {
        kept(ids, holds, (n - 1) as nat).push(ids[n - 1])
    } else {
        kept(ids, holds, (n - 1) as nat)
    }
}

/// Whether a service runs, or is on its way to or from it.
pub open spec fn running(e: EngineModel, id: Seq<char>) -> bool {
    match position(e.snapshot.catalog, id) {
        Some(i) => !e.services[i].at_rest(),
        None => false,
    }
}

/// Whether the default group of a configuration activates a service.
pub open spec fn enabled(s: SnapshotModel, id: Seq<char>) -> bool {
    match position(s.catalog, id) {
        Some(k) => s.catalog.activates(s.catalog.node(s.default_group), k),
        None => false,
    }
}

/// Whether a new configuration affects a service of the engine.
pub open spec fn is_affected(e: EngineModel, new: SnapshotModel, id: Seq<char>) -> bool {
    match position(e.snapshot.catalog, id) {
        Some(i) => affects(e.snapshot, new, i),
        None => false,
    }
}

/// Whether a new configuration stops a service: it runs, and is no longer enabled or
/// is affected.
pub open spec fn plans_stop(e: EngineModel, new: SnapshotModel, id: Seq<char>) -> bool {
    running(e, id) && (!enabled(new, id) || is_affected(e, new, id))
}

/// Whether a new configuration starts a service: it is enabled, and does not run or
/// is affected.
pub open spec fn plans_start(e: EngineModel, new: SnapshotModel, id: Seq<char>) -> bool {
    enabled(new, id) && (!running(e, id) || is_affected(e, new, id))
}

/// Whether a new configuration defines a service anew.
pub open spec fn plans_update(e: EngineModel, new: SnapshotModel, id: Seq<char>) -> bool {
    match position(new.catalog, id) {
        None => false,
        Some(k) => match position(e.snapshot.catalog, id) {
            None => true,
            Some(i) => e.snapshot.catalog.services[i].plain() != new.catalog.services[k].plain(),
        },
    }
}

/// The services of the engine and of a new configuration.
pub open spec fn planned_ids(e: EngineModel, new: SnapshotModel) -> Seq<Seq<char>> {
    merged(
        catalog::service_ids(e.snapshot.catalog.services),
        catalog::service_ids(new.catalog.services),
    )
}

/// The plan of a new configuration over the first `n` services of both.
pub open spec fn plan_of(e: EngineModel, new: SnapshotModel, n: nat) -> PlanModel {
    let ids = planned_ids(e, new);
    PlanModel {
        start: kept(
            ids,
            |id: Seq<char>| plans_start(e, new, id) && !plans_stop(e, new, id),
            n,
        ),
        stop: kept(
            ids,
            |id: Seq<char>| plans_stop(e, new, id) && !plans_start(e, new, id),
            n,
        ),
        restart: kept(
            ids,
            |id: Seq<char>| plans_stop(e, new, id) && plans_start(e, new, id),
            n,
        ),
        update: kept(ids, |id: Seq<char>| plans_update(e, new, id), n),
        remove: kept(ids, |id: Seq<char>| position(new.catalog, id) is None, n),
    }
}

/// The plan of a new configuration: what it starts, stops, restarts, defines anew and
/// removes, in ascending order of the names.
pub open spec fn plan(e: EngineModel, new: SnapshotModel) -> PlanModel {
    plan_of(e, new, planned_ids(e, new).len())
}

/// Whether a node is a service that should run and has failed for good.
pub open spec fn boot_failed(e: EngineModel, x: int) -> bool {
    &&& 0 <= x < e.services.len()
    &&& e.services[x].desired == DesiredState::Active
    &&& terminal(e.snapshot.catalog, e.services, x)
}

/// A walk, one step further to each required node in turn.
pub open spec fn extended(c: CatalogModel, path: Seq<int>) -> Seq<Seq<int>> {
    let required = c.dependencies(path.last()).requires;
    Seq::new(required.len(), |k: int| path.push(c.node(required[k])))
}

/// A breadth-first search along required nodes for one that has failed: the walks
/// that are left, and the nodes that were met.
pub open spec fn boot_search(e: EngineModel, queue: Seq<Seq<int>>, marks: Seq<bool>) -> Option<
    Seq<int>,
>
    decreases graph::unmarked(marks), queue.len(),
{
    if queue.len() == 0 {
        None
    } else {
        let path = queue[0];
        let x = path.last();
        let rest = queue.drop_first();
        if !(0 <= x < marks.len()) || marks[x] {
            boot_search(e, rest, marks)
        } else if boot_failed(e, x) {
            Some(path)
        } else {
            proof {
                graph::unmarked_update(marks, x);
            }
            boot_search(e, rest + extended(e.snapshot.catalog, path), marks.update(x, true))
        }
    }
}

/// The walk from the default group to the nearest failure among required nodes.
pub open spec fn boot_walk(e: EngineModel) -> Option<Seq<int>> {
    let c = e.snapshot.catalog;
    boot_search(
        e,
        seq![seq![c.node(e.snapshot.default_group)]],
        Seq::new(c.len(), |x: int| false),
    )
}

/// The names on the walk to a failure of the boot graph.
pub open spec fn boot_failure(e: EngineModel) -> Option<Seq<char>> {
    match boot_walk(e) {
        Some(path) => Some(text::join(e.snapshot.catalog.ids(path), " -> "@)),
        None => None,
    }
}

/// Whether every walk that is left begins at the default group, goes along required
/// nodes, and every required node of a met one was met or ends such a walk.
pub open spec fn boot_search_sound(e: EngineModel, queue: Seq<Seq<int>>, marks: Seq<bool>) -> bool {
    let c = e.snapshot.catalog;
    let root = c.node(e.snapshot.default_group);
    &&& marks.len() == c.len()
    &&& forall|q: int|
        0 <= q < queue.len() ==> graph::is_path(c.len(), c.requirement(), #[trigger] queue[q])
            && queue[q].first() == root
    &&& forall|x: int| 0 <= x < c.len() && #[trigger] marks[x] ==> !boot_failed(e, x)
    &&& forall|x: int, y: int|
        0 <= x < c.len() && 0 <= y < c.len() && marks[x] && #[trigger] c.requirement()(x, y)
            ==> marks[y] || ends_walk(queue, y)
    &&& marks[root] || ends_walk(queue, root)
}

/// Whether some walk ends at a node.
pub open spec fn ends_walk(queue: Seq<Seq<int>>, y: int) -> bool {
    exists|q: int| 0 <= q < queue.len() && (#[trigger] queue[q]).last() == y
}

/// What a search that is sound finds: a walk along required nodes to a failure, and
/// nothing only where no required node has failed.
pub proof fn boot_search_law(e: EngineModel, queue: Seq<Seq<int>>, marks: Seq<bool>)
    requires
        e.consistent(),
        boot_search_sound(e, queue, marks),
    ensures
        ({
            let c = e.snapshot.catalog;
            let root = c.node(e.snapshot.default_group);
            match boot_search(e, queue, marks) {
                Some(path) => graph::is_path(c.len(), c.requirement(), path) && path.first() == root
                    && boot_failed(e, path.last()),
                None => forall|x: int|
                    0 <= x < c.len() && graph::reaches(c.len(), c.requirement(), root, x)
                        ==> !#[trigger] boot_failed(e, x),
            }
        }),
    decreases graph::unmarked(marks), queue.len(),
{
    let c = e.snapshot.catalog;
    let root = c.node(e.snapshot.default_group);
    if queue.len() == 0 {
        assert forall|x: int|
            0 <= x < c.len() && graph::reaches(
                c.len(),
                c.requirement(),
                root,
                x,
            ) implies !#[trigger] boot_failed(e, x) by {
            let holds = |y: int| 0 <= y < c.len() && marks[y];
            assert(marks[root] && 0 <= root < c.len()) by {
                let path = choose|path: Seq<int>| #[trigger]
                    graph::is_path(c.len(), c.requirement(), path) && path.first() == root
                        && path.last() == x;
                assert(0 <= path[0] < c.len());
            }
            assert forall|a: int, b: int|
                0 <= a < c.len() && 0 <= b < c.len() && holds(a) && #[trigger] c.requirement()(
                    a,
                    b,
                ) implies holds(b) by {}
            graph::reaches_closed(c.len(), c.requirement(), holds, root, x);
        }
    } else {
        let path = queue[0];
        let x = path.last();
        let rest = queue.drop_first();
        assert(graph::is_path(c.len(), c.requirement(), path));
        assert(0 <= path[path.len() - 1] < c.len());
        assert forall|q: int| 0 <= q < rest.len() implies graph::is_path(
            c.len(),
            c.requirement(),
            #[trigger] rest[q],
        ) && rest[q].first() == root by {
            assert(rest[q] == queue[q + 1]);
        }
        if marks[x] {
            assert forall|y: int| #[trigger] ends_walk(queue, y) && y != x implies ends_walk(
                rest,
                y,
            ) by {
                let q = choose|q: int| 0 <= q < queue.len() && (#[trigger] queue[q]).last() == y;
                assert(rest[q - 1] == queue[q]);
            }
            boot_search_law(e, rest, marks);
        } else if !boot_failed(e, x) {
            graph::unmarked_update(marks, x);
            let more = extended(c, path);
            let longer = rest + more;
            let updated = marks.update(x, true);
            let required = c.dependencies(x).requires;
            assert(catalog::references_hold(c));
            assert(catalog::all_present(c, c.dependencies(x).requires));
            assert forall|q: int| 0 <= q < more.len() implies graph::is_path(
                c.len(),
                c.requirement(),
                #[trigger] more[q],
            ) && more[q].first() == root && c.id(more[q].last()) == required[q] by {
                let y = c.node(required[q]);
                assert(c.contains(required[q]));
                assert(c.requirement()(x, y)) by {
                    assert(c.id(y) == required[q]);
                }
                let step = path.push(y);
                assert(more[q] == step);
                assert forall|i: int| 0 <= i < step.len() - 1 implies c.requirement()(
                    #[trigger] step[i],
                    step[i + 1],
                ) by {
                    if i < path.len() - 1 {
                        assert(c.requirement()(path[i], path[i + 1]));
                    }
                }
                assert forall|i: int| 0 <= i < step.len() implies 0 <= #[trigger] step[i]
                    < c.len() by {
                    if i < path.len() {
                        assert(step[i] == path[i]);
                    }
                }
            }
            assert forall|q: int| 0 <= q < longer.len() implies graph::is_path(
                c.len(),
                c.requirement(),
                #[trigger] longer[q],
            ) && longer[q].first() == root by {
                if q < rest.len() {
                    assert(longer[q] == rest[q]);
                } else {
                    assert(longer[q] == more[q - rest.len()]);
                }
            }
            assert forall|y: int| #[trigger] ends_walk(queue, y) && y != x implies ends_walk(
                longer,
                y,
            ) by {
                let q = choose|q: int| 0 <= q < queue.len() && (#[trigger] queue[q]).last() == y;
                assert(longer[q - 1] == queue[q]);
            }
            assert forall|a: int, b: int|
                0 <= a < c.len() && 0 <= b < c.len() && updated[a] && #[trigger] c.requirement()(
                    a,
                    b,
                ) implies updated[b] || ends_walk(longer, b) by {
                if a == x {
                    let k = choose|k: int| 0 <= k < required.len() && required[k] == c.id(b);
                    assert(c.contains(required[k]));
                    catalog::catalog_distinct(c, c.node(required[k]), b);
                    assert(more[k].last() == b);
                    assert(longer[rest.len() + k] == more[k]);
                } else {
                    assert(marks[a]);
                    if !marks[b] && b != x {
                        assert(ends_walk(queue, b));
                    }
                }
            }
            boot_search_law(e, longer, updated);
        }
    }
}

/// The boot graph has a failure exactly where a service that is required from the
/// default group should run and has failed for good; the walk that is shown leads to one.
pub proof fn boot_walk_law(e: EngineModel)
    requires
        e.consistent(),
    ensures
        ({
            let c = e.snapshot.catalog;
            let root = c.node(e.snapshot.default_group);
            match boot_walk(e) {
                Some(path) => graph::is_path(c.len(), c.requirement(), path) && path.first() == root
                    && boot_failed(e, path.last()),
                None => forall|x: int|
                    0 <= x < c.len() && graph::reaches(c.len(), c.requirement(), root, x)
                        ==> !#[trigger] boot_failed(e, x),
            }
        }),
{
    let c = e.snapshot.catalog;
    let root = c.node(e.snapshot.default_group);
    let names = catalog::group_ids(c.groups);
    let g = choose|g: int| 0 <= g < names.len() && names[g] == e.snapshot.default_group;
    assert(c.id(c.services.len() + g) == e.snapshot.default_group);
    assert(c.contains(e.snapshot.default_group));
    let queue = seq![seq![root]];
    assert(queue[0].last() == root);
    boot_search_law(e, queue, Seq::new(c.len(), |x: int| false));
}

} // verus!
