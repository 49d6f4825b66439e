//! Ordered shutdown, and rescue when the system cannot come up.

use vstd::prelude::*;

use crate::catalog;
use crate::catalog::CatalogModel;
use crate::config;
use crate::graph;
use crate::laws;
use crate::lifecycle;
use crate::lifecycle::{
    EffectModel, EngineModel, EventModel, Progress, RuntimeModel, Stopped,
};
use crate::manager::{ManagerError, ManagerErrorModel, ManagerMode, ShutdownAction};
use crate::model;
use crate::model::ServiceId;
use crate::pending;
use crate::promises;
use crate::runtime;
use crate::runtime::{
    DesiredState, ObservedState, RuntimeEffect, RuntimeEngine, RuntimeError, RuntimeErrorModel,
};
use crate::text;

verus! {

broadcast use vstd::string::group_string_axioms;

/// A signal that the manager knows.
#[derive(Clone, Copy, Debug, PartialEq, Eq, Structural)]
pub enum Signal {
    Child,
    Terminate,
    Interrupt,
    Hangup,
    Other,
}

/// What a signal means.
#[derive(Clone, Copy, Debug, PartialEq, Eq, Structural)]
pub enum SignalMeaning {
    CollectExits,
    Shutdown(ShutdownAction),
    Reload,
    Ignore,
}

/// What a signal means to a manager.
pub open spec fn meaning(signal: Signal, mode: ManagerMode) -> SignalMeaning {
    match signal {
        Signal::Child => SignalMeaning::CollectExits,
        Signal::Terminate => SignalMeaning::Shutdown(
            if mode == ManagerMode::System {
                ShutdownAction::Poweroff
            } else {
                ShutdownAction::Exit
            },
        ),
        Signal::Interrupt => SignalMeaning::Shutdown(
            if mode == ManagerMode::System {
                ShutdownAction::Reboot
            } else {
                ShutdownAction::Exit
            },
        ),
        Signal::Hangup => SignalMeaning::Reload,
        Signal::Other => SignalMeaning::Ignore,
    }
}

/// What a signal means to a manager.
pub fn signal_meaning(signal: Signal, mode: ManagerMode) -> (r: SignalMeaning)
    ensures
        r == meaning(signal, mode),
{
    match signal {
        Signal::Child => SignalMeaning::CollectExits,
        Signal::Terminate => SignalMeaning::Shutdown(
            if mode == ManagerMode::System {
                ShutdownAction::Poweroff
            } else {
                ShutdownAction::Exit
            },
        ),
        Signal::Interrupt => SignalMeaning::Shutdown(
            if mode == ManagerMode::System {
                ShutdownAction::Reboot
            } else {
                ShutdownAction::Exit
            },
        ),
        Signal::Hangup => SignalMeaning::Reload,
        Signal::Other => SignalMeaning::Ignore,
    }
}

/// What a shutdown is doing: it waits for the services to stop, then for those of the
/// shutdown group to do their work, and at last for everything that is left to stop.
#[derive(Debug)]
pub enum ShutdownPhase {
    Stopping,
    Running(Vec<ServiceId>),
    Finishing,
}

/// A shutdown under way.
#[derive(Debug)]
pub struct ShutdownState {
    pub action: ShutdownAction,
    pub phase: ShutdownPhase,
}

/// What a [`ShutdownPhase`] waits for.
#[verifier::ext_equal]
pub enum PhaseModel {
    Stopping,
    Running(Seq<Seq<char>>),
    Finishing,
}

/// What a [`ShutdownState`] holds.
#[verifier::ext_equal]
pub struct ShutdownModel {
    pub action: ShutdownAction,
    pub phase: PhaseModel,
}

impl View for ShutdownState {
    type V = ShutdownModel;

    open spec fn view(&self) -> ShutdownModel {
        ShutdownModel {
            action: self.action,
            phase: match self.phase {
                ShutdownPhase::Stopping => PhaseModel::Stopping,
                ShutdownPhase::Running(ids) => PhaseModel::Running(model::id_texts(ids@)),
                ShutdownPhase::Finishing => PhaseModel::Finishing,
            },
        }
    }
}

/// What an optional shutdown holds.
pub open spec fn shutdown_model(state: Option<ShutdownState>) -> Option<ShutdownModel> {
    match state {
        Some(state) => Some(state@),
        None => None,
    }
}

/// Everything told to stop, and a configuration that waits given up.
pub open spec fn wound_down(e: EngineModel) -> lifecycle::Outcome {
    lifecycle::stop_all(EngineModel { pending: None, ..e })
}

/// The shutdown that begins, the engine and the effects, or why none begins: the shutdown
/// group is not known.
pub open spec fn begin_result(e: EngineModel, action: ShutdownAction) -> Result<
    (ShutdownModel, lifecycle::Outcome),
    ManagerErrorModel,
> {
    match e.snapshot.shutdown_group {
        None => Ok(
            (
                ShutdownModel { action, phase: PhaseModel::Finishing },
                wound_down(e),
            ),
        ),
        Some(group) => if e.snapshot.catalog.contains(group) {
            Ok(
                (
                    ShutdownModel { action, phase: PhaseModel::Stopping },
                    wound_down(e),
                ),
            )
        } else {
            Err(ManagerErrorModel::Runtime(RuntimeErrorModel::UnknownTarget(group)))
        },
    }
}

/// Begins a shutdown: everything is stopped, dependants first, and a configuration that
/// waits is given up. A shutdown under way goes on as it is.
pub fn begin_shutdown(
    engine: &mut RuntimeEngine,
    shutdown: &mut Option<ShutdownState>,
    action: ShutdownAction,
) -> (r: Result<Vec<RuntimeEffect>, ManagerError>)
    requires
        old(engine)@.consistent(),
    ensures
        final(engine)@.consistent(),
        *old(shutdown) is Some ==> (r matches Ok(effects) && effects@.len() == 0) && final(engine)@
            == old(engine)@ && *final(shutdown) == *old(shutdown),
        *old(shutdown) is None ==> (match r {
            Ok(effects) => match begin_result(old(engine)@, action) {
                Ok((state, outcome)) => {
                    &&& shutdown_model(*final(shutdown)) == Some(state)
                    &&& final(engine)@ == outcome.engine
                    &&& runtime::effect_models(effects@) == outcome.effects
                },
                Err(_) => false,
            },
            Err(e) => {
                &&& begin_result(old(engine)@, action) == Err::<
                    (ShutdownModel, lifecycle::Outcome),
                    ManagerErrorModel,
                >(e@)
                &&& final(engine)@ == old(engine)@
                &&& *final(shutdown) is None
            },
        }),
{
    if shutdown.is_some() {
        return Ok(Vec::new());
    }
    let phase = match engine.snapshot().shutdown_group() {
        None => ShutdownPhase::Finishing,
        Some(group) => {
            if engine.snapshot().activation_services(group).is_none() {
                return Err(ManagerError::Runtime(RuntimeError::UnknownTarget(group.clone())));
            }
            ShutdownPhase::Stopping
        },
    };
    engine.drop_pending();
    let effects = engine.stop_all();
    *shutdown = Some(ShutdownState { action, phase });
    Ok(effects)
}

/// Whether nothing should run and no configuration waits.
pub open spec fn winding_down(e: EngineModel) -> bool {
    &&& e.pending is None
    &&& forall|i: int|
        0 <= i < e.services.len() ==> (#[trigger] e.services[i]).desired == DesiredState::Inactive
}

/// Whether no effect starts anything.
pub open spec fn starts_nothing(effects: Seq<EffectModel>) -> bool {
    forall|k: int| 0 <= k < effects.len() ==> !(#[trigger] effects[k] is Spawn)
}

proof fn stop_from_winds_down(c: CatalogModel, p: Stopped, i: nat)
    requires
        p.services.len() == c.services.len(),
        forall|k: int|
            0 <= k < p.services.len() ==> (#[trigger] p.services[k]).desired
                == DesiredState::Inactive,
        starts_nothing(p.effects),
    ensures
        ({
            let q = lifecycle::stop_from(c, p, i);
            &&& q.services.len() == c.services.len()
            &&& forall|k: int|
                0 <= k < q.services.len() ==> (#[trigger] q.services[k]).desired
                    == DesiredState::Inactive
            &&& starts_nothing(q.effects)
        }),
    decreases c.services.len() - i,
{
    if i < c.services.len() {
        stop_from_winds_down(c, lifecycle::stop_one(c, p, i as int), i + 1);
    }
}

proof fn propagate_from_idles(c: CatalogModel, p: Stopped, i: nat)
    requires
        p.services.len() == c.services.len(),
        forall|k: int|
            0 <= k < p.services.len() ==> (#[trigger] p.services[k]).desired
                == DesiredState::Inactive,
    ensures
        lifecycle::propagate_from(c, p, i) == p,
    decreases c.services.len() - i,
{
    if i < c.services.len() {
        assert(p.services[i as int].desired == DesiredState::Inactive);
        propagate_from_idles(c, p, i + 1);
    }
}

proof fn schedule_from_idles(c: CatalogModel, p: Progress, i: nat, now_ms: u64)
    requires
        p.services.len() == c.services.len(),
        forall|k: int|
            0 <= k < p.services.len() ==> (#[trigger] p.services[k]).desired
                == DesiredState::Inactive,
    ensures
        lifecycle::schedule_from(c, p, i, now_ms) == p,
    decreases c.services.len() - i,
{
    if i < c.services.len() && p.available > 0 {
        assert(p.services[i as int].desired == DesiredState::Inactive);
        schedule_from_idles(c, p, i + 1, now_ms);
    }
}

/// A shutdown that begins leaves nothing that should run and starts nothing.
pub proof fn shutdown_begin_law(
    e: EngineModel,
    action: ShutdownAction,
    state: ShutdownModel,
    outcome: lifecycle::Outcome,
)
    requires
        e.consistent(),
        begin_result(e, action) == Ok::<_, ManagerErrorModel>((state, outcome)),
    ensures
        winding_down(outcome.engine),
        starts_nothing(outcome.effects),
{
    let c = e.snapshot.catalog;
    let told = Seq::new(
        c.services.len(),
        |i: int|
            RuntimeModel {
                desired: DesiredState::Inactive,
                restart_blocked: false,
                waiting_restart: false,
                blocked_by: None,
                ..e.services[i]
            },
    );
    stop_from_winds_down(c, Stopped { services: told, effects: Seq::empty() }, 0);
}

/// While a shutdown stops the services, no event makes anything start or be wanted again.
pub proof fn shutdown_stays_law(e: EngineModel, event: EventModel)
    requires
        e.consistent(),
        winding_down(e),
    ensures
        winding_down(lifecycle::handle(e, event).engine),
        starts_nothing(lifecycle::handle(e, event).effects),
{
    if lifecycle::is_current(e, event) {
        let c = e.snapshot.catalog;
        let first = lifecycle::reacted(e, event);
        let i = lifecycle::position(c, event.service())->0;
        assert(e.services[i].desired == DesiredState::Inactive);
        let start = Stopped { services: first.services, effects: Seq::empty() };
        propagate_from_idles(c, start, 0);
        stop_from_winds_down(c, start, 0);
        let stopped = lifecycle::schedule_stops(c, first.services);
        let ready = lifecycle::recover_all(c, stopped.services);
        assert(ready =~= stopped.services);
        schedule_from_idles(
            c,
            Progress {
                services: ready,
                effects: Seq::empty(),
                available: lifecycle::capacity(e.snapshot, ready),
            },
            0,
            event.at_ms(),
        );
    }
}

/// Whether every service is at rest.
pub open spec fn all_at_rest(e: EngineModel) -> bool {
    forall|i: int| 0 <= i < e.services.len() ==> (#[trigger] e.services[i]).at_rest()
}

fn services_at_rest(engine: &RuntimeEngine) -> (r: bool)
    requires
        engine@.consistent(),
    ensures
        r == all_at_rest(engine@),
{
    let statuses = engine.statuses();
    let mut i: usize = 0;
    while i < statuses.len()
        invariant
            statuses@.len() == engine@.services.len(),
            forall|k: int|
                0 <= k < statuses@.len() ==> (#[trigger] statuses@[k]).1@
                    == engine@.services[k].status(),
            i <= statuses@.len(),
            forall|k: int| 0 <= k < i ==> (#[trigger] engine@.services[k]).at_rest(),
        decreases statuses@.len() - i,
    {
        let observed = statuses[i].1.observed;
        proof {
            assert(statuses@[i as int].1@ == engine@.services[i as int].status());
        }
        if observed != ObservedState::Inactive && observed != ObservedState::Failed {
            proof {
                assert(!engine@.services[i as int].at_rest());
            }
            return false;
        }
        i = i + 1;
    }
    true
}

/// The services of the shutdown group, where there is one.
pub open spec fn group_services(e: EngineModel) -> Option<Seq<Seq<char>>> {
    match e.snapshot.shutdown_group {
        Some(group) => config::activation_ids(e.snapshot.catalog, group),
        None => None,
    }
}

/// Whether each of the named services has done its work.
pub open spec fn all_through(e: EngineModel, ids: Seq<Seq<char>>) -> bool {
    forall|k: int|
        0 <= k < ids.len() ==> (pending::state_of(e, #[trigger] ids[k]) matches Some(r)
            && r.through())
}

fn are_through(engine: &RuntimeEngine, ids: &Vec<ServiceId>) -> (r: bool)
    requires
        engine@.consistent(),
    ensures
        r == all_through(engine@, model::id_texts(ids@)),
{
    let ghost names = model::id_texts(ids@);
    let mut k: usize = 0;
    while k < ids.len()
        invariant
            engine@.consistent(),
            names == model::id_texts(ids@),
            k <= ids@.len(),
            forall|q: int|
                0 <= q < k ==> (pending::state_of(engine@, #[trigger] names[q]) matches Some(r)
                    && r.through()),
        decreases ids@.len() - k,
    {
        proof {
            assert(names[k as int] == ids@[k as int]@);
        }
        match engine.is_through(&ids[k]) {
            Some(true) => {},
            _ => return false,
        }
        k = k + 1;
    }
    true
}

/// How a shutdown goes on, where it does: once everything has stopped the shutdown group is
/// started, and once each service of the group has done its work, what is left is stopped.
/// `idle` says that nothing has a process.
pub open spec fn advance_result(
    e: EngineModel,
    state: ShutdownModel,
    idle: bool,
    now_ms: u64,
) -> Option<(ShutdownModel, lifecycle::Outcome)> {
    match state.phase {
        PhaseModel::Stopping => if idle && all_at_rest(e) {
            match group_services(e) {
                Some(ids) => Some(
                    (
                        ShutdownModel { phase: PhaseModel::Running(ids), ..state },
                        lifecycle::start(
                            e,
                            e.snapshot.catalog.node(e.snapshot.shutdown_group->0),
                            now_ms,
                        ),
                    ),
                ),
                None => Some(
                    (
                        ShutdownModel { phase: PhaseModel::Finishing, ..state },
                        lifecycle::stop_all(e),
                    ),
                ),
            }
        } else {
            None
        },
        PhaseModel::Running(ids) => if all_through(e, ids) {
            Some(
                (
                    ShutdownModel { phase: PhaseModel::Finishing, ..state },
                    lifecycle::stop_all(e),
                ),
            )
        } else {
            None
        },
        PhaseModel::Finishing => None,
    }
}

/// The shutdown group is started only once everything else has stopped.
pub proof fn shutdown_order_law(
    e: EngineModel,
    state: ShutdownModel,
    idle: bool,
    now_ms: u64,
    next: ShutdownModel,
    outcome: lifecycle::Outcome,
)
    requires
        advance_result(e, state, idle, now_ms) == Some((next, outcome)),
        next.phase is Running,
    ensures
        state.phase is Stopping,
        idle,
        all_at_rest(e),
{
}

/// Starts the services of the shutdown group, where there are any, and hands their names
/// out.
fn start_group(engine: &mut RuntimeEngine, now_ms: u64) -> (r: Option<
    (Vec<ServiceId>, Vec<RuntimeEffect>),
>)
    requires
        old(engine)@.consistent(),
    ensures
        final(engine)@.consistent(),
        match r {
            Some((ids, effects)) => {
                let started = lifecycle::start(
                    old(engine)@,
                    old(engine)@.snapshot.catalog.node(
                        old(engine)@.snapshot.shutdown_group->0,
                    ),
                    now_ms,
                );
                &&& group_services(old(engine)@) == Some(model::id_texts(ids@))
                &&& final(engine)@ == started.engine
                &&& runtime::effect_models(effects@) == started.effects
            },
            None => group_services(old(engine)@) is None && final(engine)@ == old(engine)@,
        },
{
    let group = match engine.snapshot().shutdown_group() {
        Some(group) => group.clone(),
        None => return None,
    };
    let ids = match engine.snapshot().activation_services(&group) {
        Some(ids) => ids,
        None => return None,
    };
    match engine.start(&group, now_ms) {
        Ok(effects) => Some((ids, effects)),
        Err(_) => None,
    }
}

/// Goes on with a shutdown, where it can.
pub fn advance_shutdown(
    engine: &mut RuntimeEngine,
    shutdown: &mut Option<ShutdownState>,
    idle: bool,
    now_ms: u64,
) -> (r: Option<Vec<RuntimeEffect>>)
    requires
        old(engine)@.consistent(),
    ensures
        final(engine)@.consistent(),
        ({
            let next = match shutdown_model(*old(shutdown)) {
                Some(state) => advance_result(old(engine)@, state, idle, now_ms),
                None => None,
            };
            match r {
                Some(effects) => match next {
                    Some((state, outcome)) => {
                        &&& shutdown_model(*final(shutdown)) == Some(state)
                        &&& final(engine)@ == outcome.engine
                        &&& runtime::effect_models(effects@) == outcome.effects
                    },
                    None => false,
                },
                None => {
                    &&& next is None
                    &&& final(engine)@ == old(engine)@
                    &&& *final(shutdown) == *old(shutdown)
                },
            }
        }),
{
    let (stopped, through, action) = match shutdown {
        Some(state) => match &state.phase {
            ShutdownPhase::Stopping => (idle && services_at_rest(engine), false, state.action),
            ShutdownPhase::Running(ids) => (
                false,
                are_through(engine, ids),
                state.action,
            ),
            ShutdownPhase::Finishing => (false, false, state.action),
        },
        None => (false, false, ShutdownAction::Exit),
    };
    if stopped {
        if let Some((ids, effects)) = start_group(engine, now_ms) {
            *shutdown = Some(ShutdownState { action, phase: ShutdownPhase::Running(ids) });
            return Some(effects);
        }
    }
    if stopped || through {
        *shutdown = Some(ShutdownState { action, phase: ShutdownPhase::Finishing });
        return Some(engine.stop_all());
    }
    None
}

/// How the manager ends, once everything has stopped. `idle` says that neither a service
/// nor a helper nor the rescue command has a process.
pub fn completed_shutdown(
    engine: &RuntimeEngine,
    shutdown: &Option<ShutdownState>,
    idle: bool,
) -> (r: Option<ShutdownAction>)
    requires
        engine@.consistent(),
    ensures
        r == (match shutdown_model(*shutdown) {
            Some(state) => if state.phase is Finishing && idle && all_at_rest(engine@) {
                Some(state.action)
            } else {
                None
            },
            None => None,
        }),
{
    match shutdown {
        Some(state) => match &state.phase {
            ShutdownPhase::Finishing => if idle && services_at_rest(engine) {
                Some(state.action)
            } else {
                None
            },
            _ => None,
        },
        None => None,
    }
}

/// A rescue: why, whether its command has a process, and whether the system has recovered.
#[derive(Debug, PartialEq, Eq)]
pub struct RescueState {
    pub reason: String,
    pub running: bool,
    pub recovering: bool,
}

/// What a [`RescueState`] holds.
#[verifier::ext_equal]
pub struct RescueModel {
    pub reason: Seq<char>,
    pub running: bool,
    pub recovering: bool,
}

impl View for RescueState {
    type V = RescueModel;

    open spec fn view(&self) -> RescueModel {
        RescueModel {
            reason: self.reason@,
            running: self.running,
            recovering: self.recovering,
        }
    }
}

/// What an optional rescue holds.
pub open spec fn rescue_model(state: Option<RescueState>) -> Option<RescueModel> {
    match state {
        Some(state) => Some(state@),
        None => None,
    }
}

/// How long a rescue command that has ended is left alone, in milliseconds.
pub const RESCUE_PAUSE_MS: u64 = 1000;

/// A rescue that begins.
pub open spec fn new_rescue(reason: Seq<char>) -> RescueModel {
    RescueModel { reason, running: false, recovering: false }
}

/// Enters rescue, unless it is entered already or a shutdown is under way.
pub fn enter_rescue(rescue: &mut Option<RescueState>, reason: String, shutting_down: bool) -> (r:
    bool)
    ensures
        r == (*old(rescue) is None && !shutting_down),
        r ==> rescue_model(*final(rescue)) == Some(new_rescue(reason@)),
        !r ==> *final(rescue) == *old(rescue),
{
    if rescue.is_some() || shutting_down {
        return false;
    }
    *rescue = Some(RescueState { reason, running: false, recovering: false });
    true
}

/// Whether the rescue command is to be started.
pub open spec fn starts_rescue(rescue: Option<RescueModel>, shutting_down: bool) -> bool {
    rescue matches Some(state) && !state.recovering && !state.running && !shutting_down
}

/// Whether the rescue command is to be started: in rescue, where it does not run, unless
/// the system has recovered or is being shut down.
pub fn should_start_rescue(rescue: &Option<RescueState>, shutting_down: bool) -> (r: bool)
    ensures
        r == starts_rescue(rescue_model(*rescue), shutting_down),
{
    match rescue {
        Some(state) => !state.recovering && !state.running && !shutting_down,
        None => false,
    }
}

/// What is left of a rescue once its command has ended, and whether the command is to be
/// started again after a pause.
pub open spec fn after_rescue(rescue: Option<RescueModel>, ended: bool, shutting_down: bool) -> (
    Option<RescueModel>,
    bool,
) {
    match rescue {
        None => (None, false),
        Some(state) => if state.running && !ended {
            (Some(state), false)
        } else {
            let left = RescueModel { running: false, ..state };
            if state.running && !state.recovering && !shutting_down {
                (Some(left), true)
            } else if state.recovering {
                (None, false)
            } else {
                (Some(left), false)
            }
        },
    }
}

/// Looks after the rescue command: `ended` says that its process, where it has one, is
/// gone. Returns whether the command is to be started again after a pause; a rescue that
/// the system has recovered from is over.
pub fn poll_rescue(rescue: &mut Option<RescueState>, ended: bool, shutting_down: bool) -> (r: bool)
    ensures
        (rescue_model(*final(rescue)), r) == after_rescue(
            rescue_model(*old(rescue)),
            ended,
            shutting_down,
        ),
{
    let (known, running, recovering) = match rescue {
        Some(state) => (true, state.running, state.recovering),
        None => (false, false, false),
    };
    if !known || (running && !ended) {
        return false;
    }
    if running && !recovering && !shutting_down {
        if let Some(state) = rescue {
            state.running = false;
        }
        return true;
    }
    if recovering {
        *rescue = None;
    } else if let Some(state) = rescue {
        state.running = false;
    }
    false
}

/// Marks a rescue as recovered from. Returns whether its command has a process, which is
/// to be killed.
pub fn recover_rescue(rescue: &mut Option<RescueState>) -> (r: bool)
    ensures
        match rescue_model(*old(rescue)) {
            None => !r && *final(rescue) is None,
            Some(state) => r == state.running && rescue_model(*final(rescue)) == Some(
                RescueModel { recovering: true, ..state },
            ),
        },
{
    match rescue {
        None => false,
        Some(state) => {
            state.recovering = true;
            state.running
        },
    }
}

/// The reason of a rescue that the system has not recovered from.
pub open spec fn shown_reason(rescue: Option<RescueModel>) -> Option<Seq<char>> {
    match rescue {
        Some(state) => if state.recovering {
            None
        } else {
            Some(state.reason)
        },
        None => None,
    }
}

/// The reason of a rescue that the system has not recovered from.
pub fn rescue_reason(rescue: &Option<RescueState>) -> (r: Option<String>)
    ensures
        text::optional_text(r) == shown_reason(rescue_model(*rescue)),
{
    match rescue {
        Some(state) => if state.recovering {
            None
        } else {
            Some(state.reason.clone())
        },
        None => None,
    }
}

/// What the watch over the boot graph finds.
#[derive(Debug, PartialEq, Eq)]
pub enum BootCheck {
    Failed(String),
    Settled,
    Waiting,
}

/// Whether everything that the default group activates is active or has failed.
pub open spec fn boot_settled(e: EngineModel) -> bool {
    match config::activation_ids(e.snapshot.catalog, e.snapshot.default_group) {
        Some(ids) => forall|k: int|
            0 <= k < ids.len() ==> (pending::state_of(e, #[trigger] ids[k]) matches Some(r) && (
            r.observed == ObservedState::Active || r.observed == ObservedState::Failed)),
        None => false,
    }
}

/// Watches the boot graph of the system manager while it is not in rescue: a required
/// service that has failed is a reason for rescue, and the boot has settled once
/// everything in it is active or has failed.
pub fn check_boot(engine: &RuntimeEngine, mode: ManagerMode, in_rescue: bool, checked: bool) -> (r:
    BootCheck)
    requires
        engine@.consistent(),
    ensures
        mode == ManagerMode::User || in_rescue ==> r is Waiting,
        mode == ManagerMode::System && !in_rescue ==> (match lifecycle::boot_failure(engine@) {
            Some(chain) => r matches BootCheck::Failed(reason) && reason@
                == "required boot chain failed: "@ + chain,
            None => if !checked && boot_settled(engine@) {
                r is Settled
            } else {
                r is Waiting
            },
        }),
{
    if mode != ManagerMode::System || in_rescue {
        return BootCheck::Waiting;
    }
    if let Some(chain) = engine.boot_failure() {
        return BootCheck::Failed(
            text::concat2("required boot chain failed: ", chain.as_str()),
        );
    }
    if checked {
        return BootCheck::Waiting;
    }
    let ids = match engine.snapshot().activation_services(engine.snapshot().default_group()) {
        Some(ids) => ids,
        None => return BootCheck::Waiting,
    };
    let ghost names = model::id_texts(ids@);
    let mut k: usize = 0;
    while k < ids.len()
        invariant
            engine@.consistent(),
            names == model::id_texts(ids@),
            config::activation_ids(engine@.snapshot.catalog, engine@.snapshot.default_group)
                == Some(names),
            mode == ManagerMode::System && !in_rescue && !checked,
            lifecycle::boot_failure(engine@) is None,
            k <= ids@.len(),
            forall|q: int|
                0 <= q < k ==> (pending::state_of(engine@, #[trigger] names[q]) matches Some(s)
                    && (s.observed == ObservedState::Active || s.observed
                    == ObservedState::Failed)),
        decreases ids@.len() - k,
    {
        proof {
            assert(names[k as int] == ids@[k as int]@);
        }
        let settled = match engine.status(&ids[k]) {
            Some(status) => status.observed == ObservedState::Active || status.observed
                == ObservedState::Failed,
            None => false,
        };
        if !settled {
            proof {
                assert(!boot_settled(engine@));
            }
            return BootCheck::Waiting;
        }
        k = k + 1;
    }
    BootCheck::Settled
}

/// What signals mean: the end of a child is collected, a hangup reloads, and the two that end
/// a program end a user's manager; the system's they tell to power off and to reboot. No
/// other signal means anything.
pub proof fn signal_law(signal: Signal, mode: ManagerMode)
    ensures
        meaning(signal, mode) == SignalMeaning::CollectExits <==> signal == Signal::Child,
        meaning(signal, mode) == SignalMeaning::Reload <==> signal == Signal::Hangup,
        meaning(signal, mode) == SignalMeaning::Ignore <==> signal == Signal::Other,
        meaning(signal, mode) == SignalMeaning::Shutdown(ShutdownAction::Poweroff) <==> signal
            == Signal::Terminate && mode == ManagerMode::System,
        meaning(signal, mode) == SignalMeaning::Shutdown(ShutdownAction::Reboot) <==> signal
            == Signal::Interrupt && mode == ManagerMode::System,
        meaning(signal, mode) == SignalMeaning::Shutdown(ShutdownAction::Exit) <==> mode
            == ManagerMode::User && (signal == Signal::Terminate || signal == Signal::Interrupt),
{
}

/// How a shutdown begins: nothing is to run any longer and no configuration waits; the action
/// is the one that was asked for. Where there is a group for shutting down it waits for
/// everything to stop; where there is none, it is at its end once everything has. It does not
/// begin where that group is not known.
pub proof fn begin_law(e: EngineModel, action: ShutdownAction, i: int)
    requires
        e.consistent(),
        0 <= i < e.services.len(),
    ensures
        match begin_result(e, action) {
            Ok((state, outcome)) => {
                &&& state.action == action
                &&& state.phase is Finishing <==> e.snapshot.shutdown_group is None
                &&& state.phase is Stopping <==> e.snapshot.shutdown_group is Some
                &&& outcome.engine.pending is None
                &&& outcome.engine.snapshot == e.snapshot
                &&& outcome.engine.services[i].desired == DesiredState::Inactive
                &&& !outcome.engine.services[i].waiting_restart
                &&& outcome.engine.services[i].generation == e.services[i].generation
            },
            Err(error) => e.snapshot.shutdown_group matches Some(group) && !catalog::known(
                e.snapshot.catalog,
                group,
            ) && error == ManagerErrorModel::Runtime(RuntimeErrorModel::UnknownTarget(group)),
        },
{
    promises::stop_all_law(EngineModel { pending: None, ..e }, i);
    if let Some(group) = e.snapshot.shutdown_group {
        catalog::known_law(e.snapshot.catalog, group);
    }
}

/// Whether a service of the shutdown group keeps the shutdown waiting no longer: it is active
/// without a process, has failed, or is inactive and must not be started again.
pub open spec fn done(r: RuntimeModel) -> bool {
    ||| r.observed == ObservedState::Active && !r.has_process
    ||| r.observed == ObservedState::Failed
    ||| r.observed == ObservedState::Inactive && r.restart_blocked
}

/// When a shutdown goes on: from stopping once there is no process and each service is
/// inactive or has failed, from the group once each of its services is known and done, and
/// not from the end. Its action stays.
pub proof fn advance_law(e: EngineModel, state: ShutdownModel, idle: bool, now_ms: u64)
    requires
        e.consistent(),
    ensures
        advance_result(e, state, idle, now_ms) is Some <==> match state.phase {
            PhaseModel::Stopping => idle && forall|i: int|
                0 <= i < e.services.len() ==> (#[trigger] e.services[i]).observed
                    == ObservedState::Inactive || e.services[i].observed == ObservedState::Failed,
            PhaseModel::Running(ids) => forall|k: int|
                0 <= k < ids.len() ==> (pending::state_of(e, #[trigger] ids[k]) matches Some(r)
                    && done(r)),
            PhaseModel::Finishing => false,
        },
        advance_result(e, state, idle, now_ms) matches Some((next, outcome)) ==> {
            &&& next.action == state.action
            &&& outcome.engine.snapshot == e.snapshot
            &&& outcome.engine.pending == e.pending
            &&& next.phase is Finishing ==> forall|i: int|
                0 <= i < e.services.len() ==> (#[trigger] outcome.engine.services[i]).desired
                    == DesiredState::Inactive
            &&& next.phase is Running || next.phase is Finishing
            &&& state.phase is Running ==> next.phase is Finishing
            &&& next.phase matches PhaseModel::Running(ids) ==> (e.snapshot.shutdown_group
                matches Some(group) && catalog::known(e.snapshot.catalog, group)
                && config::activation_ids(e.snapshot.catalog, group) == Some(ids))
            &&& state.phase is Stopping && (e.snapshot.shutdown_group matches Some(group)
                && catalog::known(e.snapshot.catalog, group)) ==> next.phase is Running
        },
{
    if let Some((next, outcome)) = advance_result(e, state, idle, now_ms) {
        if next.phase is Finishing {
            assert forall|i: int| 0 <= i < e.services.len() implies (
            #[trigger] outcome.engine.services[i]).desired == DesiredState::Inactive by {
                promises::stop_all_law(e, i);
            }
        }
    }
    if let Some(group) = e.snapshot.shutdown_group {
        catalog::known_law(e.snapshot.catalog, group);
    }
}

/// Starting the group for shutting down asks for what it activates, and for nothing else.
pub proof fn group_start_law(e: EngineModel, state: ShutdownModel, idle: bool, now_ms: u64, i: int)
    requires
        e.consistent(),
        laws::all_sound(e.services),
        0 <= i < e.services.len(),
        state.phase is Stopping,
    ensures
        advance_result(e, state, idle, now_ms) matches Some((next, outcome)) ==> next.phase
            is Running ==> {
            let group = e.snapshot.shutdown_group->0;
            let g = e.snapshot.catalog.node(group);
            &&& 0 <= g < e.snapshot.catalog.len()
            &&& e.snapshot.catalog.id(g) == group
            &&& e.snapshot.catalog.activates(g, i) ==> outcome.engine.services[i].desired
                == DesiredState::Active
            &&& !e.snapshot.catalog.activates(g, i) ==> outcome.engine.services[i].desired
                == e.services[i].desired
        },
{
    if let Some((next, outcome)) = advance_result(e, state, idle, now_ms) {
        if next.phase is Running {
            let group = e.snapshot.shutdown_group->0;
            catalog::known_law(e.snapshot.catalog, group);
            promises::start_law(e, e.snapshot.catalog.node(group), now_ms);
        }
    }
}

/// How a rescue goes: its command is started while it has no process, the system has not
/// recovered and is not being shut down. While the command runs nothing changes. Once it has
/// ended it is started again, after a pause, unless the system has recovered, which ends the
/// rescue, or is being shut down. The reason stays.
pub proof fn rescue_law(state: RescueModel, ended: bool, shutting_down: bool)
    ensures
        !starts_rescue(None, shutting_down),
        starts_rescue(Some(state), shutting_down) <==> !state.running && !state.recovering
            && !shutting_down,
        starts_rescue(Some(new_rescue(state.reason)), false),
        shown_reason(Some(new_rescue(state.reason))) == Some(state.reason),
        shown_reason(Some(state)) == if state.recovering {
            None::<Seq<char>>
        } else {
            Some(state.reason)
        },
        after_rescue(None, ended, shutting_down) == (None::<RescueModel>, false),
        match after_rescue(Some(state), ended, shutting_down) {
            (left, again) => {
                &&& state.running && !ended ==> left == Some(state) && !again
                &&& again <==> state.running && ended && !state.recovering && !shutting_down
                &&& left is None <==> state.recovering && !(state.running && !ended)
                &&& left matches Some(after) ==> after.reason == state.reason && after.recovering
                    == state.recovering && (after.running <==> state.running && !ended)
                &&& again ==> starts_rescue(left, shutting_down)
            },
        },
        RESCUE_PAUSE_MS == 1000,
{
}

/// When a boot has settled: once each service that the default group activates is active or
/// has failed.
pub proof fn settled_law(e: EngineModel)
    requires
        e.consistent(),
    ensures
        ({
            let c = e.snapshot.catalog;
            let g = c.node(e.snapshot.default_group);
            &&& 0 <= g < c.len() && c.id(g) == e.snapshot.default_group
            &&& boot_settled(e) <==> forall|j: int|
                0 <= j < c.services.len() && #[trigger] c.activates(g, j) ==> e.services[j].observed
                    == ObservedState::Active || e.services[j].observed == ObservedState::Failed
        }),
{
    let c = e.snapshot.catalog;
    let groups = catalog::group_ids(c.groups);
    let h = choose|h: int| 0 <= h < groups.len() && groups[h] == e.snapshot.default_group;
    assert(c.id(c.services.len() + h) == e.snapshot.default_group);
    assert(c.contains(e.snapshot.default_group));
    let g = c.node(e.snapshot.default_group);
    let nodes = catalog::activated_services(c, g);
    let ids = c.ids(nodes);
    let holds = |j: int| c.activates(g, j);
    graph::selected_law(holds, c.services.len());
    assert forall|k: int| 0 <= k < ids.len() implies pending::state_of(e, #[trigger] ids[k])
        == Some(e.services[nodes[k]]) by {
        assert(c.activates(g, nodes[k]));
        lifecycle::position_unique(c, nodes[k]);
        assert(ids[k] == c.services[nodes[k]].id);
    }
    if boot_settled(e) {
        assert forall|j: int|
            0 <= j < c.services.len() && #[trigger] c.activates(g, j) implies e.services[j].observed
            == ObservedState::Active || e.services[j].observed == ObservedState::Failed by {
            assert(holds(j));
            let k = choose|k: int| 0 <= k < nodes.len() && nodes[k] == j;
            assert(pending::state_of(e, ids[k]) == Some(e.services[j]));
        }
    } else {
        let k = choose|k: int|
            0 <= k < ids.len() && !(pending::state_of(e, #[trigger] ids[k]) matches Some(r) && (
            r.observed == ObservedState::Active || r.observed == ObservedState::Failed));
        assert(pending::state_of(e, ids[k]) == Some(e.services[nodes[k]]));
        assert(c.activates(g, nodes[k]));
    }
}

/// When a boot has failed: where a service that the default group demands should run and has
/// come to an end by itself, or has failed for want of a service that has. The chain that is
/// shown leads from the default group along what is required to such a service.
pub proof fn boot_failure_law(e: EngineModel)
    requires
        e.consistent(),
    ensures
        ({
            let c = e.snapshot.catalog;
            let g = c.node(e.snapshot.default_group);
            &&& lifecycle::boot_failure(e) is Some <==> exists|j: int|
                0 <= j < c.services.len() && #[trigger] c.demands(g, j) && lost(e, j)
            &&& lifecycle::boot_failure(e) matches Some(shown) ==> exists|path: Seq<int>|
                {
                    &&& shown == text::join(#[trigger] c.ids(path), " -> "@)
                    &&& path.len() > 0 && path[0] == g
                    &&& 0 <= path[path.len() - 1] < c.services.len()
                    &&& lost(e, path[path.len() - 1])
                    &&& forall|i: int|
                        0 <= i < path.len() - 1 ==> c.dependencies(
                            #[trigger] path[i],
                        ).requires.contains(c.id(path[i + 1]))
                }
        }),
{
    let c = e.snapshot.catalog;
    let g = c.node(e.snapshot.default_group);
    lifecycle::boot_walk_law(e);
    match lifecycle::boot_walk(e) {
        Some(path) => {
            assert(graph::reaches(c.len(), c.requirement(), g, path.last()));
            assert(c.demands(g, path.last()));
            assert(lost(e, path.last()));
            assert forall|i: int| 0 <= i < path.len() - 1 implies c.dependencies(
                #[trigger] path[i],
            ).requires.contains(c.id(path[i + 1])) by {
                assert(c.requirement()(path[i], path[i + 1]));
            }
            assert(lifecycle::boot_failure(e) == Some(text::join(c.ids(path), " -> "@)));
        },
        None => {
            assert forall|j: int|
                0 <= j < c.services.len() && #[trigger] c.demands(g, j) implies !lost(e, j) by {
                assert(!lifecycle::boot_failed(e, j));
            }
        },
    }
}

/// Whether a service should run and will not: it has come to an end by itself, or has failed
/// and needs one that has.
pub open spec fn lost(e: EngineModel, i: int) -> bool {
    &&& e.services[i].desired == DesiredState::Active
    &&& pending::ended(e.services[i]) || e.services[i].observed == ObservedState::Failed
        && exists|j: int|
        0 <= j < e.snapshot.catalog.services.len() && #[trigger] e.snapshot.catalog.needs(i, j)
            && pending::ended(e.services[j])
}

} // verus!
