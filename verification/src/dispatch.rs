//! What accepted requests do to the engine, and what they then wait for.

use std::sync::Arc;

use vstd::prelude::*;

use crate::catalog;
use crate::catalog::{CatalogModel, GroupModel, WarningModel};
use crate::config;
use crate::config::{ConfigSnapshot, RawManagerConfig, SnapshotModel};
use crate::graph;
use crate::identity::{AccountDatabase, AccountsModel, IdentityErrorModel};
use crate::laws;
use crate::lifecycle;
use crate::lifecycle::{EffectModel, EngineModel};
use crate::loader::LoadError;
use crate::manager;
use crate::manager::{ManagerError, ManagerErrorModel, ManagerMode};
use crate::model;
use crate::model::{
    ConfigError, DependenciesModel, ErrorModel, ManagerScope, RawDependencies, ResolvedIdentity,
    ServiceId,
};
use crate::pending::{PendingKind, PendingKindModel};
use crate::promises;
use crate::protocol::Operation;
use crate::request;
use crate::runtime;
use crate::runtime::{
    ApplyPlan, DesiredState, ExitOutcome, ObservedState, RuntimeEffect, RuntimeEngine,
    RuntimeError, RuntimeErrorModel, StopSignal,
};
use crate::text;

verus! {

broadcast use vstd::string::group_string_axioms;

/// What a request waits for once its effects are under way.
#[derive(Debug, PartialEq, Eq)]
pub enum Wait {
    Started { required: Vec<ServiceId>, wanted: Vec<ServiceId> },
    Applied(Vec<ServiceId>),
    Stopped,
    Restarted { service: ServiceId, previous_generation: u64 },
}

/// What a [`Wait`] is for.
#[verifier::ext_equal]
pub enum WaitModel {
    Started { required: Seq<Seq<char>>, wanted: Seq<Seq<char>> },
    Applied(Seq<Seq<char>>),
    Stopped,
    Restarted { service: Seq<char>, previous_generation: u64 },
}

impl View for Wait {
    type V = WaitModel;

    open spec fn view(&self) -> WaitModel {
        match *self {
            Wait::Started { required, wanted } => WaitModel::Started {
                required: model::id_texts(required@),
                wanted: model::id_texts(wanted@),
            },
            Wait::Applied(ids) => WaitModel::Applied(model::id_texts(ids@)),
            Wait::Stopped => WaitModel::Stopped,
            Wait::Restarted { service, previous_generation } => WaitModel::Restarted {
                service: service@,
                previous_generation,
            },
        }
    }
}

/// The names of the services among the first `n` that should not run.
pub open spec fn unwanted(e: EngineModel, n: nat) -> Seq<Seq<char>>
    decreases n,
{
    if n == 0 {
        Seq::empty()
    } else {
        let before = unwanted(e, (n - 1) as nat);
        if e.services[n - 1].desired == DesiredState::Inactive {
            before.push(e.snapshot.catalog.services[n - 1].id)
        } else {
            before
        }
    }
}

/// What a request waits for, in the state that its effects have left.
pub open spec fn wait_kind(e: EngineModel, wait: WaitModel) -> PendingKindModel {
    match wait {
        WaitModel::Started { required, wanted } => PendingKindModel::Start { required, wanted },
        WaitModel::Applied(ids) => PendingKindModel::Apply(ids),
        WaitModel::Stopped => PendingKindModel::Stop(unwanted(e, e.services.len())),
        WaitModel::Restarted { service, previous_generation } => PendingKindModel::Restart {
            service,
            previous_generation,
        },
    }
}

fn unwanted_services(engine: &RuntimeEngine) -> (r: Vec<ServiceId>)
    requires
        engine@.consistent(),
    ensures
        model::id_texts(r@) == unwanted(engine@, engine@.services.len()),
{
    let statuses = engine.statuses();
    let mut r: Vec<ServiceId> = Vec::new();
    let mut i: usize = 0;
    proof {
        assert(model::id_texts(r@) =~= Seq::empty());
    }
    while i < statuses.len()
        invariant
            statuses@.len() == engine@.services.len(),
            forall|k: int|
                0 <= k < statuses@.len() ==> (#[trigger] statuses@[k]).0@
                    == engine@.snapshot.catalog.services[k].id && statuses@[k].1@
                    == engine@.services[k].status(),
            i <= statuses@.len(),
            model::id_texts(r@) == unwanted(engine@, i as nat),
        decreases statuses@.len() - i,
    {
        let ghost before = r@;
        let entry = &statuses[i];
        proof {
            assert(statuses@[i as int].1@ == engine@.services[i as int].status());
        }
        if entry.1.desired == DesiredState::Inactive {
            r.push(entry.0.clone());
            proof {
                assert(model::id_texts(r@) =~= model::id_texts(before).push(
                    engine@.snapshot.catalog.services[i as int].id,
                ));
            }
        }
        i = i + 1;
    }
    r
}

/// What a request waits for, once its effects are under way. A request to stop waits for
/// everything that should not run.
pub fn pending_kind(engine: &RuntimeEngine, wait: Wait) -> (r: PendingKind)
    requires
        engine@.consistent(),
    ensures
        r@ == wait_kind(engine@, wait@),
{
    match wait {
        Wait::Started { required, wanted } => PendingKind::Start { required, wanted },
        Wait::Applied(ids) => PendingKind::Apply(ids),
        Wait::Stopped => PendingKind::Stop(unwanted_services(engine)),
        Wait::Restarted { service, previous_generation } => PendingKind::Restart {
            service,
            previous_generation,
        },
    }
}

/// What is done about a request: effects are applied and a change is waited for, or a
/// reload helper is run.
#[derive(Debug, PartialEq, Eq)]
pub enum Work {
    Effects { effects: Vec<RuntimeEffect>, wait: Wait },
    ReloadAction(ServiceId),
}

/// What a [`Work`] is.
#[verifier::ext_equal]
pub enum WorkModel {
    Effects { effects: Seq<EffectModel>, wait: WaitModel },
    ReloadAction(Seq<char>),
}

impl View for Work {
    type V = WorkModel;

    open spec fn view(&self) -> WorkModel {
        match *self {
            Work::Effects { effects, wait } => WorkModel::Effects {
                effects: runtime::effect_models(effects@),
                wait: wait@,
            },
            Work::ReloadAction(service) => WorkModel::ReloadAction(service@),
        }
    }
}

/// The engine after a request, and what is done about the request.
pub type Served = (EngineModel, WorkModel);

/// The refusal of a name that nothing has.
pub open spec fn unknown(id: Seq<char>) -> ManagerErrorModel {
    ManagerErrorModel::Runtime(RuntimeErrorModel::UnknownTarget(id))
}

/// A request to start a target: everything that is required for it, and everything else
/// that it activates, is waited for.
pub open spec fn start_request(e: EngineModel, target: Seq<char>, now_ms: u64) -> Result<
    Served,
    ManagerErrorModel,
> {
    match config::start_ids(e.snapshot.catalog, target) {
        None => Err(unknown(target)),
        Some((required, wanted)) => {
            let started = lifecycle::start(e, e.snapshot.catalog.node(target), now_ms);
            Ok(
                (
                    started.engine,
                    WorkModel::Effects {
                        effects: started.effects,
                        wait: WaitModel::Started { required, wanted },
                    },
                ),
            )
        },
    }
}

/// A request to stop a target.
pub open spec fn stop_request(e: EngineModel, target: Seq<char>, force: bool) -> Result<
    Served,
    ManagerErrorModel,
> {
    if e.snapshot.catalog.contains(target) {
        let stopped = lifecycle::stop(e, e.snapshot.catalog.node(target), force);
        Ok(
            (
                stopped.engine,
                WorkModel::Effects { effects: stopped.effects, wait: WaitModel::Stopped },
            ),
        )
    } else {
        Err(unknown(target))
    }
}

/// A request to restart a service: a later attempt than the present one is waited for.
pub open spec fn restart_request(e: EngineModel, service: Seq<char>, now_ms: u64) -> Result<
    Served,
    ManagerErrorModel,
> {
    match lifecycle::position(e.snapshot.catalog, service) {
        None => Err(unknown(service)),
        Some(i) => {
            let restarted = lifecycle::restart(e, i, now_ms);
            Ok(
                (
                    restarted.engine,
                    WorkModel::Effects {
                        effects: restarted.effects,
                        wait: WaitModel::Restarted {
                            service,
                            previous_generation: e.services[i].generation,
                        },
                    },
                ),
            )
        },
    }
}

/// Whether an operation is about the running of services.
pub open spec fn is_lifecycle(operation: Operation) -> bool {
    operation == Operation::Start || operation == Operation::Stop || operation
        == Operation::StopForce || operation == Operation::Restart || operation
        == Operation::ReloadService
}

/// What a request about the running of services does, or its refusal.
pub open spec fn lifecycle_result(
    e: EngineModel,
    operation: Operation,
    payload: Seq<u8>,
    now_ms: u64,
) -> Result<Served, ManagerErrorModel> {
    match request::target_result(payload) {
        Err(error) => Err(error),
        Ok(target) => match operation {
            Operation::Start => start_request(e, target, now_ms),
            Operation::Stop => stop_request(e, target, false),
            Operation::StopForce => stop_request(e, target, true),
            Operation::Restart => restart_request(e, target, now_ms),
            _ => Ok((e, WorkModel::ReloadAction(target))),
        },
    }
}

/// Whether a request was served as it should be: where it is refused the engine is as it
/// was.
pub open spec fn served(
    before: EngineModel,
    after: EngineModel,
    r: Result<Work, ManagerError>,
    expected: Result<Served, ManagerErrorModel>,
) -> bool {
    match r {
        Ok(work) => expected == Ok::<Served, ManagerErrorModel>((after, work@)),
        Err(e) => expected == Err::<Served, ManagerErrorModel>(e@) && after == before,
    }
}

fn serve_start(engine: &mut RuntimeEngine, target: &ServiceId, now_ms: u64) -> (r: Result<
    Work,
    ManagerError,
>)
    requires
        old(engine)@.consistent(),
    ensures
        final(engine)@.consistent(),
        served(
            old(engine)@,
            final(engine)@,
            r,
            start_request(old(engine)@, target@, now_ms),
        ),
{
    let (required, wanted) = match engine.snapshot().start_services(target) {
        Some(services) => services,
        None => return Err(ManagerError::Runtime(RuntimeError::UnknownTarget(target.clone()))),
    };
    match engine.start(target, now_ms) {
        Ok(effects) => Ok(Work::Effects { effects, wait: Wait::Started { required, wanted } }),
        Err(e) => Err(ManagerError::Runtime(e)),
    }
}

fn serve_stop(engine: &mut RuntimeEngine, target: &ServiceId, force: bool) -> (r: Result<
    Work,
    ManagerError,
>)
    requires
        old(engine)@.consistent(),
    ensures
        final(engine)@.consistent(),
        served(old(engine)@, final(engine)@, r, stop_request(old(engine)@, target@, force)),
{
    match engine.stop_with_force(target, force) {
        Ok(effects) => Ok(Work::Effects { effects, wait: Wait::Stopped }),
        Err(e) => Err(ManagerError::Runtime(e)),
    }
}

fn serve_restart(engine: &mut RuntimeEngine, service: &ServiceId, now_ms: u64) -> (r: Result<
    Work,
    ManagerError,
>)
    requires
        old(engine)@.consistent(),
    ensures
        final(engine)@.consistent(),
        served(
            old(engine)@,
            final(engine)@,
            r,
            restart_request(old(engine)@, service@, now_ms),
        ),
{
    let previous_generation = match engine.status(service) {
        Some(status) => status.generation,
        None => return Err(ManagerError::Runtime(RuntimeError::UnknownTarget(service.clone()))),
    };
    match engine.restart(service, now_ms) {
        Ok(effects) => Ok(
            Work::Effects {
                effects,
                wait: Wait::Restarted { service: service.clone(), previous_generation },
            },
        ),
        Err(e) => Err(ManagerError::Runtime(e)),
    }
}

/// Serves a request about the running of services.
pub fn dispatch_lifecycle(
    engine: &mut RuntimeEngine,
    operation: Operation,
    payload: &Vec<u8>,
    now_ms: u64,
) -> (r: Result<Work, ManagerError>)
    requires
        old(engine)@.consistent(),
        is_lifecycle(operation),
    ensures
        final(engine)@.consistent(),
        served(
            old(engine)@,
            final(engine)@,
            r,
            lifecycle_result(old(engine)@, operation, payload@, now_ms),
        ),
{
    let target = match request::payload_target(payload) {
        Ok(target) => target,
        Err(e) => return Err(e),
    };
    match operation {
        Operation::Start => serve_start(engine, &target, now_ms),
        Operation::Stop => serve_stop(engine, &target, false),
        Operation::StopForce => serve_stop(engine, &target, true),
        Operation::Restart => serve_restart(engine, &target, now_ms),
        _ => Ok(Work::ReloadAction(target)),
    }
}

/// What a request about configuration asks for. A failure is cleared at once.
#[derive(Debug, PartialEq, Eq)]
pub enum ConfigurationStep {
    DryRun,
    Enable { service: ServiceId, enabled: bool, now: bool },
    Reload,
    Apply,
    Reset,
}

/// What a [`ConfigurationStep`] says.
#[verifier::ext_equal]
pub enum ConfigurationStepModel {
    DryRun,
    Enable { service: Seq<char>, enabled: bool, now: bool },
    Reload,
    Apply,
    Reset,
}

impl View for ConfigurationStep {
    type V = ConfigurationStepModel;

    open spec fn view(&self) -> ConfigurationStepModel {
        match *self {
            ConfigurationStep::DryRun => ConfigurationStepModel::DryRun,
            ConfigurationStep::Enable { service, enabled, now } => ConfigurationStepModel::Enable {
                service: service@,
                enabled,
                now,
            },
            ConfigurationStep::Reload => ConfigurationStepModel::Reload,
            ConfigurationStep::Apply => ConfigurationStepModel::Apply,
            ConfigurationStep::Reset => ConfigurationStepModel::Reset,
        }
    }
}

/// Whether an operation is about configuration.
pub open spec fn is_configuration(operation: Operation) -> bool {
    operation == Operation::Enable || operation == Operation::Disable || operation
        == Operation::Reload || operation == Operation::Apply || operation
        == Operation::ApplyDryRun || operation == Operation::ResetFailed
}

/// A request to enable or disable a service: only a service that is there is enabled.
pub open spec fn enable_request(e: EngineModel, enabled: bool, payload: Seq<u8>) -> Result<
    ConfigurationStepModel,
    ManagerErrorModel,
> {
    match request::enabled_result(payload) {
        Err(error) => Err(error),
        Ok((service, now)) => if enabled && lifecycle::position(
            e.snapshot.catalog,
            service,
        ) is None {
            Err(unknown(service))
        } else {
            Ok(ConfigurationStepModel::Enable { service, enabled, now })
        },
    }
}

/// A request to clear a failure.
pub open spec fn reset_request(e: EngineModel, payload: Seq<u8>) -> Result<
    EngineModel,
    ManagerErrorModel,
> {
    match request::target_result(payload) {
        Err(error) => Err(error),
        Ok(service) => match lifecycle::position(e.snapshot.catalog, service) {
            None => Err(unknown(service)),
            Some(i) => Ok(
                EngineModel {
                    services: e.services.update(i, lifecycle::cleared(e.services[i])),
                    ..e
                },
            ),
        },
    }
}

/// What a request about configuration does at once and asks for, or its refusal.
pub open spec fn configuration_result(e: EngineModel, operation: Operation, payload: Seq<u8>) -> Result<
    (EngineModel, ConfigurationStepModel),
    ManagerErrorModel,
> {
    match operation {
        Operation::Enable | Operation::Disable => match enable_request(
            e,
            operation == Operation::Enable,
            payload,
        ) {
            Ok(step) => Ok((e, step)),
            Err(error) => Err(error),
        },
        Operation::Reload => Ok((e, ConfigurationStepModel::Reload)),
        Operation::Apply => Ok((e, ConfigurationStepModel::Apply)),
        Operation::ApplyDryRun => Ok((e, ConfigurationStepModel::DryRun)),
        _ => match reset_request(e, payload) {
            Ok(cleared) => Ok((cleared, ConfigurationStepModel::Reset)),
            Err(error) => Err(error),
        },
    }
}

fn serve_enable(engine: &RuntimeEngine, enabled: bool, payload: &Vec<u8>) -> (r: Result<
    ConfigurationStep,
    ManagerError,
>)
    requires
        engine@.consistent(),
    ensures
        (match r {
            Ok(step) => Ok::<ConfigurationStepModel, ManagerErrorModel>(step@),
            Err(e) => Err(e@),
        }) == enable_request(engine@, enabled, payload@),
{
    match request::enabled_payload(payload) {
        Err(e) => Err(e),
        Ok((service, now)) => if enabled && engine.status(&service).is_none() {
            Err(ManagerError::Runtime(RuntimeError::UnknownTarget(service)))
        } else {
            Ok(ConfigurationStep::Enable { service, enabled, now })
        },
    }
}

/// Begins to serve a request about configuration.
pub fn dispatch_configuration(engine: &mut RuntimeEngine, operation: Operation, payload: &Vec<u8>) -> (r:
    Result<ConfigurationStep, ManagerError>)
    requires
        old(engine)@.consistent(),
        is_configuration(operation),
    ensures
        final(engine)@.consistent(),
        match r {
            Ok(step) => configuration_result(old(engine)@, operation, payload@) == Ok::<
                (EngineModel, ConfigurationStepModel),
                ManagerErrorModel,
            >((final(engine)@, step@)),
            Err(e) => configuration_result(old(engine)@, operation, payload@) == Err::<
                (EngineModel, ConfigurationStepModel),
                ManagerErrorModel,
            >(e@) && final(engine)@ == old(engine)@,
        },
{
    match operation {
        Operation::Enable => serve_enable(engine, true, payload),
        Operation::Disable => serve_enable(engine, false, payload),
        Operation::Reload => Ok(ConfigurationStep::Reload),
        Operation::Apply => Ok(ConfigurationStep::Apply),
        Operation::ApplyDryRun => Ok(ConfigurationStep::DryRun),
        _ => match request::payload_target(payload) {
            Err(e) => Err(e),
            Ok(service) => match engine.reset_failed(&service) {
                Ok(_) => Ok(ConfigurationStep::Reset),
                Err(e) => Err(ManagerError::Runtime(e)),
            },
        },
    }
}

/// Serves the part of a request to enable or disable a service that is to be done at once.
pub fn serve_enabled(engine: &mut RuntimeEngine, service: &ServiceId, enabled: bool, now_ms: u64) -> (r:
    Result<Work, ManagerError>)
    requires
        old(engine)@.consistent(),
    ensures
        final(engine)@.consistent(),
        served(
            old(engine)@,
            final(engine)@,
            r,
            if enabled {
                start_request(old(engine)@, service@, now_ms)
            } else {
                stop_request(old(engine)@, service@, false)
            },
        ),
{
    if enabled {
        serve_start(engine, service, now_ms)
    } else {
        serve_stop(engine, service, false)
    }
}

/// The services that a configuration starts by default.
pub open spec fn default_services(s: SnapshotModel) -> Seq<Seq<char>> {
    match config::activation_ids(s.catalog, s.default_group) {
        Some(ids) => ids,
        None => Seq::empty(),
    }
}

/// A request to apply a configuration: everything that it starts by default is waited for.
pub open spec fn apply_request(e: EngineModel, new: SnapshotModel, now_ms: u64) -> Result<
    Served,
    ManagerErrorModel,
> {
    if e.pending is Some {
        Err(ManagerErrorModel::Runtime(RuntimeErrorModel::ApplyInProgress))
    } else {
        let applied = lifecycle::apply_snapshot(e, new, now_ms);
        Ok(
            (
                applied.engine,
                WorkModel::Effects {
                    effects: applied.effects,
                    wait: WaitModel::Applied(default_services(new)),
                },
            ),
        )
    }
}

/// Why a configuration cannot be used: the identity of one of its services cannot be had.
pub open spec fn accounts_refusal(
    accounts: AccountsModel,
    s: SnapshotModel,
    mode: ManagerMode,
    manager: ResolvedIdentity,
) -> Option<IdentityErrorModel> {
    accounts_error(
        accounts,
        s.catalog,
        mode.scope(),
        manager.uid,
        manager.gid,
        s.catalog.services.len(),
    )
}

/// Serves a request to apply a configuration. One whose accounts cannot be had is refused
/// before anything changes.
pub fn serve_apply(
    engine: &mut RuntimeEngine,
    accounts: &AccountDatabase,
    snapshot: ConfigSnapshot,
    mode: ManagerMode,
    owner: &ResolvedIdentity,
    now_ms: u64,
) -> (r: Result<Work, ManagerError>)
    requires
        old(engine)@.consistent(),
    ensures
        final(engine)@.consistent(),
        served(
            old(engine)@,
            final(engine)@,
            r,
            match accounts_refusal(accounts@, snapshot@, mode, *owner) {
                Some(error) => Err(ManagerErrorModel::Identity(error)),
                None => apply_request(old(engine)@, snapshot@, now_ms),
            },
        ),
{
    if let Err(e) = validate_accounts(accounts, &snapshot, mode, owner) {
        return Err(e);
    }
    let services = match snapshot.activation_services(snapshot.default_group()) {
        Some(services) => services,
        None => Vec::new(),
    };
    proof {
        assert(model::id_texts(services@) =~= default_services(snapshot@));
    }
    match engine.apply_snapshot(Arc::new(snapshot), now_ms) {
        Ok(effects) => Ok(Work::Effects { effects, wait: Wait::Applied(services) }),
        Err(e) => Err(ManagerError::Runtime(e)),
    }
}

/// Serves a request to show what applying a configuration would do. One whose accounts
/// cannot be had is refused.
pub fn serve_dry_run(
    engine: &RuntimeEngine,
    accounts: &AccountDatabase,
    snapshot: &ConfigSnapshot,
    mode: ManagerMode,
    owner: &ResolvedIdentity,
) -> (r: Result<ApplyPlan, ManagerError>)
    requires
        engine@.consistent(),
    ensures
        match accounts_refusal(accounts@, snapshot@, mode, *owner) {
            Some(error) => r matches Err(e) && e@ == ManagerErrorModel::Identity(error),
            None => r matches Ok(plan) && plan@ == lifecycle::plan(engine@, snapshot@),
        },
{
    match validate_accounts(accounts, snapshot, mode, owner) {
        Ok(_) => Ok(engine.plan_snapshot(snapshot)),
        Err(e) => Err(e),
    }
}

/// Whether two configurations define the same services.
pub open spec fn same_services(a: SnapshotModel, b: SnapshotModel) -> bool {
    model::plain_services(a.catalog.services) == model::plain_services(b.catalog.services)
}

/// The engine with another configuration of the same services.
pub open spec fn reconfigured(e: EngineModel, new: SnapshotModel) -> EngineModel {
    EngineModel { snapshot: new, ..e }
}

/// Installs a configuration that leaves the services as they are, and hands the former one
/// out.
pub fn install(engine: &mut RuntimeEngine, snapshot: ConfigSnapshot) -> (r: Result<
    Arc<ConfigSnapshot>,
    ManagerError,
>)
    requires
        old(engine)@.consistent(),
    ensures
        final(engine)@.consistent(),
        match r {
            Ok(previous) => {
                &&& same_services(snapshot@, old(engine)@.snapshot)
                &&& final(engine)@ == reconfigured(old(engine)@, snapshot@)
                &&& previous@ == old(engine)@.snapshot
            },
            Err(e) => {
                &&& !same_services(snapshot@, old(engine)@.snapshot)
                &&& e@ == ManagerErrorModel::Runtime(RuntimeErrorModel::DefinitionChange)
                &&& final(engine)@ == old(engine)@
            },
        },
{
    let previous = engine.snapshot().clone();
    match engine.replace_snapshot(Arc::new(snapshot)) {
        Ok(_) => Ok(previous),
        Err(e) => Err(ManagerError::Runtime(e)),
    }
}

/// Serves a request to reload a configuration. One whose accounts cannot be had, and one
/// with other services, is refused.
pub fn serve_reload(
    engine: &mut RuntimeEngine,
    accounts: &AccountDatabase,
    snapshot: ConfigSnapshot,
    mode: ManagerMode,
    owner: &ResolvedIdentity,
) -> (r: Result<(), ManagerError>)
    requires
        old(engine)@.consistent(),
    ensures
        final(engine)@.consistent(),
        match r {
            Ok(_) => {
                &&& accounts_refusal(accounts@, snapshot@, mode, *owner) is None
                &&& same_services(snapshot@, old(engine)@.snapshot)
                &&& final(engine)@ == reconfigured(old(engine)@, snapshot@)
            },
            Err(e) => {
                &&& final(engine)@ == old(engine)@
                &&& match accounts_refusal(accounts@, snapshot@, mode, *owner) {
                    Some(error) => e@ == ManagerErrorModel::Identity(error),
                    None => !same_services(snapshot@, old(engine)@.snapshot)
                        && e@ == ManagerErrorModel::Runtime(RuntimeErrorModel::DefinitionChange),
                }
            },
        },
{
    if let Err(e) = validate_accounts(accounts, &snapshot, mode, owner) {
        return Err(e);
    }
    match install(engine, snapshot) {
        Ok(_) => Ok(()),
        Err(e) => Err(e),
    }
}

/// Goes back to a former configuration where the new one could not be written down. One
/// with other services is not gone back to.
pub fn restore(engine: &mut RuntimeEngine, previous: Arc<ConfigSnapshot>)
    requires
        old(engine)@.consistent(),
    ensures
        final(engine)@.consistent(),
        final(engine)@ == if same_services(previous@, old(engine)@.snapshot) {
            reconfigured(old(engine)@, previous@)
        } else {
            old(engine)@
        },
{
    match engine.replace_snapshot(previous) {
        Ok(_) => {},
        Err(_) => {},
    }
}

/// Going back undoes the installation of a configuration: the engine is as it was.
pub proof fn restore_law(e: EngineModel, new: SnapshotModel)
    ensures
        reconfigured(reconfigured(e, new), e.snapshot) == e,
{
}

/// What a served request about configuration is answered in words: a plan is shown instead,
/// and an applied configuration is waited for.
pub fn configuration_reply(step: &ConfigurationStep) -> (r: Option<&'static str>)
    ensures
        match step@ {
            ConfigurationStepModel::Enable { enabled, .. } => r matches Some(reply) && reply@
                == if enabled {
                "enabled"@
            } else {
                "disabled"@
            },
            ConfigurationStepModel::Reload => r matches Some(reply) && reply@ == "reloaded"@,
            ConfigurationStepModel::Reset => r matches Some(reply) && reply@ == "reset"@,
            ConfigurationStepModel::Apply => r is None,
            ConfigurationStepModel::DryRun => r is None,
        },
{
    match step {
        ConfigurationStep::Enable { enabled, .. } => if *enabled {
            Some("enabled")
        } else {
            Some("disabled")
        },
        ConfigurationStep::Reload => Some("reloaded"),
        ConfigurationStep::Reset => Some("reset"),
        ConfigurationStep::Apply => None,
        ConfigurationStep::DryRun => None,
    }
}

/// Why the first of the first `n` services whose identity cannot be had is refused.
pub open spec fn accounts_error(
    accounts: AccountsModel,
    c: CatalogModel,
    scope: ManagerScope,
    manager_uid: u32,
    manager_gid: u32,
    n: nat,
) -> Option<IdentityErrorModel>
    decreases n,
{
    if n == 0 {
        None
    } else {
        match accounts_error(accounts, c, scope, manager_uid, manager_gid, (n - 1) as nat) {
            Some(e) => Some(e),
            None => accounts.resolve_error(
                c.services[n - 1].process,
                scope,
                manager_uid,
                manager_gid,
            ),
        }
    }
}

proof fn accounts_error_tail(
    accounts: AccountsModel,
    c: CatalogModel,
    scope: ManagerScope,
    manager_uid: u32,
    manager_gid: u32,
    n: nat,
)
    requires
        n <= c.services.len(),
        accounts_error(accounts, c, scope, manager_uid, manager_gid, n) is Some,
    ensures
        accounts_error(accounts, c, scope, manager_uid, manager_gid, c.services.len())
            == accounts_error(accounts, c, scope, manager_uid, manager_gid, n),
    decreases c.services.len() - n,
{
    if n < c.services.len() {
        accounts_error_tail(accounts, c, scope, manager_uid, manager_gid, n + 1);
    }
}

/// Checks that the identity of every service of a configuration can be had.
pub fn validate_accounts(
    accounts: &AccountDatabase,
    snapshot: &ConfigSnapshot,
    mode: ManagerMode,
    manager: &ResolvedIdentity,
) -> (r: Result<(), ManagerError>)
    ensures
        match r {
            Ok(_) => accounts_refusal(accounts@, snapshot@, mode, *manager) is None,
            Err(e) => accounts_refusal(accounts@, snapshot@, mode, *manager) matches Some(error)
                && e@ == ManagerErrorModel::Identity(error),
        },
{
    let services = snapshot.services();
    let ghost c = snapshot@.catalog;
    let mut i: usize = 0;
    proof {
        assert(catalog::service_models(services@).len() == services@.len());
    }
    while i < services.len()
        invariant
            c == snapshot@.catalog,
            catalog::service_models(services@) == c.services,
            services@.len() == c.services.len(),
            i <= services@.len(),
            accounts_error(
                accounts@,
                c,
                mode.scope(),
                manager.uid,
                manager.gid,
                i as nat,
            ) is None,
        decreases services@.len() - i,
    {
        proof {
            assert(c.services[i as int] == services@[i as int]@);
        }
        match accounts.resolve(&services[i].process, mode.definition_scope(), manager) {
            Ok(_) => {},
            Err(e) => {
                proof {
                    accounts_error_tail(
                        accounts@,
                        c,
                        mode.scope(),
                        manager.uid,
                        manager.gid,
                        (i + 1) as nat,
                    );
                }
                return Err(ManagerError::Identity(e));
            },
        }
        i = i + 1;
    }
    Ok(())
}

/// The configuration of a system manager that has none it can use: no service, and an empty
/// default group.
pub open spec fn rescue_snapshot() -> SnapshotModel {
    SnapshotModel {
        catalog: rescue_catalog(),
        default_group: "boot"@,
        shutdown_group: None,
        max_starting: config::MAX_STARTING_HARD_LIMIT,
        rescue_command: seq!["/bin/sh"@],
        warnings: Seq::empty(),
    }
}

/// The catalog of [`rescue_snapshot`].
pub open spec fn rescue_catalog() -> CatalogModel {
    CatalogModel {
        services: Seq::empty(),
        groups: seq![
            GroupModel {
                id: "boot"@,
                dependencies: DependenciesModel {
                    requires: Seq::empty(),
                    wants: Seq::empty(),
                    after: Seq::empty(),
                    conflicts: Seq::empty(),
                },
            },
        ],
    }
}

proof fn rescue_catalog_accepted()
    ensures
        config::catalog_result(rescue_catalog()) == Ok::<Seq<WarningModel>, ErrorModel>(
            Seq::empty(),
        ),
{
    let c = rescue_catalog();
    assert(c.len() == 1);
    let none = Seq::<Seq<char>>::empty();
    assert(c.dependencies(0).requires == none);
    assert(config::ambiguous_name(c, 0) is None);
    assert(catalog::references_result(c, 0) == Ok::<Seq<WarningModel>, ErrorModel>(Seq::empty()));
    assert(catalog::reference_error(c, 0) is None);
    assert(catalog::wanted_warnings(c, c.id(0), none, 0) =~= Seq::empty());
    assert(Seq::<WarningModel>::empty() + Seq::<WarningModel>::empty() =~= Seq::empty());
    assert(catalog::references_result(c, 1) == Ok::<Seq<WarningModel>, ErrorModel>(Seq::empty()));
    let next = c.ordering_lists();
    assert(next.len() == 1);
    assert(next[0].len() == 0);
    graph::first_cycle_law(next);
    if graph::first_cycle(next) is Some {
        let path = graph::first_cycle(next)->0;
        assert(graph::is_cycle(1, graph::links(next), path));
    }
    assert(catalog::conflict_error(c, 0) is None);
    assert forall|x: int| !#[trigger] catalog::conflicted(c, 0, x) by {
        if 0 <= x < c.len() {
            assert(c.dependencies(x).conflicts == none);
        }
    }
    assert(catalog::group_conflict(c, 0) is None);
    assert(catalog::conflict_error(c, 1) is None);
}

fn empty_configuration() -> (r: Result<ConfigSnapshot, ConfigError>)
    ensures
        r matches Ok(snapshot) && snapshot@ == rescue_snapshot(),
{
    let mut raw = RawManagerConfig::new("boot");
    let lists = RawDependencies {
        requires: Vec::new(),
        wants: Vec::new(),
        after: Vec::new(),
        conflicts: Vec::new(),
    };
    let ghost owned = lists;
    raw.groups.push((text::owned("boot"), lists));
    let ghost given = raw;
    proof {
        reveal_strlit("boot");
        reveal_strlit("/bin/sh");
        assert(model::valid_identifier("boot"@));
        let command = seq!["/bin/sh"@];
        assert(model::is_absolute(command[0]));
        assert forall|i: int| 0 <= i < command.len() implies !(
        #[trigger] command[i]).contains('\0') by {}
        assert(config::manager_error(given) is None);
        let none = Seq::<Seq<char>>::empty();
        assert(text::texts(owned.requires@) =~= none);
        assert(text::texts(owned.wants@) =~= none);
        assert(text::texts(owned.after@) =~= none);
        assert(text::texts(owned.conflicts@) =~= none);
        let groups = rescue_catalog().groups;
        assert(config::groups_result(given.groups@, 0) == Ok::<Seq<GroupModel>, ErrorModel>(
            Seq::empty(),
        ));
        assert(config::put_group(Seq::empty(), groups[0]) =~= groups);
        assert(config::groups_result(given.groups@, 1) == Ok::<Seq<GroupModel>, ErrorModel>(
            groups,
        ));
        assert(catalog::group_ids(groups)[0] == "boot"@);
        assert(catalog::group_ids(groups).contains("boot"@));
        rescue_catalog_accepted();
    }
    ConfigSnapshot::build(Ok(raw), Vec::new(), ManagerScope::System)
}

/// Why a manager cannot begin with a configuration, where it cannot: it could not be loaded,
/// or an account that it names cannot be had.
pub open spec fn initial_error(
    loaded: Result<ConfigSnapshot, LoadError>,
    accounts: AccountsModel,
    mode: ManagerMode,
    manager: ResolvedIdentity,
) -> Option<ManagerErrorModel> {
    match loaded {
        Err(e) => Some(ManagerErrorModel::Config(e@)),
        Ok(snapshot) => match accounts_refusal(accounts, snapshot@, mode, manager) {
            Some(error) => Some(ManagerErrorModel::Identity(error)),
            None => None,
        },
    }
}

/// The configuration that a manager begins with. A system manager that cannot use its own
/// begins in rescue mode, with an empty one; a user manager does not begin.
pub fn initial_snapshot(
    mode: ManagerMode,
    loaded: Result<ConfigSnapshot, LoadError>,
    accounts: &AccountDatabase,
    manager: &ResolvedIdentity,
) -> (r: Result<(ConfigSnapshot, Option<String>), ManagerError>)
    ensures
        match initial_error(loaded, accounts@, mode, *manager) {
            None => r matches Ok((used, failure)) && used@ == loaded->Ok_0@ && failure is None,
            Some(error) => match mode {
                ManagerMode::System => r matches Ok((used, failure)) && used@ == rescue_snapshot()
                    && text::optional_text(failure) == Some(
                    manager::manager_error_message(error),
                ),
                ManagerMode::User => r matches Err(e) && e@ == error,
            },
        },
{
    let error = match loaded {
        Err(e) => ManagerError::Config(e),
        Ok(snapshot) => match validate_accounts(accounts, &snapshot, mode, manager) {
            Ok(_) => return Ok((snapshot, None)),
            Err(e) => e,
        },
    };
    match mode {
        ManagerMode::System => {
            let reason = error.message();
            match empty_configuration() {
                Ok(snapshot) => Ok((snapshot, Some(reason))),
                Err(refused) => Err(ManagerError::Config(LoadError::Config(refused))),
            }
        },
        ManagerMode::User => Err(error),
    }
}

/// What a request to stop waits for: every service that is not to run, by its name, and no
/// other.
pub proof fn unwanted_law(e: EngineModel, n: nat, i: int)
    requires
        e.consistent(),
        n <= e.services.len(),
        0 <= i < e.services.len(),
    ensures
        unwanted(e, n).contains(e.snapshot.catalog.services[i].id) <==> i < n
            && e.services[i].desired == DesiredState::Inactive,
        wait_kind(e, WaitModel::Stopped) matches PendingKindModel::Stop(ids) && ids == unwanted(
            e,
            e.services.len(),
        ),
    decreases n,
{
    if n > 0 {
        unwanted_law(e, (n - 1) as nat, i);
        let id = e.snapshot.catalog.services[i].id;
        let before = unwanted(e, (n - 1) as nat);
        let all = unwanted(e, n);
        if before.contains(id) {
            let k = choose|k: int| 0 <= k < before.len() && before[k] == id;
            assert(all[k] == id);
        }
        if i == n - 1 && e.services[i].desired == DesiredState::Inactive {
            assert(all[before.len() as int] == id);
        }
        if all.contains(id) && !before.contains(id) {
            let k = choose|k: int| 0 <= k < all.len() && all[k] == id;
            assert(k == before.len());
            assert(e.snapshot.catalog.services[n - 1].id == id);
            catalog::catalog_distinct(e.snapshot.catalog, n - 1, i);
        }
    }
}

/// What a request waits for is what it was served to wait for: no list and no number is
/// another's.
pub proof fn wait_law(e: EngineModel, a: Seq<Seq<char>>, b: Seq<Seq<char>>, id: Seq<char>, n: u64)
    ensures
        wait_kind(e, (WaitModel::Started { required: a, wanted: b })) == (PendingKindModel::Start {
            required: a,
            wanted: b,
        }),
        wait_kind(e, WaitModel::Applied(a)) == PendingKindModel::Apply(a),
        wait_kind(e, (WaitModel::Restarted { service: id, previous_generation: n })) == (
        PendingKindModel::Restart { service: id, previous_generation: n }),
{
}

/// A request to start: it is refused exactly where neither a service nor a group has the name.
/// Otherwise what the name activates should run, nothing else is asked for, and the request
/// waits for what is demanded and for the rest, each in its list.
pub proof fn start_request_law(e: EngineModel, target: Seq<char>, now_ms: u64, i: int)
    requires
        e.consistent(),
        laws::all_sound(e.services),
        0 <= i < e.services.len(),
    ensures
        match start_request(e, target, now_ms) {
            Err(error) => !catalog::known(e.snapshot.catalog, target) && error
                == ManagerErrorModel::Runtime(RuntimeErrorModel::UnknownTarget(target)),
            Ok((after, work)) => {
                let c = e.snapshot.catalog;
                let x = c.node(target);
                let id = c.services[i].id;
                &&& 0 <= x < c.len() && c.id(x) == target
                &&& after.snapshot == e.snapshot
                &&& after.pending == e.pending
                &&& c.activates(x, i) ==> after.services[i].desired == DesiredState::Active
                    && !after.services[i].restart_blocked
                &&& !c.activates(x, i) ==> after.services[i].desired == e.services[i].desired
                &&& work matches WorkModel::Effects {
                    wait: WaitModel::Started { required, wanted },
                    ..
                } && (required.contains(id) <==> c.demands(x, i)) && (wanted.contains(id)
                    <==> c.activates(x, i) && !c.demands(x, i))
            },
        },
{
    let c = e.snapshot.catalog;
    catalog::known_law(c, target);
    if c.contains(target) {
        let x = c.node(target);
        promises::start_law(e, x, now_ms);
        config::activation_list_law(c, x, i);
    }
}

/// A request to stop: it is refused exactly where neither a service nor a group has the name.
/// Otherwise what the name stands for and whatever needs that is not to run, is killed at once
/// only by a request with force, and everything that is not to run is waited for.
pub proof fn stop_request_law(e: EngineModel, target: Seq<char>, force: bool, i: int)
    requires
        e.consistent(),
        0 <= i < e.services.len(),
    ensures
        match stop_request(e, target, force) {
            Err(error) => !catalog::known(e.snapshot.catalog, target) && error
                == ManagerErrorModel::Runtime(RuntimeErrorModel::UnknownTarget(target)),
            Ok((after, work)) => {
                let c = e.snapshot.catalog;
                let x = c.node(target);
                &&& 0 <= x < c.len() && c.id(x) == target
                &&& after.snapshot == e.snapshot
                &&& after.pending == e.pending
                &&& x == i || x < c.services.len() && c.needs(i, x) || x >= c.services.len()
                    && c.activates(x, i) ==> after.services[i].desired == DesiredState::Inactive
                    && after.services[i].stop_signal == if force {
                    StopSignal::Kill
                } else {
                    StopSignal::Term
                }
                &&& work matches WorkModel::Effects { wait: WaitModel::Stopped, .. }
            },
        },
{
    let c = e.snapshot.catalog;
    catalog::known_law(c, target);
    if c.contains(target) {
        promises::stop_law(e, c.node(target), force, i);
    }
}

/// A request to restart: it is refused exactly where no service has the name. Otherwise the
/// service should run, and a later attempt than its present one is waited for.
pub proof fn restart_request_law(e: EngineModel, i: int, other: Seq<char>, now_ms: u64)
    requires
        e.consistent(),
        laws::all_sound(e.services),
        0 <= i < e.services.len(),
    ensures
        ({
            let id = e.snapshot.catalog.services[i].id;
            restart_request(e, id, now_ms) matches Ok((after, work)) && {
                &&& after.services[i].desired == DesiredState::Active
                &&& after.services[i].queued_at_ms == Some(now_ms)
                &&& !after.services[i].restart_blocked
                &&& work matches WorkModel::Effects {
                    wait: WaitModel::Restarted { service, previous_generation },
                    ..
                } && service == id && previous_generation == e.services[i].generation
            }
        }),
        restart_request(e, other, now_ms) is Err <==> forall|j: int|
            0 <= j < e.snapshot.catalog.services.len() ==> (
            #[trigger] e.snapshot.catalog.services[j]).id != other,
{
    lifecycle::position_unique(e.snapshot.catalog, i);
    promises::restart_law(e, i, now_ms, ExitOutcome::Success, now_ms);
}

/// What the requests about the running of services are: each operation is its own, stopping
/// with force kills and stopping without does not, and a reload touches nothing itself.
pub proof fn lifecycle_request_law(e: EngineModel, payload: Seq<u8>, name: Seq<char>, now_ms: u64)
    requires
        request::target_result(payload) == Ok::<Seq<char>, ManagerErrorModel>(name),
    ensures
        lifecycle_result(e, Operation::Start, payload, now_ms) == start_request(e, name, now_ms),
        lifecycle_result(e, Operation::Stop, payload, now_ms) == stop_request(e, name, false),
        lifecycle_result(e, Operation::StopForce, payload, now_ms) == stop_request(e, name, true),
        lifecycle_result(e, Operation::Restart, payload, now_ms) == restart_request(
            e,
            name,
            now_ms,
        ),
        lifecycle_result(e, Operation::ReloadService, payload, now_ms) == Ok::<
            Served,
            ManagerErrorModel,
        >((e, WorkModel::ReloadAction(name))),
{
}

/// Who may be enabled: only a service that is there, while anything may be disabled. Asking
/// changes nothing yet, and says which service, which way and whether at once.
pub proof fn enable_request_law(
    e: EngineModel,
    payload: Seq<u8>,
    name: Seq<char>,
    now: bool,
    enabled: bool,
)
    requires
        request::enabled_result(payload) == Ok::<(Seq<char>, bool), ManagerErrorModel>((name, now)),
    ensures
        ({
            let operation = if enabled {
                Operation::Enable
            } else {
                Operation::Disable
            };
            let there = exists|i: int|
                0 <= i < e.snapshot.catalog.services.len() && (
                #[trigger] e.snapshot.catalog.services[i]).id == name;
            match configuration_result(e, operation, payload) {
                Ok((after, step)) => after == e && (there || !enabled) && step == (
                ConfigurationStepModel::Enable { service: name, enabled, now }),
                Err(error) => enabled && !there && error == ManagerErrorModel::Runtime(
                    RuntimeErrorModel::UnknownTarget(name),
                ),
            }
        }),
{
}

/// Clearing a failure is refused exactly where no service has the name, and touches no other
/// service.
pub proof fn reset_request_law(e: EngineModel, payload: Seq<u8>, i: int, j: int)
    requires
        e.consistent(),
        0 <= i < e.services.len(),
        0 <= j < e.services.len(),
        request::target_result(payload) == Ok::<Seq<char>, ManagerErrorModel>(
            e.snapshot.catalog.services[i].id,
        ),
    ensures
        configuration_result(e, Operation::ResetFailed, payload) matches Ok((after, step)) && {
            &&& step is Reset
            &&& after.snapshot == e.snapshot
            &&& after.pending == e.pending
            &&& i != j ==> after.services[j] == e.services[j]
            &&& !after.services[i].restart_blocked
            &&& after.services[i].blocked_by is None
            &&& e.services[i].observed == ObservedState::Failed && !e.services[i].has_process
                ==> after.services[i].observed == ObservedState::Inactive
        },
{
    lifecycle::position_unique(e.snapshot.catalog, i);
    promises::clear_law(e.services[i]);
}

/// Applying a configuration is refused exactly while another is being applied. It waits for
/// what the default group of the new one activates.
pub proof fn apply_request_law(e: EngineModel, new: SnapshotModel, now_ms: u64, j: int)
    requires
        new.valid(),
        0 <= j < new.catalog.services.len(),
    ensures
        match apply_request(e, new, now_ms) {
            Err(error) => e.pending is Some && error == ManagerErrorModel::Runtime(
                RuntimeErrorModel::ApplyInProgress,
            ),
            Ok((after, work)) => {
                let g = new.catalog.node(new.default_group);
                &&& e.pending is None
                &&& new.catalog.id(g) == new.default_group
                &&& work matches WorkModel::Effects { wait: WaitModel::Applied(ids), .. } && (
                ids.contains(new.catalog.services[j].id) <==> new.catalog.activates(g, j))
            },
        },
{
    let c = new.catalog;
    let groups = catalog::group_ids(c.groups);
    let h = choose|h: int| 0 <= h < groups.len() && groups[h] == new.default_group;
    assert(c.id(c.services.len() + h) == new.default_group);
    assert(c.contains(new.default_group));
    config::activation_list_law(c, c.node(new.default_group), j);
}

/// When the accounts of a configuration can be had: exactly where the identity of each of its
/// services can, for the manager that runs it. The first refusal is the one that is told.
pub proof fn accounts_law(
    accounts: AccountsModel,
    s: SnapshotModel,
    mode: ManagerMode,
    manager: ResolvedIdentity,
)
    ensures
        accounts_refusal(accounts, s, mode, manager) is None <==> forall|i: int|
            0 <= i < s.catalog.services.len() ==> accounts.resolve_error(
                (#[trigger] s.catalog.services[i]).process,
                if mode == ManagerMode::System {
                    ManagerScope::System
                } else {
                    ManagerScope::User
                },
                manager.uid,
                manager.gid,
            ) is None,
{
    let scope = if mode == ManagerMode::System {
        ManagerScope::System
    } else {
        ManagerScope::User
    };
    accounts_each(accounts, s.catalog, scope, manager.uid, manager.gid, s.catalog.services.len());
}

proof fn accounts_each(
    accounts: AccountsModel,
    c: CatalogModel,
    scope: ManagerScope,
    uid: u32,
    gid: u32,
    n: nat,
)
    requires
        n <= c.services.len(),
    ensures
        accounts_error(accounts, c, scope, uid, gid, n) is None <==> forall|i: int|
            0 <= i < n ==> accounts.resolve_error(
                (#[trigger] c.services[i]).process,
                scope,
                uid,
                gid,
            ) is None,
    decreases n,
{
    if n > 0 {
        accounts_each(accounts, c, scope, uid, gid, (n - 1) as nat);
    }
}

/// The configuration of a rescue has no service at all, and as much of the rest as a
/// configuration must have.
pub proof fn rescue_snapshot_law()
    ensures
        rescue_snapshot().catalog.services.len() == 0,
        config::catalog_result(rescue_snapshot().catalog) is Ok,
        rescue_snapshot().shutdown_group is None,
        rescue_snapshot().default_group == "boot"@,
        rescue_snapshot().rescue_command == seq!["/bin/sh"@],
{
    rescue_catalog_accepted();
}

} // verus!
