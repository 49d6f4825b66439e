//! Requests that wait for a change of state, and when they are answered.

use vstd::prelude::*;

use crate::lifecycle;
use crate::lifecycle::{EngineModel, RuntimeModel};
use crate::model;
use crate::model::ServiceId;
use crate::protocol::{Operation, StatusCode};
use crate::runtime::{DesiredState, ObservedState, RuntimeEngine};

verus! {

/// How long a request waits for its change, in milliseconds.
pub const CONTROL_TIMEOUT_MS: u64 = 30_000;

/// What a request waits for: the end of a helper, services that become active along with
/// others that need not, a configuration that is applied, services that become inactive, or a new attempt of a
/// service.
#[derive(Debug, PartialEq, Eq)]
pub enum PendingKind {
    Action { id: u64, result: Option<StatusCode> },
    Start { required: Vec<ServiceId>, wanted: Vec<ServiceId> },
    Apply(Vec<ServiceId>),
    Stop(Vec<ServiceId>),
    Restart { service: ServiceId, previous_generation: u64 },
}

/// What a [`PendingKind`] waits for.
#[verifier::ext_equal]
pub enum PendingKindModel {
    Action { id: u64, result: Option<StatusCode> },
    Start { required: Seq<Seq<char>>, wanted: Seq<Seq<char>> },
    Apply(Seq<Seq<char>>),
    Stop(Seq<Seq<char>>),
    Restart { service: Seq<char>, previous_generation: u64 },
}

impl View for PendingKind {
    type V = PendingKindModel;

    open spec fn view(&self) -> PendingKindModel {
        match *self {
            PendingKind::Action { id, result } => PendingKindModel::Action { id, result },
            PendingKind::Start { required, wanted } => PendingKindModel::Start {
                required: model::id_texts(required@),
                wanted: model::id_texts(wanted@),
            },
            PendingKind::Apply(ids) => PendingKindModel::Apply(model::id_texts(ids@)),
            PendingKind::Stop(ids) => PendingKindModel::Stop(model::id_texts(ids@)),
            PendingKind::Restart { service, previous_generation } => PendingKindModel::Restart {
                service: service@,
                previous_generation,
            },
        }
    }
}

/// A request that waits.
#[derive(Debug, PartialEq, Eq)]
pub struct PendingRequest {
    pub request_id: u64,
    pub operation: Operation,
    pub deadline_ms: u64,
    pub kind: PendingKind,
}

/// A time after another, or the last one there is.
pub open spec fn later(now_ms: u64, after_ms: u64) -> u64 {
    if now_ms + after_ms > u64::MAX {
        u64::MAX
    } else {
        (now_ms + after_ms) as u64
    }
}

/// A time after another, or the last one there is.
pub fn time_after(now_ms: u64, after_ms: u64) -> (r: u64)
    ensures
        r == later(now_ms, after_ms),
{
    if now_ms > u64::MAX - after_ms {
        u64::MAX
    } else {
        now_ms + after_ms
    }
}

impl PendingRequest {
    /// A request that begins to wait now; it waits no longer than the control timeout.
    pub fn new(request_id: u64, operation: Operation, kind: PendingKind, now_ms: u64) -> (r:
        PendingRequest)
        ensures
            r.request_id == request_id,
            r.operation == operation,
            r.kind == kind,
            r.deadline_ms == later(now_ms, CONTROL_TIMEOUT_MS),
    {
        PendingRequest {
            request_id,
            operation,
            deadline_ms: time_after(now_ms, CONTROL_TIMEOUT_MS),
            kind,
        }
    }

    /// Takes note of the end of a helper, where the request waits for it.
    pub fn note_action(&mut self, id: u64, result: StatusCode)
        ensures
            final(self).request_id == old(self).request_id,
            final(self).operation == old(self).operation,
            final(self).deadline_ms == old(self).deadline_ms,
            final(self).kind@ == (match old(self).kind@ {
                PendingKindModel::Action { id: own, result: before } => if own == id {
                    PendingKindModel::Action { id: own, result: Some(result) }
                } else {
                    old(self).kind@
                },
                _ => old(self).kind@,
            }),
    {
        let own = match &self.kind {
            PendingKind::Action { id: own, .. } => Some(*own),
            _ => None,
        };
        if let Some(own) = own {
            if own == id {
                self.kind = PendingKind::Action { id, result: Some(result) };
            }
        }
    }
}

/// The state of the service that has a name.
pub open spec fn state_of(e: EngineModel, id: Seq<char>) -> Option<RuntimeModel> {
    match lifecycle::position(e.snapshot.catalog, id) {
        Some(i) => Some(e.services[i]),
        None => None,
    }
}

/// Whether one of the named services has failed by itself.
pub open spec fn some_failed(e: EngineModel, ids: Seq<Seq<char>>) -> bool {
    exists|k: int|
        0 <= k < ids.len() && (state_of(e, #[trigger] ids[k]) matches Some(r) && r.observed
            == ObservedState::Failed && r.blocked_by is None)
}

/// Whether every named service is active.
pub open spec fn all_active(e: EngineModel, ids: Seq<Seq<char>>) -> bool {
    forall|k: int|
        0 <= k < ids.len() ==> (state_of(e, #[trigger] ids[k]) matches Some(r) ==> r.observed
            == ObservedState::Active)
}

/// Whether nobody waits any longer for any of the named services to come up.
pub open spec fn all_arrived(e: EngineModel, ids: Seq<Seq<char>>) -> bool {
    forall|k: int|
        0 <= k < ids.len() ==> (lifecycle::position(e.snapshot.catalog, #[trigger] ids[k])
            matches Some(i) ==> lifecycle::arrived(e.snapshot.catalog, e.services, i))
}

/// Whether every named service is inactive.
pub open spec fn all_inactive(e: EngineModel, ids: Seq<Seq<char>>) -> bool {
    forall|k: int|
        0 <= k < ids.len() ==> (state_of(e, #[trigger] ids[k]) matches Some(r) ==> r.observed
            == ObservedState::Inactive)
}

/// Whether a service that should not run still does.
pub open spec fn some_stopping(e: EngineModel) -> bool {
    exists|i: int|
        0 <= i < e.services.len() && (#[trigger] e.services[i]).desired == DesiredState::Inactive
            && !e.services[i].at_rest()
}

/// How a request for services to become active is answered, once it is. The failure of a
/// service that is only wanted is waited for, and is no failure of the request.
pub open spec fn start_result(
    e: EngineModel,
    required: Seq<Seq<char>>,
    wanted: Seq<Seq<char>>,
) -> Option<(StatusCode, Seq<char>)> {
    if some_failed(e, required) {
        Some((StatusCode::ServiceFailure, "service failed"@))
    } else if all_active(e, required) && all_arrived(e, wanted) {
        Some((StatusCode::Success, "active"@))
    } else {
        None
    }
}

/// How a request is answered, once it is.
pub open spec fn result_of(e: EngineModel, kind: PendingKindModel) -> Option<
    (StatusCode, Seq<char>),
> {
    match kind {
        PendingKindModel::Start { required, wanted } => start_result(e, required, wanted),
        PendingKindModel::Apply(ids) => if e.pending is Some || some_stopping(e) {
            None
        } else {
            start_result(e, ids, Seq::empty())
        },
        PendingKindModel::Action { result, .. } => match result {
            None => None,
            Some(status) => if status == StatusCode::Success {
                Some((status, "completed"@))
            } else {
                Some((status, "action failed"@))
            },
        },
        PendingKindModel::Stop(ids) => if all_inactive(e, ids) {
            Some((StatusCode::Success, "inactive"@))
        } else {
            None
        },
        PendingKindModel::Restart { service, previous_generation } => match state_of(e, service) {
            None => None,
            Some(r) => if r.observed == ObservedState::Failed {
                Some((StatusCode::ServiceFailure, "restart failed"@))
            } else if r.observed == ObservedState::Active && r.generation > previous_generation {
                Some((StatusCode::Success, "restarted"@))
            } else {
                None
            },
        },
    }
}

/// What an answer in static words holds.
pub open spec fn answer(r: Option<(StatusCode, &'static str)>) -> Option<(StatusCode, Seq<char>)> {
    match r {
        Some((status, message)) => Some((status, message@)),
        None => None,
    }
}

fn start_answer(engine: &RuntimeEngine, ids: &Vec<ServiceId>) -> (r: Option<
    (StatusCode, &'static str),
>)
    requires
        engine@.consistent(),
    ensures
        answer(r) == start_result(engine@, model::id_texts(ids@), Seq::empty()),
{
    let ghost names = model::id_texts(ids@);
    let mut active = true;
    let mut k: usize = 0;
    while k < ids.len()
        invariant
            engine@.consistent(),
            names == model::id_texts(ids@),
            k <= ids@.len(),
            forall|q: int|
                0 <= q < k ==> !(state_of(engine@, #[trigger] names[q]) matches Some(s)
                    && s.observed == ObservedState::Failed && s.blocked_by is None),
            active ==> forall|q: int|
                0 <= q < k ==> (state_of(engine@, #[trigger] names[q]) matches Some(s)
                    ==> s.observed == ObservedState::Active),
            !active ==> exists|q: int|
                0 <= q < k && (state_of(engine@, #[trigger] names[q]) matches Some(s)
                    && s.observed != ObservedState::Active),
        decreases ids@.len() - k,
    {
        proof {
            assert(names[k as int] == ids@[k as int]@);
        }
        if let Some(status) = engine.status(&ids[k]) {
            let failed = status.observed == ObservedState::Failed && status.blocked_by.is_none();
            if failed {
                proof {
                    assert(some_failed(engine@, names));
                }
                return Some((StatusCode::ServiceFailure, "service failed"));
            }
            if status.observed != ObservedState::Active {
                active = false;
            }
        }
        k = k + 1;
    }
    if active {
        Some((StatusCode::Success, "active"))
    } else {
        proof {
            let q = choose|q: int|
                0 <= q < names.len() && (state_of(engine@, #[trigger] names[q]) matches Some(s)
                    && s.observed != ObservedState::Active);
            assert(!all_active(engine@, names));
        }
        None
    }
}

/// Whether nobody waits any longer for any of the named services to come up.
fn have_arrived(engine: &RuntimeEngine, ids: &Vec<ServiceId>) -> (r: bool)
    requires
        engine@.consistent(),
    ensures
        r == all_arrived(engine@, model::id_texts(ids@)),
{
    let ghost names = model::id_texts(ids@);
    let ghost c = engine@.snapshot.catalog;
    let mut k: usize = 0;
    while k < ids.len()
        invariant
            engine@.consistent(),
            c == engine@.snapshot.catalog,
            names == model::id_texts(ids@),
            k <= ids@.len(),
            forall|q: int|
                0 <= q < k ==> (lifecycle::position(c, #[trigger] names[q]) matches Some(i)
                    ==> lifecycle::arrived(c, engine@.services, i)),
        decreases ids@.len() - k,
    {
        proof {
            assert(names[k as int] == ids@[k as int]@);
        }
        if let Some(arrived) = engine.has_arrived(&ids[k]) {
            if !arrived {
                return false;
            }
        }
        k = k + 1;
    }
    true
}

fn still_stopping(engine: &RuntimeEngine) -> (r: bool)
    requires
        engine@.consistent(),
    ensures
        r == some_stopping(engine@),
{
    let statuses = engine.statuses();
    let mut i: usize = 0;
    while i < statuses.len()
        invariant
            engine@.consistent(),
            statuses@.len() == engine@.services.len(),
            forall|k: int|
                0 <= k < statuses@.len() ==> (#[trigger] statuses@[k]).1@
                    == engine@.services[k].status(),
            i <= statuses@.len(),
            forall|k: int|
                0 <= k < i ==> !((#[trigger] engine@.services[k]).desired
                    == DesiredState::Inactive && !engine@.services[k].at_rest()),
        decreases statuses@.len() - i,
    {
        let status = &statuses[i].1;
        proof {
            assert(statuses@[i as int].1@ == engine@.services[i as int].status());
        }
        if status.desired == DesiredState::Inactive && status.observed != ObservedState::Inactive
            && status.observed != ObservedState::Failed {
            proof {
                assert(!engine@.services[i as int].at_rest());
            }
            return true;
        }
        i = i + 1;
    }
    false
}

fn stop_answer(engine: &RuntimeEngine, ids: &Vec<ServiceId>) -> (r: bool)
    requires
        engine@.consistent(),
    ensures
        r == all_inactive(engine@, model::id_texts(ids@)),
{
    let ghost names = model::id_texts(ids@);
    let mut k: usize = 0;
    while k < ids.len()
        invariant
            engine@.consistent(),
            names == model::id_texts(ids@),
            k <= ids@.len(),
            forall|q: int|
                0 <= q < k ==> (state_of(engine@, #[trigger] names[q]) matches Some(s)
                    ==> s.observed == ObservedState::Inactive),
        decreases ids@.len() - k,
    {
        proof {
            assert(names[k as int] == ids@[k as int]@);
        }
        if let Some(status) = engine.status(&ids[k]) {
            if status.observed != ObservedState::Inactive {
                return false;
            }
        }
        k = k + 1;
    }
    true
}

/// The answer to a request, once what it waits for has come or cannot come any more.
pub fn pending_result(engine: &RuntimeEngine, kind: &PendingKind) -> (r: Option<
    (StatusCode, &'static str),
>)
    requires
        engine@.consistent(),
    ensures
        answer(r) == result_of(engine@, kind@),
{
    match kind {
        PendingKind::Start { required, wanted } => match start_answer(engine, required) {
            Some((status, message)) => if status == StatusCode::Success && !have_arrived(
                engine,
                wanted,
            ) {
                None
            } else {
                Some((status, message))
            },
            None => None,
        },
        PendingKind::Apply(ids) => if engine.apply_pending() || still_stopping(engine) {
            None
        } else {
            start_answer(engine, ids)
        },
        PendingKind::Action { result, .. } => match result {
            None => None,
            Some(status) => if *status == StatusCode::Success {
                Some((*status, "completed"))
            } else {
                Some((*status, "action failed"))
            },
        },
        PendingKind::Stop(ids) => if stop_answer(engine, ids) {
            Some((StatusCode::Success, "inactive"))
        } else {
            None
        },
        PendingKind::Restart { service, previous_generation } => match engine.status(service) {
            None => None,
            Some(status) => if status.observed == ObservedState::Failed {
                Some((StatusCode::ServiceFailure, "restart failed"))
            } else if status.observed == ObservedState::Active && status.generation
                > *previous_generation {
                Some((StatusCode::Success, "restarted"))
            } else {
                None
            },
        },
    }
}

/// A request to stop everything that should not run is answered only once all of it is
/// inactive, and a request to start services is answered with success only once every one
/// of them that is required and known is active.
pub proof fn completion_law(e: EngineModel, ids: Seq<Seq<char>>, wanted: Seq<Seq<char>>, i: int)
    requires
        0 <= i < ids.len(),
        state_of(e, ids[i]) is Some,
    ensures
        result_of(e, PendingKindModel::Stop(ids)) is Some ==> state_of(e, ids[i])->0.observed
            == ObservedState::Inactive,
        result_of(e, (PendingKindModel::Start { required: ids, wanted })) matches Some(
            (status, _),
        ) ==> status == StatusCode::Success ==> state_of(e, ids[i])->0.observed
            == ObservedState::Active,
        result_of(e, PendingKindModel::Apply(ids)) matches Some((status, _)) ==> status
            == StatusCode::Success ==> e.pending is None && state_of(e, ids[i])->0.observed
            == ObservedState::Active,
{
}

/// A request to start services fails only where one that is required has failed, and is
/// answered with success only once every one that is wanted and known is active, has failed
/// for good, or is no longer to run.
pub proof fn arrival_law(e: EngineModel, required: Seq<Seq<char>>, wanted: Seq<Seq<char>>)
    ensures
        result_of(e, (PendingKindModel::Start { required, wanted })) matches Some((status, _))
            ==> status == StatusCode::Success && all_arrived(e, wanted) || status
            == StatusCode::ServiceFailure && some_failed(e, required),
{
}

/// The answer to a request that waited too long.
pub const TIMEOUT_MESSAGE: &'static str = "operation timed out";

/// Gives up a request whose time is over, and hands its operation out. A later request of
/// the same client is not touched.
pub fn expire(pending: &mut Option<PendingRequest>, request_id: u64) -> (r: Option<Operation>)
    ensures
        match *old(pending) {
            Some(request) => if request.request_id == request_id {
                r == Some(request.operation) && *final(pending) is None
            } else {
                r is None && *final(pending) == *old(pending)
            },
            None => r is None && *final(pending) is None,
        },
{
    let due = match pending {
        Some(request) => if request.request_id == request_id {
            Some(request.operation)
        } else {
            None
        },
        None => None,
    };
    if due.is_some() {
        *pending = None;
    }
    due
}

/// Whether an answer ends rescue mode: a configuration was applied with success.
pub fn ends_rescue(operation: Operation, status: StatusCode) -> (r: bool)
    ensures
        r == (operation == Operation::Apply && status == StatusCode::Success),
{
    operation == Operation::Apply && status == StatusCode::Success
}

/// Which state a name has: that of the service it is the name of, and none where no service
/// has it.
pub proof fn state_law(e: EngineModel, id: Seq<char>)
    ensures
        state_of(e, id) matches Some(r) ==> exists|i: int|
            0 <= i < e.snapshot.catalog.services.len() && (
            #[trigger] e.snapshot.catalog.services[i]).id == id && r == e.services[i],
        state_of(e, id) is None ==> forall|i: int|
            0 <= i < e.snapshot.catalog.services.len() ==> (
            #[trigger] e.snapshot.catalog.services[i]).id != id,
{
}

/// When a request to stop is answered: with success once each of the services, as far as it
/// is known, is inactive, and not before. It never fails.
pub proof fn stop_answer_law(e: EngineModel, ids: Seq<Seq<char>>)
    ensures
        result_of(e, PendingKindModel::Stop(ids)) matches Some((status, _)) ==> status
            == StatusCode::Success,
        result_of(e, PendingKindModel::Stop(ids)) is Some <==> forall|k: int|
            0 <= k < ids.len() ==> (state_of(e, #[trigger] ids[k]) matches Some(r) ==> r.observed
                == ObservedState::Inactive),
{
}

/// Whether a service has come to an end by itself: it has failed and is held up by no other,
/// or it is inactive and must not be started again.
pub open spec fn ended(r: RuntimeModel) -> bool {
    ||| r.observed == ObservedState::Failed && r.blocked_by is None
    ||| r.observed == ObservedState::Inactive && r.restart_blocked
}

/// Whether a service that is only wanted no longer holds up an answer: it is active, is no
/// longer to run, has ended for good, or has failed because one that it needs has ended for
/// good.
pub open spec fn given_up(e: EngineModel, i: int) -> bool {
    let r = e.services[i];
    ||| r.observed == ObservedState::Active
    ||| r.desired == DesiredState::Inactive
    ||| ended(r)
    ||| r.observed == ObservedState::Failed && exists|j: int|
        0 <= j < e.snapshot.catalog.services.len() && #[trigger] e.snapshot.catalog.needs(i, j)
            && ended(e.services[j])
}

/// When a request to start is answered: with a failure once one of the required services has
/// failed by itself, else with success once each of them is active and none of those that
/// are only wanted is still on its way up. Applying a configuration is answered likewise,
/// but not while it waits itself, and not while a service that is not to run still does.
pub proof fn start_answer_law(e: EngineModel, required: Seq<Seq<char>>, wanted: Seq<Seq<char>>)
    ensures
        ({
            let failed = exists|k: int|
                0 <= k < required.len() && (state_of(e, #[trigger] required[k]) matches Some(r)
                    && r.observed == ObservedState::Failed && r.blocked_by is None);
            let up = forall|k: int|
                0 <= k < required.len() ==> (state_of(e, #[trigger] required[k]) matches Some(r)
                    ==> r.observed == ObservedState::Active);
            let rest = forall|k: int|
                0 <= k < wanted.len() ==> (lifecycle::position(
                    e.snapshot.catalog,
                    #[trigger] wanted[k],
                ) matches Some(i) ==> given_up(e, i));
            let busy = exists|i: int|
                0 <= i < e.services.len() && (#[trigger] e.services[i]).desired
                    == DesiredState::Inactive && e.services[i].observed != ObservedState::Inactive
                    && e.services[i].observed != ObservedState::Failed;
            let start = result_of(e, (PendingKindModel::Start { required, wanted }));
            let apply = result_of(e, PendingKindModel::Apply(required));
            &&& (start matches Some((status, _)) && status == StatusCode::ServiceFailure)
                <==> failed
            &&& (start matches Some((status, _)) && status == StatusCode::Success) <==> !failed
                && up && rest
            &&& start is None <==> !failed && !(up && rest)
            &&& (apply matches Some((status, _)) && status == StatusCode::ServiceFailure)
                <==> e.pending is None && !busy && failed
            &&& (apply matches Some((status, _)) && status == StatusCode::Success)
                <==> e.pending is None && !busy && !failed && up
            &&& apply is None <==> e.pending is Some || busy || !failed && !up
        }),
{
    assert(all_arrived(e, wanted) <==> forall|k: int|
        0 <= k < wanted.len() ==> (lifecycle::position(e.snapshot.catalog, #[trigger] wanted[k])
            matches Some(i) ==> given_up(e, i)));
    assert(some_stopping(e) <==> exists|i: int|
        0 <= i < e.services.len() && (#[trigger] e.services[i]).desired == DesiredState::Inactive
            && e.services[i].observed != ObservedState::Inactive && e.services[i].observed
            != ObservedState::Failed);
    assert(all_arrived(e, Seq::<Seq<char>>::empty()));
}

/// When a request to restart is answered: with success once a later attempt than the one
/// before the request is active, and with a failure once the service has failed. An attempt
/// that was already there is no answer.
pub proof fn restart_answer_law(e: EngineModel, service: Seq<char>, previous: u64)
    ensures
        ({
            let kind = PendingKindModel::Restart { service, previous_generation: previous };
            match state_of(e, service) {
                None => result_of(e, kind) is None,
                Some(r) => {
                    &&& r.observed == ObservedState::Failed ==> (result_of(e, kind) matches Some(
                        (status, _),
                    ) && status == StatusCode::ServiceFailure)
                    &&& r.observed == ObservedState::Active && r.generation > previous ==> (
                    result_of(e, kind) matches Some((status, _)) && status == StatusCode::Success)
                    &&& r.observed != ObservedState::Failed && !(r.observed == ObservedState::Active
                        && r.generation > previous) ==> result_of(e, kind) is None
                },
            }
        }),
{
}

/// When a request that runs a helper is answered: once the helper has ended, and with the
/// status that it ended with.
pub proof fn action_answer_law(e: EngineModel, id: u64, result: Option<StatusCode>)
    ensures
        match result_of(e, (PendingKindModel::Action { id, result })) {
            None => result is None,
            Some((status, _)) => result == Some(status),
        },
{
}

/// How long a request waits: the time that it is given, unless the clock ends before.
pub proof fn later_law(now_ms: u64, after_ms: u64)
    ensures
        now_ms + after_ms <= u64::MAX ==> later(now_ms, after_ms) == now_ms + after_ms,
        now_ms + after_ms > u64::MAX ==> later(now_ms, after_ms) == u64::MAX,
        CONTROL_TIMEOUT_MS == 30_000,
{
}

} // verus!
