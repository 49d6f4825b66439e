//! When each step of the engine is made, told by the states that services are in: what is
//! started, what fails for want of another, what recovers, what stops, and what an event
//! leads to.

use vstd::prelude::*;

use crate::catalog::CatalogModel;
use crate::config::SnapshotModel;
use crate::dispatch;
use crate::laws;
use crate::lifecycle;
use crate::lifecycle::{
    Decision, EffectModel, EngineModel, EventModel, RuntimeModel, Stopped,
};
use crate::model;
use crate::model::{RestartPolicy, ServiceModel};
use crate::pending;
use crate::promises;
use crate::runtime::{DesiredState, ObservedState, StopResult, StopSignal, TimerKind};

verus! {

/// Whether a service is there for those that need it.
pub open spec fn there(r: RuntimeModel) -> bool {
    r.observed == ObservedState::Active && r.blocked_by is None
}

/// Whether a service waits to be started: it should run, is inactive, does not wait for its
/// restart and may be started.
pub open spec fn waits(r: RuntimeModel) -> bool {
    &&& r.desired == DesiredState::Active
    &&& r.observed == ObservedState::Inactive
    &&& !r.restart_blocked
    &&& !r.waiting_restart
}

/// Whether what runs lets a service start: nothing that it conflicts with, in either
/// direction, is on its way up or down or active.
pub open spec fn unopposed(c: CatalogModel, st: Seq<RuntimeModel>, i: int) -> bool {
    forall|j: int| 0 <= j < c.services.len() && j != i ==> !#[trigger] promises::opposed(c, st, i, j)
}

/// Whether a service that another waits for holds it up no longer: it is not to run, is
/// active, has come to an end, or has failed while one that it needs has come to an end.
pub open spec fn passed(c: CatalogModel, st: Seq<RuntimeModel>, j: int) -> bool {
    ||| st[j].desired == DesiredState::Inactive
    ||| st[j].observed == ObservedState::Active
    ||| pending::ended(st[j])
    ||| st[j].observed == ObservedState::Failed && exists|k: int|
        0 <= k < c.services.len() && #[trigger] c.needs(j, k) && pending::ended(st[k])
}

/// When a service is started, and when it fails instead: of those that wait to be started, and
/// that what runs lets start, it fails where one that it needs has failed, and names the first
/// of these; else it is started exactly where all that it needs are there, all that it waits
/// for hold it up no longer, and each that it is ordered after is not to run, is active or has
/// failed.
pub proof fn decision_law(c: CatalogModel, st: Seq<RuntimeModel>, i: int)
    requires
        st.len() == c.services.len(),
        0 <= i < st.len(),
    ensures
        ({
            let failing = exists|j: int|
                0 <= j < st.len() && #[trigger] c.needs(i, j) && st[j].observed
                    == ObservedState::Failed;
            &&& lifecycle::decision(c, st, i) is Block <==> waits(st[i]) && unopposed(c, st, i)
                && failing
            &&& lifecycle::decision(c, st, i) matches Decision::Block(j) ==> 0 <= j < st.len()
                && c.needs(i, j) && st[j].observed == ObservedState::Failed && forall|k: int|
                0 <= k < j && #[trigger] c.needs(i, k) ==> st[k].observed != ObservedState::Failed
            &&& lifecycle::decision(c, st, i) is Launch <==> {
                &&& waits(st[i])
                &&& unopposed(c, st, i)
                &&& !failing
                &&& forall|j: int| 0 <= j < st.len() && #[trigger] c.needs(i, j) ==> there(st[j])
                &&& forall|j: int|
                    0 <= j < st.len() && #[trigger] c.awaits(i, j) ==> passed(c, st, j)
                &&& forall|k: int, j: int|
                    0 <= k < c.services[i].dependencies.after.len() && 0 <= j < st.len()
                        && #[trigger] c.activates(
                        c.node(c.services[i].dependencies.after[k]),
                        j,
                    ) ==> {
                        ||| st[j].desired == DesiredState::Inactive
                        ||| st[j].observed == ObservedState::Active
                        ||| st[j].observed == ObservedState::Failed
                    }
            }
        }),
{
    lifecycle::first_need_law(
        c,
        i,
        |j: int| st[j].observed == ObservedState::Failed,
        c.services.len(),
    );
    lifecycle::first_need_law(c, i, |j: int| !st[j].serves(), c.services.len());
    assert(lifecycle::conflicts_clear(c, st, i) == unopposed(c, st, i)) by {
        if lifecycle::conflicts_clear(c, st, i) {
            assert forall|j: int| 0 <= j < c.services.len() && j != i implies !#[trigger]
                promises::opposed(c, st, i, j) by {
                assert(st[j].at_rest() || !lifecycle::conflicting(c, i, j));
            }
        }
        if unopposed(c, st, i) {
            assert forall|j: int|
                0 <= j < c.services.len() && j != i
                    && !(#[trigger] st[j]).at_rest() implies !lifecycle::conflicting(c, i, j) by {
                assert(!promises::opposed(c, st, i, j));
            }
        }
    }
    assert forall|j: int| 0 <= j < st.len() implies lifecycle::arrived(c, st, j) == #[trigger] passed(
        c,
        st,
        j,
    ) by {}
    assert(lifecycle::awaited_arrived(c, st, i) == forall|j: int|
        0 <= j < st.len() && #[trigger] c.awaits(i, j) ==> passed(c, st, j));
}

/// When a service recovers: where it should run, has no process, and the one that holds it up
/// is known and is there again. It is inactive then and is held up by nothing; else nothing of
/// it changes.
pub proof fn recovery_law(c: CatalogModel, st: Seq<RuntimeModel>, i: int, j: int)
    requires
        c.ordered(),
        st.len() == c.services.len(),
        0 <= i < st.len(),
        0 <= j < st.len(),
        st[i].blocked_by == Some(c.services[j].id),
    ensures
        ({
            let after = lifecycle::recover_all(c, st)[i];
            let back = there(st[j]) && !st[i].has_process && st[i].desired == DesiredState::Active;
            &&& !back ==> after == st[i]
            &&& back ==> {
                &&& after.observed == ObservedState::Inactive
                &&& after.blocked_by is None
                &&& after.desired == DesiredState::Active
                &&& !after.has_process
                &&& after.generation == st[i].generation
                &&& after.restart_blocked == st[i].restart_blocked
                &&& after.waiting_restart == st[i].waiting_restart
                &&& after.restart_history == st[i].restart_history
            }
        }),
{
    lifecycle::position_unique(c, j);
}

/// What is held up by nothing recovers from nothing.
pub proof fn no_recovery_law(c: CatalogModel, st: Seq<RuntimeModel>, i: int)
    requires
        st.len() == c.services.len(),
        0 <= i < st.len(),
        st[i].blocked_by is None,
    ensures
        lifecycle::recover_all(c, st)[i] == st[i],
{
}

/// How many services are starting: each that is starting with a process counts once, and no
/// other.
pub proof fn count_law(st: Seq<RuntimeModel>, n: nat)
    requires
        n < st.len(),
    ensures
        lifecycle::launching_count(st, 0) == 0,
        st[n as int].observed == ObservedState::Starting && st[n as int].has_process
            ==> lifecycle::launching_count(st, n + 1) == lifecycle::launching_count(st, n) + 1,
        st[n as int].observed != ObservedState::Starting || !st[n as int].has_process
            ==> lifecycle::launching_count(st, n + 1) == lifecycle::launching_count(st, n),
{
}

/// How many services may be started: as many as the bound leaves beside those that are
/// starting, and none where these have reached it.
pub proof fn capacity_law(s: SnapshotModel, st: Seq<RuntimeModel>)
    ensures
        ({
            let busy = lifecycle::launching_count(st, s.catalog.services.len());
            &&& busy < s.max_starting ==> lifecycle::capacity(s, st) + busy == s.max_starting
            &&& busy >= s.max_starting ==> lifecycle::capacity(s, st) == 0
        }),
{
}

/// When a service is stopped: where it should not run, neither has stopped nor is about to, and
/// no other that should not run, and still has a process, needs it. With a process it is told
/// to stop; without one it is inactive. Nothing else is touched.
pub proof fn stop_step_law(c: CatalogModel, p: Stopped, i: int, k: int)
    requires
        p.services.len() == c.services.len(),
        laws::all_sound(p.services),
        0 <= i < p.services.len(),
        0 <= k < p.services.len(),
    ensures
        ({
            let st = p.services;
            let q = lifecycle::stop_one(c, p, i);
            let due = {
                &&& st[i].desired == DesiredState::Inactive
                &&& st[i].observed != ObservedState::Inactive
                &&& st[i].observed != ObservedState::Stopping
                &&& forall|j: int|
                    0 <= j < st.len() && j != i && #[trigger] c.needs(j, i) && st[j].desired
                        == DesiredState::Inactive ==> !st[j].has_process
            };
            &&& k != i ==> q.services[k] == st[k]
            &&& !due ==> q.services == st && q.effects == p.effects
            &&& due && st[i].has_process ==> {
                &&& q.services[i].observed == ObservedState::Stopping
                &&& q.services[i].stop_result == StopResult::Inactive
                &&& q.services[i].has_process
                &&& q.effects.len() > p.effects.len()
                &&& q.effects[p.effects.len() as int] == (EffectModel::Terminate {
                    service: c.services[i].id,
                    generation: st[i].generation,
                    force: st[i].stop_signal == StopSignal::Kill,
                })
            }
            &&& due && !st[i].has_process ==> {
                &&& q.services[i].observed == ObservedState::Inactive
                &&& q.effects == p.effects
            }
            &&& q.services[i].desired == st[i].desired
            &&& q.services[i].generation == st[i].generation
        }),
{
    let st = p.services;
    assert(lifecycle::has_stopping_dependent(c, st, i) == !(forall|j: int|
        0 <= j < st.len() && j != i && #[trigger] c.needs(j, i) && st[j].desired
            == DesiredState::Inactive ==> !st[j].has_process)) by {
        if lifecycle::has_stopping_dependent(c, st, i) {
            let j = choose|j: int|
                0 <= j < c.services.len() && j != i && (#[trigger] st[j]).desired
                    == DesiredState::Inactive && st[j].lingers() && c.needs(j, i);
            assert(laws::sound(st[j]));
            assert(c.needs(j, i));
        }
    }
    if lifecycle::stops_now(c, st, i) && st[i].has_process {
        let more = lifecycle::stop_effects(
            c.services[i],
            st[i].generation,
            st[i].stop_signal == StopSignal::Kill,
        );
        assert(lifecycle::stop_one(c, p, i).effects[p.effects.len() as int] == more[0]);
    }
}

/// What the loss of what it needs does to a service that should run. With a process, where one
/// that it needs is not there or it is held up already: it is held up, and is told to stop and
/// to fail once no other with a process needs it. Without one it fails, unless it is held up
/// already: where it is active, for want of the first that is not there, and else for want of
/// the first that has failed. One that should not run is left alone.
pub proof fn loss_step_law(c: CatalogModel, p: Stopped, i: int, k: int)
    requires
        p.services.len() == c.services.len(),
        0 <= i < p.services.len(),
        0 <= k < p.services.len(),
    ensures
        ({
            let st = p.services;
            let r = st[i];
            let q = lifecycle::propagate_one(c, p, i);
            let after = q.services[i];
            let short = exists|j: int|
                0 <= j < st.len() && #[trigger] c.needs(i, j) && !there(st[j]);
            let failing = exists|j: int|
                0 <= j < st.len() && #[trigger] c.needs(i, j) && st[j].observed
                    == ObservedState::Failed;
            let relied_on = exists|j: int|
                0 <= j < st.len() && j != i && #[trigger] c.needs(j, i) && st[j].has_process;
            let lacking = short || r.blocked_by is Some;
            let leaving = r.observed == ObservedState::Stopping && r.blocked_by is Some;
            &&& k != i ==> q.services[k] == st[k]
            &&& r.desired == DesiredState::Inactive ==> q == p
            &&& r.desired == DesiredState::Active && r.has_process ==> {
                &&& !lacking || leaving ==> q == p
                &&& lacking && !leaving ==> after.blocked_by is Some && after.has_process
                &&& lacking && !leaving && relied_on ==> after.observed == r.observed && q.effects
                    == p.effects
                &&& lacking && !leaving && !relied_on ==> {
                    &&& after.observed == ObservedState::Stopping
                    &&& after.stop_result == StopResult::Failed
                    &&& q.effects.len() > p.effects.len()
                    &&& q.effects[p.effects.len() as int] == (EffectModel::Terminate {
                        service: c.services[i].id,
                        generation: r.generation,
                        force: r.stop_signal == StopSignal::Kill,
                    })
                }
            }
            &&& r.desired == DesiredState::Active && !r.has_process ==> {
                let wanting = if r.observed == ObservedState::Active {
                    short
                } else {
                    failing
                };
                &&& !wanting || r.blocked_by is Some ==> q == p
                &&& wanting && r.blocked_by is None ==> after.observed == ObservedState::Failed
                    && after.blocked_by is Some && !after.has_process
                &&& q.effects == p.effects
            }
            &&& after.desired == r.desired
            &&& after.generation == r.generation
            &&& after.blocked_by matches Some(id) ==> r.blocked_by == Some(id) || exists|j: int|
                0 <= j < st.len() && #[trigger] c.needs(i, j) && !there(st[j]) && id
                    == c.services[j].id
        }),
{
    let st = p.services;
    let r = st[i];
    lifecycle::first_need_law(
        c,
        i,
        |j: int| st[j].observed == ObservedState::Failed,
        c.services.len(),
    );
    lifecycle::first_need_law(c, i, |j: int| !st[j].serves(), c.services.len());
    assert(lifecycle::has_running_dependent(c, st, i) == exists|j: int|
        0 <= j < st.len() && j != i && #[trigger] c.needs(j, i) && st[j].has_process) by {
        if lifecycle::has_running_dependent(c, st, i) {
            let j = choose|j: int|
                0 <= j < c.services.len() && j != i && (#[trigger] st[j]).has_process && c.needs(
                    j,
                    i,
                );
            assert(c.needs(j, i));
        }
    }
    if r.desired == DesiredState::Active && r.has_process && lifecycle::lacked(c, st, i) is Some
        && !lifecycle::yielding(r) && !lifecycle::has_running_dependent(c, st, i) {
        let more = lifecycle::stop_effects(
            c.services[i],
            r.generation,
            r.stop_signal == StopSignal::Kill,
        );
        assert(lifecycle::propagate_one(c, p, i).effects[p.effects.len() as int] == more[0]);
    }
}

proof fn propagate_from_sound(c: CatalogModel, p: Stopped, i: nat, m: int)
    requires
        p.services.len() == c.services.len(),
        laws::all_sound(p.services),
        0 <= m < p.services.len(),
    ensures
        ({
            let q = lifecycle::propagate_from(c, p, i).services;
            &&& q.len() == p.services.len()
            &&& laws::all_sound(q)
            &&& p.services[m].desired == DesiredState::Inactive ==> q[m] == p.services[m]
            &&& forall|j: int|
                0 <= j < q.len() ==> (#[trigger] q[j]).desired == p.services[j].desired
                    && q[j].has_process == p.services[j].has_process
            &&& (forall|j: int| 0 <= j < c.services.len() ==> !#[trigger] c.needs(m, j))
                && p.services[m].blocked_by is None ==> q[m] == p.services[m]
        }),
    decreases c.services.len() - i,
{
    if i < c.services.len() {
        let next = lifecycle::propagate_one(c, p, i as int);
        loss_step_law(c, p, i as int, m);
        assert forall|j: int| 0 <= j < next.services.len() implies laws::sound(
            #[trigger] next.services[j],
        ) && next.services[j].desired == p.services[j].desired && next.services[j].has_process
            == p.services[j].has_process by {
            assert(laws::sound(p.services[j]));
        }
        propagate_from_sound(c, next, i + 1, m);
    }
}

/// Loss is handed on with every event: where, once the event has done its own to the states, a
/// service that should run has a process and something that it needs is not there, it is held
/// up afterwards.
pub proof fn event_loss_law(e: EngineModel, event: EventModel, i: int, j: int)
    requires
        e.consistent(),
        laws::all_sound(e.services),
        e.pending is None,
        lifecycle::is_current(e, event),
        0 <= i < e.services.len(),
        0 <= j < e.services.len(),
        e.snapshot.catalog.needs(i, j),
        lifecycle::reacted(e, event).services[i].desired == DesiredState::Active,
        lifecycle::reacted(e, event).services[i].has_process,
        !there(lifecycle::reacted(e, event).services[j]),
    ensures
        lifecycle::handle(e, event).engine.services[i].blocked_by is Some,
        lifecycle::handle(e, event).engine.services[i].has_process,
{
    let c = e.snapshot.catalog;
    let at = event.at_ms();
    reacted_sound(e, event);
    let st = lifecycle::reacted(e, event).services;
    laws::loss_law(c, st);
    let q = lifecycle::propagate(c, st).services;
    propagate_from_sound(c, Stopped { services: st, effects: Seq::empty() }, 0, i);
    assert(laws::lost(st[j], q[j]));
    assert(laws::lost(st[i], q[i]));
    assert(!q[j].serves());
    assert(laws::lacks(c, q, i));
    settle_spares(EngineModel { services: q, ..e }, at, i);
}

/// What has a process and should run is left alone by what follows the loss.
proof fn settle_spares(e: EngineModel, now_ms: u64, i: int)
    requires
        e.consistent(),
        laws::all_sound(e.services),
        0 <= i < e.services.len(),
        e.services[i].has_process,
        e.services[i].desired == DesiredState::Active,
    ensures
        lifecycle::settle(e, now_ms).engine.services[i] == e.services[i],
{
    let c = e.snapshot.catalog;
    laws::stop_order_law(c, e.services);
    stops_sound(c, e.services);
    let q = lifecycle::schedule_stops(c, e.services).services;
    laws::attempt_law(e.snapshot, q, now_ms);
    assert(laws::scheduled(q[i], lifecycle::schedule(e.snapshot, q, now_ms).services[i]));
}

proof fn stops_sound(c: CatalogModel, st: Seq<RuntimeModel>)
    requires
        st.len() == c.services.len(),
        laws::all_sound(st),
    ensures
        laws::all_sound(lifecycle::schedule_stops(c, st).services),
        lifecycle::schedule_stops(c, st).services.len() == st.len(),
{
    stop_from_keeps_sound(c, Stopped { services: st, effects: Seq::empty() }, 0);
}

proof fn stop_from_keeps_sound(c: CatalogModel, p: Stopped, i: nat)
    requires
        p.services.len() == c.services.len(),
        laws::all_sound(p.services),
    ensures
        laws::all_sound(lifecycle::stop_from(c, p, i).services),
        lifecycle::stop_from(c, p, i).services.len() == p.services.len(),
    decreases c.services.len() - i,
{
    if i < c.services.len() {
        let next = lifecycle::stop_one(c, p, i as int);
        assert forall|j: int| 0 <= j < next.services.len() implies laws::sound(
            #[trigger] next.services[j],
        ) by {
            assert(laws::sound(p.services[j]));
        }
        stop_from_keeps_sound(c, next, i + 1);
    }
}

proof fn reacted_sound(e: EngineModel, event: EventModel)
    requires
        e.consistent(),
        laws::all_sound(e.services),
    ensures
        laws::all_sound(lifecycle::reacted(e, event).services),
        lifecycle::reacted(e, event).services.len() == e.services.len(),
{
    let c = e.snapshot.catalog;
    if let Some(i) = lifecycle::position(c, event.service()) {
        assert(laws::sound(e.services[i]));
        let step = lifecycle::react(c.services[i], e.services[i], event);
        assert(laws::sound(step.service));
    }
}

proof fn stop_from_hits(c: CatalogModel, p: Stopped, i: nat, m: int)
    requires
        p.services.len() == c.services.len(),
        laws::all_sound(p.services),
        0 <= m < p.services.len(),
        p.services[m].has_process,
        i > m ==> p.services[m].observed == ObservedState::Stopping,
        i <= m ==> {
            &&& p.services[m].desired == DesiredState::Inactive
            &&& p.services[m].observed != ObservedState::Inactive
            &&& p.services[m].observed != ObservedState::Stopping
            &&& forall|j: int|
                0 <= j < p.services.len() && j != m && #[trigger] c.needs(j, m)
                    && p.services[j].desired == DesiredState::Inactive
                    ==> !p.services[j].has_process
        },
    ensures
        lifecycle::stop_from(c, p, i).services[m].observed == ObservedState::Stopping,
    decreases c.services.len() - i,
{
    if i < c.services.len() {
        let next = lifecycle::stop_one(c, p, i as int);
        stop_step_law(c, p, i as int, m);
        assert forall|j: int| 0 <= j < next.services.len() implies laws::sound(
            #[trigger] next.services[j],
        ) && next.services[j].desired == p.services[j].desired && next.services[j].has_process
            == p.services[j].has_process by {
            assert(laws::sound(p.services[j]));
        }
        stop_from_hits(c, next, i + 1, m);
    }
}

/// What should not run is stopped with the next event: where, once the event has done its own
/// to the states, a service that should not run has a process, is not stopping yet, and no
/// other that should not run, and has a process, needs it, it is told to stop.
pub proof fn event_stop_law(e: EngineModel, event: EventModel, i: int)
    requires
        e.consistent(),
        laws::all_sound(e.services),
        e.pending is None,
        lifecycle::is_current(e, event),
        0 <= i < e.services.len(),
        lifecycle::reacted(e, event).services[i].desired == DesiredState::Inactive,
        lifecycle::reacted(e, event).services[i].has_process,
        forall|j: int|
            0 <= j < e.services.len() && j != i && #[trigger] e.snapshot.catalog.needs(j, i)
                && lifecycle::reacted(e, event).services[j].desired == DesiredState::Inactive
                ==> !lifecycle::reacted(e, event).services[j].has_process,
    ensures
        lifecycle::handle(e, event).engine.services[i].observed == ObservedState::Stopping,
{
    let c = e.snapshot.catalog;
    let at = event.at_ms();
    reacted_sound(e, event);
    let st = lifecycle::reacted(e, event).services;
    let q = lifecycle::propagate(c, st).services;
    propagate_from_sound(c, Stopped { services: st, effects: Seq::empty() }, 0, i);
    assert(laws::sound(st[i]));
    if q[i].observed == ObservedState::Stopping {
        laws::stop_order_law(c, q);
        assert(laws::halted(q[i], lifecycle::schedule_stops(c, q).services[i]));
    } else {
        stop_from_hits(c, Stopped { services: q, effects: Seq::empty() }, 0, i);
    }
    stops_sound(c, q);
    let stopped = lifecycle::schedule_stops(c, q).services;
    laws::stop_order_law(c, q);
    assert(laws::halted(q[i], stopped[i]));
    laws::attempt_law(e.snapshot, stopped, at);
    assert(laws::scheduled(
        stopped[i],
        lifecycle::schedule(e.snapshot, stopped, at).services[i],
    ));
}

proof fn count_bound(st: Seq<RuntimeModel>, n: nat)
    ensures
        lifecycle::launching_count(st, n) <= n,
    decreases n,
{
    if n > 0 {
        count_bound(st, (n - 1) as nat);
    }
}

/// A restart is made: once the restart timer of a service that should run and waits for its
/// restart has run out, a service that depends on nothing has a new attempt, as long as more
/// services may be starting than there are.
pub proof fn restart_made_law(e: EngineModel, i: int, at_ms: u64)
    requires
        e.consistent(),
        laws::all_sound(e.services),
        e.pending is None,
        0 <= i < e.services.len(),
        e.services.len() < e.snapshot.max_starting,
        e.services[i].desired == DesiredState::Active,
        e.services[i].waiting_restart,
        !e.services[i].restart_blocked,
        e.services[i].blocked_by is None,
        e.snapshot.catalog.services[i].dependencies.requires.len() == 0,
        e.snapshot.catalog.services[i].dependencies.after.len() == 0,
        e.snapshot.catalog.services[i].dependencies.conflicts.len() == 0,
        forall|j: int|
            0 <= j < e.services.len() ==> !(
            #[trigger] e.snapshot.catalog.services[j]).dependencies.conflicts.contains(
                e.snapshot.catalog.services[i].id,
            ),
    ensures
        ({
            let event = EventModel::Timer {
                service: e.snapshot.catalog.services[i].id,
                generation: e.services[i].generation,
                kind: TimerKind::Restart,
                at_ms,
            };
            let after = lifecycle::handle(e, event).engine.services[i];
            &&& after.observed == ObservedState::Starting
            &&& after.has_process
            &&& after.started_at_ms == at_ms
            &&& e.services[i].generation < u64::MAX ==> after.generation == e.services[i].generation
                + 1
        }),
{
    let c = e.snapshot.catalog;
    let event = EventModel::Timer {
        service: c.services[i].id,
        generation: e.services[i].generation,
        kind: TimerKind::Restart,
        at_ms,
    };
    lifecycle::position_unique(c, i);
    reacted_sound(e, event);
    assert(laws::sound(e.services[i]));
    let st = lifecycle::reacted(e, event).services;
    assert forall|j: int| 0 <= j < c.services.len() implies !#[trigger] c.needs(i, j) && !c.awaits(
        i,
        j,
    ) by {
        assert(c.dependencies(i).requires.len() == 0);
    }
    let q = lifecycle::propagate(c, st).services;
    propagate_from_sound(c, Stopped { services: st, effects: Seq::empty() }, 0, i);
    assert(q[i] == st[i]);
    stops_sound(c, q);
    laws::stop_order_law(c, q);
    let mid = lifecycle::schedule_stops(c, q).services;
    assert(mid[i] == q[i]);
    let done = lifecycle::schedule(e.snapshot, mid, at_ms).services;
    count_bound(done, mid.len());
    assert forall|j: int| 0 <= j < mid.len() && j != i implies !#[trigger] promises::opposed(
        c,
        done,
        i,
        j,
    ) by {
        assert(!c.services[j].dependencies.conflicts.contains(c.services[i].id));
    }
    promises::release_law(e.snapshot, mid, at_ms, i);
}

/// What a plan says of a service of either configuration: it is started where the new default
/// group activates it and it is inactive or has failed; it is stopped where it does not and it
/// is neither; it is restarted where it does, it is neither, and the new configuration makes
/// it, or one that it needs, run in another way; it is removed where only the old configuration
/// has it, and updated where only the new one has, or the two define it otherwise.
pub proof fn plan_rule_law(e: EngineModel, new: SnapshotModel, i: int, k: int)
    requires
        e.consistent(),
        new.valid(),
        0 <= i < e.services.len(),
        0 <= k < new.catalog.services.len(),
        e.snapshot.catalog.services[i].id == new.catalog.services[k].id,
    ensures
        ({
            let plan = lifecycle::plan(e, new);
            let c = e.snapshot.catalog;
            let id = c.services[i].id;
            let runs = e.services[i].observed != ObservedState::Inactive && e.services[i].observed
                != ObservedState::Failed;
            let wanted = new.catalog.activates(new.catalog.node(new.default_group), k);
            let other = promises::replaced(e.snapshot, new, i) || exists|j: int|
                0 <= j < e.services.len() && #[trigger] c.needs(i, j) && promises::replaced(
                    e.snapshot,
                    new,
                    j,
                );
            &&& plan.start.contains(id) <==> wanted && !runs
            &&& plan.stop.contains(id) <==> !wanted && runs
            &&& plan.restart.contains(id) <==> wanted && runs && other
            &&& plan.update.contains(id) <==> defined_otherwise(
                c.services[i],
                new.catalog.services[k],
            )
            &&& !plan.remove.contains(id)
        }),
{
    let c = e.snapshot.catalog;
    let id = c.services[i].id;
    laws::plan_law(e, new, id);
    lifecycle::position_unique(c, i);
    lifecycle::position_unique(new.catalog, k);
    assert forall|j: int| 0 <= j < e.services.len() implies #[trigger] promises::replaced(
        e.snapshot,
        new,
        j,
    ) == lifecycle::changed(e.snapshot, new, j) by {
        promises::replaced_is_changed(e.snapshot, new, j);
    }
    let a = c.services[i];
    let b = new.catalog.services[k];
    if !defined_otherwise(a, b) {
        assert(a.plain() =~= b.plain());
    }
}

/// Whether two definitions of a service differ in anything, but for how their paths are
/// written.
pub open spec fn defined_otherwise(a: ServiceModel, b: ServiceModel) -> bool {
    ||| promises::runs_otherwise(a, b)
    ||| a.id != b.id
    ||| a.description != b.description
    ||| a.dependencies.requires != b.dependencies.requires
    ||| a.dependencies.wants != b.dependencies.wants
    ||| a.dependencies.after != b.dependencies.after
    ||| a.dependencies.conflicts != b.dependencies.conflicts
    ||| a.supervision != b.supervision
}

/// What a plan says of a service that only one of the configurations has: one that is new is
/// started where the default group activates it, and is defined anew; one that is gone is
/// removed, and stopped where it is neither inactive nor has failed.
pub proof fn plan_ends_law(e: EngineModel, new: SnapshotModel, i: int, k: int)
    requires
        e.consistent(),
        new.valid(),
        0 <= i < e.services.len(),
        0 <= k < new.catalog.services.len(),
        forall|j: int|
            0 <= j < new.catalog.services.len() ==> (#[trigger] new.catalog.services[j]).id
                != e.snapshot.catalog.services[i].id,
        forall|j: int|
            0 <= j < e.services.len() ==> (#[trigger] e.snapshot.catalog.services[j]).id
                != new.catalog.services[k].id,
    ensures
        ({
            let plan = lifecycle::plan(e, new);
            let gone = e.snapshot.catalog.services[i].id;
            let came = new.catalog.services[k].id;
            let runs = e.services[i].observed != ObservedState::Inactive && e.services[i].observed
                != ObservedState::Failed;
            &&& plan.remove.contains(gone)
            &&& plan.stop.contains(gone) <==> runs
            &&& !plan.start.contains(gone) && !plan.restart.contains(gone)
            &&& !plan.update.contains(gone)
            &&& plan.update.contains(came)
            &&& plan.start.contains(came) <==> new.catalog.activates(
                new.catalog.node(new.default_group),
                k,
            )
            &&& !plan.stop.contains(came) && !plan.restart.contains(came)
            &&& !plan.remove.contains(came)
        }),
{
    let gone = e.snapshot.catalog.services[i].id;
    let came = new.catalog.services[k].id;
    laws::plan_law(e, new, gone);
    laws::plan_law(e, new, came);
    lifecycle::position_unique(e.snapshot.catalog, i);
    lifecycle::position_unique(new.catalog, k);
}

/// Which events count: those of a service that is known, of its last attempt, which must have
/// its process unless a timer has run out. Any other changes nothing and leads to nothing.
pub proof fn current_law(e: EngineModel, event: EventModel, i: int)
    requires
        e.consistent(),
        0 <= i < e.services.len(),
        event.service() == e.snapshot.catalog.services[i].id,
    ensures
        ({
            let counts = event.generation() == e.services[i].generation && (e.services[i].has_process
                || event is Timer);
            &&& lifecycle::is_current(e, event) <==> counts
            &&& !counts ==> lifecycle::handle(e, event).engine == e && lifecycle::handle(
                e,
                event,
            ).effects.len() == 0
        }),
{
    lifecycle::position_unique(e.snapshot.catalog, i);
}

/// What an event does first is to its own service alone.
pub proof fn own_event_law(e: EngineModel, event: EventModel, i: int, k: int)
    requires
        e.consistent(),
        0 <= i < e.services.len(),
        0 <= k < e.services.len(),
        event.service() == e.snapshot.catalog.services[i].id,
    ensures
        ({
            let first = lifecycle::reacted(e, event);
            let step = lifecycle::react(e.snapshot.catalog.services[i], e.services[i], event);
            &&& first.services[i] == step.service
            &&& k != i ==> first.services[k] == e.services[k]
            &&& first.effects == step.effects
        }),
{
    lifecycle::position_unique(e.snapshot.catalog, i);
}

/// A kill goes only to what is stopping and is to be killed: what a forced stop adds to the
/// signals are kills of such services, each once.
pub proof fn kill_only_law(
    c: CatalogModel,
    st: Seq<RuntimeModel>,
    effects: Seq<EffectModel>,
    n: nat,
    k: int,
)
    requires
        st.len() == c.services.len(),
        n <= st.len(),
        0 <= k < lifecycle::with_kills(c, st, effects, n).len(),
    ensures
        effects.len() <= lifecycle::with_kills(c, st, effects, n).len(),
        k < effects.len() ==> lifecycle::with_kills(c, st, effects, n)[k] == effects[k],
        k >= effects.len() ==> exists|i: int|
            0 <= i < n && (#[trigger] st[i]).observed == ObservedState::Stopping && st[i].stop_signal
                == StopSignal::Kill && lifecycle::with_kills(c, st, effects, n)[k] == (
            EffectModel::Terminate {
                service: c.services[i].id,
                generation: st[i].generation,
                force: true,
            }),
    decreases n,
{
    if n > 0 {
        let before = lifecycle::with_kills(c, st, effects, (n - 1) as nat);
        let all = lifecycle::with_kills(c, st, effects, n);
        if k < before.len() {
            kill_only_law(c, st, effects, (n - 1) as nat, k);
            assert(all[k] == before[k]);
        } else {
            if before.len() > 0 {
                kill_only_law(c, st, effects, (n - 1) as nat, 0);
            } else {
                kills_grow(c, st, effects, (n - 1) as nat);
            }
            assert(st[n - 1].observed == ObservedState::Stopping);
        }
    }
}

proof fn kills_grow(
    c: CatalogModel,
    st: Seq<RuntimeModel>,
    effects: Seq<EffectModel>,
    n: nat,
)
    ensures
        effects.len() <= lifecycle::with_kills(c, st, effects, n).len(),
    decreases n,
{
    if n > 0 {
        kills_grow(c, st, effects, (n - 1) as nat);
    }
}

/// A process that could not be made is a failure in whatever state its service is: one that is
/// not to be restarted has failed for good.
pub proof fn spawn_failure_law(service: ServiceModel, r: RuntimeModel, at_ms: u64)
    requires
        r.has_process,
        r.desired == DesiredState::Inactive || service.supervision.restart == RestartPolicy::No,
    ensures
        ({
            let after = lifecycle::react(
                service,
                r,
                EventModel::SpawnFailed { service: service.id, generation: r.generation, at_ms },
            ).service;
            &&& after.observed == ObservedState::Failed
            &&& after.restart_blocked
            &&& !after.has_process
            &&& !after.waiting_restart
            &&& after.exited_at_ms == Some(at_ms)
        }),
{
}

/// What a new configuration withdraws is not to run, waits for no restart, and may be started
/// again once the configuration is there; nothing else of it changes.
pub proof fn withdrawn_law(r: RuntimeModel)
    ensures
        ({
            let after = lifecycle::withdrawn(r);
            &&& after.desired == DesiredState::Inactive
            &&& !after.waiting_restart
            &&& !after.restart_blocked
            &&& after.observed == r.observed
            &&& after.has_process == r.has_process
            &&& after.generation == r.generation
            &&& after.stop_signal == r.stop_signal
            &&& after.blocked_by == r.blocked_by
        }),
{
}

/// The number of an attempt is never zero, and differs from the one before.
pub proof fn attempt_number_law(generation: u64)
    ensures
        lifecycle::next_generation(generation) > 0,
        lifecycle::next_generation(generation) != generation,
        generation < u64::MAX ==> lifecycle::next_generation(generation) == generation + 1,
{
}

/// What a service begins as: it should not run, does not, and has never run; nothing holds it up
/// or is remembered of it.
pub proof fn fresh_law()
    ensures
        ({
            let r = lifecycle::fresh();
            &&& r.desired == DesiredState::Inactive
            &&& r.observed == ObservedState::Inactive
            &&& r.generation == 0
            &&& !r.has_process
            &&& r.stop_signal == StopSignal::Term
            &&& !r.waiting_restart
            &&& !r.restart_blocked
            &&& r.blocked_by is None
            &&& r.queued_at_ms is None
            &&& r.ready_at_ms is None
            &&& r.exited_at_ms is None
            &&& r.restart_history.len() == 0
            &&& r.backoff_ms == 100
        }),
{
}

/// When a reload is enough: where both configurations have as many services and define each of
/// them alike, but for how paths are written.
pub proof fn reload_law(a: SnapshotModel, b: SnapshotModel)
    ensures
        dispatch::same_services(a, b) <==> a.catalog.services.len() == b.catalog.services.len()
            && forall|i: int|
            0 <= i < a.catalog.services.len() ==> !#[trigger] defined_otherwise(
                a.catalog.services[i],
                b.catalog.services[i],
            ),
{
    let x = model::plain_services(a.catalog.services);
    let y = model::plain_services(b.catalog.services);
    if dispatch::same_services(a, b) {
        assert(x.len() == y.len());
        assert forall|i: int| 0 <= i < a.catalog.services.len() implies !#[trigger] defined_otherwise(
            a.catalog.services[i],
            b.catalog.services[i],
        ) by {
            assert(x[i] == y[i]);
            alike(a.catalog.services[i], b.catalog.services[i]);
        }
    } else if a.catalog.services.len() == b.catalog.services.len() && forall|i: int|
        0 <= i < a.catalog.services.len() ==> !#[trigger] defined_otherwise(
            a.catalog.services[i],
            b.catalog.services[i],
        ) {
        assert forall|i: int| 0 <= i < x.len() implies x[i] == y[i] by {
            assert(!defined_otherwise(a.catalog.services[i], b.catalog.services[i]));
            alike(a.catalog.services[i], b.catalog.services[i]);
        }
        assert(x =~= y);
    }
}

proof fn alike(a: ServiceModel, b: ServiceModel)
    ensures
        defined_otherwise(a, b) == (a.plain() != b.plain()),
{
    if !defined_otherwise(a, b) {
        assert(a.plain() =~= b.plain());
    }
}

/// Whether a configuration that waits still has to: something that it affects has a process, or
/// neither is inactive nor has failed.
pub open spec fn must_wait(e: EngineModel) -> bool {
    e.pending matches Some(pending) && exists|i: int|
        0 <= i < e.services.len() && #[trigger] pending.affected[i] && (e.services[i].has_process
            || e.services[i].observed != ObservedState::Inactive && e.services[i].observed
            != ObservedState::Failed)
}

/// A configuration waits no longer than it has to: after every event, and at once where it is
/// asked for, it waits only for something that it affects and that has not stopped yet.
pub proof fn prompt_install_law(
    e: EngineModel,
    event: EventModel,
    new: SnapshotModel,
    now_ms: u64,
)
    requires
        e.consistent(),
        new.valid(),
        lifecycle::is_current(e, event),
    ensures
        ({
            let after = lifecycle::handle(e, event).engine;
            let asked = lifecycle::apply_snapshot(e, new, now_ms).engine;
            &&& after.pending is Some ==> must_wait(after)
            &&& asked.pending is Some ==> must_wait(asked) && asked.pending->0.snapshot == new
            &&& asked.pending is None ==> asked.snapshot == new
        }),
{
    let first = lifecycle::reacted(e, event);
    let mid = EngineModel { services: first.services, ..e };
    let lost = lifecycle::propagate(e.snapshot.catalog, mid.services);
    let settled = lifecycle::settle(
        EngineModel { services: lost.services, ..mid },
        event.at_ms(),
    ).engine;
    waits_for(settled, event.at_ms());
    let marks = lifecycle::affected(e.snapshot, new);
    if !(forall|i: int| 0 <= i < marks.len() ==> !#[trigger] marks[i]) {
        let stopped = lifecycle::schedule_stops(
            e.snapshot.catalog,
            Seq::new(
                e.services.len(),
                |i: int|
                    if marks[i] {
                        lifecycle::withdrawn(e.services[i])
                    } else {
                        e.services[i]
                    },
            ),
        );
        let waiting = EngineModel {
            snapshot: e.snapshot,
            services: stopped.services,
            pending: Some(lifecycle::PendingModel { snapshot: new, affected: marks }),
        };
        waits_for(waiting, now_ms);
    }
}

proof fn waits_for(e: EngineModel, now_ms: u64)
    ensures
        lifecycle::advance(e, now_ms).engine.pending is Some ==> must_wait(
            lifecycle::advance(e, now_ms).engine,
        ),
{
    if let Some(pending) = e.pending {
        if !lifecycle::drained(e.services, pending.affected) {
            let i = choose|i: int|
                0 <= i < e.services.len() && #[trigger] pending.affected[i] && !(
                !e.services[i].has_process && e.services[i].at_rest());
            assert(pending.affected[i]);
        }
    }
}

} // verus!
