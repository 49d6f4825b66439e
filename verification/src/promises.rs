//! What the engine promises, told by what can be seen of services before and after a step:
//! when they start, what restarts them, and what becomes of them.

use vstd::prelude::*;

use crate::catalog::CatalogModel;
use crate::config::SnapshotModel;
use crate::laws;
use crate::lifecycle;
use crate::lifecycle::{
    EffectModel, EngineModel, EventModel, Progress, RuntimeModel, Stopped,
};
use crate::model;
use crate::model::{
    OutputModel, ProcessType, Readiness, RestartPolicy, ServiceModel, Supervision,
};
use crate::runtime::{
    DesiredState, ExitOutcome, ObservedState, StopResult, StopSignal, TimerKind,
};

verus! {

/// Scheduling from a service on leaves those before it as they are, and all that are not
/// inactive.
proof fn schedule_from_spares(c: CatalogModel, p: Progress, k: nat, now_ms: u64)
    requires
        p.services.len() == c.services.len(),
    ensures
        ({
            let q = lifecycle::schedule_from(c, p, k, now_ms).services;
            &&& q.len() == p.services.len()
            &&& forall|j: int|
                0 <= j < q.len() && (j < k || p.services[j].observed != ObservedState::Inactive)
                    ==> #[trigger] q[j] == p.services[j]
            &&& forall|j: int|
                0 <= j < q.len() ==> (#[trigger] q[j]).desired == p.services[j].desired
        }),
    decreases c.services.len() - k,
{
    if k < c.services.len() && p.available > 0 {
        schedule_from_spares(c, lifecycle::schedule_one(c, p, k as int, now_ms), k + 1, now_ms);
    }
}

/// Whether what a service waits for at its start is there, in states of which none is
/// recovered any more.
spec fn may_launch(c: CatalogModel, st: Seq<RuntimeModel>, i: int) -> bool {
    &&& st[i].desired == DesiredState::Active
    &&& st[i].observed == ObservedState::Inactive
    &&& !st[i].restart_blocked
    &&& !st[i].waiting_restart
    &&& forall|j: int|
        0 <= j < c.services.len() && #[trigger] c.needs(i, j) ==> st[j].observed
            == ObservedState::Active && st[j].blocked_by is None
    &&& forall|j: int|
        0 <= j < c.services.len() && #[trigger] c.awaits(i, j) ==> {
            ||| st[j].desired == DesiredState::Inactive
            ||| st[j].observed == ObservedState::Active
            ||| st[j].observed == ObservedState::Failed && st[j].blocked_by is None
        }
    &&& forall|k: int, j: int|
        0 <= k < c.services[i].dependencies.after.len() && 0 <= j < c.services.len()
            && #[trigger] c.activates(c.node(c.services[i].dependencies.after[k]), j) ==> {
            ||| st[j].desired == DesiredState::Inactive
            ||| st[j].observed == ObservedState::Active
            ||| st[j].observed == ObservedState::Failed && st[j].blocked_by is None
        }
}

/// Whether one of two services names the other as a conflict, and the second neither is
/// inactive nor has failed.
pub open spec fn opposed(c: CatalogModel, st: Seq<RuntimeModel>, i: int, j: int) -> bool {
    &&& c.services[i].dependencies.conflicts.contains(c.services[j].id)
        || c.services[j].dependencies.conflicts.contains(c.services[i].id)
    &&& st[j].observed != ObservedState::Inactive
    &&& st[j].observed != ObservedState::Failed
}

proof fn schedule_from_releases(
    c: CatalogModel,
    base: Seq<RuntimeModel>,
    p: Progress,
    k: nat,
    i: int,
    now_ms: u64,
)
    requires
        base.len() == c.services.len(),
        p.services.len() == c.services.len(),
        0 <= k <= i < c.services.len(),
        may_launch(c, base, i),
        forall|j: int| k <= j < base.len() ==> p.services[j] == base[j],
        forall|j: int|
            0 <= j < base.len() && base[j].observed != ObservedState::Inactive
                ==> #[trigger] p.services[j] == base[j],
        forall|j: int| 0 <= j < base.len() ==> (#[trigger] p.services[j]).desired
            == base[j].desired,
        lifecycle::schedule_from(c, p, k, now_ms).available > 0,
        forall|j: int|
            0 <= j < base.len() && j != i ==> !#[trigger] opposed(
                c,
                lifecycle::schedule_from(c, p, k, now_ms).services,
                i,
                j,
            ),
    ensures
        lifecycle::schedule_from(c, p, k, now_ms).services[i] == lifecycle::launched(
            base[i],
            now_ms,
        ),
    decreases i - k,
{
    laws::available_falls(c, p, k, now_ms);
    let st = p.services;
    let next = lifecycle::schedule_one(c, p, k as int, now_ms);
    let q = lifecycle::schedule_from(c, p, k, now_ms).services;
    if k < i {
        schedule_from_releases(c, base, next, k + 1, i, now_ms);
    } else {
        lifecycle::first_need_law(
            c,
            i,
            |j: int| st[j].observed == ObservedState::Failed,
            c.services.len(),
        );
        lifecycle::first_need_law(c, i, |j: int| !st[j].serves(), c.services.len());
        assert forall|j: int| 0 <= j < c.services.len() && #[trigger] c.needs(i, j) implies st[j]
            == base[j] by {
            assert(base[j].observed == ObservedState::Active);
        }
        assert(lifecycle::awaited_arrived(c, st, i)) by {
            assert forall|j: int| 0 <= j < c.services.len() && #[trigger] c.awaits(
                i,
                j,
            ) implies lifecycle::arrived(c, st, j) by {
                assert(st[j].desired == base[j].desired);
            }
        }
        assert(lifecycle::ordering_ready(c, st, i)) by {
            assert forall|x: int, j: int|
                0 <= x < c.services[i].dependencies.after.len() && 0 <= j < c.services.len()
                    && #[trigger] c.activates(
                    c.node(c.services[i].dependencies.after[x]),
                    j,
                ) implies lifecycle::settled(st[j]) by {
                assert(st[j].desired == base[j].desired);
            }
        }
        schedule_from_spares(c, p, k, now_ms);
        assert(lifecycle::conflicts_clear(c, st, i)) by {
            assert forall|j: int|
                0 <= j < c.services.len() && j != i
                    && !(#[trigger] st[j]).at_rest() implies !lifecycle::conflicting(c, i, j) by {
                assert(q[j] == st[j]);
                assert(!opposed(c, q, i, j));
            }
        }
        assert(lifecycle::decision(c, st, i) is Launch);
        schedule_from_spares(c, next, k + 1, now_ms);
    }
}

/// Everything that is ready is started at once: as long as fewer services are starting than
/// may, a service that should run and is inactive has a new process, unless it waits for
/// its restart or has ended for good, something that it needs is not active, something that
/// it waits for as a member of a group has neither come up nor failed, something that it is
/// ordered after should run and has neither come up nor failed, or something that it
/// conflicts with runs. What is ordered before it and should not run does not hold it up.
pub proof fn release_law(s: SnapshotModel, st: Seq<RuntimeModel>, now_ms: u64, i: int)
    requires
        st.len() == s.catalog.services.len(),
        laws::all_sound(st),
        0 <= i < st.len(),
        st[i].desired == DesiredState::Active,
        st[i].observed == ObservedState::Inactive,
        !st[i].restart_blocked,
        !st[i].waiting_restart,
        forall|j: int|
            0 <= j < st.len() && #[trigger] s.catalog.needs(i, j) ==> st[j].observed
                == ObservedState::Active && st[j].blocked_by is None,
        forall|j: int|
            0 <= j < st.len() && #[trigger] s.catalog.awaits(i, j) ==> {
                ||| st[j].desired == DesiredState::Inactive
                ||| st[j].observed == ObservedState::Active
                ||| st[j].observed == ObservedState::Failed && st[j].blocked_by is None
            },
        forall|k: int, j: int|
            0 <= k < s.catalog.services[i].dependencies.after.len() && 0 <= j < st.len()
                && #[trigger] s.catalog.activates(
                s.catalog.node(s.catalog.services[i].dependencies.after[k]),
                j,
            ) ==> {
                ||| st[j].desired == DesiredState::Inactive
                ||| st[j].observed == ObservedState::Active
                ||| st[j].observed == ObservedState::Failed && st[j].blocked_by is None
            },
        forall|j: int|
            0 <= j < st.len() && j != i ==> !#[trigger] opposed(
                s.catalog,
                lifecycle::schedule(s, st, now_ms).services,
                i,
                j,
            ),
        lifecycle::launching_count(lifecycle::schedule(s, st, now_ms).services, st.len())
            < s.max_starting,
    ensures
        ({
            let q = lifecycle::schedule(s, st, now_ms);
            let r = q.services[i];
            &&& r.desired == DesiredState::Active
            &&& r.observed == ObservedState::Starting
            &&& r.has_process
            &&& st[i].generation < u64::MAX ==> r.generation == st[i].generation + 1
            &&& r.generation > 0
            &&& r.started_at_ms == now_ms
            &&& r.ready_at_ms is None
            &&& r.exited_at_ms is None
            &&& r.blocked_by is None
            &&& r.queued_at_ms == st[i].queued_at_ms
            &&& r.restart_history == st[i].restart_history
            &&& r.backoff_ms == st[i].backoff_ms
            &&& r.stop_signal == st[i].stop_signal
            &&& q.effects.contains(
                EffectModel::Spawn {
                    service: s.catalog.services[i].id,
                    generation: r.generation,
                },
            )
        }),
{
    let c = s.catalog;
    let base = lifecycle::recover_all(c, st);
    let p = Progress {
        services: base,
        effects: Seq::empty(),
        available: lifecycle::capacity(s, base),
    };
    let q = lifecycle::schedule(s, st, now_ms);
    laws::recovery_keeps(c, st);
    laws::schedule_from_keeps(c, base, p, 0, now_ms);
    assert(q.available > 0);
    assert(may_launch(c, base, i)) by {
        assert forall|j: int| 0 <= j < c.services.len() && #[trigger] c.needs(
            i,
            j,
        ) implies base[j].observed == ObservedState::Active && base[j].blocked_by is None by {
            assert(st[j].blocked_by is None);
        }
        assert forall|j: int| 0 <= j < c.services.len() && #[trigger] c.awaits(i, j) implies {
            ||| base[j].desired == DesiredState::Inactive
            ||| base[j].observed == ObservedState::Active
            ||| base[j].observed == ObservedState::Failed && base[j].blocked_by is None
        } by {
            assert(laws::sound(st[j]));
        }
        assert forall|k: int, j: int|
            0 <= k < c.services[i].dependencies.after.len() && 0 <= j < c.services.len()
                && #[trigger] c.activates(c.node(c.services[i].dependencies.after[k]), j) implies {
            ||| base[j].desired == DesiredState::Inactive
            ||| base[j].observed == ObservedState::Active
            ||| base[j].observed == ObservedState::Failed && base[j].blocked_by is None
        } by {
            assert(laws::sound(st[j]));
        }
    }
    schedule_from_releases(c, base, p, 0, i, now_ms);
    laws::attempt_law(s, st, now_ms);
    assert(laws::newly_launched(st[i], q.services[i]));
}

/// Nothing is started too soon: a service that gets a process should run, was inactive and
/// neither waited for its restart nor had ended for good; everything that it needs is
/// active, everything that it is ordered after should not run, is active or has failed, and
/// nothing runs that it conflicts with.
pub proof fn hold_law(s: SnapshotModel, st: Seq<RuntimeModel>, now_ms: u64, i: int)
    requires
        st.len() == s.catalog.services.len(),
        laws::all_sound(st),
        0 <= i < st.len(),
        !st[i].has_process,
        lifecycle::schedule(s, st, now_ms).services[i].has_process,
    ensures
        ({
            let q = lifecycle::schedule(s, st, now_ms).services;
            let c = s.catalog;
            &&& st[i].desired == DesiredState::Active
            &&& st[i].observed == ObservedState::Inactive || st[i].blocked_by is Some
            &&& !st[i].restart_blocked
            &&& !st[i].waiting_restart
            &&& forall|j: int|
                0 <= j < st.len() && #[trigger] c.needs(i, j) ==> q[j].observed
                    == ObservedState::Active && q[j].blocked_by is None
            &&& forall|j: int|
                0 <= j < st.len() && #[trigger] c.awaits(i, j) ==> {
                    ||| q[j].desired == DesiredState::Inactive
                    ||| q[j].observed == ObservedState::Active
                    ||| q[j].observed == ObservedState::Failed
                    ||| q[j].observed == ObservedState::Inactive && q[j].restart_blocked
                }
            &&& forall|k: int, j: int|
                0 <= k < c.services[i].dependencies.after.len() && 0 <= j < st.len()
                    && #[trigger] c.activates(c.node(c.services[i].dependencies.after[k]), j) ==> {
                    ||| q[j].desired == DesiredState::Inactive
                    ||| q[j].observed == ObservedState::Active
                    ||| q[j].observed == ObservedState::Failed
                }
            &&& forall|j: int| 0 <= j < st.len() && j != i ==> !#[trigger] opposed(c, q, i, j)
        }),
{
    let c = s.catalog;
    let q = lifecycle::schedule(s, st, now_ms).services;
    laws::launch_law(s, st, now_ms);
    laws::attempt_law(s, st, now_ms);
    assert(laws::scheduled(st[i], q[i]));
    assert(laws::newly_launched(st[i], q[i]));
    assert(laws::ready(c, q, i));
    launched_from(s, st, now_ms, i);
    assert forall|j: int| 0 <= j < st.len() && #[trigger] c.awaits(i, j) implies {
        ||| q[j].desired == DesiredState::Inactive
        ||| q[j].observed == ObservedState::Active
        ||| q[j].observed == ObservedState::Failed
        ||| q[j].observed == ObservedState::Inactive && q[j].restart_blocked
    } by {
        assert(lifecycle::arrived(c, q, j));
    }
    assert forall|k: int, j: int|
        0 <= k < c.services[i].dependencies.after.len() && 0 <= j < st.len()
            && #[trigger] c.activates(c.node(c.services[i].dependencies.after[k]), j) implies {
        ||| q[j].desired == DesiredState::Inactive
        ||| q[j].observed == ObservedState::Active
        ||| q[j].observed == ObservedState::Failed
    } by {
        assert(lifecycle::settled(q[j]));
    }
    assert forall|j: int| 0 <= j < st.len() && j != i implies !#[trigger] opposed(c, q, i, j) by {
        if opposed(c, q, i, j) {
            assert(!q[j].at_rest());
            assert(!lifecycle::conflicting(c, i, j));
        }
    }
}

proof fn schedule_from_launches(c: CatalogModel, p: Progress, k: nat, now_ms: u64, i: int)
    requires
        p.services.len() == c.services.len(),
        0 <= i < c.services.len(),
        !p.services[i].has_process,
        lifecycle::schedule_from(c, p, k, now_ms).services[i].has_process,
    ensures
        p.services[i].desired == DesiredState::Active,
        p.services[i].observed == ObservedState::Inactive,
        !p.services[i].restart_blocked,
        !p.services[i].waiting_restart,
    decreases c.services.len() - k,
{
    if k < c.services.len() && p.available > 0 {
        let next = lifecycle::schedule_one(c, p, k as int, now_ms);
        if !next.services[i].has_process {
            schedule_from_launches(c, next, k + 1, now_ms, i);
        }
    }
}

proof fn launched_from(s: SnapshotModel, st: Seq<RuntimeModel>, now_ms: u64, i: int)
    requires
        st.len() == s.catalog.services.len(),
        0 <= i < st.len(),
        !st[i].has_process,
        lifecycle::schedule(s, st, now_ms).services[i].has_process,
    ensures
        st[i].desired == DesiredState::Active,
        st[i].observed == ObservedState::Inactive || st[i].blocked_by is Some,
        !st[i].restart_blocked,
        !st[i].waiting_restart,
{
    let base = lifecycle::recover_all(s.catalog, st);
    schedule_from_launches(
        s.catalog,
        Progress {
            services: base,
            effects: Seq::empty(),
            available: lifecycle::capacity(s, base),
        },
        0,
        now_ms,
        i,
    );
}

/// Whether effects set the start timer of exactly the services that have a process now and
/// had none before, to their start timeout unless that is zero, set no other timer and
/// signal nothing.
pub open spec fn start_timers(
    c: CatalogModel,
    before: Seq<RuntimeModel>,
    after: Seq<RuntimeModel>,
    effects: Seq<EffectModel>,
) -> bool {
    &&& forall|i: int|
        0 <= i < after.len() && !before[i].has_process && (#[trigger] after[i]).has_process
            && c.services[i].supervision.start_timeout_ms > 0 ==> effects.contains(
            EffectModel::ArmTimer {
                service: c.services[i].id,
                generation: after[i].generation,
                kind: TimerKind::Start,
                after_ms: c.services[i].supervision.start_timeout_ms,
            },
        )
    &&& forall|k: int|
        0 <= k < effects.len() ==> (match #[trigger] effects[k] {
            EffectModel::Spawn { .. } => true,
            EffectModel::Terminate { .. } => false,
            EffectModel::ArmTimer { service, generation, kind, after_ms } => kind
                == TimerKind::Start && after_ms > 0 && exists|i: int|
                0 <= i < after.len() && !before[i].has_process && (
                #[trigger] after[i]).has_process && service == c.services[i].id && generation
                    == after[i].generation && after_ms
                    == c.services[i].supervision.start_timeout_ms,
        })
}

proof fn schedule_from_timers(
    c: CatalogModel,
    base: Seq<RuntimeModel>,
    p: Progress,
    k: nat,
    now_ms: u64,
)
    requires
        base.len() == c.services.len(),
        p.services.len() == c.services.len(),
        laws::all_sound(base),
        forall|j: int| k <= j < base.len() ==> p.services[j] == base[j],
        start_timers(c, base, p.services, p.effects),
    ensures
        ({
            let q = lifecycle::schedule_from(c, p, k, now_ms);
            start_timers(c, base, q.services, q.effects) && q.services.len() == base.len()
        }),
    decreases c.services.len() - k,
{
    if k < c.services.len() && p.available > 0 {
        let i = k as int;
        let q = lifecycle::schedule_one(c, p, i, now_ms);
        let st = p.services;
        assert(laws::sound(base[i]));
        assert(start_timers(c, base, q.services, q.effects)) by {
            let all = q.effects;
            assert forall|j: int|
                0 <= j < q.services.len() && !base[j].has_process && (
                #[trigger] q.services[j]).has_process
                    && c.services[j].supervision.start_timeout_ms > 0 implies all.contains(
                EffectModel::ArmTimer {
                    service: c.services[j].id,
                    generation: q.services[j].generation,
                    kind: TimerKind::Start,
                    after_ms: c.services[j].supervision.start_timeout_ms,
                },
            ) by {
                let timer = EffectModel::ArmTimer {
                    service: c.services[j].id,
                    generation: q.services[j].generation,
                    kind: TimerKind::Start,
                    after_ms: c.services[j].supervision.start_timeout_ms,
                };
                if j != i {
                    assert(q.services[j] == st[j]);
                    assert(p.effects.contains(timer));
                    let x = choose|x: int| 0 <= x < p.effects.len() && p.effects[x] == timer;
                    assert(all[x] == timer);
                } else {
                    assert(all[p.effects.len() as int + 1] == timer);
                }
            }
            assert forall|x: int| 0 <= x < all.len() implies (match #[trigger] all[x] {
                EffectModel::Spawn { .. } => true,
                EffectModel::Terminate { .. } => false,
                EffectModel::ArmTimer { service, generation, kind, after_ms } => kind
                    == TimerKind::Start && after_ms > 0 && exists|j: int|
                    0 <= j < q.services.len() && !base[j].has_process && (
                    #[trigger] q.services[j]).has_process && service == c.services[j].id
                        && generation == q.services[j].generation && after_ms
                        == c.services[j].supervision.start_timeout_ms,
            }) by {
                if x < p.effects.len() {
                    assert(all[x] == p.effects[x]);
                    if let EffectModel::ArmTimer { service, generation, after_ms, .. } = all[x] {
                        let j = choose|j: int|
                            0 <= j < st.len() && !base[j].has_process && (
                            #[trigger] st[j]).has_process && service == c.services[j].id
                                && generation == st[j].generation && after_ms
                                == c.services[j].supervision.start_timeout_ms;
                        assert(q.services[j] == st[j]);
                    }
                } else {
                    assert(q.services[i].has_process);
                }
            }
        }
        schedule_from_timers(c, base, q, k + 1, now_ms);
    }
}

/// A start is given its time: every service that gets a process gets its start timer, set to
/// its start timeout, and none where the timeout is zero.
pub proof fn start_timer_law(s: SnapshotModel, st: Seq<RuntimeModel>, now_ms: u64)
    requires
        st.len() == s.catalog.services.len(),
        laws::all_sound(st),
    ensures
        start_timers(
            s.catalog,
            st,
            lifecycle::schedule(s, st, now_ms).services,
            lifecycle::schedule(s, st, now_ms).effects,
        ),
{
    let c = s.catalog;
    let base = lifecycle::recover_all(c, st);
    laws::recovery_keeps(c, st);
    let p = Progress {
        services: base,
        effects: Seq::empty(),
        available: lifecycle::capacity(s, base),
    };
    schedule_from_timers(c, base, p, 0, now_ms);
    let q = lifecycle::schedule(s, st, now_ms);
    assert forall|i: int| 0 <= i < st.len() implies (#[trigger] base[i]).has_process
        == st[i].has_process by {}
    assert forall|x: int| 0 <= x < q.effects.len() implies (match #[trigger] q.effects[x] {
        EffectModel::Spawn { .. } => true,
        EffectModel::Terminate { .. } => false,
        EffectModel::ArmTimer { service, generation, kind, after_ms } => kind == TimerKind::Start
            && after_ms > 0 && exists|j: int|
            0 <= j < q.services.len() && !st[j].has_process && (#[trigger] q.services[j]).has_process
                && service == c.services[j].id && generation == q.services[j].generation
                && after_ms == c.services[j].supervision.start_timeout_ms,
    }) by {
        if let EffectModel::ArmTimer { service, generation, after_ms, .. } = q.effects[x] {
            let j = choose|j: int|
                0 <= j < q.services.len() && !base[j].has_process && (
                #[trigger] q.services[j]).has_process && service == c.services[j].id && generation
                    == q.services[j].generation && after_ms
                    == c.services[j].supervision.start_timeout_ms;
            assert(!st[j].has_process);
        }
    }
}

/// Whether effects set the stop timer of exactly the services that were told to stop
/// between two states and not to be killed, to their stop timeout unless that is zero, set
/// no other timer and start nothing.
pub open spec fn stop_timers(
    c: CatalogModel,
    before: Seq<RuntimeModel>,
    after: Seq<RuntimeModel>,
    effects: Seq<EffectModel>,
) -> bool {
    &&& forall|i: int|
        0 <= i < after.len() && before[i].observed != ObservedState::Stopping && (
        #[trigger] after[i]).observed == ObservedState::Stopping && after[i].stop_signal
            == StopSignal::Term && c.services[i].supervision.stop_timeout_ms > 0
            ==> effects.contains(
            EffectModel::ArmTimer {
                service: c.services[i].id,
                generation: after[i].generation,
                kind: TimerKind::Stop,
                after_ms: c.services[i].supervision.stop_timeout_ms,
            },
        )
    &&& forall|k: int|
        0 <= k < effects.len() ==> (match #[trigger] effects[k] {
            EffectModel::Spawn { .. } => false,
            EffectModel::Terminate { .. } => true,
            EffectModel::ArmTimer { service, generation, kind, after_ms } => kind
                == TimerKind::Stop && after_ms > 0 && exists|i: int|
                0 <= i < after.len() && before[i].observed != ObservedState::Stopping && (
                #[trigger] after[i]).observed == ObservedState::Stopping
                    && after[i].stop_signal == StopSignal::Term && service
                    == c.services[i].id && generation == after[i].generation && after_ms
                    == c.services[i].supervision.stop_timeout_ms,
        })
}

proof fn stop_timers_step(
    c: CatalogModel,
    base: Seq<RuntimeModel>,
    st: Seq<RuntimeModel>,
    effects: Seq<EffectModel>,
    i: int,
    r: RuntimeModel,
    more: Seq<EffectModel>,
)
    requires
        base.len() == c.services.len(),
        st.len() == base.len(),
        0 <= i < st.len(),
        st[i] == base[i],
        stop_timers(c, base, st, effects),
        r.stop_signal == st[i].stop_signal,
        r.generation == st[i].generation,
        if base[i].observed != ObservedState::Stopping && r.observed == ObservedState::Stopping {
            more == lifecycle::stop_effects(
                c.services[i],
                r.generation,
                r.stop_signal == StopSignal::Kill,
            )
        } else {
            more.len() == 0
        },
    ensures
        stop_timers(c, base, st.update(i, r), effects + more),
{
    let after = st.update(i, r);
    let all = effects + more;
    assert forall|j: int|
        0 <= j < after.len() && base[j].observed != ObservedState::Stopping && (
        #[trigger] after[j]).observed == ObservedState::Stopping && after[j].stop_signal
            == StopSignal::Term
            && c.services[j].supervision.stop_timeout_ms > 0 implies all.contains(
        EffectModel::ArmTimer {
            service: c.services[j].id,
            generation: after[j].generation,
            kind: TimerKind::Stop,
            after_ms: c.services[j].supervision.stop_timeout_ms,
        },
    ) by {
        let timer = EffectModel::ArmTimer {
            service: c.services[j].id,
            generation: after[j].generation,
            kind: TimerKind::Stop,
            after_ms: c.services[j].supervision.stop_timeout_ms,
        };
        if j != i {
            assert(after[j] == st[j]);
            assert(effects.contains(timer));
            let x = choose|x: int| 0 <= x < effects.len() && effects[x] == timer;
            assert(all[x] == timer);
        } else {
            assert(all[effects.len() as int + 1] == timer);
        }
    }
    assert forall|x: int| 0 <= x < all.len() implies (match #[trigger] all[x] {
        EffectModel::Spawn { .. } => false,
        EffectModel::Terminate { .. } => true,
        EffectModel::ArmTimer { service, generation, kind, after_ms } => kind == TimerKind::Stop
            && after_ms > 0 && exists|j: int|
            0 <= j < after.len() && base[j].observed != ObservedState::Stopping && (
            #[trigger] after[j]).observed == ObservedState::Stopping && after[j].stop_signal
                == StopSignal::Term && service == c.services[j].id && generation
                == after[j].generation && after_ms == c.services[j].supervision.stop_timeout_ms,
    }) by {
        if x < effects.len() {
            assert(all[x] == effects[x]);
            if let EffectModel::ArmTimer { service, generation, after_ms, .. } = all[x] {
                let j = choose|j: int|
                    0 <= j < st.len() && base[j].observed != ObservedState::Stopping && (
                    #[trigger] st[j]).observed == ObservedState::Stopping && st[j].stop_signal
                        == StopSignal::Term && service == c.services[j].id && generation
                        == st[j].generation && after_ms
                        == c.services[j].supervision.stop_timeout_ms;
                assert(after[j] == st[j]);
            }
        } else {
            assert(all[x] == more[x - effects.len()]);
            assert(after[i].observed == ObservedState::Stopping);
        }
    }
}

proof fn stop_from_timers(c: CatalogModel, base: Seq<RuntimeModel>, p: Stopped, k: nat)
    requires
        base.len() == c.services.len(),
        p.services.len() == c.services.len(),
        forall|j: int| k <= j < base.len() ==> p.services[j] == base[j],
        stop_timers(c, base, p.services, p.effects),
    ensures
        ({
            let q = lifecycle::stop_from(c, p, k);
            stop_timers(c, base, q.services, q.effects)
        }),
    decreases c.services.len() - k,
{
    if k < c.services.len() {
        let i = k as int;
        let q = lifecycle::stop_one(c, p, i);
        if lifecycle::stops_now(c, p.services, i) {
            let more = if p.services[i].has_process {
                lifecycle::stop_effects(
                    c.services[i],
                    p.services[i].generation,
                    p.services[i].stop_signal == StopSignal::Kill,
                )
            } else {
                Seq::empty()
            };
            assert(q.effects =~= p.effects + more);
            stop_timers_step(c, base, p.services, p.effects, i, q.services[i], more);
        }
        stop_from_timers(c, base, q, k + 1);
    }
}

/// A stop is given its time: every service that is told to stop gets its stop timer, set to
/// its stop timeout, unless it is killed at once or the timeout is zero.
pub proof fn stop_timer_law(c: CatalogModel, st: Seq<RuntimeModel>)
    requires
        st.len() == c.services.len(),
    ensures
        stop_timers(
            c,
            st,
            lifecycle::schedule_stops(c, st).services,
            lifecycle::schedule_stops(c, st).effects,
        ),
{
    stop_from_timers(c, st, Stopped { services: st, effects: Seq::empty() }, 0);
}

/// Whether no effect sets a restart timer.
spec fn restarts_nothing(effects: Seq<EffectModel>) -> bool {
    forall|k: int|
        0 <= k < effects.len() ==> !(#[trigger] effects[k] matches EffectModel::ArmTimer {
            kind,
            ..
        } && kind == TimerKind::Restart)
}

proof fn propagate_restarts_nothing(c: CatalogModel, p: Stopped, k: nat)
    requires
        restarts_nothing(p.effects),
    ensures
        restarts_nothing(lifecycle::propagate_from(c, p, k).effects),
    decreases c.services.len() - k,
{
    if k < c.services.len() {
        propagate_restarts_nothing(c, lifecycle::propagate_one(c, p, k as int), k + 1);
    }
}

proof fn stop_restarts_nothing(c: CatalogModel, p: Stopped, k: nat)
    requires
        restarts_nothing(p.effects),
    ensures
        restarts_nothing(lifecycle::stop_from(c, p, k).effects),
    decreases c.services.len() - k,
{
    if k < c.services.len() {
        stop_restarts_nothing(c, lifecycle::stop_one(c, p, k as int), k + 1);
    }
}

proof fn schedule_restarts_nothing(c: CatalogModel, p: Progress, k: nat, now_ms: u64)
    requires
        restarts_nothing(p.effects),
    ensures
        restarts_nothing(lifecycle::schedule_from(c, p, k, now_ms).effects),
    decreases c.services.len() - k,
{
    if k < c.services.len() && p.available > 0 {
        schedule_restarts_nothing(
            c,
            lifecycle::schedule_one(c, p, k as int, now_ms),
            k + 1,
            now_ms,
        );
    }
}

proof fn settle_restarts_nothing(e: EngineModel, now_ms: u64)
    ensures
        restarts_nothing(lifecycle::settle(e, now_ms).effects),
{
    let c = e.snapshot.catalog;
    stop_restarts_nothing(c, Stopped { services: e.services, effects: Seq::empty() }, 0);
    let st = lifecycle::schedule_stops(c, e.services).services;
    let base = lifecycle::recover_all(c, st);
    schedule_restarts_nothing(
        c,
        Progress {
            services: base,
            effects: Seq::empty(),
            available: lifecycle::capacity(e.snapshot, base),
        },
        0,
        now_ms,
    );
}

proof fn follow_up_restarts_nothing(e: EngineModel, now_ms: u64)
    ensures
        restarts_nothing(lifecycle::follow_up(e, now_ms).effects),
{
    let c = e.snapshot.catalog;
    propagate_restarts_nothing(c, Stopped { services: e.services, effects: Seq::empty() }, 0);
    let lost = EngineModel { services: lifecycle::propagate(c, e.services).services, ..e };
    settle_restarts_nothing(lost, now_ms);
    let settled = lifecycle::settle(lost, now_ms).engine;
    if let Some(pending) = settled.pending {
        let base = lifecycle::installed(settled, pending.snapshot, pending.affected);
        settle_restarts_nothing(
            EngineModel {
                services: lifecycle::reconciled_all(base.snapshot, base.services, now_ms),
                ..base
            },
            now_ms,
        );
    }
}

/// Whether the restarts of a service are forgotten at a time: its last attempt has lived as
/// long as the definition asks for.
pub open spec fn forgotten(r: RuntimeModel, s: Supervision, at_ms: u64) -> bool {
    s.restart_reset_ms == 0 || at_ms - r.started_at_ms >= s.restart_reset_ms
}

/// Whether a service has room for another restart whatever its window is.
pub open spec fn has_room(r: RuntimeModel, s: Supervision, at_ms: u64) -> bool {
    r.restart_history.len() < s.restart_limit || forgotten(r, s, at_ms) && s.restart_limit > 0
}

/// Whether a service has used up its restarts: it has made as many as it may, all of them
/// within the window, and none is forgotten.
pub open spec fn used_up(r: RuntimeModel, s: Supervision, at_ms: u64) -> bool {
    &&& !forgotten(r, s, at_ms)
    &&& r.restart_history.len() >= s.restart_limit
    &&& forall|k: int|
        0 <= k < r.restart_history.len() ==> at_ms - (#[trigger] r.restart_history[k])
            <= s.restart_window_ms
}

/// The effect that makes a service start again after a pause.
pub open spec fn restart_timer(service: ServiceModel, r: RuntimeModel, after_ms: u64) -> EffectModel {
    EffectModel::ArmTimer {
        service: service.id,
        generation: r.generation,
        kind: TimerKind::Restart,
        after_ms,
    }
}

/// What becomes of a service that should run and whose process is gone: it waits for its
/// restart, for a pause that is the first one or the one that it had come to, and the next
/// pause is twice as long up to the bound; or it has ended for good, failed or not.
pub open spec fn ends_as(
    service: ServiceModel,
    before: RuntimeModel,
    after: RuntimeModel,
    effects: Seq<EffectModel>,
    restarts: bool,
    failed: bool,
    at_ms: u64,
) -> bool {
    let s = service.supervision;
    let pause = if forgotten(before, s, at_ms) {
        100u64
    } else {
        before.backoff_ms
    };
    &&& after.desired == before.desired
    &&& after.generation == before.generation
    &&& !after.has_process
    &&& after.exited_at_ms == Some(at_ms)
    &&& after.started_at_ms == before.started_at_ms
    &&& after.ready_at_ms == before.ready_at_ms
    &&& after.blocked_by == before.blocked_by
    &&& if restarts {
        &&& effects == seq![restart_timer(service, before, pause)]
        &&& after.observed == ObservedState::Starting
        &&& after.waiting_restart
        &&& after.queued_at_ms == Some(at_ms)
        &&& after.restart_history.len() > 0
        &&& after.restart_history.last() == at_ms
        &&& after.restart_history.len() <= before.restart_history.len() + 1
        &&& forgotten(before, s, at_ms) ==> after.restart_history.len() == 1
        &&& after.backoff_ms == if pause + pause < s.restart_backoff_max_ms {
            (pause + pause) as u64
        } else {
            s.restart_backoff_max_ms
        }
    } else {
        &&& effects.len() == 0
        &&& after.observed == if failed {
            ObservedState::Failed
        } else {
            ObservedState::Inactive
        }
        &&& !after.waiting_restart
        &&& after.restart_blocked
    }
}

proof fn recent_shorter(history: Seq<u64>, start: u64)
    ensures
        lifecycle::recent(history, start).len() <= history.len(),
    decreases history.len(),
{
    if history.len() > 0 && history[0] < start {
        recent_shorter(history.drop_first(), start);
    }
}

proof fn end_follows(
    service: ServiceModel,
    r: RuntimeModel,
    outcome: ExitOutcome,
    at_ms: u64,
    restarts: bool,
    failed: bool,
)
    requires
        !r.has_process,
        r.exited_at_ms == Some(at_ms),
        r.desired == DesiredState::Active,
        failed == (outcome != ExitOutcome::Success || r.observed == ObservedState::Starting),
        restarts == (match service.supervision.restart {
            RestartPolicy::No => false,
            RestartPolicy::OnFailure => failed,
            RestartPolicy::Always => true,
        }),
    ensures
        ({
            let after = lifecycle::ended(r, service.supervision, outcome, at_ms);
            let effects = lifecycle::end_effects(service, r, outcome, at_ms);
            &&& restarts && has_room(r, service.supervision, at_ms) ==> ends_as(
                service,
                r,
                after,
                effects,
                true,
                failed,
                at_ms,
            )
            &&& !restarts || used_up(r, service.supervision, at_ms) ==> after.restart_blocked
                && !after.waiting_restart && effects.len() == 0 && after.observed == if failed {
                ObservedState::Failed
            } else {
                ObservedState::Inactive
            }
            &&& !restarts ==> ends_as(service, r, after, effects, false, failed, at_ms)
        }),
{
    let s = service.supervision;
    let old = lifecycle::aged(r, s, at_ms);
    let start = lifecycle::minus(at_ms, s.restart_window_ms);
    recent_shorter(old.restart_history, start);
    if used_up(r, s, at_ms) && r.restart_history.len() > 0 {
        assert(at_ms - r.restart_history[0] <= s.restart_window_ms);
    }
}

/// The restart policy: where the process of a service that should run ends unasked and the
/// restarts are not used up, `always` restarts it whatever happened, `on-failure` exactly
/// where the process failed or was not ready yet, and `no` never; a service that is not
/// restarted has failed exactly where its process did or was not ready yet. The end of a
/// oneshot that succeeds is no such end.
pub proof fn exit_policy_law(
    service: ServiceModel,
    r: RuntimeModel,
    outcome: ExitOutcome,
    at_ms: u64,
)
    requires
        r.has_process,
        r.desired == DesiredState::Active,
        r.observed == ObservedState::Starting || r.observed == ObservedState::Active,
        !(service.process.kind == ProcessType::Oneshot && r.observed == ObservedState::Starting
            && outcome == ExitOutcome::Success),
    ensures
        ({
            let event = EventModel::Exited {
                service: service.id,
                generation: r.generation,
                outcome,
                at_ms,
            };
            let step = lifecycle::react(service, r, event);
            let failed = outcome != ExitOutcome::Success || r.observed == ObservedState::Starting;
            let restarts = match service.supervision.restart {
                RestartPolicy::No => false,
                RestartPolicy::OnFailure => failed,
                RestartPolicy::Always => true,
            };
            &&& !restarts ==> ends_as(service, r, step.service, step.effects, false, failed, at_ms)
            &&& restarts && has_room(r, service.supervision, at_ms) ==> ends_as(
                service,
                r,
                step.service,
                step.effects,
                true,
                failed,
                at_ms,
            )
            &&& used_up(r, service.supervision, at_ms) ==> ends_as(
                service,
                RuntimeModel { backoff_ms: step.service.backoff_ms, ..r },
                step.service,
                step.effects,
                false,
                failed,
                at_ms,
            )
        }),
{
    let gone = RuntimeModel { has_process: false, exited_at_ms: Some(at_ms), ..r };
    let failed = outcome != ExitOutcome::Success || r.observed == ObservedState::Starting;
    let restarts = match service.supervision.restart {
        RestartPolicy::No => false,
        RestartPolicy::OnFailure => failed,
        RestartPolicy::Always => true,
    };
    end_follows(service, gone, outcome, at_ms, restarts, failed);
}

/// A process that could not be made, and one that did not become ready in time or at all,
/// count as failures: the service is restarted unless its policy is `no` or its restarts
/// are used up, and has failed where it is not. A service that did not become ready is
/// told to stop first.
pub proof fn failed_start_law(
    service: ServiceModel,
    r: RuntimeModel,
    at_ms: u64,
    outcome: ExitOutcome,
    later_ms: u64,
)
    requires
        r.has_process,
        r.desired == DesiredState::Active,
        r.observed == ObservedState::Starting,
    ensures
        ({
            let id = service.id;
            let generation = r.generation;
            let restarts = service.supervision.restart != RestartPolicy::No;
            let spawn = lifecycle::react(
                service,
                r,
                EventModel::SpawnFailed { service: id, generation, at_ms },
            );
            let unready = lifecycle::react(
                service,
                r,
                EventModel::ReadinessFailed { service: id, generation, at_ms },
            );
            let late = lifecycle::react(
                service,
                r,
                EventModel::Timer { service: id, generation, kind: TimerKind::Start, at_ms },
            );
            let over = lifecycle::react(
                service,
                unready.service,
                EventModel::Exited { service: id, generation, outcome, at_ms: later_ms },
            );
            &&& !restarts ==> ends_as(service, r, spawn.service, spawn.effects, false, true, at_ms)
            &&& restarts && has_room(r, service.supervision, at_ms) ==> ends_as(
                service,
                r,
                spawn.service,
                spawn.effects,
                true,
                true,
                at_ms,
            )
            &&& unready == late
            &&& unready.service == (RuntimeModel {
                observed: ObservedState::Stopping,
                stop_result: unready.service.stop_result,
                ..r
            })
            &&& unready.effects.contains(
                EffectModel::Terminate { service: id, generation, force: false },
            )
            &&& service.supervision.stop_timeout_ms > 0 ==> unready.effects.contains(
                EffectModel::ArmTimer {
                    service: id,
                    generation,
                    kind: TimerKind::Stop,
                    after_ms: service.supervision.stop_timeout_ms,
                },
            )
            &&& !restarts ==> ends_as(
                service,
                r,
                over.service,
                over.effects,
                false,
                true,
                later_ms,
            )
            &&& restarts && has_room(r, service.supervision, later_ms) ==> ends_as(
                service,
                r,
                over.service,
                over.effects,
                true,
                true,
                later_ms,
            )
        }),
{
    let restarts = service.supervision.restart != RestartPolicy::No;
    let gone = RuntimeModel { has_process: false, exited_at_ms: Some(at_ms), ..r };
    end_follows(service, gone, ExitOutcome::ExitCode(127), at_ms, restarts, true);
    let stopped = RuntimeModel {
        has_process: false,
        exited_at_ms: Some(later_ms),
        observed: ObservedState::Inactive,
        stop_result: StopResult::Inactive,
        ..r
    };
    end_follows(service, stopped, ExitOutcome::ExitCode(124), later_ms, restarts, true);
    let effects = lifecycle::stop_effects(service, r.generation, false);
    assert(effects[0] == (EffectModel::Terminate {
        service: service.id,
        generation: r.generation,
        force: false,
    }));
    if service.supervision.stop_timeout_ms > 0 {
        assert(effects[1] == (EffectModel::ArmTimer {
            service: service.id,
            generation: r.generation,
            kind: TimerKind::Stop,
            after_ms: service.supervision.stop_timeout_ms,
        }));
    }
}

/// Readiness: a service that is starting becomes active when its process was executed where
/// that is its readiness, when it says so where it is to say so, and when its process ends
/// well where it is a oneshot; nothing else makes a service active. The oneshot is active
/// without a process.
pub proof fn readiness_law(service: ServiceModel, r: RuntimeModel, event: EventModel)
    requires
        r.has_process,
        event.generation() == r.generation,
    ensures
        ({
            let step = lifecycle::react(service, r, event);
            let by = match event {
                EventModel::ExecSucceeded { .. } => service.process.readiness == Readiness::Exec,
                EventModel::Ready { .. } => service.process.readiness == Readiness::Notify,
                EventModel::Exited { outcome, .. } => service.process.kind == ProcessType::Oneshot
                    && outcome == ExitOutcome::Success,
                _ => false,
            };
            &&& r.observed == ObservedState::Starting && by ==> {
                &&& step.service.observed == ObservedState::Active
                &&& step.service.ready_at_ms == Some(event.at_ms())
                &&& step.service.blocked_by is None
                &&& step.service.has_process == !(event is Exited)
                &&& step.service.desired == r.desired
                &&& step.service.generation == r.generation
                &&& step.service.started_at_ms == r.started_at_ms
                &&& step.effects.len() == 0
                &&& event is Exited ==> step.service.exited_at_ms == Some(event.at_ms())
                    && step.service.restart_history.len() == 0 && step.service.backoff_ms == 100
            }
            &&& step.service.observed == ObservedState::Active ==> r.observed
                == ObservedState::Active || r.observed == ObservedState::Starting && by
            &&& (event is ExecSucceeded || event is Ready) && !(r.observed
                == ObservedState::Starting && by) ==> step.service == r && step.effects.len() == 0
        }),
{
}

/// The end of a stop: a service that was told to stop is inactive once its process is gone,
/// or has failed where it was stopped for want of another; nothing restarts it by a timer.
/// It keeps its desired state, so that one that is to be restarted can start again.
pub proof fn stop_end_law(
    service: ServiceModel,
    r: RuntimeModel,
    outcome: ExitOutcome,
    at_ms: u64,
)
    requires
        r.has_process,
        r.observed == ObservedState::Stopping,
        r.stop_result != StopResult::RestartFailure,
    ensures
        ({
            let event = EventModel::Exited {
                service: service.id,
                generation: r.generation,
                outcome,
                at_ms,
            };
            let step = lifecycle::react(service, r, event);
            &&& step.effects.len() == 0
            &&& !step.service.has_process
            &&& step.service.exited_at_ms == Some(at_ms)
            &&& step.service.observed == if r.stop_result == StopResult::Failed {
                ObservedState::Failed
            } else {
                ObservedState::Inactive
            }
            &&& step.service.desired == r.desired
            &&& step.service.generation == r.generation
            &&& step.service.blocked_by == r.blocked_by
            &&& step.service.restart_blocked == r.restart_blocked
            &&& step.service.waiting_restart == r.waiting_restart
        }),
{
}

/// Timers: one that sets a bound to a stop kills the service that is still stopping; one
/// that ends the pause before a restart makes the service that waits for it inactive, so
/// that it can start; each does nothing to a service that is in no such state.
pub proof fn timer_law(service: ServiceModel, r: RuntimeModel, at_ms: u64)
    ensures
        ({
            let id = service.id;
            let generation = r.generation;
            let stop = lifecycle::react(
                service,
                r,
                EventModel::Timer { service: id, generation, kind: TimerKind::Stop, at_ms },
            );
            let again = lifecycle::react(
                service,
                r,
                EventModel::Timer { service: id, generation, kind: TimerKind::Restart, at_ms },
            );
            let start = lifecycle::react(
                service,
                r,
                EventModel::Timer { service: id, generation, kind: TimerKind::Start, at_ms },
            );
            &&& stop.service == r
            &&& r.observed == ObservedState::Stopping ==> stop.effects == seq![
                EffectModel::Terminate { service: id, generation, force: true },
            ]
            &&& r.observed != ObservedState::Stopping ==> stop.effects.len() == 0
            &&& again.effects.len() == 0
            &&& r.waiting_restart ==> again.service == (RuntimeModel {
                waiting_restart: false,
                observed: ObservedState::Inactive,
                ..r
            })
            &&& !r.waiting_restart ==> again.service == r
            &&& !(r.observed == ObservedState::Starting && r.has_process) ==> start.service == r
                && start.effects.len() == 0
        }),
{
}

/// What the engine does about an event of a current attempt begins with what the event does
/// to its service, and sets no restart timer but for it: a restart timer is set exactly
/// where the event sets one.
pub proof fn restart_effect_law(
    e: EngineModel,
    i: int,
    event: EventModel,
    timer: EffectModel,
)
    requires
        e.consistent(),
        0 <= i < e.services.len(),
        event.service() == e.snapshot.catalog.services[i].id,
        event.generation() == e.services[i].generation,
        e.services[i].has_process || event is Timer,
        timer matches EffectModel::ArmTimer { kind, .. } && kind == TimerKind::Restart,
    ensures
        lifecycle::handle(e, event).effects.contains(timer) <==> lifecycle::react(
            e.snapshot.catalog.services[i],
            e.services[i],
            event,
        ).effects.contains(timer),
        forall|k: int|
            #![trigger lifecycle::handle(e, event).effects[k]]
            0 <= k < lifecycle::react(
                e.snapshot.catalog.services[i],
                e.services[i],
                event,
            ).effects.len() ==> lifecycle::handle(e, event).effects[k] == lifecycle::react(
                e.snapshot.catalog.services[i],
                e.services[i],
                event,
            ).effects[k],
{
    let c = e.snapshot.catalog;
    lifecycle::position_unique(c, i);
    let first = lifecycle::react(c.services[i], e.services[i], event);
    let mid = EngineModel { services: lifecycle::reacted(e, event).services, ..e };
    follow_up_restarts_nothing(mid, event.at_ms());
    let rest = lifecycle::follow_up(mid, event.at_ms()).effects;
    let all = lifecycle::handle(e, event).effects;
    assert(all == first.effects + rest);
    if first.effects.contains(timer) {
        let x = choose|x: int| 0 <= x < first.effects.len() && first.effects[x] == timer;
        assert(all[x] == timer);
    }
    if all.contains(timer) {
        let x = choose|x: int| 0 <= x < all.len() && all[x] == timer;
        if x >= first.effects.len() {
            assert(rest[x - first.effects.len()] == timer);
        } else {
            assert(first.effects[x] == timer);
        }
    }
}

/// The restart policy, seen from outside: where the process of a service that should run
/// ends unasked, the engine sets its restart timer exactly where the policy asks for a
/// restart and the restarts are not used up.
pub proof fn restart_policy_law(e: EngineModel, i: int, outcome: ExitOutcome, at_ms: u64)
    requires
        e.consistent(),
        0 <= i < e.services.len(),
        e.services[i].has_process,
        e.services[i].desired == DesiredState::Active,
        e.services[i].observed == ObservedState::Starting || e.services[i].observed
            == ObservedState::Active,
        !(e.snapshot.catalog.services[i].process.kind == ProcessType::Oneshot
            && e.services[i].observed == ObservedState::Starting && outcome
            == ExitOutcome::Success),
    ensures
        ({
            let service = e.snapshot.catalog.services[i];
            let r = e.services[i];
            let s = service.supervision;
            let effects = lifecycle::handle(
                e,
                EventModel::Exited {
                    service: service.id,
                    generation: r.generation,
                    outcome,
                    at_ms,
                },
            ).effects;
            let pause = if forgotten(r, s, at_ms) {
                100u64
            } else {
                r.backoff_ms
            };
            let policy = match s.restart {
                RestartPolicy::No => false,
                RestartPolicy::OnFailure => outcome != ExitOutcome::Success || r.observed
                    == ObservedState::Starting,
                RestartPolicy::Always => true,
            };
            &&& policy && has_room(r, s, at_ms) ==> effects.contains(
                restart_timer(service, r, pause),
            )
            &&& !policy || used_up(r, s, at_ms) ==> forall|after_ms: u64|
                !effects.contains(#[trigger] restart_timer(service, r, after_ms))
        }),
{
    let service = e.snapshot.catalog.services[i];
    let r = e.services[i];
    let s = service.supervision;
    let event = EventModel::Exited {
        service: service.id,
        generation: r.generation,
        outcome,
        at_ms,
    };
    exit_policy_law(service, r, outcome, at_ms);
    let step = lifecycle::react(service, r, event);
    let pause = if forgotten(r, s, at_ms) {
        100u64
    } else {
        r.backoff_ms
    };
    restart_effect_law(e, i, event, restart_timer(service, r, pause));
    if step.effects.len() > 0 {
        assert(step.effects[0] == restart_timer(service, r, pause) ==> step.effects.contains(
            restart_timer(service, r, pause),
        ));
    }
    assert forall|after_ms: u64|
        step.effects.len() == 0 implies !lifecycle::handle(e, event).effects.contains(
        #[trigger] restart_timer(service, r, after_ms),
    ) by {
        restart_effect_law(e, i, event, restart_timer(service, r, after_ms));
    }
}

/// A request to start: everything that the node activates should run from now on, what was
/// not asked for before is queued now, and nothing else is touched but what scheduling
/// starts or finds failed. What has a process keeps it.
pub proof fn start_law(e: EngineModel, node: int, now_ms: u64)
    requires
        e.consistent(),
        laws::all_sound(e.services),
    ensures
        ({
            let q = lifecycle::start(e, node, now_ms);
            let c = e.snapshot.catalog;
            &&& q.engine.snapshot == e.snapshot
            &&& q.engine.pending == e.pending
            &&& q.engine.services.len() == e.services.len()
            &&& forall|i: int|
                0 <= i < e.services.len() ==> {
                    let before = e.services[i];
                    let after = #[trigger] q.engine.services[i];
                    &&& c.activates(node, i) ==> {
                        &&& after.desired == DesiredState::Active
                        &&& !after.restart_blocked
                        &&& before.desired == DesiredState::Inactive ==> after.queued_at_ms
                            == Some(now_ms)
                        &&& before.desired == DesiredState::Active ==> after.queued_at_ms
                            == before.queued_at_ms
                        &&& before.has_process ==> after.observed == before.observed
                            && after.blocked_by is None && after.stop_signal == StopSignal::Term
                    }
                    &&& !c.activates(node, i) ==> after.desired == before.desired
                        && after.queued_at_ms == before.queued_at_ms
                    &&& !c.activates(node, i) && (before.desired == DesiredState::Inactive
                        || before.has_process) ==> after == before
                    &&& before.has_process ==> after.has_process && after.generation
                        == before.generation
                }
        }),
{
    let c = e.snapshot.catalog;
    let st = asked(e, node, now_ms);
    asked_sound(e, node, now_ms);
    laws::attempt_law(e.snapshot, st, now_ms);
    let q = lifecycle::schedule(e.snapshot, st, now_ms).services;
    fields_kept(e.snapshot, st, now_ms);
    assert forall|i: int| 0 <= i < e.services.len() implies laws::scheduled(
        st[i],
        #[trigger] q[i],
    ) by {}
}

spec fn asked(e: EngineModel, node: int, now_ms: u64) -> Seq<RuntimeModel> {
    Seq::new(
        e.snapshot.catalog.services.len(),
        |i: int|
            if e.snapshot.catalog.activates(node, i) {
                lifecycle::requested(e.services[i], now_ms)
            } else {
                e.services[i]
            },
    )
}

proof fn asked_sound(e: EngineModel, node: int, now_ms: u64)
    requires
        e.consistent(),
        laws::all_sound(e.services),
    ensures
        laws::all_sound(asked(e, node, now_ms)),
{
    let st = asked(e, node, now_ms);
    assert forall|i: int| 0 <= i < st.len() implies laws::sound(#[trigger] st[i]) by {
        assert(laws::sound(e.services[i]));
    }
}

proof fn schedule_from_fields(c: CatalogModel, p: Progress, k: nat, now_ms: u64)
    requires
        p.services.len() == c.services.len(),
    ensures
        ({
            let q = lifecycle::schedule_from(c, p, k, now_ms).services;
            &&& q.len() == p.services.len()
            &&& forall|j: int|
                0 <= j < q.len() ==> (#[trigger] q[j]).queued_at_ms == p.services[j].queued_at_ms
                    && q[j].restart_blocked == p.services[j].restart_blocked
                    && q[j].waiting_restart == p.services[j].waiting_restart
                    && q[j].restart_history == p.services[j].restart_history
                    && q[j].backoff_ms == p.services[j].backoff_ms
        }),
    decreases c.services.len() - k,
{
    if k < c.services.len() && p.available > 0 {
        schedule_from_fields(c, lifecycle::schedule_one(c, p, k as int, now_ms), k + 1, now_ms);
    }
}

/// Scheduling changes neither when a service was asked for nor what is known of its
/// restarts.
proof fn fields_kept(s: SnapshotModel, st: Seq<RuntimeModel>, now_ms: u64)
    requires
        st.len() == s.catalog.services.len(),
    ensures
        ({
            let q = lifecycle::schedule(s, st, now_ms).services;
            forall|j: int|
                0 <= j < q.len() ==> (#[trigger] q[j]).queued_at_ms == st[j].queued_at_ms
                    && q[j].restart_blocked == st[j].restart_blocked && q[j].waiting_restart
                    == st[j].waiting_restart && q[j].restart_history == st[j].restart_history
                    && q[j].backoff_ms == st[j].backoff_ms
        }),
{
    let base = lifecycle::recover_all(s.catalog, st);
    schedule_from_fields(
        s.catalog,
        Progress {
            services: base,
            effects: Seq::empty(),
            available: lifecycle::capacity(s, base),
        },
        0,
        now_ms,
    );
}

/// A request to start starts what is ready: a service that the node activates and that is
/// inactive or has failed has a new process, as long as fewer services are starting than
/// may, where everything that it needs and waits for is active, everything that it is
/// ordered after is active or, not being asked for, should not run or has failed, and
/// nothing runs that it conflicts with. That it had failed or ended for good before does
/// not matter.
pub proof fn start_release_law(e: EngineModel, node: int, now_ms: u64, i: int)
    requires
        e.consistent(),
        laws::all_sound(e.services),
        0 <= i < e.services.len(),
        e.snapshot.catalog.activates(node, i),
        e.services[i].observed == ObservedState::Inactive || e.services[i].observed
            == ObservedState::Failed,
        !e.services[i].waiting_restart,
        forall|j: int|
            0 <= j < e.services.len() && #[trigger] e.snapshot.catalog.needs(i, j)
                ==> e.services[j].observed == ObservedState::Active && e.services[j].blocked_by
                is None,
        forall|j: int|
            0 <= j < e.services.len() && #[trigger] e.snapshot.catalog.awaits(i, j)
                ==> e.services[j].observed == ObservedState::Active,
        forall|k: int, j: int|
            0 <= k < e.snapshot.catalog.services[i].dependencies.after.len() && 0 <= j
                < e.services.len() && #[trigger] e.snapshot.catalog.activates(
                e.snapshot.catalog.node(
                    e.snapshot.catalog.services[i].dependencies.after[k],
                ),
                j,
            ) ==> {
                ||| e.services[j].observed == ObservedState::Active
                ||| !e.snapshot.catalog.activates(node, j) && e.services[j].desired
                    == DesiredState::Inactive
                ||| !e.snapshot.catalog.activates(node, j) && e.services[j].observed
                    == ObservedState::Failed && e.services[j].blocked_by is None
            },
        forall|j: int|
            0 <= j < e.services.len() && j != i ==> !#[trigger] opposed(
                e.snapshot.catalog,
                lifecycle::start(e, node, now_ms).engine.services,
                i,
                j,
            ),
        lifecycle::launching_count(
            lifecycle::start(e, node, now_ms).engine.services,
            e.services.len(),
        ) < e.snapshot.max_starting,
    ensures
        ({
            let q = lifecycle::start(e, node, now_ms);
            let r = q.engine.services[i];
            &&& r.desired == DesiredState::Active
            &&& r.observed == ObservedState::Starting
            &&& r.has_process
            &&& q.effects.contains(
                EffectModel::Spawn {
                    service: e.snapshot.catalog.services[i].id,
                    generation: r.generation,
                },
            )
        }),
{
    let c = e.snapshot.catalog;
    let st = asked(e, node, now_ms);
    asked_sound(e, node, now_ms);
    assert(laws::sound(e.services[i]));
    assert forall|j: int| 0 <= j < st.len() && #[trigger] c.needs(i, j) implies st[j].observed
        == ObservedState::Active && st[j].blocked_by is None by {
        assert(e.services[j].observed == ObservedState::Active);
    }
    assert forall|j: int| 0 <= j < st.len() && #[trigger] c.awaits(i, j) implies {
        ||| st[j].desired == DesiredState::Inactive
        ||| st[j].observed == ObservedState::Active
        ||| st[j].observed == ObservedState::Failed && st[j].blocked_by is None
    } by {
        assert(e.services[j].observed == ObservedState::Active);
    }
    release_law(e.snapshot, st, now_ms, i);
}

/// A request to stop: a named service, or everything that a named group activates, and all
/// that needs any of it, should not run from now on and is not held to be waiting, failed
/// for good or held up; a forced stop kills. Nothing else changes.
pub proof fn stop_law(e: EngineModel, node: int, force: bool, i: int)
    requires
        e.consistent(),
        0 <= i < e.services.len(),
        0 <= node < e.snapshot.catalog.len(),
    ensures
        ({
            let c = e.snapshot.catalog;
            let q = lifecycle::stop(e, node, force).engine;
            let before = e.services[i];
            let after = q.services[i];
            let covered = if node < c.services.len() {
                i == node || c.needs(i, node)
            } else {
                c.activates(node, i) || exists|j: int|
                    0 <= j < c.services.len() && #[trigger] c.needs(i, j) && c.activates(node, j)
            };
            &&& q.snapshot == e.snapshot
            &&& q.pending == e.pending
            &&& q.services.len() == e.services.len()
            &&& covered ==> {
                &&& after.desired == DesiredState::Inactive
                &&& after.stop_signal == if force {
                    StopSignal::Kill
                } else {
                    StopSignal::Term
                }
                &&& !after.restart_blocked
                &&& !after.waiting_restart
                &&& after.blocked_by is None
                &&& after.generation == before.generation
                &&& after.has_process == before.has_process
                &&& !before.has_process && before.observed != ObservedState::Stopping
                    ==> after.observed == ObservedState::Inactive || exists|j: int|
                    0 <= j < c.services.len() && #[trigger] c.needs(j, i) && (
                    e.services[j].has_process || e.services[j].observed
                        == ObservedState::Stopping)
            }
            &&& !covered && before.desired == DesiredState::Active ==> after == before
        }),
{
    let c = e.snapshot.catalog;
    let st = lifecycle::dismissed_all(c, e.services, node, force);
    laws::stop_order_law(c, st);
    let q = lifecycle::schedule_stops(c, st).services;
    assert(laws::halted(st[i], q[i]));
    stop_from_fields(c, Stopped { services: st, effects: Seq::empty() }, 0, i);
    if lifecycle::stop_covers(c, node, i) && !e.services[i].has_process && e.services[i].observed
        != ObservedState::Stopping {
        stop_from_ends(c, Stopped { services: st, effects: Seq::empty() }, 0, i);
    }
    if exists|j: int|
        0 <= j < c.services.len() && #[trigger] c.needs(i, j) && lifecycle::stop_names(
            c,
            node,
            j,
        ) {
        let j = choose|j: int|
            0 <= j < c.services.len() && #[trigger] c.needs(i, j) && lifecycle::stop_names(
                c,
                node,
                j,
            );
        assert(node < c.services.len() ==> j == node);
    }
    if node < c.services.len() && c.needs(i, node) {
        assert(lifecycle::stop_names(c, node, node));
    }
    if node >= c.services.len() && exists|j: int|
        0 <= j < c.services.len() && #[trigger] c.needs(i, j) && c.activates(node, j) {
        let j = choose|j: int|
            0 <= j < c.services.len() && #[trigger] c.needs(i, j) && c.activates(node, j);
        assert(lifecycle::stop_names(c, node, j));
    }
}

proof fn stop_from_fields(c: CatalogModel, p: Stopped, k: nat, i: int)
    requires
        p.services.len() == c.services.len(),
        0 <= i < c.services.len(),
    ensures
        ({
            let r = lifecycle::stop_from(c, p, k).services[i];
            &&& lifecycle::stop_from(c, p, k).services.len() == p.services.len()
            &&& r.restart_blocked == p.services[i].restart_blocked
            &&& r.waiting_restart == p.services[i].waiting_restart
            &&& r.blocked_by == p.services[i].blocked_by
            &&& r.stop_signal == p.services[i].stop_signal
            &&& r.queued_at_ms == p.services[i].queued_at_ms
            &&& r.desired == p.services[i].desired
        }),
    decreases c.services.len() - k,
{
    if k < c.services.len() {
        stop_from_fields(c, lifecycle::stop_one(c, p, k as int), k + 1, i);
    }
}

proof fn stop_from_ends(c: CatalogModel, p: Stopped, k: nat, i: int)
    requires
        p.services.len() == c.services.len(),
        0 <= i < c.services.len(),
        p.services[i].desired == DesiredState::Inactive,
        p.services[i].observed == ObservedState::Inactive || k <= i,
        !p.services[i].has_process,
        p.services[i].observed != ObservedState::Stopping,
    ensures
        ({
            let q = lifecycle::stop_from(c, p, k).services;
            q[i].observed == ObservedState::Inactive || exists|j: int|
                0 <= j < c.services.len() && #[trigger] c.needs(j, i) && (
                p.services[j].has_process || p.services[j].observed == ObservedState::Stopping)
        }),
    decreases c.services.len() - k,
{
    if k < c.services.len() {
        let next = lifecycle::stop_one(c, p, k as int);
        if k == i && lifecycle::has_stopping_dependent(c, p.services, i) {
            let j = choose|j: int|
                0 <= j < c.services.len() && j != i && (#[trigger] p.services[j]).desired
                    == DesiredState::Inactive && p.services[j].lingers() && c.needs(j, i);
            assert(c.needs(j, i));
        } else {
            stop_from_ends(c, next, k + 1, i);
            let q = lifecycle::stop_from(c, next, k + 1).services;
            if q[i].observed != ObservedState::Inactive {
                let j = choose|j: int|
                    0 <= j < c.services.len() && #[trigger] c.needs(j, i) && (
                    next.services[j].has_process || next.services[j].observed
                        == ObservedState::Stopping);
                assert(p.services[j].has_process || p.services[j].observed
                    == ObservedState::Stopping);
            }
        }
    }
}

/// A request to stop everything: no service should run from now on, and none is held to be
/// waiting, failed for good or held up.
pub proof fn stop_all_law(e: EngineModel, i: int)
    requires
        e.consistent(),
        0 <= i < e.services.len(),
    ensures
        ({
            let q = lifecycle::stop_all(e).engine;
            let after = q.services[i];
            &&& q.snapshot == e.snapshot
            &&& q.pending == e.pending
            &&& q.services.len() == e.services.len()
            &&& after.desired == DesiredState::Inactive
            &&& !after.restart_blocked
            &&& !after.waiting_restart
            &&& after.blocked_by is None
            &&& after.stop_signal == e.services[i].stop_signal
            &&& after.generation == e.services[i].generation
            &&& after.has_process == e.services[i].has_process
        }),
{
    let c = e.snapshot.catalog;
    let st = Seq::new(
        c.services.len(),
        |i: int|
            RuntimeModel {
                desired: DesiredState::Inactive,
                restart_blocked: false,
                waiting_restart: false,
                blocked_by: None,
                ..e.services[i]
            },
    );
    laws::stop_order_law(c, st);
    stop_from_fields(c, Stopped { services: st, effects: Seq::empty() }, 0, i);
    assert(laws::halted(st[i], lifecycle::schedule_stops(c, st).services[i]));
}

/// A restart is a complete stop and a new start: a process that is there is told to stop,
/// not killed, and once it is gone the service is inactive, should run and may start, with
/// nothing in its way but what it needs; where there is none the service is asked to start
/// at once. Nothing else is told to stop.
pub proof fn restart_law(e: EngineModel, i: int, now_ms: u64, outcome: ExitOutcome, at_ms: u64)
    requires
        e.consistent(),
        laws::all_sound(e.services),
        0 <= i < e.services.len(),
    ensures
        ({
            let c = e.snapshot.catalog;
            let service = c.services[i];
            let before = e.services[i];
            let q = lifecycle::restart(e, i, now_ms);
            let after = q.engine.services[i];
            let gone = lifecycle::react(
                service,
                after,
                EventModel::Exited {
                    service: service.id,
                    generation: after.generation,
                    outcome,
                    at_ms,
                },
            );
            &&& q.engine.snapshot == e.snapshot
            &&& q.engine.pending == e.pending
            &&& q.engine.services.len() == e.services.len()
            &&& after.desired == DesiredState::Active
            &&& after.queued_at_ms == Some(now_ms)
            &&& !after.restart_blocked
            &&& before.has_process ==> {
                &&& after.observed == ObservedState::Stopping
                &&& after.has_process
                &&& after.generation == before.generation
                &&& q.effects.len() > 0
                &&& q.effects[0] == (EffectModel::Terminate {
                    service: service.id,
                    generation: before.generation,
                    force: false,
                })
                &&& service.supervision.stop_timeout_ms > 0 ==> q.effects.contains(
                    EffectModel::ArmTimer {
                        service: service.id,
                        generation: before.generation,
                        kind: TimerKind::Stop,
                        after_ms: service.supervision.stop_timeout_ms,
                    },
                )
                &&& forall|j: int|
                    0 <= j < e.services.len() && j != i ==> #[trigger] q.engine.services[j]
                        == e.services[j]
                &&& gone.effects.len() == 0
                &&& gone.service.observed == ObservedState::Inactive
                &&& gone.service.desired == DesiredState::Active
                &&& !gone.service.restart_blocked
                &&& !gone.service.has_process
                &&& gone.service.blocked_by is None
                &&& gone.service.waiting_restart == before.waiting_restart
            }
            &&& !before.has_process ==> forall|k: int|
                0 <= k < q.effects.len() ==> !(#[trigger] q.effects[k] is Terminate)
        }),
{
    let c = e.snapshot.catalog;
    let service = c.services[i];
    let before = e.services[i];
    let effects = lifecycle::stop_effects(service, before.generation, false);
    if before.has_process {
        if service.supervision.stop_timeout_ms > 0 {
            assert(effects[1] == (EffectModel::ArmTimer {
                service: service.id,
                generation: before.generation,
                kind: TimerKind::Stop,
                after_ms: service.supervision.stop_timeout_ms,
            }));
        }
    } else {
        let st = e.services.update(
            i,
            RuntimeModel {
                observed: ObservedState::Inactive,
                desired: DesiredState::Active,
                queued_at_ms: Some(now_ms),
                restart_blocked: false,
                blocked_by: None,
                ..before
            },
        );
        assert forall|k: int| 0 <= k < st.len() implies laws::sound(#[trigger] st[k]) by {
            assert(laws::sound(e.services[k]));
        }
        laws::attempt_law(e.snapshot, st, now_ms);
        start_timer_law(e.snapshot, st, now_ms);
        fields_kept(e.snapshot, st, now_ms);
        assert(laws::scheduled(
            st[i],
            lifecycle::schedule(e.snapshot, st, now_ms).services[i],
        ));
    }
}

/// A failure that is cleared leaves nothing of it: the service may start again, is not held
/// up, and is inactive where it had failed; its process and its attempt stay.
pub proof fn clear_law(r: RuntimeModel)
    ensures
        ({
            let after = lifecycle::cleared(r);
            &&& !after.restart_blocked
            &&& after.blocked_by is None
            &&& r.observed == ObservedState::Failed && !r.has_process ==> after.observed
                == ObservedState::Inactive
            &&& r.observed != ObservedState::Failed || r.has_process ==> after.observed
                == r.observed
            &&& after.desired == r.desired
            &&& after.generation == r.generation
            &&& after.has_process == r.has_process
            &&& after.waiting_restart == r.waiting_restart
            &&& after.restart_history == r.restart_history
        }),
{
}

/// Reconciliation: exactly what the default group activates should run, what was not asked
/// for before is queued now, and what ended for good may start again if it is enabled.
pub proof fn reconcile_law(e: EngineModel, now_ms: u64, i: int)
    requires
        e.consistent(),
        laws::all_sound(e.services),
        0 <= i < e.services.len(),
    ensures
        ({
            let c = e.snapshot.catalog;
            let q = lifecycle::reconcile_default(e, now_ms).engine;
            let enabled = c.activates(c.node(e.snapshot.default_group), i);
            let before = e.services[i];
            let after = q.services[i];
            &&& q.snapshot == e.snapshot
            &&& q.pending == e.pending
            &&& q.services.len() == e.services.len()
            &&& (after.desired == DesiredState::Active) == enabled
            &&& enabled ==> !after.restart_blocked
            &&& enabled && before.desired == DesiredState::Inactive ==> after.queued_at_ms
                == Some(now_ms)
            &&& enabled && before.desired == DesiredState::Active ==> after.queued_at_ms
                == before.queued_at_ms
            &&& before.has_process ==> after.has_process && after.generation == before.generation
            &&& enabled && before.has_process ==> after.observed == before.observed
        }),
{
    let c = e.snapshot.catalog;
    let st = lifecycle::reconciled_all(e.snapshot, e.services, now_ms);
    assert forall|k: int| 0 <= k < st.len() implies laws::sound(#[trigger] st[k]) by {
        assert(laws::sound(e.services[k]));
    }
    laws::stop_order_law(c, st);
    laws::stop_from_sound(c, st, Stopped { services: st, effects: Seq::empty() }, 0);
    let calm = lifecycle::schedule_stops(c, st).services;
    stop_from_fields(c, Stopped { services: st, effects: Seq::empty() }, 0, i);
    assert(laws::halted(st[i], calm[i]));
    laws::attempt_law(e.snapshot, calm, now_ms);
    fields_kept(e.snapshot, calm, now_ms);
    assert(laws::scheduled(calm[i], lifecycle::schedule(e.snapshot, calm, now_ms).services[i]));
}

/// Whether two definitions make a service run in another way: with another command, kind,
/// readiness, account, further group, working directory, environment or file mask, with
/// other helpers, or with other places to write to.
pub open spec fn runs_otherwise(a: ServiceModel, b: ServiceModel) -> bool {
    ||| a.process.command != b.process.command
    ||| a.process.kind != b.process.kind
    ||| a.process.readiness != b.process.readiness
    ||| a.process.user != b.process.user
    ||| a.process.group != b.process.group
    ||| a.process.supplementary_groups != b.process.supplementary_groups
    ||| model::plain_path(a.process.working_directory) != model::plain_path(
        b.process.working_directory,
    )
    ||| a.process.environment != b.process.environment
    ||| a.process.umask != b.process.umask
    ||| a.actions.stop != b.actions.stop
    ||| a.actions.reload != b.actions.reload
    ||| writes_otherwise(a.io.stdout, b.io.stdout)
    ||| writes_otherwise(a.io.stderr, b.io.stderr)
}

/// Whether two targets lead to different places.
pub open spec fn writes_otherwise(a: OutputModel, b: OutputModel) -> bool {
    match (a, b) {
        (OutputModel::Console, OutputModel::Console) => false,
        (OutputModel::Null, OutputModel::Null) => false,
        (OutputModel::Append(p), OutputModel::Append(q)) => model::plain_path(p)
            != model::plain_path(q),
        (OutputModel::Socket(p), OutputModel::Socket(q)) => model::plain_path(p)
            != model::plain_path(q),
        _ => true,
    }
}

/// Whether a new configuration lacks a service or makes it run in another way.
pub open spec fn replaced(old: SnapshotModel, new: SnapshotModel, i: int) -> bool {
    forall|k: int|
        0 <= k < new.catalog.services.len() && (#[trigger] new.catalog.services[k]).id
            == old.catalog.services[i].id ==> runs_otherwise(
            old.catalog.services[i],
            new.catalog.services[k],
        )
}

pub(crate) proof fn replaced_is_changed(old: SnapshotModel, new: SnapshotModel, i: int)
    requires
        new.valid(),
        0 <= i < old.catalog.services.len(),
    ensures
        replaced(old, new, i) == lifecycle::changed(old, new, i),
{
    let id = old.catalog.services[i].id;
    if let Some(k) = lifecycle::position(new.catalog, id) {
        let a = old.catalog.services[i];
        let b = new.catalog.services[k];
        assert(runs_otherwise(a, b) == (a.process.plain() != b.process.plain() || a.actions
            != b.actions || a.io.plain() != b.io.plain())) by {
            if !runs_otherwise(a, b) {
                assert(a.process.plain() =~= b.process.plain());
                assert(a.actions =~= b.actions);
                assert(a.io.plain() =~= b.io.plain());
            }
        }
        assert forall|m: int|
            0 <= m < new.catalog.services.len() && (#[trigger] new.catalog.services[m]).id
                == id implies m == k by {
            lifecycle::position_unique(new.catalog, m);
            lifecycle::position_unique(new.catalog, k);
        }
    }
}

/// A new configuration reaches what runs: a service that has a process, and that the new
/// configuration lacks or makes run in another way, or that needs one for which this holds,
/// should not run from now on, and the configuration waits until it has stopped.
pub proof fn change_law(e: EngineModel, new: SnapshotModel, now_ms: u64, i: int, j: int)
    requires
        e.consistent(),
        new.valid(),
        laws::all_sound(e.services),
        0 <= i < e.services.len(),
        e.services[i].has_process,
        0 <= j < e.services.len(),
        j == i || e.snapshot.catalog.needs(i, j),
        replaced(e.snapshot, new, j),
    ensures
        ({
            let after = lifecycle::apply_snapshot(e, new, now_ms).engine;
            &&& after.pending is Some
            &&& after.pending->0.snapshot == new
            &&& after.snapshot == e.snapshot
            &&& after.services[i].desired == DesiredState::Inactive
            &&& after.services[i].has_process
            &&& after.services[i].generation == e.services[i].generation
            &&& !after.services[i].waiting_restart
            &&& !after.services[i].restart_blocked
        }),
{
    replaced_is_changed(e.snapshot, new, j);
    laws::apply_law(e, new, now_ms);
    let marks = lifecycle::affected(e.snapshot, new);
    assert(marks[i]);
    let after = lifecycle::apply_snapshot(e, new, now_ms).engine;
    let st = Seq::new(
        e.services.len(),
        |i: int|
            if marks[i] {
                lifecycle::withdrawn(e.services[i])
            } else {
                e.services[i]
            },
    );
    laws::stop_order_law(e.snapshot.catalog, st);
    stop_from_fields(
        e.snapshot.catalog,
        Stopped { services: st, effects: Seq::empty() },
        0,
        i,
    );
    assert(laws::halted(
        st[i],
        lifecycle::schedule_stops(e.snapshot.catalog, st).services[i],
    ));
}

/// A new configuration leaves the rest alone: a service that should run and has a process,
/// that stays enabled, and that runs as before, as does everything that it needs, is in the
/// same attempt in the same state, now and until the configuration is installed.
pub proof fn spare_law(e: EngineModel, new: SnapshotModel, now_ms: u64, i: int)
    requires
        e.consistent(),
        new.valid(),
        laws::all_sound(e.services),
        0 <= i < e.services.len(),
        e.services[i].has_process,
        e.services[i].desired == DesiredState::Active,
        !replaced(e.snapshot, new, i),
        forall|j: int|
            0 <= j < e.services.len() && #[trigger] e.snapshot.catalog.needs(i, j) ==> !replaced(
                e.snapshot,
                new,
                j,
            ),
        exists|k: int|
            0 <= k < new.catalog.services.len() && (#[trigger] new.catalog.services[k]).id
                == e.snapshot.catalog.services[i].id && new.catalog.activates(
                new.catalog.node(new.default_group),
                k,
            ),
    ensures
        ({
            let after = lifecycle::apply_snapshot(e, new, now_ms).engine;
            exists|k: int|
                0 <= k < after.snapshot.catalog.services.len() && (
                #[trigger] after.snapshot.catalog.services[k]).id
                    == e.snapshot.catalog.services[i].id && laws::undisturbed(
                    e.services[i],
                    after.services[k],
                )
        }),
{
    let c = e.snapshot.catalog;
    let id = c.services[i].id;
    replaced_is_changed(e.snapshot, new, i);
    assert forall|j: int| 0 <= j < c.services.len() && #[trigger] c.needs(
        i,
        j,
    ) implies !lifecycle::changed(e.snapshot, new, j) by {
        replaced_is_changed(e.snapshot, new, j);
    }
    let k = choose|k: int|
        0 <= k < new.catalog.services.len() && (#[trigger] new.catalog.services[k]).id == id
            && new.catalog.activates(new.catalog.node(new.default_group), k);
    lifecycle::position_unique(new.catalog, k);
    lifecycle::position_unique(c, i);
    laws::apply_law(e, new, now_ms);
    let marks = lifecycle::affected(e.snapshot, new);
    assert(!marks[i]);
    let after = lifecycle::apply_snapshot(e, new, now_ms).engine;
    if after.pending is None {
        assert(after.snapshot.catalog.services[k].id == id);
    } else {
        assert(after.services[i] == e.services[i]);
        assert(after.snapshot.catalog.services[i].id == id);
    }
}

/// A configuration that waits is installed once everything that it affects is at rest
/// without a process, and not before.
pub proof fn install_law(e: EngineModel, now_ms: u64, k: int)
    requires
        e.consistent(),
        laws::all_sound(e.services),
        e.pending is Some,
        0 <= k < e.pending->0.snapshot.catalog.services.len(),
    ensures
        ({
            let pending = e.pending->0;
            let after = lifecycle::advance(e, now_ms).engine;
            let calm = forall|i: int|
                0 <= i < e.services.len() && #[trigger] pending.affected[i]
                    ==> !e.services[i].has_process && (e.services[i].observed
                    == ObservedState::Inactive || e.services[i].observed == ObservedState::Failed);
            let new = pending.snapshot;
            &&& !calm ==> after == e && lifecycle::advance(e, now_ms).effects.len() == 0
            &&& calm ==> {
                &&& after.snapshot == new
                &&& after.pending is None
                &&& after.services.len() == new.catalog.services.len()
                &&& (after.services[k].desired == DesiredState::Active)
                    == new.catalog.activates(new.catalog.node(new.default_group), k)
                &&& forall|i: int|
                    0 <= i < e.services.len() && (#[trigger] e.snapshot.catalog.services[i]).id
                        == new.catalog.services[k].id ==> {
                        &&& !pending.affected[i] && e.services[i].has_process
                            ==> after.services[k].has_process && after.services[k].generation
                            == e.services[i].generation
                        &&& pending.affected[i] && after.services[k].has_process
                            && e.services[i].generation < u64::MAX
                            ==> after.services[k].generation == e.services[i].generation + 1
                        &&& pending.affected[i] && !after.services[k].has_process
                            ==> after.services[k].generation == e.services[i].generation
                        &&& pending.affected[i] ==> after.services[k].restart_history.len() == 0
                            && after.services[k].backoff_ms == 100
                    }
                &&& (forall|i: int|
                    0 <= i < e.services.len() ==> (#[trigger] e.snapshot.catalog.services[i]).id
                        != new.catalog.services[k].id) ==> after.services[k].generation <= 1
                    && after.services[k].restart_history.len() == 0
                    && after.services[k].backoff_ms == 100
            }
        }),
{
    let pending = e.pending->0;
    let new = pending.snapshot;
    if lifecycle::drained(e.services, pending.affected) {
        let base = lifecycle::installed(e, new, pending.affected);
        let c = new.catalog;
        assert forall|i: int| 0 <= i < base.services.len() implies laws::sound(
            #[trigger] base.services[i],
        ) by {
            if let Some(m) = lifecycle::position(e.snapshot.catalog, c.services[i].id) {
                assert(laws::sound(e.services[m]));
            }
        }
        reconcile_law(base, now_ms, k);
        let st = lifecycle::reconciled_all(new, base.services, now_ms);
        assert forall|i: int| 0 <= i < st.len() implies laws::sound(#[trigger] st[i]) by {
            assert(laws::sound(base.services[i]));
        }
        laws::stop_order_law(c, st);
        laws::stop_from_sound(c, st, Stopped { services: st, effects: Seq::empty() }, 0);
        let calm = lifecycle::schedule_stops(c, st).services;
        stop_from_history(c, Stopped { services: st, effects: Seq::empty() }, 0, k);
        assert(laws::halted(st[k], calm[k]));
        laws::attempt_law(new, calm, now_ms);
        fields_kept(new, calm, now_ms);
        assert(laws::scheduled(calm[k], lifecycle::schedule(new, calm, now_ms).services[k]));
        assert forall|i: int|
            0 <= i < e.services.len() && (#[trigger] e.snapshot.catalog.services[i]).id
                == c.services[k].id implies lifecycle::position(
            e.snapshot.catalog,
            c.services[k].id,
        ) == Some(i) by {
            lifecycle::position_unique(e.snapshot.catalog, i);
        }
    }
}

proof fn stop_from_history(c: CatalogModel, p: Stopped, k: nat, i: int)
    requires
        p.services.len() == c.services.len(),
        0 <= i < c.services.len(),
    ensures
        lifecycle::stop_from(c, p, k).services[i].restart_history == p.services[i].restart_history,
        lifecycle::stop_from(c, p, k).services[i].backoff_ms == p.services[i].backoff_ms,
    decreases c.services.len() - k,
{
    if k < c.services.len() {
        stop_from_history(c, lifecycle::stop_one(c, p, k as int), k + 1, i);
    }
}

} // verus!
