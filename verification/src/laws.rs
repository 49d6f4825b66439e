//! What the state machine of services keeps: the laws of its steps.

use vstd::arithmetic::power2;
use vstd::prelude::*;

use crate::catalog;
use crate::catalog::CatalogModel;
use crate::config::SnapshotModel;
use crate::graph;
use crate::lifecycle;
use crate::lifecycle::{
    Decision, EffectModel, EngineModel, EventModel, Progress, RuntimeModel, Stopped,
};
use crate::model::{ServiceModel, Supervision};
use crate::runtime::{DesiredState, ExitOutcome, ObservedState, StopSignal, TimerKind};
use crate::text;

verus! {

/// Whether the state of a service is one that its life can come to: only a service that
/// is starting, active or stopping has a process, one that is stopping has one, a
/// service that waits for its restart has none, a process belongs to an attempt, and
/// nothing holds up a service that is active without a process.
pub open spec fn sound(r: RuntimeModel) -> bool {
    &&& r.has_process ==> !r.at_rest() && r.generation > 0
    &&& r.observed == ObservedState::Stopping ==> r.has_process
    &&& r.waiting_restart ==> !r.has_process
    &&& r.observed == ObservedState::Active && !r.has_process ==> r.blocked_by is None
}

/// Whether the state of every service is sound.
pub open spec fn all_sound(st: Seq<RuntimeModel>) -> bool {
    forall|i: int| 0 <= i < st.len() ==> sound(#[trigger] st[i])
}

/// Whether no two services run that conflict.
pub open spec fn exclusive(c: CatalogModel, st: Seq<RuntimeModel>) -> bool {
    forall|i: int, j: int|
        0 <= i < c.services.len() && 0 <= j < c.services.len() && i != j && !(
        #[trigger] st[i]).at_rest() && !(#[trigger] st[j]).at_rest() ==> !lifecycle::conflicting(
            c,
            i,
            j,
        )
}

/// Whether everything that a service needs is active, every member of a group that it
/// needs has come up or has failed for good, everything that it comes after has settled,
/// and nothing that it conflicts with runs.
pub open spec fn ready(c: CatalogModel, st: Seq<RuntimeModel>, i: int) -> bool {
    &&& forall|j: int|
        0 <= j < c.services.len() && #[trigger] c.needs(i, j) ==> st[j].serves()
    &&& lifecycle::awaited_arrived(c, st, i)
    &&& lifecycle::ordering_ready(c, st, i)
    &&& lifecycle::conflicts_clear(c, st, i)
}

/// Whether a service was given a process to start with.
pub open spec fn newly_launched(before: RuntimeModel, after: RuntimeModel) -> bool {
    !before.launching() && after.launching()
}

/// What a decision to start a service rests on.
proof fn launch_decision(c: CatalogModel, st: Seq<RuntimeModel>, i: int)
    requires
        lifecycle::decision(c, st, i) is Launch,
    ensures
        ready(c, st, i),
        st[i].desired == DesiredState::Active,
        st[i].observed == ObservedState::Inactive,
        !st[i].waiting_restart,
        !st[i].restart_blocked,
{
    lifecycle::first_need_law(c, i, |j: int| !st[j].serves(), c.services.len());
}

/// A service that is at rest and may be started again is arrived for nobody, so that its
/// next step leaves what has arrived as it was.
proof fn arrived_stays(c: CatalogModel, st: Seq<RuntimeModel>, i: int, r: RuntimeModel, j: int)
    requires
        st.len() == c.services.len(),
        0 <= i < st.len(),
        0 <= j < st.len(),
        st[i].observed == ObservedState::Inactive,
        st[i].desired == DesiredState::Active,
        !st[i].restart_blocked,
        lifecycle::arrived(c, st, j),
    ensures
        lifecycle::arrived(c, st.update(i, r), j),
{
    let after = st.update(i, r);
    assert(j != i);
    if lifecycle::terminal(c, st, j) && !st[j].over() {
        let m = choose|m: int|
            0 <= m < c.services.len() && #[trigger] c.needs(j, m) && st[m].over();
        assert(after[m] == st[m]);
        assert(c.needs(j, m) && after[m].over());
    }
}

/// One step of scheduling keeps the states sound and exclusive, and starts a service
/// only where it is ready and may be started.
proof fn schedule_one_keeps(
    c: CatalogModel,
    base: Seq<RuntimeModel>,
    p: Progress,
    i: int,
    now_ms: u64,
)
    requires
        p.services.len() == c.services.len(),
        base.len() == c.services.len(),
        0 <= i < c.services.len(),
        p.available > 0,
        all_sound(p.services),
        forall|k: int| i <= k < base.len() ==> p.services[k] == base[k],
        forall|k: int|
            0 <= k < i && newly_launched(base[k], #[trigger] p.services[k]) ==> ready(
                c,
                p.services,
                k,
            ),
    ensures
        ({
            let q = lifecycle::schedule_one(c, p, i, now_ms);
            &&& q.services.len() == c.services.len()
            &&& all_sound(q.services)
            &&& exclusive(c, p.services) ==> exclusive(c, q.services)
            &&& forall|k: int| 0 <= k < base.len() && k != i ==> q.services[k] == p.services[k]
            &&& forall|k: int|
                0 <= k < i + 1 && newly_launched(base[k], #[trigger] q.services[k]) ==> ready(
                    c,
                    q.services,
                    k,
                )
            &&& q.available <= p.available
            &&& lifecycle::launching_count(q.services, c.services.len()) + q.available
                == lifecycle::launching_count(p.services, c.services.len()) + p.available
        }),
{
    let st = p.services;
    let q = lifecycle::schedule_one(c, p, i, now_ms);
    let n = c.services.len();
    match lifecycle::decision(c, st, i) {
        Decision::Skip => {},
        Decision::Block(j) => {
            launching_update(st, i, q.services[i], n);
            assert forall|k: int| 0 <= k < i + 1 && newly_launched(
                base[k],
                #[trigger] q.services[k],
            ) implies ready(c, q.services, k) by {
                assert(ready(c, st, k));
                rest_keeps_ready(c, st, k, i, q.services[i]);
            }
        },
        Decision::Launch => {
            launch_decision(c, st, i);
            launching_update(st, i, q.services[i], n);
            assert forall|k: int| 0 <= k < i + 1 && newly_launched(
                base[k],
                #[trigger] q.services[k],
            ) implies ready(c, q.services, k) by {
                if k < i {
                    assert(q.services[k] == st[k]);
                    assert(ready(c, st, k));
                    assert(!lifecycle::conflicting(c, i, k));
                    launch_keeps_ready(c, st, k, i, q.services[i]);
                } else {
                    own_launch_keeps_ready(c, st, i, q.services[i]);
                }
            }
        },
    }
}

/// A service at rest that settles elsewhere at rest leaves another ready.
proof fn rest_keeps_ready(c: CatalogModel, st: Seq<RuntimeModel>, k: int, i: int, r: RuntimeModel)
    requires
        st.len() == c.services.len(),
        0 <= i < st.len(),
        ready(c, st, k),
        st[i].observed == ObservedState::Inactive,
        st[i].desired == DesiredState::Active,
        !st[i].restart_blocked,
        r.at_rest(),
    ensures
        ready(c, st.update(i, r), k),
{
    let after = st.update(i, r);
    assert forall|j: int| 0 <= j < c.services.len() && #[trigger] c.needs(
        k,
        j,
    ) implies after[j].serves() by {
        assert(st[j].serves());
    }
    assert forall|j: int| 0 <= j < c.services.len() && #[trigger] c.awaits(
        k,
        j,
    ) implies lifecycle::arrived(c, after, j) by {
        assert(lifecycle::arrived(c, st, j));
        arrived_stays(c, st, i, r, j);
    }
    assert forall|x: int, j: int|
        0 <= x < c.services[k].dependencies.after.len() && 0 <= j < c.services.len()
            && #[trigger] c.activates(
            c.node(c.services[k].dependencies.after[x]),
            j,
        ) implies lifecycle::settled(after[j]) by {
        assert(lifecycle::settled(st[j]));
    }
    assert forall|j: int|
        0 <= j < c.services.len() && j != k
            && !(#[trigger] after[j]).at_rest() implies !lifecycle::conflicting(c, k, j) by {
        assert(!st[j].at_rest());
    }
}

/// The start of a service that does not conflict leaves another ready.
proof fn launch_keeps_ready(
    c: CatalogModel,
    st: Seq<RuntimeModel>,
    k: int,
    i: int,
    r: RuntimeModel,
)
    requires
        st.len() == c.services.len(),
        0 <= i < st.len(),
        ready(c, st, k),
        st[i].observed == ObservedState::Inactive,
        st[i].desired == DesiredState::Active,
        !st[i].restart_blocked,
        !lifecycle::conflicting(c, i, k),
    ensures
        ready(c, st.update(i, r), k),
{
    let after = st.update(i, r);
    assert forall|j: int| 0 <= j < c.services.len() && #[trigger] c.needs(
        k,
        j,
    ) implies after[j].serves() by {
        assert(st[j].serves());
    }
    assert forall|j: int| 0 <= j < c.services.len() && #[trigger] c.awaits(
        k,
        j,
    ) implies lifecycle::arrived(c, after, j) by {
        assert(lifecycle::arrived(c, st, j));
        arrived_stays(c, st, i, r, j);
    }
    assert forall|x: int, j: int|
        0 <= x < c.services[k].dependencies.after.len() && 0 <= j < c.services.len()
            && #[trigger] c.activates(
            c.node(c.services[k].dependencies.after[x]),
            j,
        ) implies lifecycle::settled(after[j]) by {
        assert(lifecycle::settled(st[j]));
    }
    assert forall|j: int|
        0 <= j < c.services.len() && j != k
            && !(#[trigger] after[j]).at_rest() implies !lifecycle::conflicting(c, k, j) by {
        if j != i {
            assert(!st[j].at_rest());
        }
    }
}

/// The start of a service leaves it ready itself.
proof fn own_launch_keeps_ready(c: CatalogModel, st: Seq<RuntimeModel>, i: int, r: RuntimeModel)
    requires
        st.len() == c.services.len(),
        0 <= i < st.len(),
        ready(c, st, i),
        st[i].observed == ObservedState::Inactive,
        st[i].desired == DesiredState::Active,
        !st[i].restart_blocked,
    ensures
        ready(c, st.update(i, r), i),
{
    let after = st.update(i, r);
    assert forall|j: int| 0 <= j < c.services.len() && #[trigger] c.needs(
        i,
        j,
    ) implies after[j].serves() by {
        assert(st[j].serves());
    }
    assert forall|j: int| 0 <= j < c.services.len() && #[trigger] c.awaits(
        i,
        j,
    ) implies lifecycle::arrived(c, after, j) by {
        assert(lifecycle::arrived(c, st, j));
        arrived_stays(c, st, i, r, j);
    }
    assert forall|x: int, j: int|
        0 <= x < c.services[i].dependencies.after.len() && 0 <= j < c.services.len()
            && #[trigger] c.activates(
            c.node(c.services[i].dependencies.after[x]),
            j,
        ) implies lifecycle::settled(after[j]) by {
        assert(lifecycle::settled(st[j]));
    }
    assert forall|j: int|
        0 <= j < c.services.len() && j != i
            && !(#[trigger] after[j]).at_rest() implies !lifecycle::conflicting(c, i, j) by {
        assert(!st[j].at_rest());
    }
}

/// How the count of starting services changes with one of them.
proof fn launching_update(st: Seq<RuntimeModel>, i: int, r: RuntimeModel, n: nat)
    requires
        0 <= i < st.len(),
        n <= st.len(),
    ensures
        i >= n ==> lifecycle::launching_count(st.update(i, r), n) == lifecycle::launching_count(
            st,
            n,
        ),
        i < n ==> lifecycle::launching_count(st.update(i, r), n) + (if st[i].launching() {
            1int
        } else {
            0int
        }) == lifecycle::launching_count(st, n) + (if r.launching() {
            1int
        } else {
            0int
        }),
    decreases n,
{
    if n > 0 {
        launching_update(st, i, r, (n - 1) as nat);
    }
}

/// Scheduling from a service on keeps what one step keeps.
pub(crate) proof fn schedule_from_keeps(
    c: CatalogModel,
    base: Seq<RuntimeModel>,
    p: Progress,
    i: nat,
    now_ms: u64,
)
    requires
        p.services.len() == c.services.len(),
        base.len() == c.services.len(),
        i <= c.services.len(),
        all_sound(p.services),
        forall|k: int| i <= k < base.len() ==> p.services[k] == base[k],
        forall|k: int|
            0 <= k < i && newly_launched(base[k], #[trigger] p.services[k]) ==> ready(
                c,
                p.services,
                k,
            ),
    ensures
        ({
            let q = lifecycle::schedule_from(c, p, i, now_ms);
            &&& q.services.len() == c.services.len()
            &&& all_sound(q.services)
            &&& exclusive(c, p.services) ==> exclusive(c, q.services)
            &&& forall|k: int|
                0 <= k < base.len() && newly_launched(base[k], #[trigger] q.services[k])
                    ==> ready(c, q.services, k)
            &&& lifecycle::launching_count(q.services, c.services.len()) + q.available
                == lifecycle::launching_count(p.services, c.services.len()) + p.available
        }),
    decreases c.services.len() - i,
{
    if i < c.services.len() && p.available > 0 {
        schedule_one_keeps(c, base, p, i as int, now_ms);
        schedule_from_keeps(
            c,
            base,
            lifecycle::schedule_one(c, p, i as int, now_ms),
            i + 1,
            now_ms,
        );
    } else {
        assert forall|k: int|
            0 <= k < base.len() && newly_launched(
                base[k],
                #[trigger] p.services[k],
            ) implies ready(c, p.services, k) by {}
    }
}

/// Recovery keeps the states sound and exclusive, and starts nothing.
pub(crate) proof fn recovery_keeps(c: CatalogModel, st: Seq<RuntimeModel>)
    requires
        st.len() == c.services.len(),
        all_sound(st),
    ensures
        all_sound(lifecycle::recover_all(c, st)),
        exclusive(c, st) ==> exclusive(c, lifecycle::recover_all(c, st)),
        lifecycle::launching_count(lifecycle::recover_all(c, st), st.len())
            == lifecycle::launching_count(st, st.len()),
{
    let after = lifecycle::recover_all(c, st);
    assert forall|i: int| 0 <= i < after.len() implies sound(#[trigger] after[i]) by {
        assert(sound(st[i]));
    }
    if exclusive(c, st) {
        assert forall|i: int, j: int|
            0 <= i < c.services.len() && 0 <= j < c.services.len() && i != j && !(
            #[trigger] after[i]).at_rest() && !(
            #[trigger] after[j]).at_rest() implies !lifecycle::conflicting(c, i, j) by {
            assert(!st[i].at_rest());
            assert(!st[j].at_rest());
        }
    }
    launching_agree(st, after, st.len());
}

/// States that agree on which services are starting have the same count of them.
proof fn launching_agree(a: Seq<RuntimeModel>, b: Seq<RuntimeModel>, n: nat)
    requires
        n <= a.len(),
        a.len() == b.len(),
        forall|i: int| 0 <= i < n ==> (#[trigger] a[i]).launching() == b[i].launching(),
    ensures
        lifecycle::launching_count(a, n) == lifecycle::launching_count(b, n),
    decreases n,
{
    if n > 0 {
        launching_agree(a, b, (n - 1) as nat);
    }
}

/// A service is started only where everything that it needs is active, every member of a
/// group that it needs has come up or has failed for good, everything that it comes after
/// has settled and nothing runs that it conflicts with.
pub proof fn launch_law(s: SnapshotModel, st: Seq<RuntimeModel>, now_ms: u64)
    requires
        st.len() == s.catalog.services.len(),
        all_sound(st),
    ensures
        ({
            let q = lifecycle::schedule(s, st, now_ms).services;
            forall|i: int|
                0 <= i < st.len() && newly_launched(st[i], #[trigger] q[i]) ==> ready(
                    s.catalog,
                    q,
                    i,
                )
        }),
{
    schedule_keeps(s, st, now_ms);
}

/// Scheduling starts services up to the bound on parallel starts and no further.
pub proof fn parallel_law(s: SnapshotModel, st: Seq<RuntimeModel>, now_ms: u64)
    requires
        st.len() == s.catalog.services.len(),
        all_sound(st),
    ensures
        ({
            let before = lifecycle::launching_count(st, st.len());
            let after = lifecycle::launching_count(
                lifecycle::schedule(s, st, now_ms).services,
                st.len(),
            );
            &&& after <= s.max_starting || after == before
            &&& after >= before
        }),
{
    schedule_keeps(s, st, now_ms);
}

/// What scheduling keeps.
proof fn schedule_keeps(s: SnapshotModel, st: Seq<RuntimeModel>, now_ms: u64)
    requires
        st.len() == s.catalog.services.len(),
        all_sound(st),
    ensures
        ({
            let c = s.catalog;
            let q = lifecycle::schedule(s, st, now_ms).services;
            let before = lifecycle::launching_count(st, st.len());
            let after = lifecycle::launching_count(q, st.len());
            &&& q.len() == st.len()
            &&& all_sound(q)
            &&& exclusive(c, st) ==> exclusive(c, q)
            &&& forall|i: int|
                0 <= i < st.len() && newly_launched(st[i], #[trigger] q[i]) ==> ready(c, q, i)
            &&& after <= s.max_starting || after == before
            &&& after >= before
        }),
{
    let c = s.catalog;
    let base = lifecycle::recover_all(c, st);
    let p = Progress {
        services: base,
        effects: Seq::empty(),
        available: lifecycle::capacity(s, base),
    };
    recovery_keeps(c, st);
    schedule_from_keeps(c, base, p, 0, now_ms);
    available_falls(c, p, 0, now_ms);
    let q = lifecycle::schedule(s, st, now_ms).services;
    assert forall|i: int| 0 <= i < st.len() && newly_launched(st[i], #[trigger] q[i]) implies ready(
        c,
        q,
        i,
    ) by {
        assert(newly_launched(base[i], q[i]));
    }
}

pub(crate) proof fn available_falls(c: CatalogModel, p: Progress, i: nat, now_ms: u64)
    ensures
        lifecycle::schedule_from(c, p, i, now_ms).available <= p.available,
    decreases c.services.len() - i,
{
    if i < c.services.len() && p.available > 0 {
        available_falls(c, lifecycle::schedule_one(c, p, i as int, now_ms), i + 1, now_ms);
    }
}

/// What scheduling may make of a service: nothing, or, where the service should run and
/// has no process, a recovery, a failure or a new attempt with the next number.
pub open spec fn scheduled(before: RuntimeModel, after: RuntimeModel) -> bool {
    ||| after == before
    ||| {
        &&& before.desired == DesiredState::Active
        &&& !before.has_process
        &&& after.desired == before.desired
        &&& after.at_rest() && !after.has_process && after.generation == before.generation || {
            &&& after.launching()
            &&& after.generation == lifecycle::next_generation(before.generation)
        }
    }
}

/// Whether effects tell exactly the new attempts between two states.
pub open spec fn spawns_match(
    c: CatalogModel,
    before: Seq<RuntimeModel>,
    after: Seq<RuntimeModel>,
    effects: Seq<EffectModel>,
) -> bool {
    &&& forall|i: int|
        0 <= i < after.len() && newly_launched(before[i], #[trigger] after[i]) ==> effects.contains(
            EffectModel::Spawn { service: c.services[i].id, generation: after[i].generation },
        )
    &&& forall|k: int|
        0 <= k < effects.len() ==> (#[trigger] effects[k] matches EffectModel::Spawn {
            service,
            generation,
        } ==> exists|i: int|
            0 <= i < after.len() && newly_launched(before[i], #[trigger] after[i]) && service
                == c.services[i].id && generation == after[i].generation)
}

proof fn schedule_from_spawns(
    c: CatalogModel,
    base: Seq<RuntimeModel>,
    p: Progress,
    i: nat,
    now_ms: u64,
)
    requires
        p.services.len() == c.services.len(),
        base.len() == c.services.len(),
        all_sound(base),
        i <= c.services.len(),
        forall|k: int| i <= k < base.len() ==> p.services[k] == base[k],
        forall|k: int| 0 <= k < base.len() ==> scheduled(base[k], #[trigger] p.services[k]),
        spawns_match(c, base, p.services, p.effects),
    ensures
        ({
            let q = lifecycle::schedule_from(c, p, i, now_ms);
            &&& q.services.len() == c.services.len()
            &&& forall|k: int| 0 <= k < base.len() ==> scheduled(base[k], #[trigger] q.services[k])
            &&& spawns_match(c, base, q.services, q.effects)
        }),
    decreases c.services.len() - i,
{
    if i < c.services.len() && p.available > 0 {
        let q = lifecycle::schedule_one(c, p, i as int, now_ms);
        assert(sound(base[i as int]));
        assert forall|k: int| 0 <= k < base.len() implies scheduled(
            base[k],
            #[trigger] q.services[k],
        ) by {
            if k != i {
                assert(q.services[k] == p.services[k]);
            }
        }
        match lifecycle::decision(c, p.services, i as int) {
            Decision::Skip => {},
            Decision::Block(j) => {
                blocked_spawns(c, base, p.services, i as int, q.services[i as int], p.effects);
            },
            Decision::Launch => {
                launched_spawns(
                    c,
                    base,
                    p.services,
                    i as int,
                    q.services[i as int],
                    p.effects,
                );
            },
        }
        schedule_from_spawns(c, base, q, i + 1, now_ms);
    }
}

proof fn blocked_spawns(
    c: CatalogModel,
    base: Seq<RuntimeModel>,
    st: Seq<RuntimeModel>,
    i: int,
    r: RuntimeModel,
    effects: Seq<EffectModel>,
)
    requires
        0 <= i < st.len(),
        base.len() == st.len(),
        st[i] == base[i],
        !r.launching(),
        !base[i].launching(),
        spawns_match(c, base, st, effects),
    ensures
        spawns_match(c, base, st.update(i, r), effects),
{
    let after = st.update(i, r);
    assert forall|k: int|
        0 <= k < after.len() && newly_launched(
            base[k],
            #[trigger] after[k],
        ) implies effects.contains(
        EffectModel::Spawn { service: c.services[k].id, generation: after[k].generation },
    ) by {
        assert(after[k] == st[k]);
    }
    assert forall|k: int| 0 <= k < effects.len() implies (
    #[trigger] effects[k] matches EffectModel::Spawn { service, generation } ==> exists|x: int|
        0 <= x < after.len() && newly_launched(base[x], #[trigger] after[x]) && service
            == c.services[x].id && generation == after[x].generation) by {
        if let EffectModel::Spawn { service, generation } = effects[k] {
            let x = choose|x: int|
                0 <= x < st.len() && newly_launched(base[x], #[trigger] st[x]) && service
                    == c.services[x].id && generation == st[x].generation;
            assert(after[x] == st[x]);
        }
    }
}

proof fn launched_spawns(
    c: CatalogModel,
    base: Seq<RuntimeModel>,
    st: Seq<RuntimeModel>,
    i: int,
    r: RuntimeModel,
    effects: Seq<EffectModel>,
)
    requires
        0 <= i < st.len(),
        base.len() == st.len(),
        st[i] == base[i],
        r.launching(),
        !base[i].launching(),
        spawns_match(c, base, st, effects),
    ensures
        spawns_match(
            c,
            base,
            st.update(i, r),
            effects + lifecycle::launch_effects(c.services[i], r.generation),
        ),
{
    let after = st.update(i, r);
    let more = lifecycle::launch_effects(c.services[i], r.generation);
    let all = effects + more;
    let spawn = EffectModel::Spawn { service: c.services[i].id, generation: r.generation };
    assert(all[effects.len() as int] == spawn);
    assert forall|k: int|
        0 <= k < after.len() && newly_launched(base[k], #[trigger] after[k]) implies all.contains(
        EffectModel::Spawn { service: c.services[k].id, generation: after[k].generation },
    ) by {
        if k != i {
            assert(after[k] == st[k]);
            let e = EffectModel::Spawn {
                service: c.services[k].id,
                generation: after[k].generation,
            };
            let x = choose|x: int| 0 <= x < effects.len() && effects[x] == e;
            assert(all[x] == e);
        }
    }
    assert forall|k: int| 0 <= k < all.len() implies (
    #[trigger] all[k] matches EffectModel::Spawn { service, generation } ==> exists|x: int|
        0 <= x < after.len() && newly_launched(base[x], #[trigger] after[x]) && service
            == c.services[x].id && generation == after[x].generation) by {
        if let EffectModel::Spawn { service, generation } = all[k] {
            if k < effects.len() {
                assert(effects[k] == all[k]);
                let x = choose|x: int|
                    0 <= x < st.len() && newly_launched(base[x], #[trigger] st[x]) && service
                        == c.services[x].id && generation == st[x].generation;
                assert(after[x] == st[x]);
            } else {
                assert(all[k] == more[k - effects.len()]);
                assert(newly_launched(base[i], after[i]));
            }
        }
    }
}

/// Scheduling leaves alone what should not run and what has a process; every new attempt
/// has the number after the last one, and the effects ask for a process exactly for the
/// new attempts.
pub proof fn attempt_law(s: SnapshotModel, st: Seq<RuntimeModel>, now_ms: u64)
    requires
        st.len() == s.catalog.services.len(),
        all_sound(st),
    ensures
        ({
            let q = lifecycle::schedule(s, st, now_ms);
            &&& q.services.len() == st.len()
            &&& forall|i: int| 0 <= i < st.len() ==> scheduled(st[i], #[trigger] q.services[i])
            &&& spawns_match(s.catalog, st, q.services, q.effects)
        }),
{
    let c = s.catalog;
    let base = lifecycle::recover_all(c, st);
    let p = Progress {
        services: base,
        effects: Seq::empty(),
        available: lifecycle::capacity(s, base),
    };
    recovery_keeps(c, st);
    schedule_from_spawns(c, base, p, 0, now_ms);
    let q = lifecycle::schedule(s, st, now_ms);
    assert forall|i: int| 0 <= i < st.len() implies scheduled(st[i], #[trigger] q.services[i]) by {
        assert(scheduled(base[i], q.services[i]));
        assert(sound(st[i]));
    }
    assert forall|i: int|
        0 <= i < q.services.len() && newly_launched(
            st[i],
            #[trigger] q.services[i],
        ) implies q.effects.contains(
        EffectModel::Spawn {
            service: c.services[i].id,
            generation: q.services[i].generation,
        },
    ) by {
        assert(newly_launched(base[i], q.services[i]));
    }
    assert forall|k: int| 0 <= k < q.effects.len() implies (
    #[trigger] q.effects[k] matches EffectModel::Spawn { service, generation } ==> exists|x: int|
        0 <= x < q.services.len() && newly_launched(st[x], #[trigger] q.services[x]) && service
            == c.services[x].id && generation == q.services[x].generation) by {
        if let EffectModel::Spawn { service, generation } = q.effects[k] {
            let x = choose|x: int|
                0 <= x < q.services.len() && newly_launched(base[x], #[trigger] q.services[x])
                    && service == c.services[x].id && generation == q.services[x].generation;
            assert(newly_launched(st[x], q.services[x]));
        }
    }
}

/// Needing is transitive.
pub proof fn needs_transitive(c: CatalogModel, x: int, y: int, z: int)
    requires
        c.needs(x, y),
        c.needs(y, z),
    ensures
        c.needs(x, z),
{
    let edge = c.requirement();
    let a = choose|a: int|
        0 <= a < c.len() && #[trigger] edge(x, a) && graph::reaches(c.len(), edge, a, y);
    let b = choose|b: int|
        0 <= b < c.len() && #[trigger] edge(y, b) && graph::reaches(c.len(), edge, b, z);
    graph::reaches_step(c.len(), edge, a, y, b);
    graph::reaches_transitive(c.len(), edge, a, b, z);
}

/// Where the order of starting has no circle, no service needs itself, and no two need
/// each other.
pub proof fn needs_acyclic(c: CatalogModel, x: int, y: int)
    requires
        graph::acyclic(c.len(), c.ordering()),
        0 <= x < c.len(),
        c.needs(x, y),
    ensures
        x != y,
        !c.needs(y, x),
{
    if c.needs(y, x) {
        needs_transitive(c, x, y, x);
    }
    if c.needs(x, x) {
        let n = c.len();
        let edge = c.requirement();
        let z = choose|z: int| 0 <= z < n && #[trigger] edge(x, z) && graph::reaches(n, edge, z, x);
        let path = choose|path: Seq<int>| #[trigger]
            graph::is_path(n, edge, path) && path.first() == z && path.last() == x;
        let circle = seq![x] + path;
        assert forall|i: int| 0 <= i < circle.len() implies 0 <= #[trigger] circle[i] < n by {
            if i > 0 {
                assert(circle[i] == path[i - 1]);
            }
        }
        assert forall|i: int| 0 <= i < circle.len() - 1 implies c.ordering()(
            #[trigger] circle[i],
            circle[i + 1],
        ) by {
            if i > 0 {
                assert(edge(path[i - 1], path[i]));
            } else {
                assert(edge(x, z));
            }
        }
        assert(graph::is_cycle(n, c.ordering(), circle));
    }
}

/// A request to stop a node also stops everything that needs a service that it stops.
pub proof fn stop_closure_law(c: CatalogModel, node: int, i: int, j: int)
    requires
        0 <= i < c.services.len(),
        0 <= j < c.services.len(),
        lifecycle::stop_covers(c, node, i),
        c.needs(j, i),
    ensures
        lifecycle::stop_covers(c, node, j),
{
    if !lifecycle::stop_names(c, node, i) {
        let k = choose|k: int|
            0 <= k < c.services.len() && #[trigger] c.needs(i, k) && lifecycle::stop_names(
                c,
                node,
                k,
            );
        needs_transitive(c, j, i, k);
    }
}

/// A new configuration also affects everything that needs a service that it affects.
pub proof fn affected_closure_law(old_one: SnapshotModel, new: SnapshotModel, i: int, j: int)
    requires
        0 <= i < old_one.catalog.services.len(),
        0 <= j < old_one.catalog.services.len(),
        lifecycle::affects(old_one, new, i),
        old_one.catalog.needs(j, i),
    ensures
        lifecycle::affects(old_one, new, j),
{
    if !lifecycle::changed(old_one, new, i) {
        let k = choose|k: int|
            0 <= k < old_one.catalog.services.len() && #[trigger] old_one.catalog.needs(i, k)
                && lifecycle::changed(old_one, new, k);
        needs_transitive(old_one.catalog, j, i, k);
    }
}

/// Whether a service was told to stop between two states.
pub open spec fn newly_stopping(before: RuntimeModel, after: RuntimeModel) -> bool {
    before.observed != ObservedState::Stopping && after.observed == ObservedState::Stopping
}

/// What stopping may make of a service: nothing, or, where it should not run, the end of
/// its process is asked for, or it is at rest where it has none.
pub open spec fn halted(before: RuntimeModel, after: RuntimeModel) -> bool {
    ||| after == before
    ||| {
        &&& before.desired == DesiredState::Inactive
        &&& after.desired == before.desired
        &&& after.generation == before.generation
        &&& after.has_process == before.has_process
        &&& after.stop_signal == before.stop_signal
        &&& if before.has_process {
            after.observed == ObservedState::Stopping
        } else {
            after.observed == ObservedState::Inactive
        }
    }
}

/// Whether effects tell exactly the services that were told to stop between two states,
/// with a kill exactly where one was asked for.
pub open spec fn stops_match(
    c: CatalogModel,
    before: Seq<RuntimeModel>,
    after: Seq<RuntimeModel>,
    effects: Seq<EffectModel>,
) -> bool {
    &&& forall|i: int|
        0 <= i < after.len() && newly_stopping(before[i], #[trigger] after[i]) ==> effects.contains(
            stop_effect(c, after, i),
        )
    &&& forall|k: int|
        0 <= k < effects.len() ==> (#[trigger] effects[k] is Terminate ==> exists|i: int|
            0 <= i < after.len() && newly_stopping(before[i], #[trigger] after[i]) && effects[k]
                == stop_effect(c, after, i))
}

/// The signal to a service that is to stop.
pub open spec fn stop_effect(c: CatalogModel, st: Seq<RuntimeModel>, i: int) -> EffectModel {
    EffectModel::Terminate {
        service: c.services[i].id,
        generation: st[i].generation,
        force: st[i].stop_signal == StopSignal::Kill,
    }
}

/// What stopping has kept, from the states it began with on.
spec fn stop_kept(c: CatalogModel, base: Seq<RuntimeModel>, p: Stopped) -> bool {
    &&& p.services.len() == c.services.len()
    &&& forall|k: int|
        0 <= k < base.len() ==> halted(base[k], #[trigger] p.services[k])
            && base[k].lingers() == p.services[k].lingers()
    &&& forall|k: int|
        0 <= k < base.len() && newly_stopping(base[k], #[trigger] p.services[k])
            ==> !lifecycle::has_stopping_dependent(c, p.services, k)
    &&& stops_match(c, base, p.services, p.effects)
}

/// What stopping makes of services does not change which of them hold others up.
proof fn blocks_unchanged(
    c: CatalogModel,
    before: Seq<RuntimeModel>,
    after: Seq<RuntimeModel>,
    k: int,
)
    requires
        before.len() == c.services.len(),
        after.len() == before.len(),
        forall|j: int| 0 <= j < before.len() ==> halted(before[j], #[trigger] after[j]) && before[
            j
        ].lingers() == after[j].lingers(),
    ensures
        lifecycle::has_stopping_dependent(c, before, k) == lifecycle::has_stopping_dependent(
            c,
            after,
            k,
        ),
{
    if lifecycle::has_stopping_dependent(c, after, k) {
        let j = choose|j: int|
            0 <= j < c.services.len() && j != k && (#[trigger] after[j]).desired
                == DesiredState::Inactive && after[j].lingers() && c.needs(j, k);
        assert(before[j].lingers() && before[j].desired == DesiredState::Inactive);
    }
    if lifecycle::has_stopping_dependent(c, before, k) {
        let j = choose|j: int|
            0 <= j < c.services.len() && j != k && (#[trigger] before[j]).desired
                == DesiredState::Inactive && before[j].lingers() && c.needs(j, k);
        assert(halted(before[j], after[j]));
        assert(after[j].lingers() && after[j].desired == DesiredState::Inactive);
    }
}

proof fn stop_one_keeps(c: CatalogModel, base: Seq<RuntimeModel>, p: Stopped, i: int)
    requires
        base.len() == c.services.len(),
        0 <= i < c.services.len(),
        p.services[i] == base[i],
        stop_kept(c, base, p),
    ensures
        stop_kept(c, base, lifecycle::stop_one(c, p, i)),
{
    let st = p.services;
    let q = lifecycle::stop_one(c, p, i);
    if lifecycle::stops_now(c, st, i) {
        let after = q.services;
        assert forall|k: int| 0 <= k < base.len() implies halted(base[k], #[trigger] after[k])
            && base[k].lingers() == after[k].lingers() by {
            assert(halted(base[k], st[k]));
        }
        assert forall|k: int| 0 <= k < base.len() implies lifecycle::has_stopping_dependent(
            c,
            after,
            k,
        ) == #[trigger] lifecycle::has_stopping_dependent(c, st, k) by {
            blocks_unchanged(c, st, after, k);
        }
        assert forall|k: int|
            0 <= k < base.len() && newly_stopping(
                base[k],
                #[trigger] after[k],
            ) implies !lifecycle::has_stopping_dependent(c, after, k) by {
            if k != i {
                assert(newly_stopping(base[k], st[k]));
            }
            assert(!lifecycle::has_stopping_dependent(c, st, k));
        }
        let more = if st[i].has_process {
            lifecycle::stop_effects(
                c.services[i],
                st[i].generation,
                st[i].stop_signal == StopSignal::Kill,
            )
        } else {
            Seq::empty()
        };
        assert(q.effects =~= p.effects + more);
        stop_step_effects(c, base, st, i, after[i], p.effects, more);
    }
}

proof fn stop_step_effects(
    c: CatalogModel,
    base: Seq<RuntimeModel>,
    st: Seq<RuntimeModel>,
    i: int,
    r: RuntimeModel,
    effects: Seq<EffectModel>,
    more: Seq<EffectModel>,
)
    requires
        0 <= i < st.len(),
        base.len() == st.len(),
        st[i] == base[i],
        stops_match(c, base, st, effects),
        newly_stopping(base[i], r) ==> more.len() > 0 && more[0] == stop_effect(
            c,
            st.update(i, r),
            i,
        ) && forall|k: int| 1 <= k < more.len() ==> !(#[trigger] more[k] is Terminate),
        !newly_stopping(base[i], r) ==> more.len() == 0,
    ensures
        stops_match(c, base, st.update(i, r), effects + more),
{
    let after = st.update(i, r);
    let all = effects + more;
    assert forall|k: int|
        0 <= k < after.len() && newly_stopping(base[k], #[trigger] after[k]) implies all.contains(
        stop_effect(c, after, k),
    ) by {
        let e = stop_effect(c, after, k);
        if k == i {
            assert(all[effects.len() as int] == e);
        } else {
            assert(after[k] == st[k]);
            assert(e == stop_effect(c, st, k));
            let x = choose|x: int| 0 <= x < effects.len() && effects[x] == e;
            assert(all[x] == e);
        }
    }
    assert forall|k: int| 0 <= k < all.len() && #[trigger] all[k] is Terminate implies exists|
        x: int,
    |
        0 <= x < after.len() && newly_stopping(base[x], #[trigger] after[x]) && all[k]
            == stop_effect(c, after, x) by {
        if k < effects.len() {
            assert(effects[k] == all[k]);
            let x = choose|x: int|
                0 <= x < st.len() && newly_stopping(base[x], #[trigger] st[x]) && effects[k]
                    == stop_effect(c, st, x);
            assert(x != i);
            assert(after[x] == st[x]);
        } else {
            assert(all[k] == more[k - effects.len()]);
            assert(newly_stopping(base[i], after[i]));
        }
    }
}

proof fn stop_from_keeps(c: CatalogModel, base: Seq<RuntimeModel>, p: Stopped, i: nat)
    requires
        base.len() == c.services.len(),
        i <= c.services.len(),
        forall|k: int| i <= k < base.len() ==> p.services[k] == base[k],
        stop_kept(c, base, p),
    ensures
        stop_kept(c, base, lifecycle::stop_from(c, p, i)),
    decreases c.services.len() - i,
{
    if i < c.services.len() {
        stop_one_keeps(c, base, p, i as int);
        stop_from_keeps(c, base, lifecycle::stop_one(c, p, i as int), i + 1);
    }
}

/// Whether what should not run and ends at once is at an end, among the first `n`
/// services, unless something holds it up.
spec fn ended(c: CatalogModel, base: Seq<RuntimeModel>, st: Seq<RuntimeModel>, n: nat) -> bool {
    forall|k: int|
        0 <= k < n && base[k].desired == DesiredState::Inactive && !base[k].lingers()
            && !lifecycle::has_stopping_dependent(c, base, k) ==> (#[trigger] st[k]).observed
            == ObservedState::Inactive
}

proof fn stop_from_ends(c: CatalogModel, base: Seq<RuntimeModel>, p: Stopped, i: nat)
    requires
        base.len() == c.services.len(),
        i <= c.services.len(),
        forall|k: int| i <= k < base.len() ==> p.services[k] == base[k],
        stop_kept(c, base, p),
        ended(c, base, p.services, i),
    ensures
        ended(c, base, lifecycle::stop_from(c, p, i).services, base.len()),
    decreases c.services.len() - i,
{
    if i < c.services.len() {
        let q = lifecycle::stop_one(c, p, i as int);
        stop_one_keeps(c, base, p, i as int);
        blocks_unchanged(c, base, p.services, i as int);
        assert forall|k: int|
            0 <= k < i + 1 && base[k].desired == DesiredState::Inactive && !base[k].lingers()
                && !lifecycle::has_stopping_dependent(c, base, k) implies (
        #[trigger] q.services[k]).observed == ObservedState::Inactive by {
            if k < i {
                assert(p.services[k].observed == ObservedState::Inactive);
            }
        }
        stop_from_ends(c, base, q, i + 1);
    }
}

/// Stopping goes against the order of needs: whatever is told to stop is needed by no
/// other service that should stop and still runs. Only what should not run is stopped, no
/// service changes its attempt, and the effects signal exactly what was told to stop, with
/// a kill where one was asked for.
pub proof fn stop_order_law(c: CatalogModel, st: Seq<RuntimeModel>)
    requires
        st.len() == c.services.len(),
        graph::acyclic(c.len(), c.ordering()),
    ensures
        ({
            let q = lifecycle::schedule_stops(c, st);
            &&& q.services.len() == st.len()
            &&& forall|i: int| 0 <= i < st.len() ==> halted(st[i], #[trigger] q.services[i])
            &&& forall|i: int|
                0 <= i < st.len() && st[i].desired == DesiredState::Active
                    ==> #[trigger] q.services[i] == st[i]
            &&& forall|i: int|
                0 <= i < st.len() ==> (#[trigger] q.services[i]).generation == st[i].generation
            &&& forall|i: int, j: int|
                #![trigger q.services[i], q.services[j]]
                0 <= i < st.len() && 0 <= j < st.len() && i != j && newly_stopping(
                    st[i],
                    q.services[i],
                ) && q.services[j].desired == DesiredState::Inactive && c.needs(j, i)
                    ==> q.services[j].at_rest()
            &&& stops_match(c, st, q.services, q.effects)
        }),
{
    let start = Stopped { services: st, effects: Seq::empty() };
    stop_from_keeps(c, st, start, 0);
    stop_from_ends(c, st, start, 0);
    let q = lifecycle::schedule_stops(c, st);
    assert forall|i: int, j: int|
        #![trigger q.services[i], q.services[j]]
        0 <= i < st.len() && 0 <= j < st.len() && i != j && newly_stopping(st[i], q.services[i])
            && q.services[j].desired == DesiredState::Inactive && c.needs(
            j,
            i,
        ) implies q.services[j].at_rest() by {
        assert(!lifecycle::has_stopping_dependent(c, q.services, i));
        blocks_unchanged(c, st, q.services, i);
        assert(halted(st[j], q.services[j]));
        assert(!st[j].lingers());
        if lifecycle::has_stopping_dependent(c, st, j) {
            let k = choose|k: int|
                0 <= k < c.services.len() && k != j && (#[trigger] st[k]).desired
                    == DesiredState::Inactive && st[k].lingers() && c.needs(k, j);
            if k == i {
                needs_acyclic(c, i, j);
            }
            needs_transitive(c, k, j, i);
        }
    }
    assert forall|i: int| 0 <= i < st.len() implies (#[trigger] q.services[i]).generation
        == st[i].generation by {
        assert(halted(st[i], q.services[i]));
    }
    assert forall|i: int|
        0 <= i < st.len() && st[i].desired == DesiredState::Active implies #[trigger] q.services[i]
        == st[i] by {
        assert(halted(st[i], q.services[i]));
    }
}

pub(crate) proof fn stop_from_sound(c: CatalogModel, base: Seq<RuntimeModel>, p: Stopped, i: nat)
    requires
        base.len() == c.services.len(),
        p.services.len() == c.services.len(),
        i <= c.services.len(),
        all_sound(p.services),
        exclusive(c, base) ==> exclusive(c, p.services),
    ensures
        all_sound(lifecycle::stop_from(c, p, i).services),
        exclusive(c, base) ==> exclusive(c, lifecycle::stop_from(c, p, i).services),
    decreases c.services.len() - i,
{
    if i < c.services.len() {
        let st = p.services;
        let q = lifecycle::stop_one(c, p, i as int);
        let after = q.services;
        assert(sound(st[i as int]));
        assert forall|k: int| 0 <= k < after.len() implies sound(#[trigger] after[k]) by {
            assert(sound(st[k]));
        }
        if exclusive(c, base) {
            assert forall|x: int, y: int|
                0 <= x < c.services.len() && 0 <= y < c.services.len() && x != y && !(
                #[trigger] after[x]).at_rest() && !(
                #[trigger] after[y]).at_rest() implies !lifecycle::conflicting(c, x, y) by {
                assert(!st[x].at_rest());
                assert(!st[y].at_rest());
            }
        }
        stop_from_sound(c, base, q, i + 1);
    }
}

proof fn stops_keep(c: CatalogModel, st: Seq<RuntimeModel>)
    requires
        st.len() == c.services.len(),
        all_sound(st),
    ensures
        stop_kept(c, st, lifecycle::schedule_stops(c, st)),
        all_sound(lifecycle::schedule_stops(c, st).services),
        exclusive(c, st) ==> exclusive(c, lifecycle::schedule_stops(c, st).services),
{
    let start = Stopped { services: st, effects: Seq::empty() };
    stop_from_keeps(c, st, start, 0);
    stop_from_sound(c, st, start, 0);
}

/// Whether a service should not run and still does.
pub open spec fn must_stop(r: RuntimeModel) -> bool {
    r.desired == DesiredState::Inactive && !r.at_rest()
}

/// One of the services among the first `n` that must stop and have a process, and that no
/// other of them needs.
proof fn unneeded_service(c: CatalogModel, st: Seq<RuntimeModel>, n: nat) -> (m: int)
    requires
        n <= st.len(),
        forall|i: int, j: int|
            0 <= i < st.len() && 0 <= j < st.len() && i != j && #[trigger] c.needs(i, j)
                ==> !c.needs(j, i),
        exists|i: int| 0 <= i < n && must_stop(#[trigger] st[i]) && st[i].has_process,
    ensures
        0 <= m < n,
        must_stop(st[m]) && st[m].has_process,
        forall|j: int|
            0 <= j < n && j != m && must_stop(#[trigger] st[j]) && st[j].has_process ==> !c.needs(
                j,
                m,
            ),
    decreases n,
{
    let last = n - 1;
    if exists|i: int| 0 <= i < n - 1 && must_stop(#[trigger] st[i]) && st[i].has_process {
        let m = unneeded_service(c, st, (n - 1) as nat);
        if must_stop(st[last]) && st[last].has_process && c.needs(last, m) {
            assert forall|j: int|
                0 <= j < n && j != last && must_stop(#[trigger] st[j])
                    && st[j].has_process implies !c.needs(j, last) by {
                if c.needs(j, last) {
                    if j != m {
                        needs_transitive(c, j, last, m);
                    }
                }
            }
            last
        } else {
            m
        }
    } else {
        let i = choose|i: int| 0 <= i < n && must_stop(#[trigger] st[i]) && st[i].has_process;
        assert(i == last);
        last
    }
}

proof fn stop_reaches(c: CatalogModel, base: Seq<RuntimeModel>, p: Stopped, i: nat, m: int)
    requires
        base.len() == c.services.len(),
        i <= c.services.len(),
        0 <= m < base.len(),
        must_stop(base[m]) && base[m].has_process,
        !lifecycle::has_stopping_dependent(c, base, m),
        stop_kept(c, base, p),
        forall|k: int| i <= k < base.len() ==> p.services[k] == base[k],
        m < i ==> p.services[m].observed == ObservedState::Stopping,
    ensures
        lifecycle::stop_from(c, p, i).services[m].observed == ObservedState::Stopping,
    decreases c.services.len() - i,
{
    if i < c.services.len() {
        let q = lifecycle::stop_one(c, p, i as int);
        stop_one_keeps(c, base, p, i as int);
        blocks_unchanged(c, base, p.services, m);
        stop_reaches(c, base, q, i + 1, m);
    }
}

/// Stopping always moves on: where something that must stop has a process, one such
/// service is on its way to stop, and where nothing of it has one, all of it has ended.
pub proof fn stop_progress_law(c: CatalogModel, st: Seq<RuntimeModel>)
    requires
        st.len() == c.services.len(),
        all_sound(st),
        graph::acyclic(c.len(), c.ordering()),
    ensures
        ({
            let q = lifecycle::schedule_stops(c, st).services;
            if exists|i: int| 0 <= i < st.len() && must_stop(#[trigger] st[i]) && st[i].has_process {
                exists|i: int|
                    0 <= i < st.len() && must_stop(#[trigger] st[i]) && q[i].observed
                        == ObservedState::Stopping
            } else {
                forall|i: int|
                    0 <= i < st.len() && must_stop(#[trigger] st[i]) ==> q[i].observed
                        == ObservedState::Inactive
            }
        }),
{
    let start = Stopped { services: st, effects: Seq::empty() };
    let q = lifecycle::schedule_stops(c, st).services;
    if exists|i: int| 0 <= i < st.len() && must_stop(#[trigger] st[i]) && st[i].has_process {
        assert forall|i: int, j: int|
            0 <= i < st.len() && 0 <= j < st.len() && i != j && #[trigger] c.needs(
                i,
                j,
            ) implies !c.needs(j, i) by {
            needs_acyclic(c, i, j);
        }
        let m = unneeded_service(c, st, st.len());
        if lifecycle::has_stopping_dependent(c, st, m) {
            let j = choose|j: int|
                0 <= j < c.services.len() && j != m && (#[trigger] st[j]).desired
                    == DesiredState::Inactive && st[j].lingers() && c.needs(j, m);
            assert(sound(st[j]));
            assert(must_stop(st[j]));
        }
        stop_reaches(c, st, start, 0, m);
        assert(must_stop(st[m]));
    } else {
        stop_from_ends(c, st, start, 0);
        assert forall|i: int| 0 <= i < st.len() && must_stop(#[trigger] st[i]) implies q[i].observed
            == ObservedState::Inactive by {
            assert(sound(st[i]));
            if lifecycle::has_stopping_dependent(c, st, i) {
                let j = choose|j: int|
                    0 <= j < c.services.len() && j != i && (#[trigger] st[j]).desired
                        == DesiredState::Inactive && st[j].lingers() && c.needs(j, i);
                assert(sound(st[j]));
                assert(must_stop(st[j]));
            }
        }
    }
}

/// Whether something that a service needs is not there for it.
pub open spec fn lacks(c: CatalogModel, st: Seq<RuntimeModel>, i: int) -> bool {
    exists|j: int| 0 <= j < c.services.len() && #[trigger] c.needs(i, j) && !st[j].serves()
}

/// What loss may make of a service: nothing, or, where it should run, the end of its
/// process, now or later, or failure where it has none.
pub open spec fn lost(before: RuntimeModel, after: RuntimeModel) -> bool {
    ||| after == before
    ||| {
        &&& before.desired == DesiredState::Active
        &&& after.blocked_by is Some
        &&& after.desired == before.desired
        &&& after.generation == before.generation
        &&& after.has_process == before.has_process
        &&& after.stop_signal == before.stop_signal
        &&& if before.has_process {
            after.observed == ObservedState::Stopping || after.observed == before.observed
        } else {
            after.observed == ObservedState::Failed
        }
    }
}

/// Whether every signal goes to a service that is stopping and that nothing that runs needs.
pub open spec fn yields_match(
    c: CatalogModel,
    after: Seq<RuntimeModel>,
    effects: Seq<EffectModel>,
) -> bool {
    forall|k: int|
        0 <= k < effects.len() ==> (#[trigger] effects[k] is Terminate ==> exists|i: int|
            0 <= i < after.len() && lifecycle::yielding(#[trigger] after[i])
                && !lifecycle::has_running_dependent(c, after, i) && effects[k] == stop_effect(
                c,
                after,
                i,
            ))
}

/// What loss has kept, from the states it began with on.
spec fn loss_kept(c: CatalogModel, base: Seq<RuntimeModel>, p: Stopped, n: int) -> bool {
    &&& p.services.len() == c.services.len()
    &&& all_sound(p.services)
    &&& exclusive(c, base) ==> exclusive(c, p.services)
    &&& forall|k: int| 0 <= k < base.len() ==> lost(base[k], #[trigger] p.services[k])
    &&& forall|k: int|
        0 <= k < base.len() && base[k].serves() && !(#[trigger] p.services[k]).serves() ==> lacks(
            c,
            base,
            k,
        )
    &&& forall|k: int|
        0 <= k < n && (#[trigger] p.services[k]).desired == DesiredState::Active
            && p.services[k].has_process && lacks(c, base, k) ==> p.services[k].blocked_by is Some
            && (p.services[k].observed == ObservedState::Stopping
            || lifecycle::has_running_dependent(c, base, k))
    &&& forall|k: int|
        0 <= k < base.len() && newly_stopping(base[k], #[trigger] p.services[k])
            ==> !lifecycle::has_running_dependent(c, base, k)
    &&& forall|k: int|
        0 <= k < n && !base[k].has_process && (#[trigger] p.services[k]).observed
            == ObservedState::Active && base[k].desired == DesiredState::Active ==> !lacks(
            c,
            base,
            k,
        )
    &&& forall|k: int|
        0 <= k < base.len() && !base[k].has_process && base[k].observed != ObservedState::Active
            && #[trigger] p.services[k] != base[k] ==> needs_failed(c, p.services, k)
    &&& yields_match(c, p.services, p.effects)
}

/// Whether something that a service needs has failed.
pub open spec fn needs_failed(c: CatalogModel, st: Seq<RuntimeModel>, i: int) -> bool {
    exists|j: int|
        0 <= j < c.services.len() && #[trigger] c.needs(i, j) && st[j].observed
            == ObservedState::Failed
}

/// Who needs a service and runs depends on the processes alone.
proof fn dependents_agree(c: CatalogModel, a: Seq<RuntimeModel>, b: Seq<RuntimeModel>, i: int)
    requires
        a.len() == c.services.len(),
        b.len() == c.services.len(),
        forall|k: int| 0 <= k < a.len() ==> (#[trigger] a[k]).has_process == b[k].has_process,
    ensures
        lifecycle::has_running_dependent(c, a, i) == lifecycle::has_running_dependent(c, b, i),
{
    if lifecycle::has_running_dependent(c, a, i) {
        let j = choose|j: int|
            0 <= j < c.services.len() && j != i && (#[trigger] a[j]).has_process && c.needs(j, i);
        assert(b[j].has_process);
    }
    if lifecycle::has_running_dependent(c, b, i) {
        let j = choose|j: int|
            0 <= j < c.services.len() && j != i && (#[trigger] b[j]).has_process && c.needs(j, i);
        assert(a[j].has_process);
    }
}

proof fn propagate_one_keeps(c: CatalogModel, base: Seq<RuntimeModel>, p: Stopped, i: int)
    requires
        base.len() == c.services.len(),
        0 <= i < c.services.len(),
        all_sound(base),
        p.services[i] == base[i],
        loss_kept(c, base, p, i),
    ensures
        loss_kept(c, base, lifecycle::propagate_one(c, p, i), i + 1),
{
    let st = p.services;
    let q = lifecycle::propagate_one(c, p, i);
    let after = q.services;
    let r = st[i];
    let unserved = |j: int| !st[j].serves();
    let failed = |j: int| st[j].observed == ObservedState::Failed;
    lifecycle::first_need_law(c, i, unserved, c.services.len());
    lifecycle::first_need_law(c, i, failed, c.services.len());
    assert(sound(base[i]));
    assert forall|k: int| 0 <= k < st.len() implies (#[trigger] st[k]).has_process
        == base[k].has_process by {
        assert(lost(base[k], st[k]));
    }
    dependents_agree(c, st, base, i);
    assert(lifecycle::unmet_need(c, st, i) is Some <==> lacks(c, base, i)) by {
        lacks_spreads(c, base, st, i);
        if lacks(c, base, i) {
            let j = choose|j: int|
                0 <= j < c.services.len() && #[trigger] c.needs(i, j) && !base[j].serves();
            assert(lost(base[j], st[j]));
            assert(c.needs(i, j) && unserved(j));
        }
        if let Some(j) = lifecycle::unmet_need(c, st, i) {
            assert(c.needs(i, j) && unserved(j));
            assert(lacks(c, st, i));
        }
    }
    assert(lifecycle::failed_need(c, st, i) is Some ==> lacks(c, base, i) && needs_failed(
        c,
        st,
        i,
    )) by {
        lacks_spreads(c, base, st, i);
        if let Some(j) = lifecycle::failed_need(c, st, i) {
            assert(c.needs(i, j) && failed(j));
            assert(lacks(c, st, i));
        }
    }
    assert forall|k: int| 0 <= k < after.len() implies sound(#[trigger] after[k]) by {
        assert(sound(st[k]));
    }
    if exclusive(c, base) {
        assert forall|x: int, y: int|
            0 <= x < c.services.len() && 0 <= y < c.services.len() && x != y && !(
            #[trigger] after[x]).at_rest() && !(
            #[trigger] after[y]).at_rest() implies !lifecycle::conflicting(c, x, y) by {
            assert(!st[x].at_rest());
            assert(!st[y].at_rest());
        }
    }
    assert forall|k: int| 0 <= k < base.len() implies lost(base[k], #[trigger] after[k]) by {
        assert(lost(base[k], st[k]));
    }
    assert forall|k: int|
        0 <= k < base.len() && base[k].serves() && !(
        #[trigger] after[k]).serves() implies lacks(c, base, k) by {
        if k != i {
            assert(after[k] == st[k]);
        }
    }
    assert forall|k: int|
        0 <= k < i + 1 && (#[trigger] after[k]).desired == DesiredState::Active
            && after[k].has_process && lacks(c, base, k) implies after[k].blocked_by is Some && (
    after[k].observed == ObservedState::Stopping || lifecycle::has_running_dependent(c, base, k))
        by {
        if k != i {
            assert(after[k] == st[k]);
        }
    }
    assert forall|k: int|
        0 <= k < base.len() && newly_stopping(
            base[k],
            #[trigger] after[k],
        ) implies !lifecycle::has_running_dependent(c, base, k) by {
        if k != i {
            assert(after[k] == st[k]);
        }
    }
    assert forall|k: int| #![trigger needs_failed(c, st, k)] needs_failed(
        c,
        st,
        k,
    ) implies needs_failed(c, after, k) by {
        let j = choose|j: int|
            0 <= j < c.services.len() && #[trigger] c.needs(k, j) && st[j].observed
                == ObservedState::Failed;
        assert(sound(st[j]));
        assert(after[j].observed == ObservedState::Failed);
        assert(c.needs(k, j));
    }
    assert forall|k: int|
        0 <= k < i + 1 && !base[k].has_process && (#[trigger] after[k]).observed
            == ObservedState::Active && base[k].desired == DesiredState::Active implies !lacks(
        c,
        base,
        k,
    ) by {
        if k != i {
            assert(after[k] == st[k]);
        }
    }
    assert forall|k: int|
        0 <= k < base.len() && !base[k].has_process && base[k].observed != ObservedState::Active
            && #[trigger] after[k] != base[k] implies needs_failed(c, after, k) by {
        if k != i {
            assert(after[k] == st[k]);
        }
        assert(needs_failed(c, st, k));
    }
    yield_effects(c, st, i, after[i], p.effects, q.effects);
}

/// What something lacks that is needed is lacked too.
proof fn lacks_spreads(c: CatalogModel, base: Seq<RuntimeModel>, st: Seq<RuntimeModel>, i: int)
    requires
        base.len() == c.services.len(),
        st.len() == c.services.len(),
        forall|k: int|
            0 <= k < base.len() && base[k].serves() && !(#[trigger] st[k]).serves() ==> lacks(
                c,
                base,
                k,
            ),
    ensures
        lacks(c, st, i) ==> lacks(c, base, i),
{
    if lacks(c, st, i) {
        let j = choose|j: int|
            0 <= j < c.services.len() && #[trigger] c.needs(i, j) && !st[j].serves();
        if base[j].serves() {
            assert(lacks(c, base, j));
            let m = choose|m: int|
                0 <= m < c.services.len() && #[trigger] c.needs(j, m) && !base[m].serves();
            needs_transitive(c, i, j, m);
        }
    }
}

proof fn yield_effects(
    c: CatalogModel,
    st: Seq<RuntimeModel>,
    i: int,
    r: RuntimeModel,
    effects: Seq<EffectModel>,
    all: Seq<EffectModel>,
)
    requires
        st.len() == c.services.len(),
        0 <= i < st.len(),
        yields_match(c, st, effects),
        r.has_process == st[i].has_process,
        ({
            ||| all == effects && (r == st[i] || !lifecycle::yielding(st[i]))
            ||| {
                &&& all == effects + lifecycle::stop_effects(
                    c.services[i],
                    r.generation,
                    r.stop_signal == StopSignal::Kill,
                )
                &&& lifecycle::yielding(r)
                &&& !lifecycle::yielding(st[i])
                &&& !lifecycle::has_running_dependent(c, st, i)
            }
        }),
    ensures
        yields_match(c, st.update(i, r), all),
{
    let after = st.update(i, r);
    assert forall|k: int| 0 <= k < all.len() && #[trigger] all[k] is Terminate implies exists|
        x: int,
    |
        0 <= x < after.len() && lifecycle::yielding(#[trigger] after[x])
            && !lifecycle::has_running_dependent(c, after, x) && all[k] == stop_effect(
            c,
            after,
            x,
        ) by {
        if k < effects.len() {
            assert(effects[k] == all[k]);
            let x = choose|x: int|
                0 <= x < st.len() && lifecycle::yielding(#[trigger] st[x])
                    && !lifecycle::has_running_dependent(c, st, x) && effects[k] == stop_effect(
                    c,
                    st,
                    x,
                );
            dependents_agree(c, st, after, x);
            assert(after[x] == st[x]);
        } else {
            dependents_agree(c, st, after, i);
            assert(lifecycle::yielding(after[i]));
        }
    }
}

proof fn propagate_from_keeps(c: CatalogModel, base: Seq<RuntimeModel>, p: Stopped, i: nat)
    requires
        base.len() == c.services.len(),
        i <= c.services.len(),
        all_sound(base),
        forall|k: int| i <= k < base.len() ==> p.services[k] == base[k],
        loss_kept(c, base, p, i as int),
    ensures
        loss_kept(c, base, lifecycle::propagate_from(c, p, i), c.services.len() as int),
    decreases c.services.len() - i,
{
    if i < c.services.len() {
        propagate_one_keeps(c, base, p, i as int);
        propagate_from_keeps(c, base, lifecycle::propagate_one(c, p, i as int), i + 1);
    }
}

proof fn propagate_keeps(c: CatalogModel, st: Seq<RuntimeModel>)
    requires
        st.len() == c.services.len(),
        all_sound(st),
    ensures
        loss_kept(c, st, lifecycle::propagate(c, st), st.len() as int),
{
    propagate_from_keeps(c, st, Stopped { services: st, effects: Seq::empty() }, 0);
}

/// Loss reaches everything that runs, dependants first: once it is handed on, whatever
/// should run and has a process while something that it needs is not there is held up, and
/// is on its way to stop unless something that runs needs it; a service is told to stop,
/// and gets a signal, only where nothing that runs needs it. What is active without a
/// process has failed where something that it needs is not there. Only services that should
/// run are touched.
pub proof fn loss_law(c: CatalogModel, st: Seq<RuntimeModel>)
    requires
        st.len() == c.services.len(),
        all_sound(st),
    ensures
        ({
            let p = lifecycle::propagate(c, st);
            let q = p.services;
            &&& q.len() == st.len()
            &&& forall|i: int| 0 <= i < st.len() ==> lost(st[i], #[trigger] q[i])
            &&& forall|i: int|
                0 <= i < st.len() && (#[trigger] q[i]).desired == DesiredState::Active
                    && q[i].has_process && lacks(c, q, i) ==> q[i].blocked_by is Some && (
                q[i].observed == ObservedState::Stopping || lifecycle::has_running_dependent(
                    c,
                    q,
                    i,
                ))
            &&& forall|i: int|
                0 <= i < st.len() && newly_stopping(st[i], #[trigger] q[i])
                    ==> !lifecycle::has_running_dependent(c, q, i)
            &&& forall|i: int|
                0 <= i < st.len() && st[i].desired == DesiredState::Active && !st[i].has_process
                    && st[i].observed == ObservedState::Active && lacks(c, q, i) ==> (
                #[trigger] q[i]).observed == ObservedState::Failed && q[i].blocked_by is Some
            &&& yields_match(c, q, p.effects)
        }),
{
    propagate_keeps(c, st);
    let q = lifecycle::propagate(c, st).services;
    assert forall|i: int| 0 <= i < st.len() implies (#[trigger] q[i]).has_process
        == st[i].has_process by {
        assert(lost(st[i], q[i]));
    }
    assert forall|i: int|
        0 <= i < st.len() && (#[trigger] q[i]).desired == DesiredState::Active && q[i].has_process
            && lacks(c, q, i) implies q[i].blocked_by is Some && (q[i].observed
        == ObservedState::Stopping || lifecycle::has_running_dependent(c, q, i)) by {
        lacks_spreads(c, st, q, i);
        dependents_agree(c, q, st, i);
    }
    assert forall|i: int|
        0 <= i < st.len() && newly_stopping(
            st[i],
            #[trigger] q[i],
        ) implies !lifecycle::has_running_dependent(c, q, i) by {
        dependents_agree(c, q, st, i);
    }
    assert forall|i: int|
        0 <= i < st.len() && st[i].desired == DesiredState::Active && !st[i].has_process
            && st[i].observed == ObservedState::Active && lacks(c, q, i) implies (
    #[trigger] q[i]).observed == ObservedState::Failed && q[i].blocked_by is Some by {
        lacks_spreads(c, st, q, i);
        assert(lost(st[i], q[i]));
    }
}

/// One of the services among the first `n` that have a process and need a service, or that
/// service itself, that no other one that has a process needs.
proof fn last_dependent(c: CatalogModel, st: Seq<RuntimeModel>, i: int, n: nat) -> (m: int)
    requires
        st.len() == c.services.len(),
        n <= st.len(),
        0 <= i < st.len(),
        st[i].has_process,
        graph::acyclic(c.len(), c.ordering()),
    ensures
        0 <= m < st.len(),
        st[m].has_process,
        m == i || c.needs(m, i),
        forall|j: int| 0 <= j < n && j != m && (#[trigger] st[j]).has_process ==> !c.needs(j, m),
    decreases n,
{
    if n == 0 {
        i
    } else {
        let m = last_dependent(c, st, i, (n - 1) as nat);
        let last = n - 1;
        if last != m && st[last].has_process && c.needs(last, m) {
            if m != i {
                needs_transitive(c, last, m, i);
            }
            assert forall|j: int| 0 <= j < n && j != last && (
            #[trigger] st[j]).has_process implies !c.needs(j, last) by {
                if c.needs(j, last) {
                    needs_transitive(c, j, last, m);
                    if j == m {
                        needs_acyclic(c, m, m);
                    }
                }
            }
            last
        } else {
            m
        }
    }
}

/// Loss always moves on: where a service that should run and has a process lacks something,
/// and everything that needs it should run too, one of these is on its way to stop.
pub proof fn loss_progress_law(c: CatalogModel, st: Seq<RuntimeModel>, i: int)
    requires
        st.len() == c.services.len(),
        all_sound(st),
        graph::acyclic(c.len(), c.ordering()),
        0 <= i < st.len(),
        st[i].has_process,
        lacks(c, st, i),
        st[i].desired == DesiredState::Active,
        forall|j: int|
            0 <= j < st.len() && #[trigger] c.needs(j, i) ==> st[j].desired
                == DesiredState::Active,
    ensures
        exists|m: int|
            0 <= m < st.len() && (m == i || c.needs(m, i)) && (#[trigger] lifecycle::propagate(
                c,
                st,
            ).services[m]).observed == ObservedState::Stopping,
{
    propagate_keeps(c, st);
    let q = lifecycle::propagate(c, st).services;
    let m = last_dependent(c, st, i, st.len());
    if m != i {
        let k = choose|k: int|
            0 <= k < c.services.len() && #[trigger] c.needs(i, k) && !st[k].serves();
        needs_transitive(c, m, i, k);
        assert(lacks(c, st, m));
    }
    assert(lost(st[m], q[m]));
    assert(!lifecycle::has_running_dependent(c, st, m));
    assert(q[m].observed == ObservedState::Stopping);
}

/// A service that only waits is left alone: loss changes a service that has no process and
/// is not active only where something that it needs has failed.
pub proof fn waiting_law(c: CatalogModel, st: Seq<RuntimeModel>, i: int)
    requires
        st.len() == c.services.len(),
        all_sound(st),
        0 <= i < st.len(),
        !st[i].has_process,
        st[i].observed != ObservedState::Active,
        lifecycle::propagate(c, st).services[i] != st[i],
    ensures
        needs_failed(c, lifecycle::propagate(c, st).services, i),
{
    propagate_keeps(c, st);
}

/// An event keeps the state of its service sound, and makes nothing run that was at
/// rest.
proof fn react_keeps(service: ServiceModel, r: RuntimeModel, event: EventModel)
    requires
        sound(r),
    ensures
        sound(lifecycle::react(service, r, event).service),
        r.at_rest() ==> lifecycle::react(service, r, event).service.at_rest(),
        lifecycle::react(service, r, event).service.desired == r.desired,
        lifecycle::react(service, r, event).service.generation == r.generation,
{
}

/// An event that belongs to another attempt than the one that its service is in, or to no
/// service, is discarded: nothing changes, and nothing is done.
pub proof fn stale_law(e: EngineModel, event: EventModel)
    requires
        lifecycle::position(e.snapshot.catalog, event.service()) matches Some(i)
            ==> e.services[i].generation != event.generation() || (!e.services[i].has_process
            && !(event is Timer)),
    ensures
        lifecycle::handle(e, event) == (lifecycle::Outcome { engine: e, effects: Seq::empty() }),
{
}

/// Whether a step between two engines with one configuration keeps the states sound,
/// keeps conflicting services apart, and keeps the bound on parallel starts.
pub open spec fn step_kept(e: EngineModel, after: EngineModel) -> bool {
    let n = e.services.len();
    &&& after.snapshot == e.snapshot
    &&& after.services.len() == n
    &&& all_sound(after.services)
    &&& exclusive(e.snapshot.catalog, e.services) ==> exclusive(
        e.snapshot.catalog,
        after.services,
    )
    &&& lifecycle::launching_count(e.services, n) <= e.snapshot.max_starting
        ==> lifecycle::launching_count(after.services, n) <= e.snapshot.max_starting
}

/// Whether every service that is starting with a process in the second state was so in
/// the first.
spec fn no_more_launching(a: Seq<RuntimeModel>, b: Seq<RuntimeModel>) -> bool {
    forall|i: int| 0 <= i < a.len() && (#[trigger] b[i]).launching() ==> a[i].launching()
}

proof fn launching_falls(a: Seq<RuntimeModel>, b: Seq<RuntimeModel>, n: nat)
    requires
        n <= a.len(),
        a.len() == b.len(),
        no_more_launching(a, b),
    ensures
        lifecycle::launching_count(b, n) <= lifecycle::launching_count(a, n),
    decreases n,
{
    if n > 0 {
        launching_falls(a, b, (n - 1) as nat);
    }
}

/// States in which nothing runs that did not are as exclusive, and start no more.
proof fn calmer(c: CatalogModel, a: Seq<RuntimeModel>, b: Seq<RuntimeModel>)
    requires
        a.len() == c.services.len(),
        b.len() == a.len(),
        forall|i: int| 0 <= i < a.len() && a[i].at_rest() ==> (#[trigger] b[i]).at_rest(),
        no_more_launching(a, b),
    ensures
        exclusive(c, a) ==> exclusive(c, b),
        lifecycle::launching_count(b, a.len()) <= lifecycle::launching_count(a, a.len()),
{
    launching_falls(a, b, a.len());
    if exclusive(c, a) {
        assert forall|i: int, j: int|
            0 <= i < c.services.len() && 0 <= j < c.services.len() && i != j && !(
            #[trigger] b[i]).at_rest() && !(
            #[trigger] b[j]).at_rest() implies !lifecycle::conflicting(c, i, j) by {
            assert(!a[i].at_rest());
            assert(!a[j].at_rest());
        }
    }
}

/// Stopping, after states in which nothing runs that did not, keeps what a step keeps.
proof fn stopping_step(e: EngineModel, st: Seq<RuntimeModel>)
    requires
        e.services.len() == e.snapshot.catalog.services.len(),
        st.len() == e.services.len(),
        all_sound(st),
        forall|i: int|
            0 <= i < st.len() && e.services[i].at_rest() ==> (#[trigger] st[i]).at_rest(),
        no_more_launching(e.services, st),
    ensures
        ({
            let q = lifecycle::schedule_stops(e.snapshot.catalog, st);
            &&& step_kept(e, EngineModel { services: q.services, ..e })
            &&& forall|i: int|
                0 <= i < st.len() && e.services[i].at_rest() ==> (
                #[trigger] q.services[i]).at_rest()
            &&& no_more_launching(e.services, q.services)
        }),
{
    let c = e.snapshot.catalog;
    calmer(c, e.services, st);
    stops_keep(c, st);
    let q = lifecycle::schedule_stops(c, st).services;
    assert forall|i: int| 0 <= i < st.len() && (#[trigger] q[i]).launching() implies st[i].launching()
        && e.services[i].launching() by {
        assert(halted(st[i], q[i]));
    }
    assert forall|i: int| 0 <= i < st.len() && e.services[i].at_rest() implies (
    #[trigger] q[i]).at_rest() by {
        assert(st[i].at_rest());
        assert(sound(st[i]));
        assert(halted(st[i], q[i]));
    }
    calmer(c, st, q);
}

/// Scheduling, after states in which nothing runs that did not, keeps what a step keeps.
proof fn scheduling_step(e: EngineModel, st: Seq<RuntimeModel>, now_ms: u64)
    requires
        e.services.len() == e.snapshot.catalog.services.len(),
        st.len() == e.services.len(),
        all_sound(st),
        forall|i: int|
            0 <= i < st.len() && e.services[i].at_rest() ==> (#[trigger] st[i]).at_rest(),
        no_more_launching(e.services, st),
    ensures
        step_kept(
            e,
            EngineModel {
                services: lifecycle::schedule(e.snapshot, st, now_ms).services,
                ..e
            },
        ),
{
    calmer(e.snapshot.catalog, e.services, st);
    schedule_keeps(e.snapshot, st, now_ms);
}

/// A request to start a node keeps what a step keeps.
pub proof fn start_keeps(e: EngineModel, node: int, now_ms: u64)
    requires
        e.consistent(),
        all_sound(e.services),
    ensures
        step_kept(e, lifecycle::start(e, node, now_ms).engine),
{
    let c = e.snapshot.catalog;
    let st = Seq::new(
        c.services.len(),
        |i: int|
            if c.activates(node, i) {
                lifecycle::requested(e.services[i], now_ms)
            } else {
                e.services[i]
            },
    );
    assert forall|i: int| 0 <= i < st.len() implies sound(#[trigger] st[i]) by {
        assert(sound(e.services[i]));
    }
    scheduling_step(e, st, now_ms);
}

/// A request to stop a node keeps what a step keeps.
pub proof fn stop_keeps(e: EngineModel, node: int, force: bool)
    requires
        e.consistent(),
        all_sound(e.services),
    ensures
        step_kept(e, lifecycle::stop(e, node, force).engine),
{
    let st = lifecycle::dismissed_all(e.snapshot.catalog, e.services, node, force);
    assert forall|i: int| 0 <= i < st.len() implies sound(#[trigger] st[i]) by {
        assert(sound(e.services[i]));
    }
    stopping_step(e, st);
}

/// A request to stop everything keeps what a step keeps, and leaves nothing that should
/// run.
pub proof fn stop_all_keeps(e: EngineModel)
    requires
        e.consistent(),
        all_sound(e.services),
    ensures
        step_kept(e, lifecycle::stop_all(e).engine),
        forall|i: int|
            0 <= i < e.services.len() ==> (
            #[trigger] lifecycle::stop_all(e).engine.services[i]).desired
                == DesiredState::Inactive,
{
    let st = Seq::new(
        e.snapshot.catalog.services.len(),
        |i: int|
            RuntimeModel {
                desired: DesiredState::Inactive,
                restart_blocked: false,
                waiting_restart: false,
                blocked_by: None,
                ..e.services[i]
            },
    );
    assert forall|i: int| 0 <= i < st.len() implies sound(#[trigger] st[i]) by {
        assert(sound(e.services[i]));
    }
    stopping_step(e, st);
    stops_keep(e.snapshot.catalog, st);
    let q = lifecycle::stop_all(e).engine.services;
    assert forall|i: int| 0 <= i < e.services.len() implies (#[trigger] q[i]).desired
        == DesiredState::Inactive by {
        assert(halted(st[i], q[i]));
    }
}

/// A request to restart a service keeps what a step keeps; a service that has a process
/// is stopped first, and gets no new attempt before that.
pub proof fn restart_keeps(e: EngineModel, i: int, now_ms: u64)
    requires
        e.consistent(),
        all_sound(e.services),
        0 <= i < e.services.len(),
    ensures
        step_kept(e, lifecycle::restart(e, i, now_ms).engine),
        e.services[i].has_process ==> {
            let r = lifecycle::restart(e, i, now_ms).engine.services[i];
            r.observed == ObservedState::Stopping && r.generation == e.services[i].generation
        },
{
    assert(sound(e.services[i]));
    let asked = RuntimeModel {
        desired: DesiredState::Active,
        queued_at_ms: Some(now_ms),
        restart_blocked: false,
        blocked_by: None,
        ..e.services[i]
    };
    if asked.has_process {
        let q = lifecycle::restart(e, i, now_ms).engine.services;
        assert forall|k: int| 0 <= k < q.len() implies sound(#[trigger] q[k]) by {
            assert(sound(e.services[k]));
        }
        calmer(e.snapshot.catalog, e.services, q);
    } else {
        let st = e.services.update(
            i,
            RuntimeModel { observed: ObservedState::Inactive, ..asked },
        );
        assert forall|k: int| 0 <= k < st.len() implies sound(#[trigger] st[k]) by {
            assert(sound(e.services[k]));
        }
        scheduling_step(e, st, now_ms);
    }
}

/// Clearing a failure keeps what a step keeps.
pub proof fn reset_keeps(e: EngineModel, i: int)
    requires
        e.consistent(),
        all_sound(e.services),
        0 <= i < e.services.len(),
    ensures
        step_kept(
            e,
            EngineModel {
                services: e.services.update(i, lifecycle::cleared(e.services[i])),
                ..e
            },
        ),
{
    let st = e.services.update(i, lifecycle::cleared(e.services[i]));
    assert forall|k: int| 0 <= k < st.len() implies sound(#[trigger] st[k]) by {
        assert(sound(e.services[k]));
    }
    calmer(e.snapshot.catalog, e.services, st);
}

proof fn settle_keeps(e: EngineModel, st: Seq<RuntimeModel>, now_ms: u64)
    requires
        e.services.len() == e.snapshot.catalog.services.len(),
        st.len() == e.services.len(),
        all_sound(st),
        forall|i: int|
            0 <= i < st.len() && e.services[i].at_rest() ==> (#[trigger] st[i]).at_rest(),
        no_more_launching(e.services, st),
    ensures
        step_kept(e, lifecycle::settle(EngineModel { services: st, ..e }, now_ms).engine),
{
    stopping_step(e, st);
    scheduling_step(e, lifecycle::schedule_stops(e.snapshot.catalog, st).services, now_ms);
}

/// Reconciliation with the default group keeps what a step keeps.
pub proof fn reconcile_keeps(e: EngineModel, now_ms: u64)
    requires
        e.consistent(),
        all_sound(e.services),
    ensures
        step_kept(e, lifecycle::reconcile_default(e, now_ms).engine),
{
    let st = lifecycle::reconciled_all(e.snapshot, e.services, now_ms);
    assert forall|i: int| 0 <= i < st.len() implies sound(#[trigger] st[i]) by {
        assert(sound(e.services[i]));
    }
    settle_keeps(e, st, now_ms);
}

/// The states of an engine with a new configuration are sound.
proof fn installed_sound(e: EngineModel, new: SnapshotModel, marks: Seq<bool>)
    requires
        e.consistent(),
        new.valid(),
        all_sound(e.services),
    ensures
        all_sound(lifecycle::installed(e, new, marks).services),
        lifecycle::installed(e, new, marks).consistent(),
{
    let st = lifecycle::installed(e, new, marks).services;
    assert forall|k: int| 0 <= k < st.len() implies sound(#[trigger] st[k]) by {
        match lifecycle::position(e.snapshot.catalog, new.catalog.services[k].id) {
            None => {},
            Some(i) => {
                assert(sound(e.services[i]));
            },
        }
    }
}

/// Every event keeps the states sound; where no configuration waits it keeps what a step
/// keeps.
pub proof fn handle_keeps(e: EngineModel, event: EventModel)
    requires
        e.consistent(),
        all_sound(e.services),
    ensures
        all_sound(lifecycle::handle(e, event).engine.services),
        e.pending is None ==> step_kept(e, lifecycle::handle(e, event).engine),
{
    let c = e.snapshot.catalog;
    let st = lifecycle::reacted(e, event).services;
    assert forall|k: int| 0 <= k < st.len() implies sound(#[trigger] st[k]) && (
    e.services[k].at_rest() ==> st[k].at_rest()) && (st[k].launching()
        ==> e.services[k].launching()) by {
        assert(sound(e.services[k]));
        react_keeps(c.services[k], e.services[k], event);
    }
    propagate_keeps(c, st);
    let more = lifecycle::propagate(c, st).services;
    assert forall|k: int|
        0 <= k < more.len() && e.services[k].at_rest() implies (#[trigger] more[k]).at_rest() by {
        assert(st[k].at_rest());
        assert(sound(st[k]));
        assert(lost(st[k], more[k]));
    }
    assert forall|k: int| 0 <= k < more.len() && (#[trigger] more[k]).launching() implies e.services[k].launching() by {
        assert(lost(st[k], more[k]));
        assert(st[k].launching());
    }
    settle_keeps(e, more, event.at_ms());
    let now = event.at_ms();
    let settled = lifecycle::settle(EngineModel { services: more, ..e }, now).engine;
    assert(settled.consistent());
    if let Some(pending) = e.pending {
        if lifecycle::drained(settled.services, pending.affected) {
            installed_sound(settled, pending.snapshot, pending.affected);
            reconcile_keeps(
                lifecycle::installed(settled, pending.snapshot, pending.affected),
                now,
            );
        }
    }
}

/// An engine in which no service was started is sound and exclusive.
pub proof fn initial_law(e: EngineModel)
    requires
        e.consistent(),
        forall|i: int| 0 <= i < e.services.len() ==> #[trigger] e.services[i] == lifecycle::fresh(),
    ensures
        all_sound(e.services),
        exclusive(e.snapshot.catalog, e.services),
        lifecycle::launching_count(e.services, e.services.len()) == 0,
{
    assert(all_sound(e.services)) by {
        assert forall|i: int| 0 <= i < e.services.len() implies sound(#[trigger] e.services[i]) by {
            assert(e.services[i] == lifecycle::fresh());
        }
    }
    assert forall|i: int, j: int|
        0 <= i < e.snapshot.catalog.services.len() && 0 <= j < e.snapshot.catalog.services.len()
            && i != j && !(#[trigger] e.services[i]).at_rest() && !(
        #[trigger] e.services[j]).at_rest() implies !lifecycle::conflicting(
        e.snapshot.catalog,
        i,
        j,
    ) by {
        assert(e.services[i] == lifecycle::fresh());
    }
    nothing_launching(e.services, e.services.len());
}

proof fn nothing_launching(st: Seq<RuntimeModel>, n: nat)
    requires
        n <= st.len(),
        forall|i: int| 0 <= i < st.len() ==> #[trigger] st[i] == lifecycle::fresh(),
    ensures
        lifecycle::launching_count(st, n) == 0,
    decreases n,
{
    if n > 0 {
        nothing_launching(st, (n - 1) as nat);
        assert(st[n - 1] == lifecycle::fresh());
    }
}

/// Whether a service is in the same attempt, in the same state.
pub open spec fn undisturbed(before: RuntimeModel, after: RuntimeModel) -> bool {
    &&& after.observed == before.observed
    &&& after.generation == before.generation
    &&& after.has_process == before.has_process
    &&& after.desired == before.desired
}

/// A service with a process that the default group activates is left alone by
/// reconciliation.
proof fn reconcile_spares(e: EngineModel, now_ms: u64, k: int)
    requires
        e.consistent(),
        all_sound(e.services),
        0 <= k < e.services.len(),
        e.services[k].has_process,
        e.services[k].desired == DesiredState::Active,
        e.snapshot.catalog.activates(e.snapshot.catalog.node(e.snapshot.default_group), k),
    ensures
        undisturbed(
            e.services[k],
            lifecycle::reconcile_default(e, now_ms).engine.services[k],
        ),
{
    let st = lifecycle::reconciled_all(e.snapshot, e.services, now_ms);
    assert forall|i: int| 0 <= i < st.len() implies sound(#[trigger] st[i]) by {
        assert(sound(e.services[i]));
    }
    stops_keep(e.snapshot.catalog, st);
    let calm = lifecycle::schedule_stops(e.snapshot.catalog, st).services;
    assert(halted(st[k], calm[k]));
    attempt_law(e.snapshot, calm, now_ms);
    assert(scheduled(calm[k], lifecycle::schedule(e.snapshot, calm, now_ms).services[k]));
}

/// The states right after a new configuration is handed in, before any service is
/// stopped for it.
spec fn withdrawn_all(e: EngineModel, marks: Seq<bool>) -> Seq<RuntimeModel> {
    Seq::new(
        e.services.len(),
        |i: int|
            if marks[i] {
                lifecycle::withdrawn(e.services[i])
            } else {
                e.services[i]
            },
    )
}

/// A new configuration is taken as a whole: either it is installed and everything that
/// it affects is without a process, or the old one stays, the new one waits, and
/// everything that it affects is to stop. A service that runs and is not affected is
/// left alone, unless it is no longer enabled.
pub proof fn apply_law(e: EngineModel, new: SnapshotModel, now_ms: u64)
    requires
        e.consistent(),
        new.valid(),
        all_sound(e.services),
    ensures
        ({
            let after = lifecycle::apply_snapshot(e, new, now_ms).engine;
            let marks = lifecycle::affected(e.snapshot, new);
            &&& all_sound(after.services)
            &&& match after.pending {
                None => {
                    &&& after.snapshot == new
                    &&& forall|i: int|
                        #![trigger e.services[i]]
                        0 <= i < e.services.len() && e.services[i].has_process
                            && e.services[i].desired == DesiredState::Active && !marks[i]
                            && lifecycle::enabled(new, e.snapshot.catalog.services[i].id) ==> (
                        lifecycle::position(
                            new.catalog,
                            e.snapshot.catalog.services[i].id,
                        ) matches Some(k) && undisturbed(e.services[i], after.services[k]))
                    &&& forall|i: int|
                        #![trigger marks[i]]
                        0 <= i < e.services.len() && marks[i] ==> !e.services[i].has_process
                },
                Some(pending) => {
                    &&& after.snapshot == e.snapshot
                    &&& pending.snapshot == new
                    &&& pending.affected == marks
                    &&& after.services.len() == e.services.len()
                    &&& forall|i: int|
                        #![trigger after.services[i]]
                        0 <= i < e.services.len() ==> {
                            &&& after.services[i].generation == e.services[i].generation
                            &&& marks[i] ==> after.services[i].desired == DesiredState::Inactive
                            &&& !marks[i] && e.services[i].desired == DesiredState::Active
                                ==> after.services[i] == e.services[i]
                        }
                },
            }
        }),
{
    let marks = lifecycle::affected(e.snapshot, new);
    let after = lifecycle::apply_snapshot(e, new, now_ms).engine;
    if forall|i: int| 0 <= i < marks.len() ==> !#[trigger] marks[i] {
        installed_sound(e, new, marks);
        let base = lifecycle::installed(e, new, marks);
        reconcile_keeps(base, now_ms);
        assert forall|i: int|
            #![trigger e.services[i]]
            0 <= i < e.services.len() && e.services[i].has_process && e.services[i].desired
                == DesiredState::Active && !marks[i] && lifecycle::enabled(
                new,
                e.snapshot.catalog.services[i].id,
            ) implies (lifecycle::position(
            new.catalog,
            e.snapshot.catalog.services[i].id,
        ) matches Some(k) && undisturbed(e.services[i], after.services[k])) by {
            carried_over(e, new, marks, i);
            let k = lifecycle::position(new.catalog, e.snapshot.catalog.services[i].id)->0;
            reconcile_spares(base, now_ms, k);
        }
    } else {
        let st = withdrawn_all(e, marks);
        assert forall|i: int| 0 <= i < st.len() implies sound(#[trigger] st[i]) by {
            assert(sound(e.services[i]));
        }
        stops_keep(e.snapshot.catalog, st);
        let stopped = lifecycle::schedule_stops(e.snapshot.catalog, st);
        let waiting = EngineModel {
            snapshot: e.snapshot,
            services: stopped.services,
            pending: Some(lifecycle::PendingModel { snapshot: new, affected: marks }),
        };
        assert(waiting.consistent());
        assert forall|i: int| 0 <= i < st.len() implies halted(
            st[i],
            #[trigger] waiting.services[i],
        ) by {}
        if lifecycle::drained(waiting.services, marks) {
            installed_sound(waiting, new, marks);
            let base = lifecycle::installed(waiting, new, marks);
            reconcile_keeps(base, now_ms);
            assert forall|i: int|
                #![trigger e.services[i]]
                0 <= i < e.services.len() && e.services[i].has_process && e.services[i].desired
                    == DesiredState::Active && !marks[i] && lifecycle::enabled(
                    new,
                    e.snapshot.catalog.services[i].id,
                ) implies (lifecycle::position(
                new.catalog,
                e.snapshot.catalog.services[i].id,
            ) matches Some(k) && undisturbed(e.services[i], after.services[k])) by {
                assert(halted(st[i], waiting.services[i]));
                assert(waiting.services[i] == e.services[i]);
                carried_over(waiting, new, marks, i);
                let k = lifecycle::position(new.catalog, e.snapshot.catalog.services[i].id)->0;
                reconcile_spares(base, now_ms, k);
            }
            assert forall|i: int|
                #![trigger marks[i]]
                0 <= i < e.services.len() && marks[i] implies !e.services[i].has_process by {
                assert(halted(st[i], waiting.services[i]));
            }
        } else {
            assert forall|i: int|
                #![trigger after.services[i]]
                0 <= i < e.services.len() implies {
                &&& after.services[i].generation == e.services[i].generation
                &&& marks[i] ==> after.services[i].desired == DesiredState::Inactive
                &&& !marks[i] && e.services[i].desired == DesiredState::Active
                    ==> after.services[i] == e.services[i]
            } by {
                assert(halted(st[i], waiting.services[i]));
            }
        }
    }
}

/// A service that is not affected is carried over into a new configuration.
proof fn carried_over(e: EngineModel, new: SnapshotModel, marks: Seq<bool>, i: int)
    requires
        e.consistent(),
        new.valid(),
        0 <= i < e.services.len(),
        !marks[i],
        lifecycle::enabled(new, e.snapshot.catalog.services[i].id),
    ensures
        lifecycle::position(new.catalog, e.snapshot.catalog.services[i].id) matches Some(k) && 0
            <= k < new.catalog.services.len() && lifecycle::installed(
            e,
            new,
            marks,
        ).services[k] == e.services[i] && new.catalog.activates(
            new.catalog.node(new.default_group),
            k,
        ),
{
    lifecycle::position_unique(e.snapshot.catalog, i);
}

/// What a list of kept names holds.
pub proof fn kept_law(ids: Seq<Seq<char>>, holds: spec_fn(Seq<char>) -> bool, n: nat)
    requires
        n <= ids.len(),
        catalog::ascending(ids),
    ensures
        forall|id: Seq<char>| #[trigger]
            lifecycle::kept(ids, holds, n).contains(id) <==> holds(id) && ids.take(
                n as int,
            ).contains(id),
        catalog::ascending(lifecycle::kept(ids, holds, n)),
    decreases n,
{
    let list = lifecycle::kept(ids, holds, n);
    if n > 0 {
        kept_law(ids, holds, (n - 1) as nat);
        let shorter = lifecycle::kept(ids, holds, (n - 1) as nat);
        let head = ids.take(n - 1);
        let next = ids.take(n as int);
        let x = ids[n - 1];
        assert(next =~= head.push(x));
        assert forall|id: Seq<char>| #[trigger] list.contains(id) <==> holds(id) && next.contains(
            id,
        ) by {
            push_contains(head, x, id);
            if holds(x) {
                push_contains(shorter, x, id);
            }
        }
        if holds(x) {
            assert forall|i: int, j: int| 0 <= i < j < list.len() implies text::text_less(
                list[i],
                list[j],
            ) by {
                if j == shorter.len() {
                    assert(list[i] == shorter[i]);
                    assert(shorter.contains(shorter[i]));
                    let q = choose|q: int| 0 <= q < head.len() && head[q] == shorter[i];
                    assert(ids[q] == list[i]);
                    assert(text::text_less(ids[q], ids[n - 1]));
                } else {
                    assert(list[i] == shorter[i] && list[j] == shorter[j]);
                }
            }
        }
    }
}

proof fn push_contains(s: Seq<Seq<char>>, x: Seq<char>, id: Seq<char>)
    ensures
        s.push(x).contains(id) <==> s.contains(id) || id == x,
{
    let t = s.push(x);
    if s.contains(id) {
        let k = choose|k: int| 0 <= k < s.len() && s[k] == id;
        assert(t[k] == id);
    }
    assert(t[s.len() as int] == x);
    if t.contains(id) && id != x {
        let k = choose|k: int| 0 <= k < t.len() && t[k] == id;
        assert(s[k] == id);
    }
}

/// A plan lists each service where it belongs, in ascending order and once: what is
/// stopped for good, what is started, and, apart from both, what is stopped and started
/// again; it removes exactly the services that the new configuration lacks.
pub proof fn plan_law(e: EngineModel, new: SnapshotModel, id: Seq<char>)
    requires
        e.consistent(),
        new.valid(),
    ensures
        ({
            let plan = lifecycle::plan(e, new);
            let stops = lifecycle::plans_stop(e, new, id);
            let starts = lifecycle::plans_start(e, new, id);
            let known = lifecycle::position(e.snapshot.catalog, id) is Some;
            let kept_on = lifecycle::position(new.catalog, id) is Some;
            &&& plan.start.contains(id) <==> starts && !stops
            &&& plan.stop.contains(id) <==> stops && !starts
            &&& plan.restart.contains(id) <==> stops && starts
            &&& plan.update.contains(id) <==> lifecycle::plans_update(e, new, id)
            &&& plan.remove.contains(id) <==> known && !kept_on
            &&& catalog::ascending(plan.start)
            &&& catalog::ascending(plan.stop)
            &&& catalog::ascending(plan.restart)
            &&& catalog::ascending(plan.update)
            &&& catalog::ascending(plan.remove)
        }),
{
    let ids = lifecycle::planned_ids(e, new);
    let a = catalog::service_ids(e.snapshot.catalog.services);
    let b = catalog::service_ids(new.catalog.services);
    let n = ids.len();
    lifecycle::merged_law(a, b);
    assert(ids.take(n as int) =~= ids);
    kept_law(
        ids,
        |id: Seq<char>|
            lifecycle::plans_start(e, new, id) && !lifecycle::plans_stop(e, new, id),
        n,
    );
    kept_law(
        ids,
        |id: Seq<char>|
            lifecycle::plans_stop(e, new, id) && !lifecycle::plans_start(e, new, id),
        n,
    );
    kept_law(
        ids,
        |id: Seq<char>|
            lifecycle::plans_stop(e, new, id) && lifecycle::plans_start(e, new, id),
        n,
    );
    kept_law(ids, |id: Seq<char>| lifecycle::plans_update(e, new, id), n);
    kept_law(ids, |id: Seq<char>| lifecycle::position(new.catalog, id) is None, n);
    named_position(e.snapshot.catalog, id);
    named_position(new.catalog, id);
}

/// A service has a position exactly where its name is listed.
proof fn named_position(c: CatalogModel, id: Seq<char>)
    ensures
        catalog::service_ids(c.services).contains(id) <==> lifecycle::position(c, id) is Some,
{
    let ids = catalog::service_ids(c.services);
    if ids.contains(id) {
        let k = choose|k: int| 0 <= k < ids.len() && ids[k] == id;
        assert(c.services[k].id == id);
    }
    if lifecycle::position(c, id) is Some {
        let k = choose|k: int| 0 <= k < c.services.len() && (#[trigger] c.services[k]).id == id;
        assert(ids[k] == id);
    }
}

/// A plan tells what an application does: a service that should run and has a process is
/// left alone, now and until the new configuration is installed, unless the plan stops
/// or restarts it.
pub proof fn plan_parity_law(e: EngineModel, new: SnapshotModel, i: int, now_ms: u64)
    requires
        e.consistent(),
        new.valid(),
        all_sound(e.services),
        0 <= i < e.services.len(),
        e.services[i].has_process,
        e.services[i].desired == DesiredState::Active,
        !lifecycle::plan(e, new).stop.contains(e.snapshot.catalog.services[i].id),
        !lifecycle::plan(e, new).restart.contains(e.snapshot.catalog.services[i].id),
    ensures
        ({
            let id = e.snapshot.catalog.services[i].id;
            let after = lifecycle::apply_snapshot(e, new, now_ms).engine;
            lifecycle::position(after.snapshot.catalog, id) matches Some(k) && undisturbed(
                e.services[i],
                after.services[k],
            )
        }),
{
    let id = e.snapshot.catalog.services[i].id;
    plan_law(e, new, id);
    lifecycle::position_unique(e.snapshot.catalog, i);
    assert(sound(e.services[i]));
    assert(lifecycle::running(e, id));
    let marks = lifecycle::affected(e.snapshot, new);
    assert(!marks[i]);
    apply_law(e, new, now_ms);
    let after = lifecycle::apply_snapshot(e, new, now_ms).engine;
    assert(after.pending is Some ==> after.services[i] == e.services[i]);
}

/// A forced stop begins with a kill: whatever it covers and is stopping is killed, and
/// gets no other signal.
pub proof fn force_law(e: EngineModel, node: int, i: int)
    requires
        e.consistent(),
        all_sound(e.services),
        0 <= i < e.services.len(),
        lifecycle::stop_covers(e.snapshot.catalog, node, i),
    ensures
        ({
            let c = e.snapshot.catalog;
            let q = lifecycle::stop(e, node, true);
            let st = q.engine.services;
            &&& st[i].observed == ObservedState::Stopping ==> q.effects.contains(
                lifecycle::kill_effect(c, st, i),
            )
            &&& forall|k: int|
                0 <= k < q.effects.len() ==> (#[trigger] q.effects[k] matches EffectModel::Terminate {
                    service,
                    force,
                    ..
                } ==> service == c.services[i].id ==> force)
        }),
{
    let c = e.snapshot.catalog;
    let st = lifecycle::dismissed_all(c, e.services, node, true);
    assert forall|k: int| 0 <= k < st.len() implies sound(#[trigger] st[k]) by {
        assert(sound(e.services[k]));
    }
    stops_keep(c, st);
    let stopped = lifecycle::schedule_stops(c, st);
    let n = c.services.len();
    kills_law(c, stopped.services, stopped.effects, n);
    let all = lifecycle::with_kills(c, stopped.services, stopped.effects, n);
    assert(halted(st[i], stopped.services[i]));
    assert forall|k: int| 0 <= k < all.len() implies (
    #[trigger] all[k] matches EffectModel::Terminate { service, force, .. } ==> service
        == c.services[i].id ==> force) by {
        if let EffectModel::Terminate { service, force, .. } = all[k] {
            if service == c.services[i].id && !force {
                assert(stopped.effects.contains(all[k]));
                let x = choose|x: int|
                    0 <= x < stopped.effects.len() && stopped.effects[x] == all[k];
                assert(stopped.effects[x] is Terminate);
                let m = choose|m: int|
                    0 <= m < stopped.services.len() && newly_stopping(
                        st[m],
                        #[trigger] stopped.services[m],
                    ) && stopped.effects[x] == stop_effect(c, stopped.services, m);
                lifecycle::position_unique(c, i);
                lifecycle::position_unique(c, m);
                assert(m == i);
            }
        }
    }
}

/// What the effects hold once the kills were added.
proof fn kills_law(c: CatalogModel, st: Seq<RuntimeModel>, effects: Seq<EffectModel>, n: nat)
    requires
        n <= st.len(),
    ensures
        ({
            let all = lifecycle::with_kills(c, st, effects, n);
            &&& forall|i: int|
                0 <= i < n && (#[trigger] st[i]).observed == ObservedState::Stopping
                    && st[i].stop_signal == StopSignal::Kill ==> all.contains(
                    lifecycle::kill_effect(c, st, i),
                )
            &&& forall|k: int|
                0 <= k < all.len() ==> effects.contains(#[trigger] all[k]) || (
                all[k] matches EffectModel::Terminate { force, .. } && force)
        }),
    decreases n,
{
    let all = lifecycle::with_kills(c, st, effects, n);
    if n == 0 {
        assert forall|k: int| 0 <= k < all.len() implies effects.contains(#[trigger] all[k]) by {}
    } else {
        kills_law(c, st, effects, (n - 1) as nat);
        let before = lifecycle::with_kills(c, st, effects, (n - 1) as nat);
        let kill = lifecycle::kill_effect(c, st, n - 1);
        assert forall|e: EffectModel| #[trigger] before.contains(e) implies all.contains(e) by {
            let k = choose|k: int| 0 <= k < before.len() && before[k] == e;
            assert(all[k] == e);
        }
        assert forall|i: int|
            0 <= i < n && (#[trigger] st[i]).observed == ObservedState::Stopping
                && st[i].stop_signal == StopSignal::Kill implies all.contains(
            lifecycle::kill_effect(c, st, i),
        ) by {
            if i == n - 1 && !before.contains(kill) {
                assert(all[before.len() as int] == kill);
            }
        }
        assert forall|k: int| 0 <= k < all.len() implies effects.contains(#[trigger] all[k]) || (
        all[k] matches EffectModel::Terminate { force, .. } && force) by {
            if k < before.len() {
                assert(all[k] == before[k]);
            }
        }
    }
}

/// A service that should not run is not restarted: no event makes it wait for a restart
/// or sets a restart timer for it.
pub proof fn stopped_stays_law(service: ServiceModel, r: RuntimeModel, event: EventModel)
    requires
        r.desired == DesiredState::Inactive,
        !r.waiting_restart,
    ensures
        ({
            let step = lifecycle::react(service, r, event);
            &&& !step.service.waiting_restart
            &&& step.service.desired == DesiredState::Inactive
            &&& forall|k: int|
                0 <= k < step.effects.len() ==> !(
                #[trigger] step.effects[k] matches EffectModel::ArmTimer { kind, .. } && kind
                    == TimerKind::Restart)
        }),
{
}

/// Whether times ascend and none is later than a bound.
pub open spec fn ascending_times(times: Seq<u64>, bound: u64) -> bool {
    &&& forall|i: int, j: int| 0 <= i < j < times.len() ==> times[i] <= times[j]
    &&& forall|i: int| 0 <= i < times.len() ==> #[trigger] times[i] <= bound
}

proof fn recent_law(times: Seq<u64>, start: u64, bound: u64)
    requires
        ascending_times(times, bound),
    ensures
        ascending_times(lifecycle::recent(times, start), bound),
        forall|i: int|
            0 <= i < lifecycle::recent(times, start).len() ==> start <= #[trigger] lifecycle::recent(
                times,
                start,
            )[i],
    decreases times.len(),
{
    if times.len() > 0 && times[0] < start {
        let rest = times.drop_first();
        assert forall|i: int, j: int| 0 <= i < j < rest.len() implies rest[i] <= rest[j] by {
            assert(times[i + 1] <= times[j + 1]);
        }
        assert forall|i: int| 0 <= i < rest.len() implies #[trigger] rest[i] <= bound by {
            assert(times[i + 1] <= bound);
        }
        recent_law(rest, start, bound);
    } else {
        assert forall|i: int| 0 <= i < times.len() implies start <= #[trigger] times[i] by {
            assert(times[0] <= times[i]);
        }
    }
}

/// A service is restarted at most as often as its limit within its window: the restarts
/// that are remembered after another one are no more than the limit, and all of them lie
/// within the window that ends with it.
pub proof fn restart_window_law(r: RuntimeModel, s: Supervision, outcome: ExitOutcome, at_ms: u64)
    requires
        ascending_times(r.restart_history, at_ms),
        lifecycle::wants_restart(r, s, outcome),
        lifecycle::may_restart(r, s, at_ms),
    ensures
        ({
            let after = lifecycle::ended(r, s, outcome, at_ms);
            &&& after.waiting_restart
            &&& after.restart_history.len() <= s.restart_limit
            &&& after.restart_history.last() == at_ms
            &&& ascending_times(after.restart_history, at_ms)
            &&& forall|i: int|
                0 <= i < after.restart_history.len() ==> at_ms - (
                #[trigger] after.restart_history[i]) <= s.restart_window_ms
        }),
{
    let old = lifecycle::aged(r, s, at_ms);
    let start = lifecycle::minus(at_ms, s.restart_window_ms);
    recent_law(old.restart_history, start, at_ms);
    let list = lifecycle::recent(old.restart_history, start);
    let after = lifecycle::ended(r, s, outcome, at_ms).restart_history;
    assert(after =~= list.push(at_ms));
    assert forall|i: int| 0 <= i < after.len() implies at_ms - (#[trigger] after[i])
        <= s.restart_window_ms by {
        if i < list.len() {
            assert(after[i] == list[i]);
        }
    }
    assert forall|i: int, j: int| 0 <= i < j < after.len() implies after[i] <= after[j] by {
        if j < list.len() {
            assert(list[i] <= list[j]);
        } else {
            assert(list[i] <= at_ms);
        }
    }
    assert forall|i: int| 0 <= i < after.len() implies #[trigger] after[i] <= at_ms by {
        if i < list.len() {
            assert(list[i] <= at_ms);
        }
    }
}

/// The pause before a restart after so many restarts in a row.
pub open spec fn pause(max_ms: u64, restarts: nat) -> u64
    decreases restarts,
{
    if restarts == 0 {
        lifecycle::INITIAL_RESTART_BACKOFF_MS
    } else {
        lifecycle::doubled(pause(max_ms, (restarts - 1) as nat), max_ms)
    }
}

/// The pauses grow by doubling, from the first one up to the bound.
pub proof fn backoff_law(max_ms: u64, restarts: nat)
    requires
        restarts > 0,
    ensures
        ({
            let doubled = lifecycle::INITIAL_RESTART_BACKOFF_MS * power2::pow2(restarts);
            pause(max_ms, restarts) == if doubled < max_ms {
                doubled
            } else {
                max_ms as int
            }
        }),
    decreases restarts,
{
    let prior = (restarts - 1) as nat;
    power2::lemma_pow2_unfold(restarts);
    power2::lemma_pow2_pos(prior);
    assert(100 * power2::pow2(restarts) == 2 * (100 * power2::pow2(prior)));
    assert(pause(max_ms, restarts) == lifecycle::doubled(pause(max_ms, prior), max_ms));
    if prior > 0 {
        backoff_law(max_ms, prior);
    } else {
        power2::lemma2_to64();
        assert(pause(max_ms, 0) == 100);
    }
}

/// A restart waits for the pause of the restarts so far, and the next one for the pause
/// after it, as long as no attempt lives long enough for the restarts to be forgotten.
pub proof fn pause_law(
    service: ServiceModel,
    r: RuntimeModel,
    outcome: ExitOutcome,
    at_ms: u64,
    restarts: nat,
)
    requires
        lifecycle::wants_restart(r, service.supervision, outcome),
        lifecycle::may_restart(r, service.supervision, at_ms),
        lifecycle::minus(at_ms, r.started_at_ms) < service.supervision.restart_reset_ms,
        r.backoff_ms == pause(service.supervision.restart_backoff_max_ms, restarts),
    ensures
        ({
            let s = service.supervision;
            &&& lifecycle::end_effects(service, r, outcome, at_ms) == seq![
                EffectModel::ArmTimer {
                    service: service.id,
                    generation: r.generation,
                    kind: TimerKind::Restart,
                    after_ms: pause(s.restart_backoff_max_ms, restarts),
                },
            ]
            &&& lifecycle::ended(r, s, outcome, at_ms).backoff_ms == pause(
                s.restart_backoff_max_ms,
                restarts + 1,
            )
        }),
{
}

} // verus!
