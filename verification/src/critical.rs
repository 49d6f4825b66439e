//! The critical path of startup: the chain of services, each started after the one before,
//! that took longest to become ready.

use vstd::prelude::*;

use crate::catalog;
use crate::catalog::CatalogModel;
use crate::config::ConfigSnapshot;
use crate::graph;
use crate::lifecycle;
use crate::lifecycle::{EngineModel, RuntimeModel};
use crate::model;
use crate::model::ServiceId;
use crate::runtime::{RuntimeEngine, ServiceStatus};

verus! {

/// A chain of services and how long it took, in milliseconds.
#[verifier::ext_equal]
pub struct PathModel {
    pub duration_ms: u64,
    pub services: Seq<int>,
}

/// The chain without services.
pub open spec fn no_path() -> PathModel {
    PathModel { duration_ms: 0, services: Seq::empty() }
}

/// How long the last attempt of a service took to become ready.
pub open spec fn own_ms(r: RuntimeModel) -> u64 {
    match (r.status().ready_at_ms, r.status().started_at_ms) {
        (Some(ready), Some(started)) => lifecycle::minus(ready, started),
        _ => 0,
    }
}

/// The services among the first `n` names.
pub open spec fn named_services(c: CatalogModel, ids: Seq<Seq<char>>, n: nat) -> Seq<int>
    decreases n,
{
    if n == 0 {
        Seq::empty()
    } else {
        match lifecycle::position(c, ids[n - 1]) {
            Some(j) => named_services(c, ids, (n - 1) as nat).push(j),
            None => named_services(c, ids, (n - 1) as nat),
        }
    }
}

/// The services that service `i` starts after: those that it requires, then those that it
/// is ordered after.
pub open spec fn predecessors(c: CatalogModel, i: int) -> Seq<int> {
    let ids = c.services[i].dependencies.requires + c.services[i].dependencies.after;
    named_services(c, ids, ids.len())
}

/// A sum, or the largest number.
pub open spec fn plus(a: u64, b: u64) -> u64 {
    if a + b > u64::MAX {
        u64::MAX
    } else {
        (a + b) as u64
    }
}

/// The longest chain of at most so many services that ends with service `i`.
pub open spec fn longest(e: EngineModel, i: int, links: nat) -> PathModel
    decreases links, 0nat,
{
    if links == 0 {
        no_path()
    } else {
        let list = predecessors(e.snapshot.catalog, i);
        let before = longest_of(e, list, list.len(), (links - 1) as nat);
        PathModel {
            duration_ms: plus(before.duration_ms, own_ms(e.services[i])),
            services: before.services.push(i),
        }
    }
}

/// The longest of the chains that end with one of the first `n` services of a list; of
/// equally long ones the last.
pub open spec fn longest_of(e: EngineModel, list: Seq<int>, n: nat, links: nat) -> PathModel
    decreases links, n,
{
    if n == 0 {
        no_path()
    } else {
        let prior = longest_of(e, list, (n - 1) as nat, links);
        let next = longest(e, list[n - 1], links);
        if next.duration_ms >= prior.duration_ms {
            next
        } else {
            prior
        }
    }
}

/// The longest chain that ends with service `i`: no chain has more services than there
/// are.
pub open spec fn chain(e: EngineModel, i: int) -> PathModel {
    longest(e, i, e.services.len())
}

/// The longest of the chains that end with one of the first `n` services that have become
/// ready; of equally long ones the last.
pub open spec fn longest_ready(e: EngineModel, n: nat) -> PathModel
    decreases n,
{
    if n == 0 {
        no_path()
    } else {
        let prior = longest_ready(e, (n - 1) as nat);
        if e.services[n - 1].ready_at_ms is None {
            prior
        } else {
            let next = chain(e, n - 1);
            if next.duration_ms >= prior.duration_ms {
                next
            } else {
                prior
            }
        }
    }
}

/// The critical path.
pub open spec fn critical_path(e: EngineModel) -> PathModel {
    longest_ready(e, e.services.len())
}

/// Whether a walk of so many steps back through predecessors begins at a service.
pub open spec fn goes_back(c: CatalogModel, i: int, steps: nat) -> bool
    decreases steps,
{
    steps == 0 || exists|k: int|
        0 <= k < predecessors(c, i).len() && goes_back(
            c,
            #[trigger] predecessors(c, i)[k],
            (steps - 1) as nat,
        )
}

proof fn named_services_law(c: CatalogModel, ids: Seq<Seq<char>>, n: nat)
    requires
        n <= ids.len(),
    ensures
        forall|k: int|
            0 <= k < named_services(c, ids, n).len() ==> 0 <= #[trigger] named_services(
                c,
                ids,
                n,
            )[k] < c.services.len() && ids.contains(
                c.services[named_services(c, ids, n)[k]].id,
            ),
    decreases n,
{
    if n > 0 {
        named_services_law(c, ids, (n - 1) as nat);
        let list = named_services(c, ids, n);
        let shorter = named_services(c, ids, (n - 1) as nat);
        assert forall|k: int| 0 <= k < list.len() implies 0 <= #[trigger] list[k]
            < c.services.len() && ids.contains(c.services[list[k]].id) by {
            if k < shorter.len() {
                assert(list[k] == shorter[k]);
            } else {
                assert(ids[n - 1] == c.services[list[k]].id);
            }
        }
    }
}

/// What a service starts after is a service, and comes before it in the order of starting.
proof fn predecessors_law(c: CatalogModel, i: int)
    requires
        0 <= i < c.services.len(),
    ensures
        forall|k: int|
            0 <= k < predecessors(c, i).len() ==> 0 <= #[trigger] predecessors(c, i)[k]
                < c.services.len() && c.ordering()(i, predecessors(c, i)[k]),
{
    let first = c.services[i].dependencies.requires;
    let second = c.services[i].dependencies.after;
    let ids = first + second;
    named_services_law(c, ids, ids.len());
    let list = predecessors(c, i);
    assert forall|k: int| 0 <= k < list.len() implies 0 <= #[trigger] list[k] < c.services.len()
        && c.ordering()(i, list[k]) by {
        let id = c.services[list[k]].id;
        assert(ids.contains(id));
        let q = choose|q: int| 0 <= q < ids.len() && ids[q] == id;
        if q < first.len() {
            assert(first[q] == id);
        } else {
            assert(second[q - first.len()] == id);
        }
        assert(c.id(list[k]) == id);
    }
}

proof fn walk_back(c: CatalogModel, i: int, steps: nat) -> (path: Seq<int>)
    requires
        0 <= i < c.services.len(),
        goes_back(c, i, steps),
    ensures
        path.len() == steps + 1,
        path.first() == i,
        forall|k: int| 0 <= k < path.len() ==> 0 <= #[trigger] path[k] < c.services.len(),
        forall|k: int| 0 <= k < path.len() - 1 ==> c.ordering()(#[trigger] path[k], path[k + 1]),
    decreases steps,
{
    if steps == 0 {
        seq![i]
    } else {
        predecessors_law(c, i);
        let k = choose|k: int|
            0 <= k < predecessors(c, i).len() && goes_back(
                c,
                #[trigger] predecessors(c, i)[k],
                (steps - 1) as nat,
            );
        let j = predecessors(c, i)[k];
        let rest = walk_back(c, j, (steps - 1) as nat);
        let path = seq![i] + rest;
        assert forall|q: int| 0 <= q < path.len() - 1 implies c.ordering()(
            #[trigger] path[q],
            path[q + 1],
        ) by {
            if q == 0 {
                assert(path[1] == rest[0]);
            } else {
                assert(path[q] == rest[q - 1]);
                assert(path[q + 1] == rest[q]);
                assert(c.ordering()(rest[q - 1], rest[q - 1 + 1]));
            }
        }
        assert forall|q: int| 0 <= q < path.len() implies 0 <= #[trigger] path[q]
            < c.services.len() by {
            if q > 0 {
                assert(path[q] == rest[q - 1]);
            }
        }
        path
    }
}

/// More numbers below a bound than the bound: two of them are the same.
proof fn repetition(path: Seq<int>, n: nat) -> (found: (int, int))
    requires
        path.len() > n,
        forall|k: int| 0 <= k < path.len() ==> 0 <= #[trigger] path[k] < n,
    ensures
        0 <= found.0 < found.1 < path.len(),
        path[found.0] == path[found.1],
    decreases n,
{
    if n == 0 {
        let first = path[0];
        assert(0 <= first < n);
        (0, 1)
    } else {
        let top = n - 1;
        if exists|k: int| 0 <= k < path.len() - 1 && path[k] == path.last() {
            let k = choose|k: int| 0 <= k < path.len() - 1 && path[k] == path.last();
            (k, path.len() - 1)
        } else {
            let x = path.last();
            let rest = path.drop_last();
            let moved = Seq::new(
                rest.len(),
                |k: int|
                    if rest[k] > x {
                        rest[k] - 1
                    } else {
                        rest[k]
                    },
            );
            assert forall|k: int| 0 <= k < moved.len() implies 0 <= #[trigger] moved[k] < top by {
                assert(0 <= path[k] < n);
                assert(path[k] != x);
                assert(0 <= path[path.len() - 1] < n);
            }
            let (a, b) = repetition(moved, top as nat);
            assert(path[a] != x && path[b] != x);
            (a, b)
        }
    }
}

/// In an order of starting without circles no walk back is as long as there are services.
proof fn walks_back_are_short(c: CatalogModel, i: int)
    requires
        graph::acyclic(c.len(), c.ordering()),
        0 <= i < c.services.len(),
    ensures
        !goes_back(c, i, c.services.len()),
{
    if goes_back(c, i, c.services.len()) {
        let path = walk_back(c, i, c.services.len());
        let (a, b) = repetition(path, c.services.len());
        let circle = path.subrange(a, b + 1);
        assert forall|k: int| 0 <= k < circle.len() - 1 implies c.ordering()(
            #[trigger] circle[k],
            circle[k + 1],
        ) by {
            assert(c.ordering()(path[a + k], path[a + k + 1]));
        }
        assert forall|k: int| 0 <= k < circle.len() implies 0 <= #[trigger] circle[k]
            < c.len() by {
            assert(0 <= path[a + k] < c.services.len());
        }
        assert(graph::is_cycle(c.len(), c.ordering(), circle));
    }
}

/// Where no walk back is as long as a bound, a larger bound gives no longer chain.
proof fn longest_stable(e: EngineModel, i: int, f: nat, g: nat)
    requires
        !goes_back(e.snapshot.catalog, i, f),
        f <= g,
    ensures
        longest(e, i, f) == longest(e, i, g),
    decreases f, 0nat,
{
    let list = predecessors(e.snapshot.catalog, i);
    if f > 0 {
        assert forall|k: int| 0 <= k < list.len() implies !goes_back(
            e.snapshot.catalog,
            #[trigger] list[k],
            (f - 1) as nat,
        ) by {}
        longest_of_stable(e, list, list.len(), (f - 1) as nat, (g - 1) as nat);
    }
}

proof fn longest_of_stable(e: EngineModel, list: Seq<int>, n: nat, f: nat, g: nat)
    requires
        n <= list.len(),
        forall|k: int|
            0 <= k < list.len() ==> !goes_back(e.snapshot.catalog, #[trigger] list[k], f),
        f <= g,
    ensures
        longest_of(e, list, n, f) == longest_of(e, list, n, g),
    decreases f, n,
{
    if n > 0 {
        longest_of_stable(e, list, (n - 1) as nat, f, g);
        assert(!goes_back(e.snapshot.catalog, list[n - 1], f));
        longest_stable(e, list[n - 1], f, g);
    }
}

/// The longest of the chains that end with one of the first `n` services of a list; of
/// equally long ones the last.
pub open spec fn best_chain(e: EngineModel, list: Seq<int>, n: nat) -> PathModel
    decreases n,
{
    if n == 0 {
        no_path()
    } else {
        let prior = best_chain(e, list, (n - 1) as nat);
        let next = chain(e, list[n - 1]);
        if next.duration_ms >= prior.duration_ms {
            next
        } else {
            prior
        }
    }
}

/// The longest chain that ends with a service is the longest one that ends with what the
/// service starts after, and the service: the bound on its length does not matter.
pub proof fn chain_law(e: EngineModel, i: int)
    requires
        e.consistent(),
        0 <= i < e.services.len(),
    ensures
        ({
            let list = predecessors(e.snapshot.catalog, i);
            let before = best_chain(e, list, list.len());
            chain(e, i) == (PathModel {
                duration_ms: plus(before.duration_ms, own_ms(e.services[i])),
                services: before.services.push(i),
            })
        }),
{
    let c = e.snapshot.catalog;
    let list = predecessors(c, i);
    let n = e.services.len();
    predecessors_law(c, i);
    assert forall|k: int| 0 <= k < list.len() implies longest(
        e,
        #[trigger] list[k],
        (n - 1) as nat,
    ) == chain(e, list[k]) by {
        walks_back_are_short(c, i);
        if goes_back(c, list[k], (n - 1) as nat) {
            assert(goes_back(c, i, n));
        }
        longest_stable(e, list[k], (n - 1) as nat, n);
    }
    best_chain_agrees(e, list, list.len());
}

proof fn best_chain_agrees(e: EngineModel, list: Seq<int>, n: nat)
    requires
        n <= list.len(),
        e.services.len() > 0,
        forall|k: int|
            0 <= k < list.len() ==> longest(e, #[trigger] list[k], (e.services.len() - 1) as nat)
                == chain(e, list[k]),
    ensures
        longest_of(e, list, n, (e.services.len() - 1) as nat) == best_chain(e, list, n),
    decreases n,
{
    if n > 0 {
        best_chain_agrees(e, list, (n - 1) as nat);
        assert(longest(e, list[n - 1], (e.services.len() - 1) as nat) == chain(e, list[n - 1]));
    }
}

/// Whether service `j` is among those that service `i` names as required or as starting
/// before it.
pub open spec fn names_before(c: CatalogModel, i: int, j: int) -> bool {
    c.services[i].dependencies.requires.contains(c.services[j].id)
        || c.services[i].dependencies.after.contains(c.services[j].id)
}

/// Whether each service of a walk is named, as required or as starting before it, by the
/// next one.
pub open spec fn is_walk(c: CatalogModel, walk: Seq<int>) -> bool {
    &&& forall|k: int| 0 <= k < walk.len() ==> 0 <= #[trigger] walk[k] < c.services.len()
    &&& forall|k: int| 0 < k < walk.len() ==> names_before(c, #[trigger] walk[k], walk[k - 1])
}

/// How long the services of a walk took, one after the other.
pub open spec fn walk_ms(e: EngineModel, walk: Seq<int>) -> u64
    decreases walk.len(),
{
    if walk.len() == 0 {
        0
    } else {
        plus(walk_ms(e, walk.drop_last()), own_ms(e.services[walk.last()]))
    }
}

proof fn named_services_hold(c: CatalogModel, ids: Seq<Seq<char>>, n: nat, q: int, j: int)
    requires
        c.ordered(),
        n <= ids.len(),
        0 <= q < n,
        0 <= j < c.services.len(),
        ids[q] == c.services[j].id,
    ensures
        named_services(c, ids, n).contains(j),
    decreases n,
{
    lifecycle::position_unique(c, j);
    let shorter = named_services(c, ids, (n - 1) as nat);
    let list = named_services(c, ids, n);
    if q == n - 1 {
        assert(list.last() == j);
        assert(list.contains(j));
    } else {
        named_services_hold(c, ids, (n - 1) as nat, q, j);
        let k = choose|k: int| 0 <= k < shorter.len() && shorter[k] == j;
        assert(list[k] == j);
    }
}

/// The services that a service starts after are those that it names.
proof fn predecessors_are_named(c: CatalogModel, i: int, j: int)
    requires
        c.ordered(),
        0 <= i < c.services.len(),
        0 <= j < c.services.len(),
    ensures
        predecessors(c, i).contains(j) <==> names_before(c, i, j),
{
    let first = c.services[i].dependencies.requires;
    let second = c.services[i].dependencies.after;
    let ids = first + second;
    let id = c.services[j].id;
    if names_before(c, i, j) {
        let q = if first.contains(id) {
            choose|q: int| 0 <= q < first.len() && first[q] == id
        } else {
            first.len() + choose|q: int| 0 <= q < second.len() && second[q] == id
        };
        assert(ids[q] == id);
        named_services_hold(c, ids, ids.len(), q, j);
    }
    if predecessors(c, i).contains(j) {
        named_services_law(c, ids, ids.len());
        let k = choose|k: int| 0 <= k < predecessors(c, i).len() && predecessors(c, i)[k] == j;
        assert(ids.contains(c.services[predecessors(c, i)[k]].id));
        let q = choose|q: int| 0 <= q < ids.len() && ids[q] == id;
        if q < first.len() {
            assert(first[q] == id);
        } else {
            assert(second[q - first.len()] == id);
        }
    }
}

proof fn best_chain_exceeds(e: EngineModel, list: Seq<int>, n: nat, k: int)
    requires
        0 <= k < n <= list.len(),
    ensures
        chain(e, list[k]).duration_ms <= best_chain(e, list, n).duration_ms,
    decreases n,
{
    if k < n - 1 {
        best_chain_exceeds(e, list, (n - 1) as nat, k);
    }
}

proof fn best_chain_is_one(e: EngineModel, list: Seq<int>, n: nat)
    requires
        n <= list.len(),
    ensures
        best_chain(e, list, n) == no_path() || exists|k: int|
            0 <= k < n && best_chain(e, list, n) == chain(e, #[trigger] list[k]),
    decreases n,
{
    if n > 0 {
        best_chain_is_one(e, list, (n - 1) as nat);
        assert(chain(e, list[n - 1]) == chain(e, list[n - 1]));
    }
}

/// No walk along the names of what is required and of what starts before took longer than
/// the chain of the service that it ends with.
pub proof fn longest_law(e: EngineModel, walk: Seq<int>)
    requires
        e.consistent(),
        is_walk(e.snapshot.catalog, walk),
        walk.len() > 0,
    ensures
        walk_ms(e, walk) <= chain(e, walk.last()).duration_ms,
    decreases walk.len(),
{
    let c = e.snapshot.catalog;
    let i = walk.last();
    let rest = walk.drop_last();
    let list = predecessors(c, i);
    chain_law(e, i);
    if rest.len() > 0 {
        let j = rest.last();
        assert(names_before(c, walk[walk.len() - 1], walk[walk.len() - 1 - 1]));
        assert forall|k: int| 0 < k < rest.len() implies names_before(
            c,
            #[trigger] rest[k],
            rest[k - 1],
        ) by {
            assert(names_before(c, walk[k], walk[k - 1]));
        }
        longest_law(e, rest);
        predecessors_are_named(c, i, j);
        let k = choose|k: int| 0 <= k < list.len() && list[k] == j;
        best_chain_exceeds(e, list, list.len(), k);
    } else {
        assert(walk_ms(e, rest) == 0);
    }
}

proof fn chain_walk(e: EngineModel, i: int, len: nat)
    requires
        e.consistent(),
        0 <= i < e.services.len(),
        chain(e, i).services.len() == len,
    ensures
        is_walk(e.snapshot.catalog, chain(e, i).services),
        chain(e, i).services.len() > 0,
        chain(e, i).services.last() == i,
        walk_ms(e, chain(e, i).services) == chain(e, i).duration_ms,
    decreases len,
{
    let c = e.snapshot.catalog;
    let list = predecessors(c, i);
    let before = best_chain(e, list, list.len());
    let walk = chain(e, i).services;
    chain_law(e, i);
    best_chain_is_one(e, list, list.len());
    predecessors_law(c, i);
    assert(walk.drop_last() =~= before.services);
    if before != no_path() {
        let k = choose|k: int| 0 <= k < list.len() && before == chain(e, #[trigger] list[k]);
        let j = list[k];
        chain_walk(e, j, before.services.len());
        predecessors_are_named(c, i, j);
        assert(list.contains(j));
        assert forall|q: int| 0 < q < walk.len() implies names_before(
            c,
            #[trigger] walk[q],
            walk[q - 1],
        ) by {
            if q < before.services.len() {
                assert(names_before(c, before.services[q], before.services[q - 1]));
            }
        }
        assert forall|q: int| 0 <= q < walk.len() implies 0 <= #[trigger] walk[q]
            < c.services.len() by {
            if q < before.services.len() {
                assert(walk[q] == before.services[q]);
            }
        }
    } else {
        assert(walk_ms(e, before.services) == 0);
    }
}

/// The chain of a service is such a walk, ends with the service, and took as long as it
/// says.
pub proof fn chain_walk_law(e: EngineModel, i: int)
    requires
        e.consistent(),
        0 <= i < e.services.len(),
    ensures
        is_walk(e.snapshot.catalog, chain(e, i).services),
        chain(e, i).services.len() > 0,
        chain(e, i).services.last() == i,
        walk_ms(e, chain(e, i).services) == chain(e, i).duration_ms,
{
    chain_walk(e, i, chain(e, i).services.len());
}

proof fn longest_ready_exceeds(e: EngineModel, n: nat, i: int)
    requires
        0 <= i < n <= e.services.len(),
        e.services[i].ready_at_ms is Some,
    ensures
        chain(e, i).duration_ms <= longest_ready(e, n).duration_ms,
    decreases n,
{
    if i < n - 1 {
        longest_ready_exceeds(e, (n - 1) as nat, i);
    }
}

proof fn longest_ready_is_one(e: EngineModel, n: nat)
    requires
        n <= e.services.len(),
    ensures
        longest_ready(e, n) == no_path() || exists|i: int|
            0 <= i < n && (#[trigger] e.services[i]).ready_at_ms is Some && longest_ready(e, n)
                == chain(e, i),
    decreases n,
{
    if n > 0 {
        longest_ready_is_one(e, (n - 1) as nat);
        assert(e.services[n - 1] == e.services[n - 1]);
    }
}

/// The critical path is a walk that ends with a service that has become ready, or is empty,
/// and took as long as it says.
pub proof fn critical_walk_law(e: EngineModel)
    requires
        e.consistent(),
    ensures
        is_walk(e.snapshot.catalog, critical_path(e).services),
        walk_ms(e, critical_path(e).services) == critical_path(e).duration_ms,
        critical_path(e).services.len() > 0
            ==> e.services[critical_path(e).services.last()].ready_at_ms is Some,
{
    let path = critical_path(e);
    let n = e.services.len();
    longest_ready_is_one(e, n);
    if path != no_path() {
        let i = choose|i: int|
            0 <= i < n && (#[trigger] e.services[i]).ready_at_ms is Some && path == chain(e, i);
        chain_walk_law(e, i);
    } else {
        assert(walk_ms(e, path.services) == 0);
    }
}

/// No walk that ends with a service that has become ready took longer than the critical
/// path, which is not empty where there is such a service.
pub proof fn critical_law(e: EngineModel, walk: Seq<int>)
    requires
        e.consistent(),
        is_walk(e.snapshot.catalog, walk),
        walk.len() > 0,
        e.services[walk.last()].ready_at_ms is Some,
    ensures
        critical_path(e).services.len() > 0,
        walk_ms(e, walk) <= critical_path(e).duration_ms,
{
    let n = e.services.len();
    assert(0 <= walk[walk.len() - 1] < n);
    longest_law(e, walk);
    longest_ready_exceeds(e, n, walk.last());
    longest_ready_holds(e, n, walk.last());
}

proof fn longest_ready_holds(e: EngineModel, n: nat, i: int)
    requires
        e.consistent(),
        0 <= i < n <= e.services.len(),
        e.services[i].ready_at_ms is Some,
    ensures
        longest_ready(e, n).services.len() > 0,
    decreases n,
{
    let shorter = (n - 1) as nat;
    chain_walk_law(e, n - 1);
    if i < n - 1 {
        longest_ready_holds(e, shorter, i);
    } else if longest_ready(e, shorter) != no_path() {
        longest_ready_is_one(e, shorter);
        let k = choose|k: int|
            0 <= k < shorter && (#[trigger] e.services[k]).ready_at_ms is Some && longest_ready(
                e,
                shorter,
            ) == chain(e, k);
        chain_walk_law(e, k);
    }
}

/// Whether everything on a path is one of the first `n` services.
pub open spec fn within(path: PathModel, n: nat) -> bool {
    forall|k: int| 0 <= k < path.services.len() ==> 0 <= #[trigger] path.services[k] < n
}

proof fn longest_bounds(e: EngineModel, i: int, links: nat)
    requires
        e.consistent(),
        0 <= i < e.services.len(),
    ensures
        within(longest(e, i, links), e.services.len()),
    decreases links, 0nat,
{
    if links > 0 {
        let list = predecessors(e.snapshot.catalog, i);
        predecessors_law(e.snapshot.catalog, i);
        longest_of_bounds(e, list, list.len(), (links - 1) as nat);
    }
}

proof fn longest_of_bounds(e: EngineModel, list: Seq<int>, n: nat, links: nat)
    requires
        e.consistent(),
        n <= list.len(),
        forall|k: int| 0 <= k < list.len() ==> 0 <= #[trigger] list[k] < e.services.len(),
    ensures
        within(longest_of(e, list, n, links), e.services.len()),
    decreases links, n,
{
    if n > 0 {
        longest_of_bounds(e, list, (n - 1) as nat, links);
        longest_bounds(e, list[n - 1], links);
    }
}

proof fn longest_ready_bounds(e: EngineModel, n: nat)
    requires
        e.consistent(),
        n <= e.services.len(),
    ensures
        within(longest_ready(e, n), e.services.len()),
    decreases n,
{
    if n > 0 {
        longest_ready_bounds(e, (n - 1) as nat);
        longest_bounds(e, n - 1, e.services.len());
    }
}

/// Everything on the critical path is a service.
pub proof fn critical_path_bounds(e: EngineModel)
    requires
        e.consistent(),
    ensures
        within(critical_path(e), e.services.len()),
{
    longest_ready_bounds(e, e.services.len());
}

/// A chain of services, by their positions, and how long it took.
#[derive(Debug)]
pub struct CriticalPath {
    pub duration_ms: u64,
    pub services: Vec<usize>,
}

impl View for CriticalPath {
    type V = PathModel;

    open spec fn view(&self) -> PathModel {
        PathModel { duration_ms: self.duration_ms, services: graph::ints(self.services@) }
    }
}

impl CriticalPath {
    fn none() -> (r: CriticalPath)
        ensures
            r@ == no_path(),
    {
        let r = CriticalPath { duration_ms: 0, services: Vec::new() };
        proof {
            assert(r@ =~= no_path());
        }
        r
    }

    fn copy(&self) -> (r: CriticalPath)
        ensures
            r@ == self@,
    {
        let r = CriticalPath { duration_ms: self.duration_ms, services: self.services.clone() };
        proof {
            assert(r@ =~= self@);
        }
        r
    }
}

fn own_duration(status: &ServiceStatus) -> (r: u64)
    ensures
        forall|m: RuntimeModel| #[trigger] m.status() == status@ ==> r == own_ms(m),
{
    match (status.ready_at_ms, status.started_at_ms) {
        (Some(ready), Some(started)) => if ready >= started {
            ready - started
        } else {
            0
        },
        _ => 0,
    }
}

fn sum(a: u64, b: u64) -> (r: u64)
    ensures
        r == plus(a, b),
{
    if a > u64::MAX - b {
        u64::MAX
    } else {
        a + b
    }
}

/// The chains that are known.
spec fn memo_holds(e: EngineModel, memo: Seq<Option<CriticalPath>>) -> bool {
    &&& memo.len() == e.services.len()
    &&& forall|k: int| 0 <= k < memo.len() ==> (#[trigger] memo[k] matches Some(p) ==> p@ == chain(
        e,
        k,
    ))
}

fn predecessor_list(snapshot: &ConfigSnapshot, ids: &Vec<ServiceId>, list: &mut Vec<usize>)
    ensures
        ({
            let names = model::id_texts(ids@);
            graph::ints(final(list)@) == graph::ints(old(list)@) + named_services(
                snapshot@.catalog,
                names,
                names.len(),
            )
        }),
        snapshot@.valid(),
{
    let ghost c = snapshot@.catalog;
    let ghost names = model::id_texts(ids@);
    let ghost start = graph::ints(list@);
    let _ = snapshot.services();
    proof {
        assert(graph::ints(list@) =~= start + named_services(c, names, 0));
    }
    let mut k: usize = 0;
    while k < ids.len()
        invariant
            c == snapshot@.catalog,
            snapshot@.valid(),
            names == model::id_texts(ids@),
            k <= ids@.len(),
            graph::ints(list@) == start + named_services(c, names, k as nat),
        decreases ids@.len() - k,
    {
        let ghost before = list@;
        proof {
            assert(names[k as int] == ids@[k as int]@);
        }
        let found = snapshot.find_service(&ids[k]);
        match found {
            Some(j) => {
                list.push(j);
                proof {
                    lifecycle::position_unique(c, j as int);
                    assert(named_services(c, names, (k + 1) as nat) == named_services(
                        c,
                        names,
                        k as nat,
                    ).push(j as int));
                    assert(graph::ints(list@) =~= graph::ints(before).push(j as int));
                    assert(start + named_services(c, names, k as nat).push(j as int) =~= (start
                        + named_services(c, names, k as nat)).push(j as int));
                }
            },
            None => {
                proof {
                    let id = names[k as int];
                    let known = catalog::service_ids(c.services);
                    if lifecycle::position(c, id) is Some {
                        let i = choose|i: int|
                            0 <= i < c.services.len() && (#[trigger] c.services[i]).id == id;
                        assert(known[i] == id);
                    }
                    assert(named_services(c, names, (k + 1) as nat) == named_services(
                        c,
                        names,
                        k as nat,
                    ));
                }
            },
        }
        k = k + 1;
    }
}

fn chain_for(
    engine: &RuntimeEngine,
    statuses: &Vec<(ServiceId, ServiceStatus)>,
    i: usize,
    memo: &mut Vec<Option<CriticalPath>>,
    steps: usize,
) -> (r: CriticalPath)
    requires
        engine@.consistent(),
        statuses@.len() == engine@.services.len(),
        forall|k: int|
            0 <= k < statuses@.len() ==> (#[trigger] statuses@[k]).1@
                == engine@.services[k].status(),
        i < engine@.services.len(),
        memo_holds(engine@, old(memo)@),
        !goes_back(engine@.snapshot.catalog, i as int, steps as nat),
    ensures
        memo_holds(engine@, final(memo)@),
        r@ == chain(engine@, i as int),
    decreases steps,
{
    let ghost e = engine@;
    let ghost c = e.snapshot.catalog;
    proof {
        assert(memo@[i as int] matches Some(p) ==> p@ == chain(e, i as int));
    }
    if let Some(path) = &memo[i] {
        return path.copy();
    }
    let definitions = engine.snapshot().services();
    proof {
        assert(definitions@.len() == catalog::service_models(definitions@).len());
        assert(c.services[i as int] == definitions@[i as int]@);
    }
    let dependencies = &definitions[i].dependencies;
    let mut list: Vec<usize> = Vec::new();
    predecessor_list(engine.snapshot(), &dependencies.requires, &mut list);
    predecessor_list(engine.snapshot(), &dependencies.after, &mut list);
    let ghost all = graph::ints(list@);
    proof {
        let first = model::id_texts(dependencies.requires@);
        let second = model::id_texts(dependencies.after@);
        named_services_append(c, first, second, second.len());
        assert(all =~= predecessors(c, i as int));
        predecessors_law(c, i as int);
        chain_law(e, i as int);
    }
    let mut best = CriticalPath::none();
    let mut k: usize = 0;
    while k < list.len()
        invariant
            e == engine@,
            c == e.snapshot.catalog,
            e.consistent(),
            statuses@.len() == e.services.len(),
            forall|q: int|
                0 <= q < statuses@.len() ==> (#[trigger] statuses@[q]).1@ == e.services[q].status(),
            i < e.services.len(),
            all == graph::ints(list@),
            all == predecessors(c, i as int),
            forall|q: int| 0 <= q < all.len() ==> 0 <= #[trigger] all[q] < c.services.len(),
            !goes_back(c, i as int, steps as nat),
            memo_holds(e, memo@),
            k <= list@.len(),
            best@ == best_chain(e, all, k as nat),
        decreases list@.len() - k,
    {
        let j = list[k];
        proof {
            assert(all[k as int] == j);
            assert(steps > 0);
            if goes_back(c, j as int, (steps - 1) as nat) {
                assert(goes_back(c, predecessors(c, i as int)[k as int], (steps - 1) as nat));
            }
        }
        let next = chain_for(engine, statuses, j, memo, steps - 1);
        if next.duration_ms >= best.duration_ms {
            best = next;
        }
        k = k + 1;
    }
    proof {
        assert(statuses@[i as int].1@ == e.services[i as int].status());
    }
    let ghost before = best@;
    best.duration_ms = sum(best.duration_ms, own_duration(&statuses[i].1));
    best.services.push(i);
    proof {
        assert(best@.services =~= before.services.push(i as int));
    }
    memo.set(i, Some(best.copy()));
    best
}

proof fn named_services_append(
    c: CatalogModel,
    first: Seq<Seq<char>>,
    second: Seq<Seq<char>>,
    n: nat,
)
    requires
        n <= second.len(),
    ensures
        named_services(c, first + second, first.len() + n) == named_services(
            c,
            first,
            first.len(),
        ) + named_services(c, second, n),
    decreases n,
{
    let both = first + second;
    if n == 0 {
        named_services_prefix(c, first, second, first.len());
        assert(named_services(c, first, first.len()) + named_services(c, second, 0)
            =~= named_services(c, first, first.len()));
    } else {
        named_services_append(c, first, second, (n - 1) as nat);
        assert(both[first.len() + n - 1] == second[n - 1]);
        assert(named_services(c, both, first.len() + n) =~= named_services(c, first, first.len())
            + named_services(c, second, n));
    }
}

proof fn named_services_prefix(
    c: CatalogModel,
    first: Seq<Seq<char>>,
    second: Seq<Seq<char>>,
    n: nat,
)
    requires
        n <= first.len(),
    ensures
        named_services(c, first + second, n) == named_services(c, first, n),
    decreases n,
{
    if n > 0 {
        named_services_prefix(c, first, second, (n - 1) as nat);
        assert((first + second)[n - 1] == first[n - 1]);
    }
}

/// Finds the critical path.
pub fn find_critical_path(engine: &RuntimeEngine) -> (r: CriticalPath)
    requires
        engine@.consistent(),
    ensures
        r@ == critical_path(engine@),
{
    let ghost e = engine@;
    let statuses = engine.statuses();
    let mut memo: Vec<Option<CriticalPath>> = Vec::new();
    let mut i: usize = 0;
    while i < statuses.len()
        invariant
            i <= statuses@.len(),
            memo@.len() == i,
            forall|k: int| 0 <= k < i ==> #[trigger] memo@[k] is None,
        decreases statuses@.len() - i,
    {
        memo.push(None);
        i = i + 1;
    }
    let mut best = CriticalPath::none();
    i = 0;
    while i < statuses.len()
        invariant
            e == engine@,
            e.consistent(),
            statuses@.len() == e.services.len(),
            forall|k: int|
                0 <= k < statuses@.len() ==> (#[trigger] statuses@[k]).1@ == e.services[k].status(),
            memo_holds(e, memo@),
            i <= statuses@.len(),
            best@ == longest_ready(e, i as nat),
        decreases statuses@.len() - i,
    {
        proof {
            assert(statuses@[i as int].1@ == e.services[i as int].status());
        }
        if statuses[i].1.ready_at_ms.is_some() {
            proof {
                walks_back_are_short(e.snapshot.catalog, i as int);
            }
            let next = chain_for(engine, &statuses, i, &mut memo, statuses.len());
            if next.duration_ms >= best.duration_ms {
                best = next;
            }
        }
        i = i + 1;
    }
    best
}

/// How long a service took: from the start of its last attempt until it was ready, and no time
/// at all where there was no attempt, or it has not become ready.
pub proof fn own_time_law(r: RuntimeModel)
    ensures
        r.generation > 0 && (r.ready_at_ms matches Some(t) && t >= r.started_at_ms) ==> own_ms(r)
            == r.ready_at_ms->0 - r.started_at_ms,
        r.generation == 0 || r.ready_at_ms is None ==> own_ms(r) == 0,
        r.ready_at_ms matches Some(t) && t < r.started_at_ms ==> own_ms(r) == 0,
{
}

/// How long a walk took: the times of its services together, as far as a number goes.
pub proof fn walk_time_law(e: EngineModel, walk: Seq<int>, i: int)
    requires
        walk_ms(e, walk) + own_ms(e.services[i]) <= u64::MAX,
    ensures
        walk_ms(e, walk.push(i)) == walk_ms(e, walk) + own_ms(e.services[i]),
        walk_ms(e, Seq::empty()) == 0,
{
    assert(walk.push(i).drop_last() =~= walk);
}

/// Of equally long chains the last one is the critical path.
pub proof fn critical_tie_law(e: EngineModel, i: int)
    requires
        e.consistent(),
        0 <= i < e.services.len(),
        e.services[i].ready_at_ms is Some,
        chain(e, i).duration_ms == critical_path(e).duration_ms,
    ensures
        critical_path(e).services.len() > 0,
        critical_path(e).services.last() >= i,
{
    longest_ready_tie(e, e.services.len(), i);
}

proof fn longest_ready_tie(e: EngineModel, n: nat, i: int)
    requires
        e.consistent(),
        0 <= i < n <= e.services.len(),
        e.services[i].ready_at_ms is Some,
        chain(e, i).duration_ms == longest_ready(e, n).duration_ms,
    ensures
        longest_ready(e, n).services.len() > 0,
        longest_ready(e, n).services.last() >= i,
    decreases n,
{
    chain_walk_law(e, n - 1);
    if i < n - 1 && longest_ready(e, n) != chain(e, n - 1) {
        longest_ready_tie(e, (n - 1) as nat, i);
    } else if i < n - 1 && e.services[n - 1].ready_at_ms is None {
        longest_ready_tie(e, (n - 1) as nat, i);
    }
}

/// Of equally long chains before a service the last one that it names is taken: no later one in
/// its list is as long as the one that its own chain goes on from.
pub proof fn chain_tie_law(e: EngineModel, i: int)
    requires
        e.consistent(),
        0 <= i < e.services.len(),
        predecessors(e.snapshot.catalog, i).len() > 0,
    ensures
        ({
            let list = predecessors(e.snapshot.catalog, i);
            exists|k: int|
                0 <= k < list.len() && chain(e, i).services == chain(
                    e,
                    #[trigger] list[k],
                ).services.push(i) && (forall|m: int|
                    k < m < list.len() ==> chain(e, #[trigger] list[m]).duration_ms < chain(
                        e,
                        list[k],
                    ).duration_ms) && (forall|m: int|
                    0 <= m < k ==> chain(e, #[trigger] list[m]).duration_ms <= chain(
                        e,
                        list[k],
                    ).duration_ms)
        }),
{
    let list = predecessors(e.snapshot.catalog, i);
    chain_law(e, i);
    best_chain_tie(e, list, list.len());
}

proof fn best_chain_tie(e: EngineModel, list: Seq<int>, n: nat)
    requires
        0 < n <= list.len(),
    ensures
        exists|k: int|
            0 <= k < n && best_chain(e, list, n) == chain(e, #[trigger] list[k]) && (forall|m: int|
                k < m < n ==> chain(e, #[trigger] list[m]).duration_ms < chain(
                    e,
                    list[k],
                ).duration_ms) && (forall|m: int|
                0 <= m < k ==> chain(e, #[trigger] list[m]).duration_ms <= chain(
                    e,
                    list[k],
                ).duration_ms),
    decreases n,
{
    if n > 1 {
        best_chain_tie(e, list, (n - 1) as nat);
        let k = choose|k: int|
            0 <= k < n - 1 && best_chain(e, list, (n - 1) as nat) == chain(e, #[trigger] list[k])
                && (forall|m: int|
                k < m < n - 1 ==> chain(e, #[trigger] list[m]).duration_ms < chain(
                    e,
                    list[k],
                ).duration_ms) && (forall|m: int|
                0 <= m < k ==> chain(e, #[trigger] list[m]).duration_ms <= chain(
                    e,
                    list[k],
                ).duration_ms);
        if best_chain(e, list, n) == chain(e, list[n - 1]) && chain(e, list[n - 1]).duration_ms
            >= chain(e, list[k]).duration_ms {
            assert(best_chain(e, list, n) == chain(e, list[n - 1]));
        } else {
            assert(best_chain(e, list, n) == chain(e, list[k]));
        }
    } else {
        assert(best_chain(e, list, 0) == no_path());
        assert(best_chain(e, list, n) == chain(e, list[0]));
    }
}

/// Which services come before a service: those that it names as required, then those that it
/// names as started before it, each in the order of its list.
pub proof fn predecessor_law(c: CatalogModel, i: int, k: int)
    requires
        c.ordered(),
        0 <= i < c.services.len(),
        0 <= k < predecessors(c, i).len(),
    ensures
        0 <= predecessors(c, i)[k] < c.services.len(),
        names_before(c, i, predecessors(c, i)[k]),
{
    predecessors_law(c, i);
}

} // verus!
