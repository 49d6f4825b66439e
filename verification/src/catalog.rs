//! The nodes of a configuration, services and groups, and how they depend on each
//! other.

use vstd::prelude::*;

use crate::graph;
use crate::model;
use crate::model::{
    ConfigError, Dependencies, DependenciesModel, ErrorModel, ServiceDefinition, ServiceId,
    ServiceModel,
};
use crate::text;

verus! {

/// A named set of nodes.
#[derive(Debug, PartialEq, Eq)]
pub struct GroupDefinition {
    pub id: ServiceId,
    pub dependencies: Dependencies,
}

/// What a [`GroupDefinition`] holds.
#[verifier::ext_equal]
pub struct GroupModel {
    pub id: Seq<char>,
    pub dependencies: DependenciesModel,
}

impl View for GroupDefinition {
    type V = GroupModel;

    open spec fn view(&self) -> GroupModel {
        GroupModel { id: self.id@, dependencies: self.dependencies@ }
    }
}

/// What a list of services holds.
pub open spec fn service_models(list: Seq<ServiceDefinition>) -> Seq<ServiceModel> {
    Seq::new(list.len(), |i: int| list[i]@)
}

/// What a list of groups holds.
pub open spec fn group_models(list: Seq<GroupDefinition>) -> Seq<GroupModel> {
    Seq::new(list.len(), |i: int| list[i]@)
}

/// The names of services.
pub open spec fn service_ids(list: Seq<ServiceModel>) -> Seq<Seq<char>> {
    Seq::new(list.len(), |i: int| list[i].id)
}

/// The names of groups.
pub open spec fn group_ids(list: Seq<GroupModel>) -> Seq<Seq<char>> {
    Seq::new(list.len(), |i: int| list[i].id)
}

/// Whether names ascend strictly, so that no name occurs twice.
pub open spec fn ascending(ids: Seq<Seq<char>>) -> bool {
    forall|i: int, j: int| 0 <= i < j < ids.len() ==> text::text_less(ids[i], ids[j])
}

/// The position at which a name keeps the order.
pub open spec fn insertion_point(ids: Seq<Seq<char>>, id: Seq<char>) -> int
    decreases ids.len(),
{
    if ids.len() == 0 || !text::text_less(ids[0], id) {
        0
    } else {
        1 + insertion_point(ids.drop_first(), id)
    }
}

/// The services with one more of them.
pub open spec fn with_service(list: Seq<ServiceModel>, service: ServiceModel) -> Seq<
    ServiceModel,
> {
    list.insert(insertion_point(service_ids(list), service.id), service)
}

/// The point of insertion is where the names that precede end.
pub proof fn insertion_point_law(ids: Seq<Seq<char>>, id: Seq<char>, i: int)
    requires
        0 <= i <= ids.len(),
        forall|k: int| 0 <= k < i ==> text::text_less(#[trigger] ids[k], id),
        i < ids.len() ==> !text::text_less(ids[i], id),
    ensures
        insertion_point(ids, id) == i,
    decreases ids.len(),
{
    if i > 0 {
        let rest = ids.drop_first();
        assert forall|k: int| 0 <= k < i - 1 implies text::text_less(#[trigger] rest[k], id) by {
            assert(rest[k] == ids[k + 1]);
        }
        assert(text::text_less(ids[0], id));
        insertion_point_law(rest, id, i - 1);
    }
}

/// The point of insertion lies within the list.
pub proof fn insertion_point_bounds(ids: Seq<Seq<char>>, id: Seq<char>)
    ensures
        0 <= insertion_point(ids, id) <= ids.len(),
        forall|k: int|
            0 <= k < insertion_point(ids, id) ==> text::text_less(#[trigger] ids[k], id),
        insertion_point(ids, id) < ids.len() ==> !text::text_less(
            ids[insertion_point(ids, id)],
            id,
        ),
    decreases ids.len(),
{
    if ids.len() > 0 && text::text_less(ids[0], id) {
        let rest = ids.drop_first();
        insertion_point_bounds(rest, id);
        assert forall|k: int| 0 <= k < insertion_point(ids, id) implies text::text_less(
            #[trigger] ids[k],
            id,
        ) by {
            if k > 0 {
                assert(rest[k - 1] == ids[k]);
            }
        }
    }
}

/// Inserting a new name at its point keeps the order.
pub proof fn insertion_keeps_order(ids: Seq<Seq<char>>, id: Seq<char>)
    requires
        ascending(ids),
        !ids.contains(id),
    ensures
        ascending(ids.insert(insertion_point(ids, id), id)),
{
    insertion_point_bounds(ids, id);
    let p = insertion_point(ids, id);
    let result = ids.insert(p, id);
    assert forall|j: int| p <= j < ids.len() implies text::text_less(id, #[trigger] ids[j]) by {
        text::text_less_total(id, ids[p]);
        assert(ids[p] != id) by {
            assert(ids.contains(ids[p]));
        }
        if j > p {
            text::text_less_transitive(id, ids[p], ids[j]);
        }
    }
    assert forall|i: int, j: int| 0 <= i < j < result.len() implies text::text_less(
        result[i],
        result[j],
    ) by {
        if i < p && j < p {
            assert(text::text_less(ids[i], ids[j]));
        } else if i < p && j == p {
            assert(text::text_less(ids[i], id));
        } else if i < p {
            assert(text::text_less(ids[i], ids[j - 1]));
        } else if i == p {
            assert(text::text_less(id, ids[j - 1]));
        } else {
            assert(text::text_less(ids[i - 1], ids[j - 1]));
        }
    }
}

/// Names that ascend are distinct.
pub proof fn ascending_distinct(ids: Seq<Seq<char>>, i: int, j: int)
    requires
        ascending(ids),
        0 <= i < ids.len(),
        0 <= j < ids.len(),
        ids[i] == ids[j],
    ensures
        i == j,
{
    text::text_less_irreflexive(ids[i]);
}

/// The nodes of a configuration, each sort in ascending order of the names.
#[derive(Debug, PartialEq, Eq)]
pub struct Catalog {
    pub services: Vec<ServiceDefinition>,
    pub groups: Vec<GroupDefinition>,
}

/// What a [`Catalog`] holds. A node is a number: first the services, then the
/// groups.
#[verifier::ext_equal]
pub struct CatalogModel {
    pub services: Seq<ServiceModel>,
    pub groups: Seq<GroupModel>,
}

impl View for Catalog {
    type V = CatalogModel;

    open spec fn view(&self) -> CatalogModel {
        CatalogModel {
            services: service_models(self.services@),
            groups: group_models(self.groups@),
        }
    }
}

impl CatalogModel {
    /// The number of nodes.
    pub open spec fn len(self) -> nat {
        self.services.len() + self.groups.len()
    }

    /// The name of a node.
    pub open spec fn id(self, node: int) -> Seq<char> {
        if node < self.services.len() {
            self.services[node].id
        } else {
            self.groups[node - self.services.len()].id
        }
    }

    /// What a node depends on.
    pub open spec fn dependencies(self, node: int) -> DependenciesModel {
        if node < self.services.len() {
            self.services[node].dependencies
        } else {
            self.groups[node - self.services.len()].dependencies
        }
    }

    /// Whether a node has the name.
    pub open spec fn contains(self, id: Seq<char>) -> bool {
        exists|x: int| 0 <= x < self.len() && #[trigger] self.id(x) == id
    }

    /// Whether each sort of nodes is in ascending order of the names, and no service
    /// shares its name with a group.
    pub open spec fn ordered(self) -> bool {
        &&& ascending(service_ids(self.services))
        &&& ascending(group_ids(self.groups))
        &&& forall|i: int, j: int|
            0 <= i < self.services.len() && 0 <= j < self.groups.len() ==> self.services[i].id
                != self.groups[j].id
    }

    /// Activating the first node activates the second: it is required or wanted.
    pub open spec fn activation(self) -> spec_fn(int, int) -> bool {
        |x: int, y: int|
            self.dependencies(x).requires.contains(self.id(y)) || self.dependencies(
                x,
            ).wants.contains(self.id(y))
    }

    /// The first node requires the second.
    pub open spec fn requirement(self) -> spec_fn(int, int) -> bool {
        |x: int, y: int| self.dependencies(x).requires.contains(self.id(y))
    }

    /// The second node is part of what the first one stands for once it has come up: it is
    /// required, or wanted by a group.
    pub open spec fn membership(self) -> spec_fn(int, int) -> bool {
        |x: int, y: int|
            self.dependencies(x).requires.contains(self.id(y)) || (x >= self.services.len()
                && self.dependencies(x).wants.contains(self.id(y)))
    }

    /// The second node comes before the first in the order of starting.
    pub open spec fn ordering(self) -> spec_fn(int, int) -> bool {
        |x: int, y: int|
            self.dependencies(x).requires.contains(self.id(y)) || self.dependencies(
                x,
            ).after.contains(self.id(y))
    }

    /// Whether activating node `x` activates node `y`.
    pub open spec fn activates(self, x: int, y: int) -> bool {
        graph::reaches(self.len(), self.activation(), x, y)
    }

    /// Whether node `y` is required for node `x` to come up: it is the node itself, or is
    /// required, directly or through other nodes.
    pub open spec fn demands(self, x: int, y: int) -> bool {
        graph::reaches(self.len(), self.requirement(), x, y)
    }

    /// Whether node `x` needs service `y`: it requires it, directly or through other nodes.
    pub open spec fn needs(self, x: int, y: int) -> bool {
        beyond(self.len(), self.requirement(), x, y)
    }

    /// Whether service `x` waits for service `y` before it starts: it needs it, or a group
    /// that it needs wants it.
    pub open spec fn awaits(self, x: int, y: int) -> bool {
        beyond(self.len(), self.membership(), x, y)
    }
}

/// Whether a walk of at least one edge leads from one node to another.
pub open spec fn beyond(n: nat, edge: spec_fn(int, int) -> bool, x: int, y: int) -> bool {
    exists|z: int| 0 <= z < n && #[trigger] edge(x, z) && graph::reaches(n, edge, z, y)
}

/// No two nodes of an ordered catalog share a name.
pub proof fn catalog_distinct(c: CatalogModel, x: int, y: int)
    requires
        c.ordered(),
        0 <= x < c.len(),
        0 <= y < c.len(),
        c.id(x) == c.id(y),
    ensures
        x == y,
{
    let n = c.services.len();
    if x < n && y < n {
        assert(service_ids(c.services)[x] == service_ids(c.services)[y]);
        ascending_distinct(service_ids(c.services), x, y);
    } else if x >= n && y >= n {
        assert(group_ids(c.groups)[x - n] == group_ids(c.groups)[y - n]);
        ascending_distinct(group_ids(c.groups), x - n, y - n);
    } else if x < n {
        assert(c.services[x].id != c.groups[y - n].id);
    } else {
        assert(c.services[y].id != c.groups[x - n].id);
    }
}

impl Catalog {
    /// Whether the number of nodes is a machine number.
    pub open spec fn sized(self) -> bool {
        self@.len() <= usize::MAX
    }

    /// The position of a service.
    pub fn find_service(&self, id: &ServiceId) -> (r: Option<usize>)
        ensures
            match r {
                Some(i) => i < self@.services.len() && self@.services[i as int].id == id@,
                None => forall|i: int|
                    0 <= i < self@.services.len() ==> (#[trigger] self@.services[i]).id != id@,
            },
    {
        let mut i: usize = 0;
        while i < self.services.len()
            invariant
                i <= self.services.len(),
                forall|k: int| 0 <= k < i ==> (#[trigger] self@.services[k]).id != id@,
            decreases self.services.len() - i,
        {
            if self.services[i].id.same(id) {
                return Some(i);
            }
            i = i + 1;
        }
        None
    }

    /// The position of a group among the groups.
    pub fn find_group(&self, id: &ServiceId) -> (r: Option<usize>)
        ensures
            match r {
                Some(i) => i < self@.groups.len() && self@.groups[i as int].id == id@,
                None => forall|i: int|
                    0 <= i < self@.groups.len() ==> (#[trigger] self@.groups[i]).id != id@,
            },
    {
        let mut i: usize = 0;
        while i < self.groups.len()
            invariant
                i <= self.groups.len(),
                forall|k: int| 0 <= k < i ==> (#[trigger] self@.groups[k]).id != id@,
            decreases self.groups.len() - i,
        {
            if self.groups[i].id.same(id) {
                return Some(i);
            }
            i = i + 1;
        }
        None
    }

    /// The node that has a name.
    pub fn find(&self, id: &ServiceId) -> (r: Option<usize>)
        requires
            self.sized(),
        ensures
            match r {
                Some(x) => x < self@.len() && self@.id(x as int) == id@,
                None => !self@.contains(id@),
            },
    {
        match self.find_service(id) {
            Some(i) => Some(i),
            None => match self.find_group(id) {
                Some(j) => Some(self.services.len() + j),
                None => {
                    proof {
                        assert forall|x: int| 0 <= x < self@.len() implies #[trigger] self@.id(x)
                            != id@ by {
                            if x >= self@.services.len() {
                                assert(self@.groups[x - self@.services.len()].id != id@);
                            }
                        }
                    }
                    None
                },
            },
        }
    }

    /// The number of nodes.
    pub fn len(&self) -> (r: usize)
        requires
            self.sized(),
        ensures
            r == self@.len(),
    {
        self.services.len() + self.groups.len()
    }

    /// The name of a node.
    pub fn id(&self, node: usize) -> (r: &ServiceId)
        requires
            node < self@.len(),
        ensures
            r@ == self@.id(node as int),
    {
        if node < self.services.len() {
            &self.services[node].id
        } else {
            &self.groups[node - self.services.len()].id
        }
    }

    /// What a node depends on.
    pub fn dependencies(&self, node: usize) -> (r: &Dependencies)
        requires
            node < self@.len(),
        ensures
            r@ == self@.dependencies(node as int),
    {
        if node < self.services.len() {
            &self.services[node].dependencies
        } else {
            &self.groups[node - self.services.len()].dependencies
        }
    }
}

/// The nodes that names stand for, in order; a name without a node is left out.
pub open spec fn resolved(c: CatalogModel, ids: Seq<Seq<char>>, nodes: Seq<usize>) -> bool {
    &&& forall|k: int| 0 <= k < nodes.len() ==> #[trigger] nodes[k] < c.len()
    &&& forall|y: int|
        0 <= y < c.len() ==> ((exists|k: int| 0 <= k < nodes.len() && nodes[k] == y)
            <==> ids.contains(#[trigger] c.id(y)))
}

impl Catalog {
    /// Appends the nodes that names stand for.
    fn resolve(&self, ids: &Vec<ServiceId>, nodes: &mut Vec<usize>)
        requires
            self.sized(),
            self@.ordered(),
            forall|k: int| 0 <= k < old(nodes)@.len() ==> #[trigger] old(nodes)@[k] < self@.len(),
        ensures
            final(nodes)@.len() >= old(nodes)@.len(),
            final(nodes)@.take(old(nodes)@.len() as int) == old(nodes)@,
            resolved(
                self@,
                model::id_texts(ids@),
                final(nodes)@.skip(old(nodes)@.len() as int),
            ),
    {
        let ghost base = nodes@;
        let ghost names = model::id_texts(ids@);
        let mut i: usize = 0;
        while i < ids.len()
            invariant
                self.sized(),
                self@.ordered(),
                names == model::id_texts(ids@),
                i <= ids.len(),
                nodes@.len() >= base.len(),
                nodes@.take(base.len() as int) == base,
                forall|k: int|
                    base.len() <= k < nodes@.len() ==> #[trigger] nodes@[k] < self@.len()
                        && names.take(i as int).contains(self@.id(nodes@[k] as int)),
                forall|y: int|
                    0 <= y < self@.len() && names.take(i as int).contains(#[trigger] self@.id(y))
                        ==> exists|k: int| base.len() <= k < nodes@.len() && nodes@[k] == y,
            decreases ids.len() - i,
        {
            let ghost before = nodes@;
            proof {
                assert(names.take(i + 1) =~= names.take(i as int).push(names[i as int]));
                assert(names[i as int] == ids@[i as int]@);
                assert(names.take(i + 1)[i as int] == names[i as int]);
            }
            let found = self.find(&ids[i]);
            if let Some(x) = found {
                nodes.push(x);
                proof {
                    assert(nodes@.take(base.len() as int) =~= before.take(base.len() as int));
                }
            }
            proof {
                assert forall|k: int| base.len() <= k < nodes@.len() implies #[trigger] nodes@[k]
                    < self@.len() && names.take(i + 1).contains(self@.id(nodes@[k] as int)) by {
                    if k < before.len() {
                        let id = self@.id(before[k] as int);
                        let head = names.take(i as int);
                        let q = choose|q: int| 0 <= q < head.len() && head[q] == id;
                        assert(names.take(i + 1)[q] == id);
                    }
                }
                assert forall|y: int|
                    0 <= y < self@.len() && names.take(i + 1).contains(
                        #[trigger] self@.id(y),
                    ) implies exists|k: int| base.len() <= k < nodes@.len() && nodes@[k] == y by {
                    let head = names.take(i + 1);
                    let q = choose|q: int| 0 <= q < head.len() && head[q] == self@.id(y);
                    if q < i {
                        assert(names.take(i as int)[q] == self@.id(y));
                        let k = choose|k: int| base.len() <= k < before.len() && before[k] == y;
                        assert(nodes@[k] == y);
                    } else {
                        assert(self@.contains(names[i as int]));
                        let x = found->0;
                        catalog_distinct(self@, x as int, y);
                        assert(nodes@[before.len() as int] == y);
                    }
                }
            }
            i = i + 1;
        }
        proof {
            assert(names.take(names.len() as int) =~= names);
            let tail = nodes@.skip(base.len() as int);
            assert forall|k: int| 0 <= k < tail.len() implies #[trigger] tail[k]
                < self@.len() by {
                assert(tail[k] == nodes@[base.len() + k]);
            }
            assert forall|y: int| 0 <= y < self@.len() implies ((exists|k: int|
                0 <= k < tail.len() && tail[k] == y) <==> names.contains(
                #[trigger] self@.id(y),
            )) by {
                if exists|k: int| 0 <= k < tail.len() && tail[k] == y {
                    let k = choose|k: int| 0 <= k < tail.len() && tail[k] == y;
                    assert(nodes@[base.len() + k] == y);
                }
                if names.contains(self@.id(y)) {
                    let k = choose|k: int| base.len() <= k < nodes@.len() && nodes@[k] == y;
                    assert(tail[k - base.len()] == y);
                }
            }
        }
    }
}

/// The services that service `i` needs, in ascending order.
pub open spec fn needed_services(c: CatalogModel, i: int) -> Seq<int> {
    graph::selected(|j: int| c.needs(i, j), c.services.len())
}

/// The services that service `i` waits for before it starts, in ascending order.
pub open spec fn awaited_services(c: CatalogModel, i: int) -> Seq<int> {
    graph::selected(|j: int| c.awaits(i, j), c.services.len())
}

/// The services that are required for node `x` to come up, in ascending order.
pub open spec fn demanded_services(c: CatalogModel, x: int) -> Seq<int> {
    graph::selected(|j: int| c.demands(x, j), c.services.len())
}

/// The services that activating node `x` activates and that are not required for it to
/// come up, in ascending order.
pub open spec fn optional_services(c: CatalogModel, x: int) -> Seq<int> {
    graph::selected(|j: int| c.activates(x, j) && !c.demands(x, j), c.services.len())
}

/// The services that activating node `x` activates, in ascending order.
pub open spec fn activated_services(c: CatalogModel, x: int) -> Seq<int> {
    graph::selected(|j: int| c.activates(x, j), c.services.len())
}

/// Which edges of a node adjacency lists hold.
pub open spec fn lists_relation(next: Seq<Vec<usize>>, edge: spec_fn(int, int) -> bool) -> bool {
    &&& graph::in_range(graph::lists(next))
    &&& forall|x: int, y: int|
        0 <= x < next.len() && 0 <= y < next.len() ==> #[trigger] graph::links(
            graph::lists(next),
        )(x, y) == edge(x, y)
}

/// Which nodes one adjacency list holds.
spec fn lists_row(row: Seq<usize>, n: nat, edge: spec_fn(int, int) -> bool, x: int) -> bool {
    &&& forall|k: int| 0 <= k < row.len() ==> #[trigger] row[k] < n
    &&& forall|y: int|
        0 <= y < n ==> ((exists|k: int| 0 <= k < row.len() && row[k] == y) <==> #[trigger] edge(
            x,
            y,
        ))
}

proof fn rows_make_relation(next: Seq<Vec<usize>>, edge: spec_fn(int, int) -> bool)
    requires
        forall|x: int| 0 <= x < next.len() ==> lists_row(#[trigger] next[x]@, next.len(), edge, x),
    ensures
        lists_relation(next, edge),
{
    let adjacency = graph::lists(next);
    assert forall|a: int, k: int|
        0 <= a < adjacency.len() && 0 <= k < adjacency[a].len() implies 0
        <= #[trigger] adjacency[a][k] < adjacency.len() by {
        assert(lists_row(next[a]@, next.len(), edge, a));
        assert(adjacency[a][k] == next[a]@[k]);
    }
    assert forall|x: int, y: int|
        0 <= x < next.len() && 0 <= y < next.len() implies #[trigger] graph::links(adjacency)(
        x,
        y,
    ) == edge(x, y) by {
        assert(lists_row(next[x]@, next.len(), edge, x));
        if graph::links(adjacency)(x, y) {
            let k = choose|k: int| 0 <= k < adjacency[x].len() && adjacency[x][k] == y;
            assert(next[x]@[k] == y);
        }
        if edge(x, y) {
            let k = choose|k: int| 0 <= k < next[x]@.len() && next[x]@[k] == y;
            assert(adjacency[x][k] == y);
        }
    }
}

impl Catalog {
    /// The nodes that the required names of a node stand for, and those that the
    /// wanted names stand for where they count.
    fn row(&self, node: usize, with_wants: bool) -> (row: Vec<usize>)
        requires
            self.sized(),
            self@.ordered(),
            node < self@.len(),
        ensures
            forall|k: int| 0 <= k < row@.len() ==> #[trigger] row@[k] < self@.len(),
            forall|y: int|
                0 <= y < self@.len() ==> ((exists|k: int| 0 <= k < row@.len() && row@[k] == y) <==> (
                self@.dependencies(node as int).requires.contains(#[trigger] self@.id(y)) || (
                with_wants && self@.dependencies(node as int).wants.contains(self@.id(y))))),
    {
        let dependencies = self.dependencies(node);
        let mut row: Vec<usize> = Vec::new();
        self.resolve(&dependencies.requires, &mut row);
        let ghost first = row@;
        proof {
            assert(row@.skip(0) =~= row@);
        }
        if with_wants {
            self.resolve(&dependencies.wants, &mut row);
            proof {
                let tail = row@.skip(first.len() as int);
                assert forall|k: int| 0 <= k < row@.len() implies #[trigger] row@[k]
                    < self@.len() by {
                    if k < first.len() {
                        assert(row@.take(first.len() as int)[k] == row@[k]);
                        assert(first[k] == row@[k]);
                    } else {
                        assert(tail[k - first.len()] == row@[k]);
                    }
                }
                assert forall|y: int| 0 <= y < self@.len() implies ((exists|k: int|
                    0 <= k < row@.len() && row@[k] == y) <==> (self@.dependencies(
                    node as int,
                ).requires.contains(#[trigger] self@.id(y)) || self@.dependencies(
                    node as int,
                ).wants.contains(self@.id(y)))) by {
                    if exists|k: int| 0 <= k < row@.len() && row@[k] == y {
                        let k = choose|k: int| 0 <= k < row@.len() && row@[k] == y;
                        if k < first.len() {
                            assert(row@.take(first.len() as int)[k] == row@[k]);
                            assert(first[k] == y);
                        } else {
                            assert(tail[k - first.len()] == y);
                        }
                    }
                    if exists|k: int| 0 <= k < first.len() && first[k] == y {
                        let k = choose|k: int| 0 <= k < first.len() && first[k] == y;
                        assert(row@.take(first.len() as int)[k] == y);
                        assert(row@[k] == y);
                    }
                    if exists|k: int| 0 <= k < tail.len() && tail[k] == y {
                        let k = choose|k: int| 0 <= k < tail.len() && tail[k] == y;
                        assert(row@[first.len() + k] == y);
                    }
                }
            }
        }
        row
    }

    /// Adjacency lists of activation.
    fn activation_lists(&self) -> (next: Vec<Vec<usize>>)
        requires
            self.sized(),
            self@.ordered(),
        ensures
            next@.len() == self@.len(),
            lists_relation(next@, self@.activation()),
    {
        let n = self.len();
        let mut next: Vec<Vec<usize>> = Vec::new();
        let mut x: usize = 0;
        while x < n
            invariant
                self.sized(),
                self@.ordered(),
                n == self@.len(),
                x <= n,
                next@.len() == x,
                forall|a: int|
                    0 <= a < x ==> lists_row(
                        #[trigger] next@[a]@,
                        n as nat,
                        self@.activation(),
                        a,
                    ),
            decreases n - x,
        {
            let row = self.row(x, true);
            next.push(row);
            x = x + 1;
        }
        proof {
            rows_make_relation(next@, self@.activation());
        }
        next
    }

    /// Adjacency lists of requirement.
    fn requirement_lists(&self) -> (next: Vec<Vec<usize>>)
        requires
            self.sized(),
            self@.ordered(),
        ensures
            next@.len() == self@.len(),
            lists_relation(next@, self@.requirement()),
    {
        let n = self.len();
        let mut next: Vec<Vec<usize>> = Vec::new();
        let mut x: usize = 0;
        while x < n
            invariant
                self.sized(),
                self@.ordered(),
                n == self@.len(),
                x <= n,
                next@.len() == x,
                forall|a: int|
                    0 <= a < x ==> lists_row(
                        #[trigger] next@[a]@,
                        n as nat,
                        self@.requirement(),
                        a,
                    ),
            decreases n - x,
        {
            let row = self.row(x, false);
            next.push(row);
            x = x + 1;
        }
        proof {
            rows_make_relation(next@, self@.requirement());
        }
        next
    }

    /// Adjacency lists of membership.
    fn membership_lists(&self) -> (next: Vec<Vec<usize>>)
        requires
            self.sized(),
            self@.ordered(),
        ensures
            next@.len() == self@.len(),
            lists_relation(next@, self@.membership()),
    {
        let n = self.len();
        let mut next: Vec<Vec<usize>> = Vec::new();
        let mut x: usize = 0;
        while x < n
            invariant
                self.sized(),
                self@.ordered(),
                n == self@.len(),
                x <= n,
                next@.len() == x,
                forall|a: int|
                    0 <= a < x ==> lists_row(
                        #[trigger] next@[a]@,
                        n as nat,
                        self@.membership(),
                        a,
                    ),
            decreases n - x,
        {
            let row = self.row(x, x >= self.services.len());
            next.push(row);
            x = x + 1;
        }
        proof {
            rows_make_relation(next@, self@.membership());
        }
        next
    }

    /// For each service the services that lie beyond it.
    fn closure_table(&self, next: &Vec<Vec<usize>>, Ghost(edge): Ghost<spec_fn(int, int) -> bool>) -> (table: Vec<
        Vec<usize>,
    >)
        requires
            self.sized(),
            next@.len() == self@.len(),
            lists_relation(next@, edge),
        ensures
            table@.len() == self@.services.len(),
            forall|i: int|
                0 <= i < table@.len() ==> graph::ints(#[trigger] table@[i]@) == graph::selected(
                    |j: int| beyond(self@.len(), edge, i, j),
                    self@.services.len(),
                ),
    {
        let count = self.services.len();
        let ghost n = self@.len();
        let ghost held = graph::links(graph::lists(next@));
        let mut table: Vec<Vec<usize>> = Vec::new();
        let mut i: usize = 0;
        while i < count
            invariant
                n == self@.len(),
                count == self@.services.len(),
                next@.len() == n,
                held == graph::links(graph::lists(next@)),
                lists_relation(next@, edge),
                i <= count,
                table@.len() == i,
                forall|a: int|
                    0 <= a < i ==> graph::ints(#[trigger] table@[a]@) == graph::selected(
                        |j: int| beyond(n, edge, a, j),
                        count as nat,
                    ),
            decreases count - i,
        {
            let ghost adjacency = graph::lists(next@);
            proof {
                assert forall|k: int|
                    0 <= k < next@[i as int]@.len() implies #[trigger] next@[i as int]@[k]
                    < next@.len() by {
                    assert(adjacency[i as int][k] == next@[i as int]@[k]);
                }
            }
            let marks = graph::reachable(next, &next[i]);
            let list = graph::marked(&marks, count);
            proof {
                let roots = next@[i as int]@;
                let p = |j: int| marks@[j];
                let q = |j: int| beyond(n, edge, i as int, j);
                assert forall|j: int| 0 <= j < count implies #[trigger] p(j) == q(j) by {
                    assert(marks@[j] == graph::reached_from(n, held, roots, j));
                    if marks@[j] {
                        let k = choose|k: int|
                            0 <= k < roots.len() && graph::reaches(
                                n,
                                held,
                                #[trigger] roots[k] as int,
                                j,
                            );
                        let z = roots[k] as int;
                        assert(adjacency[i as int][k] == z);
                        assert(held(i as int, z));
                        graph::reaches_agree(n, held, edge, z, j);
                        assert(edge(i as int, z));
                    }
                    if q(j) {
                        let z = choose|z: int|
                            0 <= z < n && #[trigger] edge(i as int, z) && graph::reaches(
                                n,
                                edge,
                                z,
                                j,
                            );
                        assert(held(i as int, z) == edge(i as int, z));
                        let k = choose|k: int|
                            0 <= k < adjacency[i as int].len() && adjacency[i as int][k] == z;
                        assert(roots[k] == z);
                        graph::reaches_agree(n, held, edge, z, j);
                        assert(graph::reached_from(n, held, roots, j));
                    }
                }
                graph::selected_agree(p, q, count as nat);
            }
            table.push(list);
            i = i + 1;
        }
        table
    }

    /// For each service the services that it needs.
    pub fn needed_table(&self) -> (table: Vec<Vec<usize>>)
        requires
            self.sized(),
            self@.ordered(),
        ensures
            table@.len() == self@.services.len(),
            forall|i: int|
                0 <= i < table@.len() ==> graph::ints(#[trigger] table@[i]@) == needed_services(
                    self@,
                    i,
                ),
    {
        let next = self.requirement_lists();
        let ghost edge = self@.requirement();
        let table = self.closure_table(&next, Ghost(edge));
        proof {
            assert forall|i: int| 0 <= i < table@.len() implies graph::ints(#[trigger] table@[i]@)
                == needed_services(self@, i) by {
                graph::selected_agree(
                    |j: int| beyond(self@.len(), edge, i, j),
                    |j: int| self@.needs(i, j),
                    self@.services.len(),
                );
            }
        }
        table
    }

    /// For each service the services that it waits for.
    pub fn awaited_table(&self) -> (table: Vec<Vec<usize>>)
        requires
            self.sized(),
            self@.ordered(),
        ensures
            table@.len() == self@.services.len(),
            forall|i: int|
                0 <= i < table@.len() ==> graph::ints(#[trigger] table@[i]@) == awaited_services(
                    self@,
                    i,
                ),
    {
        let next = self.membership_lists();
        let ghost edge = self@.membership();
        let table = self.closure_table(&next, Ghost(edge));
        proof {
            assert forall|i: int| 0 <= i < table@.len() implies graph::ints(#[trigger] table@[i]@)
                == awaited_services(self@, i) by {
                graph::selected_agree(
                    |j: int| beyond(self@.len(), edge, i, j),
                    |j: int| self@.awaits(i, j),
                    self@.services.len(),
                );
            }
        }
        table
    }

    /// Marks the services that are required for a node to come up.
    pub fn demanded_marks(&self, node: usize) -> (marks: Vec<bool>)
        requires
            self.sized(),
            self@.ordered(),
            node < self@.len(),
        ensures
            marks@.len() == self@.len(),
            forall|j: int|
                0 <= j < marks@.len() ==> #[trigger] marks@[j] == self@.demands(node as int, j),
    {
        let next = self.requirement_lists();
        let ghost n = self@.len();
        let ghost edge = self@.requirement();
        let ghost held = graph::links(graph::lists(next@));
        let mut roots: Vec<usize> = Vec::new();
        roots.push(node);
        let marks = graph::reachable(&next, &roots);
        proof {
            assert forall|j: int| 0 <= j < marks@.len() implies #[trigger] marks@[j]
                == self@.demands(node as int, j) by {
                graph::reaches_agree(n, held, edge, node as int, j);
                if self@.demands(node as int, j) {
                    assert(roots@[0] as int == node as int);
                    assert(graph::reached_from(n, held, roots@, j));
                }
            }
        }
        marks
    }

    /// For each node the services that activating it activates.
    pub fn activation_table(&self) -> (table: Vec<Vec<usize>>)
        requires
            self.sized(),
            self@.ordered(),
        ensures
            table@.len() == self@.len(),
            forall|x: int|
                0 <= x < table@.len() ==> graph::ints(#[trigger] table@[x]@)
                    == activated_services(self@, x),
    {
        let next = self.activation_lists();
        let count = self.services.len();
        let n = self.len();
        let ghost edge = self@.activation();
        let ghost held = graph::links(graph::lists(next@));
        let mut table: Vec<Vec<usize>> = Vec::new();
        let mut x: usize = 0;
        while x < n
            invariant
                n == self@.len(),
                count == self@.services.len(),
                next@.len() == n,
                edge == self@.activation(),
                held == graph::links(graph::lists(next@)),
                lists_relation(next@, edge),
                x <= n,
                table@.len() == x,
                forall|a: int|
                    0 <= a < x ==> graph::ints(#[trigger] table@[a]@) == activated_services(
                        self@,
                        a,
                    ),
            decreases n - x,
        {
            let mut roots: Vec<usize> = Vec::new();
            roots.push(x);
            let marks = graph::reachable(&next, &roots);
            let list = graph::marked(&marks, count);
            proof {
                let p = |j: int| marks@[j];
                let q = |j: int| self@.activates(x as int, j);
                assert forall|j: int| 0 <= j < count implies #[trigger] p(j) == q(j) by {
                    graph::reaches_agree(n as nat, held, edge, x as int, j);
                    if q(j) {
                        assert(roots@[0] as int == x as int);
                        assert(graph::reached_from(n as nat, held, roots@, j));
                    }
                }
                graph::selected_agree(p, q, count as nat);
            }
            table.push(list);
            x = x + 1;
        }
        table
    }
}

/// Something that does not keep a configuration from being used.
#[derive(Debug, PartialEq, Eq)]
pub enum ConfigWarning {
    MissingWanted { owner: ServiceId, target: ServiceId },
}

/// What a [`ConfigWarning`] says.
#[verifier::ext_equal]
pub enum WarningModel {
    MissingWanted { owner: Seq<char>, target: Seq<char> },
}

impl View for ConfigWarning {
    type V = WarningModel;

    open spec fn view(&self) -> WarningModel {
        match *self {
            ConfigWarning::MissingWanted { owner, target } => WarningModel::MissingWanted {
                owner: owner@,
                target: target@,
            },
        }
    }
}

/// What a list of warnings says.
pub open spec fn warning_models(list: Seq<ConfigWarning>) -> Seq<WarningModel> {
    Seq::new(list.len(), |i: int| list[i]@)
}

/// The first name among the first `n` that no node has.
pub open spec fn first_missing(c: CatalogModel, ids: Seq<Seq<char>>, n: nat) -> Option<Seq<char>>
    decreases n,
{
    if n == 0 {
        None
    } else {
        match first_missing(c, ids, (n - 1) as nat) {
            Some(id) => Some(id),
            None => if c.contains(ids[n - 1]) {
                None
            } else {
                Some(ids[n - 1])
            },
        }
    }
}

/// The warnings for the wanted names among the first `n` that no node has.
pub open spec fn wanted_warnings(
    c: CatalogModel,
    owner: Seq<char>,
    ids: Seq<Seq<char>>,
    n: nat,
) -> Seq<WarningModel>
    decreases n,
{
    if n == 0 {
        Seq::empty()
    } else {
        let before = wanted_warnings(c, owner, ids, (n - 1) as nat);
        if c.contains(ids[n - 1]) {
            before
        } else {
            before.push(WarningModel::MissingWanted { owner, target: ids[n - 1] })
        }
    }
}

/// A relation of a node that names what is not there.
pub open spec fn missing_error(
    owner: Seq<char>,
    relation: Seq<char>,
    target: Seq<char>,
) -> ErrorModel {
    ErrorModel::MissingDependency { owner, relation, target }
}

/// Why the references of a node are refused: a required, ordering or conflict
/// target is not there.
pub open spec fn reference_error(c: CatalogModel, x: int) -> Option<ErrorModel> {
    let d = c.dependencies(x);
    if first_missing(c, d.requires, d.requires.len()) is Some {
        Some(
            missing_error(
                c.id(x),
                "required"@,
                first_missing(c, d.requires, d.requires.len())->0,
            ),
        )
    } else if first_missing(c, d.after, d.after.len()) is Some {
        Some(
            missing_error(c.id(x), "ordering"@, first_missing(c, d.after, d.after.len())->0),
        )
    } else if first_missing(c, d.conflicts, d.conflicts.len()) is Some {
        Some(
            missing_error(
                c.id(x),
                "conflict"@,
                first_missing(c, d.conflicts, d.conflicts.len())->0,
            ),
        )
    } else {
        None
    }
}

/// The warnings of the first `n` nodes, or the error of the first node among them
/// that has one.
pub open spec fn references_result(c: CatalogModel, n: nat) -> Result<
    Seq<WarningModel>,
    ErrorModel,
>
    decreases n,
{
    if n == 0 {
        Ok(Seq::empty())
    } else {
        match references_result(c, (n - 1) as nat) {
            Err(e) => Err(e),
            Ok(warnings) => match reference_error(c, n - 1) {
                Some(e) => Err(e),
                None => Ok(
                    warnings + wanted_warnings(
                        c,
                        c.id(n - 1),
                        c.dependencies(n - 1).wants,
                        c.dependencies(n - 1).wants.len(),
                    ),
                ),
            },
        }
    }
}

/// Whether every name stands for a node.
pub open spec fn all_present(c: CatalogModel, ids: Seq<Seq<char>>) -> bool {
    forall|k: int| 0 <= k < ids.len() ==> c.contains(#[trigger] ids[k])
}

/// Whether every required, ordering and conflict target is there.
pub open spec fn references_hold(c: CatalogModel) -> bool {
    forall|x: int|
        0 <= x < c.len() ==> all_present(c, (#[trigger] c.dependencies(x)).requires)
            && all_present(c, c.dependencies(x).after) && all_present(
            c,
            c.dependencies(x).conflicts,
        )
}

proof fn first_missing_none(c: CatalogModel, ids: Seq<Seq<char>>, n: nat)
    requires
        n <= ids.len(),
        first_missing(c, ids, n) is None,
    ensures
        forall|k: int| 0 <= k < n ==> c.contains(#[trigger] ids[k]),
    decreases n,
{
    if n > 0 {
        first_missing_none(c, ids, (n - 1) as nat);
    }
}

proof fn first_missing_tail(c: CatalogModel, ids: Seq<Seq<char>>, n: nat)
    requires
        n <= ids.len(),
        first_missing(c, ids, n) is Some,
    ensures
        first_missing(c, ids, ids.len()) == first_missing(c, ids, n),
    decreases ids.len() - n,
{
    if n < ids.len() {
        first_missing_tail(c, ids, n + 1);
    }
}

proof fn references_result_tail(c: CatalogModel, n: nat)
    requires
        n <= c.len(),
        references_result(c, n) is Err,
    ensures
        references_result(c, c.len()) == references_result(c, n),
    decreases c.len() - n,
{
    if n < c.len() {
        references_result_tail(c, n + 1);
    }
}

/// A catalog whose references are accepted has every strict target.
pub proof fn accepted_references_hold(c: CatalogModel, n: nat)
    requires
        n <= c.len(),
        references_result(c, n) is Ok,
    ensures
        forall|x: int|
            0 <= x < n ==> all_present(c, (#[trigger] c.dependencies(x)).requires) && all_present(
                c,
                c.dependencies(x).after,
            ) && all_present(c, c.dependencies(x).conflicts),
    decreases n,
{
    if n > 0 {
        accepted_references_hold(c, (n - 1) as nat);
        let d = c.dependencies(n - 1);
        first_missing_none(c, d.requires, d.requires.len());
        first_missing_none(c, d.after, d.after.len());
        first_missing_none(c, d.conflicts, d.conflicts.len());
    }
}

impl Catalog {
    fn missing(&self, ids: &Vec<ServiceId>) -> (r: Option<usize>)
        requires
            self.sized(),
        ensures
            match r {
                Some(k) => k < ids@.len() && first_missing(
                    self@,
                    model::id_texts(ids@),
                    ids@.len(),
                ) == Some(ids@[k as int]@),
                None => first_missing(self@, model::id_texts(ids@), ids@.len()) is None,
            },
    {
        let ghost names = model::id_texts(ids@);
        let mut k: usize = 0;
        while k < ids.len()
            invariant
                self.sized(),
                names == model::id_texts(ids@),
                k <= ids@.len(),
                first_missing(self@, names, k as nat) is None,
            decreases ids@.len() - k,
        {
            proof {
                assert(names[k as int] == ids@[k as int]@);
            }
            match self.find(&ids[k]) {
                Some(x) => {
                    proof {
                        assert(self@.contains(names[k as int]));
                    }
                },
                None => {
                    proof {
                        first_missing_tail(self@, names, k as nat + 1);
                    }
                    return Some(k);
                },
            }
            k = k + 1;
        }
        None
    }

    /// Requires every strict target, and warns of wanted names that are not there.
    pub fn validate_references(&self) -> (r: Result<Vec<ConfigWarning>, ConfigError>)
        requires
            self.sized(),
        ensures
            match r {
                Ok(list) => references_result(self@, self@.len()) == Ok::<
                    Seq<WarningModel>,
                    ErrorModel,
                >(warning_models(list@)) && references_hold(self@),
                Err(e) => references_result(self@, self@.len()) == Err::<
                    Seq<WarningModel>,
                    ErrorModel,
                >(e@),
            },
    {
        let n = self.len();
        let mut warnings: Vec<ConfigWarning> = Vec::new();
        let mut x: usize = 0;
        proof {
            assert(warning_models(warnings@) =~= Seq::empty());
        }
        while x < n
            invariant
                self.sized(),
                n == self@.len(),
                x <= n,
                references_result(self@, x as nat) == Ok::<Seq<WarningModel>, ErrorModel>(
                    warning_models(warnings@),
                ),
            decreases n - x,
        {
            let owner = self.id(x);
            let dependencies = self.dependencies(x);
            if let Some(k) = self.missing(&dependencies.requires) {
                proof {
                    references_result_tail(self@, x as nat + 1);
                }
                return Err(
                    ConfigError::MissingDependency {
                        owner: owner.clone(),
                        relation: "required",
                        target: dependencies.requires[k].clone(),
                    },
                );
            }
            if let Some(k) = self.missing(&dependencies.after) {
                proof {
                    references_result_tail(self@, x as nat + 1);
                }
                return Err(
                    ConfigError::MissingDependency {
                        owner: owner.clone(),
                        relation: "ordering",
                        target: dependencies.after[k].clone(),
                    },
                );
            }
            if let Some(k) = self.missing(&dependencies.conflicts) {
                proof {
                    references_result_tail(self@, x as nat + 1);
                }
                return Err(
                    ConfigError::MissingDependency {
                        owner: owner.clone(),
                        relation: "conflict",
                        target: dependencies.conflicts[k].clone(),
                    },
                );
            }
            let ghost base = warning_models(warnings@);
            let ghost wanted = self@.dependencies(x as int).wants;
            let mut k: usize = 0;
            proof {
                assert(base + wanted_warnings(self@, owner@, wanted, 0) =~= base);
            }
            while k < dependencies.wants.len()
                invariant
                    self.sized(),
                    x < self@.len(),
                    owner@ == self@.id(x as int),
                    dependencies@ == self@.dependencies(x as int),
                    wanted == model::id_texts(dependencies.wants@),
                    k <= dependencies.wants@.len(),
                    warning_models(warnings@) == base + wanted_warnings(
                        self@,
                        owner@,
                        wanted,
                        k as nat,
                    ),
                decreases dependencies.wants@.len() - k,
            {
                proof {
                    assert(wanted[k as int] == dependencies.wants@[k as int]@);
                }
                if self.find(&dependencies.wants[k]).is_none() {
                    let ghost before = warnings@;
                    warnings.push(
                        ConfigWarning::MissingWanted {
                            owner: owner.clone(),
                            target: dependencies.wants[k].clone(),
                        },
                    );
                    proof {
                        let warning = WarningModel::MissingWanted {
                            owner: owner@,
                            target: wanted[k as int],
                        };
                        let earlier = wanted_warnings(self@, owner@, wanted, k as nat);
                        assert(warning_models(warnings@) =~= warning_models(before).push(warning));
                        assert(base + earlier.push(warning) =~= (base + earlier).push(warning));
                    }
                } else {
                    proof {
                        assert(self@.contains(wanted[k as int]));
                    }
                }
                k = k + 1;
            }
            x = x + 1;
        }
        proof {
            accepted_references_hold(self@, self@.len());
        }
        Ok(warnings)
    }
}

impl CatalogModel {
    /// The node that has a name, where one has it.
    pub open spec fn node(self, id: Seq<char>) -> int {
        choose|x: int| 0 <= x < self.len() && #[trigger] self.id(x) == id
    }

    /// The nodes that names stand for.
    pub open spec fn nodes(self, ids: Seq<Seq<char>>) -> Seq<int> {
        Seq::new(ids.len(), |k: int| self.node(ids[k]))
    }

    /// For each node the nodes that come before it: the required ones, then the
    /// ones that it is ordered after.
    pub open spec fn ordering_lists(self) -> Seq<Seq<int>> {
        Seq::new(
            self.len(),
            |x: int| self.nodes(self.dependencies(x).requires + self.dependencies(x).after),
        )
    }

    /// The names of nodes.
    pub open spec fn ids(self, nodes: Seq<int>) -> Seq<Seq<char>> {
        Seq::new(nodes.len(), |k: int| self.id(nodes[k]))
    }
}

/// Why the order of starting is refused: it goes round in a circle.
pub open spec fn ordering_error(c: CatalogModel) -> Option<ErrorModel> {
    match graph::first_cycle(c.ordering_lists()) {
        Some(path) => Some(ErrorModel::DependencyCycle(c.ids(path))),
        None => None,
    }
}

/// Where every strict target is there, the lists of the order of starting hold
/// exactly its relation.
pub proof fn ordering_lists_law(c: CatalogModel)
    requires
        c.ordered(),
        references_hold(c),
    ensures
        graph::in_range(c.ordering_lists()),
        forall|x: int, y: int|
            0 <= x < c.len() && 0 <= y < c.len() ==> #[trigger] graph::links(c.ordering_lists())(
                x,
                y,
            ) == c.ordering()(x, y),
{
    let lists = c.ordering_lists();
    assert forall|x: int, k: int|
        0 <= x < lists.len() && 0 <= k < lists[x].len() implies 0 <= #[trigger] lists[x][k]
        < lists.len() && c.id(lists[x][k]) == (c.dependencies(x).requires + c.dependencies(
        x,
    ).after)[k] by {
        let d = c.dependencies(x);
        let names = d.requires + d.after;
        assert(all_present(c, d.requires) && all_present(c, d.after));
        if k < d.requires.len() {
            assert(names[k] == d.requires[k]);
        } else {
            assert(names[k] == d.after[k - d.requires.len()]);
        }
        assert(c.contains(names[k]));
    }
    assert forall|x: int, y: int|
        0 <= x < c.len() && 0 <= y < c.len() implies #[trigger] graph::links(lists)(x, y)
        == c.ordering()(x, y) by {
        let d = c.dependencies(x);
        let names = d.requires + d.after;
        if graph::links(lists)(x, y) {
            let k = choose|k: int| 0 <= k < lists[x].len() && lists[x][k] == y;
            assert(c.id(lists[x][k]) == names[k]);
            if k < d.requires.len() {
                assert(d.requires[k] == c.id(y));
            } else {
                assert(d.after[k - d.requires.len()] == c.id(y));
            }
        }
        if c.ordering()(x, y) {
            let k = if d.requires.contains(c.id(y)) {
                choose|k: int| 0 <= k < d.requires.len() && d.requires[k] == c.id(y)
            } else {
                d.requires.len() + choose|k: int| 0 <= k < d.after.len() && d.after[k] == c.id(y)
            };
            assert(names[k] == c.id(y));
            catalog_distinct(c, lists[x][k], y);
        }
    }
}

impl Catalog {
    fn push_nodes(&self, ids: &Vec<ServiceId>, nodes: &mut Vec<usize>)
        requires
            self.sized(),
            self@.ordered(),
            all_present(self@, model::id_texts(ids@)),
        ensures
            graph::ints(final(nodes)@) == graph::ints(old(nodes)@) + self@.nodes(
                model::id_texts(ids@),
            ),
    {
        let ghost base = graph::ints(nodes@);
        let ghost names = model::id_texts(ids@);
        let mut k: usize = 0;
        proof {
            assert(base + self@.nodes(names).take(0) =~= base);
        }
        while k < ids.len()
            invariant
                self.sized(),
                self@.ordered(),
                names == model::id_texts(ids@),
                all_present(self@, names),
                k <= ids@.len(),
                graph::ints(nodes@) == base + self@.nodes(names).take(k as int),
            decreases ids@.len() - k,
        {
            proof {
                assert(names[k as int] == ids@[k as int]@);
                assert(self@.contains(names[k as int]));
            }
            let ghost before = graph::ints(nodes@);
            if let Some(y) = self.find(&ids[k]) {
                nodes.push(y);
                proof {
                    catalog_distinct(self@, y as int, self@.node(names[k as int]));
                    assert(graph::ints(nodes@) =~= before.push(y as int));
                    assert(self@.nodes(names).take(k + 1) =~= self@.nodes(names).take(
                        k as int,
                    ).push(y as int));
                    assert(base + self@.nodes(names).take(k + 1) =~= (base + self@.nodes(
                        names,
                    ).take(k as int)).push(y as int));
                }
            }
            k = k + 1;
        }
        proof {
            assert(self@.nodes(names).take(names.len() as int) =~= self@.nodes(names));
        }
    }

    /// Requires that the order of starting does not go round in a circle.
    pub fn validate_ordering(&self) -> (r: Result<(), ConfigError>)
        requires
            self.sized(),
            self@.ordered(),
            references_hold(self@),
        ensures
            model::refusal(r) == ordering_error(self@),
            r is Ok <==> graph::acyclic(self@.len(), self@.ordering()),
            r matches Err(e) ==> e matches ConfigError::DependencyCycle(ids) && exists|
                path: Seq<int>,
            |
                #[trigger] graph::is_cycle(self@.len(), self@.ordering(), path) && model::id_texts(
                    ids@,
                ) == self@.ids(path),
    {
        let n = self.len();
        let mut next: Vec<Vec<usize>> = Vec::new();
        let mut x: usize = 0;
        while x < n
            invariant
                self.sized(),
                self@.ordered(),
                references_hold(self@),
                n == self@.len(),
                x <= n,
                next@.len() == x,
                forall|a: int|
                    0 <= a < x ==> graph::ints(#[trigger] next@[a]@) == self@.ordering_lists()[a],
            decreases n - x,
        {
            let dependencies = self.dependencies(x);
            let mut row: Vec<usize> = Vec::new();
            proof {
                let d = self@.dependencies(x as int);
                assert(all_present(self@, d.requires) && all_present(self@, d.after));
            }
            self.push_nodes(&dependencies.requires, &mut row);
            self.push_nodes(&dependencies.after, &mut row);
            proof {
                let d = self@.dependencies(x as int);
                assert(graph::ints(row@) =~= self@.nodes(d.requires + d.after));
            }
            next.push(row);
            x = x + 1;
        }
        let ghost edge = self@.ordering();
        let ghost held = graph::links(self@.ordering_lists());
        proof {
            assert(graph::lists(next@) =~= self@.ordering_lists());
            ordering_lists_law(self@);
        }
        match graph::find_cycle(&next) {
            None => {
                proof {
                    assert forall|path: Seq<int>| !graph::is_cycle(n as nat, edge, path) by {
                        if graph::is_cycle(n as nat, edge, path) {
                            graph::cycles_agree(n as nat, edge, held, path);
                        }
                    }
                }
                Ok(())
            },
            Some(path) => {
                proof {
                    graph::cycles_agree(n as nat, held, edge, graph::ints(path@));
                }
                let mut ids: Vec<ServiceId> = Vec::new();
                let mut k: usize = 0;
                while k < path.len()
                    invariant
                        n == self@.len(),
                        graph::is_cycle(n as nat, edge, graph::ints(path@)),
                        k <= path@.len(),
                        ids@.len() == k,
                        forall|q: int| 0 <= q < k ==> ids@[q]@ == self@.id(path@[q] as int),
                    decreases path@.len() - k,
                {
                    proof {
                        assert(0 <= graph::ints(path@)[k as int] < n);
                    }
                    ids.push(self.id(path[k]).clone());
                    k = k + 1;
                }
                proof {
                    assert(model::id_texts(ids@) =~= self@.ids(graph::ints(path@)));
                }
                Err(ConfigError::DependencyCycle(ids))
            },
        }
    }
}

/// The first name among the first `n` that stands for a node which activating
/// `root` activates.
pub open spec fn active_name(c: CatalogModel, root: int, ids: Seq<Seq<char>>, n: nat) -> Option<
    Seq<char>,
>
    decreases n,
{
    if n == 0 {
        None
    } else {
        match active_name(c, root, ids, (n - 1) as nat) {
            Some(id) => Some(id),
            None => if c.activates(root, c.node(ids[n - 1])) {
                Some(ids[n - 1])
            } else {
                None
            },
        }
    }
}

/// Whether activating `root` activates both a node and one that it conflicts with.
pub open spec fn conflicted(c: CatalogModel, root: int, x: int) -> bool {
    &&& 0 <= x < c.len()
    &&& c.activates(root, x)
    &&& active_name(c, root, c.dependencies(x).conflicts, c.dependencies(x).conflicts.len()) is Some
}

/// Whether a node is the conflicted one with the least name.
pub open spec fn least_conflicted(c: CatalogModel, root: int, x: int) -> bool {
    &&& conflicted(c, root, x)
    &&& forall|y: int| #[trigger]
        conflicted(c, root, y) ==> y == x || text::text_less(c.id(x), c.id(y))
}

/// Why group `g` is refused: it activates nodes that conflict. The node with the
/// least name is reported, and the first one in its list that it conflicts with.
pub open spec fn group_conflict(c: CatalogModel, g: int) -> Option<ErrorModel> {
    let root = c.services.len() + g;
    if exists|x: int| conflicted(c, root, x) {
        let x = choose|x: int| least_conflicted(c, root, x);
        let d = c.dependencies(x);
        Some(
            ErrorModel::EnabledConflict {
                group: c.id(root),
                left: c.id(x),
                right: active_name(c, root, d.conflicts, d.conflicts.len())->0,
            },
        )
    } else {
        None
    }
}

/// Why the first `n` groups are refused.
pub open spec fn conflict_error(c: CatalogModel, n: nat) -> Option<ErrorModel>
    decreases n,
{
    if n == 0 {
        None
    } else {
        match conflict_error(c, (n - 1) as nat) {
            Some(e) => Some(e),
            None => group_conflict(c, n - 1),
        }
    }
}

/// Whether no group activates two nodes that conflict.
pub open spec fn conflict_free(c: CatalogModel) -> bool {
    forall|g: int, x: int, y: int|
        #![trigger c.activates(c.services.len() + g, x), c.activates(c.services.len() + g, y)]
        0 <= g < c.groups.len() && 0 <= x < c.len() && 0 <= y < c.len() && c.activates(
            c.services.len() + g,
            x,
        ) && c.activates(c.services.len() + g, y) ==> !c.dependencies(x).conflicts.contains(
            c.id(y),
        )
}

proof fn active_name_tail(c: CatalogModel, root: int, ids: Seq<Seq<char>>, n: nat)
    requires
        n <= ids.len(),
        active_name(c, root, ids, n) is Some,
    ensures
        active_name(c, root, ids, ids.len()) == active_name(c, root, ids, n),
    decreases ids.len() - n,
{
    if n < ids.len() {
        active_name_tail(c, root, ids, n + 1);
    }
}

proof fn active_name_none(c: CatalogModel, root: int, ids: Seq<Seq<char>>, n: nat)
    requires
        n <= ids.len(),
        active_name(c, root, ids, n) is None,
    ensures
        forall|k: int| 0 <= k < n ==> !c.activates(root, c.node(#[trigger] ids[k])),
    decreases n,
{
    if n > 0 {
        active_name_none(c, root, ids, (n - 1) as nat);
    }
}

proof fn conflict_error_tail(c: CatalogModel, n: nat)
    requires
        n <= c.groups.len(),
        conflict_error(c, n) is Some,
    ensures
        conflict_error(c, c.groups.len()) == conflict_error(c, n),
    decreases c.groups.len() - n,
{
    if n < c.groups.len() {
        conflict_error_tail(c, n + 1);
    }
}

proof fn conflict_error_none(c: CatalogModel, n: nat)
    requires
        n <= c.groups.len(),
        conflict_error(c, n) is None,
    ensures
        forall|g: int| 0 <= g < n ==> (#[trigger] group_conflict(c, g)) is None,
    decreases n,
{
    if n > 0 {
        conflict_error_none(c, (n - 1) as nat);
    }
}

/// A catalog whose groups are accepted has no group that activates a conflict.
pub proof fn accepted_groups_conflict_free(c: CatalogModel)
    requires
        c.ordered(),
        conflict_error(c, c.groups.len()) is None,
    ensures
        conflict_free(c),
{
    conflict_error_none(c, c.groups.len());
    assert forall|g: int, x: int, y: int|
        #![trigger c.activates(c.services.len() + g, x), c.activates(c.services.len() + g, y)]
        0 <= g < c.groups.len() && 0 <= x < c.len() && 0 <= y < c.len() && c.activates(
            c.services.len() + g,
            x,
        ) && c.activates(c.services.len() + g, y) implies !c.dependencies(
        x,
    ).conflicts.contains(c.id(y)) by {
        let root = c.services.len() + g;
        let ids = c.dependencies(x).conflicts;
        assert(group_conflict(c, g) is None);
        assert(!conflicted(c, root, x));
        active_name_none(c, root, ids, ids.len());
        if ids.contains(c.id(y)) {
            let k = choose|k: int| 0 <= k < ids.len() && ids[k] == c.id(y);
            assert(!c.activates(root, c.node(ids[k])));
            catalog_distinct(c, c.node(c.id(y)), y);
        }
    }
}

impl Catalog {
    fn active_conflict(&self, root: usize, x: usize, marks: &Vec<bool>) -> (r: Option<usize>)
        requires
            self.sized(),
            self@.ordered(),
            references_hold(self@),
            x < self@.len(),
            marks@.len() == self@.len(),
            forall|y: int|
                0 <= y < self@.len() ==> #[trigger] marks@[y] == self@.activates(root as int, y),
        ensures
            ({
                let ids = self@.dependencies(x as int).conflicts;
                match r {
                    Some(k) => k < ids.len() && active_name(self@, root as int, ids, ids.len())
                        == Some(ids[k as int]),
                    None => active_name(self@, root as int, ids, ids.len()) is None,
                }
            }),
    {
        let list = &self.dependencies(x).conflicts;
        let ghost ids = self@.dependencies(x as int).conflicts;
        let mut k: usize = 0;
        while k < list.len()
            invariant
                self.sized(),
                self@.ordered(),
                references_hold(self@),
                x < self@.len(),
                ids == self@.dependencies(x as int).conflicts,
                ids == model::id_texts(list@),
                marks@.len() == self@.len(),
                forall|y: int|
                    0 <= y < self@.len() ==> #[trigger] marks@[y] == self@.activates(
                        root as int,
                        y,
                    ),
                k <= list@.len(),
                active_name(self@, root as int, ids, k as nat) is None,
            decreases list@.len() - k,
        {
            proof {
                assert(all_present(self@, self@.dependencies(x as int).conflicts));
                assert(ids[k as int] == list@[k as int]@);
                assert(self@.contains(ids[k as int]));
            }
            if let Some(y) = self.find(&list[k]) {
                proof {
                    catalog_distinct(self@, y as int, self@.node(ids[k as int]));
                }
                if marks[y] {
                    proof {
                        active_name_tail(self@, root as int, ids, k as nat + 1);
                    }
                    return Some(k);
                }
            }
            k = k + 1;
        }
        None
    }

    /// Requires that no group activates nodes that conflict.
    pub fn validate_conflicts(&self) -> (r: Result<(), ConfigError>)
        requires
            self.sized(),
            self@.ordered(),
            references_hold(self@),
        ensures
            model::refusal(r) == conflict_error(self@, self@.groups.len()),
            r is Ok ==> conflict_free(self@),
    {
        let next = self.activation_lists();
        let n = self.len();
        let ghost edge = self@.activation();
        let ghost held = graph::links(graph::lists(next@));
        let mut g: usize = 0;
        while g < self.groups.len()
            invariant
                self.sized(),
                self@.ordered(),
                references_hold(self@),
                n == self@.len(),
                next@.len() == n,
                edge == self@.activation(),
                held == graph::links(graph::lists(next@)),
                lists_relation(next@, edge),
                g <= self@.groups.len(),
                conflict_error(self@, g as nat) is None,
            decreases self@.groups.len() - g,
        {
            let root = self.services.len() + g;
            let mut roots: Vec<usize> = Vec::new();
            roots.push(root);
            let marks = graph::reachable(&next, &roots);
            proof {
                assert forall|y: int| 0 <= y < n implies #[trigger] marks@[y] == self@.activates(
                    root as int,
                    y,
                ) by {
                    graph::reaches_agree(n as nat, held, edge, root as int, y);
                    if self@.activates(root as int, y) {
                        assert(roots@[0] as int == root as int);
                        assert(graph::reached_from(n as nat, held, roots@, y));
                    }
                }
            }
            let mut best: Option<(usize, usize)> = None;
            let mut x: usize = 0;
            while x < n
                invariant
                    self.sized(),
                    self@.ordered(),
                    references_hold(self@),
                    n == self@.len(),
                    root < n,
                    marks@.len() == n,
                    forall|y: int|
                        0 <= y < n ==> #[trigger] marks@[y] == self@.activates(root as int, y),
                    x <= n,
                    match best {
                        None => forall|y: int|
                            0 <= y < x ==> !(#[trigger] conflicted(self@, root as int, y)),
                        Some((left, k)) => {
                            let ids = self@.dependencies(left as int).conflicts;
                            &&& left < x
                            &&& conflicted(self@, root as int, left as int)
                            &&& k < ids.len()
                            &&& active_name(self@, root as int, ids, ids.len()) == Some(
                                ids[k as int],
                            )
                            &&& forall|y: int|
                                0 <= y < x && #[trigger] conflicted(self@, root as int, y) ==> y
                                    == left || text::text_less(
                                    self@.id(left as int),
                                    self@.id(y),
                                )
                        },
                    },
                decreases n - x,
            {
                if marks[x] {
                    if let Some(k) = self.active_conflict(root, x, &marks) {
                        match best {
                            None => {
                                best = Some((x, k));
                            },
                            Some((left, _)) => {
                                if self.id(x).precedes(self.id(left)) {
                                    proof {
                                        assert forall|y: int|
                                            0 <= y < x && #[trigger] conflicted(
                                                self@,
                                                root as int,
                                                y,
                                            ) implies text::text_less(
                                            self@.id(x as int),
                                            self@.id(y),
                                        ) by {
                                            if y != left {
                                                text::text_less_transitive(
                                                    self@.id(x as int),
                                                    self@.id(left as int),
                                                    self@.id(y),
                                                );
                                            }
                                        }
                                    }
                                    best = Some((x, k));
                                } else {
                                    proof {
                                        text::text_less_total(
                                            self@.id(x as int),
                                            self@.id(left as int),
                                        );
                                        if self@.id(x as int) == self@.id(left as int) {
                                            catalog_distinct(self@, x as int, left as int);
                                        }
                                    }
                                }
                            },
                        }
                    }
                }
                x = x + 1;
            }
            if let Some((left, k)) = best {
                proof {
                    assert(least_conflicted(self@, root as int, left as int));
                    let x = choose|x: int| least_conflicted(self@, root as int, x);
                    if x != left {
                        assert(conflicted(self@, root as int, x));
                        text::text_less_transitive(
                            self@.id(x),
                            self@.id(left as int),
                            self@.id(x),
                        );
                        text::text_less_irreflexive(self@.id(x));
                    }
                    assert(group_conflict(self@, g as int) is Some);
                    conflict_error_tail(self@, g as nat + 1);
                }
                return Err(
                    ConfigError::EnabledConflict {
                        group: self.id(root).clone(),
                        left: self.id(left).clone(),
                        right: self.dependencies(left).conflicts[k].clone(),
                    },
                );
            }
            proof {
                assert(group_conflict(self@, g as int) is None) by {
                    assert forall|x: int| !conflicted(self@, root as int, x) by {
                        if 0 <= x < n {
                            assert(!conflicted(self@, root as int, x));
                        }
                    }
                }
            }
            g = g + 1;
        }
        proof {
            accepted_groups_conflict_free(self@);
        }
        Ok(())
    }
}

/// What activating a node activates: the node itself, whatever a node that is activated
/// requires or wants, and nothing else. Nothing else is said by `closed`, any set of nodes
/// that holds the node and, with each of its nodes, what that requires and wants.
pub proof fn activation_law(c: CatalogModel, x: int, y: int, z: int, closed: spec_fn(int) -> bool)
    requires
        0 <= x < c.len(),
        0 <= y < c.len(),
        0 <= z < c.len(),
    ensures
        c.activates(x, x),
        c.activates(x, y) && (c.dependencies(y).requires.contains(c.id(z)) || c.dependencies(
            y,
        ).wants.contains(c.id(z))) ==> c.activates(x, z),
        closed(x) && (forall|a: int, b: int|
            #![trigger closed(a), closed(b)]
            0 <= a < c.len() && 0 <= b < c.len() && closed(a) && (c.dependencies(
                a,
            ).requires.contains(c.id(b)) || c.dependencies(a).wants.contains(c.id(b))) ==> closed(
                b,
            )) && c.activates(x, y) ==> closed(y),
{
    let edge = c.activation();
    graph::reaches_self(c.len(), edge, x);
    if c.activates(x, y) && edge(y, z) {
        graph::reaches_step(c.len(), edge, x, y, z);
    }
    if closed(x) && (forall|a: int, b: int|
        #![trigger closed(a), closed(b)]
        0 <= a < c.len() && 0 <= b < c.len() && closed(a) && (c.dependencies(a).requires.contains(
            c.id(b),
        ) || c.dependencies(a).wants.contains(c.id(b))) ==> closed(b)) && c.activates(x, y) {
        assert forall|a: int, b: int|
            0 <= a < c.len() && 0 <= b < c.len() && closed(a) && #[trigger] edge(
                a,
                b,
            ) implies closed(b) by {}
        graph::reaches_closed(c.len(), edge, closed, x, y);
    }
}

/// What a node demands: the node itself, whatever a node that is demanded requires, and
/// nothing else.
pub proof fn demand_law(c: CatalogModel, x: int, y: int, z: int, closed: spec_fn(int) -> bool)
    requires
        0 <= x < c.len(),
        0 <= y < c.len(),
        0 <= z < c.len(),
    ensures
        c.demands(x, x),
        c.demands(x, y) && c.dependencies(y).requires.contains(c.id(z)) ==> c.demands(x, z),
        closed(x) && (forall|a: int, b: int|
            #![trigger closed(a), closed(b)]
            0 <= a < c.len() && 0 <= b < c.len() && closed(a) && c.dependencies(
                a,
            ).requires.contains(c.id(b)) ==> closed(b)) && c.demands(x, y) ==> closed(y),
{
    let edge = c.requirement();
    graph::reaches_self(c.len(), edge, x);
    if c.demands(x, y) && edge(y, z) {
        graph::reaches_step(c.len(), edge, x, y, z);
    }
    if closed(x) && (forall|a: int, b: int|
        #![trigger closed(a), closed(b)]
        0 <= a < c.len() && 0 <= b < c.len() && closed(a) && c.dependencies(a).requires.contains(
            c.id(b),
        ) ==> closed(b)) && c.demands(x, y) {
        assert forall|a: int, b: int|
            0 <= a < c.len() && 0 <= b < c.len() && closed(a) && #[trigger] edge(
                a,
                b,
            ) implies closed(b) by {}
        graph::reaches_closed(c.len(), edge, closed, x, y);
    }
}

proof fn beyond_law(
    n: nat,
    edge: spec_fn(int, int) -> bool,
    x: int,
    y: int,
    z: int,
    closed: spec_fn(int) -> bool,
)
    requires
        0 <= x < n,
        0 <= y < n,
        0 <= z < n,
    ensures
        edge(x, z) ==> beyond(n, edge, x, z),
        beyond(n, edge, x, y) && edge(y, z) ==> beyond(n, edge, x, z),
        (forall|b: int| 0 <= b < n && #[trigger] edge(x, b) ==> closed(b)) && (forall|
            a: int,
            b: int,
        |
            0 <= a < n && 0 <= b < n && closed(a) && #[trigger] edge(a, b) ==> closed(b))
            && beyond(n, edge, x, y) ==> closed(y),
{
    if edge(x, z) {
        graph::reaches_self(n, edge, z);
    }
    if beyond(n, edge, x, y) && edge(y, z) {
        let a = choose|a: int| 0 <= a < n && #[trigger] edge(x, a) && graph::reaches(n, edge, a, y);
        graph::reaches_step(n, edge, a, y, z);
    }
    if (forall|b: int| 0 <= b < n && #[trigger] edge(x, b) ==> closed(b)) && (forall|
        a: int,
        b: int,
    |
        0 <= a < n && 0 <= b < n && closed(a) && #[trigger] edge(a, b) ==> closed(b)) && beyond(
        n,
        edge,
        x,
        y,
    ) {
        let a = choose|a: int| 0 <= a < n && #[trigger] edge(x, a) && graph::reaches(n, edge, a, y);
        graph::reaches_closed(n, edge, closed, a, y);
    }
}

/// What a service needs: whatever it requires, whatever a node that it needs requires, and
/// nothing else.
pub proof fn need_law(c: CatalogModel, x: int, y: int, z: int, closed: spec_fn(int) -> bool)
    requires
        0 <= x < c.len(),
        0 <= y < c.len(),
        0 <= z < c.len(),
    ensures
        c.dependencies(x).requires.contains(c.id(z)) ==> c.needs(x, z),
        c.needs(x, y) && c.dependencies(y).requires.contains(c.id(z)) ==> c.needs(x, z),
        (forall|b: int|
            0 <= b < c.len() && c.dependencies(x).requires.contains(c.id(b)) ==> #[trigger] closed(
                b,
            )) && (forall|a: int, b: int|
            #![trigger closed(a), closed(b)]
            0 <= a < c.len() && 0 <= b < c.len() && closed(a) && c.dependencies(
                a,
            ).requires.contains(c.id(b)) ==> closed(b)) && c.needs(x, y) ==> closed(y),
{
    let edge = c.requirement();
    let first = forall|b: int|
        0 <= b < c.len() && c.dependencies(x).requires.contains(c.id(b)) ==> #[trigger] closed(b);
    let next = forall|a: int, b: int|
        #![trigger closed(a), closed(b)]
        0 <= a < c.len() && 0 <= b < c.len() && closed(a) && c.dependencies(a).requires.contains(
            c.id(b),
        ) ==> closed(b);
    if first && next {
        assert forall|b: int| 0 <= b < c.len() && #[trigger] edge(x, b) implies closed(b) by {}
        assert forall|a: int, b: int|
            0 <= a < c.len() && 0 <= b < c.len() && closed(a) && #[trigger] edge(
                a,
                b,
            ) implies closed(b) by {}
    }
    beyond_law(c.len(), edge, x, y, z, closed);
}

/// What a service waits for: whatever it requires, whatever a node that it waits for
/// requires or, being a group, wants, and nothing else.
pub proof fn await_law(c: CatalogModel, x: int, y: int, z: int, closed: spec_fn(int) -> bool)
    requires
        0 <= x < c.services.len(),
        0 <= y < c.len(),
        0 <= z < c.len(),
    ensures
        c.dependencies(x).requires.contains(c.id(z)) ==> c.awaits(x, z),
        c.awaits(x, y) && c.dependencies(y).requires.contains(c.id(z)) ==> c.awaits(x, z),
        c.awaits(x, y) && y >= c.services.len() && c.dependencies(y).wants.contains(c.id(z))
            ==> c.awaits(x, z),
        (forall|b: int|
            0 <= b < c.len() && c.dependencies(x).requires.contains(c.id(b)) ==> #[trigger] closed(
                b,
            )) && (forall|a: int, b: int|
            #![trigger closed(a), closed(b)]
            0 <= a < c.len() && 0 <= b < c.len() && closed(a) && (c.dependencies(
                a,
            ).requires.contains(c.id(b)) || a >= c.services.len() && c.dependencies(
                a,
            ).wants.contains(c.id(b))) ==> closed(b)) && c.awaits(x, y) ==> closed(y),
        c.needs(x, y) ==> c.awaits(x, y),
{
    let edge = c.membership();
    let first = forall|b: int|
        0 <= b < c.len() && c.dependencies(x).requires.contains(c.id(b)) ==> #[trigger] closed(b);
    let next = forall|a: int, b: int|
        #![trigger closed(a), closed(b)]
        0 <= a < c.len() && 0 <= b < c.len() && closed(a) && (c.dependencies(a).requires.contains(
            c.id(b),
        ) || a >= c.services.len() && c.dependencies(a).wants.contains(c.id(b))) ==> closed(b);
    if first && next {
        assert forall|b: int| 0 <= b < c.len() && #[trigger] edge(x, b) implies closed(b) by {}
        assert forall|a: int, b: int|
            0 <= a < c.len() && 0 <= b < c.len() && closed(a) && #[trigger] edge(
                a,
                b,
            ) implies closed(b) by {}
    }
    beyond_law(c.len(), edge, x, y, z, closed);
    if c.needs(x, y) {
        let n = c.len();
        let a = choose|a: int|
            0 <= a < n && #[trigger] c.requirement()(x, a) && graph::reaches(
                n,
                c.requirement(),
                a,
                y,
            );
        let path = choose|path: Seq<int>| #[trigger]
            graph::is_path(n, c.requirement(), path) && path.first() == a && path.last() == y;
        assert forall|i: int| 0 <= i < path.len() - 1 implies edge(
            #[trigger] path[i],
            path[i + 1],
        ) by {
            assert(c.requirement()(path[i], path[i + 1]));
        }
        assert(graph::is_path(n, edge, path));
        assert(edge(x, a));
    }
}

/// Whether a service or a group has the name.
pub open spec fn known(c: CatalogModel, id: Seq<char>) -> bool {
    ||| exists|i: int| 0 <= i < c.services.len() && (#[trigger] c.services[i]).id == id
    ||| exists|g: int| 0 <= g < c.groups.len() && (#[trigger] c.groups[g]).id == id
}

pub(crate) proof fn known_law(c: CatalogModel, id: Seq<char>)
    ensures
        c.contains(id) == known(c, id),
{
    if c.contains(id) {
        let x = choose|x: int| 0 <= x < c.len() && #[trigger] c.id(x) == id;
        if x < c.services.len() {
            assert(c.services[x].id == id);
        } else {
            assert(c.groups[x - c.services.len()].id == id);
        }
    }
    if exists|i: int| 0 <= i < c.services.len() && (#[trigger] c.services[i]).id == id {
        let i = choose|i: int| 0 <= i < c.services.len() && (#[trigger] c.services[i]).id == id;
        assert(c.id(i) == id);
    }
    if exists|g: int| 0 <= g < c.groups.len() && (#[trigger] c.groups[g]).id == id {
        let g = choose|g: int| 0 <= g < c.groups.len() && (#[trigger] c.groups[g]).id == id;
        assert(c.id(c.services.len() + g) == id);
    }
}

/// Whether every name of a list is that of a service or of a group.
pub open spec fn all_known(c: CatalogModel, ids: Seq<Seq<char>>) -> bool {
    forall|k: int| 0 <= k < ids.len() ==> known(c, #[trigger] ids[k])
}

proof fn first_missing_law(c: CatalogModel, ids: Seq<Seq<char>>, n: nat)
    requires
        n <= ids.len(),
    ensures
        match first_missing(c, ids, n) {
            None => all_known(c, ids.take(n as int)),
            Some(id) => ids.contains(id) && !known(c, id),
        },
    decreases n,
{
    if n > 0 {
        first_missing_law(c, ids, (n - 1) as nat);
        known_law(c, ids[n - 1]);
        let head = ids.take(n as int);
        let shorter = ids.take(n - 1);
        if first_missing(c, ids, n) is None {
            assert forall|k: int| 0 <= k < head.len() implies known(c, #[trigger] head[k]) by {
                if k < n - 1 {
                    assert(head[k] == shorter[k]);
                }
            }
        }
    }
}

/// Whether an error names a name that a list of a node has and that nothing is called by.
pub open spec fn misses(
    c: CatalogModel,
    x: int,
    relation: Seq<char>,
    ids: Seq<Seq<char>>,
    e: ErrorModel,
) -> bool {
    e matches ErrorModel::MissingDependency { owner, relation: found, target } && owner == c.id(x)
        && found == relation && ids.contains(target) && !known(c, target)
}

/// Whether an error is a missing target of a node: one that it requires, else one that it starts
/// after, else one that it conflicts with.
pub open spec fn misses_of(c: CatalogModel, x: int, e: ErrorModel) -> bool {
    let d = c.dependencies(x);
    ||| misses(c, x, "required"@, d.requires, e)
    ||| misses(c, x, "ordering"@, d.after, e) && all_known(c, d.requires)
    ||| misses(c, x, "conflict"@, d.conflicts, e) && all_known(c, d.requires) && all_known(
        c,
        d.after,
    )
}

/// Whether an error is a missing target of a node, and no node before it misses any.
pub open spec fn first_misses(c: CatalogModel, x: int, e: ErrorModel) -> bool {
    misses_of(c, x, e) && forall|y: int| 0 <= y < x ==> #[trigger] strict_known(c, y)
}

/// Whether every name that a node requires, starts after or conflicts with is known.
pub open spec fn strict_known(c: CatalogModel, x: int) -> bool {
    let d = c.dependencies(x);
    all_known(c, d.requires) && all_known(c, d.after) && all_known(c, d.conflicts)
}

proof fn reference_error_law(c: CatalogModel, x: int)
    ensures
        match reference_error(c, x) {
            None => strict_known(c, x),
            Some(e) => misses_of(c, x, e),
        },
{
    let d = c.dependencies(x);
    first_missing_law(c, d.requires, d.requires.len());
    first_missing_law(c, d.after, d.after.len());
    first_missing_law(c, d.conflicts, d.conflicts.len());
    assert(d.requires.take(d.requires.len() as int) =~= d.requires);
    assert(d.after.take(d.after.len() as int) =~= d.after);
    assert(d.conflicts.take(d.conflicts.len() as int) =~= d.conflicts);
}

/// Whether a warning tells of a node that wants a name which nothing is called by.
pub open spec fn warns_of(c: CatalogModel, x: int, w: WarningModel) -> bool {
    w matches WarningModel::MissingWanted { owner, target } && owner == c.id(x) && c.dependencies(
        x,
    ).wants.contains(target) && !known(c, target)
}

/// Whether a warning tells of one of the first `n` nodes.
pub open spec fn warranted(c: CatalogModel, n: nat, w: WarningModel) -> bool {
    exists|x: int| 0 <= x < n && #[trigger] warns_of(c, x, w)
}

proof fn wanted_warnings_law(c: CatalogModel, x: int, n: nat)
    requires
        n <= c.dependencies(x).wants.len(),
    ensures
        forall|k: int|
            0 <= k < wanted_warnings(c, c.id(x), c.dependencies(x).wants, n).len() ==> warns_of(
                c,
                x,
                #[trigger] wanted_warnings(c, c.id(x), c.dependencies(x).wants, n)[k],
            ),
        forall|m: int|
            0 <= m < n && !known(c, #[trigger] c.dependencies(x).wants[m]) ==> wanted_warnings(
                c,
                c.id(x),
                c.dependencies(x).wants,
                n,
            ).contains(
                WarningModel::MissingWanted {
                    owner: c.id(x),
                    target: c.dependencies(x).wants[m],
                },
            ),
    decreases n,
{
    let ids = c.dependencies(x).wants;
    if n > 0 {
        wanted_warnings_law(c, x, (n - 1) as nat);
        known_law(c, ids[n - 1]);
        let before = wanted_warnings(c, c.id(x), ids, (n - 1) as nat);
        let all = wanted_warnings(c, c.id(x), ids, n);
        assert forall|k: int| 0 <= k < all.len() implies warns_of(c, x, #[trigger] all[k]) by {
            if k < before.len() {
                assert(all[k] == before[k]);
            }
        }
        assert forall|m: int| 0 <= m < n && !known(c, #[trigger] ids[m]) implies all.contains(
            WarningModel::MissingWanted { owner: c.id(x), target: ids[m] },
        ) by {
            let w = WarningModel::MissingWanted { owner: c.id(x), target: ids[m] };
            if m < n - 1 {
                assert(before.contains(w));
                let k = choose|k: int| 0 <= k < before.len() && before[k] == w;
                assert(all[k] == w);
            } else {
                assert(all[before.len() as int] == w);
            }
        }
    }
}

/// What names may be left open: a catalog is accepted where every name that is required,
/// ordered after or in conflict is known, and is refused with one of the first node that has
/// one which is not otherwise. A name that is only wanted may be unknown: there is a warning for each such name, and no
/// other warning.
pub proof fn reference_law(c: CatalogModel, n: nat)
    requires
        n <= c.len(),
    ensures
        references_result(c, n) is Ok <==> forall|x: int|
            0 <= x < n ==> #[trigger] strict_known(c, x),
        match references_result(c, n) {
            Err(e) => exists|x: int| 0 <= x < n && #[trigger] first_misses(c, x, e),
            Ok(warnings) => {
                &&& forall|k: int|
                    0 <= k < warnings.len() ==> warranted(c, n, #[trigger] warnings[k])
                &&& forall|x: int, m: int|
                    0 <= x < n && 0 <= m < c.dependencies(x).wants.len() && !known(
                        c,
                        #[trigger] c.dependencies(x).wants[m],
                    ) ==> warnings.contains(
                        WarningModel::MissingWanted {
                            owner: c.id(x),
                            target: c.dependencies(x).wants[m],
                        },
                    )
            },
        },
    decreases n,
{
    if n > 0 {
        reference_law(c, (n - 1) as nat);
        reference_error_law(c, n - 1);
        let x = n - 1;
        match references_result(c, (n - 1) as nat) {
            Err(e) => {
                let y = choose|y: int| 0 <= y < n - 1 && #[trigger] first_misses(c, y, e);
                assert(first_misses(c, y, e));
                let z = choose|z: int| 0 <= z < n - 1 && !#[trigger] strict_known(c, z);
                assert(!strict_known(c, z));
            },
            Ok(before) => match reference_error(c, x) {
                Some(e) => {
                    assert(first_misses(c, x, e));
                    misses_unknown(c, x, e);
                },
                None => {
                    let more = wanted_warnings(
                        c,
                        c.id(x),
                        c.dependencies(x).wants,
                        c.dependencies(x).wants.len(),
                    );
                    wanted_warnings_law(c, x, c.dependencies(x).wants.len());
                    let all = before + more;
                    assert forall|k: int| 0 <= k < all.len() implies warranted(
                        c,
                        n,
                        #[trigger] all[k],
                    ) by {
                        if k < before.len() {
                            assert(all[k] == before[k]);
                            assert(warranted(c, (n - 1) as nat, before[k]));
                            let y = choose|y: int|
                                0 <= y < n - 1 && #[trigger] warns_of(c, y, before[k]);
                            assert(warns_of(c, y, all[k]));
                        } else {
                            assert(all[k] == more[k - before.len()]);
                            assert(warns_of(c, x, all[k]));
                        }
                    }
                    assert forall|y: int, m: int|
                        0 <= y < n && 0 <= m < c.dependencies(y).wants.len() && !known(
                            c,
                            #[trigger] c.dependencies(y).wants[m],
                        ) implies all.contains(
                        WarningModel::MissingWanted {
                            owner: c.id(y),
                            target: c.dependencies(y).wants[m],
                        },
                    ) by {
                        let w = WarningModel::MissingWanted {
                            owner: c.id(y),
                            target: c.dependencies(y).wants[m],
                        };
                        if y < n - 1 {
                            assert(before.contains(w));
                            let k = choose|k: int| 0 <= k < before.len() && before[k] == w;
                            assert(all[k] == w);
                        } else {
                            assert(more.contains(w));
                            let k = choose|k: int| 0 <= k < more.len() && more[k] == w;
                            assert(all[before.len() + k] == w);
                        }
                    }
                },
            },
        }
    }
}

proof fn misses_unknown(c: CatalogModel, x: int, e: ErrorModel)
    requires
        misses_of(c, x, e),
    ensures
        !strict_known(c, x),
{
    let d = c.dependencies(x);
    if let ErrorModel::MissingDependency { target, .. } = e {
        if d.requires.contains(target) {
            let k = choose|k: int| 0 <= k < d.requires.len() && d.requires[k] == target;
            assert(!known(c, d.requires[k]));
        } else if d.after.contains(target) {
            let k = choose|k: int| 0 <= k < d.after.len() && d.after[k] == target;
            assert(!known(c, d.after[k]));
        } else {
            let k = choose|k: int| 0 <= k < d.conflicts.len() && d.conflicts[k] == target;
            assert(!known(c, d.conflicts[k]));
        }
    }
}

/// Whether a node requires or starts after another.
pub open spec fn follows(c: CatalogModel, x: int, y: int) -> bool {
    c.dependencies(x).requires.contains(c.id(y)) || c.dependencies(x).after.contains(c.id(y))
}

/// Which orders of starting are refused: those with a circle, in which each node requires or
/// starts after the next and the last is the first. Who is refused is told the names along
/// such a circle.
pub proof fn cycle_law(c: CatalogModel, path: Seq<int>)
    requires
        c.ordered(),
        references_hold(c),
    ensures
        ordering_error(c) matches Some(e) ==> exists|around: Seq<int>|
            {
                &&& e == ErrorModel::DependencyCycle(#[trigger] c.ids(around))
                &&& around.len() >= 2
                &&& around[0] == around[around.len() - 1]
                &&& forall|i: int| 0 <= i < around.len() ==> 0 <= #[trigger] around[i] < c.len()
                &&& forall|i: int|
                    0 <= i < around.len() - 1 ==> follows(c, #[trigger] around[i], around[i + 1])
            },
        path.len() >= 2 && path[0] == path[path.len() - 1] && (forall|i: int|
            0 <= i < path.len() ==> 0 <= #[trigger] path[i] < c.len()) && (forall|i: int|
            0 <= i < path.len() - 1 ==> follows(c, #[trigger] path[i], path[i + 1]))
            ==> ordering_error(c) is Some,
{
    let lists = c.ordering_lists();
    ordering_lists_law(c);
    graph::first_cycle_law(lists);
    if ordering_error(c) is Some {
        let around = graph::first_cycle(lists)->0;
        assert(graph::is_cycle(lists.len(), graph::links(lists), around));
        assert forall|i: int| 0 <= i < around.len() - 1 implies follows(
            c,
            #[trigger] around[i],
            around[i + 1],
        ) by {
            assert(graph::links(lists)(around[i], around[i + 1]));
            assert(c.ordering()(around[i], around[i + 1]));
        }
        assert(ordering_error(c) == Some(ErrorModel::DependencyCycle(c.ids(around))));
    } else if path.len() >= 2 && path[0] == path[path.len() - 1] && (forall|i: int|
        0 <= i < path.len() ==> 0 <= #[trigger] path[i] < c.len()) && (forall|i: int|
        0 <= i < path.len() - 1 ==> follows(c, #[trigger] path[i], path[i + 1])) {
        assert forall|i: int| 0 <= i < path.len() - 1 implies graph::links(lists)(
            #[trigger] path[i],
            path[i + 1],
        ) by {
            assert(follows(c, path[i], path[i + 1]));
            assert(c.ordering()(path[i], path[i + 1]));
            assert(0 <= path[i + 1] < c.len());
            assert(graph::links(lists)(path[i], path[i + 1]) == c.ordering()(path[i], path[i + 1]));
        }
        assert(graph::is_cycle(lists.len(), graph::links(lists), path));
    }
}

/// Whether activating a group activates two nodes of which the first names the second as one
/// that it conflicts with.
pub open spec fn clash(c: CatalogModel, g: int, x: int, y: int) -> bool {
    &&& 0 <= g < c.groups.len()
    &&& 0 <= x < c.len()
    &&& 0 <= y < c.len()
    &&& c.activates(c.services.len() + g, x)
    &&& c.activates(c.services.len() + g, y)
    &&& c.dependencies(x).conflicts.contains(c.id(y))
}

proof fn clash_conflicted(c: CatalogModel, g: int, x: int, y: int)
    requires
        c.ordered(),
        clash(c, g, x, y),
    ensures
        conflicted(c, c.services.len() + g, x),
{
    let root = c.services.len() + g;
    let ids = c.dependencies(x).conflicts;
    if !conflicted(c, root, x) {
        active_name_none(c, root, ids, ids.len());
        let k = choose|k: int| 0 <= k < ids.len() && ids[k] == c.id(y);
        assert(!c.activates(root, c.node(ids[k])));
        catalog_distinct(c, c.node(c.id(y)), y);
    }
}

proof fn active_name_found(c: CatalogModel, root: int, ids: Seq<Seq<char>>, n: nat)
    requires
        n <= ids.len(),
        active_name(c, root, ids, n) is Some,
    ensures
        ids.contains(active_name(c, root, ids, n)->0),
        c.activates(root, c.node(active_name(c, root, ids, n)->0)),
    decreases n,
{
    if active_name(c, root, ids, (n - 1) as nat) is Some {
        active_name_found(c, root, ids, (n - 1) as nat);
    }
}

proof fn least_exists(c: CatalogModel, root: int, x: int) -> (least: int)
    requires
        c.ordered(),
        conflicted(c, root, x),
    ensures
        least_conflicted(c, root, least),
{
    least_below(c, root, c.len())
}

/// Among the first `n` nodes the conflicted one with the least name.
proof fn least_below(c: CatalogModel, root: int, n: nat) -> (least: int)
    requires
        c.ordered(),
        n <= c.len(),
    ensures
        (exists|x: int| x < n && #[trigger] conflicted(c, root, x)) ==> {
            &&& 0 <= least < n
            &&& conflicted(c, root, least)
            &&& forall|y: int| #[trigger]
                conflicted(c, root, y) && y < n ==> y == least || text::text_less(
                    c.id(least),
                    c.id(y),
                )
        },
    decreases n,
{
    if n == 0 {
        0
    } else {
        let before = least_below(c, root, (n - 1) as nat);
        let last = n - 1;
        if !conflicted(c, root, last) {
            before
        } else if exists|x: int| x < n - 1 && #[trigger] conflicted(c, root, x) {
            if c.id(before) == c.id(last) {
                catalog_distinct(c, before, last);
            }
            text::text_less_total(c.id(before), c.id(last));
            if text::text_less(c.id(before), c.id(last)) {
                before
            } else {
                assert forall|y: int| #[trigger]
                    conflicted(c, root, y) && y < n implies y == last || text::text_less(
                    c.id(last),
                    c.id(y),
                ) by {
                    if y < n - 1 && y != before {
                        text::text_less_transitive(c.id(last), c.id(before), c.id(y));
                    }
                }
                last
            }
        } else {
            last
        }
    }
}

/// Whether a clash is the one that is told: that of the first group that has any, and of the node
/// with the least name.
pub open spec fn first_clash(c: CatalogModel, g: int, x: int, y: int) -> bool {
    &&& clash(c, g, x, y)
    &&& forall|h: int, a: int, b: int| h < g ==> !#[trigger] clash(c, h, a, b)
    &&& forall|a: int, b: int| #[trigger]
        clash(c, g, a, b) ==> a == x || text::text_less(c.id(x), c.id(a))
}

/// Which groups are refused: those that activate two nodes of which one conflicts with the
/// other. Who is refused is told the first such group, and the two names, of which the first is
/// the least that there is.
pub proof fn conflict_law(c: CatalogModel, n: nat)
    requires
        c.ordered(),
        references_hold(c),
        n <= c.groups.len(),
    ensures
        match conflict_error(c, n) {
            Some(e) => exists|g: int, x: int, y: int|
                g < n && #[trigger] first_clash(c, g, x, y) && e == (ErrorModel::EnabledConflict {
                    group: c.groups[g].id,
                    left: c.id(x),
                    right: c.id(y),
                }),
            None => forall|g: int, x: int, y: int| g < n ==> !#[trigger] clash(c, g, x, y),
        },
    decreases n,
{
    if n > 0 {
        conflict_law(c, (n - 1) as nat);
        let g = n - 1;
        let root = c.services.len() + g;
        if conflict_error(c, (n - 1) as nat) is None {
            if exists|x: int| conflicted(c, root, x) {
                let some = choose|x: int| conflicted(c, root, x);
                let least = least_exists(c, root, some);
                let x = choose|x: int| least_conflicted(c, root, x);
                assert(least_conflicted(c, root, least));
                let ids = c.dependencies(x).conflicts;
                active_name_found(c, root, ids, ids.len());
                let name = active_name(c, root, ids, ids.len())->0;
                let k = choose|k: int| 0 <= k < ids.len() && ids[k] == name;
                assert(all_present(c, ids));
                assert(c.contains(ids[k]));
                let y = c.node(name);
                assert(c.id(y) == name);
                assert(clash(c, g, x, y));
                assert forall|a: int, b: int| #[trigger] clash(c, g, a, b) implies a == x
                    || text::text_less(c.id(x), c.id(a)) by {
                    clash_conflicted(c, g, a, b);
                }
                assert(first_clash(c, g, x, y));
            } else {
                assert forall|h: int, x: int, y: int| h < n implies !#[trigger] clash(
                    c,
                    h,
                    x,
                    y,
                ) by {
                    if h == g && clash(c, h, x, y) {
                        clash_conflicted(c, h, x, y);
                    }
                }
            }
        } else {
            let e = conflict_error(c, (n - 1) as nat)->0;
            let (h, x, y) = choose|h: int, x: int, y: int|
                h < n - 1 && #[trigger] first_clash(c, h, x, y) && e == (
                ErrorModel::EnabledConflict {
                    group: c.groups[h].id,
                    left: c.id(x),
                    right: c.id(y),
                });
            assert(first_clash(c, h, x, y));
        }
    }
}

} // verus!
