//! Directed graphs over the numbers below a bound: what is reachable, and whether
//! there is a cycle.

use vstd::prelude::*;

verus! {

/// A walk along edges between nodes below `n`.
pub open spec fn is_path(n: nat, edge: spec_fn(int, int) -> bool, path: Seq<int>) -> bool {
    &&& path.len() > 0
    &&& forall|i: int| 0 <= i < path.len() ==> 0 <= #[trigger] path[i] < n
    &&& forall|i: int| 0 <= i < path.len() - 1 ==> edge(#[trigger] path[i], path[i + 1])
}

/// Whether a walk leads from one node to another; each node reaches itself.
pub open spec fn reaches(n: nat, edge: spec_fn(int, int) -> bool, from: int, to: int) -> bool {
    exists|path: Seq<int>| #[trigger]
        is_path(n, edge, path) && path.first() == from && path.last() == to
}

/// A walk of at least one edge that ends where it began.
pub open spec fn is_cycle(n: nat, edge: spec_fn(int, int) -> bool, path: Seq<int>) -> bool {
    is_path(n, edge, path) && path.len() >= 2 && path.first() == path.last()
}

/// Whether no walk of at least one edge ends where it began.
pub open spec fn acyclic(n: nat, edge: spec_fn(int, int) -> bool) -> bool {
    forall|path: Seq<int>| !is_cycle(n, edge, path)
}

/// Each node reaches itself.
pub proof fn reaches_self(n: nat, edge: spec_fn(int, int) -> bool, a: int)
    requires
        0 <= a < n,
    ensures
        reaches(n, edge, a, a),
{
    assert(is_path(n, edge, seq![a]));
}

/// A walk can go one edge further.
pub proof fn reaches_step(n: nat, edge: spec_fn(int, int) -> bool, a: int, b: int, c: int)
    requires
        reaches(n, edge, a, b),
        edge(b, c),
        0 <= c < n,
    ensures
        reaches(n, edge, a, c),
{
    let path = choose|path: Seq<int>| #[trigger]
        is_path(n, edge, path) && path.first() == a && path.last() == b;
    let longer = path.push(c);
    assert forall|i: int| 0 <= i < longer.len() - 1 implies edge(
        #[trigger] longer[i],
        longer[i + 1],
    ) by {
        if i < path.len() - 1 {
            assert(longer[i] == path[i]);
            assert(longer[i + 1] == path[i + 1]);
        }
    }
    assert(is_path(n, edge, longer));
}

/// What holds of a node and is handed on along every edge holds of every node
/// that it reaches.
pub proof fn reaches_closed(
    n: nat,
    edge: spec_fn(int, int) -> bool,
    holds: spec_fn(int) -> bool,
    a: int,
    b: int,
)
    requires
        reaches(n, edge, a, b),
        holds(a),
        forall|x: int, y: int|
            0 <= x < n && 0 <= y < n && holds(x) && #[trigger] edge(x, y) ==> holds(y),
    ensures
        holds(b),
{
    let path = choose|path: Seq<int>| #[trigger]
        is_path(n, edge, path) && path.first() == a && path.last() == b;
    path_closed(n, edge, holds, path, path.len() - 1);
}

proof fn path_closed(
    n: nat,
    edge: spec_fn(int, int) -> bool,
    holds: spec_fn(int) -> bool,
    path: Seq<int>,
    i: int,
)
    requires
        is_path(n, edge, path),
        holds(path.first()),
        forall|x: int, y: int|
            0 <= x < n && 0 <= y < n && holds(x) && #[trigger] edge(x, y) ==> holds(y),
        0 <= i < path.len(),
    ensures
        holds(path[i]),
    decreases i,
{
    if i > 0 {
        path_closed(n, edge, holds, path, i - 1);
        assert(edge(path[i - 1], path[i]));
    }
}

/// Relations that agree on the nodes reach the same nodes.
pub proof fn reaches_agree(
    n: nat,
    e1: spec_fn(int, int) -> bool,
    e2: spec_fn(int, int) -> bool,
    a: int,
    b: int,
)
    requires
        forall|x: int, y: int| 0 <= x < n && 0 <= y < n ==> #[trigger] e1(x, y) == e2(x, y),
    ensures
        reaches(n, e1, a, b) == reaches(n, e2, a, b),
{
    if reaches(n, e1, a, b) {
        let path = choose|path: Seq<int>| #[trigger]
            is_path(n, e1, path) && path.first() == a && path.last() == b;
        assert forall|i: int| 0 <= i < path.len() - 1 implies e2(
            #[trigger] path[i],
            path[i + 1],
        ) by {
            assert(e1(path[i], path[i + 1]));
        }
        assert(is_path(n, e2, path));
    }
    if reaches(n, e2, a, b) {
        let path = choose|path: Seq<int>| #[trigger]
            is_path(n, e2, path) && path.first() == a && path.last() == b;
        assert forall|i: int| 0 <= i < path.len() - 1 implies e1(
            #[trigger] path[i],
            path[i + 1],
        ) by {
            assert(e2(path[i], path[i + 1]));
            assert(e1(path[i], path[i + 1]) == e2(path[i], path[i + 1]));
        }
        assert(is_path(n, e1, path));
    }
}

/// Relations that agree on the nodes have the same cycles.
pub proof fn cycles_agree(
    n: nat,
    e1: spec_fn(int, int) -> bool,
    e2: spec_fn(int, int) -> bool,
    path: Seq<int>,
)
    requires
        forall|x: int, y: int| 0 <= x < n && 0 <= y < n ==> #[trigger] e1(x, y) == e2(x, y),
        is_cycle(n, e1, path),
    ensures
        is_cycle(n, e2, path),
{
    assert forall|i: int| 0 <= i < path.len() - 1 implies e2(#[trigger] path[i], path[i + 1]) by {
        assert(e1(path[i], path[i + 1]) == e2(path[i], path[i + 1]));
    }
}

/// Reachability is transitive.
pub proof fn reaches_transitive(
    n: nat,
    edge: spec_fn(int, int) -> bool,
    a: int,
    b: int,
    c: int,
)
    requires
        reaches(n, edge, a, b),
        reaches(n, edge, b, c),
    ensures
        reaches(n, edge, a, c),
{
    let holds = |x: int| reaches(n, edge, a, x);
    assert forall|x: int, y: int|
        0 <= x < n && 0 <= y < n && holds(x) && #[trigger] edge(x, y) implies holds(y) by {
        reaches_step(n, edge, a, x, y);
    }
    reaches_closed(n, edge, holds, b, c);
}

/// Node numbers as integers.
pub open spec fn ints(nodes: Seq<usize>) -> Seq<int> {
    Seq::new(nodes.len(), |i: int| nodes[i] as int)
}

/// Adjacency lists: for each node, the nodes that its edges lead to.
pub open spec fn lists(next: Seq<Vec<usize>>) -> Seq<Seq<int>> {
    Seq::new(next.len(), |a: int| ints(next[a]@))
}

/// The edges that adjacency lists hold.
pub open spec fn links(next: Seq<Seq<int>>) -> spec_fn(int, int) -> bool {
    |a: int, b: int|
        0 <= a < next.len() && exists|k: int| 0 <= k < next[a].len() && next[a][k] == b
}

/// Whether every listed node is one of the graph.
pub open spec fn in_range(next: Seq<Seq<int>>) -> bool {
    forall|a: int, k: int|
        0 <= a < next.len() && 0 <= k < next[a].len() ==> 0 <= #[trigger] next[a][k] < next.len()
}

/// How many of the marks are not set.
pub open spec fn unmarked(marks: Seq<bool>) -> nat
    decreases marks.len(),
{
    if marks.len() == 0 {
        0
    } else {
        unmarked(marks.drop_last()) + if marks.last() {
            0nat
        } else {
            1nat
        }
    }
}

/// Setting a mark leaves one less that is not set.
pub proof fn unmarked_update(marks: Seq<bool>, i: int)
    requires
        0 <= i < marks.len(),
        !marks[i],
    ensures
        unmarked(marks.update(i, true)) == unmarked(marks) - 1,
    decreases marks.len(),
{
    let updated = marks.update(i, true);
    if i == marks.len() - 1 {
        assert(updated.drop_last() =~= marks.drop_last());
    } else {
        assert(updated.drop_last() =~= marks.drop_last().update(i, true));
        unmarked_update(marks.drop_last(), i);
    }
}

/// Whether some root leads to the node.
pub open spec fn reached_from(
    n: nat,
    edge: spec_fn(int, int) -> bool,
    roots: Seq<usize>,
    node: int,
) -> bool {
    exists|k: int| 0 <= k < roots.len() && reaches(n, edge, #[trigger] roots[k] as int, node)
}

/// Marks the nodes that some root reaches.
pub fn reachable(next: &Vec<Vec<usize>>, roots: &Vec<usize>) -> (marks: Vec<bool>)
    requires
        in_range(lists(next@)),
        forall|k: int| 0 <= k < roots@.len() ==> #[trigger] roots@[k] < next@.len(),
    ensures
        marks@.len() == next@.len(),
        forall|b: int|
            0 <= b < marks@.len() ==> (#[trigger] marks@[b] <==> reached_from(
                next@.len(),
                links(lists(next@)),
                roots@,
                b,
            )),
{
    let n = next.len();
    let ghost edge = links(lists(next@));
    let mut marks: Vec<bool> = Vec::new();
    let mut i: usize = 0;
    while i < n
        invariant
            i <= n,
            marks@.len() == i,
            forall|k: int| 0 <= k < i ==> !marks@[k],
        decreases n - i,
    {
        marks.push(false);
        i = i + 1;
    }
    let mut pending: Vec<usize> = Vec::new();
    let mut r: usize = 0;
    while r < roots.len()
        invariant
            n == next@.len(),
            edge == links(lists(next@)),
            marks@.len() == n,
            r <= roots@.len(),
            forall|k: int| 0 <= k < roots@.len() ==> #[trigger] roots@[k] < n,
            forall|k: int| 0 <= k < r ==> marks@[#[trigger] roots@[k] as int],
            forall|k: int| 0 <= k < pending@.len() ==> #[trigger] pending@[k] < n,
            forall|k: int| 0 <= k < pending@.len() ==> marks@[#[trigger] pending@[k] as int],
            forall|b: int| 0 <= b < n && marks@[b] ==> pending@.contains(b as usize),
            forall|b: int|
                0 <= b < n && #[trigger] marks@[b] ==> reached_from(n as nat, edge, roots@, b),
        decreases roots@.len() - r,
    {
        let root = roots[r];
        let ghost before = pending@;
        if !marks[root] {
            marks.set(root, true);
            pending.push(root);
            proof {
                reaches_self(n as nat, edge, root as int);
                assert forall|b: int| 0 <= b < n && marks@[b] implies pending@.contains(
                    b as usize,
                ) by {
                    if b == root {
                        assert(pending@[before.len() as int] == b as usize);
                    } else {
                        let k = choose|k: int| 0 <= k < before.len() && before[k] == b as usize;
                        assert(pending@[k] == b as usize);
                    }
                }
            }
        }
        r = r + 1;
    }
    while pending.len() > 0
        invariant
            n == next@.len(),
            edge == links(lists(next@)),
            in_range(lists(next@)),
            marks@.len() == n,
            forall|k: int| 0 <= k < roots@.len() ==> #[trigger] roots@[k] < n,
            forall|k: int| 0 <= k < roots@.len() ==> marks@[#[trigger] roots@[k] as int],
            forall|k: int| 0 <= k < pending@.len() ==> #[trigger] pending@[k] < n,
            forall|k: int| 0 <= k < pending@.len() ==> marks@[#[trigger] pending@[k] as int],
            forall|b: int|
                0 <= b < n && #[trigger] marks@[b] ==> reached_from(n as nat, edge, roots@, b),
            forall|a: int, b: int|
                0 <= a < n && 0 <= b < n && marks@[a] && !pending@.contains(a as usize)
                    && #[trigger] edge(a, b) ==> marks@[b],
        decreases unmarked(marks@), pending@.len(),
    {
        let ghost stack = pending@;
        let ghost marks0 = marks@;
        let x = match pending.pop() {
            Some(x) => x,
            None => 0,
        };
        proof {
            assert(x == stack[stack.len() - 1]);
            assert(marks@[x as int]);
        }
        let ghost rest = pending@;
        let mut j: usize = 0;
        proof {
            assert forall|a: int, b: int|
                0 <= a < n && 0 <= b < n && marks@[a] && a != x && !pending@.contains(a as usize)
                    && #[trigger] edge(a, b) implies marks@[b] by {
                if stack.contains(a as usize) {
                    let k = choose|k: int| 0 <= k < stack.len() && stack[k] == a as usize;
                    assert(k < rest.len());
                    assert(rest[k] == a as usize);
                }
            }
        }
        while j < next[x as usize].len()
            invariant
                n == next@.len(),
                edge == links(lists(next@)),
                in_range(lists(next@)),
                marks@.len() == n,
                x < n,
                marks@[x as int],
                j <= lists(next@)[x as int].len(),
                forall|k: int| 0 <= k < roots@.len() ==> #[trigger] roots@[k] < n,
                forall|k: int| 0 <= k < roots@.len() ==> marks@[#[trigger] roots@[k] as int],
                forall|k: int| 0 <= k < pending@.len() ==> #[trigger] pending@[k] < n,
                forall|k: int| 0 <= k < pending@.len() ==> marks@[#[trigger] pending@[k] as int],
                forall|b: int|
                    0 <= b < n && #[trigger] marks@[b] ==> reached_from(n as nat, edge, roots@, b),
                forall|k: int| 0 <= k < j ==> marks@[#[trigger] lists(next@)[x as int][k] as int],
                forall|a: int, b: int|
                    0 <= a < n && 0 <= b < n && marks@[a] && a != x && !pending@.contains(
                        a as usize,
                    ) && #[trigger] edge(a, b) ==> marks@[b],
                unmarked(marks@) < unmarked(marks0) || (unmarked(marks@) == unmarked(marks0)
                    && pending@.len() == rest.len()),
            decreases lists(next@)[x as int].len() - j,
        {
            let y = next[x][j];
            proof {
                assert(lists(next@)[x as int][j as int] == y);
            }
            let ghost before = pending@;
            let ghost marked = marks@;
            if !marks[y] {
                proof {
                    unmarked_update(marks@, y as int);
                    assert(edge(x as int, y as int));
                    let k = choose|k: int|
                        0 <= k < roots@.len() && reaches(
                            n as nat,
                            edge,
                            #[trigger] roots@[k] as int,
                            x as int,
                        );
                    reaches_step(n as nat, edge, roots@[k] as int, x as int, y as int);
                    assert(reached_from(n as nat, edge, roots@, y as int));
                }
                marks.set(y, true);
                pending.push(y);
                proof {
                    assert(pending@[before.len() as int] == y);
                    assert forall|a: int, b: int|
                        0 <= a < n && 0 <= b < n && marks@[a] && a != x && !pending@.contains(
                            a as usize,
                        ) && #[trigger] edge(a, b) implies marks@[b] by {
                        assert(a != y);
                        assert(marked[a]);
                        if before.contains(a as usize) {
                            let k = choose|k: int| 0 <= k < before.len() && before[k] == a as usize;
                            assert(pending@[k] == a as usize);
                        }
                        assert(marked[b]);
                    }
                }
            }
            j = j + 1;
        }
        proof {
            assert forall|a: int, b: int|
                0 <= a < n && 0 <= b < n && marks@[a] && !pending@.contains(a as usize)
                    && #[trigger] edge(a, b) implies marks@[b] by {
                if a == x {
                    let k = choose|k: int| 0 <= k < lists(next@)[a].len() && lists(next@)[a][k] == b;
                    assert(marks@[lists(next@)[x as int][k] as int]);
                }
            }
        }
    }
    proof {
        assert forall|b: int| 0 <= b < marks@.len() && reached_from(
            n as nat,
            edge,
            roots@,
            b,
        ) implies #[trigger] marks@[b] by {
            let k = choose|k: int|
                0 <= k < roots@.len() && reaches(n as nat, edge, #[trigger] roots@[k] as int, b);
            let holds = |x: int| 0 <= x < n && marks@[x];
            reaches_closed(n as nat, edge, holds, roots@[k] as int, b);
        }
    }
    marks
}

/// How far a depth-first search has come with a node.
#[derive(Clone, Copy, PartialEq, Eq, Structural)]
pub enum Visit {
    Unseen,
    Open,
    Done,
}

/// The state of a depth-first search: the nodes, the walk that is open, and the
/// cycle that was met.
#[verifier::ext_equal]
pub struct Search {
    pub state: Seq<Visit>,
    pub stack: Seq<int>,
    pub found: Option<Seq<int>>,
}

/// The position of the first occurrence.
pub open spec fn first_index(s: Seq<int>, x: int) -> int
    decreases s.len(),
{
    if s.len() == 0 || s[0] == x {
        0
    } else {
        1 + first_index(s.drop_first(), x)
    }
}

/// Visits an unseen node: opens it, visits what it lists in order, closes it. The
/// search stops at the first edge to an open node, which closes a cycle.
pub open spec fn visit(next: Seq<Seq<int>>, s: Search, node: int, fuel: nat) -> Search
    decreases fuel, 0nat,
{
    if fuel == 0 {
        s
    } else {
        let opened = Search {
            state: s.state.update(node, Visit::Open),
            stack: s.stack.push(node),
            found: None,
        };
        let explored = visit_listed(next, opened, node, 0, (fuel - 1) as nat);
        if explored.found is Some {
            explored
        } else {
            Search {
                state: explored.state.update(node, Visit::Done),
                stack: explored.stack.drop_last(),
                found: None,
            }
        }
    }
}

/// Visits what an open node lists, from position `k` on.
pub open spec fn visit_listed(
    next: Seq<Seq<int>>,
    s: Search,
    node: int,
    k: nat,
    fuel: nat,
) -> Search
    decreases fuel, next[node].len() - k + 1,
{
    if k >= next[node].len() || s.found is Some {
        s
    } else {
        let target = next[node][k as int] as int;
        match s.state[target] {
            Visit::Open => Search {
                state: s.state,
                stack: s.stack,
                found: Some(s.stack.skip(first_index(s.stack, target)).push(target)),
            },
            Visit::Done => visit_listed(next, s, node, k + 1, fuel),
            Visit::Unseen => visit_listed(
                next,
                visit(next, s, target, fuel),
                node,
                k + 1,
                fuel,
            ),
        }
    }
}

/// Visits every node that is still unseen, from node `i` on.
pub open spec fn visit_all(next: Seq<Seq<int>>, s: Search, i: nat) -> Search
    decreases next.len() - i,
{
    if i >= next.len() || s.found is Some {
        s
    } else if s.state[i as int] == Visit::Unseen {
        visit_all(next, visit(next, s, i as int, next.len()), i + 1)
    } else {
        visit_all(next, s, i + 1)
    }
}

/// The cycle that a depth-first search in ascending order of the nodes meets
/// first.
pub open spec fn first_cycle(next: Seq<Seq<int>>) -> Option<Seq<int>> {
    visit_all(
        next,
        Search {
            state: Seq::new(next.len(), |i: int| Visit::Unseen),
            stack: Seq::empty(),
            found: None,
        },
        0,
    ).found
}

/// How many nodes are unseen.
pub open spec fn unseen(state: Seq<Visit>) -> nat
    decreases state.len(),
{
    if state.len() == 0 {
        0
    } else {
        unseen(state.drop_last()) + if state.last() == Visit::Unseen {
            1nat
        } else {
            0nat
        }
    }
}

proof fn unseen_update(state: Seq<Visit>, i: int, to: Visit)
    requires
        0 <= i < state.len(),
        to != Visit::Unseen,
    ensures
        unseen(state.update(i, to)) == unseen(state) - if state[i] == Visit::Unseen {
            1nat
        } else {
            0nat
        },
    decreases state.len(),
{
    let updated = state.update(i, to);
    if i == state.len() - 1 {
        assert(updated.drop_last() =~= state.drop_last());
    } else {
        assert(updated.drop_last() =~= state.drop_last().update(i, to));
        unseen_update(state.drop_last(), i, to);
    }
}

proof fn unseen_bound(state: Seq<Visit>)
    ensures
        unseen(state) <= state.len(),
    decreases state.len(),
{
    if state.len() > 0 {
        unseen_bound(state.drop_last());
    }
}

proof fn unseen_positive(state: Seq<Visit>, i: int)
    requires
        0 <= i < state.len(),
        state[i] == Visit::Unseen,
    ensures
        unseen(state) > 0,
    decreases state.len(),
{
    if i < state.len() - 1 {
        unseen_positive(state.drop_last(), i);
    }
}

proof fn first_index_found(s: Seq<int>, x: int)
    requires
        s.contains(x),
    ensures
        0 <= first_index(s, x) < s.len(),
        s[first_index(s, x)] == x,
        forall|k: int| 0 <= k < first_index(s, x) ==> s[k] != x,
    decreases s.len(),
{
    if s[0] != x {
        let k = choose|k: int| 0 <= k < s.len() && s[k] == x;
        assert(s.drop_first()[k - 1] == x);
        first_index_found(s.drop_first(), x);
        assert forall|j: int| 0 <= j < first_index(s, x) implies s[j] != x by {
            if j > 0 {
                assert(s.drop_first()[j - 1] == s[j]);
            }
        }
    }
}

/// The open nodes are those of the walk, which goes along edges.
pub open spec fn search_consistent(next: Seq<Seq<int>>, s: Search) -> bool {
    &&& s.state.len() == next.len()
    &&& forall|i: int|
        0 <= i < s.stack.len() ==> 0 <= #[trigger] s.stack[i] < next.len() && s.state[s.stack[i]]
            == Visit::Open
    &&& forall|a: int|
        0 <= a < next.len() && #[trigger] s.state[a] == Visit::Open ==> s.stack.contains(a)
    &&& forall|i: int, j: int| 0 <= i < j < s.stack.len() ==> s.stack[i] != s.stack[j]
    &&& forall|i: int|
        0 <= i < s.stack.len() - 1 ==> links(next)(#[trigger] s.stack[i], s.stack[i + 1])
}

/// The closed nodes in the order in which they were closed: each edge of a closed
/// node leads to one that was closed before.
pub open spec fn closing_order(next: Seq<Seq<int>>, state: Seq<Visit>, order: Seq<int>) -> bool {
    &&& forall|p: int|
        0 <= p < order.len() ==> 0 <= #[trigger] order[p] < next.len() && state[order[p]]
            == Visit::Done
    &&& forall|a: int|
        0 <= a < next.len() && #[trigger] state[a] == Visit::Done ==> order.contains(a)
    &&& forall|p: int, b: int|
        #![trigger links(next)(order[p], b)]
        0 <= p < order.len() && 0 <= b < next.len() && links(next)(order[p], b) ==> exists|q: int|
            0 <= q < p && order[q] == b
}

/// What a visit leaves as it was: closed stays closed, open stays open.
pub open spec fn search_extends(before: Search, after: Search) -> bool {
    &&& after.state.len() == before.state.len()
    &&& after.stack == before.stack
    &&& unseen(after.state) <= unseen(before.state)
    &&& forall|a: int|
        0 <= a < before.state.len() && before.state[a] != Visit::Unseen ==> (
        #[trigger] after.state[a]) == before.state[a]
    &&& forall|a: int|
        0 <= a < before.state.len() && (#[trigger] after.state[a]) == Visit::Open
            ==> before.state[a] == Visit::Open
}

proof fn visit_correct(next: Seq<Seq<int>>, s: Search, node: int, fuel: nat, order: Seq<int>) -> (
closed: Seq<int>)
    requires
        in_range(next),
        search_consistent(next, s),
        closing_order(next, s.state, order),
        s.found is None,
        0 <= node < next.len(),
        s.state[node] == Visit::Unseen,
        s.stack.len() > 0 ==> links(next)(s.stack.last(), node),
        unseen(s.state) <= fuel,
    ensures
        ({
            let r = visit(next, s, node, fuel);
            match r.found {
                Some(path) => is_cycle(next.len(), links(next), path),
                None => {
                    &&& search_consistent(next, r)
                    &&& closing_order(next, r.state, closed)
                    &&& search_extends(s, r)
                    &&& r.state[node] == Visit::Done
                },
            }
        }),
    decreases fuel, 0nat,
{
    unseen_positive(s.state, node);
    let opened = Search {
        state: s.state.update(node, Visit::Open),
        stack: s.stack.push(node),
        found: None,
    };
    unseen_update(s.state, node, Visit::Open);
    assert(search_consistent(next, opened)) by {
        assert forall|a: int|
            0 <= a < next.len() && #[trigger] opened.state[a] == Visit::Open implies opened.stack.contains(
        a) by {
            if a == node {
                assert(opened.stack[s.stack.len() as int] == node);
            } else {
                assert(s.state[a] == Visit::Open);
                let k = choose|k: int| 0 <= k < s.stack.len() && s.stack[k] == a;
                assert(opened.stack[k] == a);
            }
        }
        assert forall|i: int| 0 <= i < opened.stack.len() - 1 implies links(next)(
            #[trigger] opened.stack[i],
            opened.stack[i + 1],
        ) by {
            if i < s.stack.len() - 1 {
                assert(links(next)(s.stack[i], s.stack[i + 1]));
            }
        }
    }
    assert(closing_order(next, opened.state, order)) by {
        assert forall|a: int|
            0 <= a < next.len() && #[trigger] opened.state[a] == Visit::Done implies order.contains(
        a) by {
            assert(s.state[a] == Visit::Done);
        }
    }
    let listed = visit_listed_correct(next, opened, node, 0, (fuel - 1) as nat, order);
    let explored = visit_listed(next, opened, node, 0, (fuel - 1) as nat);
    let r = visit(next, s, node, fuel);
    let closed = listed.push(node);
    if explored.found is None {
        unseen_update(explored.state, node, Visit::Done);
        assert(explored.state[node] == Visit::Open) by {
            assert(opened.state[node] == Visit::Open);
        }
        assert(explored.stack.drop_last() =~= s.stack);
        assert(search_consistent(next, r)) by {
            assert forall|i: int| 0 <= i < r.stack.len() implies 0 <= #[trigger] r.stack[i]
                < next.len() && r.state[r.stack[i]] == Visit::Open by {
                assert(explored.stack[i] == r.stack[i]);
                assert(explored.stack[explored.stack.len() - 1] == node);
            }
            assert forall|a: int|
                0 <= a < next.len() && #[trigger] r.state[a] == Visit::Open implies r.stack.contains(
            a) by {
                assert(explored.state[a] == Visit::Open);
                let k = choose|k: int| 0 <= k < explored.stack.len() && explored.stack[k] == a;
                assert(r.stack[k] == a);
            }
        }
        assert(closing_order(next, r.state, closed)) by {
            assert forall|p: int| 0 <= p < closed.len() implies 0 <= #[trigger] closed[p]
                < next.len() && r.state[closed[p]] == Visit::Done by {
                if p < listed.len() {
                    assert(listed[p] == closed[p]);
                }
            }
            assert forall|a: int|
                0 <= a < next.len() && #[trigger] r.state[a] == Visit::Done implies closed.contains(
            a) by {
                if a == node {
                    assert(closed[listed.len() as int] == node);
                } else {
                    assert(explored.state[a] == Visit::Done);
                    let p = choose|p: int| 0 <= p < listed.len() && listed[p] == a;
                    assert(closed[p] == a);
                }
            }
            assert forall|p: int, b: int|
                #![trigger links(next)(closed[p], b)]
                0 <= p < closed.len() && 0 <= b < next.len() && links(next)(
                    closed[p],
                    b,
                ) implies exists|q: int| 0 <= q < p && closed[q] == b by {
                if p < listed.len() {
                    assert(links(next)(listed[p], b));
                    let q = choose|q: int| 0 <= q < p && listed[q] == b;
                    assert(closed[q] == b);
                } else {
                    let k = choose|k: int| 0 <= k < next[node].len() && next[node][k] == b;
                    assert(explored.state[next[node][k] as int] == Visit::Done);
                    let q = choose|q: int| 0 <= q < listed.len() && listed[q] == b;
                    assert(closed[q] == b);
                }
            }
        }
        assert(search_extends(s, r)) by {
            assert forall|a: int|
                0 <= a < s.state.len() && s.state[a] != Visit::Unseen implies (
            #[trigger] r.state[a]) == s.state[a] by {
                assert(opened.state[a] == s.state[a]);
                assert(explored.state[a] == opened.state[a]);
            }
            assert forall|a: int|
                0 <= a < s.state.len() && (#[trigger] r.state[a]) == Visit::Open implies s.state[a]
                == Visit::Open by {
                assert(explored.state[a] == Visit::Open);
                assert(opened.state[a] == Visit::Open);
            }
        }
    }
    closed
}

proof fn visit_listed_correct(
    next: Seq<Seq<int>>,
    s: Search,
    node: int,
    k: nat,
    fuel: nat,
    order: Seq<int>,
) -> (closed: Seq<int>)
    requires
        in_range(next),
        search_consistent(next, s),
        closing_order(next, s.state, order),
        s.found is None,
        0 <= node < next.len(),
        s.stack.len() > 0,
        s.stack.last() == node,
        k <= next[node].len(),
        forall|q: int|
            0 <= q < k ==> s.state[#[trigger] next[node][q] as int] == Visit::Done,
        unseen(s.state) <= fuel,
    ensures
        ({
            let r = visit_listed(next, s, node, k, fuel);
            match r.found {
                Some(path) => is_cycle(next.len(), links(next), path),
                None => {
                    &&& search_consistent(next, r)
                    &&& closing_order(next, r.state, closed)
                    &&& search_extends(s, r)
                    &&& forall|q: int|
                        0 <= q < next[node].len() ==> r.state[#[trigger] next[node][q] as int]
                            == Visit::Done
                },
            }
        }),
    decreases fuel, next[node].len() - k + 1,
{
    if k >= next[node].len() {
        order
    } else {
        let target = next[node][k as int] as int;
        assert(links(next)(node, target));
        match s.state[target] {
            Visit::Open => {
                first_index_found(s.stack, target);
                let start = first_index(s.stack, target);
                let path = s.stack.skip(start).push(target);
                assert(is_cycle(next.len(), links(next), path)) by {
                    assert forall|i: int| 0 <= i < path.len() - 1 implies links(next)(
                        #[trigger] path[i],
                        path[i + 1],
                    ) by {
                        assert(path[i] == s.stack[start + i]);
                        if i < path.len() - 2 {
                            assert(path[i + 1] == s.stack[start + i + 1]);
                            assert(links(next)(s.stack[start + i], s.stack[start + i + 1]));
                        }
                    }
                    assert forall|i: int| 0 <= i < path.len() implies 0 <= #[trigger] path[i]
                        < next.len() by {
                        if i < path.len() - 1 {
                            assert(path[i] == s.stack[start + i]);
                        }
                    }
                    assert(path[0] == s.stack[start]);
                }
                order
            },
            Visit::Done => visit_listed_correct(next, s, node, k + 1, fuel, order),
            Visit::Unseen => {
                let inner = visit_correct(next, s, target, fuel, order);
                let after = visit(next, s, target, fuel);
                if after.found is None {
                    assert forall|q: int| 0 <= q < k + 1 implies after.state[
                    #[trigger] next[node][q] as int] == Visit::Done by {
                        if q < k {
                            assert(s.state[next[node][q] as int] == Visit::Done);
                        }
                    }
                    visit_listed_correct(next, after, node, k + 1, fuel, inner)
                } else {
                    inner
                }
            },
        }
    }
}

proof fn visit_all_correct(next: Seq<Seq<int>>, s: Search, i: nat, order: Seq<int>)
    requires
        in_range(next),
        search_consistent(next, s),
        closing_order(next, s.state, order),
        s.found is None,
        s.stack.len() == 0,
        i <= next.len(),
        forall|a: int| 0 <= a < i ==> #[trigger] s.state[a] == Visit::Done,
    ensures
        match visit_all(next, s, i).found {
            Some(path) => is_cycle(next.len(), links(next), path),
            None => acyclic(next.len(), links(next)),
        },
    decreases next.len() - i,
{
    if i >= next.len() {
        assert forall|path: Seq<int>| !is_cycle(next.len(), links(next), path) by {
            if is_cycle(next.len(), links(next), path) {
                order_descends(next, s.state, order, path);
            }
        }
    } else if s.state[i as int] == Visit::Unseen {
        unseen_bound(s.state);
        let closed = visit_correct(next, s, i as int, next.len(), order);
        let after = visit(next, s, i as int, next.len());
        if after.found is None {
            assert forall|a: int| 0 <= a < i + 1 implies #[trigger] after.state[a]
                == Visit::Done by {
                if a < i {
                    assert(s.state[a] == Visit::Done);
                }
            }
            visit_all_correct(next, after, i + 1, closed);
        }
    } else {
        assert(s.state[i as int] != Visit::Open) by {
            if s.state[i as int] == Visit::Open {
                assert(s.stack.contains(i as int));
            }
        }
        visit_all_correct(next, s, i + 1, order);
    }
}

proof fn order_descends(
    next: Seq<Seq<int>>,
    state: Seq<Visit>,
    order: Seq<int>,
    path: Seq<int>,
)
    requires
        closing_order(next, state, order),
        forall|a: int| 0 <= a < next.len() ==> #[trigger] state[a] == Visit::Done,
        state.len() == next.len(),
        is_path(next.len(), links(next), path),
        path.len() >= 2,
    ensures
        path.first() != path.last(),
{
    let start = path.first();
    assert(state[start] == Visit::Done);
    let top = least_position(order, start);
    let end = walk_down(next, state, order, path, path.len() - 1, top);
}

proof fn least_position(order: Seq<int>, x: int) -> (p: int)
    requires
        order.contains(x),
    ensures
        0 <= p < order.len(),
        order[p] == x,
        forall|q: int| 0 <= q < p ==> order[q] != x,
{
    first_index_found(order, x);
    first_index(order, x)
}

/// The position of `path[i]` that is met by going down from `top`, the position of
/// the first node.
proof fn walk_down(
    next: Seq<Seq<int>>,
    state: Seq<Visit>,
    order: Seq<int>,
    path: Seq<int>,
    i: int,
    top: int,
) -> (p: int)
    requires
        closing_order(next, state, order),
        is_path(next.len(), links(next), path),
        0 <= top < order.len(),
        order[top] == path.first(),
        0 <= i < path.len(),
    ensures
        0 <= p < order.len(),
        order[p] == path[i],
        p <= top - i,
    decreases i,
{
    if i == 0 {
        top
    } else {
        let above = walk_down(next, state, order, path, i - 1, top);
        assert(links(next)(path[i - 1], path[i]));
        assert(links(next)(order[above], path[i]));
        choose|q: int| 0 <= q < above && order[q] == path[i]
    }
}

/// A depth-first search meets a cycle exactly where there is one, and what it
/// meets is one.
pub proof fn first_cycle_law(next: Seq<Seq<int>>)
    requires
        in_range(next),
    ensures
        match first_cycle(next) {
            Some(path) => is_cycle(next.len(), links(next), path),
            None => acyclic(next.len(), links(next)),
        },
{
    let start = Search {
        state: Seq::new(next.len(), |i: int| Visit::Unseen),
        stack: Seq::empty(),
        found: None,
    };
    visit_all_correct(next, start, 0, Seq::empty());
}

/// The model of the state of a search.
pub open spec fn search_model(
    marks: Seq<Visit>,
    stack: Seq<usize>,
    found: Option<Vec<usize>>,
) -> Search {
    Search {
        state: marks,
        stack: ints(stack),
        found: match found {
            Some(path) => Some(ints(path@)),
            None => None,
        },
    }
}

/// A consistent state whose closed nodes have a closing order.
pub open spec fn search_sound(next: Seq<Seq<int>>, s: Search) -> bool {
    &&& search_consistent(next, s)
    &&& exists|order: Seq<int>| closing_order(next, s.state, order)
}

proof fn visit_sound(next: Seq<Seq<int>>, s: Search, node: int, fuel: nat)
    requires
        in_range(next),
        search_sound(next, s),
        s.found is None,
        0 <= node < next.len(),
        s.state[node] == Visit::Unseen,
        s.stack.len() > 0 ==> links(next)(s.stack.last(), node),
        unseen(s.state) <= fuel,
    ensures
        ({
            let r = visit(next, s, node, fuel);
            r.found is None ==> search_sound(next, r) && search_extends(s, r) && r.state[node]
                == Visit::Done
        }),
{
    let order = choose|order: Seq<int>| closing_order(next, s.state, order);
    let closed = visit_correct(next, s, node, fuel, order);
}

fn visit_node(
    next: &Vec<Vec<usize>>,
    marks: &mut Vec<Visit>,
    stack: &mut Vec<usize>,
    node: usize,
    fuel: usize,
) -> (found: Option<Vec<usize>>)
    requires
        in_range(lists(next@)),
        search_sound(lists(next@), search_model(old(marks)@, old(stack)@, None)),
        node < next@.len(),
        old(marks)@[node as int] == Visit::Unseen,
        old(stack)@.len() > 0 ==> links(lists(next@))(old(stack)@.last() as int, node as int),
        unseen(old(marks)@) <= fuel,
    ensures
        search_model(final(marks)@, final(stack)@, found) == visit(
            lists(next@),
            search_model(old(marks)@, old(stack)@, None),
            node as int,
            fuel as nat,
        ),
    decreases fuel,
{
    let ghost s = search_model(marks@, stack@, None);
    proof {
        unseen_positive(marks@, node as int);
        visit_sound(lists(next@), s, node as int, fuel as nat);
        unseen_update(marks@, node as int, Visit::Open);
    }
    let ghost pushed = stack@;
    marks.set(node, Visit::Open);
    stack.push(node);
    let ghost opened = search_model(marks@, stack@, None);
    proof {
        assert(opened.stack =~= s.stack.push(node as int));
        assert(search_sound(lists(next@), opened)) by {
            let order = choose|order: Seq<int>| closing_order(lists(next@), s.state, order);
            open_sound(lists(next@), s, node as int, order);
        }
    }
    let mut k: usize = 0;
    while k < next[node].len()
        invariant
            in_range(lists(next@)),
            node < next@.len(),
            k <= lists(next@)[node as int].len(),
            fuel > 0,
            search_sound(lists(next@), search_model(marks@, stack@, None)),
            stack@.len() > 0,
            stack@.last() == node,
            marks@[node as int] == Visit::Open,
            unseen(marks@) <= fuel - 1,
            visit_listed(lists(next@), opened, node as int, 0, (fuel - 1) as nat) == visit_listed(
                lists(next@),
                search_model(marks@, stack@, None),
                node as int,
                k as nat,
                (fuel - 1) as nat,
            ),
            opened == (Search {
                state: s.state.update(node as int, Visit::Open),
                stack: s.stack.push(node as int),
                found: None,
            }),
            s == search_model(old(marks)@, old(stack)@, None),
        decreases lists(next@)[node as int].len() - k,
    {
        let target = next[node][k];
        proof {
            assert(lists(next@)[node as int][k as int] == target);
        }
        let ghost current = search_model(marks@, stack@, None);
        match marks[target] {
            Visit::Open => {
                let mut start: usize = 0;
                proof {
                    assert(current.stack.contains(target as int));
                    first_index_found(current.stack, target as int);
                }
                while stack[start] != target
                    invariant
                        current.stack == ints(stack@),
                        start <= first_index(current.stack, target as int),
                        first_index(current.stack, target as int) < stack@.len(),
                        current.stack[first_index(current.stack, target as int)] == target,
                        forall|q: int|
                            0 <= q < first_index(current.stack, target as int) ==> current.stack[q]
                                != target,
                    decreases stack@.len() - start,
                {
                    proof {
                        assert(current.stack[start as int] == stack@[start as int] as int);
                        assert(start < stack.len());
                    }
                    start = start + 1;
                }
                proof {
                    assert(current.stack[start as int] == stack@[start as int] as int);
                    assert(start == first_index(current.stack, target as int));
                }
                let mut path: Vec<usize> = Vec::new();
                let mut q: usize = start;
                while q < stack.len()
                    invariant
                        start <= q <= stack@.len(),
                        path@ == stack@.subrange(start as int, q as int),
                    decreases stack@.len() - q,
                {
                    path.push(stack[q]);
                    proof {
                        assert(path@ =~= stack@.subrange(start as int, q + 1));
                    }
                    q = q + 1;
                }
                path.push(target);
                proof {
                    assert(ints(path@) =~= current.stack.skip(start as int).push(target as int));
                }
                return Some(path);
            },
            Visit::Done => {},
            Visit::Unseen => {
                proof {
                    assert(links(lists(next@))(node as int, target as int));
                    assert(current.stack.last() == node as int);
                    visit_sound(lists(next@), current, target as int, (fuel - 1) as nat);
                }
                let found = visit_node(next, marks, stack, target, fuel - 1);
                if found.is_some() {
                    proof {
                        let after = search_model(marks@, stack@, found);
                        assert(visit_listed(
                            lists(next@),
                            after,
                            node as int,
                            k as nat + 1,
                            (fuel - 1) as nat,
                        ) == after);
                    }
                    return found;
                }
                proof {
                    let after = search_model(marks@, stack@, None);
                    assert(after.stack == current.stack);
                    assert(stack@.len() == after.stack.len());
                    assert(after.stack.last() == stack@.last() as int);
                    assert(current.state[node as int] == Visit::Open);
                    assert(after.state[node as int] == Visit::Open);
                }
            },
        }
        k = k + 1;
    }
    let ghost explored = search_model(marks@, stack@, None);
    marks.set(node, Visit::Done);
    let ghost walk = stack@;
    let _ = stack.pop();
    proof {
        assert(ints(stack@) =~= explored.stack.drop_last());
    }
    None
}

proof fn open_sound(next: Seq<Seq<int>>, s: Search, node: int, order: Seq<int>)
    requires
        search_consistent(next, s),
        closing_order(next, s.state, order),
        0 <= node < next.len(),
        s.state[node] == Visit::Unseen,
        s.stack.len() > 0 ==> links(next)(s.stack.last(), node),
    ensures
        ({
            let opened = Search {
                state: s.state.update(node, Visit::Open),
                stack: s.stack.push(node),
                found: None,
            };
            search_consistent(next, opened) && closing_order(next, opened.state, order)
        }),
{
    let opened = Search {
        state: s.state.update(node, Visit::Open),
        stack: s.stack.push(node),
        found: None,
    };
    assert forall|a: int|
        0 <= a < next.len() && #[trigger] opened.state[a] == Visit::Open implies opened.stack.contains(
    a) by {
        if a == node {
            assert(opened.stack[s.stack.len() as int] == node);
        } else {
            assert(s.state[a] == Visit::Open);
            let k = choose|k: int| 0 <= k < s.stack.len() && s.stack[k] == a;
            assert(opened.stack[k] == a);
        }
    }
    assert forall|i: int| 0 <= i < opened.stack.len() - 1 implies links(next)(
        #[trigger] opened.stack[i],
        opened.stack[i + 1],
    ) by {
        if i < s.stack.len() - 1 {
            assert(links(next)(s.stack[i], s.stack[i + 1]));
        }
    }
    assert forall|a: int|
        0 <= a < next.len() && #[trigger] opened.state[a] == Visit::Done implies order.contains(
    a) by {
        assert(s.state[a] == Visit::Done);
    }
}

/// Searches for a cycle.
pub fn find_cycle(next: &Vec<Vec<usize>>) -> (found: Option<Vec<usize>>)
    requires
        in_range(lists(next@)),
    ensures
        match found {
            Some(path) => first_cycle(lists(next@)) == Some(ints(path@)) && is_cycle(
                next@.len(),
                links(lists(next@)),
                ints(path@),
            ),
            None => first_cycle(lists(next@)) is None && acyclic(next@.len(), links(lists(next@))),
        },
{
    proof {
        first_cycle_law(lists(next@));
    }
    let mut marks: Vec<Visit> = Vec::new();
    let mut i: usize = 0;
    while i < next.len()
        invariant
            i <= next@.len(),
            marks@.len() == i,
            forall|k: int| 0 <= k < i ==> marks@[k] == Visit::Unseen,
        decreases next@.len() - i,
    {
        marks.push(Visit::Unseen);
        i = i + 1;
    }
    let mut stack: Vec<usize> = Vec::new();
    let ghost start = search_model(marks@, stack@, None);
    proof {
        assert(start.state =~= Seq::new(next@.len(), |i: int| Visit::Unseen));
        assert(start.stack =~= Seq::empty());
        assert(closing_order(lists(next@), start.state, Seq::empty()));
    }
    let mut node: usize = 0;
    while node < next.len()
        invariant
            in_range(lists(next@)),
            node <= next@.len(),
            search_sound(lists(next@), search_model(marks@, stack@, None)),
            stack@.len() == 0,
            visit_all(lists(next@), start, 0) == visit_all(
                lists(next@),
                search_model(marks@, stack@, None),
                node as nat,
            ),
            first_cycle(lists(next@)) == visit_all(lists(next@), start, 0).found,
            match first_cycle(lists(next@)) {
                Some(path) => is_cycle(next@.len(), links(lists(next@)), path),
                None => acyclic(next@.len(), links(lists(next@))),
            },
        decreases next@.len() - node,
    {
        if marks[node] == Visit::Unseen {
            let ghost current = search_model(marks@, stack@, None);
            proof {
                unseen_bound(marks@);
                visit_sound(lists(next@), current, node as int, next@.len());
            }
            let found = visit_node(next, &mut marks, &mut stack, node, next.len());
            if found.is_some() {
                proof {
                    let after = search_model(marks@, stack@, found);
                    assert(visit_all(lists(next@), after, node as nat + 1) == after);
                }
                return found;
            }
            proof {
                assert(search_model(marks@, stack@, None).stack == current.stack);
                assert(ints(stack@).len() == 0);
            }
        }
        node = node + 1;
    }
    None
}

/// The numbers below `n` that satisfy the predicate, in ascending order.
pub open spec fn selected(holds: spec_fn(int) -> bool, n: nat) -> Seq<int>
    decreases n,
{
    if n == 0 {
        Seq::empty()
    } else if holds(n - 1) {
        selected(holds, (n - 1) as nat).push(n - 1)
    } else {
        selected(holds, (n - 1) as nat)
    }
}

/// A selection holds exactly the numbers that satisfy the predicate, and ascends.
pub proof fn selected_law(holds: spec_fn(int) -> bool, n: nat)
    ensures
        forall|k: int|
            0 <= k < selected(holds, n).len() ==> 0 <= #[trigger] selected(holds, n)[k] < n
                && holds(selected(holds, n)[k]),
        forall|j: int| 0 <= j < n && #[trigger] holds(j) ==> selected(holds, n).contains(j),
        forall|a: int, b: int|
            0 <= a < b < selected(holds, n).len() ==> selected(holds, n)[a] < selected(
                holds,
                n,
            )[b],
        selected(holds, n).len() <= n,
    decreases n,
{
    if n > 0 {
        selected_law(holds, (n - 1) as nat);
        let inner = selected(holds, (n - 1) as nat);
        let outer = selected(holds, n);
        assert forall|j: int| 0 <= j < n && #[trigger] holds(j) implies outer.contains(j) by {
            if j < n - 1 {
                let k = choose|k: int| 0 <= k < inner.len() && inner[k] == j;
                assert(outer[k] == j);
            } else {
                assert(outer[inner.len() as int] == j);
            }
        }
    }
}

/// Predicates that agree below `n` select the same numbers.
pub proof fn selected_agree(p: spec_fn(int) -> bool, q: spec_fn(int) -> bool, n: nat)
    requires
        forall|j: int| 0 <= j < n ==> #[trigger] p(j) == q(j),
    ensures
        selected(p, n) == selected(q, n),
    decreases n,
{
    if n > 0 {
        assert(p(n - 1) == q(n - 1));
        selected_agree(p, q, (n - 1) as nat);
    }
}

/// The marked numbers below `n`.
pub fn marked(marks: &Vec<bool>, n: usize) -> (r: Vec<usize>)
    requires
        n <= marks@.len(),
    ensures
        ints(r@) == selected(|j: int| marks@[j], n as nat),
{
    let ghost holds = |j: int| marks@[j];
    let mut r: Vec<usize> = Vec::new();
    let mut i: usize = 0;
    proof {
        assert(ints(r@) =~= selected(holds, 0));
    }
    while i < n
        invariant
            i <= n <= marks@.len(),
            holds == (|j: int| marks@[j]),
            ints(r@) == selected(holds, i as nat),
        decreases n - i,
    {
        if marks[i] {
            let ghost before = r@;
            r.push(i);
            proof {
                assert(ints(r@) =~= ints(before).push(i as int));
            }
        }
        i = i + 1;
    }
    r
}

} // verus!
