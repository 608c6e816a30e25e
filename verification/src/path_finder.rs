//! Pathfinding over any graph that can list its nodes and, per node, its
//! `(neighbour, distance increment)` pairs.

use vstd::prelude::*;

use crate::priority_node::{first_min_at, lemma_first_min_at, pop_min, PriorityNode};
use crate::weighted_graph::{lemma_node_view, spec_node, uid_of, Node};

verus! {

/// What the pathfinder needs of a graph: a node count, with handles
/// `0 .. count - 1` naming the nodes, and per node an ordered list of
/// `(neighbour, non-negative distance increment)` pairs.
pub trait PathFindable {
    /// The graph satisfies its own invariant.
    spec fn pf_wf(&self) -> bool;

    /// The number of nodes.
    spec fn node_count(&self) -> nat;

    /// The `(neighbour, increment)` pairs of the node with index `n`, in
    /// iteration order.
    spec fn adj(&self, n: int) -> Seq<(Node, usize)>;

    /// Every neighbour of a node is a node.
    proof fn adj_in_range(&self, n: int)
        requires
            self.pf_wf(),
            0 <= n < self.node_count(),
        ensures
            forall|k: int|
                0 <= k < self.adj(n).len() ==> 0 <= (#[trigger] self.adj(n)[k]).0@
                    < self.node_count(),
    ;

    /// Every node handle, in creation order.
    fn nodes(&self) -> (r: Vec<Node>)
        requires
            self.pf_wf(),
        ensures
            r@.len() == self.node_count(),
            forall|i: int| 0 <= i < r@.len() ==> (#[trigger] r@[i])@ == i,
    ;

    /// The `(neighbour, increment)` pairs of `n`, in iteration order.
    fn get_neighbours(&self, n: Node) -> (r: Vec<(Node, usize)>)
        requires
            self.pf_wf(),
            0 <= n@ < self.node_count(),
        ensures
            r@ == self.adj(n@),
    ;
}

/// Some adjacency entry of `a` leads to `b`.
pub open spec fn edge_to<G: PathFindable>(g: &G, a: Node, b: Node) -> bool {
    exists|k: int| 0 <= k < g.adj(a@).len() && (#[trigger] g.adj(a@)[k]).0 == b
}

/// `p` is a path: two or more nodes of the graph, each consecutive pair
/// joined by an edge.
pub open spec fn is_path<G: PathFindable>(g: &G, p: Seq<Node>) -> bool {
    &&& p.len() >= 2
    &&& forall|i: int| 0 <= i < p.len() ==> 0 <= (#[trigger] p[i])@ < g.node_count()
    &&& forall|i: int| 0 <= i < p.len() - 1 ==> edge_to(g, #[trigger] p[i], p[i + 1])
}

/// Some path leads from `source` to `target`; for `source == target` that
/// asks for a cycle of at least one edge, never for the empty path.
pub open spec fn has_path<G: PathFindable>(g: &G, source: Node, target: Node) -> bool {
    exists|p: Seq<Node>| is_path(g, p) && p[0] == source && p.last() == target
}

/// `e` picks, for each step of the walk `p`, the adjacency entry it uses.
pub open spec fn is_walk<G: PathFindable>(g: &G, p: Seq<Node>, e: Seq<int>) -> bool {
    &&& p.len() == e.len() + 1
    &&& forall|i: int| 0 <= i < p.len() ==> 0 <= (#[trigger] p[i])@ < g.node_count()
    &&& forall|i: int|
        0 <= i < e.len() ==> 0 <= #[trigger] e[i] < g.adj(p[i]@).len() && g.adj(p[i]@)[e[i]].0 == p[
            i + 1
        ]
}

/// The cost of the walk: the sum of the increments of the entries `e`
/// picks.
pub open spec fn walk_cost<G: PathFindable>(g: &G, p: Seq<Node>, e: Seq<int>) -> int
    decreases e.len(),
{
    if e.len() <= 0 {
        0
    } else {
        g.adj(p[0]@)[e[0]].1 + walk_cost(g, p.drop_first(), e.drop_first())
    }
}

/// A walk of one or more steps from `source` to `target`.
pub open spec fn connects<G: PathFindable>(
    g: &G,
    p: Seq<Node>,
    e: Seq<int>,
    source: Node,
    target: Node,
) -> bool {
    &&& is_walk(g, p, e)
    &&& p.len() >= 2
    &&& p[0] == source
    &&& p.last() == target
}

/// A sequence of pairwise distinct nodes of an `n`-node graph has at most
/// `n` elements.
pub proof fn lemma_distinct_nodes_len(p: Seq<Node>, n: int)
    requires
        0 <= n,
        p.no_duplicates(),
        forall|i: int| 0 <= i < p.len() ==> 0 <= (#[trigger] p[i])@ < n,
    ensures
        p.len() <= n,
{
    let views = p.map_values(|x: Node| x@);
    assert(views.no_duplicates()) by {
        assert forall|i: int, j: int|
            0 <= i < views.len() && 0 <= j < views.len() && i != j implies views[i] != views[j] by {
            lemma_node_view(p[i]);
            lemma_node_view(p[j]);
        }
    }
    views.unique_seq_to_set();
    vstd::set_lib::lemma_int_range(0, n);
    assert(views.to_set() <= vstd::set_lib::set_int_range(0, n)) by {
        assert forall|x: int| views.to_set().contains(x) implies vstd::set_lib::set_int_range(
            0,
            n,
        ).contains(x) by {
            let i = choose|i: int| 0 <= i < views.len() && views[i] == x;
            assert(views[i] == p[i]@);
        }
    }
    vstd::set_lib::lemma_len_subset(views.to_set(), vstd::set_lib::set_int_range(0, n));
}

/// The search state is sound: a non-empty simple stack of nodes of the
/// graph, about to look at the `k`th neighbour of its last node.
pub open spec fn paths_state_ok<G: PathFindable>(g: &G, path: Seq<Node>, k: int) -> bool {
    &&& g.pf_wf()
    &&& 1 <= path.len()
    &&& path.no_duplicates()
    &&& forall|i: int| 0 <= i < path.len() ==> 0 <= (#[trigger] path[i])@ < g.node_count()
    &&& 0 <= k
}

/// The paths the exhaustive search records from the stack `path`, with the
/// first `k` neighbours of the stack's last node already handled: per
/// remaining neighbour in order, the finished path when the neighbour is
/// the target, then every path found by descending into the neighbour when
/// it is new; a neighbour already on the stack is passed over.
pub open spec fn paths_from<G: PathFindable>(
    g: &G,
    path: Seq<Node>,
    target: Node,
    k: int,
) -> Seq<Seq<Node>>
    decreases g.node_count() - path.len(), g.adj(path.last()@).len() - k,
        when paths_state_ok(g, path, k)
        via paths_from_decreases::<G>
{
    let ns = g.adj(path.last()@);
    if k >= ns.len() {
        Seq::empty()
    } else {
        let n = ns[k].0;
        if n == target {
            seq![path.push(n)] + paths_from(g, path, target, k + 1)
        } else if path.contains(n) {
            paths_from(g, path, target, k + 1)
        } else {
            paths_from(g, path.push(n), target, 0) + paths_from(g, path, target, k + 1)
        }
    }
}

#[via_fn]
proof fn paths_from_decreases<G: PathFindable>(g: &G, path: Seq<Node>, target: Node, k: int) {
    lemma_distinct_nodes_len(path, g.node_count() as int);
    let ns = g.adj(path.last()@);
    if k < ns.len() {
        let n = ns[k].0;
        g.adj_in_range(path.last()@);
        if n != target && !path.contains(n) {
            let pushed = path.push(n);
            assert(pushed.no_duplicates());
            lemma_distinct_nodes_len(pushed, g.node_count() as int);
        }
    }
}

/// The views of a list of found paths.
pub open spec fn path_views(ps: Seq<Vec<Node>>) -> Seq<Seq<Node>> {
    ps.map_values(|p: Vec<Node>| p@)
}

/// `q` is one of the results the search may record over the stack `path`:
/// it extends the stack, ends at the target, follows edges of the graph,
/// and repeats no node except that its last node may close a cycle.
pub open spec fn recorded_path_ok<G: PathFindable>(
    g: &G,
    path: Seq<Node>,
    target: Node,
    q: Seq<Node>,
) -> bool {
    &&& q.len() > path.len()
    &&& q.take(path.len() as int) == path
    &&& q.last() == target
    &&& forall|i: int| 0 <= i < q.len() ==> 0 <= (#[trigger] q[i])@ < g.node_count()
    &&& forall|i: int| 0 <= i < q.len() - 1 ==> edge_to(g, #[trigger] q[i], q[i + 1])
    &&& q.drop_last().no_duplicates()
}

/// Everything the exhaustive search records from a stack whose nodes form
/// an edge-connected simple prefix is a simple path to the target: the
/// search excludes cycles, except that the recorded path's last node may
/// close one back into the stack.
pub proof fn lemma_paths_from_are_paths<G: PathFindable>(
    g: &G,
    path: Seq<Node>,
    target: Node,
    k: int,
)
    requires
        paths_state_ok(g, path, k),
        0 <= target@ < g.node_count(),
        forall|i: int| 0 <= i < path.len() - 1 ==> edge_to(g, #[trigger] path[i], path[i + 1]),
    ensures
        forall|q: Seq<Node>|
            #[trigger] paths_from(g, path, target, k).contains(q) ==> recorded_path_ok(
                g,
                path,
                target,
                q,
            ),
    decreases g.node_count() - path.len(), g.adj(path.last()@).len() - k,
{
    lemma_distinct_nodes_len(path, g.node_count() as int);
    let ns = g.adj(path.last()@);
    let whole = paths_from(g, path, target, k);
    if k < ns.len() {
        let n = ns[k].0;
        g.adj_in_range(path.last()@);
        lemma_paths_from_are_paths(g, path, target, k + 1);
        let rest = paths_from(g, path, target, k + 1);
        if n == target {
            let head = path.push(n);
            assert(recorded_path_ok(g, path, target, head)) by {
                assert(head.take(path.len() as int) =~= path);
                assert(head.drop_last() =~= path);
                assert(edge_to(g, path.last(), n));
                assert forall|i: int| 0 <= i < head.len() - 1 implies edge_to(
                    g,
                    #[trigger] head[i],
                    head[i + 1],
                ) by {
                    if i < path.len() - 1 {
                        assert(head[i] == path[i] && head[i + 1] == path[i + 1]);
                    } else {
                        assert(head[i] == path.last() && head[i + 1] == n);
                    }
                }
            }
            assert forall|q: Seq<Node>| #[trigger] whole.contains(q) implies recorded_path_ok(
                g,
                path,
                target,
                q,
            ) by {
                let idx = choose|idx: int| 0 <= idx < whole.len() && whole[idx] == q;
                if idx == 0 {
                    assert(q == head);
                } else {
                    assert(q == rest[idx - 1]);
                    assert(rest.contains(q));
                }
            }
        } else if path.contains(n) {
            assert forall|q: Seq<Node>| #[trigger] whole.contains(q) implies recorded_path_ok(
                g,
                path,
                target,
                q,
            ) by {
                assert(rest.contains(q));
            }
        } else {
            let pushed = path.push(n);
            assert(pushed.no_duplicates());
            lemma_distinct_nodes_len(pushed, g.node_count() as int);
            assert(forall|i: int|
                0 <= i < pushed.len() - 1 ==> edge_to(g, #[trigger] pushed[i], pushed[i + 1])) by {
                assert forall|i: int| 0 <= i < pushed.len() - 1 implies edge_to(
                    g,
                    #[trigger] pushed[i],
                    pushed[i + 1],
                ) by {
                    if i < path.len() - 1 {
                        assert(pushed[i] == path[i] && pushed[i + 1] == path[i + 1]);
                    } else {
                        assert(pushed[i] == path.last() && pushed[i + 1] == n);
                    }
                }
            }
            lemma_paths_from_are_paths(g, pushed, target, 0);
            let deeper = paths_from(g, pushed, target, 0);
            assert forall|q: Seq<Node>| #[trigger] whole.contains(q) implies recorded_path_ok(
                g,
                path,
                target,
                q,
            ) by {
                let idx = choose|idx: int| 0 <= idx < whole.len() && whole[idx] == q;
                if idx < deeper.len() {
                    assert(q == deeper[idx]);
                    assert(deeper.contains(q));
                    assert(recorded_path_ok(g, pushed, target, q));
                    assert(q.take(path.len() as int) =~= pushed.take(
                        path.len() as int,
                    ).take(path.len() as int));
                    assert(q.take(pushed.len() as int) == pushed);
                    assert forall|i: int| 0 <= i < path.len() implies q.take(path.len() as int)[i]
                        == path[i] by {
                        assert(q[i] == pushed[i]);
                    }
                    assert(q.take(path.len() as int) =~= path);
                } else {
                    assert(q == rest[idx - deeper.len()]);
                    assert(rest.contains(q));
                }
            }
        }
    } else {
        assert(whole.len() == 0);
    }
}

/// Where no path joins `source` to `target`, the exhaustive search records
/// nothing: across disconnected components the result is empty.
pub proof fn lemma_no_path_no_results<G: PathFindable>(g: &G, source: Node, target: Node)
    requires
        g.pf_wf(),
        0 <= source@ < g.node_count(),
        0 <= target@ < g.node_count(),
        !has_path(g, source, target),
    ensures
        paths_from(g, seq![source], target, 0) == Seq::<Seq<Node>>::empty(),
{
    let start = seq![source];
    let r = paths_from(g, start, target, 0);
    if r.len() > 0 {
        lemma_paths_from_are_paths(g, start, target, 0);
        let q = r[0];
        assert(r.contains(q));
        assert(recorded_path_ok(g, start, target, q));
        assert(q[0] == q.take(1)[0]);
        assert(is_path(g, q));
        assert(false);
    }
    assert(r =~= Seq::<Seq<Node>>::empty());
}

/// Whether `v` holds `n`.
fn contains_node(v: &Vec<Node>, n: Node) -> (r: bool)
    ensures
        r == v@.contains(n),
{
    let len = v.len();
    let mut i: usize = 0;
    while i < len
        invariant
            i <= len,
            len == v@.len(),
            forall|k: int| 0 <= k < i ==> v@[k] != n,
        decreases len - i,
    {
        if v[i] == n {
            return true;
        }
        i = i + 1;
    }
    false
}

/// The pathfinding engine: shortest path and exhaustive simple-path
/// enumeration over any [`PathFindable`] graph.
pub struct PathFinder;

/// The queue holds only nodes of the graph, each either relaxed already
/// (it has a recorded predecessor) or the source itself.
pub open spec fn queue_ok(
    q: Seq<PriorityNode<usize, Node>>,
    n: int,
    previous: Seq<Option<Node>>,
    source: Node,
) -> bool {
    forall|qi: int|
        0 <= qi < q.len() ==> 0 <= (#[trigger] q[qi]).node@ < n && (previous[q[qi].node@] is Some
            || q[qi].node == source)
}

/// The relaxation state is sound: every recorded predecessor names a
/// visited node with an edge to its successor, predecessors of visited
/// nodes were visited strictly earlier, and only the source is visited
/// without a predecessor.
pub open spec fn relax_ok<G: PathFindable>(
    g: &G,
    n: int,
    source: Node,
    visited: Seq<bool>,
    previous: Seq<Option<Node>>,
    order: Map<int, int>,
    steps: int,
) -> bool {
    &&& visited.len() == n
    &&& previous.len() == n
    &&& n == g.node_count()
    &&& forall|v: int|
        0 <= v < n ==> ((#[trigger] previous[v]) matches Some(u) ==> 0 <= u@ < n && edge_to(
            g,
            u,
            spec_node(v),
        ) && visited[u@])
    &&& forall|v: int|
        0 <= v < n && visited[v] ==> ((#[trigger] previous[v]) matches Some(u) ==> order[u@]
            < order[v])
    &&& forall|v: int| 0 <= v < n && #[trigger] visited[v] && previous[v] is None ==> v == source@
    &&& forall|v: int|
        0 <= v < n && #[trigger] visited[v] ==> order.contains_key(v) && 0 <= order[v] < steps
}

/// The relaxation state is sound everywhere except possibly at the slot
/// `skip`, which still records a visited predecessor joined by an edge:
/// the state the search is in right after the relaxation that reached the
/// target ended it.
pub open spec fn relax_ok_except<G: PathFindable>(
    g: &G,
    n: int,
    source: Node,
    visited: Seq<bool>,
    previous: Seq<Option<Node>>,
    order: Map<int, int>,
    steps: int,
    skip: int,
) -> bool {
    &&& visited.len() == n
    &&& previous.len() == n
    &&& n == g.node_count()
    &&& forall|v: int|
        0 <= v < n ==> ((#[trigger] previous[v]) matches Some(u) ==> 0 <= u@ < n && edge_to(
            g,
            u,
            spec_node(v),
        ) && visited[u@])
    &&& forall|v: int|
        0 <= v < n && v != skip && visited[v] ==> ((#[trigger] previous[v]) matches Some(u)
            ==> order[u@] < order[v])
    &&& forall|v: int|
        0 <= v < n && v != skip && #[trigger] visited[v] && previous[v] is None ==> v == source@
    &&& forall|v: int|
        0 <= v < n && #[trigger] visited[v] ==> order.contains_key(v) && 0 <= order[v] < steps
}

/// Every queue entry carries a priority at least `floor`: nothing cheaper
/// than what has already been settled is in flight.
pub open spec fn queue_floor(q: Seq<PriorityNode<usize, Node>>, floor: int) -> bool {
    forall|qi: int| 0 <= qi < q.len() ==> (#[trigger] q[qi]).priority >= floor
}

/// Every unvisited node with a finite tentative distance has a queue entry
/// at exactly that distance.
pub open spec fn queue_covers(
    q: Seq<PriorityNode<usize, Node>>,
    visited: Seq<bool>,
    dist: Seq<usize>,
    n: int,
) -> bool {
    forall|v: int|
        0 <= v < n && (#[trigger] dist[v]) < usize::MAX && !visited[v] ==> exists|qi: int|
            0 <= qi < q.len() && (#[trigger] q[qi]).node@ == v && q[qi].priority == dist[v]
}

/// While the source is unvisited, its initial zero-priority entry is still
/// queued.
pub open spec fn source_queued(
    q: Seq<PriorityNode<usize, Node>>,
    visited: Seq<bool>,
    source: Node,
) -> bool {
    !visited[source@] ==> exists|qi: int|
        0 <= qi < q.len() && (#[trigger] q[qi]).node == source && q[qi].priority == 0
}

/// The settled bookkeeping: the source was settled at cost zero, and every
/// settled node's cost is recorded and no larger than the cost `maxpop` of
/// the latest settlement.
pub open spec fn settled_base(
    source: Node,
    visited: Seq<bool>,
    popdist: Map<int, int>,
    maxpop: int,
    n: int,
) -> bool {
    &&& 0 <= maxpop
    &&& (visited[source@] ==> popdist[source@] == 0)
    &&& forall|v: int|
        0 <= v < n && #[trigger] visited[v] ==> popdist.contains_key(v) && 0 <= popdist[v]
            <= maxpop
}

/// The `k`th adjacency entry of the settled node `u` is accounted for: its
/// bound `popdist[u] + w` does not fit a `usize`, or it leads into the
/// settled region no more cheaply than that region was settled, or it
/// leads to a node whose tentative distance is within the bound. An entry
/// into the target never fits, since a fitting one ends the search.
pub open spec fn edge_settled<G: PathFindable>(
    g: &G,
    target: Node,
    visited: Seq<bool>,
    dist: Seq<usize>,
    popdist: Map<int, int>,
    u: int,
    k: int,
) -> bool {
    let v = g.adj(u)[k].0;
    let w = g.adj(u)[k].1;
    &&& (popdist[u] + w >= usize::MAX || (visited[v@] && popdist[v@] <= popdist[u] + w) || (
    !visited[v@] && dist[v@] <= popdist[u] + w && dist[v@] < usize::MAX))
    &&& (v@ == target@ ==> popdist[u] + w >= usize::MAX)
}

/// Every adjacency entry of every settled node is accounted for.
pub open spec fn settled_edges<G: PathFindable>(
    g: &G,
    n: int,
    target: Node,
    visited: Seq<bool>,
    dist: Seq<usize>,
    popdist: Map<int, int>,
) -> bool {
    forall|u: int, k: int|
        0 <= u < n && visited[u] && 0 <= k < g.adj(u).len() ==> #[trigger] edge_settled(
            g,
            target,
            visited,
            dist,
            popdist,
            u,
            k,
        )
}

/// A walk's cost is a sum of `usize` increments.
pub proof fn lemma_walk_cost_nonneg<G: PathFindable>(g: &G, p: Seq<Node>, e: Seq<int>)
    ensures
        walk_cost(g, p, e) >= 0,
    decreases e.len(),
{
    if e.len() > 0 {
        lemma_walk_cost_nonneg(g, p.drop_first(), e.drop_first());
    }
}

/// Once the queue has drained, every walk that ends at the target costs at
/// least `budget` less than what a `usize` can hold, counted from any
/// settled starting node whose settlement cost is within `budget`.
proof fn lemma_settled_walk<G: PathFindable>(
    g: &G,
    n: int,
    target: Node,
    visited: Seq<bool>,
    dist: Seq<usize>,
    popdist: Map<int, int>,
    p: Seq<Node>,
    e: Seq<int>,
    budget: int,
)
    requires
        g.pf_wf(),
        n == g.node_count(),
        visited.len() == n,
        dist.len() == n,
        forall|v: int| 0 <= v < n && (#[trigger] dist[v]) < usize::MAX ==> visited[v],
        settled_edges(g, n, target, visited, dist, popdist),
        is_walk(g, p, e),
        p.len() >= 2,
        p.last() == target,
        visited[p[0]@],
        popdist[p[0]@] <= budget,
    ensures
        budget + walk_cost(g, p, e) >= usize::MAX,
    decreases e.len(),
{
    let u = p[0];
    let v = g.adj(u@)[e[0]].0;
    let w = g.adj(u@)[e[0]].1;
    assert(v == p[1]);
    let rest_p = p.drop_first();
    let rest_e = e.drop_first();
    lemma_walk_cost_nonneg(g, rest_p, rest_e);
    assert(walk_cost(g, p, e) == w + walk_cost(g, rest_p, rest_e));
    assert(edge_settled(g, target, visited, dist, popdist, u@, e[0]));
    if v@ == target@ {
        assert(popdist[u@] + w >= usize::MAX);
    } else {
        lemma_node_view(v);
        lemma_node_view(target);
        assert(v != target);
        assert(p.len() > 2);
        if popdist[u@] + w >= usize::MAX {
        } else if !visited[v@] {
            assert(dist[v@] < usize::MAX);
            assert(false);
        } else {
            assert(popdist[v@] <= popdist[u@] + w);
            assert(is_walk(g, rest_p, rest_e)) by {
                assert forall|i: int|
                    0 <= i < rest_e.len() implies 0 <= #[trigger] rest_e[i] < g.adj(
                    rest_p[i]@,
                ).len() && g.adj(rest_p[i]@)[rest_e[i]].0 == rest_p[i + 1] by {
                    assert(rest_e[i] == e[i + 1]);
                    assert(rest_p[i] == p[i + 1]);
                    assert(rest_p[i + 1] == p[i + 2]);
                }
            }
            assert(rest_p.last() == target);
            lemma_settled_walk(g, n, target, visited, dist, popdist, rest_p, rest_e, budget + w);
        }
    }
}

/// Every distance increment of `g` is one step, as over an unweighted
/// graph.
pub open spec fn unit_weights<G: PathFindable>(g: &G) -> bool {
    forall|n: int, k: int|
        0 <= n < g.node_count() && 0 <= k < g.adj(n).len() ==> (#[trigger] g.adj(n)[k]).1 == 1
}

/// A path can be walked: some choice of adjacency entries realizes it.
pub proof fn lemma_path_to_walk<G: PathFindable>(g: &G, p: Seq<Node>)
    requires
        is_path(g, p),
    ensures
        exists|e: Seq<int>| is_walk(g, p, e) && e.len() == p.len() - 1,
{
    let e = Seq::new(
        (p.len() - 1) as nat,
        |i: int|
            choose|k: int| 0 <= k < g.adj(p[i]@).len() && (#[trigger] g.adj(p[i]@)[k]).0 == p[i
                + 1],
    );
    assert(is_walk(g, p, e)) by {
        assert forall|i: int|
            0 <= i < e.len() implies 0 <= #[trigger] e[i] < g.adj(p[i]@).len() && g.adj(
            p[i]@,
        )[e[i]].0 == p[i + 1] by {
            assert(edge_to(g, p[i], p[i + 1]));
        }
    }
    assert(e.len() == p.len() - 1);
}

/// On unit weights a walk costs exactly its number of steps.
pub proof fn lemma_unit_walk_cost<G: PathFindable>(g: &G, p: Seq<Node>, e: Seq<int>)
    requires
        unit_weights(g),
        is_walk(g, p, e),
    ensures
        walk_cost(g, p, e) == e.len(),
    decreases e.len(),
{
    if e.len() > 0 {
        assert(g.adj(p[0]@)[e[0]].1 == 1);
        let rest_p = p.drop_first();
        let rest_e = e.drop_first();
        assert(is_walk(g, rest_p, rest_e)) by {
            assert forall|i: int|
                0 <= i < rest_e.len() implies 0 <= #[trigger] rest_e[i] < g.adj(
                rest_p[i]@,
            ).len() && g.adj(rest_p[i]@)[rest_e[i]].0 == rest_p[i + 1] by {
                assert(rest_e[i] == e[i + 1]);
                assert(rest_p[i] == p[i + 1]);
                assert(rest_p[i + 1] == p[i + 2]);
            }
        }
        lemma_unit_walk_cost(g, rest_p, rest_e);
    }
}

/// Wherever some path joins `source` to `target`, one with at most one
/// node more than the graph holds joins them too: cutting a cycle out of a
/// path leaves a path.
#[verifier::rlimit(100)]
pub proof fn lemma_short_path<G: PathFindable>(g: &G, p: Seq<Node>, source: Node, target: Node)
    requires
        is_path(g, p),
        p[0] == source,
        p.last() == target,
    ensures
        exists|q: Seq<Node>|
            #[trigger] is_path(g, q) && q[0] == source && q.last() == target && q.len()
                <= g.node_count() + 1,
    decreases p.len(),
{
    if p.len() <= g.node_count() + 1 {
        assert(is_path(g, p) && p[0] == source && p.last() == target && p.len() <= g.node_count()
            + 1);
    } else {
        let body = p.drop_last();
        if body.no_duplicates() {
            lemma_distinct_nodes_len(body, g.node_count() as int);
            assert(false);
        } else {
            let (i, j): (int, int) = choose|i: int, j: int|
                0 <= i < body.len() && 0 <= j < body.len() && i != j && body[i] == body[j];
            let a = if i < j {
                i
            } else {
                j
            };
            let b = if i < j {
                j
            } else {
                i
            };
            assert(p[a] == p[b]);
            let q = p.take(a) + p.subrange(b, p.len() as int);
            assert(q.len() == a + p.len() - b);
            assert(b <= p.len() - 2);
            assert(q.len() >= 2);
            assert(q.len() < p.len());
            assert(q[0] == source) by {
                if a > 0 {
                    assert(q[0] == p[0]);
                } else {
                    assert(q[0] == p[b]);
                    assert(p[b] == p[a]);
                }
            }
            assert(q.last() == p.last());
            assert forall|m: int| 0 <= m < q.len() implies 0 <= (#[trigger] q[m])@
                < g.node_count() by {
                if m < a {
                    assert(q[m] == p[m]);
                } else {
                    assert(q[m] == p[b + (m - a)]);
                }
            }
            assert forall|m: int| 0 <= m < q.len() - 1 implies edge_to(
                g,
                #[trigger] q[m],
                q[m + 1],
            ) by {
                if m + 1 < a {
                    assert(q[m] == p[m] && q[m + 1] == p[m + 1]);
                } else if m + 1 == a {
                    assert(q[m] == p[m]);
                    assert(q[m + 1] == p[b]);
                    assert(p[b] == p[a]);
                    assert(edge_to(g, p[m], p[m + 1]));
                } else {
                    assert(q[m] == p[b + (m - a)] && q[m + 1] == p[b + (m - a) + 1]);
                    assert(edge_to(g, p[b + (m - a)], p[b + (m - a) + 1]));
                }
            }
            assert(is_path(g, q));
            lemma_short_path(g, q, source, target);
        }
    }
}

/// Over unit weights the search's empty outcome certifies unreachability:
/// where every walk from `source` to `target` costs at least `usize::MAX`
/// steps, no path joins them at all, disconnected components included.
pub proof fn lemma_none_means_unreachable<G: PathFindable>(g: &G, source: Node, target: Node)
    requires
        g.pf_wf(),
        unit_weights(g),
        g.node_count() < usize::MAX,
        forall|p: Seq<Node>, e: Seq<int>|
            connects(g, p, e, source, target) ==> walk_cost(g, p, e) >= usize::MAX,
    ensures
        !has_path(g, source, target),
{
    if has_path(g, source, target) {
        let p0 = choose|p: Seq<Node>| is_path(g, p) && p[0] == source && p.last() == target;
        lemma_short_path(g, p0, source, target);
        let q = choose|q: Seq<Node>|
            #[trigger] is_path(g, q) && q[0] == source && q.last() == target && q.len()
                <= g.node_count() + 1;
        lemma_path_to_walk(g, q);
        let e = choose|e: Seq<int>| #[trigger] is_walk(g, q, e) && e.len() == q.len() - 1;
        lemma_unit_walk_cost(g, q, e);
        assert(connects(g, q, e, source, target));
        assert(walk_cost(g, q, e) < usize::MAX);
        assert(false);
    }
}

/// The ghost visited set mirrors the visited flags.
pub open spec fn vset_ok(visited: Seq<bool>, vset: Set<int>, n: int) -> bool {
    &&& forall|v: int| 0 <= v < n ==> ((#[trigger] visited[v]) <==> vset.contains(v))
    &&& forall|x: int| #[trigger] vset.contains(x) ==> 0 <= x < n
    &&& vset.finite()
    &&& vset.len() <= n
}

impl PathFinder {
    /// Single-source single-target search by priority-queue relaxation over
    /// non-negative increments, ending as soon as a relaxation reaches the
    /// target. A returned path leads from `source` to `target` along edges
    /// of the graph; `source == target` yields a path only when a cycle
    /// closes back into `source`, never the empty path. `None` comes back
    /// only when no walk from `source` to `target` costs less than
    /// `usize::MAX`; over unit weights that is exactly unreachability, see
    /// [`lemma_none_means_unreachable`].
    #[verifier::rlimit(100)]
    pub fn find_shortest_path<G: PathFindable>(graph: &G, source: Node, target: Node) -> (r:
        Option<Vec<Node>>)
        requires
            graph.pf_wf(),
            0 <= source@ < graph.node_count(),
            0 <= target@ < graph.node_count(),
        ensures
            r matches Some(p) ==> is_path(graph, p@) && p@[0] == source && p@.last() == target,
            r is None ==> forall|p: Seq<Node>, e: Seq<int>|
                connects(graph, p, e, source, target) ==> walk_cost(graph, p, e) >= usize::MAX,
    {
        let nodes = graph.nodes();
        let n = nodes.len();
        let ghost gn = graph.node_count() as int;

        let mut distance: Vec<usize> = Vec::new();
        let mut visited: Vec<bool> = Vec::new();
        let mut previous: Vec<Option<Node>> = Vec::new();
        let mut i: usize = 0;
        while i < n
            invariant
                i <= n,
                distance@.len() == i,
                visited@.len() == i,
                previous@.len() == i,
                forall|v: int| 0 <= v < i ==> (#[trigger] distance@[v]) == usize::MAX,
                forall|v: int| 0 <= v < i ==> (#[trigger] visited@[v]) == false,
                forall|v: int| 0 <= v < i ==> (#[trigger] previous@[v]) is None,
            decreases n - i,
        {
            distance.push(usize::MAX);
            visited.push(false);
            previous.push(None);
            i = i + 1;
        }

        let mut queue: Vec<PriorityNode<usize, Node>> = Vec::new();
        queue.push(PriorityNode { priority: 0, node: source });
        proof {
            assert(queue@[0].node == source && queue@[0].priority == 0);
        }

        let ghost mut order: Map<int, int> = Map::empty();
        let ghost mut steps: int = 0;
        let ghost mut vset: Set<int> = Set::empty();
        let ghost mut popdist: Map<int, int> = Map::empty();
        let ghost mut maxpop: int = 0;
        let mut target_reached = false;

        while queue.len() != 0
            invariant_except_break
                graph.pf_wf(),
                0 <= source@ < gn,
                0 <= target@ < gn,
                gn == graph.node_count(),
                n == gn,
                distance@.len() == n,
                target_reached == false,
                0 <= steps,
                previous@[target@] is None,
                visited@[target@] ==> target == source,
                distance@[target@] == usize::MAX,
                queue_ok(queue@, gn, previous@, source),
                relax_ok(graph, gn, source, visited@, previous@, order, steps),
                vset_ok(visited@, vset, gn),
                queue_floor(queue@, maxpop),
                queue_covers(queue@, visited@, distance@, gn),
                source_queued(queue@, visited@, source),
                settled_base(source, visited@, popdist, maxpop, gn),
                settled_edges(graph, gn, target, visited@, distance@, popdist),
            ensures
                graph.pf_wf(),
                gn == graph.node_count(),
                n == gn,
                relax_ok_except(graph, gn, source, visited@, previous@, order, steps, target@),
                visited@[target@] ==> target == source,
                target_reached ==> previous@[target@] is Some,
                !target_reached ==> queue@.len() == 0 && visited@.len() == n && distance@.len()
                    == n && queue_covers(queue@, visited@, distance@, gn) && source_queued(
                    queue@,
                    visited@,
                    source,
                ) && settled_base(source, visited@, popdist, maxpop, gn) && settled_edges(
                    graph,
                    gn,
                    target,
                    visited@,
                    distance@,
                    popdist,
                ),
            decreases gn - vset.len(), queue@.len(),
        {
            let ghost q0 = queue@;
            let cv = match pop_min(&mut queue) {
                Some(c) => c,
                None => vstd::pervasive::unreached(),
            };
            proof {
                lemma_first_min_at(q0);
                assert(cv == q0[first_min_at(q0)]);
                assert(queue@ == q0.remove(first_min_at(q0)));
                assert forall|qi: int| 0 <= qi < queue@.len() implies 0 <= (#[trigger] queue@[
                    qi
                ]).node@ < gn && (previous@[queue@[qi].node@] is Some || queue@[qi].node
                    == source) && queue@[qi].priority >= cv.priority by {
                    let m = first_min_at(q0);
                    if qi < m {
                        assert(queue@[qi] == q0[qi]);
                    } else {
                        assert(queue@[qi] == q0[qi + 1]);
                    }
                }
                assert(cv.priority >= maxpop);
            }
            let cuid = uid_of(cv.node);
            if visited[cuid] {
                proof {
                    let m = first_min_at(q0);
                    assert(queue_covers(queue@, visited@, distance@, gn)) by {
                        assert forall|v: int|
                            0 <= v < gn && (#[trigger] distance@[v]) < usize::MAX && !visited@[
                            v
                        ] implies exists|qi: int|
                            0 <= qi < queue@.len() && (#[trigger] queue@[qi]).node@ == v && queue@[
                            qi
                        ].priority == distance@[v] by {
                            let wi = choose|wi: int|
                                0 <= wi < q0.len() && (#[trigger] q0[wi]).node@ == v && q0[
                                wi
                            ].priority == distance@[v];
                            assert(q0[m].node@ == cuid as int);
                            assert(wi != m);
                            if wi < m {
                                assert(queue@[wi] == q0[wi]);
                            } else {
                                assert(queue@[wi - 1] == q0[wi]);
                            }
                        }
                    }
                    assert(source_queued(queue@, visited@, source)) by {
                        if !visited@[source@] {
                            let wi = choose|wi: int|
                                0 <= wi < q0.len() && (#[trigger] q0[wi]).node == source && q0[
                                wi
                            ].priority == 0;
                            lemma_node_view(source);
                            lemma_node_view(cv.node);
                            assert(q0[wi].node@ == source@);
                            assert(wi != m);
                            if wi < m {
                                assert(queue@[wi] == q0[wi]);
                            } else {
                                assert(queue@[wi - 1] == q0[wi]);
                            }
                        }
                    }
                }
                continue;
            }
            let ghost visited0 = visited@;
            let ghost order0 = order;
            let ghost steps0 = steps;
            let ghost popdist0 = popdist;
            let ghost maxpop0 = maxpop;
            visited[cuid] = true;
            proof {
                let m = first_min_at(q0);
                popdist = popdist.insert(cuid as int, cv.priority as int);
                maxpop = cv.priority as int;
                if cuid as int == source@ {
                    lemma_node_view(source);
                    lemma_node_view(cv.node);
                    let wi = choose|wi: int|
                        0 <= wi < q0.len() && (#[trigger] q0[wi]).node == source && q0[
                        wi
                    ].priority == 0;
                    assert(q0[m].priority <= q0[wi].priority);
                    assert(cv.priority == 0);
                }
                assert(settled_base(source, visited@, popdist, maxpop, gn)) by {
                    assert forall|v: int|
                        0 <= v < gn && #[trigger] visited@[v] implies popdist.contains_key(v) && 0
                        <= popdist[v] <= maxpop by {
                        if v != cuid as int {
                            assert(visited0[v]);
                            assert(popdist[v] == popdist0[v]);
                        }
                    }
                }
                assert(queue_floor(queue@, maxpop)) by {
                    assert forall|qi: int|
                        0 <= qi < queue@.len() implies (#[trigger] queue@[qi]).priority
                        >= maxpop by {
                        if qi < m {
                            assert(queue@[qi] == q0[qi]);
                        } else {
                            assert(queue@[qi] == q0[qi + 1]);
                        }
                    }
                }
                assert(queue_covers(queue@, visited@, distance@, gn)) by {
                    assert forall|v: int|
                        0 <= v < gn && (#[trigger] distance@[v]) < usize::MAX && !visited@[
                        v
                    ] implies exists|qi: int|
                        0 <= qi < queue@.len() && (#[trigger] queue@[qi]).node@ == v && queue@[
                        qi
                    ].priority == distance@[v] by {
                        assert(!visited0[v]);
                        let wi = choose|wi: int|
                            0 <= wi < q0.len() && (#[trigger] q0[wi]).node@ == v && q0[
                            wi
                        ].priority == distance@[v];
                        assert(q0[m].node@ == cuid as int);
                        assert(wi != m);
                        if wi < m {
                            assert(queue@[wi] == q0[wi]);
                        } else {
                            assert(queue@[wi - 1] == q0[wi]);
                        }
                    }
                }
                assert(source_queued(queue@, visited@, source)) by {
                    if !visited@[source@] {
                        assert(!visited0[source@]);
                        assert(cuid as int != source@);
                        let wi = choose|wi: int|
                            0 <= wi < q0.len() && (#[trigger] q0[wi]).node == source && q0[
                            wi
                        ].priority == 0;
                        lemma_node_view(source);
                        lemma_node_view(cv.node);
                        assert(q0[wi].node@ == source@);
                        assert(wi != m);
                        if wi < m {
                            assert(queue@[wi] == q0[wi]);
                        } else {
                            assert(queue@[wi - 1] == q0[wi]);
                        }
                    }
                }
                order = order.insert(cuid as int, steps);
                steps = steps + 1;
                vset = vset.insert(cuid as int);
                vstd::set_lib::lemma_int_range(0, gn);
                vstd::set_lib::lemma_len_subset(vset, vstd::set_lib::set_int_range(0, gn));
                assert(previous@[cv.node@] is Some || cv.node == source);
                assert(relax_ok(graph, gn, source, visited@, previous@, order, steps)) by {
                    assert forall|v: int|
                        0 <= v < gn implies ((#[trigger] previous@[v]) matches Some(u) ==> 0 <= u@
                        < gn && edge_to(graph, u, spec_node(v)) && visited@[u@]) by {
                        match previous@[v] {
                            Some(u) => {
                                assert(visited0[u@]);
                            },
                            None => {},
                        }
                    }
                    assert forall|v: int|
                        0 <= v < gn && #[trigger] visited@[v] && previous@[v] is None implies v
                        == source@ by {
                        if v == cuid as int {
                            assert(previous@[cv.node@] is Some || cv.node == source);
                            lemma_node_view(cv.node);
                            lemma_node_view(source);
                        } else {
                            assert(visited0[v]);
                        }
                    }
                    assert forall|v: int| 0 <= v < gn && visited@[v] implies ((
                    #[trigger] previous@[v]) matches Some(u) ==> order[u@] < order[v]) by {
                        match previous@[v] {
                            Some(u) => {
                                assert(visited0[u@]);
                                assert(u@ != cuid as int);
                                if v == cuid as int {
                                    assert(order0[u@] < steps0);
                                } else {
                                    assert(visited0[v]);
                                    assert(order0[u@] < order0[v]);
                                }
                            },
                            None => {},
                        }
                    }
                    assert forall|v: int| 0 <= v < gn && #[trigger] visited@[v] implies
                        order.contains_key(v) && 0 <= order[v] < steps by {
                        if v != cuid as int {
                            assert(visited0[v]);
                        }
                    }
                }
                assert(vset_ok(visited@, vset, gn));
                if distance@[cuid as int] < usize::MAX {
                    let wi = choose|wi: int|
                        0 <= wi < q0.len() && (#[trigger] q0[wi]).node@ == cuid as int && q0[
                        wi
                    ].priority == distance@[cuid as int];
                    assert(q0[m].priority <= q0[wi].priority);
                    assert(cv.priority <= distance@[cuid as int]);
                }
                assert forall|u: int, k2: int|
                    0 <= u < gn && u != cuid as int && visited@[u] && 0 <= k2 < graph.adj(
                        u,
                    ).len() implies #[trigger] edge_settled(
                    graph,
                    target,
                    visited@,
                    distance@,
                    popdist,
                    u,
                    k2,
                ) by {
                    assert(visited0[u]);
                    graph.adj_in_range(u);
                    assert(edge_settled(graph, target, visited0, distance@, popdist0, u, k2));
                    let v = graph.adj(u)[k2].0;
                    assert(0 <= v@ < gn);
                    let w2 = graph.adj(u)[k2].1;
                    assert(popdist[u] == popdist0[u]);
                    if v@ == cuid as int {
                        if !(popdist0[u] + w2 >= usize::MAX) {
                            assert(!visited0[v@]);
                            assert(distance@[v@] <= popdist0[u] + w2 && distance@[v@]
                                < usize::MAX);
                            assert(cv.priority <= distance@[cuid as int]);
                            assert(popdist[v@] <= popdist[u] + w2);
                        }
                    }
                }
                if visited@[target@] && !visited0[target@] {
                    assert(cuid as int == target@);
                    assert(previous@[cv.node@] is Some || cv.node == source);
                    lemma_node_view(cv.node);
                    lemma_node_view(target);
                    assert(cv.node == target);
                }
            }
            let neighbours = graph.get_neighbours(cv.node);
            let n_len = neighbours.len();
            let mut k: usize = 0;
            while k < n_len
                invariant_except_break
                    graph.pf_wf(),
                    0 <= source@ < gn,
                    0 <= target@ < gn,
                    gn == graph.node_count(),
                    n == gn,
                    distance@.len() == n,
                    target_reached == false,
                    0 <= steps,
                    0 <= cv.node@ < gn,
                    visited@[cv.node@] == true,
                    neighbours@ == graph.adj(cv.node@),
                    n_len == neighbours@.len(),
                    k <= n_len,
                    previous@[target@] is None,
                    visited@[target@] ==> target == source,
                    distance@[target@] == usize::MAX,
                    cuid as int == cv.node@,
                    maxpop == cv.priority as int,
                    popdist.contains_key(cuid as int) && popdist[cuid as int] == cv.priority as int,
                    queue_ok(queue@, gn, previous@, source),
                    relax_ok(graph, gn, source, visited@, previous@, order, steps),
                    vset_ok(visited@, vset, gn),
                    queue_floor(queue@, maxpop),
                    queue_covers(queue@, visited@, distance@, gn),
                    source_queued(queue@, visited@, source),
                    settled_base(source, visited@, popdist, maxpop, gn),
                    forall|u: int, k2: int|
                        0 <= u < gn && u != cuid as int && visited@[u] && 0 <= k2 < graph.adj(
                            u,
                        ).len() ==> #[trigger] edge_settled(
                            graph,
                            target,
                            visited@,
                            distance@,
                            popdist,
                            u,
                            k2,
                        ),
                    forall|k2: int|
                        0 <= k2 < k ==> #[trigger] edge_settled(
                            graph,
                            target,
                            visited@,
                            distance@,
                            popdist,
                            cuid as int,
                            k2,
                        ),
                ensures
                    gn == graph.node_count(),
                    n == gn,
                    distance@.len() == n,
                    0 <= steps,
                    visited@[target@] ==> target == source,
                    target_reached ==> previous@[target@] is Some && relax_ok_except(
                        graph,
                        gn,
                        source,
                        visited@,
                        previous@,
                        order,
                        steps,
                        target@,
                    ),
                    !target_reached ==> previous@[target@] is None && queue_ok(
                        queue@,
                        gn,
                        previous@,
                        source,
                    ) && relax_ok(graph, gn, source, visited@, previous@, order, steps) && vset_ok(
                        visited@,
                        vset,
                        gn,
                    ) && distance@[target@] == usize::MAX && queue_floor(queue@, maxpop)
                        && queue_covers(queue@, visited@, distance@, gn) && source_queued(
                        queue@,
                        visited@,
                        source,
                    ) && settled_base(source, visited@, popdist, maxpop, gn) && settled_edges(
                        graph,
                        gn,
                        target,
                        visited@,
                        distance@,
                        popdist,
                    ),
                decreases n_len - k,
            {
                let entry = neighbours[k];
                let nb = entry.0;
                let w = entry.1;
                proof {
                    graph.adj_in_range(cv.node@);
                    lemma_node_view(nb);
                }
                let nuid = uid_of(nb);
                let nb_unvisited = !visited[nuid];
                if nb_unvisited || nb == target {
                    match cv.priority.checked_add(w) {
                        Some(cand) => {
                            if cand < distance[nuid] {
                                if !nb_unvisited {
                                    let ghost previous0 = previous@;
                                    distance[nuid] = cand;
                                    previous[nuid] = Some(cv.node);
                                    target_reached = true;
                                    proof {
                                        lemma_node_view(nb);
                                        lemma_node_view(target);
                                        assert(nuid as int == target@);
                                        assert(edge_to(graph, cv.node, spec_node(nuid as int))) by {
                                            assert(graph.adj(cv.node@)[k as int].0 == nb);
                                            assert(spec_node(nb@) == nb);
                                        }
                                        assert(relax_ok_except(
                                            graph,
                                            gn,
                                            source,
                                            visited@,
                                            previous@,
                                            order,
                                            steps,
                                            target@,
                                        )) by {
                                            assert forall|v: int|
                                                0 <= v < gn implies ((#[trigger] previous@[v])
                                                matches Some(u) ==> 0 <= u@ < gn && edge_to(
                                                graph,
                                                u,
                                                spec_node(v),
                                            ) && visited@[u@]) by {
                                                if v != nuid as int {
                                                    assert(previous@[v] == previous0[v]);
                                                }
                                            }
                                            assert forall|v: int|
                                                0 <= v < gn && v != target@ && visited@[v] implies
                                                ((#[trigger] previous@[v]) matches Some(u)
                                                ==> order[u@] < order[v]) by {
                                                assert(previous@[v] == previous0[v]);
                                            }
                                            assert forall|v: int|
                                                0 <= v < gn && v != target@ && #[trigger] visited@[
                                                v
                                            ] && previous@[v] is None implies v == source@ by {
                                                assert(previous@[v] == previous0[v]);
                                            }
                                        }
                                    }
                                    break;
                                }
                                let ghost previous0 = previous@;
                                let ghost dist0 = distance@;
                                distance[nuid] = cand;
                                previous[nuid] = Some(cv.node);
                                proof {
                                    assert(edge_to(graph, cv.node, spec_node(nuid as int))) by {
                                        assert(graph.adj(cv.node@)[k as int].0 == nb);
                                        assert(spec_node(nb@) == nb);
                                    }
                                    assert(relax_ok(
                                        graph,
                                        gn,
                                        source,
                                        visited@,
                                        previous@,
                                        order,
                                        steps,
                                    )) by {
                                        assert forall|v: int|
                                            0 <= v < gn implies ((#[trigger] previous@[v]) matches
                                            Some(u) ==> 0 <= u@ < gn && edge_to(
                                            graph,
                                            u,
                                            spec_node(v),
                                        ) && visited@[u@]) by {
                                            if v != nuid as int {
                                                assert(previous@[v] == previous0[v]);
                                            }
                                        }
                                        assert forall|v: int|
                                            0 <= v < gn && visited@[v] implies ((
                                        #[trigger] previous@[v]) matches Some(u) ==> order[u@]
                                            < order[v]) by {
                                            assert(!visited@[nuid as int]);
                                            if v != nuid as int {
                                                assert(previous@[v] == previous0[v]);
                                            }
                                        }
                                        assert forall|v: int|
                                            0 <= v < gn && #[trigger] visited@[v] && previous@[v]
                                            is None implies v == source@ by {
                                            if v != nuid as int {
                                                assert(previous@[v] == previous0[v]);
                                            }
                                        }
                                    }
                                }
                                if nb == target {
                                    target_reached = true;
                                    proof {
                                        lemma_node_view(target);
                                        assert(previous@[target@] is Some);
                                    }
                                    break;
                                }
                                proof {
                                    lemma_node_view(nb);
                                    lemma_node_view(target);
                                    assert(nb@ != target@);
                                    assert(previous@[target@] is None);
                                }
                                let ghost q1 = queue@;
                                queue.push(PriorityNode { priority: cand, node: nb });
                                proof {
                                    assert(nuid as int != target@);
                                    assert(distance@[target@] == usize::MAX);
                                    assert(edge_settled(
                                        graph,
                                        target,
                                        visited@,
                                        distance@,
                                        popdist,
                                        cuid as int,
                                        k as int,
                                    )) by {
                                        assert(graph.adj(cuid as int)[k as int].0 == nb);
                                        assert(!visited@[nuid as int]);
                                        assert(distance@[nuid as int] == cand);
                                        assert(cand < usize::MAX);
                                    }
                                    assert forall|u: int, k2: int|
                                        0 <= u < gn && u != cuid as int && visited@[u] && 0 <= k2
                                        < graph.adj(u).len() implies #[trigger] edge_settled(
                                        graph,
                                        target,
                                        visited@,
                                        distance@,
                                        popdist,
                                        u,
                                        k2,
                                    ) by {
                                        graph.adj_in_range(u);
                                        assert(edge_settled(
                                            graph,
                                            target,
                                            visited@,
                                            dist0,
                                            popdist,
                                            u,
                                            k2,
                                        ));
                                        let v = graph.adj(u)[k2].0;
                                        assert(0 <= v@ < gn);
                                        if v@ == nuid as int {
                                            assert(distance@[v@] <= dist0[v@]);
                                        } else {
                                            assert(distance@[v@] == dist0[v@]);
                                        }
                                    }
                                    assert forall|k2: int| 0 <= k2 < k + 1 implies
                                        #[trigger] edge_settled(
                                        graph,
                                        target,
                                        visited@,
                                        distance@,
                                        popdist,
                                        cuid as int,
                                        k2,
                                    ) by {
                                        if k2 < k {
                                            graph.adj_in_range(cuid as int);
                                            assert(edge_settled(
                                                graph,
                                                target,
                                                visited@,
                                                dist0,
                                                popdist,
                                                cuid as int,
                                                k2,
                                            ));
                                            let v = graph.adj(cuid as int)[k2].0;
                                            assert(0 <= v@ < gn);
                                            if v@ == nuid as int {
                                                assert(distance@[v@] <= dist0[v@]);
                                            } else {
                                                assert(distance@[v@] == dist0[v@]);
                                            }
                                        }
                                    }
                                    assert(queue_covers(queue@, visited@, distance@, gn)) by {
                                        let qn = queue@;
                                        assert forall|v: int|
                                            0 <= v < gn && (#[trigger] distance@[v]) < usize::MAX
                                            && !visited@[v] implies exists|qi: int|
                                            0 <= qi < qn.len() && (#[trigger] qn[qi]).node@ == v
                                            && qn[qi].priority == distance@[v] by {
                                            if v == nuid as int {
                                                assert(qn[qn.len() - 1].node@ == v);
                                                assert(qn[qn.len() - 1].priority == distance@[v]);
                                            } else {
                                                let wi = choose|wi: int|
                                                    0 <= wi < q1.len() && (#[trigger] q1[
                                                    wi
                                                ]).node@ == v && q1[wi].priority == dist0[v];
                                                assert(qn[wi] == q1[wi]);
                                            }
                                        }
                                    }
                                    assert(source_queued(queue@, visited@, source)) by {
                                        if !visited@[source@] {
                                            let wi = choose|wi: int|
                                                0 <= wi < q1.len() && (#[trigger] q1[wi]).node
                                                == source && q1[wi].priority == 0;
                                            assert(queue@[wi] == q1[wi]);
                                        }
                                    }
                                }
                            } else {
                                proof {
                                    assert(cand == cv.priority + w);
                                    assert(edge_settled(
                                        graph,
                                        target,
                                        visited@,
                                        distance@,
                                        popdist,
                                        cuid as int,
                                        k as int,
                                    )) by {
                                        assert(graph.adj(cuid as int)[k as int].0 == nb);
                                        lemma_node_view(nb);
                                        lemma_node_view(target);
                                        if nb == target {
                                            assert(nuid as int == target@);
                                            assert(distance@[target@] == usize::MAX);
                                            assert(cand >= usize::MAX);
                                        } else {
                                            assert(nb@ != target@);
                                            assert(distance@[nuid as int] <= cand);
                                            if distance@[nuid as int] < usize::MAX {
                                            } else {
                                                assert(cand >= usize::MAX);
                                            }
                                        }
                                    }
                                }
                            }
                        },
                        None => {
                            proof {
                                assert(cv.priority + w > usize::MAX);
                                assert(edge_settled(
                                    graph,
                                    target,
                                    visited@,
                                    distance@,
                                    popdist,
                                    cuid as int,
                                    k as int,
                                )) by {
                                    assert(graph.adj(cuid as int)[k as int].0 == nb);
                                }
                            }
                        },
                    }
                } else {
                    proof {
                        lemma_node_view(nb);
                        lemma_node_view(target);
                        assert(visited@[nuid as int]);
                        assert(edge_settled(
                            graph,
                            target,
                            visited@,
                            distance@,
                            popdist,
                            cuid as int,
                            k as int,
                        )) by {
                            assert(graph.adj(cuid as int)[k as int].0 == nb);
                            assert(nb@ == nuid as int);
                            assert(popdist[nuid as int] <= maxpop);
                            assert(nb@ != target@);
                        }
                    }
                }
                k = k + 1;
            }
            if target_reached {
                break;
            }
        }

        if !target_reached {
            proof {
                assert(visited@[source@]) by {
                    if !visited@[source@] {
                        let wi = choose|wi: int|
                            0 <= wi < queue@.len() && (#[trigger] queue@[wi]).node == source
                                && queue@[wi].priority == 0;
                        assert(false);
                    }
                }
                assert forall|v: int|
                    0 <= v < gn && (#[trigger] distance@[v]) < usize::MAX implies visited@[v] by {
                    if !visited@[v] {
                        let wi = choose|wi: int|
                            0 <= wi < queue@.len() && (#[trigger] queue@[wi]).node@ == v && queue@[
                            wi
                        ].priority == distance@[v];
                        assert(false);
                    }
                }
                assert forall|p: Seq<Node>, e: Seq<int>|
                    connects(graph, p, e, source, target) implies walk_cost(graph, p, e)
                    >= usize::MAX by {
                    assert(p[0] == source);
                    assert(popdist[source@] == 0);
                    lemma_settled_walk(
                        graph,
                        gn,
                        target,
                        visited@,
                        distance@,
                        popdist,
                        p,
                        e,
                        0,
                    );
                }
            }
            return None;
        }

        let mut chain: Vec<Node> = Vec::new();
        chain.push(target);
        let tuid = uid_of(target);
        let mut curr: Node = match previous[tuid] {
            Some(u) => u,
            None => vstd::pervasive::unreached(),
        };
        chain.push(curr);
        proof {
            lemma_node_view(target);
            assert(edge_to(graph, curr, target));
            assert(visited@[curr@]);
        }
        proof {
            lemma_node_view(source);
            lemma_node_view(target);
        }

        while !(curr == source)
            invariant
                graph.pf_wf(),
                gn == graph.node_count(),
                n == gn,
                0 <= source@ < gn,
                chain@.len() >= 2,
                chain@[0] == target,
                chain@.last() == curr,
                0 <= curr@ < gn,
                forall|i: int| 0 <= i < chain@.len() ==> 0 <= (#[trigger] chain@[i])@ < gn,
                forall|i: int|
                    0 <= i < chain@.len() - 1 ==> edge_to(
                        graph,
                        chain@[i + 1],
                        #[trigger] chain@[i],
                    ),
                visited@[curr@] == true,
                target == source || !visited@[target@],
                relax_ok_except(graph, gn, source, visited@, previous@, order, steps, target@),
            decreases order[curr@],
        {
            let cuid = uid_of(curr);
            proof {
                lemma_node_view(curr);
                lemma_node_view(target);
                lemma_node_view(source);
                if curr@ == target@ {
                    assert(curr == target);
                    assert(target == source);
                    assert(false);
                }
            }
            match previous[cuid] {
                Some(u) => {
                    proof {
                        lemma_node_view(u);
                        assert(spec_node(curr@) == curr);
                        assert(edge_to(graph, u, curr));
                        assert(visited@[u@]);
                        assert(order[u@] < order[curr@]);
                    }
                    curr = u;
                    chain.push(u);
                },
                None => {
                    proof {
                        assert(curr@ == source@);
                        assert(false);
                    }
                },
            }
        }

        let ghost chain0 = chain@;
        proof {
            assert(chain0.last() == source);
        }
        let mut path: Vec<Node> = Vec::new();
        loop
            invariant_except_break
                path@.len() + chain@.len() == chain0.len(),
                chain@ == chain0.take(chain@.len() as int),
                forall|i: int|
                    0 <= i < path@.len() ==> (#[trigger] path@[i]) == chain0[chain0.len() - 1 - i],
            ensures
                path@.len() == chain0.len(),
                forall|i: int|
                    0 <= i < path@.len() ==> (#[trigger] path@[i]) == chain0[chain0.len() - 1 - i],
            decreases chain@.len(),
        {
            match chain.pop() {
                Some(x) => {
                    proof {
                        assert(x == chain0[chain@.len() as int]);
                    }
                    path.push(x);
                    proof {
                        assert(chain@ =~= chain0.take(chain@.len() as int));
                    }
                },
                None => {
                    break;
                },
            }
        }
        proof {
            let ln = chain0.len() as int;
            assert(path@[0] == chain0[ln - 1]);
            assert(path@[ln - 1] == chain0[0]);
            assert forall|i: int| 0 <= i < ln - 1 implies edge_to(
                graph,
                #[trigger] path@[i],
                path@[i + 1],
            ) by {
                assert(path@[i] == chain0[ln - 1 - i]);
                assert(path@[i + 1] == chain0[ln - 1 - (i + 1)]);
                assert(edge_to(graph, chain0[(ln - 2 - i) + 1], chain0[ln - 2 - i]));
            }
            assert forall|i: int| 0 <= i < ln implies 0 <= (#[trigger] path@[i])@
                < graph.node_count() by {
                assert(path@[i] == chain0[ln - 1 - i]);
            }
            assert(is_path(graph, path@));
        }
        Some(path)
    }

    /// Every simple path from `source` to `target`, in depth-first
    /// discovery order, neighbours in iteration order. A path is recorded
    /// when an edge reaches `target`; no zero-length path is ever recorded,
    /// so for `source == target` only cycles through `source` appear. The
    /// result is empty when no such path exists.
    pub fn find_all_paths<G: PathFindable>(graph: &G, source: Node, target: Node) -> (r: Vec<
        Vec<Node>,
    >)
        requires
            graph.pf_wf(),
            0 <= source@ < graph.node_count(),
            0 <= target@ < graph.node_count(),
        ensures
            path_views(r@) == paths_from(graph, seq![source], target, 0),
    {
        let mut all_paths: Vec<Vec<Node>> = Vec::new();
        let mut current_path: Vec<Node> = Vec::new();
        current_path.push(source);
        proof {
            assert(current_path@ =~= seq![source]);
            assert(path_views(all_paths@) =~= Seq::<Seq<Node>>::empty());
        }
        let ghost cp0 = current_path@;
        PathFinder::find_paths(graph, &mut all_paths, &mut current_path, target, Ghost(cp0));
        proof {
            assert(path_views(all_paths@) =~= Seq::<Seq<Node>>::empty() + paths_from(
                graph,
                seq![source],
                target,
                0,
            ));
        }
        all_paths
    }

    /// One step of the backtracking search: explores every neighbour of the
    /// stack's last node and appends the found paths, leaving the stack as
    /// it was.
    fn find_paths<G: PathFindable>(
        graph: &G,
        all_paths: &mut Vec<Vec<Node>>,
        current_path: &mut Vec<Node>,
        target: Node,
        Ghost(stack): Ghost<Seq<Node>>,
    )
        requires
            stack == old(current_path)@,
            paths_state_ok(graph, old(current_path)@, 0),
            0 <= target@ < graph.node_count(),
        ensures
            final(current_path)@ == old(current_path)@,
            path_views(final(all_paths)@) == path_views(old(all_paths)@) + paths_from(
                graph,
                old(current_path)@,
                target,
                0,
            ),
        decreases graph.node_count() - stack.len(),
    {
        let ghost cp = old(current_path)@;
        let last = current_path[current_path.len() - 1];
        proof {
            assert(last == cp.last());
        }
        let neighbours = graph.get_neighbours(last);
        let n_len = neighbours.len();
        let mut k: usize = 0;
        while k < n_len
            invariant
                paths_state_ok(graph, cp, 0),
                stack == cp,
                0 <= target@ < graph.node_count(),
                current_path@ == cp,
                neighbours@ == graph.adj(cp.last()@),
                n_len == neighbours@.len(),
                k <= n_len,
                path_views(all_paths@) + paths_from(graph, cp, target, k as int) == path_views(
                    old(all_paths)@,
                ) + paths_from(graph, cp, target, 0),
            decreases n_len - k,
        {
            let ghost before = path_views(all_paths@);
            let n = neighbours[k].0;
            if n == target {
                let mut cloned_path = current_path.clone();
                proof {
                    assert forall|i: int| 0 <= i < cp.len() implies cloned_path@[i] == cp[i] by {}
                    assert(cloned_path@ =~= cp);
                }
                cloned_path.push(n);
                all_paths.push(cloned_path);
                proof {
                    assert(paths_from(graph, cp, target, k as int) == seq![cp.push(n)]
                        + paths_from(graph, cp, target, k as int + 1));
                    assert(path_views(all_paths@) =~= before.push(cp.push(n)));
                    assert(path_views(all_paths@) + paths_from(graph, cp, target, k as int + 1)
                        =~= before + paths_from(graph, cp, target, k as int));
                }
            } else {
                if !contains_node(current_path, n) {
                    proof {
                        graph.adj_in_range(cp.last()@);
                        assert(cp.push(n).no_duplicates());
                        lemma_distinct_nodes_len(cp.push(n), graph.node_count() as int);
                    }
                    current_path.push(n);
                    proof {
                        assert(current_path@ == cp.push(n));
                        assert(current_path@.len() == cp.len() + 1);
                        assert(current_path@.len() <= graph.node_count());
                        assert(0 <= graph.node_count() - current_path@.len() < graph.node_count()
                            - cp.len());
                    }
                    PathFinder::find_paths(
                        graph,
                        all_paths,
                        current_path,
                        target,
                        Ghost(cp.push(n)),
                    );
                    let popped = current_path.pop();
                    proof {
                        assert(current_path@ =~= cp);
                        assert(paths_from(graph, cp, target, k as int) == paths_from(
                            graph,
                            cp.push(n),
                            target,
                            0,
                        ) + paths_from(graph, cp, target, k as int + 1));
                        assert(path_views(all_paths@) =~= before + paths_from(
                            graph,
                            cp.push(n),
                            target,
                            0,
                        ));
                        assert(path_views(all_paths@) + paths_from(graph, cp, target, k as int + 1)
                            =~= before + paths_from(graph, cp, target, k as int));
                    }
                } else {
                    proof {
                        assert(paths_from(graph, cp, target, k as int) == paths_from(
                            graph,
                            cp,
                            target,
                            k as int + 1,
                        ));
                    }
                }
            }
            k = k + 1;
        }
        proof {
            assert(paths_from(graph, cp, target, n_len as int) =~= Seq::<Seq<Node>>::empty());
            assert(path_views(all_paths@) =~= path_views(old(all_paths)@) + paths_from(
                graph,
                cp,
                target,
                0,
            ));
        }
    }
}

} // verus!
