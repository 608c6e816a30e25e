//! The typed graph facade: a topology store paired with a user value per
//! node and a weight per edge.

use vstd::prelude::*;

use crate::adjacency_list::{all_conns, Connection};
use crate::directed::Directed;
use crate::graph_trait::{
    edge_seq, row_edges, topo_ids_below, valid_topo, GraphEdge, GraphEdgeIterator, GraphNode,
    GraphType,
};
use crate::render::{dec_spec, render_u64, Render};
use crate::undirected::Undirected;
use vstd::std_specs::cmp::PartialEqSpec;
use vstd::string::StringExecFns;

verus! {

/// An opaque handle for a node: its dense creation-order index. A
/// default-constructed handle holds the sentinel index and names no node.
#[derive(Debug, Clone, Copy, PartialEq, Eq, Hash, Structural)]
pub struct Node {
    pub(crate) uid: usize,
}

impl View for Node {
    type V = int;

    closed spec fn view(&self) -> int {
        self.uid as int
    }
}

/// The node handle whose index is `uid`.
pub closed spec fn spec_node(uid: int) -> Node {
    Node { uid: uid as usize }
}

/// A node handle is determined by its index, and the index fits a `usize`.
pub proof fn lemma_node_view(n: Node)
    ensures
        spec_node(n@) == n,
        0 <= n@ <= usize::MAX,
{
}

/// The index a node handle holds.
pub(crate) fn uid_of(n: Node) -> (u: usize)
    ensures
        u as int == n@,
        n == spec_node(u as int),
{
    n.uid
}

/// Two handles with one index are one node.
pub proof fn lemma_spec_node_view(uid: int)
    ensures
        0 <= uid <= usize::MAX ==> spec_node(uid)@ == uid,
{
}

impl Node {
    /// The sentinel handle that names no node.
    pub fn new() -> (n: Self)
        ensures
            n@ == usize::MAX as int,
    {
        Node { uid: GraphNode::MAX }
    }

    pub fn from(node: GraphNode) -> (n: Self)
        ensures
            n == spec_node(node as int),
            n@ == node as int,
    {
        Node { uid: node }
    }
}

/// An opaque handle for an edge: its endpoints and its dense creation-order
/// identifier, which indexes the weight sequence.
#[derive(Debug, Clone, Copy, PartialEq, Eq, Hash, Structural)]
pub struct Edge {
    pub source: Node,
    pub target: Node,
    pub uid: usize,
}

impl Edge {
    pub fn from(edge: GraphEdge) -> (e: Self)
        ensures
            e.source == spec_node(edge.source as int),
            e.target == spec_node(edge.target as int),
            e.source@ == edge.source as int,
            e.target@ == edge.target as int,
            e.uid == edge.uid,
    {
        Edge { source: Node::from(edge.source), target: Node::from(edge.target), uid: edge.uid }
    }
}

/// A graph over a topology store `K`, with a value of type `T` for every
/// node and a weight of type `W` for every edge.
pub struct WeightedGraph<T, W, K> {
    graph: K,
    values: Vec<T>,
    weights: Vec<W>,
    edge_count: usize,
}

impl<T, W, K: GraphType> WeightedGraph<T, W, K> {
    /// The stored topology.
    pub closed spec fn topo(&self) -> Seq<Seq<Connection>> {
        self.graph.topo()
    }

    /// The node values, indexed by node index.
    pub closed spec fn vals(&self) -> Seq<T> {
        self.values@
    }

    /// The edge weights, indexed by edge identifier.
    pub closed spec fn wts(&self) -> Seq<W> {
        self.weights@
    }

    /// The number of edges added so far: the next edge identifier.
    pub closed spec fn edge_count_spec(&self) -> int {
        self.edge_count as int
    }

    /// The facade's invariant: one value per node, every connection target a
    /// real node, and one weight per edge added.
    pub open spec fn wf(&self) -> bool {
        &&& self.vals().len() == self.topo().len()
        &&& valid_topo(self.topo())
        &&& self.wts().len() == self.edge_count_spec()
    }

    /// Every stored connection's edge identifier indexes the weight
    /// sequence. This holds of every graph built through this facade over
    /// [`Directed`] or [`Undirected`]; a custom topology store that invents
    /// connections on its own may break it.
    pub open spec fn weights_ok(&self) -> bool {
        forall|i: int, j: int|
            0 <= i < self.topo().len() && 0 <= j < self.topo()[i].len() ==> (#[trigger] self.topo(
            )[i][j]).edge_index < self.wts().len()
    }

    /// `n` names a node of this graph.
    pub open spec fn valid_node(&self, n: Node) -> bool {
        0 <= n@ < self.topo().len()
    }

    pub fn new() -> (r: Self)
        ensures
            r.wf(),
            r.weights_ok(),
            r.topo() == Seq::<Seq<Connection>>::empty(),
            r.vals() == Seq::<T>::empty(),
            r.wts() == Seq::<W>::empty(),
            r.edge_count_spec() == 0,
    {
        let r = WeightedGraph {
            graph: K::new(),
            values: Vec::new(),
            weights: Vec::new(),
            edge_count: 0,
        };
        proof {
            assert(r.vals() =~= Seq::<T>::empty());
            assert(r.wts() =~= Seq::<W>::empty());
        }
        r
    }

    /// Appends a node carrying `value`; the value sequence and the topology
    /// grow in lockstep. Returns the new node's handle.
    pub fn add_node(&mut self, value: T) -> (n: Node)
        requires
            old(self).wf(),
        ensures
            final(self).wf(),
            n@ == old(self).topo().len(),
            final(self).vals() == old(self).vals().push(value),
            final(self).topo() == K::node_added(old(self).topo()),
            final(self).vals().len() == final(self).topo().len(),
            final(self).wts() == old(self).wts(),
            final(self).edge_count_spec() == old(self).edge_count_spec(),
    {
        self.values.push(value);
        let gn = self.graph.add_node();
        proof {
            K::node_added_facts(old(self).topo());
        }
        Node::from(gn)
    }

    /// Adds an edge between two existing nodes, assigning it the next edge
    /// identifier and recording `weight` under that identifier.
    pub fn add_edge(&mut self, source: Node, target: Node, weight: W)
        requires
            old(self).wf(),
            old(self).valid_node(source),
            old(self).valid_node(target),
        ensures
            final(self).wf(),
            final(self).topo() == K::edge_added(
                old(self).topo(),
                source@,
                target@,
                old(self).edge_count_spec(),
            ),
            final(self).vals() == old(self).vals(),
            final(self).wts() == old(self).wts().push(weight),
            final(self).edge_count_spec() == old(self).edge_count_spec() + 1,
    {
        proof {
            lemma_node_view(source);
            lemma_node_view(target);
        }
        self.graph.add_edge(source.uid, target.uid, self.edge_count);
        proof {
            K::edge_added_facts(old(self).topo(), source@, target@, old(self).edge_count_spec());
        }
        self.weights.push(weight);
        let _wl = self.weights.len();
        proof {
            assert(self.edge_count < usize::MAX);
        }
        self.edge_count = self.edge_count + 1;
    }

    /// The number of nodes.
    pub fn len(&self) -> (n: usize)
        ensures
            n == self.topo().len(),
    {
        self.graph.len()
    }

    /// The underlying store's edge iterator, without weights.
    pub(crate) fn raw_edges(&self) -> (it: GraphEdgeIterator)
        ensures
            it.all() == edge_seq(self.topo()),
            it.at() == 0,
    {
        self.graph.edges()
    }

    /// The underlying store's neighbour iterator, without weights.
    pub(crate) fn raw_neighbours(&self, node: GraphNode) -> (it: GraphEdgeIterator)
        requires
            node < self.topo().len(),
        ensures
            it.all() == row_edges(self.topo(), node as int),
            it.at() == 0,
    {
        self.graph.get_neighbours(node)
    }

    /// The number of connections stored in `node`'s row: for a directed
    /// graph its out-degree, for an undirected graph all its connections,
    /// self-loops counted twice.
    pub fn get_degree(&self, node: Node) -> (d: usize)
        requires
            self.valid_node(node),
        ensures
            d == self.topo()[node@].len(),
    {
        self.graph.get_degree(node.uid)
    }

    /// The weight recorded for `edge`.
    pub fn get_weight(&self, edge: Edge) -> (r: &W)
        requires
            edge.uid < self.wts().len(),
        ensures
            *r == self.wts()[edge.uid as int],
    {
        &self.weights[edge.uid]
    }

    /// The value stored for `node`.
    pub fn index(&self, node: Node) -> (r: &T)
        requires
            self.wf(),
            self.valid_node(node),
        ensures
            *r == self.vals()[node@],
    {
        &self.values[node.uid]
    }

    /// Mutable access to the value stored for `node`; nothing else of the
    /// graph changes.
    pub fn index_mut(&mut self, node: Node) -> (r: &mut T)
        requires
            old(self).wf(),
            old(self).valid_node(node),
        ensures
            *r == old(self).vals()[node@],
            final(self).vals() == old(self).vals().update(node@, *final(r)),
            final(self).topo() == old(self).topo(),
            final(self).wts() == old(self).wts(),
            final(self).edge_count_spec() == old(self).edge_count_spec(),
            final(self).wf(),
    {
        proof {
            lemma_node_view(node);
        }
        &mut self.values[node.uid]
    }

    pub fn nodes(&self) -> (it: NodeIter<'_, T>)
        ensures
            it.vals() == self.vals(),
            it.at() == 0,
    {
        NodeIter { values: &self.values, pos: 0 }
    }

    pub fn edges(&self) -> (it: EdgeIter<'_, W>)
        requires
            self.wf(),
            self.weights_ok(),
        ensures
            it.all() == edge_seq(self.topo()),
            it.at() == 0,
            it.wts() == self.wts(),
            it.wf(),
    {
        let _n = self.values.len();
        let inner = self.graph.edges();
        let it = EdgeIter { inner, weights: &self.weights };
        proof {
            let t = self.topo();
            assert(t.len() <= usize::MAX);
            crate::adjacency_list::lemma_all_conns_in_topo(t);
            assert forall|k: int| 0 <= k < it.all().len() implies (#[trigger] it.all()[k]).uid
                < it.wts().len() by {
                let p = all_conns(t)[k];
                assert(it.all()[k] == crate::graph_trait::edge_of(p.0 as int, p.1));
                let (a, b): (int, int) = choose|a: int, b: int|
                    0 <= a < t.len() && 0 <= b < t[a].len() && t[a][b] == p.1 && a == p.0 as int;
                assert(t[a][b].edge_index < self.wts().len());
            }
        }
        it
    }

    pub fn get_neighbours(&self, node: Node) -> (it: EdgeIter<'_, W>)
        requires
            self.wf(),
            self.valid_node(node),
            self.weights_ok(),
        ensures
            it.all() == row_edges(self.topo(), node@),
            it.at() == 0,
            it.wts() == self.wts(),
            it.wf(),
    {
        proof {
            lemma_node_view(node);
        }
        let inner = self.graph.get_neighbours(node.uid);
        let it = EdgeIter { inner, weights: &self.weights };
        proof {
            let t = self.topo();
            assert forall|k: int| 0 <= k < it.all().len() implies (#[trigger] it.all()[k]).uid
                < it.wts().len() by {
                assert(it.all()[k] == crate::graph_trait::edge_of(node@, t[node@][k]));
            }
        }
        it
    }

}

impl<T: Copy, W, K: GraphType> WeightedGraph<T, W, K> {
    /// The values at an edge's endpoints, source first.
    pub fn get_edge_values(&self, edge: Edge) -> (r: (T, T))
        requires
            self.wf(),
            self.valid_node(edge.source),
            self.valid_node(edge.target),
        ensures
            r.0 == self.vals()[edge.source@],
            r.1 == self.vals()[edge.target@],
    {
        (self.values[edge.source.uid], self.values[edge.target.uid])
    }
}

/// Yields every node handle with its value, in creation order; the sequence
/// is a function of the graph alone.
pub struct NodeIter<'a, T> {
    values: &'a Vec<T>,
    pos: usize,
}

impl<'a, T> NodeIter<'a, T> {
    /// The value sequence this iterator walks.
    pub closed spec fn vals(&self) -> Seq<T> {
        self.values@
    }

    /// How many nodes have been yielded so far.
    pub closed spec fn at(&self) -> usize {
        self.pos
    }

    pub fn next(&mut self) -> (r: Option<(Node, &'a T)>)
        ensures
            final(self).vals() == old(self).vals(),
            old(self).at() < old(self).vals().len() ==> ({
                &&& final(self).at() == old(self).at() + 1
                &&& r matches Some(p) && p.0 == spec_node(old(self).at() as int) && *p.1 == old(
                    self,
                ).vals()[old(self).at() as int]
            }),
            old(self).at() >= old(self).vals().len() ==> r is None && final(self).at() == old(
                self,
            ).at(),
    {
        if self.pos < self.values.len() {
            let ret = Some((Node { uid: self.pos }, &self.values[self.pos]));
            self.pos = self.pos + 1;
            ret
        } else {
            None
        }
    }
}

/// Yields every edge record of the underlying iterator together with its
/// weight; the sequence is a function of the graph alone.
pub struct EdgeIter<'a, W> {
    inner: GraphEdgeIterator,
    weights: &'a Vec<W>,
}

impl<'a, W> EdgeIter<'a, W> {
    /// The edge records this iterator walks.
    pub closed spec fn all(&self) -> Seq<GraphEdge> {
        self.inner.all()
    }

    /// How many edges have been yielded so far.
    pub closed spec fn at(&self) -> usize {
        self.inner.at()
    }

    /// The weight sequence the edge identifiers index.
    pub closed spec fn wts(&self) -> Seq<W> {
        self.weights@
    }

    /// Every edge identifier indexes the weight sequence.
    pub open spec fn wf(&self) -> bool {
        forall|k: int|
            0 <= k < self.all().len() ==> (#[trigger] self.all()[k]).uid < self.wts().len()
    }

    pub fn next(&mut self) -> (r: Option<(Edge, &'a W)>)
        requires
            old(self).wf(),
        ensures
            final(self).wf(),
            final(self).all() == old(self).all(),
            final(self).wts() == old(self).wts(),
            old(self).at() < old(self).all().len() ==> ({
                let ge = old(self).all()[old(self).at() as int];
                &&& final(self).at() == old(self).at() + 1
                &&& r matches Some(p) && p.0.source == spec_node(ge.source as int) && p.0.target
                    == spec_node(ge.target as int) && p.0.uid == ge.uid && *p.1 == old(
                    self,
                ).wts()[ge.uid as int]
            }),
            old(self).at() >= old(self).all().len() ==> r is None && final(self).at() == old(
                self,
            ).at(),
    {
        match self.inner.next() {
            Some(ge) => {
                proof {
                    assert(ge == old(self).all()[old(self).at() as int]);
                    assert(old(self).all()[old(self).at() as int].uid < old(self).wts().len());
                }
                Some((Edge::from(ge), &self.weights[ge.uid]))
            },
            None => None,
        }
    }
}

impl<T, W> WeightedGraph<T, W, Directed> {
    pub fn new_directed() -> (r: Self)
        ensures
            r.wf(),
            r.weights_ok(),
            r.topo() == Seq::<Seq<Connection>>::empty(),
            r.vals() == Seq::<T>::empty(),
            r.wts() == Seq::<W>::empty(),
            r.edge_count_spec() == 0,
    {
        Self::new()
    }
}

impl<T, W> WeightedGraph<T, W, Undirected> {
    pub fn new_undirected() -> (r: Self)
        ensures
            r.wf(),
            r.weights_ok(),
            r.topo() == Seq::<Seq<Connection>>::empty(),
            r.vals() == Seq::<T>::empty(),
            r.wts() == Seq::<W>::empty(),
            r.edge_count_spec() == 0,
    {
        Self::new()
    }
}

impl<T: PartialEq, W, K: GraphType> WeightedGraph<T, W, K> {
    /// The first node, in creation order, whose value compares equal to
    /// `value`; `None` when no value does. The result is pinned down
    /// whenever `T`'s equality obeys its specification, which holds of every
    /// standard value type.
    pub fn find_node_with_value(&self, value: &T) -> (r: Option<Node>)
        requires
            self.wf(),
        ensures
            r matches Some(n) ==> 0 <= n@ < self.vals().len(),
            T::obeys_eq_spec() ==> ({
                match r {
                    Some(n) => {
                        &&& 0 <= n@ < self.vals().len()
                        &&& self.vals()[n@].eq_spec(value)
                        &&& forall|i: int|
                            0 <= i < n@ ==> !(#[trigger] self.vals()[i]).eq_spec(value)
                    },
                    None => forall|i: int|
                        0 <= i < self.vals().len() ==> !(#[trigger] self.vals()[i]).eq_spec(value),
                }
            }),
    {
        let n = self.values.len();
        let mut i: usize = 0;
        while i < n
            invariant
                i <= n,
                n == self.vals().len(),
                T::obeys_eq_spec() ==> forall|k: int|
                    0 <= k < i ==> !(#[trigger] self.vals()[k]).eq_spec(value),
            decreases n - i,
        {
            if self.values[i].eq(value) {
                return Some(Node { uid: i });
            }
            i = i + 1;
        }
        None
    }
}

/// Some value of `vals` compares equal to `v`.
pub open spec fn found_at<T: PartialEq>(vals: Seq<T>, v: T) -> bool {
    exists|i: int| 0 <= i < vals.len() && (#[trigger] vals[i]).eq_spec(&v)
}

/// The least index of `vals` whose value compares equal to `v`; meaningful
/// when one exists.
pub open spec fn first_match<T: PartialEq>(vals: Seq<T>, v: T) -> int
    decreases vals.len(),
{
    if vals.len() == 0 {
        0
    } else if vals[0].eq_spec(&v) {
        0
    } else {
        1 + first_match(vals.drop_first(), v)
    }
}

/// The node index the bulk constructor uses for `v` against the values
/// `vals`: the first match, or else the next fresh index.
pub open spec fn lookup_index<T: PartialEq>(vals: Seq<T>, v: T) -> int {
    if found_at(vals, v) {
        first_match(vals, v)
    } else {
        vals.len() as int
    }
}

/// The value sequence after the bulk constructor has seen `v`: unchanged
/// when a stored value already compares equal, else grown by `v`.
pub open spec fn insert_val<T: PartialEq>(vals: Seq<T>, v: T) -> Seq<T> {
    if found_at(vals, v) {
        vals
    } else {
        vals.push(v)
    }
}

/// The values stored after the bulk constructor has consumed the first `n`
/// tuples of `pairs`: each tuple's source value, then its target value,
/// deduplicated in first-seen order.
pub open spec fn fill_vals<T: PartialEq, W>(pairs: Seq<(T, T, W)>, n: int) -> Seq<T>
    decreases n,
{
    if n <= 0 {
        Seq::empty()
    } else {
        let prev = fill_vals(pairs, n - 1);
        insert_val(insert_val(prev, pairs[n - 1].0), pairs[n - 1].1)
    }
}

/// The topology stored after the bulk constructor has consumed the first
/// `n` tuples of `pairs` over the store `K`: per tuple, a node for each
/// endpoint not seen before, then one edge with the next identifier.
pub open spec fn fill_topo<T: PartialEq, W, K: GraphType>(
    pairs: Seq<(T, T, W)>,
    n: int,
) -> Seq<Seq<Connection>>
    decreases n,
{
    if n <= 0 {
        Seq::empty()
    } else {
        let prev_vals = fill_vals(pairs, n - 1);
        let prev = fill_topo::<T, W, K>(pairs, n - 1);
        let source = pairs[n - 1].0;
        let target = pairs[n - 1].1;
        let topo1 = if found_at(prev_vals, source) {
            prev
        } else {
            K::node_added(prev)
        };
        let vals1 = insert_val(prev_vals, source);
        let topo2 = if found_at(vals1, target) {
            topo1
        } else {
            K::node_added(topo1)
        };
        K::edge_added(topo2, lookup_index(prev_vals, source), lookup_index(vals1, target), n - 1)
    }
}

impl<T: Copy + PartialEq, W: Copy, K: GraphType> WeightedGraph<T, W, K> {
    /// The node whose value compares equal to `value`, creating it first
    /// when none does.
    fn lookup_or_insert(&mut self, value: T) -> (n: Node)
        requires
            old(self).wf(),
        ensures
            final(self).wf(),
            final(self).wts() == old(self).wts(),
            final(self).edge_count_spec() == old(self).edge_count_spec(),
            0 <= n@ < final(self).vals().len(),
            old(self).vals().len() <= final(self).vals().len(),
            final(self).topo() == old(self).topo() || final(self).topo() == K::node_added(
                old(self).topo(),
            ),
            T::obeys_eq_spec() ==> ({
                &&& final(self).vals() == insert_val(old(self).vals(), value)
                &&& n@ == lookup_index(old(self).vals(), value)
                &&& final(self).topo() == (if found_at(old(self).vals(), value) {
                    old(self).topo()
                } else {
                    K::node_added(old(self).topo())
                })
            }),
    {
        match self.find_node_with_value(&value) {
            Some(node) => {
                proof {
                    if T::obeys_eq_spec() {
                        let vals = self.vals();
                        assert(found_at(vals, value));
                        lemma_first_match(vals, value);
                        let fm = first_match(vals, value);
                        if node@ < fm {
                            assert(vals[node@].eq_spec(&value));
                            assert(false);
                        }
                        if fm < node@ {
                            assert(vals[fm].eq_spec(&value));
                            assert(false);
                        }
                    }
                }
                node
            },
            None => {
                proof {
                    if T::obeys_eq_spec() {
                        if found_at(self.vals(), value) {
                            let w = choose|i: int|
                                0 <= i < self.vals().len() && (#[trigger] self.vals()[i]).eq_spec(
                                    &value,
                                );
                            assert(false);
                        }
                    }
                }
                self.add_node(value)
            },
        }
    }

    /// Builds up `graph` from a tuple list: per tuple, a node for each value
    /// not seen before (first occurrence wins), then one edge between the
    /// two nodes, carrying the tuple's weight under the next identifier.
    fn fill_graph_from_vec(graph: Self, sth: Vec<(T, T, W)>) -> (r: Self)
        requires
            graph.wf(),
            graph.vals() == Seq::<T>::empty(),
            graph.topo() == Seq::<Seq<Connection>>::empty(),
            graph.wts() == Seq::<W>::empty(),
            graph.edge_count_spec() == 0,
        ensures
            r.wf(),
            r.edge_count_spec() == sth@.len(),
            r.wts() == sth@.map_values(|p: (T, T, W)| p.2),
            T::obeys_eq_spec() ==> r.vals() == fill_vals(sth@, sth@.len() as int) && r.topo()
                == fill_topo::<T, W, K>(sth@, sth@.len() as int),
    {
        let mut graph = graph;
        let n = sth.len();
        let mut idx: usize = 0;
        proof {
            assert(graph.wts() =~= sth@.take(0).map_values(|p: (T, T, W)| p.2));
        }
        while idx < n
            invariant
                idx <= n,
                n == sth@.len(),
                graph.wf(),
                graph.edge_count_spec() == idx,
                graph.wts() == sth@.take(idx as int).map_values(|p: (T, T, W)| p.2),
                T::obeys_eq_spec() ==> graph.vals() == fill_vals(sth@, idx as int) && graph.topo()
                    == fill_topo::<T, W, K>(sth@, idx as int),
            decreases n - idx,
        {
            let ghost pre_vals = graph.vals();
            let ghost pre_topo = graph.topo();
            let trip = sth[idx];
            let source_node = graph.lookup_or_insert(trip.0);
            let ghost mid_vals = graph.vals();
            let target_node = graph.lookup_or_insert(trip.1);
            graph.add_edge(source_node, target_node, trip.2);
            proof {
                assert(graph.wts() =~= sth@.take(idx as int + 1).map_values(
                    |p: (T, T, W)| p.2,
                ));
            }
            idx = idx + 1;
        }
        proof {
            assert(sth@.take(n as int) =~= sth@);
        }
        graph
    }
}

/// In a bulk-built directed topology the node and value counts agree and
/// every edge identifier is below the number of tuples consumed.
proof fn lemma_directed_fill_ids<T: PartialEq, W>(pairs: Seq<(T, T, W)>, n: int)
    ensures
        fill_topo::<T, W, Directed>(pairs, n).len() == fill_vals::<T, W>(pairs, n).len(),
        topo_ids_below(fill_topo::<T, W, Directed>(pairs, n), n),
    decreases n,
{
    if n > 0 {
        lemma_directed_fill_ids::<T, W>(pairs, n - 1);
        let prev_vals = fill_vals::<T, W>(pairs, n - 1);
        let prev = fill_topo::<T, W, Directed>(pairs, n - 1);
        let source = pairs[n - 1].0;
        let target = pairs[n - 1].1;
        let topo1 = if found_at(prev_vals, source) {
            prev
        } else {
            Directed::node_added(prev)
        };
        let vals1 = insert_val(prev_vals, source);
        let topo2 = if found_at(vals1, target) {
            topo1
        } else {
            Directed::node_added(topo1)
        };
        let s = lookup_index(prev_vals, source);
        let t = lookup_index(vals1, target);
        if found_at(prev_vals, source) {
            lemma_first_match(prev_vals, source);
        }
        if found_at(vals1, target) {
            lemma_first_match(vals1, target);
        }
        assert(topo_ids_below(topo1, n - 1)) by {
            assert forall|i: int, j: int|
                0 <= i < topo1.len() && 0 <= j < topo1[i].len() implies (#[trigger] topo1[i][j]).edge_index
                < n - 1 by {
                if i < prev.len() {
                    assert(topo1[i] == prev[i]);
                }
            }
        }
        assert(topo_ids_below(topo2, n - 1)) by {
            assert forall|i: int, j: int|
                0 <= i < topo2.len() && 0 <= j < topo2[i].len() implies (#[trigger] topo2[i][j]).edge_index
                < n - 1 by {
                if i < topo1.len() {
                    assert(topo2[i] == topo1[i]);
                }
            }
        }
        let post = fill_topo::<T, W, Directed>(pairs, n);
        assert(0 <= s < topo2.len());
        assert(0 <= t < topo2.len());
        assert(post == topo2.update(
            s,
            topo2[s].push((Connection { node_index: t as usize, edge_index: (n - 1) as usize })),
        ));
        assert forall|i: int, j: int|
            0 <= i < post.len() && 0 <= j < post[i].len() implies (#[trigger] post[i][j]).edge_index
            < n by {
            if i != s {
                assert(post[i] == topo2[i]);
            } else {
                if j < topo2[s].len() {
                    assert(post[i][j] == topo2[s][j]);
                } else {
                    assert(post[i][j].edge_index == (n - 1) as usize);
                }
            }
        }
    }
}

/// In a bulk-built undirected topology the node and value counts agree and
/// every edge identifier is below the number of tuples consumed.
proof fn lemma_undirected_fill_ids<T: PartialEq, W>(pairs: Seq<(T, T, W)>, n: int)
    ensures
        fill_topo::<T, W, Undirected>(pairs, n).len() == fill_vals::<T, W>(pairs, n).len(),
        topo_ids_below(fill_topo::<T, W, Undirected>(pairs, n), n),
    decreases n,
{
    if n > 0 {
        lemma_undirected_fill_ids::<T, W>(pairs, n - 1);
        let prev_vals = fill_vals::<T, W>(pairs, n - 1);
        let prev = fill_topo::<T, W, Undirected>(pairs, n - 1);
        let source = pairs[n - 1].0;
        let target = pairs[n - 1].1;
        let topo1 = if found_at(prev_vals, source) {
            prev
        } else {
            Undirected::node_added(prev)
        };
        let vals1 = insert_val(prev_vals, source);
        let topo2 = if found_at(vals1, target) {
            topo1
        } else {
            Undirected::node_added(topo1)
        };
        let s = lookup_index(prev_vals, source);
        let t = lookup_index(vals1, target);
        if found_at(prev_vals, source) {
            lemma_first_match(prev_vals, source);
        }
        if found_at(vals1, target) {
            lemma_first_match(vals1, target);
        }
        assert(topo_ids_below(topo1, n - 1)) by {
            assert forall|i: int, j: int|
                0 <= i < topo1.len() && 0 <= j < topo1[i].len() implies (#[trigger] topo1[i][j]).edge_index
                < n - 1 by {
                if i < prev.len() {
                    assert(topo1[i] == prev[i]);
                }
            }
        }
        assert(topo_ids_below(topo2, n - 1)) by {
            assert forall|i: int, j: int|
                0 <= i < topo2.len() && 0 <= j < topo2[i].len() implies (#[trigger] topo2[i][j]).edge_index
                < n - 1 by {
                if i < topo1.len() {
                    assert(topo2[i] == topo1[i]);
                }
            }
        }
        let post = fill_topo::<T, W, Undirected>(pairs, n);
        assert(0 <= s < topo2.len());
        assert(0 <= t < topo2.len());
        let to_target = (Connection { node_index: t as usize, edge_index: (n - 1) as usize });
        let to_source = (Connection { node_index: s as usize, edge_index: (n - 1) as usize });
        let mid = topo2.update(s, topo2[s].push(to_target));
        assert(post == mid.update(t, mid[t].push(to_source)));
        assert(topo_ids_below(mid, n)) by {
            assert forall|i: int, j: int|
                0 <= i < mid.len() && 0 <= j < mid[i].len() implies (#[trigger] mid[i][j]).edge_index
                < n by {
                if i != s {
                    assert(mid[i] == topo2[i]);
                } else {
                    if j < topo2[s].len() {
                        assert(mid[i][j] == topo2[s][j]);
                    } else {
                        assert(mid[i][j].edge_index == (n - 1) as usize);
                    }
                }
            }
        }
        assert forall|i: int, j: int|
            0 <= i < post.len() && 0 <= j < post[i].len() implies (#[trigger] post[i][j]).edge_index
            < n by {
            if i != t {
                assert(post[i] == mid[i]);
            } else {
                if j < mid[t].len() {
                    assert(post[i][j] == mid[t][j]);
                } else {
                    assert(post[i][j].edge_index == (n - 1) as usize);
                }
            }
        }
    }
}

impl<T: Copy + PartialEq, W: Copy> WeightedGraph<T, W, Directed> {
    /// Builds a directed graph from a tuple list, deduplicating repeated
    /// values into shared nodes, first occurrence first.
    pub fn from_vec_directed(vec: Vec<(T, T, W)>) -> (r: Self)
        ensures
            r.wf(),
            r.edge_count_spec() == vec@.len(),
            r.wts() == vec@.map_values(|p: (T, T, W)| p.2),
            T::obeys_eq_spec() ==> r.vals() == fill_vals(vec@, vec@.len() as int) && r.topo()
                == fill_topo::<T, W, Directed>(vec@, vec@.len() as int) && r.weights_ok(),
    {
        let ghost pairs = vec@;
        let r = Self::fill_graph_from_vec(Self::new_directed(), vec);
        proof {
            if T::obeys_eq_spec() {
                lemma_directed_fill_ids::<T, W>(pairs, pairs.len() as int);
            }
        }
        r
    }
}

impl<T: Copy + PartialEq, W: Copy> WeightedGraph<T, W, Undirected> {
    /// Builds an undirected graph from a tuple list, deduplicating repeated
    /// values into shared nodes, first occurrence first.
    pub fn from_vec_undirected(vec: Vec<(T, T, W)>) -> (r: Self)
        ensures
            r.wf(),
            r.edge_count_spec() == vec@.len(),
            r.wts() == vec@.map_values(|p: (T, T, W)| p.2),
            T::obeys_eq_spec() ==> r.vals() == fill_vals(vec@, vec@.len() as int) && r.topo()
                == fill_topo::<T, W, Undirected>(vec@, vec@.len() as int) && r.weights_ok(),
    {
        let ghost pairs = vec@;
        let r = Self::fill_graph_from_vec(Self::new_undirected(), vec);
        proof {
            if T::obeys_eq_spec() {
                lemma_undirected_fill_ids::<T, W>(pairs, pairs.len() as int);
            }
        }
        r
    }
}

impl<T: Copy + PartialEq, W: Copy, const N: usize> From<[(T, T, W); N]> for WeightedGraph<T, W, Directed> {
    /// Builds a directed graph from an array of tuples, as
    /// `from_vec_directed` does from a list.
    fn from(arr: [(T, T, W); N]) -> Self {
        Self::from_vec_directed(vstd::slice::slice_to_vec(arr.as_slice()))
    }
}

impl<T: Copy + PartialEq, W: Copy, const N: usize> vstd::std_specs::convert::FromSpecImpl<[(T, T, W); N]> for WeightedGraph<T, W, Directed> {
    open spec fn obeys_from_spec() -> bool {
        false
    }

    open spec fn from_spec(v: [(T, T, W); N]) -> Self {
        arbitrary()
    }
}

impl<T, K: GraphType> crate::path_finder::PathFindable for WeightedGraph<T, usize, K> {
    open spec fn pf_wf(&self) -> bool {
        self.wf() && self.weights_ok()
    }

    open spec fn node_count(&self) -> nat {
        self.topo().len()
    }

    open spec fn adj(&self, n: int) -> Seq<(Node, usize)> {
        self.topo()[n].map_values(
            |c: Connection| (spec_node(c.node_index as int), self.wts()[c.edge_index as int]),
        )
    }

    proof fn adj_in_range(&self, n: int) {
        assert forall|k: int|
            0 <= k < self.adj(n).len() implies 0 <= (#[trigger] self.adj(n)[k]).0@
            < self.node_count() by {
            let c = self.topo()[n][k];
            lemma_spec_node_view(c.node_index as int);
        }
    }

    fn nodes(&self) -> (r: Vec<Node>) {
        let n = self.graph.len();
        let mut r: Vec<Node> = Vec::new();
        let mut i: usize = 0;
        while i < n
            invariant
                i <= n,
                n == self.topo().len(),
                r@.len() == i,
                forall|k: int| 0 <= k < i ==> (#[trigger] r@[k])@ == k,
            decreases n - i,
        {
            r.push(Node::from(i));
            i = i + 1;
        }
        r
    }

    fn get_neighbours(&self, n: Node) -> (r: Vec<(Node, usize)>) {
        proof {
            lemma_node_view(n);
        }
        let uid = uid_of(n);
        let mut it = self.graph.get_neighbours(uid);
        let mut r: Vec<(Node, usize)> = Vec::new();
        proof {
            assert(it.all() == row_edges(self.topo(), n@));
        }
        loop
            invariant_except_break
                self.wf(),
                self.weights_ok(),
                0 <= n@ < self.topo().len(),
                it.all() == row_edges(self.topo(), n@),
                it.at() <= it.all().len(),
                r@.len() == it.at(),
                forall|k: int| 0 <= k < r@.len() ==> r@[k] == (#[trigger] self.adj(n@)[k]),
            ensures
                r@ == self.adj(n@),
            decreases it.all().len() - it.at(),
        {
            let ghost at0 = it.at();
            match it.next() {
                Some(ge) => {
                    proof {
                        assert(ge == it.all()[at0 as int]);
                        assert(ge == crate::graph_trait::edge_of(n@, self.topo()[n@][at0 as int]));
                        assert(self.topo()[n@][at0 as int].edge_index < self.wts().len());
                    }
                    let weight = self.weights[ge.uid];
                    r.push((Node::from(ge.target), weight));
                    proof {
                        let c = self.topo()[n@][at0 as int];
                        assert(self.adj(n@)[at0 as int] == (
                            spec_node(c.node_index as int),
                            self.wts()[c.edge_index as int],
                        ));
                    }
                },
                None => {
                    proof {
                        assert(r@.len() == self.adj(n@).len());
                        assert(r@ =~= self.adj(n@));
                    }
                    break;
                },
            }
        }
        r
    }
}

/// The text of the first `j` entries of `row`: each target's index and the
/// entry's weight parenthesised, a comma after every entry but the row's
/// last.
pub open spec fn weighted_row_text<W: Render>(wts: Seq<W>, row: Seq<Connection>, j: int) -> Seq<
    char,
>
    decreases j,
{
    if j <= 0 {
        Seq::empty()
    } else {
        weighted_row_text(wts, row, j - 1) + dec_spec(row[j - 1].node_index as int) + seq!['(']
            + wts[row[j - 1].edge_index as int].render_spec() + seq![')'] + (if j < row.len() {
            seq![',']
        } else {
            Seq::empty()
        })
    }
}

/// The text of node `i`: its index, its value braced, then its row's
/// entries bracketed, then a newline when `pretty`.
pub open spec fn weighted_node_text<T: Render, W: Render>(
    vals: Seq<T>,
    wts: Seq<W>,
    topo: Seq<Seq<Connection>>,
    i: int,
    pretty: bool,
) -> Seq<char> {
    dec_spec(i) + seq!['{'] + vals[i].render_spec() + seq!['}'] + seq!['['] + weighted_row_text(
        wts,
        topo[i],
        topo[i].len() as int,
    ) + seq![']'] + (if pretty {
        seq!['\n']
    } else {
        Seq::empty()
    })
}

/// The text of the first `i` nodes, in creation order.
pub open spec fn weighted_print_upto<T: Render, W: Render>(
    vals: Seq<T>,
    wts: Seq<W>,
    topo: Seq<Seq<Connection>>,
    i: int,
    pretty: bool,
) -> Seq<char>
    decreases i,
{
    if i <= 0 {
        Seq::empty()
    } else {
        weighted_print_upto(vals, wts, topo, i - 1, pretty) + weighted_node_text(
            vals,
            wts,
            topo,
            i - 1,
            pretty,
        )
    }
}

impl<T: Render, W: Render, K: GraphType> WeightedGraph<T, W, K> {
    /// Renders the graph: per node in creation order,
    /// `index{value}[t1(w1),t2(w2),...]` with the row's entries in
    /// edge-insertion order; `pretty` ends each node's segment with a
    /// newline.
    pub fn print(&self, pretty: bool) -> (s: String)
        requires
            self.wf(),
            self.weights_ok(),
        ensures
            s@ == weighted_print_upto(
                self.vals(),
                self.wts(),
                self.topo(),
                self.topo().len() as int,
                pretty,
            ),
    {
        let mut output = String::new();
        let n = self.len();
        let mut i: usize = 0;
        proof {
            assert(output@ =~= weighted_print_upto(self.vals(), self.wts(), self.topo(), 0, pretty));
        }
        while i < n
            invariant
                self.wf(),
                self.weights_ok(),
                n == self.topo().len(),
                i <= n,
                output@ == weighted_print_upto(
                    self.vals(),
                    self.wts(),
                    self.topo(),
                    i as int,
                    pretty,
                ),
            decreases n - i,
        {
            let ghost pre = output@;
            let ghost vals = self.vals();
            let ghost wts = self.wts();
            let ghost topo = self.topo();
            let node = Node::from(i);
            let index_text = render_u64(i as u64);
            output.append(index_text.as_str());
            output.append("{");
            let value_text = self.index(node).render();
            output.append(value_text.as_str());
            output.append("}");
            output.append("[");
            proof {
                reveal_strlit("{");
                reveal_strlit("}");
                reveal_strlit("[");
                assert(output@ =~= pre + dec_spec(i as int) + seq!['{'] + vals[i as int].render_spec()
                    + seq!['}'] + seq!['['] + weighted_row_text(wts, topo[i as int], 0));
            }
            let mut it = self.raw_neighbours(i);
            let degree = self.get_degree(node);
            let mut j: usize = 0;
            while j < degree
                invariant
                    self.wf(),
                    self.weights_ok(),
                    vals == self.vals(),
                    wts == self.wts(),
                    topo == self.topo(),
                    n == topo.len(),
                    i < n,
                    degree == topo[i as int].len(),
                    it.all() == row_edges(topo, i as int),
                    it.at() == j,
                    j <= degree,
                    output@ == pre + dec_spec(i as int) + seq!['{'] + vals[i as int].render_spec()
                        + seq!['}'] + seq!['['] + weighted_row_text(wts, topo[i as int], j as int),
                decreases degree - j,
            {
                let ge = match it.next() {
                    Some(ge) => ge,
                    None => vstd::pervasive::unreached(),
                };
                proof {
                    assert(ge == row_edges(topo, i as int)[j as int]);
                    assert(ge.target == topo[i as int][j as int].node_index);
                    assert(ge.uid == topo[i as int][j as int].edge_index);
                    assert((ge.uid as int) < wts.len());
                }
                let target_text = render_u64(ge.target as u64);
                output.append(target_text.as_str());
                output.append("(");
                let weight_text = self.weights[ge.uid].render();
                output.append(weight_text.as_str());
                output.append(")");
                if j + 1 < degree {
                    output.append(",");
                }
                j = j + 1;
                proof {
                    reveal_strlit("(");
                    reveal_strlit(")");
                    reveal_strlit(",");
                    assert(output@ =~= pre + dec_spec(i as int) + seq!['{'] + vals[
                        i as int
                    ].render_spec() + seq!['}'] + seq!['['] + weighted_row_text(
                        wts,
                        topo[i as int],
                        j as int,
                    ));
                }
            }
            output.append("]");
            if pretty {
                output.append("\n");
            }
            i = i + 1;
            proof {
                reveal_strlit("]");
                reveal_strlit("\n");
                assert(output@ =~= weighted_print_upto(vals, wts, topo, i as int, pretty));
            }
        }
        output
    }
}

/// The node-count invariant: a well-formed graph stores exactly one value
/// per topology row and one weight per edge added, after any sequence of
/// insertions.
pub proof fn lemma_node_count_invariant<T, W, K: GraphType>(g: &WeightedGraph<T, W, K>)
    requires
        g.wf(),
    ensures
        g.vals().len() == g.topo().len(),
        g.wts().len() == g.edge_count_spec(),
{
}

/// Iteration is idempotent: the node and edge sequences that `nodes` and
/// `edges` walk are functions of the graph's state alone, so two calls on
/// an unmodified graph yield identical sequences.
pub proof fn lemma_iteration_idempotent<T, W, K: GraphType>(
    g: &WeightedGraph<T, W, K>,
    nodes_a: Seq<T>,
    nodes_b: Seq<T>,
    edges_a: Seq<GraphEdge>,
    edges_b: Seq<GraphEdge>,
)
    requires
        nodes_a == g.vals(),
        nodes_b == g.vals(),
        edges_a == edge_seq(g.topo()),
        edges_b == edge_seq(g.topo()),
    ensures
        nodes_a == nodes_b,
        edges_a == edges_b,
{
}

/// The first match is a match, and nothing before it is one.
pub proof fn lemma_first_match<T: PartialEq>(vals: Seq<T>, v: T)
    requires
        found_at(vals, v),
    ensures
        0 <= first_match(vals, v) < vals.len(),
        vals[first_match(vals, v)].eq_spec(&v),
        forall|i: int| 0 <= i < first_match(vals, v) ==> !(#[trigger] vals[i]).eq_spec(&v),
    decreases vals.len(),
{
    if vals[0].eq_spec(&v) {
    } else {
        let rest = vals.drop_first();
        let w = choose|i: int| 0 <= i < vals.len() && (#[trigger] vals[i]).eq_spec(&v);
        assert(rest[w - 1] == vals[w]);
        assert(found_at(rest, v));
        lemma_first_match(rest, v);
        let fm = first_match(vals, v);
        assert(vals[fm] == rest[fm - 1]);
        assert forall|i: int| 0 <= i < fm implies !(#[trigger] vals[i]).eq_spec(&v) by {
            if i > 0 {
                assert(vals[i] == rest[i - 1]);
            }
        }
    }
}

} // verus!
