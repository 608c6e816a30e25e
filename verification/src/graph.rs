//! The unweighted graph facade: a [`WeightedGraph`] whose every edge
//! carries the unit weight.

use vstd::prelude::*;

use crate::adjacency_list::Connection;
use crate::directed::Directed;
use crate::graph_trait::{edge_seq, row_edges, GraphEdge, GraphEdgeIterator, GraphType};
use crate::undirected::Undirected;
use crate::render::Render;
use crate::weighted_graph::{fill_topo, fill_vals, spec_node, uid_of, WeightedGraph};
use vstd::std_specs::cmp::PartialEqSpec;
use vstd::string::StringExecFns;

verus! {

pub type Node = crate::weighted_graph::Node;

pub type Edge = crate::weighted_graph::Edge;

pub type NodeIter<'a, T> = crate::weighted_graph::NodeIter<'a, T>;

/// The unit weight that an unweighted graph records for every edge.
#[derive(Debug, Clone, Copy)]
pub struct EmptyWeight;

/// A tuple list paired with the unit weight, as the unweighted bulk
/// constructor hands it on.
pub open spec fn unit_triples<T>(pairs: Seq<(T, T)>) -> Seq<(T, T, EmptyWeight)> {
    pairs.map_values(|p: (T, T)| (p.0, p.1, EmptyWeight))
}

/// A graph over a topology store `K` with a value of type `T` per node and
/// no edge weights.
pub struct Graph<T, K> {
    graph: WeightedGraph<T, EmptyWeight, K>,
}

impl<T, K: GraphType> Graph<T, K> {
    /// The stored topology.
    pub closed spec fn topo(&self) -> Seq<Seq<Connection>> {
        self.graph.topo()
    }

    /// The node values, indexed by node index.
    pub closed spec fn vals(&self) -> Seq<T> {
        self.graph.vals()
    }

    /// The number of edges added so far: the next edge identifier.
    pub closed spec fn edge_count_spec(&self) -> int {
        self.graph.edge_count_spec()
    }

    /// The facade's invariant, inherited from [`WeightedGraph`].
    pub closed spec fn wf(&self) -> bool {
        self.graph.wf()
    }

    /// `n` names a node of this graph.
    pub open spec fn valid_node(&self, n: Node) -> bool {
        0 <= n@ < self.topo().len()
    }

    pub fn new() -> (r: Self)
        ensures
            r.wf(),
            r.topo() == Seq::<Seq<Connection>>::empty(),
            r.vals() == Seq::<T>::empty(),
            r.edge_count_spec() == 0,
    {
        Graph { graph: WeightedGraph::new() }
    }

    /// Appends a node carrying `value`; the value sequence and the topology
    /// grow in lockstep. Returns the new node's handle.
    pub fn add_node(&mut self, value: T) -> (n: Node)
        requires
            old(self).wf(),
        ensures
            final(self).wf(),
            n@ == old(self).topo().len(),
            final(self).vals() == old(self).vals().push(value),
            final(self).topo() == K::node_added(old(self).topo()),
            final(self).vals().len() == final(self).topo().len(),
            final(self).edge_count_spec() == old(self).edge_count_spec(),
    {
        self.graph.add_node(value)
    }

    /// Adds an edge between two existing nodes under the next edge
    /// identifier.
    pub fn add_edge(&mut self, source: Node, target: Node)
        requires
            old(self).wf(),
            old(self).valid_node(source),
            old(self).valid_node(target),
        ensures
            final(self).wf(),
            final(self).topo() == K::edge_added(
                old(self).topo(),
                source@,
                target@,
                old(self).edge_count_spec(),
            ),
            final(self).vals() == old(self).vals(),
            final(self).edge_count_spec() == old(self).edge_count_spec() + 1,
    {
        self.graph.add_edge(source, target, EmptyWeight)
    }

    pub fn nodes(&self) -> (it: NodeIter<'_, T>)
        ensures
            it.vals() == self.vals(),
            it.at() == 0,
    {
        self.graph.nodes()
    }

    pub fn edges(&self) -> (it: EdgeIter)
        ensures
            it.all() == edge_seq(self.topo()),
            it.at() == 0,
    {
        EdgeIter { inner: self.graph.raw_edges() }
    }

    /// The number of nodes.
    pub fn len(&self) -> (n: usize)
        ensures
            n == self.topo().len(),
    {
        self.graph.len()
    }

    pub fn get_neighbours(&self, node: Node) -> (it: EdgeIter)
        requires
            self.wf(),
            self.valid_node(node),
        ensures
            it.all() == row_edges(self.topo(), node@),
            it.at() == 0,
    {
        let uid = uid_of(node);
        EdgeIter { inner: self.graph.raw_neighbours(uid) }
    }

    /// The number of connections stored in `node`'s row.
    pub fn get_degree(&self, node: Node) -> (d: usize)
        requires
            self.valid_node(node),
        ensures
            d == self.topo()[node@].len(),
    {
        self.graph.get_degree(node)
    }

    /// The value stored for `node`.
    pub fn index(&self, node: Node) -> (r: &T)
        requires
            self.wf(),
            self.valid_node(node),
        ensures
            *r == self.vals()[node@],
    {
        self.graph.index(node)
    }

    /// Mutable access to the value stored for `node`; nothing else of the
    /// graph changes.
    pub fn index_mut(&mut self, node: Node) -> (r: &mut T)
        requires
            old(self).wf(),
            old(self).valid_node(node),
        ensures
            *r == old(self).vals()[node@],
            final(self).vals() == old(self).vals().update(node@, *final(r)),
            final(self).topo() == old(self).topo(),
            final(self).edge_count_spec() == old(self).edge_count_spec(),
            final(self).wf(),
    {
        self.graph.index_mut(node)
    }
}

impl<T: Copy, K: GraphType> Graph<T, K> {
    /// The values at an edge's endpoints, source first.
    pub fn get_edge_values(&self, edge: Edge) -> (r: (T, T))
        requires
            self.wf(),
            self.valid_node(edge.source),
            self.valid_node(edge.target),
        ensures
            r.0 == self.vals()[edge.source@],
            r.1 == self.vals()[edge.target@],
    {
        self.graph.get_edge_values(edge)
    }
}

impl<T: PartialEq, K: GraphType> Graph<T, K> {
    /// The first node, in creation order, whose value compares equal to
    /// `value`; `None` when no value does.
    pub fn find_node_with_value(&self, value: &T) -> (r: Option<Node>)
        requires
            self.wf(),
        ensures
            r matches Some(n) ==> 0 <= n@ < self.vals().len(),
            T::obeys_eq_spec() ==> ({
                match r {
                    Some(n) => {
                        &&& 0 <= n@ < self.vals().len()
                        &&& self.vals()[n@].eq_spec(value)
                        &&& forall|i: int|
                            0 <= i < n@ ==> !(#[trigger] self.vals()[i]).eq_spec(value)
                    },
                    None => forall|i: int|
                        0 <= i < self.vals().len() ==> !(#[trigger] self.vals()[i]).eq_spec(value),
                }
            }),
    {
        self.graph.find_node_with_value(value)
    }
}

/// Yields every edge record of the underlying iterator as an [`Edge`]; the
/// sequence is a function of the graph alone.
pub struct EdgeIter {
    inner: GraphEdgeIterator,
}

impl EdgeIter {
    /// The edge records this iterator walks.
    pub closed spec fn all(&self) -> Seq<GraphEdge> {
        self.inner.all()
    }

    /// How many edges have been yielded so far.
    pub closed spec fn at(&self) -> usize {
        self.inner.at()
    }

    pub fn next(&mut self) -> (r: Option<Edge>)
        ensures
            final(self).all() == old(self).all(),
            old(self).at() < old(self).all().len() ==> ({
                let ge = old(self).all()[old(self).at() as int];
                &&& final(self).at() == old(self).at() + 1
                &&& r matches Some(e) && e.source == spec_node(ge.source as int) && e.target
                    == spec_node(ge.target as int) && e.uid == ge.uid
            }),
            old(self).at() >= old(self).all().len() ==> r is None && final(self).at() == old(
                self,
            ).at(),
    {
        match self.inner.next() {
            Some(ge) => Some(Edge::from(ge)),
            None => None,
        }
    }
}

impl<T, K: GraphType> Graph<T, K> {
    /// Delegated well-formedness: one value per node and every connection
    /// target a real node.
    pub proof fn lemma_wf_parts(&self)
        requires
            self.wf(),
        ensures
            self.vals().len() == self.topo().len(),
            crate::graph_trait::valid_topo(self.topo()),
    {
    }
}

impl<T> Graph<T, Directed> {
    pub fn new_directed() -> (r: Self)
        ensures
            r.wf(),
            r.topo() == Seq::<Seq<Connection>>::empty(),
            r.vals() == Seq::<T>::empty(),
            r.edge_count_spec() == 0,
    {
        Graph { graph: WeightedGraph::new_directed() }
    }
}

impl<T> Graph<T, Undirected> {
    pub fn new_undirected() -> (r: Self)
        ensures
            r.wf(),
            r.topo() == Seq::<Seq<Connection>>::empty(),
            r.vals() == Seq::<T>::empty(),
            r.edge_count_spec() == 0,
    {
        Graph { graph: WeightedGraph::new_undirected() }
    }
}

/// Pairs a tuple list with the unit weight.
fn to_unit_triples<T: Copy>(vec: Vec<(T, T)>) -> (r: Vec<(T, T, EmptyWeight)>)
    ensures
        r@ == unit_triples(vec@),
{
    let mut triples: Vec<(T, T, EmptyWeight)> = Vec::new();
    let n = vec.len();
    let mut i: usize = 0;
    while i < n
        invariant
            i <= n,
            n == vec@.len(),
            triples@ == unit_triples(vec@.take(i as int)),
        decreases n - i,
    {
        let p = vec[i];
        triples.push((p.0, p.1, EmptyWeight));
        i = i + 1;
        proof {
            assert(triples@ =~= unit_triples(vec@.take(i as int)));
        }
    }
    proof {
        assert(vec@.take(n as int) =~= vec@);
    }
    triples
}

impl<T: Copy + PartialEq> Graph<T, Directed> {
    /// Builds a directed graph from a pair list, deduplicating repeated
    /// values into shared nodes, first occurrence first.
    pub fn from_vec_directed(vec: Vec<(T, T)>) -> (r: Self)
        ensures
            r.wf(),
            r.edge_count_spec() == vec@.len(),
            T::obeys_eq_spec() ==> r.vals() == fill_vals(unit_triples(vec@), vec@.len() as int)
                && r.topo() == fill_topo::<T, EmptyWeight, Directed>(
                unit_triples(vec@),
                vec@.len() as int,
            ),
    {
        let ghost pairs = vec@;
        let triples = to_unit_triples(vec);
        Graph { graph: WeightedGraph::from_vec_directed(triples) }
    }
}

impl<T: Copy + PartialEq> Graph<T, Undirected> {
    /// Builds an undirected graph from a pair list, deduplicating repeated
    /// values into shared nodes, first occurrence first.
    pub fn from_vec_undirected(vec: Vec<(T, T)>) -> (r: Self)
        ensures
            r.wf(),
            r.edge_count_spec() == vec@.len(),
            T::obeys_eq_spec() ==> r.vals() == fill_vals(unit_triples(vec@), vec@.len() as int)
                && r.topo() == fill_topo::<T, EmptyWeight, Undirected>(
                unit_triples(vec@),
                vec@.len() as int,
            ),
    {
        let ghost pairs = vec@;
        let triples = to_unit_triples(vec);
        Graph { graph: WeightedGraph::from_vec_undirected(triples) }
    }
}

/// The text of the first `j` neighbour entries of `row`: each target's
/// rendered value, a comma after every entry but the row's last.
pub open spec fn row_text<T: Render>(vals: Seq<T>, row: Seq<Connection>, j: int) -> Seq<char>
    decreases j,
{
    if j <= 0 {
        Seq::empty()
    } else {
        row_text(vals, row, j - 1) + vals[row[j - 1].node_index as int].render_spec() + (if j
            < row.len() {
            seq![',']
        } else {
            Seq::empty()
        })
    }
}

/// The text of node `i`: its value, then its neighbours' values bracketed,
/// then a newline when `pretty`.
pub open spec fn node_text<T: Render>(
    vals: Seq<T>,
    topo: Seq<Seq<Connection>>,
    i: int,
    pretty: bool,
) -> Seq<char> {
    vals[i].render_spec() + seq!['['] + row_text(vals, topo[i], topo[i].len() as int) + seq![']']
        + (if pretty {
        seq!['\n']
    } else {
        Seq::empty()
    })
}

/// The text of the first `i` nodes, in creation order.
pub open spec fn print_upto<T: Render>(
    vals: Seq<T>,
    topo: Seq<Seq<Connection>>,
    i: int,
    pretty: bool,
) -> Seq<char>
    decreases i,
{
    if i <= 0 {
        Seq::empty()
    } else {
        print_upto(vals, topo, i - 1, pretty) + node_text(vals, topo, i - 1, pretty)
    }
}

impl<T: Render, K: GraphType> Graph<T, K> {
    /// Renders the graph: per node in creation order, `value[v1,v2,...]`
    /// with the neighbours' values in edge-insertion order; `pretty` ends
    /// each node's segment with a newline.
    pub fn print(&self, pretty: bool) -> (s: String)
        requires
            self.wf(),
        ensures
            s@ == print_upto(self.vals(), self.topo(), self.topo().len() as int, pretty),
    {
        let mut output = String::new();
        let n = self.len();
        let mut i: usize = 0;
        proof {
            assert(output@ =~= print_upto(self.vals(), self.topo(), 0, pretty));
        }
        while i < n
            invariant
                self.wf(),
                n == self.topo().len(),
                i <= n,
                output@ == print_upto(self.vals(), self.topo(), i as int, pretty),
            decreases n - i,
        {
            let ghost pre = output@;
            let ghost vals = self.vals();
            let ghost topo = self.topo();
            let node = Node::from(i);
            let value_text = self.index(node).render();
            output.append(value_text.as_str());
            output.append("[");
            proof {
                reveal_strlit("[");
                assert(output@ =~= pre + vals[i as int].render_spec() + seq!['['] + row_text(
                    vals,
                    topo[i as int],
                    0,
                ));
            }
            let mut it = self.graph.raw_neighbours(i);
            let degree = self.get_degree(node);
            let mut j: usize = 0;
            while j < degree
                invariant
                    self.wf(),
                    vals == self.vals(),
                    topo == self.topo(),
                    n == topo.len(),
                    i < n,
                    degree == topo[i as int].len(),
                    it.all() == row_edges(topo, i as int),
                    it.at() == j,
                    j <= degree,
                    output@ == pre + vals[i as int].render_spec() + seq!['['] + row_text(
                        vals,
                        topo[i as int],
                        j as int,
                    ),
                decreases degree - j,
            {
                let ge = match it.next() {
                    Some(ge) => ge,
                    None => vstd::pervasive::unreached(),
                };
                proof {
                    assert(ge == row_edges(topo, i as int)[j as int]);
                    assert(ge.target == topo[i as int][j as int].node_index);
                    crate::weighted_graph::lemma_spec_node_view(ge.target as int);
                }
                let tnode = Node::from(ge.target);
                let ttext = self.index(tnode).render();
                output.append(ttext.as_str());
                if j + 1 < degree {
                    output.append(",");
                }
                j = j + 1;
                proof {
                    reveal_strlit(",");
                    assert(output@ =~= pre + vals[i as int].render_spec() + seq!['['] + row_text(
                        vals,
                        topo[i as int],
                        j as int,
                    ));
                }
            }
            output.append("]");
            if pretty {
                output.append("\n");
            }
            i = i + 1;
            proof {
                reveal_strlit("]");
                reveal_strlit("\n");
                assert(output@ =~= print_upto(vals, topo, i as int, pretty));
            }
        }
        output
    }
}

impl<T, K: GraphType> crate::path_finder::PathFindable for Graph<T, K> {
    open spec fn pf_wf(&self) -> bool {
        self.wf()
    }

    open spec fn node_count(&self) -> nat {
        self.topo().len()
    }

    open spec fn adj(&self, n: int) -> Seq<(Node, usize)> {
        self.topo()[n].map_values(|c: Connection| (spec_node(c.node_index as int), 1usize))
    }

    proof fn adj_in_range(&self, n: int) {
        self.lemma_wf_parts();
        assert forall|k: int|
            0 <= k < self.adj(n).len() implies 0 <= (#[trigger] self.adj(n)[k]).0@
            < self.node_count() by {
            let c = self.topo()[n][k];
            crate::weighted_graph::lemma_spec_node_view(c.node_index as int);
        }
    }

    fn nodes(&self) -> (r: Vec<Node>) {
        let n = self.graph.len();
        let mut r: Vec<Node> = Vec::new();
        let mut i: usize = 0;
        while i < n
            invariant
                i <= n,
                n == self.topo().len(),
                r@.len() == i,
                forall|k: int| 0 <= k < i ==> (#[trigger] r@[k])@ == k,
            decreases n - i,
        {
            r.push(Node::from(i));
            i = i + 1;
        }
        r
    }

    fn get_neighbours(&self, n: Node) -> (r: Vec<(Node, usize)>) {
        let uid = uid_of(n);
        let mut it = self.graph.raw_neighbours(uid);
        let mut r: Vec<(Node, usize)> = Vec::new();
        proof {
            assert(it.all() == row_edges(self.topo(), n@));
        }
        loop
            invariant_except_break
                self.wf(),
                0 <= n@ < self.topo().len(),
                it.all() == row_edges(self.topo(), n@),
                it.at() <= it.all().len(),
                r@.len() == it.at(),
                forall|k: int| 0 <= k < r@.len() ==> r@[k] == (#[trigger] self.adj(n@)[k]),
            ensures
                r@ == self.adj(n@),
            decreases it.all().len() - it.at(),
        {
            let ghost at0 = it.at();
            match it.next() {
                Some(ge) => {
                    proof {
                        assert(ge == it.all()[at0 as int]);
                        assert(ge == crate::graph_trait::edge_of(n@, self.topo()[n@][at0 as int]));
                    }
                    r.push((Node::from(ge.target), 1));
                    proof {
                        let c = self.topo()[n@][at0 as int];
                        assert(self.adj(n@)[at0 as int] == (spec_node(c.node_index as int), 1usize));
                    }
                },
                None => {
                    proof {
                        assert(r@.len() == self.adj(n@).len());
                        assert(r@ =~= self.adj(n@));
                    }
                    break;
                },
            }
        }
        r
    }
}

/// The unweighted facade steps by one per edge: it satisfies the
/// pathfinder's unit-weight condition, so its empty search outcome
/// certifies unreachability.
pub proof fn lemma_graph_unit_weights<T, K: GraphType>(g: &Graph<T, K>)
    ensures
        crate::path_finder::unit_weights(g),
{
    assert forall|n: int, k: int|
        0 <= n < crate::path_finder::PathFindable::node_count(g) && 0 <= k
            < crate::path_finder::PathFindable::adj(g, n).len() implies (
    #[trigger] crate::path_finder::PathFindable::adj(g, n)[k]).1 == 1 by {}
}

impl<T: Copy + PartialEq, const N: usize> From<[(T, T); N]> for Graph<T, Directed> {
    /// Builds a directed graph from an array of pairs, as
    /// `from_vec_directed` does from a list.
    fn from(arr: [(T, T); N]) -> Self {
        Self::from_vec_directed(vstd::slice::slice_to_vec(arr.as_slice()))
    }
}

impl<T: Copy + PartialEq, const N: usize> vstd::std_specs::convert::FromSpecImpl<[(T, T); N]> for Graph<T, Directed> {
    open spec fn obeys_from_spec() -> bool {
        false
    }

    open spec fn from_spec(v: [(T, T); N]) -> Self {
        arbitrary()
    }
}

} // verus!
