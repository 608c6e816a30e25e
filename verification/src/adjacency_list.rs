//! The storage engine: an append-only adjacency list.
//!
//! Each node owns one row of [`Connection`]s, in edge-insertion order.

use vstd::prelude::*;

verus! {

/// One entry of a node's adjacency row: the target node's index and the
/// identifier of the edge that produced the entry.
#[derive(Debug, Clone, Copy, PartialEq, Eq, Structural)]
pub struct Connection {
    pub node_index: usize,
    pub edge_index: usize,
}

/// Adjacency rows, one per node, indexed by the node's creation-order index.
pub struct AdjancencyList {
    list: Vec<Vec<Connection>>,
}

impl View for AdjancencyList {
    type V = Seq<Seq<Connection>>;

    closed spec fn view(&self) -> Seq<Seq<Connection>> {
        Seq::new(self.list@.len(), |i: int| self.list@[i]@)
    }
}

/// The flattened sequence of `(source, connection)` pairs of the rows of `t`,
/// starting at row `i`, connection `j`: row `i` from its `j`th entry onward,
/// then every later row whole, each row in insertion order.
pub open spec fn conns_from(t: Seq<Seq<Connection>>, i: int, j: int) -> Seq<(usize, Connection)>
    decreases t.len() - i,
{
    if i < 0 || i >= t.len() {
        Seq::empty()
    } else {
        row_pairs(t, i).skip(j) + conns_from(t, i + 1, 0)
    }
}

/// Row `i` of `t` as `(source, connection)` pairs.
pub open spec fn row_pairs(t: Seq<Seq<Connection>>, i: int) -> Seq<(usize, Connection)> {
    t[i].map_values(|c: Connection| (i as usize, c))
}

/// All `(source, connection)` pairs of `t`, rows in node order, each row in
/// insertion order.
pub open spec fn all_conns(t: Seq<Seq<Connection>>) -> Seq<(usize, Connection)> {
    conns_from(t, 0, 0)
}

/// `p` records a connection that `t` really stores, under its real source.
pub open spec fn pair_in_topo(t: Seq<Seq<Connection>>, p: (usize, Connection)) -> bool {
    exists|a: int, b: int|
        0 <= a < t.len() && 0 <= b < t[a].len() && (#[trigger] t[a][b]) == p.1 && a == p.0 as int
}

proof fn lemma_conns_from_in_topo(t: Seq<Seq<Connection>>, i: int, j: int)
    requires
        t.len() <= usize::MAX,
        0 <= i,
        0 <= j,
        i < t.len() ==> j <= t[i].len(),
    ensures
        forall|k: int|
            0 <= k < conns_from(t, i, j).len() ==> pair_in_topo(t, #[trigger] conns_from(t, i, j)[k]),
    decreases t.len() - i,
{
    if 0 <= i < t.len() {
        lemma_conns_from_in_topo(t, i + 1, 0);
        let here = row_pairs(t, i).skip(j);
        let rest = conns_from(t, i + 1, 0);
        assert forall|k: int|
            0 <= k < conns_from(t, i, j).len() implies pair_in_topo(
            t,
            #[trigger] conns_from(t, i, j)[k],
        ) by {
            if k < here.len() {
                assert(conns_from(t, i, j)[k] == here[k]);
                assert(here[k] == row_pairs(t, i)[j + k]);
                assert(t[i][j + k] == here[k].1);
                assert(here[k].0 == i as usize);
                assert((i as usize) as int == i);
            } else {
                assert(conns_from(t, i, j)[k] == rest[k - here.len()]);
            }
        }
    }
}

/// Every pair that the flattened edge sequence yields is a stored
/// connection.
pub proof fn lemma_all_conns_in_topo(t: Seq<Seq<Connection>>)
    requires
        t.len() <= usize::MAX,
    ensures
        forall|k: int|
            0 <= k < all_conns(t).len() ==> pair_in_topo(t, #[trigger] all_conns(t)[k]),
{
    lemma_conns_from_in_topo(t, 0, 0);
}

impl AdjancencyList {
    pub fn new() -> (r: Self)
        ensures
            r@ == Seq::<Seq<Connection>>::empty(),
    {
        let r = AdjancencyList { list: Vec::new() };
        proof {
            assert(r@ =~= Seq::<Seq<Connection>>::empty());
        }
        r
    }

    pub fn add_node(&mut self)
        ensures
            final(self)@ == old(self)@.push(Seq::<Connection>::empty()),
    {
        self.list.push(Vec::new());
        proof {
            assert(self@ =~= old(self)@.push(Seq::<Connection>::empty()));
        }
    }

    pub fn add_edge(&mut self, source: usize, target: usize, edge_index: usize)
        requires
            source < old(self)@.len(),
        ensures
            final(self)@ == old(self)@.update(
                source as int,
                old(self)@[source as int].push(
                    (Connection { node_index: target, edge_index: edge_index }),
                ),
            ),
    {
        let c = Connection { node_index: target, edge_index: edge_index };
        self.list[source].push(c);
        proof {
            assert(self@ =~= old(self)@.update(
                source as int,
                old(self)@[source as int].push(c),
            ));
        }
    }

    pub fn get_neighbours(&self, node: usize) -> (r: &Vec<Connection>)
        requires
            node < self@.len(),
        ensures
            r@ == self@[node as int],
    {
        &self.list[node]
    }

    pub fn node_exists(&self, node: usize) -> (r: bool)
        ensures
            r == (node < self@.len()),
    {
        node < self.list.len()
    }

    pub fn len(&self) -> (r: usize)
        ensures
            r == self@.len(),
    {
        self.list.len()
    }

    pub fn nodes(&self) -> (it: NodeIterator<'_>)
        ensures
            it.src() == self@,
            it.at() == 0,
    {
        NodeIterator { list: &self, node_index: 0 }
    }

    pub fn edges(&self) -> (it: EdgeIterator<'_>)
        ensures
            it.src() == self@,
            it.wf(),
            it.remaining() == all_conns(self@),
    {
        EdgeIterator { list: &self, node_index: 0, neighbour_index: 0 }
    }
}

/// Yields the node indices `0, 1, ..., len - 1` of the list it was created
/// from; the sequence is a function of that list alone.
pub struct NodeIterator<'a> {
    list: &'a AdjancencyList,
    node_index: usize,
}

impl<'a> NodeIterator<'a> {
    pub closed spec fn src(&self) -> Seq<Seq<Connection>> {
        self.list@
    }

    pub closed spec fn at(&self) -> int {
        self.node_index as int
    }

    pub fn next(&mut self) -> (r: Option<usize>)
        ensures
            final(self).src() == old(self).src(),
            old(self).at() < old(self).src().len() ==> {
                &&& r == Some(old(self).at() as usize)
                &&& final(self).at() == old(self).at() + 1
            },
            old(self).at() >= old(self).src().len() ==> {
                &&& r == None::<usize>
                &&& final(self).at() == old(self).at()
            },
    {
        if !self.list.node_exists(self.node_index) {
            return None;
        }
        let ret = Some(self.node_index);
        let _l = self.list.len();
        proof {
            assert(self.node_index < _l);
        }
        self.node_index = self.node_index + 1;
        ret
    }
}

/// Yields every `(source, connection)` pair of the list it was created from,
/// rows in node order, each row in insertion order.
pub struct EdgeIterator<'a> {
    list: &'a AdjancencyList,
    node_index: usize,
    neighbour_index: usize,
}

impl<'a> EdgeIterator<'a> {
    pub closed spec fn src(&self) -> Seq<Seq<Connection>> {
        self.list@
    }

    pub closed spec fn wf(&self) -> bool {
        if (self.node_index as int) < self.src().len() {
            self.neighbour_index <= self.src()[self.node_index as int].len()
        } else {
            self.neighbour_index == 0
        }
    }

    pub closed spec fn remaining(&self) -> Seq<(usize, Connection)> {
        conns_from(self.src(), self.node_index as int, self.neighbour_index as int)
    }

    pub fn next(&mut self) -> (r: Option<(usize, Connection)>)
        requires
            old(self).wf(),
        ensures
            final(self).wf(),
            final(self).src() == old(self).src(),
            old(self).remaining().len() > 0 ==> {
                &&& r == Some(old(self).remaining()[0])
                &&& final(self).remaining() == old(self).remaining().drop_first()
            },
            old(self).remaining().len() == 0 ==> {
                &&& r == None::<(usize, Connection)>
                &&& final(self).remaining() == old(self).remaining()
            },
    {
        if !self.find_next_existing_edge() {
            return None;
        }
        let ghost pre = *self;
        let row = self.list.get_neighbours(self.node_index);
        let c = row[self.neighbour_index];
        let ret = Some((self.node_index, c));
        let _rl = row.len();
        proof {
            assert(self.neighbour_index < _rl);
        }
        self.neighbour_index = self.neighbour_index + 1;
        proof {
            let t = self.src();
            let i = pre.node_index as int;
            let j = pre.neighbour_index as int;
            assert(row_pairs(t, i).skip(j)[0] == (pre.node_index, c));
            assert(self.remaining() =~= pre.remaining().drop_first());
        }
        ret
    }

    fn find_next_existing_edge(&mut self) -> (r: bool)
        requires
            old(self).wf(),
        ensures
            final(self).wf(),
            final(self).src() == old(self).src(),
            final(self).remaining() == old(self).remaining(),
            r == (final(self).remaining().len() > 0),
            r ==> ({
                let fin = *final(self);
                &&& (fin.node_index as int) < fin.src().len()
                &&& (fin.neighbour_index as int) < fin.src()[fin.node_index as int].len()
                &&& fin.remaining()[0] == (
                    fin.node_index,
                    fin.src()[fin.node_index as int][fin.neighbour_index as int],
                )
            }),
    {
        while self.list.node_exists(self.node_index)
            invariant
                self.wf(),
                self.src() == old(self).src(),
                self.remaining() == old(self).remaining(),
            decreases self.src().len() - self.node_index,
        {
            let row_len = self.list.get_neighbours(self.node_index).len();
            if self.neighbour_index < row_len {
                proof {
                    let t = self.src();
                    let i = self.node_index as int;
                    let j = self.neighbour_index as int;
                    assert(self.remaining()[0] == row_pairs(t, i).skip(j)[0]);
                    assert(self.remaining().len() > 0);
                }
                return true;
            }
            proof {
                let t = self.src();
                let i = self.node_index as int;
                let j = self.neighbour_index as int;
                assert(row_pairs(t, i).skip(j) =~= Seq::<(usize, Connection)>::empty());
                assert(self.remaining() =~= conns_from(t, i + 1, 0));
            }
            let _l = self.list.len();
            proof {
                assert(self.node_index < _l);
            }
            self.node_index = self.node_index + 1;
            self.neighbour_index = 0;
        }
        proof {
            assert(self.remaining().len() == 0);
        }
        false
    }
}

} // verus!
