use vstd::prelude::*;

verus! {

#[verifier::external_type_specification]
#[verifier::external_body]
#[verifier::reject_recursive_types(N)]
#[verifier::reject_recursive_types(E)]
#[verifier::reject_recursive_types(Ty)]
#[verifier::reject_recursive_types(Ix)]
pub struct ExGraph<N, E, Ty, Ix>(petgraph::Graph<N, E, Ty, Ix>);

#[verifier::external_type_specification]
#[verifier::external_body]
pub struct ExDirected(petgraph::Directed);

/// The shape of a petgraph graph whose weights are unit: its node count.
pub uninterp spec fn shape_nodes(g: petgraph::Graph<(), ()>) -> nat;

/// The shape of a petgraph graph whose weights are unit: its edges, in index
/// order, as (source index, target index).
pub uninterp spec fn shape_edges(g: petgraph::Graph<(), ()>) -> Seq<(nat, nat)>;

/// Whether some pair of `links` goes from `a` to `b`.
pub open spec fn has_link(links: Seq<(nat, nat)>, a: nat, b: nat) -> bool {
    exists|i: int| 0 <= i < links.len() && #[trigger] links[i] == (a, b)
}

/// Relies on petgraph's `Graph::new`: no nodes, no edges.
#[verifier::external_body]
fn shape_new() -> (r: petgraph::Graph<(), ()>)
    ensures
        shape_nodes(r) == 0,
        shape_edges(r) == Seq::<(nat, nat)>::empty(),
{
    petgraph::Graph::new()
}

/// Relies on petgraph's `Graph::add_node`: the new node takes the next index;
/// it panics only when that index would be the index type's maximum.
#[verifier::external_body]
fn shape_add_node(g: &mut petgraph::Graph<(), ()>) -> (r: usize)
    requires
        shape_nodes(*old(g)) < u32::MAX,
    ensures
        r == shape_nodes(*old(g)),
        shape_nodes(*final(g)) == shape_nodes(*old(g)) + 1,
        shape_edges(*final(g)) == shape_edges(*old(g)),
{
    g.add_node(()).index()
}

/// Relies on petgraph's `Graph::add_edge`: the edge is appended with the next
/// index; it panics on a missing endpoint or at the index type's maximum.
#[verifier::external_body]
fn shape_add_edge(g: &mut petgraph::Graph<(), ()>, a: usize, b: usize)
    requires
        a < shape_nodes(*old(g)),
        b < shape_nodes(*old(g)),
        shape_edges(*old(g)).len() < u32::MAX,
    ensures
        shape_nodes(*final(g)) == shape_nodes(*old(g)),
        shape_edges(*final(g)) == shape_edges(*old(g)).push((a as nat, b as nat)),
{
    g.add_edge(petgraph::graph::NodeIndex::new(a), petgraph::graph::NodeIndex::new(b), ());
}

/// Relies on petgraph's `Graph::edge_endpoints`: source and target of edge
/// `e`. (`EdgeIndex::new` truncates to 32 bits, hence `e` below the count.)
#[verifier::external_body]
fn shape_endpoints(g: &petgraph::Graph<(), ()>, e: usize) -> (r: Option<(usize, usize)>)
    requires
        e < shape_edges(*g).len(),
        shape_edges(*g).len() <= u32::MAX,
    ensures
        r == Some((shape_edges(*g)[e as int].0 as usize, shape_edges(*g)[e as int].1 as usize)),
{
    g.edge_endpoints(petgraph::graph::EdgeIndex::new(e)).map(|(s, t)| (s.index(), t.index()))
}

/// Relies on petgraph's `Graph::contains_edge`: whether some edge goes from
/// `a` to `b`.
#[verifier::external_body]
fn shape_contains_edge(g: &petgraph::Graph<(), ()>, a: usize, b: usize) -> (r: bool)
    requires
        a < shape_nodes(*g),
        b < shape_nodes(*g),
        shape_nodes(*g) <= u32::MAX,
    ensures
        r == has_link(shape_edges(*g), a as nat, b as nat),
{
    g.contains_edge(petgraph::graph::NodeIndex::new(a), petgraph::graph::NodeIndex::new(b))
}

} // verus!

verus! {

/// A transfer kept as an edge: its hash, its value in wei and its unix time.
#[derive(Clone, Debug)]
pub struct Transaction {
    pub hash: String,
    pub value: u128,
    pub timestamp: u64,
}

impl Transaction {
    /// A field-for-field copy.
    pub fn duplicate(&self) -> (r: Transaction)
        ensures
            r == *self,
    {
        Transaction { hash: self.hash.clone(), value: self.value, timestamp: self.timestamp }
    }
}

/// The mathematical graph: node labels by index, and edges by index as
/// (source index, target index, payload).
pub struct GraphView {
    pub nodes: Seq<Seq<char>>,
    pub edges: Seq<(nat, nat, Transaction)>,
}

/// Endpoints in range, and counts within the node and edge index type.
pub open spec fn graph_valid(v: GraphView) -> bool {
    &&& v.nodes.len() <= u32::MAX
    &&& v.edges.len() <= u32::MAX
    &&& forall|i: int|
        0 <= i < v.edges.len() ==> #[trigger] v.edges[i].0 < v.nodes.len() && v.edges[i].1
            < v.nodes.len()
}

/// The (source, target) pairs of a graph's edges, by edge index.
pub open spec fn links_of(v: GraphView) -> Seq<(nat, nat)> {
    Seq::new(v.edges.len(), |i: int| (v.edges[i].0, v.edges[i].1))
}

/// Directed multigraph of addresses (nodes) and transactions (edges).
pub struct TxGraph {
    shape: petgraph::Graph<(), ()>,
    addresses: Vec<String>,
    transactions: Vec<Transaction>,
}

impl View for TxGraph {
    type V = GraphView;

    closed spec fn view(&self) -> GraphView {
        GraphView {
            nodes: self.addresses@.map_values(|a: String| a@),
            edges: Seq::new(
                self.transactions@.len(),
                |i: int|
                    (shape_edges(self.shape)[i].0, shape_edges(self.shape)[i].1, self.transactions@[i]),
            ),
        }
    }
}

impl TxGraph {
    pub closed spec fn parts_agree(&self) -> bool {
        &&& shape_nodes(self.shape) == self.addresses@.len()
        &&& shape_edges(self.shape).len() == self.transactions@.len()
    }

    pub open spec fn wf(&self) -> bool {
        self.parts_agree() && graph_valid(self@)
    }

    proof fn lemma_links(&self)
        requires
            self.parts_agree(),
        ensures
            links_of(self@) == shape_edges(self.shape),
            self@.nodes.len() == shape_nodes(self.shape),
    {
        assert(links_of(self@) =~= shape_edges(self.shape));
    }

    /// An empty graph.
    pub fn new() -> (r: TxGraph)
        ensures
            r.wf(),
            r@.nodes.len() == 0,
            r@.edges.len() == 0,
    {
        let r = TxGraph { shape: shape_new(), addresses: Vec::new(), transactions: Vec::new() };
        assert(r@.edges.len() == 0);
        r
    }

    pub fn node_count(&self) -> (r: usize)
        requires
            self.wf(),
        ensures
            r == self@.nodes.len(),
    {
        self.addresses.len()
    }

    pub fn edge_count(&self) -> (r: usize)
        requires
            self.wf(),
        ensures
            r == self@.edges.len(),
    {
        self.transactions.len()
    }

    /// The address that labels node `i`.
    pub fn address(&self, i: usize) -> (r: &String)
        requires
            self.wf(),
            i < self@.nodes.len(),
        ensures
            r@ == self@.nodes[i as int],
    {
        &self.addresses[i]
    }

    /// The payload of edge `i`.
    pub fn transaction(&self, i: usize) -> (r: &Transaction)
        requires
            self.wf(),
            i < self@.edges.len(),
        ensures
            *r == self@.edges[i as int].2,
    {
        &self.transactions[i]
    }

    /// Source and target node of edge `i`.
    pub fn endpoints(&self, i: usize) -> (r: (usize, usize))
        requires
            self.wf(),
            i < self@.edges.len(),
        ensures
            r.0 == self@.edges[i as int].0,
            r.1 == self@.edges[i as int].1,
    {
        proof {
            self.lemma_links();
        }
        match shape_endpoints(&self.shape, i) {
            Some(p) => p,
            None => (0, 0),
        }
    }

    /// Whether some edge goes from node `a` to node `b`.
    pub fn has_edge(&self, a: usize, b: usize) -> (r: bool)
        requires
            self.wf(),
            a < self@.nodes.len(),
            b < self@.nodes.len(),
        ensures
            r == has_link(links_of(self@), a as nat, b as nat),
    {
        proof {
            self.lemma_links();
        }
        shape_contains_edge(&self.shape, a, b)
    }

    /// Appends a node labelled `address` and returns its index.
    pub fn add_node(&mut self, address: String) -> (r: usize)
        requires
            old(self).wf(),
            old(self)@.nodes.len() < u32::MAX,
        ensures
            final(self).wf(),
            r == old(self)@.nodes.len(),
            final(self)@.nodes == old(self)@.nodes.push(address@),
            final(self)@.edges == old(self)@.edges,
    {
        proof {
            self.lemma_links();
        }
        let r = shape_add_node(&mut self.shape);
        self.addresses.push(address);
        proof {
            assert(self@.nodes =~= old(self)@.nodes.push(address@));
            assert(self@.edges =~= old(self)@.edges);
        }
        r
    }

    /// Appends an edge from node `s` to node `t` carrying `tx`.
    pub fn add_edge(&mut self, s: usize, t: usize, tx: Transaction)
        requires
            old(self).wf(),
            s < old(self)@.nodes.len(),
            t < old(self)@.nodes.len(),
            old(self)@.edges.len() < u32::MAX,
        ensures
            final(self).wf(),
            final(self)@.nodes == old(self)@.nodes,
            final(self)@.edges == old(self)@.edges.push((s as nat, t as nat, tx)),
    {
        proof {
            self.lemma_links();
        }
        shape_add_edge(&mut self.shape, s, t);
        self.transactions.push(tx);
        proof {
            assert(self@.nodes =~= old(self)@.nodes);
            assert(self@.edges =~= old(self)@.edges.push((s as nat, t as nat, tx)));
        }
    }

    /// A graph with the same nodes and no edges.
    pub fn nodes_only(&self) -> (r: TxGraph)
        requires
            self.wf(),
        ensures
            r.wf(),
            r@.nodes == self@.nodes,
            r@.edges.len() == 0,
    {
        let mut r = TxGraph::new();
        let n = self.addresses.len();
        let mut i: usize = 0;
        while i < n
            invariant
                self.wf(),
                n == self@.nodes.len(),
                0 <= i <= n,
                r.wf(),
                r@.nodes == self@.nodes.take(i as int),
                r@.edges.len() == 0,
            decreases n - i,
        {
            let a = self.addresses[i].clone();
            r.add_node(a);
            assert(self@.nodes.take(i + 1) =~= self@.nodes.take(i as int).push(self@.nodes[i as int]));
            i = i + 1;
        }
        assert(self@.nodes.take(n as int) =~= self@.nodes);
        r
    }
}

} // verus!
