use vstd::prelude::*;
use crate::graph::{GraphView, Transaction, TxGraph, graph_valid};

verus! {

/// A graph as it is written out: node labels (index = position) and edges as
/// (source index, target index, payload).
pub struct PersistedGraph {
    pub nodes: Vec<String>,
    pub edges: Vec<(usize, usize, Transaction)>,
}

/// Why a persisted graph cannot be rebuilt.
#[derive(Clone, Copy, Debug, PartialEq, Eq)]
pub enum GraphError {
    /// More nodes or edges than 32-bit indices can address.
    TooLarge,
    /// An edge names a node index that the node list does not have.
    EndpointOutOfRange,
}

/// The graph that a persisted form describes.
pub open spec fn persisted_view(p: PersistedGraph) -> GraphView {
    GraphView {
        nodes: p.nodes@.map_values(|a: String| a@),
        edges: p.edges@.map_values(|e: (usize, usize, Transaction)| (e.0 as nat, e.1 as nat, e.2)),
    }
}

pub open spec fn fits(v: GraphView) -> bool {
    v.nodes.len() <= u32::MAX && v.edges.len() <= u32::MAX
}

/// The persisted form of `graph`.
pub fn serialize_graph(graph: &TxGraph) -> (r: PersistedGraph)
    requires
        graph.wf(),
    ensures
        persisted_view(r) == graph@,
{
    let mut nodes: Vec<String> = Vec::new();
    let nn = graph.node_count();
    let mut i: usize = 0;
    while i < nn
        invariant
            graph.wf(),
            nn == graph@.nodes.len(),
            0 <= i <= nn,
            nodes@.len() == i,
            forall|j: int| 0 <= j < i ==> (#[trigger] nodes@[j])@ == graph@.nodes[j],
        decreases nn - i,
    {
        nodes.push(graph.address(i).clone());
        i = i + 1;
    }
    let mut edges: Vec<(usize, usize, Transaction)> = Vec::new();
    let ne = graph.edge_count();
    let mut k: usize = 0;
    while k < ne
        invariant
            graph.wf(),
            ne == graph@.edges.len(),
            0 <= k <= ne,
            edges@.len() == k,
            forall|j: int|
                0 <= j < k ==> ((#[trigger] edges@[j]).0 as nat, edges@[j].1 as nat, edges@[j].2)
                    == graph@.edges[j],
        decreases ne - k,
    {
        let (s, t) = graph.endpoints(k);
        let tx = graph.transaction(k).duplicate();
        edges.push((s, t, tx));
        k = k + 1;
    }
    let r = PersistedGraph { nodes, edges };
    assert(persisted_view(r).nodes =~= graph@.nodes);
    assert(persisted_view(r).edges =~= graph@.edges);
    r
}

/// Rebuilds the graph that `p` describes.
pub fn deserialize_graph(p: &PersistedGraph) -> (r: Result<TxGraph, GraphError>)
    ensures
        !fits(persisted_view(*p)) ==> r is Err && r->Err_0 == GraphError::TooLarge,
        fits(persisted_view(*p)) && !graph_valid(persisted_view(*p)) ==> r is Err && r->Err_0
            == GraphError::EndpointOutOfRange,
        graph_valid(persisted_view(*p)) ==> r is Ok && r->Ok_0.wf() && r->Ok_0@ == persisted_view(*p),
{
    let ghost v = persisted_view(*p);
    let nn = p.nodes.len();
    let ne = p.edges.len();
    if nn > 4294967295 || ne > 4294967295 {
        return Err(GraphError::TooLarge);
    }
    let mut graph = TxGraph::new();
    let mut i: usize = 0;
    while i < nn
        invariant
            v == persisted_view(*p),
            nn == v.nodes.len(),
            nn <= u32::MAX,
            0 <= i <= nn,
            graph.wf(),
            graph@.edges.len() == 0,
            graph@.nodes == v.nodes.take(i as int),
        decreases nn - i,
    {
        graph.add_node(p.nodes[i].clone());
        assert(graph@.nodes =~= v.nodes.take(i + 1));
        i = i + 1;
    }
    assert(v.nodes.take(nn as int) =~= v.nodes);
    let mut k: usize = 0;
    assert(v.edges.take(0) =~= Seq::<(nat, nat, Transaction)>::empty());
    while k < ne
        invariant
            v == persisted_view(*p),
            ne == v.edges.len(),
            ne <= u32::MAX,
            nn == v.nodes.len(),
            0 <= k <= ne,
            graph.wf(),
            graph@.nodes == v.nodes,
            graph@.edges == v.edges.take(k as int),
            forall|j: int| 0 <= j < k ==> (#[trigger] v.edges[j]).0 < nn && v.edges[j].1 < nn,
        decreases ne - k,
    {
        let s = p.edges[k].0;
        let t = p.edges[k].1;
        if s >= nn || t >= nn {
            assert(!graph_valid(v) && fits(v)) by {
                assert(v.edges[k as int].0 == s && v.edges[k as int].1 == t);
            }
            return Err(GraphError::EndpointOutOfRange);
        }
        graph.add_edge(s, t, p.edges[k].2.duplicate());
        assert(graph@.edges =~= v.edges.take(k + 1));
        k = k + 1;
    }
    assert(v.edges.take(ne as int) =~= v.edges);
    Ok(graph)
}

/// Persisting a valid graph and rebuilding it gives the same graph back: the
/// persisted form passes every check of the rebuild and describes the same
/// node labels and the same edges with the same payloads.
pub proof fn lemma_round_trip(g: TxGraph, p: PersistedGraph)
    requires
        g.wf(),
        persisted_view(p) == g@,
    ensures
        fits(persisted_view(p)),
        graph_valid(persisted_view(p)),
        persisted_view(p).nodes == g@.nodes,
        persisted_view(p).edges.len() == g@.edges.len(),
        forall|i: int| 0 <= i < g@.edges.len() ==> #[trigger] persisted_view(p).edges[i] == g@.edges[i],
{
}

} // verus!
