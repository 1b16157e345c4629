use vstd::prelude::*;
use crate::graph::{GraphView, Transaction, TxGraph, graph_valid};

verus! {

/// The largest edge budget a session takes, so that node and edge indices
/// stay within 32 bits (a session has at most two nodes per edge).
pub const MAX_EDGE_BUDGET: usize = 1_000_000_000;

/// What `str::to_lowercase` makes of a string.
pub uninterp spec fn lower_of(s: Seq<char>) -> Seq<char>;

/// Relies on `str::to_lowercase`: the result depends on the characters alone.
#[verifier::external_body]
fn lowercase(s: &str) -> (r: String)
    ensures
        r@ == lower_of(s@),
{
    s.to_lowercase()
}

/// A transaction as the ledger index reports it, reduced to what the crawl reads.
pub struct ObservedTransaction {
    pub hash: String,
    pub from: String,
    pub to: String,
    pub value: u128,
    pub timestamp: u64,
    pub is_error: bool,
    pub contract_address: String,
}

/// The state of one crawl: the graph built so far, the relevance score of
/// each address seen (in order of first sight), the addresses already
/// queried, and the edge budget.
pub struct SessionView {
    pub graph: GraphView,
    pub relevance: Seq<(Seq<char>, u64)>,
    pub trajectory: Seq<Seq<char>>,
    pub max_edges: nat,
}

/// A plain transfer that succeeded: no contract creation, no error, not a
/// genesis allocation.
pub open spec fn admissible(tx: ObservedTransaction) -> bool {
    &&& tx.contract_address@.len() == 0
    &&& !tx.is_error
    &&& tx.from@ != "GENESIS"@
}

pub open spec fn known_hash(g: GraphView, h: Seq<char>) -> bool {
    exists|i: int| 0 <= i < g.edges.len() && (#[trigger] g.edges[i]).2.hash@ == h
}

/// `tx` becomes a new edge of the session's graph.
pub open spec fn accepts(s: SessionView, tx: ObservedTransaction) -> bool {
    &&& admissible(tx)
    &&& !known_hash(s.graph, tx.hash@)
    &&& s.graph.edges.len() < s.max_edges
}

pub open spec fn with_label(nodes: Seq<Seq<char>>, a: Seq<char>) -> Seq<Seq<char>> {
    if nodes.contains(a) {
        nodes
    } else {
        nodes.push(a)
    }
}

pub open spec fn label_index(nodes: Seq<Seq<char>>, a: Seq<char>) -> nat {
    if nodes.contains(a) {
        (choose|i: int| 0 <= i < nodes.len() && nodes[i] == a) as nat
    } else {
        nodes.len()
    }
}

pub open spec fn has_key(rel: Seq<(Seq<char>, u64)>, a: Seq<char>) -> bool {
    exists|i: int| 0 <= i < rel.len() && (#[trigger] rel[i]).0 == a
}

/// The relevance scores after one more touch of `a`.
pub open spec fn bumped(rel: Seq<(Seq<char>, u64)>, a: Seq<char>) -> Seq<(Seq<char>, u64)> {
    if has_key(rel, a) {
        let i = choose|i: int| 0 <= i < rel.len() && rel[i].0 == a;
        rel.update(i, (a, (rel[i].1 + 1) as u64))
    } else {
        rel.push((a, 1u64))
    }
}

/// The session after it has seen `tx`.
pub open spec fn after(s: SessionView, tx: ObservedTransaction) -> SessionView {
    if accepts(s, tx) {
        let nodes = with_label(with_label(s.graph.nodes, tx.from@), tx.to@);
        let payload = Transaction { hash: tx.hash, value: tx.value, timestamp: tx.timestamp };
        SessionView {
            graph: GraphView {
                nodes,
                edges: s.graph.edges.push(
                    (label_index(nodes, tx.from@), label_index(nodes, tx.to@), payload),
                ),
            },
            relevance: bumped(bumped(s.relevance, tx.to@), tx.from@),
            trajectory: s.trajectory,
            max_edges: s.max_edges,
        }
    } else {
        s
    }
}

/// The session after it has seen `txs`, in order.
pub open spec fn absorbed(s: SessionView, txs: Seq<ObservedTransaction>) -> SessionView
    decreases txs.len(),
{
    if txs.len() == 0 {
        s
    } else {
        after(absorbed(s, txs.drop_last()), txs.last())
    }
}

pub open spec fn distinct_labels(s: Seq<Seq<char>>) -> bool {
    forall|i: int, j: int| 0 <= i < j < s.len() ==> #[trigger] s[i] != #[trigger] s[j]
}

pub open spec fn distinct_keys(rel: Seq<(Seq<char>, u64)>) -> bool {
    forall|i: int, j: int| 0 <= i < j < rel.len() ==> (#[trigger] rel[i]).0 != (#[trigger] rel[j]).0
}

/// No transaction hash labels two edges.
pub open spec fn distinct_hashes(edges: Seq<(nat, nat, Transaction)>) -> bool {
    forall|i: int, j: int| 0 <= i < j < edges.len() ==> (#[trigger] edges[i]).2.hash@ != (#[trigger] edges[j]).2.hash@
}

/// What holds of every state of a crawl: one node per address, one edge
/// per transaction hash, the edge budget kept, one score per address.
pub open spec fn session_valid(s: SessionView) -> bool {
    &&& graph_valid(s.graph)
    &&& distinct_labels(s.graph.nodes)
    &&& distinct_hashes(s.graph.edges)
    &&& s.graph.edges.len() <= s.max_edges
    &&& s.max_edges <= MAX_EDGE_BUDGET
    &&& s.graph.nodes.len() <= 2 * s.graph.edges.len()
    &&& distinct_keys(s.relevance)
    &&& forall|i: int| 0 <= i < s.relevance.len() ==> (#[trigger] s.relevance[i]).1 <= 2 * s.graph.edges.len() + 1
}

/// Some scored address has not been queried yet.
pub open spec fn has_unvisited(s: SessionView) -> bool {
    exists|i: int| 0 <= i < s.relevance.len() && !s.trajectory.contains((#[trigger] s.relevance[i]).0)
}

/// Entry `i` is the unqueried address of highest score, the first such one
/// among equal scores.
pub open spec fn is_best(s: SessionView, i: int) -> bool {
    &&& 0 <= i < s.relevance.len()
    &&& !s.trajectory.contains(s.relevance[i].0)
    &&& forall|j: int|
        0 <= j < s.relevance.len() && !s.trajectory.contains((#[trigger] s.relevance[j]).0)
            ==> s.relevance[j].1 <= s.relevance[i].1
    &&& forall|j: int|
        0 <= j < i && !s.trajectory.contains((#[trigger] s.relevance[j]).0) ==> s.relevance[j].1
            < s.relevance[i].1
}

proof fn lemma_label_index(s: Seq<Seq<char>>, a: Seq<char>, i: int)
    requires
        distinct_labels(s),
        0 <= i < s.len(),
        s[i] == a,
    ensures
        label_index(s, a) == i,
{
    assert(s.contains(a));
    let j = choose|j: int| 0 <= j < s.len() && s[j] == a;
    if j < i {
        assert(s[j] != s[i]);
    } else if j > i {
        assert(s[i] != s[j]);
    }
}

/// One crawl: graph, relevance scores, queried addresses and edge budget.
pub struct CrawlSession {
    graph: TxGraph,
    relevance: Vec<(String, u64)>,
    trajectory: Vec<String>,
    max_edges: usize,
}

impl View for CrawlSession {
    type V = SessionView;

    closed spec fn view(&self) -> SessionView {
        SessionView {
            graph: self.graph@,
            relevance: self.relevance@.map_values(|p: (String, u64)| (p.0@, p.1)),
            trajectory: self.trajectory@.map_values(|a: String| a@),
            max_edges: self.max_edges as nat,
        }
    }
}

impl CrawlSession {
    pub closed spec fn graph_ok(&self) -> bool {
        self.graph.wf()
    }

    pub open spec fn wf(&self) -> bool {
        self.graph_ok() && session_valid(self@)
    }

    /// In every well-formed session, hence after every step of a crawl, no
    /// transaction hash labels more than one edge and the edge count stays
    /// within the budget.
    pub proof fn lemma_dedup_and_budget(&self)
        requires
            self.wf(),
        ensures
            forall|i: int, j: int|
                0 <= i < j < self@.graph.edges.len() ==> (#[trigger] self@.graph.edges[i]).2.hash@
                    != (#[trigger] self@.graph.edges[j]).2.hash@,
            self@.graph.edges.len() <= self@.max_edges,
    {
    }

    /// A session rooted at `seed` (case-folded), whose only scored address
    /// is the seed with score 1.
    pub fn new(seed: &str, max_edges: usize) -> (r: CrawlSession)
        requires
            max_edges <= MAX_EDGE_BUDGET,
        ensures
            r.wf(),
            r@.graph.nodes.len() == 0,
            r@.graph.edges.len() == 0,
            r@.relevance == seq![(lower_of(seed@), 1u64)],
            r@.trajectory.len() == 0,
            r@.max_edges == max_edges,
    {
        let mut relevance: Vec<(String, u64)> = Vec::new();
        relevance.push((lowercase(seed), 1));
        let r = CrawlSession { graph: TxGraph::new(), relevance, trajectory: Vec::new(), max_edges };
        assert(r@.relevance =~= seq![(lower_of(seed@), 1u64)]);
        assert(r@.trajectory =~= Seq::<Seq<char>>::empty());
        r
    }

    /// The graph built so far.
    pub fn graph(&self) -> (r: &TxGraph)
        requires
            self.wf(),
        ensures
            r.wf(),
            r@ == self@.graph,
    {
        &self.graph
    }

    /// Ends the session, handing over its graph.
    pub fn into_graph(self) -> (r: TxGraph)
        requires
            self.wf(),
        ensures
            r.wf(),
            r@ == self@.graph,
    {
        self.graph
    }

    /// Each address seen so far with its score, in order of first sight.
    pub fn relevance(&self) -> (r: &Vec<(String, u64)>)
        ensures
            r@.len() == self@.relevance.len(),
            forall|i: int| 0 <= i < r@.len() ==> (#[trigger] r@[i]).0@ == self@.relevance[i].0 && r@[i].1 == self@.relevance[i].1,
    {
        &self.relevance
    }

    /// The addresses queried so far, in order.
    pub fn trajectory(&self) -> (r: &Vec<String>)
        ensures
            r@.len() == self@.trajectory.len(),
            forall|i: int| 0 <= i < r@.len() ==> (#[trigger] r@[i])@ == self@.trajectory[i],
    {
        &self.trajectory
    }

    fn visited(&self, a: &String) -> (r: bool)
        ensures
            r == self@.trajectory.contains(a@),
    {
        let n = self.trajectory.len();
        let mut i: usize = 0;
        while i < n
            invariant
                n == self.trajectory@.len(),
                0 <= i <= n,
                forall|j: int| 0 <= j < i ==> self@.trajectory[j] != a@,
            decreases n - i,
        {
            if self.trajectory[i] == *a {
                assert(self@.trajectory[i as int] == a@);
                return true;
            }
            i = i + 1;
        }
        false
    }

    /// Chooses the next address to query and records it as queried: the
    /// unqueried address of highest score (the first seen among equal
    /// scores). `None` once the edge budget is spent or every scored address
    /// has been queried.
    pub fn next_address(&mut self) -> (r: Option<String>)
        requires
            old(self).wf(),
        ensures
            final(self).wf(),
            final(self)@.graph == old(self)@.graph,
            final(self)@.relevance == old(self)@.relevance,
            final(self)@.max_edges == old(self)@.max_edges,
            r is None <==> (old(self)@.graph.edges.len() >= old(self)@.max_edges || !has_unvisited(old(self)@)),
            r is None ==> final(self)@.trajectory == old(self)@.trajectory,
            r is Some ==> exists|i: int| #[trigger] is_best(old(self)@, i)
                && r->Some_0@ == old(self)@.relevance[i].0
                && final(self)@.trajectory == old(self)@.trajectory.push(r->Some_0@),
    {
        if self.graph.edge_count() >= self.max_edges {
            return None;
        }
        let ghost s = self@;
        let n = self.relevance.len();
        let mut best: Option<usize> = None;
        let mut k: usize = 0;
        while k < n
            invariant
                self@ == s,
                n == s.relevance.len(),
                0 <= k <= n,
                best is None ==> forall|j: int| 0 <= j < k ==> s.trajectory.contains((#[trigger] s.relevance[j]).0),
                best is Some ==> {
                    let b = best->Some_0 as int;
                    &&& 0 <= b < k
                    &&& !s.trajectory.contains(s.relevance[b].0)
                    &&& forall|j: int|
                        0 <= j < k && !s.trajectory.contains((#[trigger] s.relevance[j]).0)
                            ==> s.relevance[j].1 <= s.relevance[b].1
                    &&& forall|j: int|
                        0 <= j < b && !s.trajectory.contains((#[trigger] s.relevance[j]).0)
                            ==> s.relevance[j].1 < s.relevance[b].1
                },
            decreases n - k,
        {
            let seen = self.visited(&self.relevance[k].0);
            if !seen {
                let score = self.relevance[k].1;
                match best {
                    None => {
                        best = Some(k);
                    },
                    Some(b) => {
                        if score > self.relevance[b].1 {
                            best = Some(k);
                        }
                    },
                }
            }
            k = k + 1;
        }
        match best {
            None => None,
            Some(b) => {
                let a = self.relevance[b].0.clone();
                self.trajectory.push(a.clone());
                proof {
                    assert(is_best(s, b as int));
                    assert(self@.trajectory =~= s.trajectory.push(a@));
                }
                Some(a)
            },
        }
    }

    fn knows_hash(&self, h: &String) -> (r: bool)
        requires
            self.wf(),
        ensures
            r == known_hash(self@.graph, h@),
    {
        let n = self.graph.edge_count();
        let mut i: usize = 0;
        while i < n
            invariant
                self.wf(),
                n == self@.graph.edges.len(),
                0 <= i <= n,
                forall|j: int| 0 <= j < i ==> (#[trigger] self@.graph.edges[j]).2.hash@ != h@,
            decreases n - i,
        {
            if self.graph.transaction(i).hash == *h {
                assert(self@.graph.edges[i as int].2.hash@ == h@);
                return true;
            }
            i = i + 1;
        }
        false
    }

    /// The node labelled `a`, added first where there is none.
    fn node_for(&mut self, a: &String) -> (r: usize)
        requires
            old(self).graph.wf(),
            distinct_labels(old(self)@.graph.nodes),
            old(self)@.graph.nodes.len() < u32::MAX,
        ensures
            final(self).graph.wf(),
            final(self)@.graph.nodes == with_label(old(self)@.graph.nodes, a@),
            final(self)@.graph.edges == old(self)@.graph.edges,
            distinct_labels(final(self)@.graph.nodes),
            r < final(self)@.graph.nodes.len(),
            final(self)@.graph.nodes[r as int] == a@,
            final(self)@.relevance == old(self)@.relevance,
            final(self)@.trajectory == old(self)@.trajectory,
            final(self)@.max_edges == old(self)@.max_edges,
    {
        let n = self.graph.node_count();
        let mut i: usize = 0;
        while i < n
            invariant
                self@ == old(self)@,
                self.graph.wf(),
                distinct_labels(self@.graph.nodes),
                n == self@.graph.nodes.len(),
                0 <= i <= n,
                forall|j: int| 0 <= j < i ==> self@.graph.nodes[j] != a@,
            decreases n - i,
        {
            if *self.graph.address(i) == *a {
                assert(self@.graph.nodes.contains(a@));
                return i;
            }
            i = i + 1;
        }
        assert(!self@.graph.nodes.contains(a@));
        let ghost before = self@;
        let r = self.graph.add_node(a.clone());
        proof {
            assert(self@.relevance == before.relevance);
            assert(self@.trajectory == before.trajectory);
        }
        r
    }

    /// One more touch of `a` in the relevance scores.
    fn bump(&mut self, a: &String)
        requires
            distinct_keys(old(self)@.relevance),
            forall|i: int| 0 <= i < old(self)@.relevance.len() ==> (#[trigger] old(self)@.relevance[i]).1 < u64::MAX,
        ensures
            final(self)@.relevance == bumped(old(self)@.relevance, a@),
            distinct_keys(final(self)@.relevance),
            final(self).graph == old(self).graph,
            final(self)@.trajectory == old(self)@.trajectory,
            final(self)@.max_edges == old(self)@.max_edges,
    {
        let ghost rel = self@.relevance;
        let n = self.relevance.len();
        let mut i: usize = 0;
        while i < n
            invariant
                self@ == old(self)@,
                self.graph == old(self).graph,
                rel == self@.relevance,
                distinct_keys(rel),
                forall|j: int| 0 <= j < rel.len() ==> (#[trigger] rel[j]).1 < u64::MAX,
                n == rel.len(),
                0 <= i <= n,
                forall|j: int| 0 <= j < i ==> (#[trigger] rel[j]).0 != a@,
            decreases n - i,
        {
            if self.relevance[i].0 == *a {
                let v = self.relevance[i].1;
                assert(rel[i as int].0 == a@);
                assert(rel[i as int].1 == v);
                assert(has_key(rel, a@));
                proof {
                    let c = choose|c: int| 0 <= c < rel.len() && rel[c].0 == a@;
                    if c < i {
                        assert(rel[c].0 != a@);
                    } else if c > i {
                        assert(rel[i as int].0 != rel[c].0);
                    }
                }
                self.relevance.set(i, (a.clone(), v + 1));
                assert(self@.relevance =~= bumped(rel, a@));
                return;
            }
            i = i + 1;
        }
        assert(!has_key(rel, a@));
        self.relevance.push((a.clone(), 1));
        assert(self@.relevance =~= bumped(rel, a@));
    }

    /// Takes in one observed transaction: where it is admissible, new and
    /// within the budget it becomes an edge between the nodes of its
    /// endpoints (added where new), and each endpoint's score rises by one.
    pub fn absorb_transaction(&mut self, tx: &ObservedTransaction)
        requires
            old(self).wf(),
        ensures
            final(self).wf(),
            final(self)@ == after(old(self)@, *tx),
    {
        let ghost s = self@;
        if self.graph.edge_count() >= self.max_edges {
            return;
        }
        let genesis = "GENESIS".to_owned();
        if !tx.contract_address.as_str().is_empty() || tx.is_error || tx.from == genesis {
            return;
        }
        if self.knows_hash(&tx.hash) {
            return;
        }
        assert(accepts(s, *tx));
        let src = self.node_for(&tx.from);
        let ghost n1 = self@.graph.nodes;
        let dst = self.node_for(&tx.to);
        let ghost nodes = self@.graph.nodes;
        assert(nodes[src as int] == tx.from@);
        proof {
            lemma_label_index(nodes, tx.from@, src as int);
            lemma_label_index(nodes, tx.to@, dst as int);
        }
        let payload = Transaction { hash: tx.hash.clone(), value: tx.value, timestamp: tx.timestamp };
        self.graph.add_edge(src, dst, payload);
        let ghost e = self@.graph.edges;
        proof {
            assert forall|i: int, j: int| 0 <= i < j < e.len() implies (#[trigger] e[i]).2.hash@ != (#[trigger] e[j]).2.hash@ by {
                if j == e.len() - 1 {
                    assert(s.graph.edges[i] == e[i]);
                }
            }
        }
        self.bump(&tx.to);
        self.bump(&tx.from);
        proof {
            let r = self@.relevance;
            let r1 = bumped(s.relevance, tx.to@);
            assert forall|i: int| 0 <= i < r1.len() implies (#[trigger] r1[i]).1 <= 2 * s.graph.edges.len() + 2 by {
                if i < s.relevance.len() {
                    assert(s.relevance[i].1 <= 2 * s.graph.edges.len() + 1);
                }
            }
            assert forall|i: int| 0 <= i < r.len() implies (#[trigger] r[i]).1 <= 2 * e.len() + 1 by {
                if i < r1.len() {
                    assert(r1[i].1 <= 2 * s.graph.edges.len() + 2);
                }
            }
        }
    }

    /// Takes in a batch of observed transactions, one after another.
    pub fn absorb(&mut self, batch: &Vec<ObservedTransaction>)
        requires
            old(self).wf(),
        ensures
            final(self).wf(),
            final(self)@ == absorbed(old(self)@, batch@),
    {
        let n = batch.len();
        let mut i: usize = 0;
        assert(batch@.take(0) =~= Seq::<ObservedTransaction>::empty());
        while i < n
            invariant
                self.wf(),
                n == batch@.len(),
                0 <= i <= n,
                self@ == absorbed(old(self)@, batch@.take(i as int)),
            decreases n - i,
        {
            self.absorb_transaction(&batch[i]);
            assert(batch@.take(i + 1).drop_last() =~= batch@.take(i as int));
            i = i + 1;
        }
        assert(batch@.take(n as int) =~= batch@);
    }
}

} // verus!
