use vstd::prelude::*;
use crate::graph::{GraphView, Transaction, TxGraph, graph_valid, has_link, links_of};
use crate::price::{PriceRecord, get_price_at_timestamp, price_at};

verus! {

/// An edge of a [`GraphView`]: source index, target index, payload.
pub type EdgeOf = (nat, nat, Transaction);

/// Why a USD figure could not be computed.
#[derive(Clone, Copy, Debug, PartialEq, Eq)]
pub enum FlowError {
    /// Some transaction lies before the price series, which then gives no price.
    MissingPrice,
    /// A figure does not fit in 128 bits.
    Overflow,
}

/// USD value of a transaction, in units of 10^-24 USD: its wei times the
/// micro-USD price of one ether at its timestamp (zero where no price exists).
pub open spec fn usd_of(tx: Transaction, prices: Seq<PriceRecord>) -> int {
    match price_at(prices, tx.timestamp) {
        Some(p) => tx.value * p,
        None => 0,
    }
}

/// Every edge has a price at its timestamp.
pub open spec fn priced(edges: Seq<EdgeOf>, prices: Seq<PriceRecord>) -> bool {
    forall|i: int| 0 <= i < edges.len() ==> (#[trigger] price_at(prices, edges[i].2.timestamp)).is_some()
}

/// Sum of the USD values of `edges`.
pub open spec fn total_usd(edges: Seq<EdgeOf>, prices: Seq<PriceRecord>) -> int
    decreases edges.len(),
{
    if edges.len() == 0 {
        0
    } else {
        total_usd(edges.drop_last(), prices) + usd_of(edges.last().2, prices)
    }
}

/// The edges whose USD value lies in `[lower, upper]`, in their order.
pub open spec fn in_range(edges: Seq<EdgeOf>, prices: Seq<PriceRecord>, lower: int, upper: int) -> Seq<EdgeOf>
    decreases edges.len(),
{
    if edges.len() == 0 {
        Seq::empty()
    } else {
        let rest = in_range(edges.drop_last(), prices, lower, upper);
        let v = usd_of(edges.last().2, prices);
        if lower <= v && v <= upper {
            rest.push(edges.last())
        } else {
            rest
        }
    }
}

/// The edges `a -> b` for which `links` holds some `b -> a`, in their order.
pub open spec fn two_way_edges(edges: Seq<EdgeOf>, links: Seq<(nat, nat)>) -> Seq<EdgeOf>
    decreases edges.len(),
{
    if edges.len() == 0 {
        Seq::empty()
    } else {
        let rest = two_way_edges(edges.drop_last(), links);
        if has_link(links, edges.last().1, edges.last().0) {
            rest.push(edges.last())
        } else {
            rest
        }
    }
}

/// USD value of all edges from `a` to `b`.
pub open spec fn dir_sum(edges: Seq<EdgeOf>, prices: Seq<PriceRecord>, a: nat, b: nat) -> int
    decreases edges.len(),
{
    if edges.len() == 0 {
        0
    } else {
        dir_sum(edges.drop_last(), prices, a, b) + if edges.last().0 == a && edges.last().1 == b {
            usd_of(edges.last().2, prices)
        } else {
            0
        }
    }
}

/// Indices of the edges from `a` to `b`, increasing.
pub open spec fn link_indices(edges: Seq<EdgeOf>, a: nat, b: nat) -> Seq<usize>
    decreases edges.len(),
{
    if edges.len() == 0 {
        Seq::empty()
    } else {
        let rest = link_indices(edges.drop_last(), a, b);
        if edges.last().0 == a && edges.last().1 == b {
            rest.push((edges.len() - 1) as usize)
        } else {
            rest
        }
    }
}

/// Net directional imbalance between `a` and `b`; zero for a self pair.
pub open spec fn pair_flow(edges: Seq<EdgeOf>, prices: Seq<PriceRecord>, a: nat, b: nat) -> int {
    if a == b {
        0
    } else {
        let d = dir_sum(edges, prices, a, b) - dir_sum(edges, prices, b, a);
        if d >= 0 {
            d
        } else {
            -d
        }
    }
}

/// Both edges join the same unordered pair of nodes.
pub open spec fn same_pair(e: EdgeOf, f: EdgeOf) -> bool {
    (e.0 == f.0 && e.1 == f.1) || (e.0 == f.1 && e.1 == f.0)
}

/// Edge `i` is the first edge of its unordered pair.
pub open spec fn opens_pair(edges: Seq<EdgeOf>, i: int) -> bool {
    forall|j: int| 0 <= j < i ==> !same_pair(#[trigger] edges[j], edges[i])
}

/// Sum of the pair flows of the pairs opened among the first `n` edges.
pub open spec fn flow_upto(edges: Seq<EdgeOf>, prices: Seq<PriceRecord>, n: int) -> int
    decreases n,
{
    if n <= 0 {
        0
    } else {
        flow_upto(edges, prices, n - 1) + if opens_pair(edges, n - 1) {
            pair_flow(edges, prices, edges[n - 1].0, edges[n - 1].1)
        } else {
            0
        }
    }
}

/// The indices of the edges that open a pair, among the first `n`, increasing.
pub open spec fn pair_openers(edges: Seq<EdgeOf>, n: int) -> Seq<int>
    decreases n,
{
    if n <= 0 {
        Seq::empty()
    } else if opens_pair(edges, n - 1) {
        pair_openers(edges, n - 1).push(n - 1)
    } else {
        pair_openers(edges, n - 1)
    }
}

proof fn lemma_usd_nonneg(tx: Transaction, prices: Seq<PriceRecord>)
    ensures
        usd_of(tx, prices) >= 0,
{
    match price_at(prices, tx.timestamp) {
        Some(p) => {
            assert(tx.value * p >= 0) by (nonlinear_arith)
                requires
                    tx.value >= 0,
                    p >= 0,
            ;
        },
        None => {},
    }
}

proof fn lemma_total_nonneg(edges: Seq<EdgeOf>, prices: Seq<PriceRecord>)
    ensures
        total_usd(edges, prices) >= 0,
    decreases edges.len(),
{
    if edges.len() > 0 {
        lemma_total_nonneg(edges.drop_last(), prices);
        lemma_usd_nonneg(edges.last().2, prices);
    }
}

proof fn lemma_total_prefix(edges: Seq<EdgeOf>, prices: Seq<PriceRecord>, i: int)
    requires
        0 <= i <= edges.len(),
    ensures
        total_usd(edges.take(i), prices) <= total_usd(edges, prices),
    decreases edges.len(),
{
    if i == edges.len() {
        assert(edges.take(i) =~= edges);
    } else {
        lemma_total_prefix(edges.drop_last(), prices, i);
        assert(edges.drop_last().take(i) =~= edges.take(i));
        lemma_usd_nonneg(edges.last().2, prices);
    }
}

proof fn lemma_dir_within_total(edges: Seq<EdgeOf>, prices: Seq<PriceRecord>, a: nat, b: nat)
    ensures
        0 <= dir_sum(edges, prices, a, b),
        dir_sum(edges, prices, a, b) + (if a != b {
            dir_sum(edges, prices, b, a)
        } else {
            0
        }) <= total_usd(edges, prices),
    decreases edges.len(),
{
    if edges.len() > 0 {
        lemma_dir_within_total(edges.drop_last(), prices, a, b);
        lemma_dir_within_total(edges.drop_last(), prices, b, a);
        lemma_usd_nonneg(edges.last().2, prices);
    }
}

proof fn lemma_flow_prefix(edges: Seq<EdgeOf>, prices: Seq<PriceRecord>, m: int, n: int)
    requires
        0 <= m <= n,
    ensures
        0 <= flow_upto(edges, prices, m) <= flow_upto(edges, prices, n),
    decreases n,
{
    if n > m {
        lemma_flow_prefix(edges, prices, m, n - 1);
    } else if n > 0 {
        lemma_flow_prefix(edges, prices, n - 1, n - 1);
    }
}

/// USD value of one transaction (see [`usd_of`]), or why it has none.
pub fn transaction_usd_value(tx: &Transaction, prices: &Vec<PriceRecord>) -> (r: Result<u128, FlowError>)
    ensures
        price_at(prices@, tx.timestamp).is_none() ==> r == Err::<u128, FlowError>(FlowError::MissingPrice),
        price_at(prices@, tx.timestamp).is_some() && usd_of(*tx, prices@) <= u128::MAX ==> r == Ok::<u128, FlowError>(usd_of(*tx, prices@) as u128),
        price_at(prices@, tx.timestamp).is_some() && usd_of(*tx, prices@) > u128::MAX ==> r == Err::<u128, FlowError>(FlowError::Overflow),
{
    match get_price_at_timestamp(tx.timestamp, prices) {
        None => Err(FlowError::MissingPrice),
        Some(p) => match tx.value.checked_mul(p as u128) {
            Some(v) => Ok(v),
            None => Err(FlowError::Overflow),
        },
    }
}

/// Total USD value of the graph's edges and their mean (none for a graph
/// without edges; the mean rounds down).
pub fn calculate_total_usd_volume(graph: &TxGraph, prices: &Vec<PriceRecord>) -> (r: Result<(u128, Option<u128>), FlowError>)
    requires
        graph.wf(),
    ensures
        !priced(graph@.edges, prices@) ==> r == Err::<(u128, Option<u128>), FlowError>(FlowError::MissingPrice),
        priced(graph@.edges, prices@) && total_usd(graph@.edges, prices@) > u128::MAX ==> r == Err::<(u128, Option<u128>), FlowError>(FlowError::Overflow),
        priced(graph@.edges, prices@) && total_usd(graph@.edges, prices@) <= u128::MAX ==> r is Ok
            && r->Ok_0.0 == total_usd(graph@.edges, prices@)
            && r->Ok_0.1 == (if graph@.edges.len() == 0 {
                None
            } else {
                Some((total_usd(graph@.edges, prices@) / graph@.edges.len() as int) as u128)
            }),
{
    let n = graph.edge_count();
    let ghost edges = graph@.edges;
    let mut sum: u128 = 0;
    let mut over = false;
    let mut i: usize = 0;
    assert(edges.take(0) =~= Seq::<EdgeOf>::empty());
    while i < n
        invariant
            graph.wf(),
            edges == graph@.edges,
            n == edges.len(),
            0 <= i <= n,
            forall|j: int| 0 <= j < i ==> (#[trigger] price_at(prices@, edges[j].2.timestamp)).is_some(),
            !over ==> sum == total_usd(edges.take(i as int), prices@),
            over ==> total_usd(edges.take(i as int), prices@) > u128::MAX,
        decreases n - i,
    {
        let tx = graph.transaction(i);
        let v = transaction_usd_value(tx, prices);
        assert(edges.take(i + 1).drop_last() =~= edges.take(i as int));
        proof {
            lemma_total_nonneg(edges.take(i as int), prices@);
        }
        match v {
            Err(FlowError::MissingPrice) => {
                return Err(FlowError::MissingPrice);
            },
            Err(FlowError::Overflow) => {
                over = true;
            },
            Ok(x) => {
                if !over {
                    match sum.checked_add(x) {
                        Some(s) => {
                            sum = s;
                        },
                        None => {
                            over = true;
                        },
                    }
                }
            },
        }
        i = i + 1;
    }
    assert(edges.take(n as int) =~= edges);
    if over {
        Err(FlowError::Overflow)
    } else if n == 0 {
        Ok((sum, None))
    } else {
        Ok((sum, Some(sum / (n as u128))))
    }
}

/// A graph with the same nodes and exactly the edges whose USD value lies in
/// `[lower_usd_bound, higher_usd_bound]` (units of 10^-24 USD).
pub fn filter_by_transaction_price(
    graph: &TxGraph,
    prices: &Vec<PriceRecord>,
    lower_usd_bound: u128,
    higher_usd_bound: u128,
) -> (r: Result<TxGraph, FlowError>)
    requires
        graph.wf(),
    ensures
        !priced(graph@.edges, prices@) ==> r is Err && r->Err_0 == FlowError::MissingPrice,
        priced(graph@.edges, prices@) ==> r is Ok && r->Ok_0.wf() && r->Ok_0@.nodes == graph@.nodes
            && r->Ok_0@.edges == in_range(
            graph@.edges,
            prices@,
            lower_usd_bound as int,
            higher_usd_bound as int,
        ),
{
    let n = graph.edge_count();
    let ghost edges = graph@.edges;
    let mut filtered = graph.nodes_only();
    let mut i: usize = 0;
    assert(edges.take(0) =~= Seq::<EdgeOf>::empty());
    while i < n
        invariant
            graph.wf(),
            edges == graph@.edges,
            n == edges.len(),
            0 <= i <= n,
            forall|j: int| 0 <= j < i ==> (#[trigger] price_at(prices@, edges[j].2.timestamp)).is_some(),
            filtered.wf(),
            filtered@.nodes == graph@.nodes,
            filtered@.edges.len() <= i,
            filtered@.edges == in_range(edges.take(i as int), prices@, lower_usd_bound as int, higher_usd_bound as int),
        decreases n - i,
    {
        let tx = graph.transaction(i);
        let v = transaction_usd_value(tx, prices);
        assert(edges.take(i + 1).drop_last() =~= edges.take(i as int));
        match v {
            Err(FlowError::MissingPrice) => {
                return Err(FlowError::MissingPrice);
            },
            Err(FlowError::Overflow) => {},
            Ok(x) => {
                if lower_usd_bound <= x && x <= higher_usd_bound {
                    let (s, t) = graph.endpoints(i);
                    assert(edges[i as int].0 < graph@.nodes.len());
                    let copy = tx.duplicate();
                    filtered.add_edge(s, t, copy);
                }
            },
        }
        i = i + 1;
    }
    assert(edges.take(n as int) =~= edges);
    Ok(filtered)
}

/// A graph with the same nodes and exactly the edges `a -> b` for which the
/// graph has some edge `b -> a`.
pub fn filter_twoway_edges(graph: &TxGraph) -> (r: TxGraph)
    requires
        graph.wf(),
    ensures
        r.wf(),
        r@.nodes == graph@.nodes,
        r@.edges == two_way_edges(graph@.edges, links_of(graph@)),
{
    let n = graph.edge_count();
    let ghost edges = graph@.edges;
    let mut filtered = graph.nodes_only();
    let mut i: usize = 0;
    assert(edges.take(0) =~= Seq::<EdgeOf>::empty());
    while i < n
        invariant
            graph.wf(),
            edges == graph@.edges,
            n == edges.len(),
            0 <= i <= n,
            filtered.wf(),
            filtered@.nodes == graph@.nodes,
            filtered@.edges.len() <= i,
            filtered@.edges == two_way_edges(edges.take(i as int), links_of(graph@)),
        decreases n - i,
    {
        let (s, t) = graph.endpoints(i);
        assert(edges[i as int].0 < graph@.nodes.len());
        assert(edges.take(i + 1).drop_last() =~= edges.take(i as int));
        if graph.has_edge(t, s) {
            let copy = graph.transaction(i).duplicate();
            filtered.add_edge(s, t, copy);
        }
        i = i + 1;
    }
    assert(edges.take(n as int) =~= edges);
    filtered
}

/// One unordered pair of nodes of a graph, with its edges in each direction.
pub struct PairReport {
    pub a: usize,
    pub b: usize,
    /// Indices of the edges `a -> b`.
    pub forward: Vec<usize>,
    /// Indices of the edges `b -> a` (none for a self pair).
    pub backward: Vec<usize>,
    pub forward_usd: u128,
    pub backward_usd: u128,
    pub volume: u128,
    pub flow: u128,
}

/// Volume and flow figures of a graph, with one entry per unordered pair in
/// the order in which the pairs first occur among the edges.
pub struct FlowReport {
    pub total_volume: u128,
    pub mean_value: Option<u128>,
    pub total_flow: u128,
    pub pairs: Vec<PairReport>,
}

/// `p` describes the pair opened by edge `i`.
pub open spec fn pair_matches(p: PairReport, edges: Seq<EdgeOf>, prices: Seq<PriceRecord>, i: int) -> bool {
    let a = edges[i].0;
    let b = edges[i].1;
    &&& p.a == a
    &&& p.b == b
    &&& p.forward@ == link_indices(edges, a, b)
    &&& p.backward@ == (if a == b {
        Seq::<usize>::empty()
    } else {
        link_indices(edges, b, a)
    })
    &&& p.forward_usd == dir_sum(edges, prices, a, b)
    &&& p.backward_usd == (if a == b {
        0
    } else {
        dir_sum(edges, prices, b, a)
    })
    &&& p.volume == p.forward_usd + p.backward_usd
    &&& p.flow == pair_flow(edges, prices, a, b)
}

/// USD value and indices of the edges from `a` to `b`.
fn direction_sum(graph: &TxGraph, prices: &Vec<PriceRecord>, a: usize, b: usize) -> (r: (u128, Vec<usize>))
    requires
        graph.wf(),
        priced(graph@.edges, prices@),
        total_usd(graph@.edges, prices@) <= u128::MAX,
    ensures
        r.0 == dir_sum(graph@.edges, prices@, a as nat, b as nat),
        r.1@ == link_indices(graph@.edges, a as nat, b as nat),
{
    let n = graph.edge_count();
    let ghost edges = graph@.edges;
    let mut sum: u128 = 0;
    let mut found: Vec<usize> = Vec::new();
    let mut j: usize = 0;
    assert(edges.take(0) =~= Seq::<EdgeOf>::empty());
    while j < n
        invariant
            graph.wf(),
            edges == graph@.edges,
            n == edges.len(),
            0 <= j <= n,
            priced(edges, prices@),
            total_usd(edges, prices@) <= u128::MAX,
            sum == dir_sum(edges.take(j as int), prices@, a as nat, b as nat),
            found@ == link_indices(edges.take(j as int), a as nat, b as nat),
        decreases n - j,
    {
        let (s, t) = graph.endpoints(j);
        let ghost pre = edges.take(j + 1);
        assert(pre.drop_last() =~= edges.take(j as int));
        assert(pre.last() == edges[j as int]);
        if s == a && t == b {
            let tx = graph.transaction(j);
            assert(price_at(prices@, edges[j as int].2.timestamp).is_some());
            proof {
                lemma_dir_within_total(pre, prices@, a as nat, b as nat);
                lemma_dir_within_total(pre, prices@, b as nat, a as nat);
                lemma_total_prefix(edges, prices@, j + 1);
                lemma_dir_within_total(edges.take(j as int), prices@, a as nat, b as nat);
                assert(dir_sum(pre, prices@, a as nat, b as nat) == dir_sum(edges.take(j as int), prices@, a as nat, b as nat) + usd_of(*tx, prices@));
                assert(usd_of(*tx, prices@) <= u128::MAX);
            }
            match transaction_usd_value(tx, prices) {
                Ok(x) => {
                    sum = sum + x;
                },
                Err(_) => {},
            }
            found.push(j);
        }
        j = j + 1;
    }
    assert(edges.take(n as int) =~= edges);
    (sum, found)
}

/// Total volume, mean value and total flow of a graph, summed over the
/// unordered pairs of nodes joined by its edges; each pair is visited once,
/// its volume is the value moved both ways and its flow the absolute net
/// value moved (zero for a self pair).
pub fn calculate_two_way_flow(graph: &TxGraph, prices: &Vec<PriceRecord>) -> (r: Result<FlowReport, FlowError>)
    requires
        graph.wf(),
    ensures
        !priced(graph@.edges, prices@) ==> r is Err && r->Err_0 == FlowError::MissingPrice,
        priced(graph@.edges, prices@) && total_usd(graph@.edges, prices@) > u128::MAX ==> r is Err
            && r->Err_0 == FlowError::Overflow,
        priced(graph@.edges, prices@) && total_usd(graph@.edges, prices@) <= u128::MAX && flow_upto(
            graph@.edges,
            prices@,
            graph@.edges.len() as int,
        ) > u128::MAX ==> r is Err && r->Err_0 == FlowError::Overflow,
        priced(graph@.edges, prices@) && total_usd(graph@.edges, prices@) <= u128::MAX && flow_upto(
            graph@.edges,
            prices@,
            graph@.edges.len() as int,
        ) <= u128::MAX ==> r is Ok && r->Ok_0.total_volume == total_usd(graph@.edges, prices@)
            && r->Ok_0.mean_value == (if graph@.edges.len() == 0 {
                None
            } else {
                Some((total_usd(graph@.edges, prices@) / graph@.edges.len() as int) as u128)
            })
            && r->Ok_0.total_flow == flow_upto(graph@.edges, prices@, graph@.edges.len() as int)
            && r->Ok_0.pairs@.len() == pair_openers(graph@.edges, graph@.edges.len() as int).len()
            && forall|k: int|
            0 <= k < r->Ok_0.pairs@.len() ==> pair_matches(
                #[trigger] r->Ok_0.pairs@[k],
                graph@.edges,
                prices@,
                pair_openers(graph@.edges, graph@.edges.len() as int)[k],
            ),
{
    let (total_volume, mean_value) = match calculate_total_usd_volume(graph, prices) {
        Ok(p) => p,
        Err(e) => {
            return Err(e);
        },
    };
    let n = graph.edge_count();
    let ghost edges = graph@.edges;
    let mut total_flow: u128 = 0;
    let mut pairs: Vec<PairReport> = Vec::new();
    let mut i: usize = 0;
    while i < n
        invariant
            graph.wf(),
            edges == graph@.edges,
            n == edges.len(),
            0 <= i <= n,
            priced(edges, prices@),
            total_usd(edges, prices@) <= u128::MAX,
            total_flow == flow_upto(edges, prices@, i as int),
            pairs@.len() == pair_openers(edges, i as int).len(),
            forall|k: int|
                0 <= k < pairs@.len() ==> pair_matches(
                    #[trigger] pairs@[k],
                    edges,
                    prices@,
                    pair_openers(edges, i as int)[k],
                ),
        decreases n - i,
    {
        let (a, b) = graph.endpoints(i);
        let mut opens = true;
        let mut j: usize = 0;
        while j < i
            invariant
                graph.wf(),
                edges == graph@.edges,
                n == edges.len(),
                0 <= j <= i < n,
                a == edges[i as int].0,
                b == edges[i as int].1,
                opens == forall|jj: int| 0 <= jj < j ==> !same_pair(#[trigger] edges[jj], edges[i as int]),
            decreases i - j,
        {
            let (c, d) = graph.endpoints(j);
            if (c == a && d == b) || (c == b && d == a) {
                opens = false;
            }
            j = j + 1;
        }
        assert(opens == opens_pair(edges, i as int));
        if opens {
            let (forward_usd, forward) = direction_sum(graph, prices, a, b);
            let (backward_usd, backward) = if a != b {
                direction_sum(graph, prices, b, a)
            } else {
                (0, Vec::new())
            };
            proof {
                lemma_dir_within_total(edges, prices@, a as nat, b as nat);
                lemma_dir_within_total(edges, prices@, b as nat, a as nat);
            }
            let volume = forward_usd + backward_usd;
            let flow: u128 = if a == b {
                0
            } else if forward_usd >= backward_usd {
                forward_usd - backward_usd
            } else {
                backward_usd - forward_usd
            };
            match total_flow.checked_add(flow) {
                Some(f) => {
                    total_flow = f;
                },
                None => {
                    proof {
                        lemma_flow_prefix(edges, prices@, i + 1, n as int);
                    }
                    return Err(FlowError::Overflow);
                },
            }
            let ghost old_pairs = pairs@;
            pairs.push(
                PairReport { a, b, forward, backward, forward_usd, backward_usd, volume, flow },
            );
            assert forall|k: int| 0 <= k < pairs@.len() implies pair_matches(
                #[trigger] pairs@[k],
                edges,
                prices@,
                pair_openers(edges, i + 1)[k],
            ) by {
                if k < old_pairs.len() {
                    assert(pairs@[k] == old_pairs[k]);
                }
            }
        }
        i = i + 1;
    }
    Ok(FlowReport { total_volume, mean_value, total_flow, pairs })
}

proof fn lemma_two_way_subsum(edges: Seq<EdgeOf>, links: Seq<(nat, nat)>, prices: Seq<PriceRecord>)
    ensures
        total_usd(two_way_edges(edges, links), prices) <= total_usd(edges, prices),
    decreases edges.len(),
{
    if edges.len() > 0 {
        lemma_two_way_subsum(edges.drop_last(), links, prices);
        lemma_usd_nonneg(edges.last().2, prices);
        let rest = two_way_edges(edges.drop_last(), links);
        if has_link(links, edges.last().1, edges.last().0) {
            assert(rest.push(edges.last()).drop_last() =~= rest);
        }
    }
}

/// Keeping only the two-way edges of a graph never raises its total USD volume.
pub proof fn lemma_two_way_volume_bounded(v: GraphView, prices: Seq<PriceRecord>)
    ensures
        total_usd(two_way_edges(v.edges, links_of(v)), prices) <= total_usd(v.edges, prices),
{
    lemma_two_way_subsum(v.edges, links_of(v), prices);
}

proof fn lemma_unreciprocated_sums(
    edges: Seq<EdgeOf>,
    links: Seq<(nat, nat)>,
    prices: Seq<PriceRecord>,
    a: nat,
    b: nat,
)
    requires
        forall|i: int| 0 <= i < edges.len() ==> has_link(links, (#[trigger] edges[i]).0, edges[i].1),
        !has_link(links, b, a),
    ensures
        dir_sum(two_way_edges(edges, links), prices, a, b) == 0,
        dir_sum(two_way_edges(edges, links), prices, b, a) == 0,
    decreases edges.len(),
{
    if edges.len() > 0 {
        let e = edges.last();
        assert(has_link(links, edges[edges.len() - 1].0, edges[edges.len() - 1].1));
        lemma_unreciprocated_sums(edges.drop_last(), links, prices, a, b);
        let rest = two_way_edges(edges.drop_last(), links);
        if has_link(links, e.1, e.0) {
            assert(rest.push(e).drop_last() =~= rest);
            assert(!(e.0 == a && e.1 == b));
            assert(!(e.0 == b && e.1 == a));
        }
    }
}

/// In the two-way filtered graph, a pair `a, b` whose source graph has no
/// edge `b -> a` carries no value either way, so its pair flow is zero.
pub proof fn lemma_one_way_pair_has_no_flow(v: GraphView, prices: Seq<PriceRecord>, a: nat, b: nat)
    requires
        !has_link(links_of(v), b, a),
    ensures
        dir_sum(two_way_edges(v.edges, links_of(v)), prices, a, b) == 0,
        dir_sum(two_way_edges(v.edges, links_of(v)), prices, b, a) == 0,
        pair_flow(two_way_edges(v.edges, links_of(v)), prices, a, b) == 0,
{
    let links = links_of(v);
    assert forall|i: int| 0 <= i < v.edges.len() implies has_link(links, (#[trigger] v.edges[i]).0, v.edges[i].1) by {
        assert(links[i] == (v.edges[i].0, v.edges[i].1));
    }
    lemma_unreciprocated_sums(v.edges, links, prices, a, b);
}

} // verus!
