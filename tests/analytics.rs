use tx_flow::analytics::{
    calculate_total_usd_volume, calculate_two_way_flow, filter_by_transaction_price,
    filter_twoway_edges, transaction_usd_value, FlowError,
};
use tx_flow::graph::{Transaction, TxGraph};
use tx_flow::persist::{deserialize_graph, PersistedGraph};
use tx_flow::price::PriceRecord;

/// One USD in the units of the library's USD figures (10^-24 USD).
const USD: u128 = 1_000_000_000_000_000_000_000_000;
/// Wei worth one USD at 1000 USD per ether.
const WEI_PER_USD: u128 = 1_000_000_000_000_000;

fn prices() -> Vec<PriceRecord> {
    vec![
        PriceRecord { start: 1_700_000_000, price: 1_000_000_000 },
        PriceRecord { start: 1_700_003_600, price: 1_000_000_000 },
    ]
}

fn tx(hash: &str, usd: u128, timestamp: u64) -> Transaction {
    Transaction { hash: hash.to_string(), value: usd * WEI_PER_USD, timestamp }
}

fn ceil_usd(x: u128) -> u128 {
    (x + USD - 1) / USD
}

/// Nodes a, b, c, d, e; pairs a<->b and b<->c are two-way, c->d and d->e are not.
fn handcrafted() -> TxGraph {
    let p = PersistedGraph {
        nodes: vec!["a".to_string(), "b".to_string(), "c".to_string(), "d".to_string(), "e".to_string()],
        edges: vec![
            (0, 1, tx("h1", 563, 1_700_000_100)),
            (0, 1, tx("h2", 4000, 1_700_000_200)),
            (1, 0, tx("h3", 2000, 1_700_003_700)),
            (1, 2, tx("h4", 3319, 1_700_003_800)),
            (2, 1, tx("h5", 1100, 1_700_009_000)),
            (2, 1, tx("h8", 1027, 1_700_000_500)),
            (2, 3, tx("h6", 8438, 1_700_000_300)),
            (3, 4, tx("h7", 564, 1_700_000_400)),
        ],
    };
    deserialize_graph(&p).unwrap()
}

#[test]
fn test_main() {
    let graph = handcrafted();
    let prices = prices();

    let (graph_volume, graph_mean) = calculate_total_usd_volume(&graph, &prices).unwrap();
    assert_eq!(ceil_usd(graph_volume), 21011);
    assert_eq!(ceil_usd(graph_mean.unwrap()), 2627);
    assert_eq!(graph.edge_count(), 8);

    let price_filtered = filter_by_transaction_price(&graph, &prices, 10 * USD, 1000 * USD).unwrap();
    let (pf_volume, pf_mean) = calculate_total_usd_volume(&price_filtered, &prices).unwrap();
    assert_eq!(ceil_usd(pf_volume), 1127);
    assert_eq!(ceil_usd(pf_mean.unwrap()), 564);
    assert_eq!(price_filtered.edge_count(), 2);

    let twoway = filter_twoway_edges(&graph);
    let report = calculate_two_way_flow(&twoway, &prices).unwrap();
    assert_eq!(ceil_usd(report.total_volume), 12009);
    assert_eq!(ceil_usd(report.mean_value.unwrap()), 2002);
    assert_eq!(ceil_usd(report.total_flow), 3755);
    assert_eq!(twoway.edge_count(), 6);

    let twoway_price = filter_twoway_edges(&price_filtered);
    let report = calculate_two_way_flow(&twoway_price, &prices).unwrap();
    assert_eq!(report.total_volume, 0);
    assert_eq!(report.total_flow, 0);
    assert_eq!(report.mean_value, None);
    assert_eq!(twoway_price.edge_count(), 0);
}

#[test]
fn usd_value_is_wei_times_micro_usd_price() {
    let t = Transaction { hash: "x".to_string(), value: 2_500_000_000_000_000_000, timestamp: 1_700_000_000 };
    let prices = vec![PriceRecord { start: 1_700_000_000, price: 1_234_560_000 }];
    assert_eq!(transaction_usd_value(&t, &prices), Ok(2_500_000_000_000_000_000 * 1_234_560_000));
}

#[test]
fn usd_value_before_series_is_missing() {
    let t = tx("x", 1, 1_600_000_000);
    assert_eq!(transaction_usd_value(&t, &prices()), Err(FlowError::MissingPrice));
}

#[test]
fn usd_value_overflow_is_reported() {
    let t = Transaction { hash: "x".to_string(), value: u128::MAX, timestamp: 1_700_000_000 };
    assert_eq!(transaction_usd_value(&t, &prices()), Err(FlowError::Overflow));
}

#[test]
fn empty_graph_has_no_mean() {
    let g = TxGraph::new();
    assert_eq!(calculate_total_usd_volume(&g, &prices()), Ok((0, None)));
}

#[test]
fn volume_fails_on_unpriced_edge() {
    let p = PersistedGraph {
        nodes: vec!["a".to_string(), "b".to_string()],
        edges: vec![(0, 1, tx("h1", 5, 1_700_000_000)), (1, 0, tx("h2", 5, 10))],
    };
    let g = deserialize_graph(&p).unwrap();
    assert_eq!(calculate_total_usd_volume(&g, &prices()), Err(FlowError::MissingPrice));
    assert!(matches!(filter_by_transaction_price(&g, &prices(), 0, USD), Err(FlowError::MissingPrice)));
    assert!(matches!(calculate_two_way_flow(&g, &prices()), Err(FlowError::MissingPrice)));
}

#[test]
fn volume_overflow_is_reported() {
    let big = u128::MAX / 1_000_000_000;
    let p = PersistedGraph {
        nodes: vec!["a".to_string()],
        edges: vec![
            (0, 0, Transaction { hash: "h1".to_string(), value: big, timestamp: 1_700_000_000 }),
            (0, 0, Transaction { hash: "h2".to_string(), value: big, timestamp: 1_700_000_000 }),
        ],
    };
    let g = deserialize_graph(&p).unwrap();
    assert_eq!(calculate_total_usd_volume(&g, &prices()), Err(FlowError::Overflow));
}

#[test]
fn price_filter_bounds_are_inclusive_and_keep_nodes() {
    let g = handcrafted();
    let f = filter_by_transaction_price(&g, &prices(), 563 * USD, 564 * USD).unwrap();
    assert_eq!(f.node_count(), 5);
    assert_eq!(f.edge_count(), 2);
    assert_eq!(f.transaction(0).hash, "h1");
    assert_eq!(f.transaction(1).hash, "h7");
    let none = filter_by_transaction_price(&g, &prices(), 563 * USD + 1, 564 * USD - 1).unwrap();
    assert_eq!(none.edge_count(), 0);
    assert_eq!(none.node_count(), 5);
}

#[test]
fn two_way_filter_keeps_reciprocated_edges() {
    let g = handcrafted();
    let t = filter_twoway_edges(&g);
    let hashes: Vec<String> = (0..t.edge_count()).map(|i| t.transaction(i).hash.clone()).collect();
    assert_eq!(hashes, vec!["h1", "h2", "h3", "h4", "h5", "h8"]);
    assert_eq!(t.node_count(), 5);
    assert_eq!(t.endpoints(0), (0, 1));
}

#[test]
fn two_way_volume_does_not_exceed_full_volume() {
    let g = handcrafted();
    let t = filter_twoway_edges(&g);
    let (full, _) = calculate_total_usd_volume(&g, &prices()).unwrap();
    let (two_way, _) = calculate_total_usd_volume(&t, &prices()).unwrap();
    assert!(two_way <= full);
}

#[test]
fn pair_reports_follow_first_occurrence() {
    let g = filter_twoway_edges(&handcrafted());
    let r = calculate_two_way_flow(&g, &prices()).unwrap();
    assert_eq!(r.pairs.len(), 2);
    let ab = &r.pairs[0];
    assert_eq!((ab.a, ab.b), (0, 1));
    assert_eq!(ab.forward, vec![0, 1]);
    assert_eq!(ab.backward, vec![2]);
    assert_eq!(ab.forward_usd, 4563 * USD);
    assert_eq!(ab.backward_usd, 2000 * USD);
    assert_eq!(ab.volume, 6563 * USD);
    assert_eq!(ab.flow, 2563 * USD);
    let bc = &r.pairs[1];
    assert_eq!((bc.a, bc.b), (1, 2));
    assert_eq!(bc.forward, vec![3]);
    assert_eq!(bc.backward, vec![4, 5]);
    assert_eq!(bc.volume, 5446 * USD);
    assert_eq!(bc.flow, 1192 * USD);
}

#[test]
fn self_pair_has_no_flow() {
    let p = PersistedGraph {
        nodes: vec!["a".to_string()],
        edges: vec![(0, 0, tx("h1", 7, 1_700_000_000)), (0, 0, tx("h2", 3, 1_700_000_000))],
    };
    let g = deserialize_graph(&p).unwrap();
    let r = calculate_two_way_flow(&g, &prices()).unwrap();
    assert_eq!(r.total_volume, 10 * USD);
    assert_eq!(r.total_flow, 0);
    assert_eq!(r.mean_value, Some(5 * USD));
    assert_eq!(r.pairs.len(), 1);
    assert_eq!(r.pairs[0].forward, vec![0, 1]);
    assert!(r.pairs[0].backward.is_empty());
    assert_eq!(r.pairs[0].flow, 0);
}
