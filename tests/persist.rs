use tx_flow::graph::Transaction;
use tx_flow::persist::{deserialize_graph, serialize_graph, GraphError, PersistedGraph};

fn tx(hash: &str, value: u128) -> Transaction {
    Transaction { hash: hash.to_string(), value, timestamp: 1_700_000_000 }
}

fn sample() -> PersistedGraph {
    PersistedGraph {
        nodes: vec!["a".to_string(), "b".to_string(), "c".to_string()],
        edges: vec![(0, 1, tx("h1", 10)), (0, 1, tx("h2", 20)), (2, 2, tx("h3", 30)), (1, 0, tx("h4", 40))],
    }
}

#[test]
fn round_trip_keeps_nodes_edges_and_payloads() {
    let g = deserialize_graph(&sample()).unwrap();
    let p = serialize_graph(&g);
    let h = deserialize_graph(&p).unwrap();
    assert_eq!(h.node_count(), 3);
    assert_eq!(h.edge_count(), 4);
    for i in 0..3 {
        assert_eq!(h.address(i), g.address(i));
    }
    for i in 0..4 {
        assert_eq!(h.endpoints(i), g.endpoints(i));
        assert_eq!(h.transaction(i).hash, g.transaction(i).hash);
        assert_eq!(h.transaction(i).value, g.transaction(i).value);
        assert_eq!(h.transaction(i).timestamp, g.transaction(i).timestamp);
    }
    assert_eq!(p.nodes, sample().nodes);
    assert_eq!(p.edges[1].0, 0);
    assert_eq!(p.edges[3].1, 0);
    assert_eq!(p.edges[2].2.hash, "h3");
}

#[test]
fn isolated_nodes_survive_round_trip() {
    let p = PersistedGraph { nodes: vec!["x".to_string(), "y".to_string()], edges: Vec::new() };
    let g = deserialize_graph(&p).unwrap();
    assert_eq!(g.node_count(), 2);
    assert_eq!(serialize_graph(&g).nodes, vec!["x".to_string(), "y".to_string()]);
}

#[test]
fn endpoint_out_of_range_is_refused() {
    let mut p = sample();
    p.edges.push((1, 3, tx("h5", 1)));
    assert!(matches!(deserialize_graph(&p), Err(GraphError::EndpointOutOfRange)));
}
