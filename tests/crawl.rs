use tx_flow::crawl::{CrawlSession, ObservedTransaction};

fn obs(hash: &str, from: &str, to: &str) -> ObservedTransaction {
    ObservedTransaction {
        hash: hash.to_string(),
        from: from.to_string(),
        to: to.to_string(),
        value: 1_000,
        timestamp: 1_700_000_000,
        is_error: false,
        contract_address: String::new(),
    }
}

fn score(s: &CrawlSession, a: &str) -> Option<u64> {
    s.relevance().iter().find(|(k, _)| k == a).map(|(_, v)| *v)
}

#[test]
fn seed_is_case_folded_and_scored_one() {
    let mut s = CrawlSession::new("0xAbCD", 10);
    assert_eq!(s.relevance().len(), 1);
    assert_eq!(score(&s, "0xabcd"), Some(1));
    assert_eq!(s.next_address(), Some("0xabcd".to_string()));
    assert_eq!(s.trajectory(), &vec!["0xabcd".to_string()]);
    assert_eq!(s.next_address(), None);
}

#[test]
fn accepted_transactions_become_edges_and_scores() {
    let mut s = CrawlSession::new("a", 10);
    s.next_address();
    s.absorb(&vec![obs("h1", "a", "b"), obs("h2", "c", "a"), obs("h3", "b", "c")]);
    let g = s.graph();
    assert_eq!(g.edge_count(), 3);
    assert_eq!(g.node_count(), 3);
    assert_eq!(g.address(0), "a");
    assert_eq!(g.address(1), "b");
    assert_eq!(g.address(2), "c");
    assert_eq!(g.endpoints(1), (2, 0));
    assert_eq!(score(&s, "a"), Some(3));
    assert_eq!(score(&s, "b"), Some(2));
    assert_eq!(score(&s, "c"), Some(2));
}

#[test]
fn repeated_hash_is_one_edge() {
    let mut s = CrawlSession::new("a", 10);
    s.absorb(&vec![obs("h1", "a", "b")]);
    s.absorb(&vec![obs("h1", "a", "b"), obs("h1", "b", "a")]);
    assert_eq!(s.graph().edge_count(), 1);
    assert_eq!(score(&s, "b"), Some(1));
}

#[test]
fn failed_contract_and_genesis_transfers_are_skipped() {
    let mut s = CrawlSession::new("a", 10);
    let mut failed = obs("h1", "a", "b");
    failed.is_error = true;
    let mut creation = obs("h2", "a", "");
    creation.contract_address = "0xc0de".to_string();
    let genesis = obs("h3", "GENESIS", "a");
    s.absorb(&vec![failed, creation, genesis]);
    assert_eq!(s.graph().edge_count(), 0);
    assert_eq!(s.graph().node_count(), 0);
    assert_eq!(s.relevance().len(), 1);
}

#[test]
fn edge_budget_is_never_exceeded() {
    let mut s = CrawlSession::new("a", 2);
    s.absorb(&vec![obs("h1", "a", "b"), obs("h2", "a", "c"), obs("h3", "a", "d")]);
    assert_eq!(s.graph().edge_count(), 2);
    assert_eq!(score(&s, "d"), None);
    assert_eq!(s.next_address(), None);
}

#[test]
fn highest_score_is_expanded_first_ties_by_first_sight() {
    let mut s = CrawlSession::new("a", 100);
    assert_eq!(s.next_address(), Some("a".to_string()));
    s.absorb(&vec![obs("h1", "a", "b"), obs("h2", "a", "c"), obs("h3", "c", "d")]);
    // a: 3 (queried), b: 1, c: 2, d: 1
    assert_eq!(s.next_address(), Some("c".to_string()));
    assert_eq!(s.next_address(), Some("b".to_string()));
    assert_eq!(s.next_address(), Some("d".to_string()));
    assert_eq!(s.next_address(), None);
}

#[test]
fn self_transfer_scores_twice() {
    let mut s = CrawlSession::new("a", 10);
    s.absorb(&vec![obs("h1", "a", "a")]);
    assert_eq!(s.graph().node_count(), 1);
    assert_eq!(s.graph().endpoints(0), (0, 0));
    assert_eq!(score(&s, "a"), Some(3));
    let g = s.into_graph();
    assert_eq!(g.transaction(0).hash, "h1");
}
