//! Transaction-graph crawling and USD flow analytics.
//!
//! `price` answers "USD price at time T", `graph` holds the directed
//! multigraph of addresses and transactions, `analytics` derives filtered
//! graphs and volume/flow figures, and `crawl` decides which address to
//! expand next and which observed transactions enter the graph.
pub mod price;
pub mod graph;
pub mod analytics;
pub mod crawl;
pub mod persist;
