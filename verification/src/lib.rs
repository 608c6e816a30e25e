//! A generic graph library with a verified core: adjacency-list storage,
//! directed and undirected topology stores behind one swappable
//! abstraction, a typed facade that pairs nodes with values and edges with
//! weights, plain-text rendering, and a pathfinding engine offering
//! single-pair shortest-path search and exhaustive simple-path
//! enumeration.

pub mod adjacency_list;
pub mod directed;
pub mod graph;
pub mod graph_trait;
pub mod path_finder;
pub mod priority_node;
pub mod render;
pub mod undirected;
pub mod weighted_graph;
