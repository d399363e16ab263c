//! A transactional property-graph layer over a versioned cell store.
//!
//! Vertices and edges live in schema-typed cells; per-vertex adjacency is
//! kept in chained id lists that span several cells once one cell's fixed
//! capacity is exceeded. Every multi-cell mutation runs against one
//! transaction snapshot, modelled here as an explicit map from cell
//! identifiers to cells.

pub mod types;
pub mod store;
pub mod schema;
pub mod id_list;
pub mod vertex;
pub mod edge;
pub mod graph;
pub mod laws;
