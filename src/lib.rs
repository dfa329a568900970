//! Extraction of a knowledge graph (node classes, nodes, edge classes and
//! edges) from a relational catalog and the rows of its tables, with a dense,
//! reproducible numbering of nodes and edge classes.
pub mod order;
pub mod primary_key;
pub mod catalog;
pub mod errors;
pub mod text;
pub mod node;
pub mod edge_class;
pub mod arena;
pub mod classes;
pub mod edges;
pub mod dispatch;
pub mod decode;
pub mod export;
pub mod query;
