//! Errors of graph extraction.
use vstd::prelude::*;

verus! {

/// What can stop the extraction of a graph.
#[derive(Debug, PartialEq, Eq)]
pub enum Error {
    /// An edge endpoint is not among the nodes; holds the node's display form.
    NodeNotFound(String),
    /// An edge's class is not among the edge classes; holds its display form.
    EdgeClassNotFound(String),
    /// A key's column types fall outside what can be decoded: the table, and
    /// the foreign key when the key pair of a foreign key is at fault.
    UnsupportedKeyShape { table: usize, foreign_key: Option<usize> },
    /// A node does not follow the nodes before it in the node order; holds
    /// the node's display form.
    UnorderedNode(String),
    /// A column value of a database type that no key variant holds; holds
    /// the type's object identifier.
    UnknownType(u32),
    /// A column value whose bytes are not a value of its type; holds the
    /// type's object identifier.
    InvalidValue(u32),
}

} // verus!
