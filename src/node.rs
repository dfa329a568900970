//! Nodes: one row of a table, identified by the table and the row's key.
use crate::catalog::Catalog;
use crate::order::{flip, int_cmp};
use crate::primary_key::{
    key_cmp, key_text, lemma_key_cmp_flip, lemma_key_cmp_refl, lemma_key_cmp_trans, PrimaryKey,
};
use std::cmp::Ordering;
use vstd::prelude::*;
use vstd::string::*;

verus! {

/// A node of the graph: a row of a table, identified by its primary key.
#[derive(Debug, PartialEq, Eq, PartialOrd, Ord, Hash)]
pub struct Node {
    /// The position of the node's table in the catalog.
    pub table: usize,
    /// The row's primary key.
    pub primary_key: PrimaryKey,
}

/// The order of nodes: by table position, then by key.
pub open spec fn node_cmp(a: Node, b: Node) -> Ordering {
    if a.table != b.table {
        int_cmp(a.table as int, b.table as int)
    } else {
        key_cmp(a.primary_key, b.primary_key)
    }
}

/// `a` orders strictly before `b`.
pub open spec fn node_lt(a: Node, b: Node) -> bool {
    node_cmp(a, b) == Ordering::Less
}

/// The display form of a node: its table's qualified name, then its key in
/// parentheses.
pub open spec fn node_text(cat: Catalog, n: Node) -> Seq<char> {
    cat.qualified(n.table as int) + "("@ + key_text(n.primary_key) + ")"@
}

/// Swapping the sides of a node comparison flips its result.
pub proof fn lemma_node_cmp_flip(a: Node, b: Node)
    ensures
        node_cmp(b, a) == flip(node_cmp(a, b)),
{
    lemma_key_cmp_flip(a.primary_key, b.primary_key);
}

/// Node comparison is transitive, strict as soon as one step is, and its
/// equality is transitive.
pub proof fn lemma_node_cmp_trans(a: Node, b: Node, c: Node)
    requires
        node_cmp(a, b) != Ordering::Greater,
        node_cmp(b, c) != Ordering::Greater,
    ensures
        node_cmp(a, c) != Ordering::Greater,
        node_cmp(a, b) == Ordering::Less || node_cmp(b, c) == Ordering::Less ==> node_cmp(a, c)
            == Ordering::Less,
        node_cmp(a, b) == Ordering::Equal && node_cmp(b, c) == Ordering::Equal ==> node_cmp(a, c)
            == Ordering::Equal,
{
    if a.table == b.table && b.table == c.table {
        lemma_key_cmp_trans(a.primary_key, b.primary_key, c.primary_key);
    }
}

/// Every node compares equal to itself.
pub proof fn lemma_node_cmp_refl(a: Node)
    ensures
        node_cmp(a, a) == Ordering::Equal,
{
    lemma_key_cmp_refl(a.primary_key);
}

impl Node {
    /// The node of table `table` whose row has key `primary_key`.
    pub fn new(table: usize, primary_key: PrimaryKey) -> (r: Node)
        ensures
            r.table == table,
            r.primary_key == primary_key,
    {
        Node { table, primary_key }
    }

    /// The position of the node's table in the catalog.
    pub fn table(&self) -> (r: usize)
        ensures
            r == self.table,
    {
        self.table
    }

    /// The name of the node's table.
    pub fn table_name<'a>(&self, catalog: &'a Catalog) -> (r: &'a str)
        requires
            self.table < catalog.len(),
        ensures
            r@ == catalog.table(self.table as int).name@,
    {
        catalog.tables[self.table].name.as_str()
    }

    /// The schema of the node's table, if it has one.
    pub fn schema_name<'a>(&self, catalog: &'a Catalog) -> (r: Option<&'a str>)
        requires
            self.table < catalog.len(),
        ensures
            r is Some == catalog.table(self.table as int).schema is Some,
            r matches Some(s) ==> s@ == catalog.table(self.table as int).schema->0@,
    {
        match &catalog.tables[self.table].schema {
            Some(s) => Some(s.as_str()),
            None => None,
        }
    }

    /// Compares two nodes in the node order.
    pub fn compare(&self, other: &Node) -> (r: Ordering)
        ensures
            r == node_cmp(*self, *other),
    {
        if self.table < other.table {
            Ordering::Less
        } else if self.table > other.table {
            Ordering::Greater
        } else {
            self.primary_key.compare(&other.primary_key)
        }
    }

    /// The display form of the node.
    pub fn to_display(&self, catalog: &Catalog) -> (r: String)
        requires
            self.table < catalog.len(),
        ensures
            r@ == node_text(*catalog, *self),
    {
        let mut out = catalog.qualified_name(self.table);
        let key = self.primary_key.to_display();
        out.append("(");
        out.append(key.as_str());
        out.append(")");
        out
    }
}

} // verus!
