//! Edge classes: a kind of relationship, one foreign key of a host table.
use crate::catalog::{columns_in, Catalog};
use crate::order::{
    compare_indices, flip, index_ints, int_cmp, lemma_lex_at_equal, lemma_lex_at_flip, lemma_lex_at_trans, lex_cmp,
};
use std::cmp::Ordering;
use vstd::prelude::*;
use vstd::string::*;

verus! {

/// An edge class: a host table and the columns of one of its foreign keys.
#[derive(Debug, PartialEq, Eq, PartialOrd, Ord, Hash)]
pub struct EdgeClass {
    /// The position of the host table in the catalog.
    pub host_table: usize,
    /// The positions of the foreign key's columns among the host table's columns.
    pub columns: Vec<usize>,
}

/// The order of edge classes: by host table position, then lexicographically
/// by column positions.
pub open spec fn edge_class_cmp(a: EdgeClass, b: EdgeClass) -> Ordering {
    if a.host_table != b.host_table {
        int_cmp(a.host_table as int, b.host_table as int)
    } else {
        lex_cmp(index_ints(a.columns@), index_ints(b.columns@))
    }
}

/// `a` orders strictly before `b`.
pub open spec fn edge_class_lt(a: EdgeClass, b: EdgeClass) -> bool {
    edge_class_cmp(a, b) == Ordering::Less
}

/// The display form of an edge class: the host table's qualified name, then
/// the names of its columns in parentheses.
pub open spec fn edge_class_text(cat: Catalog, e: EdgeClass) -> Seq<char> {
    class_text(cat, e.host_table as int, e.columns@)
}

/// The display form of the edge class of host table `host` with columns `cols`.
pub open spec fn class_text(cat: Catalog, host: int, cols: Seq<usize>) -> Seq<char> {
    cat.qualified(host) + "("@ + cat.column_names(host, cols) + ")"@
}

/// Two edge classes compare equal exactly when they have the same host
/// table and the same columns.
pub proof fn lemma_edge_class_cmp_equal(a: EdgeClass, b: EdgeClass)
    ensures
        edge_class_cmp(a, b) == Ordering::Equal <==> (a.host_table == b.host_table && a.columns@
            == b.columns@),
{
    let x = index_ints(a.columns@);
    let y = index_ints(b.columns@);
    if a.host_table == b.host_table {
        if x.len() <= y.len() {
            lemma_lex_at_equal(x, y, 0);
        } else {
            lemma_lex_at_flip(x, y, 0);
            lemma_lex_at_equal(y, x, 0);
        }
        if edge_class_cmp(a, b) == Ordering::Equal {
            assert forall|k: int| 0 <= k < a.columns@.len() implies a.columns@[k] == b.columns@[k] by {
                assert(x[k] == y[k]);
            }
            assert(a.columns@ =~= b.columns@);
        }
    }
}

/// Swapping the sides of an edge class comparison flips its result.
pub proof fn lemma_edge_class_cmp_flip(a: EdgeClass, b: EdgeClass)
    ensures
        edge_class_cmp(b, a) == flip(edge_class_cmp(a, b)),
{
    lemma_lex_at_flip(index_ints(a.columns@), index_ints(b.columns@), 0);
}

/// Edge class comparison is transitive, and strict as soon as one step is.
pub proof fn lemma_edge_class_cmp_trans(a: EdgeClass, b: EdgeClass, c: EdgeClass)
    requires
        edge_class_cmp(a, b) != Ordering::Greater,
        edge_class_cmp(b, c) != Ordering::Greater,
    ensures
        edge_class_cmp(a, c) != Ordering::Greater,
        edge_class_cmp(a, b) == Ordering::Less || edge_class_cmp(b, c) == Ordering::Less
            ==> edge_class_cmp(a, c) == Ordering::Less,
{
    if a.host_table == b.host_table && b.host_table == c.host_table {
        lemma_lex_at_trans(index_ints(a.columns@), index_ints(b.columns@), index_ints(c.columns@), 0);
    }
}

impl EdgeClass {
    /// The edge class of the foreign key of `host_table` made of `columns`.
    pub fn new(host_table: usize, columns: Vec<usize>) -> (r: EdgeClass)
        ensures
            r.host_table == host_table,
            r.columns == columns,
    {
        EdgeClass { host_table, columns }
    }

    /// Compares two edge classes in the edge class order.
    pub fn compare(&self, other: &EdgeClass) -> (r: Ordering)
        ensures
            r == edge_class_cmp(*self, *other),
    {
        if self.host_table < other.host_table {
            Ordering::Less
        } else if self.host_table > other.host_table {
            Ordering::Greater
        } else {
            compare_indices(&self.columns, &other.columns)
        }
    }

    /// The display form of the edge class.
    pub fn to_display(&self, catalog: &Catalog) -> (r: String)
        requires
            self.host_table < catalog.len(),
            columns_in(self.columns@, catalog.table(self.host_table as int).columns@.len() as int),
        ensures
            r@ == edge_class_text(*catalog, *self),
    {
        let mut out = catalog.qualified_name(self.host_table);
        let cols = catalog.join_column_names(self.host_table, &self.columns);
        out.append("(");
        out.append(cols.as_str());
        out.append(")");
        out
    }
}

} // verus!
