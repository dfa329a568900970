//! The edge pass: the resolution of one row of a foreign key's host table
//! to an edge between two global node IDs.
use crate::arena::{node_matches, nodes_sorted, parts_key_text, parts_node_text, NodeArena};
use crate::catalog::Catalog;
use crate::classes::{copy_indices, edge_classes_sorted, find_edge_class, fk_columns, lists_class, qualifies};
use crate::edge_class::{class_text, EdgeClass};
use crate::errors::Error;
use crate::node::{node_cmp, Node};
use crate::primary_key::{is_key_of_parts, key_text, PrimaryKey};
use std::cmp::Ordering;
use vstd::prelude::*;

verus! {

/// Some cell of a row is null.
pub open spec fn has_null(cells: Seq<Option<PrimaryKey>>) -> bool {
    exists|i: int| 0 <= i < cells.len() && #[trigger] cells[i] is None
}

/// The values of a row's cells.
pub open spec fn cell_values(cells: Seq<Option<PrimaryKey>>) -> Seq<PrimaryKey> {
    cells.map_values(|c: Option<PrimaryKey>| c->0)
}

/// Some node of `s` matches the node of table `t` made of `parts`.
pub open spec fn has_node(s: Seq<Node>, t: int, parts: Seq<PrimaryKey>) -> bool {
    exists|i: int| 0 <= i < s.len() && node_matches(#[trigger] s[i], t, parts)
}

/// A node built of a table and key parts compares equal exactly to the
/// nodes that match those parts, and displays as the parts do.
proof fn lemma_node_of_parts(n: Node, t: int, parts: Seq<PrimaryKey>)
    requires
        n.table == t,
        1 <= parts.len(),
        is_key_of_parts(n.primary_key, parts),
    ensures
        forall|m: Node| #[trigger] node_cmp(m, n) == Ordering::Equal <==> node_matches(m, t, parts),
        key_text(n.primary_key) == parts_key_text(parts),
{
    assert forall|m: Node| #[trigger] node_cmp(m, n) == Ordering::Equal <==> node_matches(
        m,
        t,
        parts,
    ) by {
        if parts.len() != 1 {
            assert(n.primary_key->Composite_0@ == parts);
        }
    }
}

/// Resolves one row of a foreign key's host table to an edge.
///
/// The row holds the host table's primary key columns, then the foreign
/// key's columns. A row with a null cell yields no edge. Otherwise the host
/// node is made of the key cells, the referenced node (of the referenced
/// table) of the foreign key cells, and the result is the global IDs of the
/// two nodes and of the foreign key's edge class; an endpoint or edge class
/// that is not there is an error that names it.
pub fn resolve_edge(
    nodes: &NodeArena,
    classes: &Vec<EdgeClass>,
    catalog: &Catalog,
    table: usize,
    fk: usize,
    cells: Vec<Option<PrimaryKey>>,
) -> (r: Result<Option<(usize, usize, usize)>, Error>)
    requires
        catalog.wf(),
        qualifies(*catalog, table as int, fk as int),
        1 <= catalog.key_width(table as int),
        1 <= fk_columns(*catalog, table as int, fk as int).len(),
        cells@.len() == catalog.key_width(table as int) + fk_columns(
            *catalog,
            table as int,
            fk as int,
        ).len(),
        nodes_sorted(nodes@),
        edge_classes_sorted(classes@),
    ensures
        has_null(cells@) ==> r == Ok::<Option<(usize, usize, usize)>, Error>(None),
        !has_null(cells@) ==> {
            let w = catalog.key_width(table as int);
            let src = cell_values(cells@).subrange(0, w);
            let dst = cell_values(cells@).subrange(w, cells@.len() as int);
            let rt = catalog.table(table as int).foreign_keys@[fk as int].referenced_table as int;
            let cols = fk_columns(*catalog, table as int, fk as int);
            match r {
                Ok(Some((a, b, c))) => {
                    &&& a < nodes@.len() && node_matches(nodes@[a as int], table as int, src)
                    &&& b < nodes@.len() && node_matches(nodes@[b as int], rt, dst)
                    &&& c < classes@.len() && classes@[c as int].host_table == table
                        && classes@[c as int].columns@ == cols
                },
                Ok(None) => false,
                Err(Error::NodeNotFound(s)) => {
                    ||| !has_node(nodes@, table as int, src) && s@ == parts_node_text(
                        *catalog,
                        table as int,
                        src,
                    )
                    ||| has_node(nodes@, table as int, src) && !has_node(nodes@, rt, dst) && s@
                        == parts_node_text(*catalog, rt, dst)
                },
                Err(Error::EdgeClassNotFound(s)) => {
                    &&& has_node(nodes@, table as int, src)
                    &&& has_node(nodes@, rt, dst)
                    &&& !lists_class(classes@, table as int, cols)
                    &&& s@ == class_text(*catalog, table as int, cols)
                },
                Err(_) => false,
            }
        },
{
    let mut i: usize = 0;
    while i < cells.len()
        invariant
            i <= cells@.len(),
            forall|j: int| 0 <= j < i ==> #[trigger] cells@[j] is Some,
        decreases cells@.len() - i,
    {
        match &cells[i] {
            None => {
                return Ok(None);
            },
            Some(_) => {},
        }
        i = i + 1;
    }
    proof {
        assert(!has_null(cells@));
    }
    proof {
        assert(catalog.table_wf(table as int));
        assert(catalog.foreign_key_wf(table as int, fk as int));
    }
    let w = catalog.tables[table].primary_key.len();
    let ghost all = cell_values(cells@);
    let n_cells = cells.len();
    let ghost total = n_cells as int;
    let mut rest = cells;
    let mut src_parts: Vec<PrimaryKey> = Vec::new();
    let mut dst_parts: Vec<PrimaryKey> = Vec::new();
    let mut k: usize = 0;
    while rest.len() > 0
        invariant
            1 <= w < total,
            total == n_cells,
            k + rest@.len() == total,
            rest@ =~= cells@.subrange(k as int, total as int),
            all == cell_values(cells@),
            cells@.len() == total,
            !has_null(cells@),
            k <= w ==> src_parts@ =~= all.subrange(0, k as int) && dst_parts@.len() == 0,
            k > w ==> src_parts@ =~= all.subrange(0, w as int) && dst_parts@ =~= all.subrange(
                w as int,
                k as int,
            ),
        decreases rest@.len(),
    {
        let c = rest.remove(0);
        proof {
            assert(cells@[k as int] is Some);
        }
        match c {
            Some(v) => {
                if k < w {
                    src_parts.push(v);
                } else {
                    dst_parts.push(v);
                }
            },
            None => {
                return Ok(None);
            },
        }
        k = k + 1;
    }
    let ghost src_seq = all.subrange(0, w as int);
    let ghost dst_seq = all.subrange(w as int, total as int);
    let src = Node::new(table, PrimaryKey::from_parts(src_parts));
    let rt = catalog.tables[table].foreign_keys[fk].referenced_table;
    let dst = Node::new(rt, PrimaryKey::from_parts(dst_parts));
    proof {
        lemma_node_of_parts(src, table as int, src_seq);
        lemma_node_of_parts(dst, rt as int, dst_seq);
    }
    let a = match nodes.find(&src) {
        Some(a) => a,
        None => {
            return Err(Error::NodeNotFound(src.to_display(catalog)));
        },
    };
    let b = match nodes.find(&dst) {
        Some(b) => b,
        None => {
            proof {
                assert(node_matches(nodes@[a as int], table as int, src_seq));
            }
            return Err(Error::NodeNotFound(dst.to_display(catalog)));
        },
    };
    proof {
        assert(node_matches(nodes@[a as int], table as int, src_seq));
        assert(node_matches(nodes@[b as int], rt as int, dst_seq));
    }
    let cols = copy_indices(&catalog.tables[table].foreign_keys[fk].host_columns);
    let ec = EdgeClass::new(table, cols);
    let c = match find_edge_class(classes, &ec) {
        Some(c) => c,
        None => {
            return Err(Error::EdgeClassNotFound(ec.to_display(catalog)));
        },
    };
    Ok(Some((a, b, c)))
}

} // verus!
