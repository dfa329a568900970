//! The rows of the four exported relations: node classes, nodes, edge
//! classes and edges.
use crate::catalog::{columns_in, Catalog};
use crate::edge_class::{edge_class_text, EdgeClass};
use crate::node::{node_text, Node};
use crate::text::{decimal, int_text};
use vstd::prelude::*;
use vstd::string::*;

verus! {

/// The header row of the node classes relation.
pub const NODE_CLASSES_HEADER: &'static str = "node_class";

/// The header row of the nodes relation.
pub const NODES_HEADER: &'static str = "node,node_class_ids";

/// The header row of the edge classes relation.
pub const EDGE_CLASSES_HEADER: &'static str = "edge_class";

/// The header row of the edges relation.
pub const EDGES_HEADER: &'static str = "src_id,dst_id,edge_class_id";

/// `s` between double quotes.
pub open spec fn quoted(s: Seq<char>) -> Seq<char> {
    "\""@ + s + "\""@
}

/// The IDs `ids[i..]` in decimal, each after `|`.
pub open spec fn ids_text_from(ids: Seq<usize>, i: int) -> Seq<char>
    decreases ids.len() - i,
{
    if i < 0 || i >= ids.len() {
        Seq::empty()
    } else {
        "|"@ + decimal(ids[i] as int) + ids_text_from(ids, i + 1)
    }
}

/// The IDs `ids` in decimal, joined by `|`.
pub open spec fn ids_text(ids: Seq<usize>) -> Seq<char> {
    if ids.len() == 0 {
        Seq::empty()
    } else {
        decimal(ids[0] as int) + ids_text_from(ids, 1)
    }
}

/// The class IDs of the nodes of table `t`: its own, then its ancestors',
/// nearest first.
pub open spec fn class_ids(cat: Catalog, t: int) -> Seq<usize> {
    seq![t as usize] + cat.ancestors_of(t)
}

/// The row of the node classes relation for table `t`.
pub fn node_class_row(catalog: &Catalog, table: usize) -> (r: String)
    requires
        table < catalog.len(),
    ensures
        r@ == quoted(catalog.qualified(table as int)),
{
    let mut out = String::from_str("\"");
    let name = catalog.qualified_name(table);
    out.append(name.as_str());
    out.append("\"");
    out
}

/// The class IDs of the nodes of table `t`: its own, then those of the
/// tables it extends, nearest first.
pub fn node_class_ids(catalog: &Catalog, table: usize) -> (r: Vec<usize>)
    requires
        catalog.wf(),
        table < catalog.len(),
    ensures
        r@ == class_ids(*catalog, table as int),
{
    let ancestors = catalog.ancestors(table);
    let mut out: Vec<usize> = Vec::new();
    out.push(table);
    let mut i: usize = 0;
    while i < ancestors.len()
        invariant
            i <= ancestors@.len(),
            out@ == seq![table].add(ancestors@.subrange(0, i as int)),
        decreases ancestors@.len() - i,
    {
        out.push(ancestors[i]);
        proof {
            assert(out@ =~= seq![table].add(ancestors@.subrange(0, i + 1)));
        }
        i = i + 1;
    }
    proof {
        assert(ancestors@.subrange(0, i as int) =~= ancestors@);
    }
    out
}

/// IDs in decimal, joined by `|`.
pub fn join_ids(ids: &Vec<usize>) -> (r: String)
    ensures
        r@ == ids_text(ids@),
{
    if ids.len() == 0 {
        return String::new();
    }
    let mut out = int_text(ids[0] as i128);
    let mut i: usize = 1;
    while i < ids.len()
        invariant
            1 <= i <= ids@.len(),
            out@ + ids_text_from(ids@, i as int) == ids_text(ids@),
        decreases ids@.len() - i,
    {
        let d = int_text(ids[i] as i128);
        proof {
            assert(out@ + "|"@ + d@ + ids_text_from(ids@, i + 1) =~= out@ + ids_text_from(
                ids@,
                i as int,
            ));
        }
        out.append("|");
        out.append(d.as_str());
        i = i + 1;
    }
    proof {
        assert(out@ + ids_text_from(ids@, i as int) =~= out@);
    }
    out
}

/// The row of the nodes relation for `node`: its quoted display form, then
/// its class IDs.
pub fn node_row(catalog: &Catalog, node: &Node) -> (r: String)
    requires
        catalog.wf(),
        node.table < catalog.len(),
    ensures
        r@ == quoted(node_text(*catalog, *node)) + ","@ + ids_text(
            class_ids(*catalog, node.table as int),
        ),
{
    let mut out = String::from_str("\"");
    let text = node.to_display(catalog);
    let ids = node_class_ids(catalog, node.table);
    let ids_str = join_ids(&ids);
    out.append(text.as_str());
    out.append("\",");
    proof {
        reveal_strlit("\"");
        reveal_strlit(",");
        reveal_strlit("\",");
    }
    out.append(ids_str.as_str());
    proof {
        assert(out@ =~= quoted(node_text(*catalog, *node)) + ","@ + ids_text(
            class_ids(*catalog, node.table as int),
        ));
    }
    out
}

/// The row of the edge classes relation for `edge_class`: its quoted
/// display form.
pub fn edge_class_row(catalog: &Catalog, edge_class: &EdgeClass) -> (r: String)
    requires
        edge_class.host_table < catalog.len(),
        columns_in(
            edge_class.columns@,
            catalog.table(edge_class.host_table as int).columns@.len() as int,
        ),
    ensures
        r@ == quoted(edge_class_text(*catalog, *edge_class)),
{
    let mut out = String::from_str("\"");
    let text = edge_class.to_display(catalog);
    out.append(text.as_str());
    out.append("\"");
    out
}

/// The row of the edges relation for an edge: the source node ID, the
/// destination node ID and the edge class ID, in decimal, joined by `,`.
pub fn edge_row(src: usize, dst: usize, edge_class: usize) -> (r: String)
    ensures
        r@ == decimal(src as int) + ","@ + decimal(dst as int) + ","@ + decimal(edge_class as int),
{
    let mut out = int_text(src as i128);
    let d = int_text(dst as i128);
    let e = int_text(edge_class as i128);
    out.append(",");
    out.append(d.as_str());
    out.append(",");
    out.append(e.as_str());
    out
}

} // verus!
