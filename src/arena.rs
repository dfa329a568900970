//! The node pass: the arena of nodes in node order, whose positions are
//! the global node IDs.
use crate::catalog::Catalog;
use crate::errors::Error;
use crate::node::{
    lemma_node_cmp_flip, lemma_node_cmp_refl, lemma_node_cmp_trans, node_cmp, node_lt, Node,
};
use crate::primary_key::{is_key_of_parts, key_cmp, key_text, keys_cmp, parts_text, PrimaryKey};
use std::cmp::Ordering;
use vstd::prelude::*;

verus! {

/// Each node orders strictly before every later one.
pub open spec fn nodes_sorted(s: Seq<Node>) -> bool {
    forall|i: int, j: int| 0 <= i < j < s.len() ==> node_lt(#[trigger] s[i], #[trigger] s[j])
}

/// Table `t` yields nodes: no table extends it and its primary key has one
/// to three columns.
pub open spec fn is_node_table(cat: Catalog, t: int) -> bool {
    &&& 0 <= t < cat.len()
    &&& !cat.extended(t)
    &&& 1 <= cat.key_width(t) <= 3
}

/// `n` is, up to key equality, the node of table `t` whose key is made of `parts`.
pub open spec fn node_matches(n: Node, t: int, parts: Seq<PrimaryKey>) -> bool {
    &&& n.table == t
    &&& if parts.len() == 1 {
        key_cmp(n.primary_key, parts[0]) == Ordering::Equal
    } else {
        n.primary_key matches PrimaryKey::Composite(v) && keys_cmp(v@, parts, 0) == Ordering::Equal
    }
}

/// The display form of the key made of `parts`.
pub open spec fn parts_key_text(parts: Seq<PrimaryKey>) -> Seq<char> {
    if parts.len() == 1 {
        key_text(parts[0])
    } else if parts.len() == 0 {
        Seq::empty()
    } else {
        key_text(parts[0]) + parts_text(parts, 1)
    }
}

/// The display form of the node of table `t` whose key is made of `parts`.
pub open spec fn parts_node_text(cat: Catalog, t: int, parts: Seq<PrimaryKey>) -> Seq<char> {
    cat.qualified(t) + "("@ + parts_key_text(parts) + ")"@
}

/// Whether the node of table `t` made of `parts` orders strictly after `last`.
pub open spec fn node_matches_after(last: Node, t: int, parts: Seq<PrimaryKey>) -> bool {
    forall|n: Node|
        n.table == t && is_key_of_parts(n.primary_key, parts) ==> #[trigger] node_lt(last, n)
}

/// Whether a node follows `last` depends only on its table and key parts.
proof fn lemma_after_iff(last: Node, n: Node, t: int, parts: Seq<PrimaryKey>)
    requires
        n.table == t,
        1 <= parts.len(),
        is_key_of_parts(n.primary_key, parts),
    ensures
        node_matches_after(last, t, parts) <==> node_lt(last, n),
{
    assert forall|m: Node|
        m.table == t && is_key_of_parts(m.primary_key, parts) implies #[trigger] node_lt(last, m)
            == node_lt(last, n) by {
        if parts.len() != 1 {
            assert(m.primary_key->Composite_0@ == n.primary_key->Composite_0@);
        }
    }
}

/// The nodes of one extraction, in node order; a node's position is its
/// global ID.
#[derive(Debug)]
pub struct NodeArena {
    nodes: Vec<Node>,
}

impl View for NodeArena {
    type V = Seq<Node>;

    closed spec fn view(&self) -> Seq<Node> {
        self.nodes@
    }
}

impl NodeArena {
    /// The arena holds nodes of tables that yield nodes, in strictly
    /// ascending node order.
    pub open spec fn wf(&self, cat: Catalog) -> bool {
        &&& nodes_sorted(self@)
        &&& forall|i: int| 0 <= i < self@.len() ==> is_node_table(cat, #[trigger] self@[i].table as int)
    }

    /// An arena without nodes.
    pub fn new() -> (r: NodeArena)
        ensures
            r@ == Seq::<Node>::empty(),
    {
        NodeArena { nodes: Vec::new() }
    }

    /// An arena without nodes, with room for `capacity` of them.
    pub fn with_capacity(capacity: usize) -> (r: NodeArena)
        ensures
            r@ == Seq::<Node>::empty(),
    {
        NodeArena { nodes: Vec::with_capacity(capacity) }
    }

    /// The number of nodes.
    pub fn len(&self) -> (r: usize)
        ensures
            r == self@.len(),
    {
        self.nodes.len()
    }

    /// The node whose global ID is `id`.
    pub fn get(&self, id: usize) -> (r: &Node)
        requires
            id < self@.len(),
        ensures
            *r == self@[id as int],
    {
        &self.nodes[id]
    }

    /// Appends the node of table `table` whose key is made of `parts`, and
    /// returns its global ID. The node must follow every node before it:
    /// otherwise nothing changes and the node's display form comes back in
    /// an `UnorderedNode` error.
    pub fn push(&mut self, catalog: &Catalog, table: usize, parts: Vec<PrimaryKey>) -> (r: Result<
        usize,
        Error,
    >)
        requires
            old(self).wf(*catalog),
            is_node_table(*catalog, table as int),
            1 <= parts@.len() <= 3,
        ensures
            final(self).wf(*catalog),
            match r {
                Ok(id) => {
                    &&& id == old(self)@.len()
                    &&& final(self)@ == old(self)@.push(final(self)@[id as int])
                    &&& final(self)@[id as int].table == table
                    &&& is_key_of_parts(final(self)@[id as int].primary_key, parts@)
                    &&& (old(self)@.len() == 0 || node_lt(old(self)@.last(), final(self)@[id as int]))
                },
                Err(e) => {
                    &&& final(self)@ == old(self)@
                    &&& old(self)@.len() > 0
                    &&& !node_matches_after(old(self)@.last(), table as int, parts@)
                    &&& e matches Error::UnorderedNode(s) && s@ == parts_node_text(
                        *catalog,
                        table as int,
                        parts@,
                    )
                },
            },
    {
        let ghost ps = parts@;
        let node = Node::new(table, PrimaryKey::from_parts(parts));
        let n = self.nodes.len();
        if n > 0 {
            match self.nodes[n - 1].compare(&node) {
                Ordering::Less => {},
                _ => {
                    proof {
                        lemma_after_iff(self@.last(), node, table as int, ps);
                    }
                    return Err(Error::UnorderedNode(node.to_display(catalog)));
                },
            }
        }
        proof {
            assert forall|i: int, j: int| 0 <= i < j < self@.len() + 1 implies node_lt(
                #[trigger] self@.push(node)[i],
                #[trigger] self@.push(node)[j],
            ) by {
                if j == self@.len() && i < j - 1 {
                    lemma_node_cmp_trans(self@[i], self@[j - 1], node);
                }
            }
        }
        self.nodes.push(node);
        Ok(n)
    }

    /// The global ID of the node that compares equal to `node`, if there is one.
    pub fn find(&self, node: &Node) -> (r: Option<usize>)
        requires
            nodes_sorted(self@),
        ensures
            r matches Some(i) ==> i < self@.len() && node_cmp(self@[i as int], *node)
                == Ordering::Equal,
            r is None ==> forall|i: int|
                0 <= i < self@.len() ==> node_cmp(#[trigger] self@[i], *node) != Ordering::Equal,
    {
        let mut lo: usize = 0;
        let mut hi: usize = self.nodes.len();
        while lo < hi
            invariant
                nodes_sorted(self@),
                lo <= hi <= self@.len(),
                forall|i: int| 0 <= i < lo ==> node_cmp(#[trigger] self@[i], *node) == Ordering::Less,
                forall|i: int|
                    hi <= i < self@.len() ==> node_cmp(#[trigger] self@[i], *node)
                        == Ordering::Greater,
            decreases hi - lo,
        {
            let mid = lo + (hi - lo) / 2;
            match self.nodes[mid].compare(node) {
                Ordering::Equal => {
                    return Some(mid);
                },
                Ordering::Less => {
                    proof {
                        assert forall|i: int| 0 <= i <= mid implies node_cmp(
                            #[trigger] self@[i],
                            *node,
                        ) == Ordering::Less by {
                            if i < mid {
                                lemma_node_cmp_trans(self@[i], self@[mid as int], *node);
                            }
                        }
                    }
                    lo = mid + 1;
                },
                Ordering::Greater => {
                    proof {
                        assert forall|i: int| mid <= i < self@.len() implies node_cmp(
                            #[trigger] self@[i],
                            *node,
                        ) == Ordering::Greater by {
                            if i > mid {
                                lemma_node_cmp_flip(self@[mid as int], *node);
                                lemma_node_cmp_trans(*node, self@[mid as int], self@[i]);
                                lemma_node_cmp_flip(*node, self@[i]);
                            }
                        }
                    }
                    hi = mid;
                },
            }
        }
        None
    }
}

/// Node IDs are dense and unique: in a sorted node sequence two positions
/// hold equal nodes exactly when they are the same position, so the IDs
/// `0..N` name `N` distinct nodes.
pub proof fn lemma_node_ids_dense(nodes: Seq<Node>)
    requires
        nodes_sorted(nodes),
    ensures
        forall|i: int, j: int|
            0 <= i < nodes.len() && 0 <= j < nodes.len() ==> (node_cmp(
                #[trigger] nodes[i],
                #[trigger] nodes[j],
            ) == Ordering::Equal <==> i == j),
{
    assert forall|i: int, j: int| 0 <= i < nodes.len() && 0 <= j < nodes.len() implies (node_cmp(
        #[trigger] nodes[i],
        #[trigger] nodes[j],
    ) == Ordering::Equal <==> i == j) by {
        if j < i {
            lemma_node_cmp_flip(nodes[j], nodes[i]);
        } else if i == j {
            lemma_node_cmp_refl(nodes[i]);
        }
    }
}

/// Only tables that no table extends contribute nodes: a well-formed arena
/// holds no node of an extended table.
pub proof fn lemma_no_nodes_of_extended_tables(arena: NodeArena, cat: Catalog)
    requires
        arena.wf(cat),
    ensures
        forall|i: int| 0 <= i < arena@.len() ==> !cat.extended((#[trigger] arena@[i]).table as int),
{
    assert forall|i: int| 0 <= i < arena@.len() implies !cat.extended(
        (#[trigger] arena@[i]).table as int,
    ) by {
        assert(is_node_table(cat, arena@[i].table as int));
    }
}

/// `nodes` is what pushing `rows`, each a table and the parts of a key, in
/// order builds.
pub open spec fn built_from(nodes: Seq<Node>, rows: Seq<(usize, Seq<PrimaryKey>)>) -> bool {
    &&& nodes.len() == rows.len()
    &&& forall|i: int|
        0 <= i < nodes.len() ==> (#[trigger] nodes[i]).table == rows[i].0 && is_key_of_parts(
            nodes[i].primary_key,
            rows[i].1,
        )
}

/// Node numbering is deterministic: two node sequences built from the same
/// rows hold, at every ID, nodes that compare equal and display the same.
pub proof fn lemma_node_numbering_deterministic(
    a: Seq<Node>,
    b: Seq<Node>,
    rows: Seq<(usize, Seq<PrimaryKey>)>,
)
    requires
        built_from(a, rows),
        built_from(b, rows),
    ensures
        a.len() == b.len(),
        forall|i: int|
            0 <= i < a.len() ==> node_cmp(#[trigger] a[i], b[i]) == Ordering::Equal && key_text(
                a[i].primary_key,
            ) == key_text(b[i].primary_key),
{
    assert forall|i: int| 0 <= i < a.len() implies node_cmp(#[trigger] a[i], b[i])
        == Ordering::Equal && key_text(a[i].primary_key) == key_text(b[i].primary_key) by {
        lemma_node_cmp_refl(a[i]);
        if rows[i].1.len() != 1 {
            assert(a[i].primary_key->Composite_0@ == b[i].primary_key->Composite_0@);
        }
    }
}

/// The sum of the row counts `counts[t]` of the tables `t < n` that yield nodes.
pub open spec fn node_count(cat: Catalog, counts: Seq<u64>, n: int) -> nat
    decreases n,
{
    if n <= 0 {
        0
    } else {
        node_count(cat, counts, n - 1) + if is_node_table(cat, n - 1) {
            counts[n - 1] as nat
        } else {
            0
        }
    }
}

/// The number of nodes of the catalog, from the row count of each table:
/// the sum of the counts of the tables that yield nodes, or `None` when it
/// does not fit in 64 bits.
pub fn number_of_nodes(catalog: &Catalog, row_counts: &Vec<u64>) -> (r: Option<u64>)
    requires
        row_counts@.len() == catalog.len(),
    ensures
        r matches Some(n) ==> n as nat == node_count(*catalog, row_counts@, catalog.len()),
        r is None <==> node_count(*catalog, row_counts@, catalog.len()) > u64::MAX,
{
    let mut total: u64 = 0;
    let mut t: usize = 0;
    while t < row_counts.len()
        invariant
            row_counts@.len() == catalog.len(),
            t <= row_counts@.len(),
            total as nat == node_count(*catalog, row_counts@, t as int),
        decreases row_counts@.len() - t,
    {
        let w = catalog.tables[t].primary_key.len();
        if !catalog.is_extended(t) && 1 <= w && w <= 3 {
            if row_counts[t] > u64::MAX - total {
                proof {
                    lemma_node_count_mono(*catalog, row_counts@, t + 1, catalog.len());
                }
                return None;
            }
            total = total + row_counts[t];
        }
        t = t + 1;
    }
    Some(total)
}

/// The node count over a prefix of the tables is at most that over a longer one.
proof fn lemma_node_count_mono(cat: Catalog, counts: Seq<u64>, k: int, n: int)
    requires
        0 <= k <= n,
    ensures
        node_count(cat, counts, k) <= node_count(cat, counts, n),
    decreases n - k,
{
    if k < n {
        lemma_node_count_mono(cat, counts, k, n - 1);
    }
}

} // verus!
