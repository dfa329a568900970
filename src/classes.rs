//! The edge classes of a catalog, sorted and without repeats, whose
//! positions are the global edge class IDs.
use crate::catalog::Catalog;
use crate::edge_class::{
    edge_class_cmp, edge_class_lt, lemma_edge_class_cmp_equal, lemma_edge_class_cmp_flip,
    lemma_edge_class_cmp_trans, EdgeClass,
};
use crate::order::{index_ints, lemma_lex_at_equal};
use std::cmp::Ordering;
use vstd::prelude::*;

verus! {

/// Each edge class orders strictly before every later one.
pub open spec fn edge_classes_sorted(s: Seq<EdgeClass>) -> bool {
    forall|i: int, j: int|
        0 <= i < j < s.len() ==> edge_class_lt(#[trigger] s[i], #[trigger] s[j])
}

/// The foreign key `f` of table `t` yields an edge class: it references
/// exactly the referenced table's primary key.
pub open spec fn qualifies(cat: Catalog, t: int, f: int) -> bool {
    &&& 0 <= t < cat.len()
    &&& 0 <= f < cat.table(t).foreign_keys@.len()
    &&& cat.targets_primary_key(t, f)
}

/// The columns of the foreign key `f` of table `t`.
pub open spec fn fk_columns(cat: Catalog, t: int, f: int) -> Seq<usize> {
    cat.table(t).foreign_keys@[f].host_columns@
}

/// Some edge class of `s` has host table `host` and columns `cols`.
pub open spec fn lists_class(s: Seq<EdgeClass>, host: int, cols: Seq<usize>) -> bool {
    exists|i: int| 0 <= i < s.len() && #[trigger] s[i].host_table == host && s[i].columns@ == cols
}

/// Some foreign key before foreign key `f_end` of table `t_end` (in
/// catalog order) yields the edge class with host `host` and columns `cols`.
pub open spec fn yields_class_before(
    cat: Catalog,
    t_end: int,
    f_end: int,
    host: int,
    cols: Seq<usize>,
) -> bool {
    exists|t: int, f: int|
        #![trigger qualifies(cat, t, f), fk_columns(cat, t, f)]
        qualifies(cat, t, f) && (t < t_end || (t == t_end && f < f_end)) && host == t && cols
            == fk_columns(cat, t, f)
}

/// Some foreign key of the catalog yields the edge class with host `host`
/// and columns `cols`.
pub open spec fn yields_class(cat: Catalog, host: int, cols: Seq<usize>) -> bool {
    exists|t: int, f: int|
        #![trigger qualifies(cat, t, f), fk_columns(cat, t, f)]
        qualifies(cat, t, f) && host == t && cols == fk_columns(cat, t, f)
}

/// Copies a sequence of positions.
pub(crate) fn copy_indices(v: &Vec<usize>) -> (r: Vec<usize>)
    ensures
        r@ == v@,
{
    let mut out: Vec<usize> = Vec::new();
    let mut i: usize = 0;
    while i < v.len()
        invariant
            i <= v@.len(),
            out@ == v@.subrange(0, i as int),
        decreases v@.len() - i,
    {
        out.push(v[i]);
        proof {
            assert(out@ =~= v@.subrange(0, i + 1));
        }
        i = i + 1;
    }
    proof {
        assert(out@ =~= v@);
    }
    out
}

/// Adds `e` to the sorted edge classes `v` unless an equal one is there.
fn insert_edge_class(v: &mut Vec<EdgeClass>, e: EdgeClass)
    requires
        edge_classes_sorted(old(v)@),
    ensures
        edge_classes_sorted(final(v)@),
        forall|host: int, cols: Seq<usize>|
            #[trigger] lists_class(final(v)@, host, cols) <==> (lists_class(old(v)@, host, cols)
                || (host == e.host_table && cols == e.columns@)),
{
    let ghost old_v = v@;
    let mut p: usize = 0;
    let mut stop = false;
    while p < v.len() && !stop
        invariant
            v@ == old_v,
            edge_classes_sorted(v@),
            p <= v@.len(),
            forall|i: int| 0 <= i < p ==> edge_class_lt(#[trigger] v@[i], e),
            stop ==> p < v@.len() && edge_class_cmp(v@[p as int], e) == Ordering::Greater,
        decreases v@.len() - p, if stop { 0int } else { 1int },
    {
        match v[p].compare(&e) {
            Ordering::Less => {},
            Ordering::Equal => {
                proof {
                    lemma_lex_at_equal(index_ints(v@[p as int].columns@), index_ints(e.columns@), 0);
                    assert(v@[p as int].columns@ =~= e.columns@) by {
                        assert forall|k: int| 0 <= k < e.columns@.len() implies v@[p as int].columns@[k]
                            == e.columns@[k] by {
                            assert(index_ints(v@[p as int].columns@)[k] == index_ints(e.columns@)[k]);
                        }
                    }
                    assert forall|host: int, cols: Seq<usize>|
                        #[trigger] lists_class(v@, host, cols) <==> (lists_class(old_v, host, cols)
                            || (host == e.host_table && cols == e.columns@)) by {
                        if host == e.host_table && cols == e.columns@ {
                            assert(v@[p as int].host_table == host && v@[p as int].columns@ == cols);
                        }
                    }
                }
                return;
            },
            Ordering::Greater => {
                stop = true;
            },
        }
        if !stop {
            p = p + 1;
        }
    }
    proof {
        let nv = old_v.insert(p as int, e);
        assert forall|i: int, j: int| 0 <= i < j < nv.len() implies edge_class_lt(
            #[trigger] nv[i],
            #[trigger] nv[j],
        ) by {
            if j == p {
            } else if i == p {
                lemma_edge_class_cmp_flip(old_v[p as int], e);
                if j - 1 > p {
                    lemma_edge_class_cmp_trans(e, old_v[p as int], old_v[j - 1]);
                }
            } else if i > p {
                assert(nv[i] == old_v[i - 1] && nv[j] == old_v[j - 1]);
            } else if j > p {
                assert(nv[j] == old_v[j - 1]);
            }
        }
        assert forall|host: int, cols: Seq<usize>|
            #[trigger] lists_class(nv, host, cols) <==> (lists_class(old_v, host, cols) || (host
                == e.host_table && cols == e.columns@)) by {
            if lists_class(old_v, host, cols) {
                let i = choose|i: int|
                    0 <= i < old_v.len() && #[trigger] old_v[i].host_table == host && old_v[i].columns@
                        == cols;
                if i < p {
                    assert(nv[i] == old_v[i]);
                } else {
                    assert(nv[i + 1] == old_v[i]);
                }
            }
            if host == e.host_table && cols == e.columns@ {
                assert(nv[p as int] == e);
            }
            if lists_class(nv, host, cols) {
                let j = choose|j: int|
                    0 <= j < nv.len() && #[trigger] nv[j].host_table == host && nv[j].columns@ == cols;
                if j < p {
                    assert(old_v[j] == nv[j]);
                } else if j > p {
                    assert(old_v[j - 1] == nv[j]);
                }
            }
        }
    }
    v.insert(p, e);
}

/// The edge classes of the catalog, sorted and without repeats: one for
/// each foreign key that references exactly its referenced table's primary
/// key. An edge class's position is its global ID.
pub fn edge_classes(catalog: &Catalog) -> (r: Vec<EdgeClass>)
    requires
        catalog.wf(),
    ensures
        edge_classes_sorted(r@),
        forall|host: int, cols: Seq<usize>|
            #[trigger] lists_class(r@, host, cols) <==> yields_class(*catalog, host, cols),
{
    let n = catalog.tables.len();
    let mut out: Vec<EdgeClass> = Vec::new();
    let mut t: usize = 0;
    while t < n
        invariant
            n == catalog.len(),
            catalog.wf(),
            t <= n,
            edge_classes_sorted(out@),
            forall|host: int, cols: Seq<usize>|
                #[trigger] lists_class(out@, host, cols) <==> yields_class_before(
                    *catalog,
                    t as int,
                    0,
                    host,
                    cols,
                ),
        decreases n - t,
    {
        let nf = catalog.tables[t].foreign_keys.len();
        let mut f: usize = 0;
        while f < nf
            invariant
                n == catalog.len(),
                catalog.wf(),
                t < n,
                nf == catalog.table(t as int).foreign_keys@.len(),
                f <= nf,
                edge_classes_sorted(out@),
                forall|host: int, cols: Seq<usize>|
                    #[trigger] lists_class(out@, host, cols) <==> yields_class_before(
                        *catalog,
                        t as int,
                        f as int,
                        host,
                        cols,
                    ),
            decreases nf - f,
        {
            let ghost before = out@;
            if catalog.is_referenced_primary_key(t, f) {
                let cols = copy_indices(&catalog.tables[t].foreign_keys[f].host_columns);
                insert_edge_class(&mut out, EdgeClass::new(t, cols));
                proof {
                    assert forall|host: int, cols: Seq<usize>|
                        #[trigger] lists_class(out@, host, cols) <==> yields_class_before(
                            *catalog,
                            t as int,
                            f + 1,
                            host,
                            cols,
                        ) by {
                        if host == t && cols == fk_columns(*catalog, t as int, f as int) {
                            assert(qualifies(*catalog, t as int, f as int));
                        }
                        if yields_class_before(*catalog, t as int, f + 1, host, cols) {
                            let (t1, f1) = choose|t1: int, f1: int|
                                #![trigger qualifies(*catalog, t1, f1), fk_columns(*catalog, t1, f1)]
                                qualifies(*catalog, t1, f1) && (t1 < t || (t1 == t && f1 < f + 1))
                                    && host == t1 && cols == fk_columns(*catalog, t1, f1);
                            if !(t1 == t && f1 == f) {
                                assert(yields_class_before(*catalog, t as int, f as int, host, cols));
                            }
                        }
                    }
                }
            } else {
                proof {
                    assert forall|host: int, cols: Seq<usize>|
                        #[trigger] lists_class(out@, host, cols) <==> yields_class_before(
                            *catalog,
                            t as int,
                            f + 1,
                            host,
                            cols,
                        ) by {
                        if yields_class_before(*catalog, t as int, f + 1, host, cols) {
                            let (t1, f1) = choose|t1: int, f1: int|
                                #![trigger qualifies(*catalog, t1, f1), fk_columns(*catalog, t1, f1)]
                                qualifies(*catalog, t1, f1) && (t1 < t || (t1 == t && f1 < f + 1))
                                    && host == t1 && cols == fk_columns(*catalog, t1, f1);
                            assert(yields_class_before(*catalog, t as int, f as int, host, cols));
                        }
                    }
                }
            }
            f = f + 1;
        }
        proof {
            assert forall|host: int, cols: Seq<usize>|
                #[trigger] lists_class(out@, host, cols) <==> yields_class_before(
                    *catalog,
                    t + 1,
                    0,
                    host,
                    cols,
                ) by {
                if yields_class_before(*catalog, t as int, f as int, host, cols) {
                    let (t1, f1) = choose|t1: int, f1: int|
                        #![trigger qualifies(*catalog, t1, f1), fk_columns(*catalog, t1, f1)]
                        qualifies(*catalog, t1, f1) && (t1 < t || (t1 == t && f1 < f)) && host
                            == t1 && cols == fk_columns(*catalog, t1, f1);
                    assert(yields_class_before(*catalog, t + 1, 0, host, cols));
                }
                if yields_class_before(*catalog, t + 1, 0, host, cols) {
                    let (t1, f1) = choose|t1: int, f1: int|
                        #![trigger qualifies(*catalog, t1, f1), fk_columns(*catalog, t1, f1)]
                        qualifies(*catalog, t1, f1) && (t1 < t + 1 || (t1 == t + 1 && f1 < 0))
                            && host == t1 && cols == fk_columns(*catalog, t1, f1);
                    assert(yields_class_before(*catalog, t as int, f as int, host, cols));
                }
            }
        }
        t = t + 1;
    }
    proof {
        assert forall|host: int, cols: Seq<usize>|
            #[trigger] lists_class(out@, host, cols) <==> yields_class(*catalog, host, cols) by {
            if yields_class(*catalog, host, cols) {
                let (t1, f1) = choose|t1: int, f1: int|
                    #![trigger qualifies(*catalog, t1, f1), fk_columns(*catalog, t1, f1)]
                    qualifies(*catalog, t1, f1) && host == t1 && cols == fk_columns(*catalog, t1, f1);
                assert(yields_class_before(*catalog, t as int, 0, host, cols));
            }
            if yields_class_before(*catalog, t as int, 0, host, cols) {
                let (t1, f1) = choose|t1: int, f1: int|
                    #![trigger qualifies(*catalog, t1, f1), fk_columns(*catalog, t1, f1)]
                    qualifies(*catalog, t1, f1) && (t1 < t || (t1 == t && f1 < 0)) && host == t1
                        && cols == fk_columns(*catalog, t1, f1);
                assert(yields_class(*catalog, host, cols));
            }
        }
    }
    out
}

/// The global ID of the edge class that equals `e`, if there is one.
pub fn find_edge_class(classes: &Vec<EdgeClass>, e: &EdgeClass) -> (r: Option<usize>)
    requires
        edge_classes_sorted(classes@),
    ensures
        r matches Some(i) ==> i < classes@.len() && classes@[i as int].host_table == e.host_table
            && classes@[i as int].columns@ == e.columns@,
        r is None ==> !lists_class(classes@, e.host_table as int, e.columns@),
{
    let mut lo: usize = 0;
    let mut hi: usize = classes.len();
    while lo < hi
        invariant
            edge_classes_sorted(classes@),
            lo <= hi <= classes@.len(),
            forall|i: int|
                0 <= i < lo ==> edge_class_cmp(#[trigger] classes@[i], *e) == Ordering::Less,
            forall|i: int|
                hi <= i < classes@.len() ==> edge_class_cmp(#[trigger] classes@[i], *e)
                    == Ordering::Greater,
        decreases hi - lo,
    {
        let mid = lo + (hi - lo) / 2;
        match classes[mid].compare(e) {
            Ordering::Equal => {
                proof {
                    lemma_edge_class_cmp_equal(classes@[mid as int], *e);
                }
                return Some(mid);
            },
            Ordering::Less => {
                proof {
                    assert forall|i: int| 0 <= i <= mid implies edge_class_cmp(
                        #[trigger] classes@[i],
                        *e,
                    ) == Ordering::Less by {
                        if i < mid {
                            lemma_edge_class_cmp_trans(classes@[i], classes@[mid as int], *e);
                        }
                    }
                }
                lo = mid + 1;
            },
            Ordering::Greater => {
                proof {
                    assert forall|i: int| mid <= i < classes@.len() implies edge_class_cmp(
                        #[trigger] classes@[i],
                        *e,
                    ) == Ordering::Greater by {
                        if i > mid {
                            lemma_edge_class_cmp_flip(classes@[mid as int], *e);
                            lemma_edge_class_cmp_trans(*e, classes@[mid as int], classes@[i]);
                            lemma_edge_class_cmp_flip(*e, classes@[i]);
                        }
                    }
                }
                hi = mid;
            },
        }
    }
    proof {
        assert forall|i: int| 0 <= i < classes@.len() implies !(#[trigger] classes@[i].host_table
            == e.host_table && classes@[i].columns@ == e.columns@) by {
            lemma_edge_class_cmp_equal(classes@[i], *e);
        }
    }
    None
}

/// Edge class IDs are dense and unique: in a sorted edge class sequence two
/// positions hold the same host table and columns exactly when they are the
/// same position, so the IDs `0..N` name `N` distinct edge classes.
pub proof fn lemma_edge_class_ids_dense(classes: Seq<EdgeClass>)
    requires
        edge_classes_sorted(classes),
    ensures
        forall|i: int, j: int|
            0 <= i < classes.len() && 0 <= j < classes.len() ==> ((#[trigger] classes[i]).host_table
                == (#[trigger] classes[j]).host_table && classes[i].columns@ == classes[j].columns@
                <==> i == j),
{
    assert forall|i: int, j: int| 0 <= i < classes.len() && 0 <= j < classes.len() implies ((
    #[trigger] classes[i]).host_table == (#[trigger] classes[j]).host_table
        && classes[i].columns@ == classes[j].columns@ <==> i == j) by {
        lemma_edge_class_cmp_equal(classes[i], classes[j]);
        if j < i {
            lemma_edge_class_cmp_flip(classes[j], classes[i]);
        }
    }
}

/// Edge class numbering is deterministic: two sorted edge class sequences
/// that list the same edge classes hold the same edge class at every ID.
pub proof fn lemma_edge_class_numbering_deterministic(a: Seq<EdgeClass>, b: Seq<EdgeClass>)
    requires
        edge_classes_sorted(a),
        edge_classes_sorted(b),
        forall|host: int, cols: Seq<usize>|
            #[trigger] lists_class(a, host, cols) <==> lists_class(b, host, cols),
    ensures
        a.len() == b.len(),
        forall|i: int|
            0 <= i < a.len() ==> (#[trigger] a[i]).host_table == b[i].host_table && a[i].columns@
                == b[i].columns@,
{
    lemma_edge_class_ids_dense(a);
    lemma_edge_class_ids_dense(b);
    let n = if a.len() < b.len() {
        a.len() as int
    } else {
        b.len() as int
    };
    lemma_prefix_agrees(a, b, n);
    if a.len() >= b.len() {
        lemma_listed_beyond(a, b, n);
    } else {
        lemma_listed_beyond(b, a, n);
    }
}

/// Two sorted edge class sequences that list the same classes agree on
/// their first `i` positions.
proof fn lemma_prefix_agrees(a: Seq<EdgeClass>, b: Seq<EdgeClass>, i: int)
    requires
        edge_classes_sorted(a),
        edge_classes_sorted(b),
        forall|host: int, cols: Seq<usize>|
            #[trigger] lists_class(a, host, cols) <==> lists_class(b, host, cols),
        0 <= i <= a.len(),
        i <= b.len(),
    ensures
        forall|j: int|
            0 <= j < i ==> (#[trigger] a[j]).host_table == b[j].host_table && a[j].columns@
                == b[j].columns@,
    decreases i,
{
    if i > 0 {
        lemma_prefix_agrees(a, b, i - 1);
        lemma_same_position(a, b, i - 1);
    }
}

/// When two sorted edge class sequences that list the same classes agree
/// before position `i`, the class at `i` of `a` is at `i` in `b` too.
proof fn lemma_same_position(a: Seq<EdgeClass>, b: Seq<EdgeClass>, i: int)
    requires
        edge_classes_sorted(a),
        edge_classes_sorted(b),
        forall|host: int, cols: Seq<usize>|
            #[trigger] lists_class(a, host, cols) <==> lists_class(b, host, cols),
        0 <= i < a.len(),
        i < b.len(),
        forall|j: int|
            0 <= j < i ==> (#[trigger] a[j]).host_table == b[j].host_table && a[j].columns@
                == b[j].columns@,
    ensures
        a[i].host_table == b[i].host_table && a[i].columns@ == b[i].columns@,
{
    assert(lists_class(a, a[i].host_table as int, a[i].columns@));
    assert(lists_class(b, a[i].host_table as int, a[i].columns@));
    let k = choose|k: int|
        0 <= k < b.len() && #[trigger] b[k].host_table == a[i].host_table && b[k].columns@
            == a[i].columns@;
    assert(lists_class(b, b[i].host_table as int, b[i].columns@));
    assert(lists_class(a, b[i].host_table as int, b[i].columns@));
    let m = choose|m: int|
        0 <= m < a.len() && #[trigger] a[m].host_table == b[i].host_table && a[m].columns@
            == b[i].columns@;
    if k < i {
        lemma_edge_class_cmp_equal(a[k], a[i]);
        assert(edge_class_lt(a[k], a[i]));
    }
    if m < i {
        lemma_edge_class_cmp_equal(b[m], b[i]);
        assert(edge_class_lt(b[m], b[i]));
    }
    if k > i {
        assert(edge_class_lt(b[i], b[k]));
        assert(edge_class_cmp(b[i], a[i]) == Ordering::Less);
        assert(edge_class_cmp(a[m], a[i]) == Ordering::Less);
        if m == i {
            lemma_edge_class_cmp_flip(a[i], a[i]);
        } else {
            assert(edge_class_lt(a[i], a[m]));
            lemma_edge_class_cmp_flip(a[i], a[m]);
        }
    }
}

/// A sorted sequence that lists the same classes as a shorter one and agrees
/// with it up to its length ends there too.
proof fn lemma_listed_beyond(a: Seq<EdgeClass>, b: Seq<EdgeClass>, n: int)
    requires
        edge_classes_sorted(a),
        forall|host: int, cols: Seq<usize>|
            #[trigger] lists_class(a, host, cols) <==> lists_class(b, host, cols),
        n == b.len(),
        n <= a.len(),
        forall|j: int|
            0 <= j < n ==> (#[trigger] a[j]).host_table == b[j].host_table && a[j].columns@
                == b[j].columns@,
    ensures
        a.len() == n,
{
    if n == a.len() {
        return;
    }
    assert(lists_class(a, a[n].host_table as int, a[n].columns@));
    let k = choose|k: int|
        0 <= k < b.len() && #[trigger] b[k].host_table == a[n].host_table && b[k].columns@
            == a[n].columns@;
    assert(a[k].host_table == b[k].host_table);
    lemma_edge_class_cmp_equal(a[k], a[n]);
    assert(edge_class_lt(a[k], a[n]));
}

} // verus!
