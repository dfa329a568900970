//! The SQL text of the queries that the two passes run: the primary keys of
//! a table in key order, the key and foreign key columns of a host table, and
//! a table's row count.
use crate::catalog::{columns_in, Catalog, ColumnType};
use vstd::prelude::*;
use vstd::string::*;

verus! {

/// An identifier between double quotes.
pub open spec fn quote_ident(s: Seq<char>) -> Seq<char> {
    "\""@ + s + "\""@
}

/// Table `t` as it is named in a query: its quoted name, after its quoted
/// schema if it has one.
pub open spec fn table_ref(cat: Catalog, t: int) -> Seq<char> {
    match cat.table(t).schema {
        Some(s) => quote_ident(s@) + "."@ + quote_ident(cat.table(t).name@),
        None => quote_ident(cat.table(t).name@),
    }
}

/// The alias of the `i`-th selected key column; `host` for the columns of
/// a foreign key.
pub open spec fn alias(i: int, host: bool) -> Seq<char> {
    if host {
        if i == 0 {
            "first_host"@
        } else if i == 1 {
            "second_host"@
        } else {
            "third_host"@
        }
    } else {
        if i == 0 {
            "first"@
        } else if i == 1 {
            "second"@
        } else {
            "third"@
        }
    }
}

/// The quoted name of column `c` of table `t`.
pub open spec fn column_ref(cat: Catalog, t: int, c: int) -> Seq<char> {
    quote_ident(cat.table(t).columns@[c].name@)
}

/// The items of `items` joined by `", "`.
pub open spec fn joined(items: Seq<Seq<char>>) -> Seq<char>
    decreases items.len(),
{
    if items.len() == 0 {
        Seq::empty()
    } else if items.len() == 1 {
        items[0]
    } else {
        joined(items.drop_last()) + ", "@ + items.last()
    }
}

/// The selection of the columns `cols` of table `t`, each under its alias.
pub open spec fn select_list(cat: Catalog, t: int, cols: Seq<usize>, host: bool) -> Seq<char> {
    joined(
        Seq::new(
            cols.len(),
            |i: int| column_ref(cat, t, cols[i] as int) + " AS "@ + alias(i, host),
        ),
    )
}

/// A column of type `c` holds text.
pub open spec fn is_textual(c: ColumnType) -> bool {
    c == ColumnType::Text || c == ColumnType::Varchar
}

/// The ordering term of column `c` of table `t`: textual columns are compared
/// byte by byte.
pub open spec fn order_item(cat: Catalog, t: int, c: int) -> Seq<char> {
    column_ref(cat, t, c) + if is_textual(cat.table(t).columns@[c].data_type) {
        " COLLATE \"C\""@
    } else {
        ""@
    }
}

/// The ordering by the columns `cols` of table `t`.
pub open spec fn order_list(cat: Catalog, t: int, cols: Seq<usize>) -> Seq<char> {
    joined(Seq::new(cols.len(), |i: int| order_item(cat, t, cols[i] as int)))
}

/// The query for the primary keys of table `t`, in key order.
pub open spec fn node_query_text(cat: Catalog, t: int) -> Seq<char> {
    let pk = cat.table(t).primary_key@;
    "SELECT "@ + select_list(cat, t, pk, false) + " FROM "@ + table_ref(cat, t) + " ORDER BY "@
        + order_list(cat, t, pk)
}

/// The query for the primary key and the foreign key `f` columns of every
/// row of table `t`, in primary key order, then foreign key order.
pub open spec fn edge_query_text(cat: Catalog, t: int, f: int) -> Seq<char> {
    let pk = cat.table(t).primary_key@;
    let fk = cat.table(t).foreign_keys@[f].host_columns@;
    "SELECT "@ + select_list(cat, t, pk, false) + ", "@ + select_list(cat, t, fk, true) + " FROM "@
        + table_ref(cat, t) + " ORDER BY "@ + order_list(cat, t, pk) + ", "@ + order_list(
        cat,
        t,
        fk,
    )
}

/// The query for the number of rows of table `t`.
pub open spec fn count_query_text(cat: Catalog, t: int) -> Seq<char> {
    "SELECT COUNT(*) AS count FROM "@ + table_ref(cat, t)
}

fn append_table_ref(out: &mut String, catalog: &Catalog, t: usize)
    requires
        t < catalog.len(),
    ensures
        final(out)@ == old(out)@ + table_ref(*catalog, t as int),
{
    let tb = &catalog.tables[t];
    match &tb.schema {
        Some(s) => {
            out.append("\"");
            out.append(s.as_str());
            out.append("\"");
            out.append(".");
        },
        None => {},
    }
    out.append("\"");
    out.append(tb.name.as_str());
    out.append("\"");
    proof {
        assert(out@ =~= old(out)@ + table_ref(*catalog, t as int));
    }
}

fn append_alias(out: &mut String, i: usize, host: bool)
    ensures
        final(out)@ == old(out)@ + alias(i as int, host),
{
    if host {
        if i == 0 {
            out.append("first_host");
        } else if i == 1 {
            out.append("second_host");
        } else {
            out.append("third_host");
        }
    } else {
        if i == 0 {
            out.append("first");
        } else if i == 1 {
            out.append("second");
        } else {
            out.append("third");
        }
    }
}

proof fn lemma_joined_step(items: Seq<Seq<char>>, i: int)
    requires
        1 <= i < items.len(),
    ensures
        joined(items.subrange(0, i + 1)) == joined(items.subrange(0, i)) + ", "@ + items[i],
{
    assert(items.subrange(0, i + 1).drop_last() =~= items.subrange(0, i));
}

fn append_select_list(out: &mut String, catalog: &Catalog, t: usize, cols: &Vec<usize>, host: bool)
    requires
        t < catalog.len(),
        columns_in(cols@, catalog.table(t as int).columns@.len() as int),
    ensures
        final(out)@ == old(out)@ + select_list(*catalog, t as int, cols@, host),
{
    let ghost items = Seq::new(
        cols@.len(),
        |i: int| column_ref(*catalog, t as int, cols@[i] as int) + " AS "@ + alias(i, host),
    );
    let ghost start = out@;
    let tb = &catalog.tables[t];
    let mut i: usize = 0;
    while i < cols.len()
        invariant
            t < catalog.len(),
            *tb == catalog.table(t as int),
            columns_in(cols@, tb.columns@.len() as int),
            i <= cols@.len(),
            items.len() == cols@.len(),
            items == Seq::new(
                cols@.len(),
                |i: int| column_ref(*catalog, t as int, cols@[i] as int) + " AS "@ + alias(i, host),
            ),
            out@ == start + joined(items.subrange(0, i as int)),
        decreases cols@.len() - i,
    {
        let ghost before = out@;
        if i > 0 {
            out.append(", ");
        }
        out.append("\"");
        out.append(tb.columns[cols[i]].name.as_str());
        out.append("\" AS ");
        append_alias(out, i, host);
        proof {
            reveal_strlit("\"");
            reveal_strlit("\" AS ");
            reveal_strlit(" AS ");
            if i > 0 {
                lemma_joined_step(items, i as int);
            } else {
                assert(items.subrange(0, 1) =~= seq![items[0]]);
            }
            assert(out@ =~= start + joined(items.subrange(0, i + 1)));
        }
        i = i + 1;
    }
    proof {
        assert(items.subrange(0, i as int) =~= items);
    }
}

fn append_order_list(out: &mut String, catalog: &Catalog, t: usize, cols: &Vec<usize>)
    requires
        t < catalog.len(),
        columns_in(cols@, catalog.table(t as int).columns@.len() as int),
    ensures
        final(out)@ == old(out)@ + order_list(*catalog, t as int, cols@),
{
    let ghost items = Seq::new(cols@.len(), |i: int| order_item(*catalog, t as int, cols@[i] as int));
    let ghost start = out@;
    let tb = &catalog.tables[t];
    let mut i: usize = 0;
    while i < cols.len()
        invariant
            t < catalog.len(),
            *tb == catalog.table(t as int),
            columns_in(cols@, tb.columns@.len() as int),
            i <= cols@.len(),
            items.len() == cols@.len(),
            items == Seq::new(cols@.len(), |i: int| order_item(*catalog, t as int, cols@[i] as int)),
            out@ == start + joined(items.subrange(0, i as int)),
        decreases cols@.len() - i,
    {
        if i > 0 {
            out.append(", ");
        }
        let col = &tb.columns[cols[i]];
        out.append("\"");
        out.append(col.name.as_str());
        out.append("\"");
        let textual = match col.data_type {
            ColumnType::Text | ColumnType::Varchar => true,
            _ => false,
        };
        if textual {
            out.append(" COLLATE \"C\"");
        }
        proof {
            reveal_strlit("");
            if i > 0 {
                lemma_joined_step(items, i as int);
            } else {
                assert(items.subrange(0, 1) =~= seq![items[0]]);
            }
            assert(out@ =~= start + joined(items.subrange(0, i + 1)));
        }
        i = i + 1;
    }
    proof {
        assert(items.subrange(0, i as int) =~= items);
    }
}

/// The query for the primary keys of table `table`, in key order, textual
/// columns compared byte by byte.
pub fn node_query(catalog: &Catalog, table: usize) -> (r: String)
    requires
        catalog.wf(),
        table < catalog.len(),
    ensures
        r@ == node_query_text(*catalog, table as int),
{
    proof {
        assert(catalog.table_wf(table as int));
    }
    let tb = &catalog.tables[table];
    let mut out = String::from_str("SELECT ");
    append_select_list(&mut out, catalog, table, &tb.primary_key, false);
    out.append(" FROM ");
    append_table_ref(&mut out, catalog, table);
    out.append(" ORDER BY ");
    append_order_list(&mut out, catalog, table, &tb.primary_key);
    proof {
        assert(out@ =~= node_query_text(*catalog, table as int));
    }
    out
}

/// The query for the primary key and the foreign key `fk` columns of every
/// row of table `table`, in primary key order, then foreign key order.
pub fn edge_query(catalog: &Catalog, table: usize, fk: usize) -> (r: String)
    requires
        catalog.wf(),
        table < catalog.len(),
        fk < catalog.table(table as int).foreign_keys@.len(),
    ensures
        r@ == edge_query_text(*catalog, table as int, fk as int),
{
    proof {
        assert(catalog.table_wf(table as int));
        assert(catalog.foreign_key_wf(table as int, fk as int));
    }
    let tb = &catalog.tables[table];
    let mut out = String::from_str("SELECT ");
    append_select_list(&mut out, catalog, table, &tb.primary_key, false);
    out.append(", ");
    append_select_list(&mut out, catalog, table, &tb.foreign_keys[fk].host_columns, true);
    out.append(" FROM ");
    append_table_ref(&mut out, catalog, table);
    out.append(" ORDER BY ");
    append_order_list(&mut out, catalog, table, &tb.primary_key);
    out.append(", ");
    append_order_list(&mut out, catalog, table, &tb.foreign_keys[fk].host_columns);
    proof {
        assert(out@ =~= edge_query_text(*catalog, table as int, fk as int));
    }
    out
}

/// The query for the number of rows of table `table`.
pub fn count_query(catalog: &Catalog, table: usize) -> (r: String)
    requires
        table < catalog.len(),
    ensures
        r@ == count_query_text(*catalog, table as int),
{
    let mut out = String::from_str("SELECT COUNT(*) AS count FROM ");
    append_table_ref(&mut out, catalog, table);
    out
}

} // verus!
