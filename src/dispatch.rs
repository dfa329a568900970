//! The key-type dispatcher: which key column types can be decoded, alone or
//! as the two sides of a foreign key.
use crate::catalog::{Catalog, ColumnType};
use crate::errors::Error;
use crate::primary_key::PrimaryKey;
use vstd::prelude::*;

verus! {

/// How a key column's values are decoded.
#[derive(Debug, Clone, Copy, PartialEq, Eq, Structural)]
pub enum KeyKind {
    /// As text.
    Text,
    /// As a 32-bit integer.
    Int,
    /// As a UUID.
    Uuid,
}

/// How a column of type `t` is decoded, if it can be.
pub open spec fn kind_of(t: ColumnType) -> Option<KeyKind> {
    match t {
        ColumnType::Text | ColumnType::Varchar => Some(KeyKind::Text),
        ColumnType::Int => Some(KeyKind::Int),
        ColumnType::Uuid => Some(KeyKind::Uuid),
        ColumnType::Other => None,
    }
}

/// The pairs (host primary key type, foreign key column type) of single
/// columns across which an edge can be decoded.
pub open spec fn pair_supported(host: ColumnType, fk: ColumnType) -> bool {
    match (host, fk) {
        (ColumnType::Text, ColumnType::Text) => true,
        (ColumnType::Text, ColumnType::Varchar) => true,
        (ColumnType::Varchar, ColumnType::Text) => true,
        (ColumnType::Varchar, ColumnType::Varchar) => true,
        (ColumnType::Int, ColumnType::Int) => true,
        (ColumnType::Uuid, ColumnType::Uuid) => true,
        (ColumnType::Int, ColumnType::Uuid) => true,
        (ColumnType::Uuid, ColumnType::Int) => true,
        (ColumnType::Varchar, ColumnType::Uuid) => true,
        (ColumnType::Uuid, ColumnType::Varchar) => true,
        _ => false,
    }
}

/// The type of the `i`-th primary key column of table `t`.
pub open spec fn pk_type(cat: Catalog, t: int, i: int) -> ColumnType {
    cat.table(t).columns@[cat.table(t).primary_key@[i] as int].data_type
}

/// The type of the `i`-th column of the foreign key `f` of table `t`.
pub open spec fn fk_type(cat: Catalog, t: int, f: int, i: int) -> ColumnType {
    cat.table(t).columns@[cat.table(t).foreign_keys@[f].host_columns@[i] as int].data_type
}

/// The primary key of table `t` has a supported shape: its columns all have
/// one normalized type, and that type can be decoded.
pub open spec fn key_supported(cat: Catalog, t: int) -> bool {
    &&& kind_of(pk_type(cat, t, 0)) is Some
    &&& forall|i: int| 0 <= i < cat.key_width(t) ==> #[trigger] pk_type(cat, t, i) == pk_type(cat, t, 0)
}

/// How a column of type `t` is decoded, if it can be.
pub fn key_kind(t: ColumnType) -> (r: Option<KeyKind>)
    ensures
        r == kind_of(t),
{
    match t {
        ColumnType::Text | ColumnType::Varchar => Some(KeyKind::Text),
        ColumnType::Int => Some(KeyKind::Int),
        ColumnType::Uuid => Some(KeyKind::Uuid),
        ColumnType::Other => None,
    }
}

/// Whether an edge can be decoded across a host primary key column of type
/// `host` and a foreign key column of type `fk`.
pub fn is_pair_supported(host: ColumnType, fk: ColumnType) -> (r: bool)
    ensures
        r == pair_supported(host, fk),
{
    match (host, fk) {
        (ColumnType::Text, ColumnType::Text) => true,
        (ColumnType::Text, ColumnType::Varchar) => true,
        (ColumnType::Varchar, ColumnType::Text) => true,
        (ColumnType::Varchar, ColumnType::Varchar) => true,
        (ColumnType::Int, ColumnType::Int) => true,
        (ColumnType::Uuid, ColumnType::Uuid) => true,
        (ColumnType::Int, ColumnType::Uuid) => true,
        (ColumnType::Uuid, ColumnType::Int) => true,
        (ColumnType::Varchar, ColumnType::Uuid) => true,
        (ColumnType::Uuid, ColumnType::Varchar) => true,
        _ => false,
    }
}

/// How the primary key of table `t` is decoded for the node pass.
///
/// A table without a primary key, or with one of more than three columns,
/// yields no nodes: `Ok(None)`. A key whose columns do not all have one
/// normalized type, or whose type cannot be decoded, is an
/// `UnsupportedKeyShape` error. Otherwise the decoding of each key column, in
/// key order.
pub fn node_key_plan(catalog: &Catalog, table: usize) -> (r: Result<Option<Vec<KeyKind>>, Error>)
    requires
        catalog.wf(),
        table < catalog.len(),
    ensures
        !(1 <= catalog.key_width(table as int) <= 3) ==> r matches Ok(None),
        1 <= catalog.key_width(table as int) <= 3 ==> match r {
            Ok(Some(kinds)) => {
                &&& key_supported(*catalog, table as int)
                &&& kinds@.len() == catalog.key_width(table as int)
                &&& forall|i: int|
                    0 <= i < kinds@.len() ==> Some(#[trigger] kinds@[i]) == kind_of(
                        pk_type(*catalog, table as int, i),
                    )
            },
            Ok(None) => false,
            Err(e) => !key_supported(*catalog, table as int) && e == Error::UnsupportedKeyShape {
                table,
                foreign_key: None,
            },
        },
{
    let tb = &catalog.tables[table];
    let w = tb.primary_key.len();
    if w == 0 || w > 3 {
        return Ok(None);
    }
    proof {
        assert(catalog.table_wf(table as int));
    }
    let first = tb.columns[tb.primary_key[0]].data_type;
    let kind = match key_kind(first) {
        Some(k) => k,
        None => {
            return Err(Error::UnsupportedKeyShape { table, foreign_key: None });
        },
    };
    let mut kinds: Vec<KeyKind> = Vec::new();
    let mut i: usize = 0;
    while i < w
        invariant
            catalog.wf(),
            table < catalog.len(),
            *tb == catalog.table(table as int),
            w == catalog.key_width(table as int),
            1 <= w <= 3,
            crate::catalog::columns_in(tb.primary_key@, tb.columns@.len() as int),
            i <= w,
            first == pk_type(*catalog, table as int, 0),
            Some(kind) == kind_of(first),
            kinds@.len() == i,
            forall|j: int|
                0 <= j < i ==> #[trigger] pk_type(*catalog, table as int, j) == first && kinds@[j]
                    == kind,
        decreases w - i,
    {
        if tb.columns[tb.primary_key[i]].data_type != first {
            proof {
                assert(pk_type(*catalog, table as int, i as int) != pk_type(*catalog, table as int, 0));
            }
            return Err(Error::UnsupportedKeyShape { table, foreign_key: None });
        }
        kinds.push(kind);
        i = i + 1;
    }
    Ok(Some(kinds))
}

/// How the foreign key `f` of table `t` is decoded for the edge pass: the
/// decoding of the host primary key and of the foreign key column.
///
/// A foreign key that does not reference exactly its referenced table's
/// primary key, or whose host table has no primary key or one of more than
/// three columns, yields no edges: `Ok(None)`. Otherwise both keys must be
/// single columns whose types form a supported pair; any other shape is an
/// `UnsupportedKeyShape` error.
pub fn edge_key_plan(catalog: &Catalog, table: usize, fk: usize) -> (r: Result<
    Option<(KeyKind, KeyKind)>,
    Error,
>)
    requires
        catalog.wf(),
        table < catalog.len(),
        fk < catalog.table(table as int).foreign_keys@.len(),
    ensures
        ({
            let w = catalog.key_width(table as int);
            let cols = catalog.table(table as int).foreign_keys@[fk as int].host_columns@;
            if !catalog.targets_primary_key(table as int, fk as int) || !(1 <= w <= 3) {
                r matches Ok(None)
            } else if w == 1 && cols.len() == 1 && pair_supported(
                pk_type(*catalog, table as int, 0),
                fk_type(*catalog, table as int, fk as int, 0),
            ) {
                r matches Ok(Some((h, k))) && Some(h) == kind_of(
                    pk_type(*catalog, table as int, 0),
                ) && Some(k) == kind_of(fk_type(*catalog, table as int, fk as int, 0))
            } else {
                r matches Err(e) && e == Error::UnsupportedKeyShape {
                    table,
                    foreign_key: Some(fk),
                }
            }
        }),
{
    proof {
        assert(catalog.table_wf(table as int));
        assert(catalog.foreign_key_wf(table as int, fk as int));
    }
    let tb = &catalog.tables[table];
    let w = tb.primary_key.len();
    if !catalog.is_referenced_primary_key(table, fk) || w == 0 || w > 3 {
        return Ok(None);
    }
    let cols = &tb.foreign_keys[fk].host_columns;
    if w == 1 && cols.len() == 1 {
        let host = tb.columns[tb.primary_key[0]].data_type;
        let fkt = tb.columns[cols[0]].data_type;
        if is_pair_supported(host, fkt) {
            match (key_kind(host), key_kind(fkt)) {
                (Some(h), Some(k)) => {
                    return Ok(Some((h, k)));
                },
                _ => {},
            }
        }
    }
    Err(Error::UnsupportedKeyShape { table, foreign_key: Some(fk) })
}

/// The key `k` is a value of the decoding `kind`.
pub open spec fn fits(kind: KeyKind, k: PrimaryKey) -> bool {
    match kind {
        KeyKind::Text => k is String,
        KeyKind::Int => k is I32,
        KeyKind::Uuid => k is UUID,
    }
}

/// Whether the key `k` is a value of the decoding `kind`.
pub fn key_fits(kind: KeyKind, k: &PrimaryKey) -> (r: bool)
    ensures
        r == fits(kind, *k),
{
    match (kind, k) {
        (KeyKind::Text, PrimaryKey::String(_)) => true,
        (KeyKind::Int, PrimaryKey::I32(_)) => true,
        (KeyKind::Uuid, PrimaryKey::UUID(_)) => true,
        _ => false,
    }
}

/// The key parts of one row of the node query: the values of its cells, when
/// there is one cell per key column, none is null, and each is a value of its
/// column's decoding; `None` otherwise.
pub fn node_row_parts(kinds: &Vec<KeyKind>, cells: Vec<Option<PrimaryKey>>) -> (r: Option<
    Vec<PrimaryKey>,
>)
    ensures
        r is Some <==> (cells@.len() == kinds@.len() && forall|i: int|
            0 <= i < cells@.len() ==> (#[trigger] cells@[i] matches Some(k) && fits(kinds@[i], k))),
        r matches Some(parts) ==> parts@.len() == cells@.len() && forall|i: int|
            0 <= i < parts@.len() ==> Some(#[trigger] parts@[i]) == cells@[i],
{
    if cells.len() != kinds.len() {
        return None;
    }
    let mut i: usize = 0;
    while i < cells.len()
        invariant
            cells@.len() == kinds@.len(),
            i <= cells@.len(),
            forall|j: int|
                0 <= j < i ==> (#[trigger] cells@[j] matches Some(k) && fits(kinds@[j], k)),
        decreases cells@.len() - i,
    {
        match &cells[i] {
            Some(k) => {
                if !key_fits(kinds[i], k) {
                    return None;
                }
            },
            None => {
                return None;
            },
        }
        i = i + 1;
    }
    let ghost all = cells@;
    let n = cells.len();
    let mut rest = cells;
    let mut parts: Vec<PrimaryKey> = Vec::new();
    while rest.len() > 0
        invariant
            n == all.len(),
            parts@.len() + rest@.len() == n,
            rest@ == all.subrange(parts@.len() as int, n as int),
            forall|j: int| 0 <= j < parts@.len() ==> Some(#[trigger] parts@[j]) == all[j],
            forall|j: int| 0 <= j < n ==> (#[trigger] all[j]) is Some,
        decreases rest@.len(),
    {
        let c = rest.remove(0);
        proof {
            assert(c == all[parts@.len() as int]);
        }
        match c {
            Some(k) => parts.push(k),
            None => {
                return None;
            },
        }
    }
    Some(parts)
}

/// Whether one row of the edge query holds two cells, the host key and the
/// foreign key, each null or a value of its decoding.
pub fn edge_row_fits(host: KeyKind, fk: KeyKind, cells: &Vec<Option<PrimaryKey>>) -> (r: bool)
    ensures
        r == (cells@.len() == 2 && (cells@[0] matches Some(k) ==> fits(host, k)) && (
        cells@[1] matches Some(k) ==> fits(fk, k))),
{
    if cells.len() != 2 {
        return false;
    }
    let first = match &cells[0] {
        Some(k) => key_fits(host, k),
        None => true,
    };
    let second = match &cells[1] {
        Some(k) => key_fits(fk, k),
        None => true,
    };
    first && second
}

} // verus!
