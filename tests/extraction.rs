use sql_to_kg::catalog::{Catalog, Column, ColumnType, ForeignKey, Table};
use sql_to_kg::dispatch::{edge_key_plan, edge_row_fits, node_key_plan, node_row_parts, KeyKind};
use sql_to_kg::edge_class::EdgeClass;
use sql_to_kg::errors::Error;
use sql_to_kg::arena::{number_of_nodes, NodeArena};
use sql_to_kg::classes::{edge_classes, find_edge_class};
use sql_to_kg::edges::resolve_edge;
use sql_to_kg::node::Node;
use sql_to_kg::primary_key::PrimaryKey;

fn col(name: &str, data_type: ColumnType) -> Column {
    Column { name: name.to_string(), data_type }
}

fn table(name: &str, columns: Vec<Column>, primary_key: Vec<usize>) -> Table {
    Table {
        schema: None,
        name: name.to_string(),
        columns,
        primary_key,
        foreign_keys: vec![],
        extends: None,
    }
}

fn users_and_comments() -> Catalog {
    let users = table("users", vec![col("id", ColumnType::Int)], vec![0]);
    let mut comments = table(
        "comments",
        vec![col("id", ColumnType::Uuid), col("user_id", ColumnType::Int)],
        vec![0],
    );
    comments.foreign_keys.push(ForeignKey {
        host_columns: vec![1],
        referenced_table: 0,
        referenced_columns: vec![0],
    });
    Catalog { tables: vec![users, comments] }
}

fn people_and_employees() -> Catalog {
    let people = table("people", vec![col("id", ColumnType::Int)], vec![0]);
    let mut employees = table("employees", vec![col("id", ColumnType::Int)], vec![0]);
    employees.extends = Some(0);
    Catalog { tables: vec![people, employees] }
}

fn users_arena(catalog: &Catalog) -> NodeArena {
    let mut arena = NodeArena::new();
    for id in [1, 2, 5] {
        arena.push(catalog, 0, vec![PrimaryKey::I32(id)]).unwrap();
    }
    arena
}

#[test]
fn users_rows_get_ids_in_key_order() {
    let catalog = users_and_comments();
    assert!(catalog.is_well_formed());
    let mut arena = NodeArena::new();
    assert_eq!(arena.push(&catalog, 0, vec![PrimaryKey::I32(1)]), Ok(0));
    assert_eq!(arena.push(&catalog, 0, vec![PrimaryKey::I32(2)]), Ok(1));
    assert_eq!(arena.push(&catalog, 0, vec![PrimaryKey::I32(5)]), Ok(2));
    assert_eq!(arena.len(), 3);
    for (key, id) in [(1, 0), (2, 1), (5, 2)] {
        assert_eq!(arena.find(&Node::new(0, PrimaryKey::I32(key))), Some(id));
    }
    assert_eq!(arena.find(&Node::new(0, PrimaryKey::I32(3))), None);
    assert_eq!(arena.find(&Node::new(1, PrimaryKey::I32(1))), None);
}

#[test]
fn null_foreign_key_yields_no_edge() {
    let catalog = users_and_comments();
    let mut arena = users_arena(&catalog);
    assert_eq!(arena.push(&catalog, 1, vec![PrimaryKey::UUID(10)]), Ok(3));
    assert_eq!(arena.push(&catalog, 1, vec![PrimaryKey::UUID(20)]), Ok(4));
    let classes = edge_classes(&catalog);
    assert_eq!(classes, vec![EdgeClass::new(1, vec![1])]);
    assert_eq!(edge_key_plan(&catalog, 1, 0), Ok(Some((KeyKind::Uuid, KeyKind::Int))));
    let none = resolve_edge(&arena, &classes, &catalog, 1, 0, vec![Some(PrimaryKey::UUID(10)), None]);
    assert_eq!(none, Ok(None));
    let edge = resolve_edge(
        &arena,
        &classes,
        &catalog,
        1,
        0,
        vec![Some(PrimaryKey::UUID(20)), Some(PrimaryKey::I32(2))],
    );
    assert_eq!(edge, Ok(Some((4, 1, 0))));
    let null_host = resolve_edge(&arena, &classes, &catalog, 1, 0, vec![None, Some(PrimaryKey::I32(2))]);
    assert_eq!(null_host, Ok(None));
}

#[test]
fn extended_table_yields_no_nodes() {
    let catalog = people_and_employees();
    assert!(catalog.is_well_formed());
    assert!(catalog.is_extended(0));
    assert!(!catalog.is_extended(1));
    assert_eq!(catalog.leaf_tables(), vec![1]);
    assert_eq!(catalog.ancestors(1), vec![0]);
    assert_eq!(catalog.ancestors(0), Vec::<usize>::new());
    assert_eq!(sql_to_kg::export::node_class_ids(&catalog, 1), vec![1, 0]);
}

#[test]
fn ancestors_follow_the_whole_chain() {
    let mut catalog = people_and_employees();
    let mut managers = table("managers", vec![col("id", ColumnType::Int)], vec![0]);
    managers.extends = Some(1);
    catalog.tables.push(managers);
    assert_eq!(catalog.leaf_tables(), vec![2]);
    assert_eq!(catalog.ancestors(2), vec![1, 0]);
    assert_eq!(sql_to_kg::export::node_class_ids(&catalog, 2), vec![2, 1, 0]);
}

#[test]
fn ancestor_cycle_is_cut() {
    let mut a = table("a", vec![col("id", ColumnType::Int)], vec![0]);
    let mut b = table("b", vec![col("id", ColumnType::Int)], vec![0]);
    a.extends = Some(1);
    b.extends = Some(0);
    let catalog = Catalog { tables: vec![a, b] };
    assert_eq!(catalog.ancestors(0), vec![1, 0]);
    assert_eq!(catalog.leaf_tables(), Vec::<usize>::new());
}

#[test]
fn numbering_is_deterministic() {
    let run = || {
        let catalog = users_and_comments();
        let mut arena = users_arena(&catalog);
        arena.push(&catalog, 1, vec![PrimaryKey::UUID(7)]).unwrap();
        let classes = edge_classes(&catalog);
        let edge = resolve_edge(
            &arena,
            &classes,
            &catalog,
            1,
            0,
            vec![Some(PrimaryKey::UUID(7)), Some(PrimaryKey::I32(5))],
        );
        let nodes: Vec<String> =
            (0..arena.len()).map(|i| arena.get(i).to_display(&catalog)).collect();
        (nodes, classes, edge)
    };
    assert_eq!(run(), run());
}

#[test]
fn node_ids_are_dense() {
    let catalog = users_and_comments();
    let mut arena = users_arena(&catalog);
    arena.push(&catalog, 1, vec![PrimaryKey::UUID(1)]).unwrap();
    arena.push(&catalog, 1, vec![PrimaryKey::UUID(2)]).unwrap();
    for id in 0..arena.len() {
        let node = arena.get(id);
        assert_eq!(arena.find(node), Some(id));
    }
}

#[test]
fn unordered_node_is_refused() {
    let catalog = users_and_comments();
    let mut arena = users_arena(&catalog);
    assert_eq!(
        arena.push(&catalog, 0, vec![PrimaryKey::I32(5)]),
        Err(Error::UnorderedNode("users(5)".to_string()))
    );
    assert_eq!(
        arena.push(&catalog, 0, vec![PrimaryKey::I32(3)]),
        Err(Error::UnorderedNode("users(3)".to_string()))
    );
    assert_eq!(arena.len(), 3);
}

#[test]
fn missing_endpoints_are_named() {
    let catalog = users_and_comments();
    let mut arena = users_arena(&catalog);
    arena.push(&catalog, 1, vec![PrimaryKey::UUID(0)]).unwrap();
    let classes = edge_classes(&catalog);
    let missing_dst = resolve_edge(
        &arena,
        &classes,
        &catalog,
        1,
        0,
        vec![Some(PrimaryKey::UUID(0)), Some(PrimaryKey::I32(3))],
    );
    assert_eq!(missing_dst, Err(Error::NodeNotFound("users(3)".to_string())));
    let missing_src = resolve_edge(
        &arena,
        &classes,
        &catalog,
        1,
        0,
        vec![Some(PrimaryKey::UUID(1)), Some(PrimaryKey::I32(3))],
    );
    assert_eq!(
        missing_src,
        Err(Error::NodeNotFound("comments(00000000-0000-0000-0000-000000000001)".to_string()))
    );
    let missing_class = resolve_edge(
        &arena,
        &vec![],
        &catalog,
        1,
        0,
        vec![Some(PrimaryKey::UUID(0)), Some(PrimaryKey::I32(1))],
    );
    assert_eq!(missing_class, Err(Error::EdgeClassNotFound("comments(user_id)".to_string())));
}

#[test]
fn edge_classes_are_sorted_and_unique() {
    let t0 = table("a", vec![col("id", ColumnType::Int)], vec![0]);
    let mut t1 = table(
        "b",
        vec![col("id", ColumnType::Int), col("x", ColumnType::Int), col("y", ColumnType::Int)],
        vec![0],
    );
    let to_a = |c: usize| ForeignKey { host_columns: vec![c], referenced_table: 0, referenced_columns: vec![0] };
    t1.foreign_keys.push(to_a(2));
    t1.foreign_keys.push(to_a(1));
    t1.foreign_keys.push(to_a(2));
    t1.foreign_keys.push(ForeignKey { host_columns: vec![1], referenced_table: 0, referenced_columns: vec![] });
    let mut t0b = t0;
    t0b.foreign_keys.push(ForeignKey { host_columns: vec![0], referenced_table: 1, referenced_columns: vec![0] });
    let catalog = Catalog { tables: vec![t0b, t1] };
    let classes = edge_classes(&catalog);
    assert_eq!(
        classes,
        vec![EdgeClass::new(0, vec![0]), EdgeClass::new(1, vec![1]), EdgeClass::new(1, vec![2])]
    );
    assert_eq!(find_edge_class(&classes, &EdgeClass::new(1, vec![2])), Some(2));
    assert_eq!(find_edge_class(&classes, &EdgeClass::new(1, vec![0])), None);
    assert!(!catalog.is_referenced_primary_key(1, 3));
    assert_eq!(edge_key_plan(&catalog, 1, 3), Ok(None));
}

#[test]
fn wide_or_missing_keys_are_skipped() {
    let cols = vec![
        col("a", ColumnType::Int),
        col("b", ColumnType::Int),
        col("c", ColumnType::Int),
        col("d", ColumnType::Int),
    ];
    let wide = table("wide", cols, vec![0, 1, 2, 3]);
    let keyless = table("keyless", vec![col("a", ColumnType::Int)], vec![]);
    let catalog = Catalog { tables: vec![wide, keyless] };
    assert_eq!(node_key_plan(&catalog, 0), Ok(None));
    assert_eq!(node_key_plan(&catalog, 1), Ok(None));
}

#[test]
fn key_plans_follow_column_types() {
    let t = table(
        "t",
        vec![col("a", ColumnType::Uuid), col("b", ColumnType::Uuid), col("c", ColumnType::Uuid)],
        vec![0, 1, 2],
    );
    let odd = table("odd", vec![col("a", ColumnType::Other)], vec![0]);
    let text = table("text", vec![col("a", ColumnType::Varchar)], vec![0]);
    let catalog = Catalog { tables: vec![t, odd, text] };
    assert_eq!(
        node_key_plan(&catalog, 0),
        Ok(Some(vec![KeyKind::Uuid, KeyKind::Uuid, KeyKind::Uuid]))
    );
    assert_eq!(
        node_key_plan(&catalog, 1),
        Err(Error::UnsupportedKeyShape { table: 1, foreign_key: None })
    );
    assert_eq!(node_key_plan(&catalog, 2), Ok(Some(vec![KeyKind::Text])));
}

#[test]
fn mixed_type_keys_are_unsupported() {
    let mixed = table("mixed", vec![col("a", ColumnType::Int), col("b", ColumnType::Uuid)], vec![0, 1]);
    let text_pair = table(
        "text_pair",
        vec![col("a", ColumnType::Text), col("b", ColumnType::Varchar)],
        vec![0, 1],
    );
    let odd_pair = table("odd_pair", vec![col("a", ColumnType::Other), col("b", ColumnType::Other)], vec![0, 1]);
    let catalog = Catalog { tables: vec![mixed, text_pair, odd_pair] };
    assert_eq!(
        node_key_plan(&catalog, 0),
        Err(Error::UnsupportedKeyShape { table: 0, foreign_key: None })
    );
    assert_eq!(
        node_key_plan(&catalog, 1),
        Err(Error::UnsupportedKeyShape { table: 1, foreign_key: None })
    );
    assert_eq!(
        node_key_plan(&catalog, 2),
        Err(Error::UnsupportedKeyShape { table: 2, foreign_key: None })
    );
}

#[test]
fn node_rows_must_match_the_plan() {
    let kinds = vec![KeyKind::Int, KeyKind::Int];
    assert_eq!(
        node_row_parts(&kinds, vec![Some(PrimaryKey::I32(1)), Some(PrimaryKey::I32(2))]),
        Some(vec![PrimaryKey::I32(1), PrimaryKey::I32(2)])
    );
    assert_eq!(node_row_parts(&kinds, vec![Some(PrimaryKey::I32(1)), None]), None);
    assert_eq!(node_row_parts(&kinds, vec![Some(PrimaryKey::I32(1))]), None);
    assert_eq!(node_row_parts(&kinds, vec![Some(PrimaryKey::I32(1)), Some(PrimaryKey::I64(2))]), None);
    assert_eq!(
        node_row_parts(&vec![KeyKind::Text], vec![Some(PrimaryKey::String("a".to_string()))]),
        Some(vec![PrimaryKey::String("a".to_string())])
    );
    assert_eq!(node_row_parts(&vec![KeyKind::Uuid], vec![Some(PrimaryKey::I32(1))]), None);
}

#[test]
fn edge_rows_must_match_the_plan() {
    let row = vec![Some(PrimaryKey::UUID(3)), Some(PrimaryKey::I32(2))];
    assert!(edge_row_fits(KeyKind::Uuid, KeyKind::Int, &row));
    assert!(!edge_row_fits(KeyKind::Int, KeyKind::Int, &row));
    assert!(edge_row_fits(KeyKind::Uuid, KeyKind::Text, &vec![Some(PrimaryKey::UUID(3)), None]));
    assert!(!edge_row_fits(KeyKind::Uuid, KeyKind::Int, &vec![Some(PrimaryKey::UUID(3))]));
}

#[test]
fn unsupported_key_pairs_fail() {
    let target = table("target", vec![col("id", ColumnType::Int)], vec![0]);
    let mut host = table(
        "host",
        vec![col("id", ColumnType::Text), col("t", ColumnType::Int), col("v", ColumnType::Uuid)],
        vec![0],
    );
    host.foreign_keys.push(ForeignKey { host_columns: vec![1], referenced_table: 0, referenced_columns: vec![0] });
    host.foreign_keys.push(ForeignKey { host_columns: vec![2], referenced_table: 0, referenced_columns: vec![0] });
    let catalog = Catalog { tables: vec![target, host] };
    assert_eq!(
        edge_key_plan(&catalog, 1, 0),
        Err(Error::UnsupportedKeyShape { table: 1, foreign_key: Some(0) })
    );
    assert_eq!(
        edge_key_plan(&catalog, 1, 1),
        Err(Error::UnsupportedKeyShape { table: 1, foreign_key: Some(1) })
    );
}

#[test]
fn supported_key_pairs() {
    let target = table("target", vec![col("id", ColumnType::Uuid)], vec![0]);
    let mut host = table("host", vec![col("id", ColumnType::Varchar), col("r", ColumnType::Uuid)], vec![0]);
    host.foreign_keys.push(ForeignKey { host_columns: vec![1], referenced_table: 0, referenced_columns: vec![0] });
    let catalog = Catalog { tables: vec![target, host] };
    assert_eq!(edge_key_plan(&catalog, 1, 0), Ok(Some((KeyKind::Text, KeyKind::Uuid))));
}

#[test]
fn composite_nodes_resolve() {
    let mut pair = table("pair", vec![col("a", ColumnType::Int), col("b", ColumnType::Text)], vec![0, 1]);
    pair.foreign_keys.push(ForeignKey { host_columns: vec![0], referenced_table: 1, referenced_columns: vec![0] });
    let single = table("single", vec![col("id", ColumnType::Int)], vec![0]);
    let catalog = Catalog { tables: vec![pair, single] };
    let mut arena = NodeArena::new();
    arena.push(&catalog, 0, vec![PrimaryKey::I32(1), PrimaryKey::String("x".to_string())]).unwrap();
    arena.push(&catalog, 0, vec![PrimaryKey::I32(1), PrimaryKey::String("y".to_string())]).unwrap();
    arena.push(&catalog, 1, vec![PrimaryKey::I32(1)]).unwrap();
    assert_eq!(arena.get(1).to_display(&catalog), "pair(1, y)");
    let classes = edge_classes(&catalog);
    let edge = resolve_edge(
        &arena,
        &classes,
        &catalog,
        0,
        0,
        vec![Some(PrimaryKey::I32(1)), Some(PrimaryKey::String("y".to_string())), Some(PrimaryKey::I32(1))],
    );
    assert_eq!(edge, Ok(Some((1, 2, 0))));
    assert_eq!(
        edge_key_plan(&catalog, 0, 0),
        Err(Error::UnsupportedKeyShape { table: 0, foreign_key: Some(0) })
    );
}

#[test]
fn ill_formed_catalogs_are_detected() {
    let mut bad = users_and_comments();
    bad.tables[1].foreign_keys[0].referenced_table = 7;
    assert!(!bad.is_well_formed());
    let mut bad = users_and_comments();
    bad.tables[0].primary_key = vec![3];
    assert!(!bad.is_well_formed());
    let mut bad = users_and_comments();
    bad.tables[0].extends = Some(2);
    assert!(!bad.is_well_formed());
}

#[test]
fn row_counts_add_up_over_node_tables() {
    assert_eq!(number_of_nodes(&Catalog { tables: vec![] }, &vec![]), Some(0));
    assert_eq!(number_of_nodes(&users_and_comments(), &vec![3, 4]), Some(7));
    assert_eq!(number_of_nodes(&users_and_comments(), &vec![u64::MAX, 1]), None);
    assert_eq!(number_of_nodes(&users_and_comments(), &vec![u64::MAX, 0]), Some(u64::MAX));
    assert_eq!(number_of_nodes(&people_and_employees(), &vec![5, 2]), Some(2));
    let mut wide_cols = vec![];
    for name in ["a", "b", "c", "d"] {
        wide_cols.push(col(name, ColumnType::Int));
    }
    let wide = table("wide", wide_cols, vec![0, 1, 2, 3]);
    let keyless = table("keyless", vec![col("a", ColumnType::Int)], vec![]);
    let users = table("users", vec![col("id", ColumnType::Int)], vec![0]);
    let catalog = Catalog { tables: vec![wide, keyless, users] };
    assert_eq!(number_of_nodes(&catalog, &vec![10, 20, 30]), Some(30));
}

#[test]
fn derived_orders_match_compare() {
    let nodes = [
        Node::new(0, PrimaryKey::I32(5)),
        Node::new(1, PrimaryKey::String("a".to_string())),
        Node::new(1, PrimaryKey::I32(1)),
        Node::new(1, PrimaryKey::I32(2)),
    ];
    for a in &nodes {
        for b in &nodes {
            assert_eq!(a.compare(b), a.cmp(b));
        }
    }
    let classes = [
        EdgeClass::new(0, vec![3]),
        EdgeClass::new(1, vec![0, 2]),
        EdgeClass::new(1, vec![1]),
        EdgeClass::new(1, vec![1, 0]),
    ];
    for a in &classes {
        for b in &classes {
            assert_eq!(a.compare(b), a.cmp(b));
        }
    }
}
