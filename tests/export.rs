use sql_to_kg::catalog::{Catalog, Column, ColumnType, ForeignKey, Table};
use sql_to_kg::edge_class::EdgeClass;
use sql_to_kg::export::{
    edge_class_row, edge_row, join_ids, node_class_row, node_row, EDGES_HEADER,
    EDGE_CLASSES_HEADER, NODES_HEADER, NODE_CLASSES_HEADER,
};
use sql_to_kg::node::Node;
use sql_to_kg::primary_key::PrimaryKey;
use sql_to_kg::query::{count_query, edge_query, node_query};

fn shop() -> Catalog {
    let customers = Table {
        schema: Some("shop".to_string()),
        name: "customers".to_string(),
        columns: vec![
            Column { name: "name".to_string(), data_type: ColumnType::Text },
            Column { name: "region".to_string(), data_type: ColumnType::Int },
        ],
        primary_key: vec![0, 1],
        foreign_keys: vec![],
        extends: None,
    };
    let orders = Table {
        schema: None,
        name: "orders".to_string(),
        columns: vec![
            Column { name: "id".to_string(), data_type: ColumnType::Int },
            Column { name: "customer".to_string(), data_type: ColumnType::Text },
            Column { name: "region".to_string(), data_type: ColumnType::Int },
        ],
        primary_key: vec![0],
        foreign_keys: vec![ForeignKey {
            host_columns: vec![1, 2],
            referenced_table: 0,
            referenced_columns: vec![0, 1],
        }],
        extends: Some(0),
    };
    Catalog { tables: vec![customers, orders] }
}

#[test]
fn headers() {
    assert_eq!(NODE_CLASSES_HEADER, "node_class");
    assert_eq!(NODES_HEADER, "node,node_class_ids");
    assert_eq!(EDGE_CLASSES_HEADER, "edge_class");
    assert_eq!(EDGES_HEADER, "src_id,dst_id,edge_class_id");
}

#[test]
fn node_class_rows_are_quoted_and_qualified() {
    let catalog = shop();
    assert_eq!(node_class_row(&catalog, 0), "\"shop.customers\"");
    assert_eq!(node_class_row(&catalog, 1), "\"orders\"");
}

#[test]
fn node_rows_list_own_and_ancestor_classes() {
    let catalog = shop();
    let node = Node::new(1, PrimaryKey::I32(17));
    assert_eq!(node.table(), 1);
    assert_eq!(node.table_name(&catalog), "orders");
    assert_eq!(node.schema_name(&catalog), None);
    assert_eq!(node_row(&catalog, &node), "\"orders(17)\",1|0");
    let key = PrimaryKey::from_parts(vec![PrimaryKey::String("ann".to_string()), PrimaryKey::I32(3)]);
    let node = Node::new(0, key);
    assert_eq!(node.schema_name(&catalog), Some("shop"));
    assert_eq!(node_row(&catalog, &node), "\"shop.customers(ann, 3)\",0");
}

#[test]
fn edge_class_rows_name_host_and_columns() {
    let catalog = shop();
    let class = EdgeClass::new(1, vec![1, 2]);
    assert_eq!(class.to_display(&catalog), "orders(customer, region)");
    assert_eq!(edge_class_row(&catalog, &class), "\"orders(customer, region)\"");
}

#[test]
fn edge_rows_are_three_integers() {
    assert_eq!(edge_row(4, 1, 0), "4,1,0");
    assert_eq!(edge_row(123456, 7890, 12), "123456,7890,12");
    assert_eq!(join_ids(&vec![]), "");
    assert_eq!(join_ids(&vec![3, 10, 0]), "3|10|0");
}

#[test]
fn node_query_orders_text_bytewise() {
    let catalog = shop();
    assert_eq!(
        node_query(&catalog, 0),
        "SELECT \"name\" AS first, \"region\" AS second FROM \"shop\".\"customers\" ORDER BY \"name\" COLLATE \"C\", \"region\""
    );
    assert_eq!(
        node_query(&catalog, 1),
        "SELECT \"id\" AS first FROM \"orders\" ORDER BY \"id\""
    );
}

#[test]
fn edge_and_count_queries() {
    let catalog = shop();
    assert_eq!(
        edge_query(&catalog, 1, 0),
        "SELECT \"id\" AS first, \"customer\" AS first_host, \"region\" AS second_host FROM \"orders\" ORDER BY \"id\", \"customer\" COLLATE \"C\", \"region\""
    );
    assert_eq!(count_query(&catalog, 0), "SELECT COUNT(*) AS count FROM \"shop\".\"customers\"");
}
