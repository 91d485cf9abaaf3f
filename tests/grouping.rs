use cleu_orm::{
    collect_entities_tables, Association, AssociationDefs, Error, Field, FromRowsSuffix,
    NoTableEntity, ParentEntity, Row, Table, TableDefs, Value,
};

fn cell(name: &str, v: Option<Value>) -> Field {
    let mut f = Field::new(name.to_string());
    *f.value_mut() = v;
    f
}

fn c_table() -> Table {
    let defs = TableDefs {
        table_name: "c".to_string(),
        table_alias: None,
        primary_key_name: "id".to_string(),
        field_names: vec![],
        associations: vec![AssociationDefs {
            association: Association::new("id".to_string(), "id_a".to_string()),
            table: TableDefs {
                table_name: "a".to_string(),
                table_alias: None,
                primary_key_name: "id".to_string(),
                field_names: vec![],
                associations: vec![],
            },
            many: true,
        }],
    };
    Table::new(&defs, 0).unwrap()
}

fn row(c: Option<i64>, a: Option<i64>) -> Row {
    Row { columns: vec![cell("c0__id", c.map(Value::Int)), cell("a1__id", a.map(Value::Int))] }
}

#[test]
fn children_sharing_a_parent_key_fold_into_one_parent() {
    let c = c_table();
    let rows = vec![row(Some(3), Some(1)), row(Some(3), Some(2))];
    let (consumed, _) = ParentEntity::<NoTableEntity>::from_rows_suffix(&c, &rows, 0).unwrap();
    assert_eq!(consumed, 2);
    let parents: Vec<ParentEntity<NoTableEntity>> = collect_entities_tables(&rows, &c).unwrap();
    assert_eq!(parents.len(), 1);
    assert!(matches!(parents[0].id, Value::Int(3)));
    assert_eq!(parents[0].children.len(), 2);
}

#[test]
fn parents_split_where_the_key_changes() {
    let c = c_table();
    let rows = vec![row(Some(3), Some(1)), row(Some(3), Some(2)), row(Some(4), None)];
    let parents: Vec<ParentEntity<NoTableEntity>> = collect_entities_tables(&rows, &c).unwrap();
    assert_eq!(parents.len(), 2);
    assert_eq!(parents[0].children.len(), 2);
    assert!(matches!(parents[1].id, Value::Int(4)));
}

#[test]
fn row_without_joined_parent_is_skipped() {
    let c = c_table();
    let rows = vec![row(None, None), row(Some(5), Some(1))];
    let parents: Vec<ParentEntity<NoTableEntity>> = collect_entities_tables(&rows, &c).unwrap();
    assert_eq!(parents.len(), 1);
    assert!(matches!(parents[0].id, Value::Int(5)));
}

#[test]
fn other_build_errors_stop_the_collection() {
    let c = c_table();
    let rows = vec![Row { columns: vec![cell("a1__id", Some(Value::Int(1)))] }];
    let r: Result<Vec<ParentEntity<NoTableEntity>>, Error> = collect_entities_tables(&rows, &c);
    assert!(matches!(r, Err(Error::ColumnNotFound)));
}

#[test]
fn rows_of_one_key_fold_into_one_entity_without_association() {
    let defs = TableDefs {
        table_name: "p".to_string(),
        table_alias: None,
        primary_key_name: "id".to_string(),
        field_names: vec![],
        associations: vec![],
    };
    let p = Table::new(&defs, 0).unwrap();
    let key = |k: i64| Row { columns: vec![cell("p0__id", Some(Value::Int(k)))] };
    let rows = vec![key(7), key(7), key(8), key(7)];
    let all: Vec<ParentEntity<NoTableEntity>> = collect_entities_tables(&rows, &p).unwrap();
    assert_eq!(all.len(), 3);
    assert!(matches!(all[0].id, Value::Int(7)));
    assert!(matches!(all[1].id, Value::Int(8)));
    assert!(matches!(all[2].id, Value::Int(7)));
    let plain: Vec<NoTableEntity> = collect_entities_tables(&rows[..2], &p).unwrap();
    assert_eq!(plain.len(), 1);
}
