use cleu_orm::{
    collect_entities_tables, keys_match, seek_related_entities, write_decimal, write_value,
    Association, AssociationDefs, DecimalValue, Error, Field, Limit, NoTableEntity, OrderBy, Row,
    Table, TableDefs, Value, VisitedNodes,
};

fn defs(name: &str, children: Vec<AssociationDefs>) -> TableDefs {
    TableDefs {
        table_name: name.to_string(),
        table_alias: None,
        primary_key_name: "id".to_string(),
        field_names: vec!["name".to_string()],
        associations: children,
    }
}

fn link(from_id: &str, to_id: &str, table: TableDefs, many: bool) -> AssociationDefs {
    AssociationDefs {
        association: Association::new(from_id.to_string(), to_id.to_string()),
        table,
        many,
    }
}

fn a_defs() -> TableDefs {
    defs("a", vec![])
}

fn b_defs() -> TableDefs {
    defs("b", vec![link("id", "id_b", a_defs(), false)])
}

fn c_defs() -> TableDefs {
    defs("c", vec![link("id", "id_c", a_defs(), false)])
}

fn d_defs() -> TableDefs {
    defs("d", vec![link("id", "id_d", b_defs(), false), link("id", "id_d", c_defs(), false)])
}

fn suffixes(t: &Table, out: &mut Vec<(String, u32)>) {
    out.push((t.table_name.clone(), t.suffix()));
    for w in t.associations() {
        suffixes(&w.guide, out);
    }
}

fn bind(t: &mut Table, id: i64, name: &str) {
    *t.id_field_mut().value_mut() = Some(Value::Int(id));
    *t.fields_mut()[0].value_mut() = Some(Value::Text(name.to_string()));
}

fn bound_d() -> Table {
    let mut d = Table::new(&d_defs(), 0).unwrap();
    bind(&mut d, 4, "foo4");
    bind(&mut d.associations_mut()[0].guide, 2, "foo2");
    bind(&mut d.associations_mut()[0].guide.associations_mut()[0].guide, 1, "foo1");
    bind(&mut d.associations_mut()[1].guide, 3, "foo3");
    bind(&mut d.associations_mut()[1].guide.associations_mut()[0].guide, 1, "foo1");
    d
}

fn rendered(v: &Value) -> String {
    let mut s = String::new();
    write_value(&mut s, v);
    s
}

fn cell(name: &str, v: Option<Value>) -> Field {
    let mut f = Field::new(name.to_string());
    *f.value_mut() = v;
    f
}

#[test]
fn suffixes_are_the_same_on_every_instantiation() {
    let mut first = Vec::new();
    let mut second = Vec::new();
    suffixes(&Table::new(&d_defs(), 0).unwrap(), &mut first);
    suffixes(&Table::new(&d_defs(), 0).unwrap(), &mut second);
    assert_eq!(first, second);
}

#[test]
fn diamond_suffixes_continue_across_siblings() {
    let mut got = Vec::new();
    suffixes(&Table::new(&d_defs(), 0).unwrap(), &mut got);
    let expected: Vec<(String, u32)> =
        vec![("d".into(), 0), ("b".into(), 1), ("a".into(), 2), ("c".into(), 2), ("a".into(), 3)];
    assert_eq!(got, expected);
}

#[test]
fn suffixes_start_at_the_given_root_suffix() {
    let mut got = Vec::new();
    suffixes(&Table::new(&b_defs(), 7).unwrap(), &mut got);
    let expected: Vec<(String, u32)> = vec![("b".into(), 7), ("a".into(), 8)];
    assert_eq!(got, expected);
}

#[test]
fn suffix_overflow_is_too_many_associated_nodes() {
    assert!(matches!(Table::new(&b_defs(), u32::MAX), Err(Error::TooManyAssociatedNodes)));
    assert!(matches!(Table::new(&d_defs(), u32::MAX - 2), Err(Error::TooManyAssociatedNodes)));
    assert!(Table::new(&d_defs(), u32::MAX - 3).is_ok());
    assert!(Table::new(&a_defs(), u32::MAX).is_ok());
}

#[test]
fn select_of_standalone_table() {
    let a = Table::new(&a_defs(), 0).unwrap();
    let mut buffer = String::new();
    a.write_select(&mut buffer, OrderBy::Ascending, Limit::All, "");
    assert_eq!(
        buffer,
        r#"SELECT "a0".id AS a0__id,"a0".name AS a0__name FROM "a" AS "a0"  ORDER BY "a0".id ASC LIMIT ALL"#
    );
}

#[test]
fn select_with_one_child() {
    let b = Table::new(&b_defs(), 0).unwrap();
    let mut buffer = String::new();
    b.write_select(&mut buffer, OrderBy::Ascending, Limit::All, "");
    assert_eq!(
        buffer,
        r#"SELECT "b0".id AS b0__id,"b0".name AS b0__name,"a1".id AS a1__id,"a1".name AS a1__name FROM "b" AS "b0" LEFT JOIN "a" AS "a1" ON "b0".id = "a1".id_b  ORDER BY "b0".id,"a1".id ASC LIMIT ALL"#
    );
}

#[test]
fn select_with_predicate_direction_and_count() {
    let a = Table::new(&a_defs(), 12).unwrap();
    let mut buffer = String::from("-- ");
    a.write_select(&mut buffer, OrderBy::Descending, Limit::Count(250), r#""a12".id = 5"#);
    assert_eq!(
        buffer,
        r#"-- SELECT "a12".id AS a12__id,"a12".name AS a12__name FROM "a" AS "a12"  WHERE "a12".id = 5 ORDER BY "a12".id DESC LIMIT 250"#
    );
}

#[test]
fn select_with_alias_and_no_columns() {
    let mut t = TableDefs {
        table_name: "orders".to_string(),
        table_alias: Some("o".to_string()),
        primary_key_name: "id".to_string(),
        field_names: vec![],
        associations: vec![],
    };
    t.associations.push(link("id", "id_o", a_defs(), true));
    let o = Table::new(&t, 0).unwrap();
    let mut buffer = String::new();
    o.write_select(&mut buffer, OrderBy::Ascending, Limit::Count(0), "");
    assert_eq!(
        buffer,
        r#"SELECT "o0".id AS o0__id,"a1".id AS a1__id,"a1".name AS a1__name FROM "orders" AS "orders0" LEFT JOIN "a" AS "a1" ON "o0".id = "a1".id_o  ORDER BY "o0".id,"a1".id ASC LIMIT 0"#
    );
}

#[test]
fn full_associations_name_each_child() {
    let d = Table::new(&d_defs(), 0).unwrap();
    let f = d.full_associations();
    assert_eq!(f.len(), 2);
    assert_eq!(f[0].to_table(), "b");
    assert_eq!(f[0].to_table_suffix(), 1);
    assert_eq!(f[1].to_table(), "c");
    assert_eq!(f[1].to_table_suffix(), 2);
    assert_eq!(f[1].association().to_id(), "id_d");
    assert!(f[1].to_table_alias().is_none());
}

#[test]
fn insert_of_unbound_entity_is_empty() {
    let b = Table::new(&b_defs(), 0).unwrap();
    let mut buffer = String::new();
    b.write_insert(&mut VisitedNodes::new(), &mut buffer).unwrap();
    assert_eq!(buffer, "");
}

#[test]
fn insert_lists_only_bound_columns() {
    let mut b = Table::new(&b_defs(), 0).unwrap();
    *b.fields_mut()[0].value_mut() = Some(Value::Null);
    let mut buffer = String::new();
    b.write_insert(&mut VisitedNodes::new(), &mut buffer).unwrap();
    assert_eq!(buffer, r#"INSERT INTO "b" (name) VALUES (null);"#);
}

#[test]
fn update_and_delete_skip_unbound_id_but_visit_children() {
    let mut b = Table::new(&b_defs(), 0).unwrap();
    *b.fields_mut()[0].value_mut() = Some(Value::Text("x".to_string()));
    bind(&mut b.associations_mut()[0].guide, 1, "foo1");
    let mut buffer = String::new();
    b.write_update(&mut VisitedNodes::new(), &mut buffer).unwrap();
    assert_eq!(buffer, r#"UPDATE a SET id='1',name='foo1' WHERE id='1';"#);
    buffer.clear();
    b.write_delete(&mut VisitedNodes::new(), &mut buffer).unwrap();
    assert_eq!(buffer, r#"DELETE FROM "a" WHERE id='1';"#);
}

#[test]
fn delete_writes_children_first_and_shared_nodes_once() {
    let d = bound_d();
    let mut buffer = String::new();
    d.write_delete(&mut VisitedNodes::new(), &mut buffer).unwrap();
    assert_eq!(
        buffer,
        r#"DELETE FROM "a" WHERE id='1';DELETE FROM "b" WHERE id='2';DELETE FROM "c" WHERE id='3';DELETE FROM "d" WHERE id='4';"#
    );
}

#[test]
fn tracker_reports_fresh_visited_and_collision() {
    let mut aux = VisitedNodes::new();
    assert!(matches!(aux.mark_and_check(5, &"a".to_string()), Ok(false)));
    assert!(matches!(aux.mark_and_check(3, &"b".to_string()), Ok(false)));
    assert!(matches!(aux.mark_and_check(5, &"a".to_string()), Ok(true)));
    match aux.mark_and_check(5, &"c".to_string()) {
        Err(Error::HashCollision(h, existing, new)) => {
            assert_eq!(h, 5);
            assert_eq!(existing, "a");
            assert_eq!(new, "c");
        },
        _ => panic!("expected a hash collision"),
    }
    assert!(matches!(aux.mark_and_check(3, &"b".to_string()), Ok(true)));
}

#[test]
fn colliding_node_fails_the_write_and_leaves_the_buffer() {
    let d = bound_d();
    let a = &d.associations()[0].guide.associations()[0].guide;
    let h = a.instance_hash();
    let mut aux = VisitedNodes::new();
    assert!(matches!(aux.mark_and_check(h, &"z".to_string()), Ok(false)));
    let mut buffer = String::from("kept");
    match d.write_insert(&mut aux, &mut buffer) {
        Err(Error::HashCollision(got, existing, new)) => {
            assert_eq!(got, h);
            assert_eq!(existing, "z");
            assert_eq!(new, "a");
        },
        _ => panic!("expected a hash collision"),
    }
    assert_eq!(buffer, "kept");
}

#[test]
fn node_hash_depends_on_id_and_table() {
    let mut a1 = Table::new(&a_defs(), 0).unwrap();
    let mut a2 = Table::new(&a_defs(), 5).unwrap();
    assert_eq!(a1.instance_hash(), a2.instance_hash());
    *a1.id_field_mut().value_mut() = Some(Value::Int(1));
    *a2.id_field_mut().value_mut() = Some(Value::Int(2));
    assert_ne!(a1.instance_hash(), a2.instance_hash());
    let mut b = Table::new(&defs("b", vec![]), 0).unwrap();
    *b.id_field_mut().value_mut() = Some(Value::Int(1));
    assert_ne!(a1.instance_hash(), b.instance_hash());
}

#[test]
fn values_render_as_sql_literals() {
    assert_eq!(rendered(&Value::Null), "null");
    assert_eq!(rendered(&Value::Text("it".to_string())), "'it'");
    assert_eq!(rendered(&Value::Int(-9223372036854775808)), "'-9223372036854775808'");
    assert_eq!(rendered(&Value::Int(0)), "'0'");
    assert_eq!(rendered(&Value::UInt(18446744073709551615)), "'18446744073709551615'");
    assert_eq!(rendered(&Value::Bool(true)), "'true'");
    assert_eq!(rendered(&Value::Bool(false)), "'false'");
    let d = DecimalValue::new(-12345, 2).unwrap();
    assert_eq!(d.mantissa(), -12345);
    assert_eq!(d.scale(), 2);
    assert_eq!(rendered(&Value::Decimal(d)), "'-123.45'");
    assert_eq!(rendered(&Value::Decimal(DecimalValue::new(5, 3).unwrap())), "'0.005'");
    assert_eq!(rendered(&Value::Decimal(DecimalValue::new(0, 2).unwrap())), "'0.00'");
    assert_eq!(rendered(&Value::Decimal(DecimalValue::new(100, 0).unwrap())), "'100'");
    let mut s = String::new();
    write_decimal(&mut s, 1040);
    assert_eq!(s, "1040");
}

#[test]
fn out_of_range_decimal_is_refused() {
    assert!(matches!(DecimalValue::new(1, 29), Err(Error::SerializationFailure)));
    assert!(matches!(DecimalValue::new(1 << 96, 0), Err(Error::SerializationFailure)));
    assert!(DecimalValue::new((1 << 96) - 1, 28).is_ok());
}

#[test]
fn keys_compare_by_value() {
    assert!(keys_match(&Some(Value::Int(3)), &Some(Value::Int(3))));
    assert!(!keys_match(&Some(Value::Int(3)), &Some(Value::UInt(3))));
    assert!(keys_match(&None, &None));
    assert!(!keys_match(&None, &Some(Value::Null)));
    assert!(keys_match(&Some(Value::Text("x".into())), &Some(Value::Text("x".into()))));
}

fn c_rows() -> Vec<Row> {
    vec![
        Row { columns: vec![cell("c0__id", Some(Value::Int(3))), cell("a1__id", Some(Value::Int(1)))] },
        Row { columns: vec![cell("c0__id", Some(Value::Int(3))), cell("a1__id", Some(Value::Int(2)))] },
        Row { columns: vec![cell("c0__id", Some(Value::Int(4))), cell("a1__id", None)] },
    ]
}

fn c_table() -> Table {
    Table::new(&defs("c", vec![link("id", "id_a", a_defs(), true)]), 0).unwrap()
}

#[test]
fn rows_sharing_a_parent_key_form_one_group() {
    let c = c_table();
    let rows = c_rows();
    let child = &c.associations()[0].guide;
    let (consumed, children) =
        seek_related_entities::<NoTableEntity>(&rows, 0, &c, child).unwrap();
    assert_eq!(consumed, 2);
    assert_eq!(children.len(), 2);
    let (consumed, children) =
        seek_related_entities::<NoTableEntity>(&rows, 2, &c, child).unwrap();
    assert_eq!(consumed, 1);
    assert_eq!(children.len(), 1);
    let (consumed, children) =
        seek_related_entities::<NoTableEntity>(&rows, 3, &c, child).unwrap();
    assert_eq!(consumed, 0);
    assert_eq!(children.len(), 0);
}

#[test]
fn collect_gives_one_entity_per_run_of_root_key() {
    let c = c_table();
    let all: Vec<NoTableEntity> = collect_entities_tables(&c_rows(), &c).unwrap();
    assert_eq!(all.len(), 2);
    let none: Vec<NoTableEntity> = collect_entities_tables(&[], &c).unwrap();
    assert_eq!(none.len(), 0);
}

#[test]
fn missing_key_column_is_reported() {
    let c = c_table();
    let rows = vec![
        Row { columns: vec![cell("c0__id", Some(Value::Int(3)))] },
        Row { columns: vec![cell("x", Some(Value::Int(3)))] },
    ];
    assert!(matches!(
        seek_related_entities::<NoTableEntity>(&rows, 0, &c, &c),
        Err(Error::ColumnNotFound)
    ));
    assert!(matches!(rows[1].get(&"c0__id".to_string()), Err(Error::ColumnNotFound)));
    assert!(matches!(rows[0].get(&"c0__id".to_string()), Ok(Some(Value::Int(3)))));
}

#[test]
fn insert_pairs_columns_with_values_and_link() {
    let mut b = Table::new(&b_defs(), 0).unwrap();
    bind(&mut b, 2, "foo2");
    *b.associations_mut()[0].guide.id_field_mut().value_mut() = Some(Value::Int(1));
    let mut buffer = String::new();
    b.write_insert(&mut VisitedNodes::new(), &mut buffer).unwrap();
    assert_eq!(
        buffer,
        r#"INSERT INTO "b" (id,name) VALUES ('2','foo2');INSERT INTO "a" (id,id_b) VALUES ('1','2');"#
    );
}

#[test]
fn duplicate_alias_is_refused() {
    let p = defs("p", vec![link("id", "id_p", a_defs(), false)]);
    let r = defs("r", vec![link("id", "id_r", p, false), link("id", "id_r", a_defs(), false)]);
    assert!(matches!(Table::new(&r, 0), Err(Error::DuplicateAlias)));
    assert!(matches!(Table::new(&r, u32::MAX), Err(Error::TooManyAssociatedNodes)));
}

#[test]
fn select_helpers_end_every_item_with_a_comma() {
    let a = Table::new(&TableDefs {
        table_name: "a".to_string(),
        table_alias: None,
        primary_key_name: "id".to_string(),
        field_names: vec![],
        associations: vec![],
    }, 0).unwrap();
    let mut buffer = String::new();
    a.write_select_fields(&mut buffer);
    assert_eq!(buffer, r#""a0".id AS a0__id,"#);
    buffer.clear();
    let b = Table::new(&b_defs(), 0).unwrap();
    b.write_select_orders_by(&mut buffer);
    assert_eq!(buffer, r#""b0".id,"a1".id,"#);
    buffer.clear();
    b.write_select_fields(&mut buffer);
    assert_eq!(buffer, r#""b0".id AS b0__id,"b0".name AS b0__name,"a1".id AS a1__id,"a1".name AS a1__name,"#);
}
