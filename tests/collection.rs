use cleu_orm::{
    Association, AssociationDefs, Limit, OrderBy, Table, TableDefs, Value, VisitedNodes,
};

fn defs(name: &str, children: Vec<AssociationDefs>) -> TableDefs {
    TableDefs {
        table_name: name.to_string(),
        table_alias: None,
        primary_key_name: "id".to_string(),
        field_names: vec!["name".to_string()],
        associations: children,
    }
}

fn many(from_id: &str, to_id: &str, table: TableDefs) -> AssociationDefs {
    AssociationDefs {
        association: Association::new(from_id.to_string(), to_id.to_string()),
        table,
        many: true,
    }
}

fn a_defs() -> TableDefs {
    defs("a", vec![])
}

fn b_defs() -> TableDefs {
    defs("b", vec![])
}

fn c_defs() -> TableDefs {
    defs("c", vec![many("id", "id_a", a_defs()), many("id", "id_b", b_defs())])
}

fn bind(t: &mut Table, id: i64, name: &str) {
    *t.id_field_mut().value_mut() = Some(Value::Int(id));
    *t.fields_mut()[0].value_mut() = Some(Value::Text(name.to_string()));
}

/// Binds `c` to the entity with id 3, name "foo3" and the two `a` children 1/"foo1" and
/// 2/"foo2", and no `b` child.
fn update_all_table_fields(c: &mut Table) {
    bind(c, 3, "foo3");
    let suffix = c.suffix();
    c.associations_mut()[0].tables.clear();
    for (id, name) in [(1, "foo1"), (2, "foo2")] {
        let mut elem = Table::new(&a_defs(), suffix + 1).unwrap();
        bind(&mut elem, id, name);
        c.associations_mut()[0].tables.push(elem);
    }
    c.associations_mut()[1].tables.clear();
}

const C_SELECT: &str = r#"SELECT "c0".id AS c0__id,"c0".name AS c0__name,"a1".id AS a1__id,"a1".name AS a1__name,"b2".id AS b2__id,"b2".name AS b2__name FROM "c" AS "c0" LEFT JOIN "a" AS "a1" ON "c0".id = "a1".id_a LEFT JOIN "b" AS "b2" ON "c0".id = "b2".id_b  ORDER BY "c0".id,"a1".id,"b2".id ASC LIMIT ALL"#;

#[test]
fn update_some_values_has_correct_behavior() {
    let mut buffer = String::new();
    let mut c = Table::new(&c_defs(), 0).unwrap();
    *c.id_field_mut().value_mut() = Some(Value::Int(3));
    let mut elem = Table::new(&a_defs(), 0).unwrap();
    *elem.id_field_mut().value_mut() = Some(Value::Int(1));
    c.associations_mut()[0].tables.push(elem);
    c.write_update(&mut VisitedNodes::new(), &mut buffer).unwrap();
    assert_eq!(&buffer, r#"UPDATE c SET id='3' WHERE id='3';UPDATE a SET id='1' WHERE id='1';"#);
}

#[test]
fn write_collection_has_correct_params() {
    let mut buffer = String::new();
    let mut c = Table::new(&c_defs(), 0).unwrap();

    c.write_insert(&mut VisitedNodes::new(), &mut buffer).unwrap();
    assert_eq!(&buffer, r#""#);

    buffer.clear();
    c.write_select(&mut buffer, OrderBy::Ascending, Limit::All, "");
    assert_eq!(&buffer, C_SELECT);

    buffer.clear();
    c.write_update(&mut VisitedNodes::new(), &mut buffer).unwrap();
    assert_eq!(&buffer, r#""#);

    update_all_table_fields(&mut c);

    buffer.clear();
    c.write_insert(&mut VisitedNodes::new(), &mut buffer).unwrap();
    assert_eq!(
        &buffer,
        r#"INSERT INTO "c" (id,name) VALUES ('3','foo3');INSERT INTO "a" (id,name,id_a) VALUES ('1','foo1','3');INSERT INTO "a" (id,name,id_a) VALUES ('2','foo2','3');"#
    );

    buffer.clear();
    c.write_select(&mut buffer, OrderBy::Ascending, Limit::All, "");
    assert_eq!(&buffer, C_SELECT);

    buffer.clear();
    c.write_update(&mut VisitedNodes::new(), &mut buffer).unwrap();
    assert_eq!(
        &buffer,
        r#"UPDATE c SET id='3',name='foo3' WHERE id='3';UPDATE a SET id='1',name='foo1' WHERE id='1';UPDATE a SET id='2',name='foo2' WHERE id='2';"#
    );
}
