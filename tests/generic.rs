use cleu_orm::{Association, AssociationDefs, Limit, OrderBy, Table, TableDefs, Value, VisitedNodes};

fn defs(name: &str, children: Vec<AssociationDefs>) -> TableDefs {
    TableDefs {
        table_name: name.to_string(),
        table_alias: None,
        primary_key_name: "id".to_string(),
        field_names: vec!["name".to_string()],
        associations: children,
    }
}

fn one(from_id: &str, to_id: &str, table: TableDefs) -> AssociationDefs {
    AssociationDefs {
        association: Association::new(from_id.to_string(), to_id.to_string()),
        table,
        many: false,
    }
}

fn a_defs() -> TableDefs {
    defs("a", vec![])
}

fn b_defs() -> TableDefs {
    defs("b", vec![one("id", "id_b", a_defs())])
}

fn c_defs() -> TableDefs {
    defs("c", vec![one("id", "id_c", a_defs())])
}

fn d_defs() -> TableDefs {
    defs("d", vec![one("id", "id_d", b_defs()), one("id", "id_d", c_defs())])
}

fn bind(t: &mut Table, id: i64, name: &str) {
    *t.id_field_mut().value_mut() = Some(Value::Int(id));
    *t.fields_mut()[0].value_mut() = Some(Value::Text(name.to_string()));
}

fn update_a(t: &mut Table) {
    bind(t, 1, "foo1");
}

fn update_b(t: &mut Table) {
    bind(t, 2, "foo2");
    update_a(&mut t.associations_mut()[0].guide);
}

fn update_c(t: &mut Table) {
    bind(t, 3, "foo3");
    update_a(&mut t.associations_mut()[0].guide);
}

fn update_d(t: &mut Table) {
    bind(t, 4, "foo4");
    update_b(&mut t.associations_mut()[0].guide);
    update_c(&mut t.associations_mut()[1].guide);
}

fn select(t: &Table) -> String {
    let mut buffer = String::new();
    t.write_select(&mut buffer, OrderBy::Ascending, Limit::All, "");
    buffer
}

fn insert(t: &Table) -> String {
    let mut buffer = String::new();
    t.write_insert(&mut VisitedNodes::new(), &mut buffer).unwrap();
    buffer
}

#[test]
fn generic_multi_referred_table_has_correct_statements() {
    let mut d = Table::new(&d_defs(), 0).unwrap();
    assert_eq!(&select(&d), r#"SELECT "d0".id AS d0__id,"d0".name AS d0__name,"b1".id AS b1__id,"b1".name AS b1__name,"a2".id AS a2__id,"a2".name AS a2__name,"c2".id AS c2__id,"c2".name AS c2__name,"a3".id AS a3__id,"a3".name AS a3__name FROM "d" AS "d0" LEFT JOIN "b" AS "b1" ON "d0".id = "b1".id_d LEFT JOIN "c" AS "c2" ON "d0".id = "c2".id_d LEFT JOIN "a" AS "a2" ON "b1".id = "a2".id_b LEFT JOIN "a" AS "a3" ON "c2".id = "a3".id_c  ORDER BY "d0".id,"b1".id,"a2".id,"c2".id,"a3".id ASC LIMIT ALL"#);
    update_d(&mut d);
    assert_eq!(&insert(&d), r#"INSERT INTO "d" (id,name) VALUES ('4','foo4');INSERT INTO "b" (id,name,id_d) VALUES ('2','foo2','4');INSERT INTO "a" (id,name,id_b) VALUES ('1','foo1','2');INSERT INTO "c" (id,name,id_d) VALUES ('3','foo3','4');"#);
}

#[test]
fn generic_referred_table_has_correct_statements() {
    let mut b = Table::new(&b_defs(), 0).unwrap();
    assert_eq!(&select(&b), r#"SELECT "b0".id AS b0__id,"b0".name AS b0__name,"a1".id AS a1__id,"a1".name AS a1__name FROM "b" AS "b0" LEFT JOIN "a" AS "a1" ON "b0".id = "a1".id_b  ORDER BY "b0".id,"a1".id ASC LIMIT ALL"#);
    update_b(&mut b);
    assert_eq!(&insert(&b), r#"INSERT INTO "b" (id,name) VALUES ('2','foo2');INSERT INTO "a" (id,name,id_b) VALUES ('1','foo1','2');"#);
}

#[test]
fn generic_standalone_table_has_correct_statements() {
    let mut a = Table::new(&a_defs(), 0).unwrap();
    assert_eq!(&select(&a), r#"SELECT "a0".id AS a0__id,"a0".name AS a0__name FROM "a" AS "a0"  ORDER BY "a0".id ASC LIMIT ALL"#);
    update_a(&mut a);
    assert_eq!(&insert(&a), r#"INSERT INTO "a" (id,name) VALUES ('1','foo1');"#);
}
