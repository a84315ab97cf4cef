use rango::commands::{
    count_sql, counted, delete_sql, insert_many, names_values, saving, scan_text, select_every,
    select_matching, select_one, sort_arg_text, update_sql, Saving,
};
use rango::spec::{Field, Name, Order, Schema, Sort, Table, Type};
use rango::value::{Row, Value};

fn posts() -> Schema {
    Schema { table: Table("posts"), fields: vec![Field::id(), Field::new("title", Type::Str)], rules: Vec::new() }
}

fn products() -> Schema {
    Schema {
        table: Table("products"),
        fields: vec![Field::key("sku"), Field::new("price", Type::Decimal)],
        rules: Vec::new(),
    }
}

fn product(sku: &str, price: &str) -> Vec<(Name, Value)> {
    vec![(Name("sku"), Value::str(sku)), (Name("price"), Value::decimal(price))]
}

#[test]
fn keyed_batch_is_one_insert() {
    let rows = vec![product("a", "1.50"), product("b", "2")];
    match saving(&products(), &rows) {
        Saving::Batch(sql, params) => {
            assert_eq!(sql, "INSERT INTO \"products\" (\"sku\", \"price\") VALUES (?, ?), (?, ?)");
            assert_eq!(
                params,
                vec![Value::str("a"), Value::decimal("1.50"), Value::str("b"), Value::decimal("2")]
            );
        }
        _ => panic!("expected one insert"),
    }
}

#[test]
fn columns_come_from_first_filled_row() {
    let rows = vec![Vec::new(), vec![(Name("title"), Value::str("x"))]];
    let (sql, params) = insert_many("posts", &rows);
    assert_eq!(sql, "INSERT INTO \"posts\" (\"title\") VALUES (), (?)");
    assert_eq!(params, vec![Value::str("x")]);
}

#[test]
fn unkeyed_batch_inserts_each() {
    let rows = vec![vec![(Name("title"), Value::str("one"))], vec![(Name("title"), Value::str("two"))]];
    match saving(&posts(), &rows) {
        Saving::Each(each) => {
            assert_eq!(each.len(), 2);
            assert_eq!(each[0].0, vec!["title".to_string()]);
            assert_eq!(each[1].1, vec![Value::str("two")]);
        }
        _ => panic!("expected one insert per model"),
    }
    assert!(matches!(saving(&posts(), &Vec::new()), Saving::Nothing));
}

#[test]
fn names_and_values_split() {
    let (names, values) = names_values(&product("a", "3"));
    assert_eq!(names, vec!["sku".to_string(), "price".to_string()]);
    assert_eq!(values, vec![Value::str("a"), Value::decimal("3")]);
}

#[test]
fn reads_by_key() {
    assert_eq!(select_one(&posts()), "SELECT * FROM \"posts\" WHERE \"id\" = ?");
    assert_eq!(select_every(&products()), "SELECT * FROM \"products\" ORDER BY \"sku\"");
    assert_eq!(
        select_matching(&posts(), Name("title")),
        "SELECT * FROM \"posts\" WHERE \"title\" = ? ORDER BY \"id\""
    );
}

#[test]
fn scans() {
    assert_eq!(scan_text(&posts(), "", "title", None), "SELECT * FROM \"posts\" ORDER BY \"title\"");
    assert_eq!(
        scan_text(&posts(), "\"title\" = ?", "-junk", Some((10, 20))),
        "SELECT * FROM \"posts\" WHERE \"title\" = ? ORDER BY \"id\" DESC LIMIT 10 OFFSET 20"
    );
    let down = Sort { field: Name("title"), order: Order::Desc };
    assert_eq!(sort_arg_text(&down), "-title");
    assert_eq!(
        scan_text(&posts(), "", &sort_arg_text(&down), None),
        "SELECT * FROM \"posts\" ORDER BY \"title\" DESC"
    );
    let up = Sort { field: Name("title"), order: Order::Asc };
    assert_eq!(sort_arg_text(&up), "title");
}

#[test]
fn counts() {
    assert_eq!(count_sql(&posts(), ""), "SELECT COUNT(*) FROM \"posts\"");
    assert_eq!(count_sql(&posts(), "\"id\" > ?"), "SELECT COUNT(*) FROM \"posts\" WHERE \"id\" > ?");
    assert_eq!(counted(&vec![Row { values: vec![Value::integer(7)] }]), 7);
    assert_eq!(counted(&vec![Row { values: vec![Value::str("x")] }]), 0);
    assert_eq!(counted(&Vec::new()), 0);
}

#[test]
fn updates_and_deletes() {
    let (sql, params) = update_sql(&posts(), &vec![(Name("title"), Value::str("new"))], &Value::integer(3));
    assert_eq!(sql, "UPDATE \"posts\" SET \"title\" = ? WHERE \"id\" = ?");
    assert_eq!(params, vec![Value::str("new"), Value::integer(3)]);
    let (sql, _) = update_sql(&products(), &product("a", "1"), &Value::str("a"));
    assert_eq!(sql, "UPDATE \"products\" SET \"sku\" = ?, \"price\" = ? WHERE \"sku\" = ?");
    assert_eq!(delete_sql(&products()), "DELETE FROM \"products\" WHERE \"sku\" = ?");
}

#[test]
fn single_insert() {
    let names = vec!["title".to_string(), "body".to_string()];
    assert_eq!(rango::commands::insert_one("posts", &names), "INSERT INTO \"posts\" (\"title\", \"body\") VALUES (?, ?)");
    assert_eq!(rango::commands::insert_one("posts", &Vec::new()), "INSERT INTO \"posts\" () VALUES ()");
}
