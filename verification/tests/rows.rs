use rango::related::{linked_ids, links_query, route, target_query, Route};
use rango::rows::{compare, keep, sort_rows};
use rango::spec::{Field, Filter, Link, Name, Op, Only, Order, Schema, Table, Tree, Type};
use rango::value::{Row, StoreError, Value};

fn pairs(raw: &[(&str, &str)]) -> Vec<(String, String)> {
    raw.iter().map(|(k, v)| (k.to_string(), v.to_string())).collect()
}

fn float(x: f64) -> Value {
    Value::Float(x.to_bits(), x.to_string())
}

fn people() -> Vec<Field> {
    vec![
        Field::id(),
        Field::new("name", Type::Str),
        Field::new("age", Type::Int),
        Field::new("on", Type::Bool),
    ]
}

#[test]
fn keeps_by_search() {
    let fields = people();
    let row = vec![Value::integer(1), Value::str("Ann Lee"), Value::integer(30), Value::bool(true)];
    let none = Vec::new();
    assert!(keep(&fields, &row, "", &none, &vec![1], &Vec::new()));
    assert!(keep(&fields, &row, "ann", &none, &vec![1], &Vec::new()));
    assert!(!keep(&fields, &row, "zed", &none, &vec![1], &Vec::new()));
    assert!(!keep(&fields, &row, "ann", &none, &Vec::new(), &Vec::new()));
}

#[test]
fn keeps_by_filters() {
    let fields = people();
    let row = vec![Value::integer(1), Value::str("Ann Lee"), Value::integer(30), Value::bool(true)];
    let check = |params: &[(&str, &str)]| keep(&fields, &row, "", &pairs(params), &Vec::new(), &Vec::new());
    assert!(check(&[("age", "30")]));
    assert!(!check(&[("age", "31")]));
    assert!(!check(&[("age", "x")]));
    assert!(check(&[("age", "")]));
    assert!(check(&[("name", "LEE")]));
    assert!(!check(&[("name", "bob")]));
    assert!(check(&[("on", "yes")]));
    assert!(!check(&[("on", "0")]));
    assert!(check(&[("id", "99")]));
}

#[test]
fn keeps_by_float_and_day() {
    let fields = vec![Field::new("x", Type::Float), Field::new("at", Type::Moment)];
    let at = chrono::NaiveDate::from_ymd_opt(2026, 9, 9).unwrap().and_hms_opt(12, 30, 0).unwrap().and_utc().timestamp();
    let row = vec![float(1.5), Value::datetime(at)];
    let check = |params: &[(&str, &str)], floats: Vec<(usize, Value)>| keep(&fields, &row, "", &pairs(params), &Vec::new(), &floats);
    assert!(check(&[("x", "1.5")], vec![(0, float(1.5))]));
    assert!(!check(&[("x", "2")], vec![(0, float(2.0))]));
    assert!(!check(&[("x", "nope")], Vec::new()));
    assert!(check(&[("at", "2026-09-09")], Vec::new()));
    assert!(!check(&[("at", "2026-09-10")], Vec::new()));
    assert!(!check(&[("at", "junk")], Vec::new()));
    let zero = vec![float(-0.0), Value::datetime(-3600)];
    assert!(keep(&fields, &zero, "", &pairs(&[("x", "0")]), &Vec::new(), &vec![(0, float(0.0))]));
    assert!(keep(&fields, &zero, "", &pairs(&[("at", "1969-12-31")]), &Vec::new(), &Vec::new()));
    let nan = vec![float(f64::NAN), Value::Null];
    assert!(!keep(&fields, &nan, "", &pairs(&[("x", "NaN")]), &Vec::new(), &vec![(0, float(f64::NAN))]));
}

#[test]
fn compares_cells() {
    assert_eq!(compare(Some(&Value::integer(1)), Some(&Value::integer(2))), -1);
    assert_eq!(compare(Some(&Value::str("b")), Some(&Value::str("a"))), 1);
    assert_eq!(compare(Some(&Value::str("ab")), Some(&Value::str("ab"))), 0);
    assert_eq!(compare(Some(&float(-1.0)), Some(&float(1.0))), -1);
    assert_eq!(compare(Some(&float(-0.0)), Some(&float(0.0))), -1);
    assert_eq!(compare(Some(&float(f64::NAN)), Some(&float(f64::INFINITY))), 1);
    assert_eq!(compare(Some(&Value::bool(false)), Some(&Value::bool(true))), -1);
    assert_eq!(compare(Some(&Value::Null), Some(&Value::integer(1))), 1);
    assert_eq!(compare(None, Some(&Value::Null)), 0);
    assert_eq!(compare(Some(&Value::integer(1)), None), -1);
    assert_eq!(compare(Some(&Value::integer(1)), Some(&Value::str("a"))), 0);
}

#[test]
fn sorts_rows() {
    let fields = people();
    let row = |id: i64, age: Option<i64>| {
        vec![Value::integer(id), Value::str("x"), age.map(Value::integer).unwrap_or(Value::Null), Value::bool(false)]
    };
    let start = vec![row(1, Some(30)), row(2, None), row(3, Some(20)), row(4, Some(30))];
    let ids = |rows: &Vec<Vec<Value>>| rows.iter().map(|r| r[0].clone()).collect::<Vec<_>>();
    let mut rows = start.clone();
    sort_rows(&fields, &mut rows, "age");
    assert_eq!(ids(&rows), vec![Value::integer(3), Value::integer(1), Value::integer(4), Value::integer(2)]);
    let mut rows = start.clone();
    sort_rows(&fields, &mut rows, "-age");
    assert_eq!(ids(&rows), vec![Value::integer(2), Value::integer(1), Value::integer(4), Value::integer(3)]);
    let mut rows = start.clone();
    sort_rows(&fields, &mut rows, "nope");
    assert_eq!(rows, start);
    let mut rows = start.clone();
    sort_rows(&fields, &mut rows, "");
    assert_eq!(rows, start);
}

fn posts() -> Schema {
    Schema {
        table: Table("posts"),
        fields: vec![
            Field::id(),
            Field::new("title", Type::Str),
            Field::new("tags", Type::Many).link(Link::Via(Table("post_tags"), Name("post"), Name("tag"))),
            Field::new("bare", Type::Many),
            Field::new("odd", Type::Many).link(Link::Via(Table("post_tags"), Name("post"), Name("post"))),
            Field::new("lost", Type::Many).link(Link::Via(Table("post_tags"), Name("post"), Name("gone"))),
            Field::new("far", Type::Many).link(Link::Via(Table("post_tags"), Name("post"), Name("far"))),
        ],
        rules: Vec::new(),
    }
}

fn through() -> Schema {
    Schema {
        table: Table("post_tags"),
        fields: vec![
            Field::id(),
            Field::new("post", Type::Int),
            Field::new("tag", Type::Int).references("tags.id"),
            Field::new("far", Type::Int).references("nowhere"),
        ],
        rules: Vec::new(),
    }
}

fn tags() -> Schema {
    Schema { table: Table("tags"), fields: vec![Field::id(), Field::new("label", Type::Str)], rules: Vec::new() }
}

fn schemas() -> (Schema, Vec<Schema>) {
    (posts(), vec![tags(), through()])
}

#[test]
fn routes_many_fields() {
    let (posts, all) = schemas();
    let r = route(&posts, &all, Name("tags")).unwrap();
    assert_eq!(r, Route { through: 1, mine: Name("post"), theirs: Name("tag"), target: 0, column: Name("id") });
    let msg = |e: StoreError| e.message();
    assert!(matches!(route(&posts, &all, Name("title")), Err(StoreError::Unsupported(m)) if m == "single field needs filter"));
    assert_eq!(msg(route(&posts, &all, Name("nope")).unwrap_err()), "unknown field");
    assert_eq!(msg(route(&posts, &all, Name("bare")).unwrap_err()), "many field needs via");
    assert_eq!(msg(route(&posts, &vec![tags()], Name("tags")).unwrap_err()), "unknown through");
    assert_eq!(msg(route(&posts, &all, Name("odd")).unwrap_err()), "through column needs references");
    assert_eq!(msg(route(&posts, &all, Name("lost")).unwrap_err()), "unknown through column");
    assert_eq!(msg(route(&posts, &all, Name("far")).unwrap_err()), "unknown target");
}

#[test]
fn reads_links() {
    let (_, all) = schemas();
    let r = Route { through: 1, mine: Name("post"), theirs: Name("tag"), target: 0, column: Name("id") };
    let q = links_query(&r, Value::integer(7));
    assert_eq!(q.tree, Tree::Leaf(Filter { field: Name("post"), op: Op::Eq, value: Value::integer(7) }));
    assert_eq!(q.only, Only::These(vec![Name("tag")]));
    let rows = vec![
        Row { values: vec![Value::integer(4)] },
        Row { values: vec![Value::Null] },
        Row { values: vec![Value::integer(9)] },
        Row { values: vec![Value::integer(4)] },
        Row { values: Vec::new() },
    ];
    let ids = linked_ids(&rows);
    assert_eq!(ids, vec![Value::integer(4), Value::integer(9)]);
    let q = target_query(ids, &all[0], Name("id")).unwrap();
    assert_eq!(
        q.tree,
        Tree::Or(vec![
            Tree::Leaf(Filter { field: Name("id"), op: Op::Eq, value: Value::integer(4) }),
            Tree::Leaf(Filter { field: Name("id"), op: Op::Eq, value: Value::integer(9) }),
        ])
    );
    assert_eq!(q.sort.len(), 1);
    assert_eq!((q.sort[0].field, q.sort[0].order), (Name("id"), Order::Asc));
    assert!(target_query(Vec::new(), &all[0], Name("id")).is_none());
}

#[test]
fn equal_ages_keep_their_order() {
    let fields = people();
    let row = |id: i64, name: &str, age: i64| vec![Value::integer(id), Value::str(name), Value::integer(age), Value::bool(true)];
    let mut rows = vec![row(1, "a", 30), row(2, "b", 20), row(3, "c", 30), row(4, "d", 20)];
    sort_rows(&fields, &mut rows, "age");
    let ids: Vec<Value> = rows.iter().map(|r| r[0].clone()).collect();
    assert_eq!(ids, vec![Value::integer(2), Value::integer(4), Value::integer(1), Value::integer(3)]);
    sort_rows(&fields, &mut rows, "-age");
    let ids: Vec<Value> = rows.iter().map(|r| r[0].clone()).collect();
    assert_eq!(ids, vec![Value::integer(1), Value::integer(3), Value::integer(2), Value::integer(4)]);
}
