use rango::dialect::{Dialect, Path};
use rango::memory::{Memory, parse_select, Read};
use rango::spec::{Field, Filter, Link, Mass, Name, Only, Op, Order, Page, Query, Schema, Sort, Table, Tree, Type};
use rango::statement::{confirm, id_of_insert, total_of, Plan};
use rango::value::{Key, StoreError, Value};

fn people() -> Schema {
    Schema {
        table: Table("people"),
        fields: vec![Field::id(), Field::new("name", Type::Str), Field::new("age", Type::Int)],
        rules: Vec::new(),
    }
}

fn query(tree: Tree) -> Query {
    Query { tree, sort: Vec::new(), page: Page::all(), only: Only::All, mass: None }
}

#[test]
fn memory_round_trip() {
    let mut m = Memory::new();
    assert_eq!(m.execute("CREATE TABLE IF NOT EXISTS t (id INTEGER)", &vec![]).unwrap(), 0);
    assert_eq!(m.execute("CREATE TABLE IF NOT EXISTS t (id INTEGER)", &vec![]).unwrap(), 0);
    assert_eq!(m.execute("INSERT INTO t (name, age) VALUES (?, ?)", &vec![Value::str("ann"), Value::integer(30)]).unwrap(), 1);
    assert_eq!(m.execute("INSERT INTO t (name, age) VALUES (?, ?)", &vec![Value::str("bob"), Value::integer(40)]).unwrap(), 1);
    let rows = m.fetch("SELECT * FROM t ORDER BY id", &vec![]).unwrap();
    assert_eq!(rows.len(), 2);
    assert_eq!(rows[0].values, vec![Value::integer(1), Value::str("ann"), Value::integer(30)]);
    assert_eq!(m.fetch("SELECT COUNT(*) FROM t", &vec![]).unwrap()[0].values, vec![Value::integer(2)]);
    assert_eq!(m.execute("UPDATE t SET age = ? WHERE id = ?", &vec![Value::integer(31), Value::integer(1)]).unwrap(), 1);
    assert_eq!(
        m.fetch("SELECT * FROM t WHERE id = ?", &vec![Value::integer(1)]).unwrap()[0].values,
        vec![Value::integer(1), Value::integer(31)]
    );
    assert_eq!(m.execute("DELETE FROM t WHERE id = ?", &vec![Value::integer(1)]).unwrap(), 1);
    assert!(m.fetch("SELECT * FROM t WHERE id = ?", &vec![Value::integer(1)]).unwrap().is_empty());
    assert_eq!(m.last_id("t").unwrap(), 2);
}

#[test]
fn memory_failures() {
    let mut m = Memory::new();
    assert!(matches!(m.fetch("SELECT * FROM nope", &vec![]), Err(StoreError::Sql(s)) if s == "no table"));
    assert!(matches!(m.execute("INSERT INTO nope (a) VALUES (?)", &vec![]), Err(StoreError::Sql(s)) if s == "no table nope"));
    assert!(matches!(m.execute("DROP TABLE t", &vec![]), Err(StoreError::Sql(s)) if s == "unsupported DROP TABLE t"));
    m.execute("CREATE TABLE IF NOT EXISTS \"t\" (id INTEGER)", &vec![]).unwrap();
    assert!(matches!(m.execute("DELETE FROM t WHERE id = ?", &vec![Value::str("x")]), Err(StoreError::Value(s)) if s == "expected id param"));
    assert!(matches!(m.execute("UPDATE t SET a = ?", &vec![Value::integer(1)]), Err(StoreError::Sql(s)) if s == "bad update"));
    assert!(matches!(m.execute("CREATE TABLE IF NOT EXISTS u", &vec![]), Err(StoreError::Sql(s)) if s == "bad create"));
    assert!(m.last_id("nope").is_err());
    assert!(m.room());
    let (name, read) = parse_select("SELECT * FROM  \"t\"  WHERE id = ?").unwrap();
    assert_eq!(name, "t");
    assert_eq!(read, Read::Where);
}

#[test]
fn selects() {
    let schema = people();
    let q = Query {
        tree: Tree::And(vec![
            Tree::Leaf(Filter { field: Name("name"), op: Op::Like, value: Value::str("%an%") }),
            Tree::Leaf(Filter { field: Name("age"), op: Op::More, value: Value::integer(30) }),
        ]),
        sort: vec![Sort { field: Name("age"), order: Order::Desc }],
        page: Page { count: 10, offset: 20 },
        only: Only::These(vec![Name("name")]),
        mass: None,
    };
    let (sql, params, kinds) = Dialect::Postgres.select(&Vec::new(), &schema, &q).unwrap();
    assert_eq!(
        sql,
        "SELECT \"name\" FROM \"people\" WHERE (LOWER(\"name\") LIKE $1 AND \"age\" > $2) ORDER BY \"age\" DESC LIMIT 10 OFFSET 20"
    );
    assert_eq!(params, vec![Value::str("%an%"), Value::integer(30)]);
    assert_eq!(kinds, vec![rango::value::ColumnKind::Text]);
    let (sql, _, _) = Dialect::Sqlite.select(&Vec::new(), &schema, &query(Tree::And(Vec::new()))).unwrap();
    assert_eq!(sql, "SELECT * FROM \"people\" ORDER BY \"id\"");
    let bad = Query { only: Only::These(vec![Name("nope")]), ..query(Tree::And(Vec::new())) };
    assert!(matches!(Dialect::Sqlite.select(&Vec::new(), &schema, &bad), Err(StoreError::Value(m)) if m == "unknown field nope"));
    let massed = Query { mass: Some(Mass::Count), ..query(Tree::And(Vec::new())) };
    assert!(matches!(Dialect::Sqlite.select(&Vec::new(), &schema, &massed), Err(StoreError::Unsupported(_))));
}

#[test]
fn counts_and_masses() {
    let schema = people();
    let q = query(Tree::Cut(Box::new(Tree::Leaf(Filter { field: Name("age"), op: Op::Bare, value: Value::Null }))));
    let (sql, params) = Dialect::Sqlite.count(&Vec::new(), &schema, &q).unwrap();
    assert_eq!(sql, "SELECT COUNT(*) FROM \"people\" WHERE NOT (\"age\" IS NULL)");
    assert!(params.is_empty());
    let sum = Query { mass: Some(Mass::Sum(Name("age"))), ..query(Tree::Or(Vec::new())) };
    let (sql, _, kind) = Dialect::Postgres.aggregate(&Vec::new(), &schema, &sum).unwrap();
    assert_eq!(sql, "SELECT CAST(SUM(\"age\") AS BIGINT) FROM \"people\" WHERE 1 = 0");
    assert_eq!(kind, rango::value::ColumnKind::Integer);
    let mean = Query { mass: Some(Mass::Mean(Name("age"))), ..query(Tree::And(Vec::new())) };
    let (sql, _, _) = Dialect::Sqlite.aggregate(&Vec::new(), &schema, &mean).unwrap();
    assert_eq!(sql, "SELECT AVG(\"age\") FROM \"people\"");
    assert!(Dialect::Sqlite.aggregate(&Vec::new(), &schema, &query(Tree::And(Vec::new()))).is_err());
    assert_eq!(total_of(Some(3)).unwrap(), 3);
    assert!(total_of(None).is_err());
    assert_eq!(id_of_insert(Some(9)).unwrap(), 9);
}

#[test]
fn days() {
    let schema = people();
    let q = query(Tree::Leaf(Filter { field: Name("age"), op: Op::At, value: Value::datetime(90000) }));
    let (sql, params) = Dialect::Sqlite.count(&Vec::new(), &schema, &q).unwrap();
    assert_eq!(sql, "SELECT COUNT(*) FROM \"people\" WHERE \"age\" >= ? AND \"age\" < ?");
    assert_eq!(params, vec![Value::datetime(86400), Value::datetime(172800)]);
}

#[test]
fn writes() {
    let schema = people();
    let (sql, params) = Dialect::Postgres.replace(&schema, &Value::integer(4), &vec![(Name("age"), Value::integer(31))]);
    assert_eq!(sql, "UPDATE \"people\" SET \"age\" = $1 WHERE \"id\" = $2");
    assert_eq!(params, vec![Value::integer(31), Value::integer(4)]);
    let (sql, params) = Dialect::Sqlite.remove(&schema, &Value::integer(4));
    assert_eq!(sql, "DELETE FROM \"people\" WHERE \"id\" = ?");
    assert_eq!(params, vec![Value::integer(4)]);
    match Dialect::Sqlite.create(&schema, &vec![vec![(Name("name"), Value::str("ann")), (Name("age"), Value::integer(30))]]) {
        Plan::Rows(stmts) => {
            assert_eq!(stmts.len(), 1);
            assert_eq!(stmts[0].0, "INSERT INTO \"people\" (\"name\", \"age\") VALUES (?, ?) RETURNING \"id\"");
        }
        _ => panic!("expected one insert per row"),
    }
    assert!(matches!(Dialect::Sqlite.create(&schema, &vec![]), Plan::Nothing));
}

#[test]
fn keyed_writes() {
    let schema = Schema {
        table: Table("items"),
        fields: vec![Field::key("sku"), Field::new("price", Type::Decimal)],
        rules: Vec::new(),
    };
    let rows = vec![
        vec![(Name("sku"), Value::str("a")), (Name("price"), Value::decimal("1.5"))],
        vec![(Name("sku"), Value::str("b")), (Name("price"), Value::decimal("2.5"))],
    ];
    match Dialect::Postgres.create(&schema, &rows) {
        Plan::Batch { sql, params, keys } => {
            assert_eq!(
                sql,
                "INSERT INTO \"items\" (\"sku\", \"price\") VALUES ($1, $2), ($3, $4) ON CONFLICT(\"sku\") DO UPDATE SET \"price\" = excluded.\"price\""
            );
            assert_eq!(params.len(), 4);
            assert_eq!(keys.unwrap(), vec![Key::Text("a".into()), Key::Text("b".into())]);
        }
        _ => panic!("expected a batch"),
    }
    let lone = vec![vec![(Name("sku"), Value::str("a"))]];
    match Dialect::Sqlite.create(&schema, &lone) {
        Plan::Batch { sql, .. } => assert_eq!(sql, "INSERT INTO \"items\" (\"sku\") VALUES (?) ON CONFLICT(\"sku\") DO NOTHING"),
        _ => panic!("expected a batch"),
    }
    let missing = vec![vec![(Name("price"), Value::decimal("1"))]];
    match Dialect::Sqlite.create(&schema, &missing) {
        Plan::Batch { keys, .. } => assert!(matches!(keys, Err(StoreError::Value(m)) if m == "missing key")),
        _ => panic!("expected a batch"),
    }
}

#[test]
fn lookups() {
    let schema = Schema {
        table: Table("books"),
        fields: vec![
            Field::id(),
            Field::new("author", Type::Int).link(Link::To(Table("people"), Name("id"))),
            Field::new("title", Type::Str),
        ],
        rules: Vec::new(),
    };
    let tree = Tree::Or(vec![
        Tree::Leaf(Filter { field: Name("author__name"), op: Op::Like, value: Value::str("%a%") }),
        Tree::Leaf(Filter { field: Name("title"), op: Op::Eq, value: Value::str("x") }),
        Tree::Leaf(Filter { field: Name("title__x"), op: Op::Eq, value: Value::str("y") }),
        Tree::Leaf(Filter { field: Name("nope__x"), op: Op::Eq, value: Value::str("y") }),
    ]);
    let mut out = Vec::new();
    schema.lookups(&tree, &mut out);
    assert_eq!(out.len(), 3);
    let first = out.remove(0).unwrap();
    assert_eq!(first.path.head, "\"author\" IN (SELECT \"id\" FROM \"people\" WHERE \"name\" LIKE ");
    assert_eq!(first.sub, "name");
    assert!(matches!(&out[0], Err(StoreError::Value(m)) if m == "title needs a reference"));
    assert!(matches!(&out[1], Err(StoreError::Value(m)) if m == "unknown field nope"));
    let paths: Vec<Path> = vec![first.path];
    let (sql, params) = Dialect::Sqlite.count(&paths, &schema, &query(Tree::Leaf(Filter {
        field: Name("author__name"),
        op: Op::Like,
        value: Value::str("%a%"),
    }))).unwrap();
    assert_eq!(sql, "SELECT COUNT(*) FROM \"books\" WHERE \"author\" IN (SELECT \"id\" FROM \"people\" WHERE \"name\" LIKE ?)");
    assert_eq!(params, vec![Value::str("%a%")]);
}

#[test]
fn migration_plan() {
    let schema = people();
    let have = vec![
        rango::value::Column { name: "id".into(), kind: rango::value::ColumnKind::Integer },
        rango::value::Column { name: "junk".into(), kind: rango::value::ColumnKind::Real },
    ];
    let plan = Dialect::Sqlite.migration(&schema, &have, true);
    assert_eq!(
        plan,
        vec![
            "ALTER TABLE \"people\" ADD COLUMN \"name\" TEXT NOT NULL".to_string(),
            "ALTER TABLE \"people\" ADD COLUMN \"age\" INTEGER NOT NULL".to_string(),
            "ALTER TABLE \"people\" DROP COLUMN \"junk\"".to_string(),
        ]
    );
    assert_eq!(Dialect::Sqlite.migration(&schema, &have, false).len(), 2);
    assert_eq!(Dialect::Sqlite.latest(), Some("SELECT last_insert_rowid()"));
    assert_eq!(Dialect::Postgres.latest(), None);
    assert_eq!(Dialect::Sqlite.introspect("t"), "PRAGMA table_info(\"t\")");
}

#[test]
fn confirms_lookups() {
    let schema = Schema {
        table: Table("books"),
        fields: vec![Field::id(), Field::new("author", Type::Int).link(Link::To(Table("people"), Name("id")))],
        rules: Vec::new(),
    };
    let tree = Tree::Leaf(Filter { field: Name("author__name"), op: Op::Eq, value: Value::str("a") });
    let mut out = Vec::new();
    schema.lookups(&tree, &mut out);
    let found = out.remove(0).unwrap();
    let cols = vec!["id".to_string(), "name".to_string()];
    let path = confirm(found, &cols).unwrap();
    assert_eq!(path.field, Name("author__name"));
    let mut out = Vec::new();
    schema.lookups(&tree, &mut out);
    let found = out.remove(0).unwrap();
    assert!(matches!(confirm(found, &vec!["id".to_string()]), Err(StoreError::Value(m)) if m == "unknown column name"));
}

#[test]
fn marks_match_bound_values() {
    let node = Tree::Or(vec![
        Tree::Leaf(Filter { field: Name("name"), op: Op::Like, value: Value::str("%a%") }),
        Tree::And(vec![
            Tree::Leaf(Filter { field: Name("age"), op: Op::More, value: Value::integer(3) }),
            Tree::Leaf(Filter { field: Name("age"), op: Op::Less, value: Value::integer(9) }),
        ]),
    ]);
    let mut params: Vec<Value> = Vec::new();
    let text = Dialect::Sqlite.tree(&Vec::new(), &node, &mut params);
    assert_eq!(text.matches('?').count(), params.len());
    assert_eq!(params.len(), 3);
    let mut none: Vec<Value> = Vec::new();
    let empty = Dialect::Sqlite.tree(&Vec::new(), &Tree::And(Vec::new()), &mut none);
    assert!(empty.is_empty());
    assert!(none.is_empty());
}
