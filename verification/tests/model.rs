use rango::dialect::{Dialect, Postgres, Sqlite};
use rango::model::{id_column, key, kinds, Model};
use rango::spec::{Field, Name, Order, Schema, Sort, Table, Type};
use rango::value::{Column, ColumnKind, Key, Row, StoreError, Value};

struct Post {
    id: i64,
    title: String,
}

impl Model for Post {
    fn table() -> Table {
        Table("posts")
    }

    fn fields() -> Vec<Field> {
        vec![Field::id(), Field::new("title", Type::Str)]
    }

    fn row(&self) -> Vec<Value> {
        vec![Value::str(&self.title)]
    }

    fn from_row(row: &Row) -> Result<Self, StoreError> {
        Ok(Self { id: row.integer(0)?, title: row.str(1)? })
    }

    fn set_id(&mut self, id: Value) {
        if let Value::Int(id) = id {
            self.id = id;
        }
    }

    fn id(&self) -> Value {
        Value::integer(self.id)
    }
}

struct Product {
    sku: String,
    price: String,
}

impl Model for Product {
    fn table() -> Table {
        Table("products")
    }

    fn fields() -> Vec<Field> {
        vec![Field::key("sku"), Field::new("price", Type::Decimal)]
    }

    fn row(&self) -> Vec<Value> {
        vec![Value::str(&self.sku), Value::decimal(&self.price)]
    }

    fn from_row(row: &Row) -> Result<Self, StoreError> {
        Ok(Self { sku: row.str(0)?, price: row.str(1)? })
    }

    fn set_id(&mut self, id: Value) {
        if let Value::Str(id) = id {
            self.sku = id;
        }
    }

    fn id(&self) -> Value {
        Value::str(&self.sku)
    }
}

fn col(name: &str, kind: ColumnKind) -> Column {
    Column { name: name.to_string(), kind }
}

#[test]
fn affinities() {
    assert_eq!(kinds::<Post>(), vec![ColumnKind::Integer, ColumnKind::Text]);
}

#[test]
fn ddl() {
    assert_eq!(
        Post::schema().ddl(),
        "CREATE TABLE IF NOT EXISTS \"posts\" (\"id\" INTEGER PRIMARY KEY AUTOINCREMENT, \"title\" TEXT NOT NULL)"
    );
}

#[test]
fn key_ddl() {
    assert_eq!(
        Product::schema().ddl(),
        "CREATE TABLE IF NOT EXISTS \"products\" (\"sku\" TEXT PRIMARY KEY, \"price\" TEXT NOT NULL)"
    );
}

#[test]
fn adds() {
    let schema = Post::schema();
    let have = vec![col("id", ColumnKind::Integer), col("title", ColumnKind::Text)];
    assert!(schema.alter(&have).is_empty());
    let missing = vec![col("id", ColumnKind::Integer)];
    assert_eq!(schema.alter(&missing).len(), 1);
}

#[test]
fn model_drops() {
    let schema = Post::schema();
    let have = vec![col("id", ColumnKind::Integer), col("title", ColumnKind::Text), col("junk", ColumnKind::Text)];
    let drop = schema.drop(&have);
    assert_eq!(drop.len(), 1);
    assert!(schema.drop(&have[..2]).is_empty());
}

#[test]
fn model_renames() {
    let schema = Post::schema();
    let have = vec![col("id", ColumnKind::Integer), col("name", ColumnKind::Text)];
    let rename = schema.rename(&have);
    assert_eq!(rename.len(), 1);
    assert!(schema.alter(&have).is_empty());
    assert!(schema.drop(&have).is_empty());
    let mixed = vec![col("id", ColumnKind::Integer), col("name", ColumnKind::Text), col("age", ColumnKind::Integer)];
    assert_eq!(schema.rename(&mixed).len(), 1);
    assert!(schema.alter(&mixed).is_empty());
    assert_eq!(schema.drop(&mixed).len(), 1);
}

#[test]
fn model_spec() {
    let spec = Post::spec();
    assert_eq!(spec.table, Table("posts"));
    assert_eq!(spec.rules, Vec::new());
    assert_eq!(Post::spec().key(), Name("id"));
    assert_eq!(Product::spec().key(), Name("sku"));
    assert_eq!(Post::columns(), vec![Name("title")]);
    assert_eq!(Post::search(), vec![Name("title")]);
}

#[test]
fn model_sorts() {
    let schema = Post::spec();
    assert_eq!(Sort::parse("title", &schema), Sort { field: Name("title"), order: Order::Asc });
    assert_eq!(Sort::parse("-title", &schema), Sort { field: Name("title"), order: Order::Desc });
    assert_eq!(Sort::parse("junk", &schema), Sort { field: Name("id"), order: Order::Asc });
}

#[test]
fn model_keys() {
    assert_eq!(Key::parse("7", &Post::spec()).value(), Value::integer(7));
    assert_eq!(Key::parse("7", &Product::spec()).value(), Value::str("7"));
    assert_eq!(Key::parse("x", &Post::spec()).value(), Value::str("x"));
}

fn schema() -> Schema {
    Schema { table: Table("posts"), fields: vec![Field::id(), Field::new("title", Type::Str)], rules: Vec::new() }
}

fn keyed() -> Schema {
    Schema {
        table: Table("products"),
        fields: vec![Field::key("sku"), Field::new("price", Type::Decimal)],
        rules: Vec::new(),
    }
}

#[test]
fn spec_keys() {
    assert_eq!(schema().key(), Name("id"));
    assert_eq!(keyed().key(), Name("sku"));
    assert_eq!(Key::parse("7", &schema()).value(), Value::integer(7));
    assert_eq!(Key::parse("7", &keyed()).value(), Value::str("7"));
    assert_eq!(Key::parse("x", &schema()).value(), Value::str("x"));
}

#[test]
fn spec_key_of() {
    assert_eq!(Key::of(&Value::integer(3)).unwrap(), Key::Int(3));
    assert_eq!(Key::of(&Value::str("x")).unwrap(), Key::Text("x".into()));
    assert!(Key::of(&Value::Null).is_err());
}

#[test]
fn spec_sorts() {
    let schema = schema();
    assert_eq!(Sort::parse("title", &schema), Sort { field: Name("title"), order: Order::Asc });
    assert_eq!(Sort::parse("-title", &schema), Sort { field: Name("title"), order: Order::Desc });
    assert_eq!(Sort::parse("junk", &schema), Sort { field: Name("id"), order: Order::Asc });
}

#[test]
fn renders() {
    assert_eq!(
        Sqlite.dialect().ddl(&schema()),
        "CREATE TABLE IF NOT EXISTS \"posts\" (\"id\" INTEGER PRIMARY KEY AUTOINCREMENT, \"title\" TEXT NOT NULL)"
    );
    assert_eq!(
        Sqlite.dialect().ddl(&keyed()),
        "CREATE TABLE IF NOT EXISTS \"products\" (\"sku\" TEXT PRIMARY KEY, \"price\" TEXT NOT NULL)"
    );
    assert_eq!(schema().kinds(), vec![ColumnKind::Integer, ColumnKind::Text]);
}

#[test]
fn alters() {
    let schema = schema();
    let have = vec![col("id", ColumnKind::Integer), col("title", ColumnKind::Text)];
    assert!(Dialect::Sqlite.alter(&schema, &have).is_empty());
    let missing = vec![col("id", ColumnKind::Integer)];
    assert_eq!(Dialect::Sqlite.alter(&schema, &missing).len(), 1);
}

#[test]
fn sqlite_drops() {
    let schema = schema();
    let have = vec![col("id", ColumnKind::Integer), col("title", ColumnKind::Text), col("junk", ColumnKind::Text)];
    assert_eq!(Dialect::Sqlite.drop(&schema, &have).len(), 1);
    assert!(Dialect::Sqlite.drop(&schema, &have[..2]).is_empty());
}

#[test]
fn sqlite_renames() {
    let schema = schema();
    let have = vec![col("id", ColumnKind::Integer), col("name", ColumnKind::Text)];
    assert_eq!(Dialect::Sqlite.rename(&schema, &have).len(), 1);
    assert!(Dialect::Sqlite.alter(&schema, &have).is_empty());
    assert!(Dialect::Sqlite.drop(&schema, &have).is_empty());
    let mixed = vec![col("id", ColumnKind::Integer), col("name", ColumnKind::Text), col("age", ColumnKind::Integer)];
    assert_eq!(Dialect::Sqlite.rename(&schema, &mixed).len(), 1);
    assert!(Dialect::Sqlite.alter(&schema, &mixed).is_empty());
    assert_eq!(Dialect::Sqlite.drop(&schema, &mixed).len(), 1);
}

#[test]
fn rename_text() {
    let have = vec![col("id", ColumnKind::Integer), col("name", ColumnKind::Text)];
    assert_eq!(
        schema().rename(&have),
        vec!["ALTER TABLE \"posts\" RENAME COLUMN \"name\" TO \"title\"".to_string()]
    );
    let missing = vec![col("id", ColumnKind::Integer)];
    assert_eq!(
        schema().alter(&missing),
        vec!["ALTER TABLE \"posts\" ADD COLUMN \"title\" TEXT NOT NULL".to_string()]
    );
}

#[test]
fn postgres_ddl() {
    assert_eq!(
        Postgres.dialect().ddl(&schema()),
        "CREATE TABLE IF NOT EXISTS \"posts\" (\"id\" BIGSERIAL PRIMARY KEY, \"title\" TEXT NOT NULL)"
    );
}

#[test]
fn model_helpers() {
    assert_eq!(id_column::<Product>(), Name("sku"));
    assert_eq!(key::<Post>("12"), Value::integer(12));
    assert_eq!(key::<Product>("12"), Value::str("12"));
    assert_eq!(rango::statement::order::<Post>("-title"), "\"title\" DESC");
    assert_eq!(rango::statement::order::<Post>("-junk"), "\"id\" DESC");
    assert_eq!(rango::statement::order::<Post>("title"), "\"title\"");
}

#[test]
fn pairs_fill_defaults() {
    let fields = vec![
        Field::id(),
        Field::new("a", Type::Str),
        Field::new("b", Type::Int).default(Value::integer(5)),
        Field::new("c", Type::Str),
    ];
    let out = rango::model::pairs_for(&fields, &vec![Value::str("x"), Value::Null]);
    assert_eq!(
        out,
        vec![(Name("a"), Value::str("x")), (Name("b"), Value::integer(5)), (Name("c"), Value::Null)]
    );
}
