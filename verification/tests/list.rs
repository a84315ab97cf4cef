use rango::widgets::{create, Outcome};
use rango::list::{filters, heads, held, items, key_texts, searches};
use rango::spec::{Field, Filter, Name, Op, Schema, Table, Tree, Type};
use rango::value::{Row, Value};

fn pairs(raw: &[(&str, &str)]) -> Vec<(String, String)> {
    raw.iter().map(|(k, v)| (k.to_string(), v.to_string())).collect()
}

fn authors() -> Schema {
    Schema {
        table: Table("authors"),
        fields: vec![Field::id(), Field::new("name", Type::Str), Field::new("born", Type::Int), Field::new("nick", Type::Str.optional())],
        rules: Vec::new(),
    }
}

fn books() -> Vec<Field> {
    vec![
        Field::id(),
        Field::new("title", Type::Str),
        Field::new("author", Type::Int).references("authors"),
        Field::new("shelf", Type::Int).references("shelves"),
        Field::new("tags", Type::Many),
    ]
}

#[test]
fn referred_searches() {
    let schemas = vec![authors()];
    let got = searches(&books(), &schemas, "ann");
    assert_eq!(got.len(), 1);
    assert_eq!((got[0].field, got[0].schema), (2, 0));
    assert_eq!(
        got[0].query.tree,
        Tree::Or(vec![
            Tree::Leaf(Filter { field: Name("name"), op: Op::Like, value: Value::str("%ann%") }),
            Tree::Leaf(Filter { field: Name("nick"), op: Op::Like, value: Value::str("%ann%") }),
        ])
    );
    assert!(searches(&books(), &schemas, "").is_empty());
}

#[test]
fn referred_keys() {
    let rows = vec![Row { values: vec![Value::integer(4), Value::str("Ann")] }, Row { values: Vec::new() }];
    assert_eq!(key_texts(&rows, &authors()), vec!["4".to_string(), String::new()]);
}

#[test]
fn column_heads() {
    let fields = books();
    let hs = heads(&fields, &vec![1, 2], Name("id"), "title", "q=x");
    let names: Vec<&str> = hs.iter().map(|h| h.name.as_str()).collect();
    assert_eq!(names, vec!["id", "title", "author"]);
    assert_eq!(hs[1].marker, "▲");
    assert_eq!(hs[1].href, "?q=x&sort=-title");
    assert_eq!(hs[0].href, "?q=x&sort=id");
    let hs = heads(&fields, &vec![0, 1], Name("id"), "-id", "");
    assert_eq!(hs.len(), 2);
    assert_eq!((hs[0].marker.as_str(), hs[0].href.as_str()), ("▼", "?sort=id"));
}

#[test]
fn list_items() {
    let fields = books();
    let rows = vec![vec![Value::integer(3), Value::str("Dune"), Value::integer(1)]];
    let got = items(&rows, &fields, &vec![1, 2, 3]);
    assert_eq!(got[0].id, "3");
    assert_eq!(got[0].cells, vec!["Dune", "1", ""]);
}

#[test]
fn filter_controls() {
    let fields = vec![Field::id(), Field::new("on", Type::Bool), Field::new("tags", Type::Many)];
    let got = filters(&fields, &pairs(&[("on", "1")]));
    assert_eq!(got.len(), 1);
    assert!(got[0].contains("<option value=\"1\" selected>Yes</option>"));
}

#[test]
fn held_params() {
    let got = held(&pairs(&[("z", "1"), ("q", "x"), ("a", "2"), ("page", "3"), ("m", "4"), ("sort", "id"), ("a", "1")]));
    assert_eq!(got, pairs(&[("a", "2"), ("a", "1"), ("m", "4"), ("z", "1")]));
}

#[test]
fn form_bodies_and_search_text() {
    let pairs = rango::encoding::form_pairs("q=Ann+B&page=2&q=Zed%21");
    assert_eq!(
        pairs,
        vec![
            ("q".to_string(), "Ann B".to_string()),
            ("page".to_string(), "2".to_string()),
            ("q".to_string(), "Zed!".to_string()),
        ]
    );
    assert_eq!(rango::list::search_text(&pairs), "zed!");
    assert_eq!(rango::list::search_text(&Vec::new()), "");
}

#[test]
fn submissions_write_only_when_clean() {
    let fields = vec![rango::spec::Field::id(), rango::spec::Field::new("age", rango::spec::Type::Int)];
    let good = create(&fields, &Vec::new(), &vec![("age".to_string(), "41".to_string())], &Vec::new());
    assert!(matches!(good.outcome(), Outcome::Write(values) if values == vec![rango::value::Value::integer(0), rango::value::Value::integer(41)]));
    let bad = create(&fields, &Vec::new(), &vec![("age".to_string(), "old".to_string())], &Vec::new());
    assert!(matches!(bad.outcome(), Outcome::Again { problems, .. } if problems.len() == 1));
}
