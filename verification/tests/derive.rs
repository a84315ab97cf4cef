use rango::derive::{action_names, derive_fields, table_name, Member};
use rango::spec::{Link, Name, Table, Type};
use rango::value::Value;

fn member(name: &'static str, kind: Type) -> Member {
    Member { name, kind, optional: false, list: false, key: false, references: None, via: None, default: None }
}

#[test]
fn table_names() {
    assert_eq!(table_name("Message", None), "messages");
    assert_eq!(table_name("Message", Some("notes")), "notes");
}

#[test]
fn actions_listed() {
    assert_eq!(action_names(" duplicate, ,archive "), vec!["duplicate".to_string(), "archive".to_string()]);
    assert!(action_names("").is_empty());
}

#[test]
fn derived_fields() {
    let members = vec![
        Member { key: true, ..member("id", Type::Int) },
        Member { optional: true, ..member("title", Type::Str) },
        Member { references: Some("authors"), default: Some(Value::integer(1)), ..member("author", Type::Int) },
        Member { list: true, via: Some("post_tags.post.tag"), ..member("tags", Type::Int) },
    ];
    let fields = derive_fields(&members).unwrap();
    assert_eq!(fields[0].kind, Type::Id);
    assert_eq!(fields[1].kind, Type::Str.optional());
    assert_eq!(fields[2].link, Some(Link::To(Table("authors"), Name("id"))));
    assert_eq!(fields[2].default, Some(Value::integer(1)));
    assert_eq!(fields[3].kind, Type::Many);
    assert_eq!(fields[3].link, Some(Link::Via(Table("post_tags"), Name("post"), Name("tag"))));
    let code = vec![Member { key: true, references: Some("codes.value"), ..member("code", Type::Str) }];
    let fields = derive_fields(&code).unwrap();
    assert_eq!(fields[0].kind, Type::Key);
    assert_eq!(fields[0].link, Some(Link::To(Table("codes"), Name("value"))));
}

#[test]
fn refused_fields() {
    let bad = vec![Member { list: true, optional: true, ..member("tags", Type::Int) }];
    assert_eq!(derive_fields(&bad).unwrap_err(), "optional lists need plain Vec");
    let bad = vec![Member { list: true, key: true, ..member("tags", Type::Int) }];
    assert_eq!(derive_fields(&bad).unwrap_err(), "key needs a single value");
    let bad = vec![member("ok", Type::Int), Member { via: Some("a.b"), ..member("x", Type::Int) }];
    assert_eq!(derive_fields(&bad).unwrap_err(), "expected `#[via(\"through.mine.theirs\")]`");
    let bad = vec![Member { via: Some("a.b.c.d"), ..member("x", Type::Int) }];
    assert!(derive_fields(&bad).is_err());
}
