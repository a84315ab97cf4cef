use rango::actions::{act, finish, wiped, Deed, Step};
use rango::auth::{Current, User};
use rango::history::{lines, recent, History};
use rango::model::Model;
use rango::pages::{
    back, count_query, edit_inputs, entry, inline_columns, inline_heads, inline_href, inline_items, inline_query,
    new_inputs, referring, shown_pairs, take_notice,
};
use rango::repository::{all_query, filter_query, get_query, ordered_query, update_parts, whole};
use rango::spec::{Field, Filter, Name, Only, Op, Order, Schema, Sort, Table, Tree, Type};
use rango::value::{Key, Row, StoreError, Value};
use rango::widgets::Action;

fn pairs(raw: &[(&str, &str)]) -> Vec<(String, String)> {
    raw.iter().map(|(k, v)| (k.to_string(), v.to_string())).collect()
}

#[test]
fn backs() {
    assert_eq!(back("/admin/posts/new/", 1), "/admin/posts/");
    assert_eq!(back("/admin/posts/3/delete", 2), "/admin/posts/");
    assert_eq!(back("/", 1), "//");
    assert_eq!(back("/a", 0), "/a/");
    assert_eq!(back("//a//b//", 1), "/a//");
    assert_eq!(back("/a/b", 5), "//");
}

#[test]
fn dashboard_entries() {
    let e = entry("/admin/", Table("posts"), Some(12));
    assert_eq!((e.href.as_str(), e.title.as_str(), e.count.as_str()), ("/admin/posts/", "posts", "12"));
    let e = entry("/admin", Table("tags"), None);
    assert_eq!((e.href.as_str(), e.count.as_str()), ("/admin/tags/", "0"));
    let q = count_query();
    assert_eq!(q.tree, Tree::And(Vec::new()));
    assert_eq!(q.only, Only::All);
}

#[test]
fn notices_taken() {
    let (n, rest) = take_notice(&pairs(&[("q", "x"), ("notice", "Done"), ("saved", "1")]));
    assert_eq!(n, "Done");
    assert_eq!(rest, pairs(&[("q", "x"), ("saved", "1")]));
    let (n, rest) = take_notice(&pairs(&[("saved", "1"), ("deleted", "1")]));
    assert_eq!(n, "Saved.");
    assert_eq!(rest, pairs(&[("deleted", "1")]));
    let (n, rest) = take_notice(&pairs(&[("deleted", "1")]));
    assert_eq!((n.as_str(), rest.len()), ("Deleted.", 0));
    let (n, rest) = take_notice(&pairs(&[("q", "y")]));
    assert_eq!((n.as_str(), rest), ("", pairs(&[("q", "y")])));
}

fn posts() -> Schema {
    Schema { table: Table("posts"), fields: vec![Field::id(), Field::new("title", Type::Str)], rules: Vec::new() }
}

fn comments() -> Schema {
    Schema {
        table: Table("comments"),
        fields: vec![
            Field::id(),
            Field::new("post", Type::Int).references("posts"),
            Field::new("body", Type::Str),
            Field::new("tags", Type::Many),
            Field::new("reply", Type::Int).references("posts.id"),
        ],
        rules: Vec::new(),
    }
}

#[test]
fn inlines() {
    let all = vec![posts(), comments()];
    assert_eq!(referring(&all, Table("posts")), vec![(1, 1), (1, 4)]);
    assert_eq!(referring(&all, Table("comments")), Vec::new());
    let q = inline_query(&all[1], Name("post"), Value::integer(3));
    assert_eq!(q.tree, Tree::Leaf(Filter { field: Name("post"), op: Op::Eq, value: Value::integer(3) }));
    assert_eq!((q.sort[0].field, q.sort[0].order), (Name("id"), Order::Asc));
    let at = inline_columns(&all[1].fields);
    assert_eq!(at, vec![1, 2, 4]);
    assert_eq!(inline_heads(&all[1], &at), vec!["id", "post", "body", "reply"]);
    let rows = vec![Row { values: vec![Value::integer(9), Value::integer(3), Value::str("hi"), Value::Null] }];
    let items = inline_items(&rows, &all[1].fields, &at);
    assert_eq!(items.len(), 1);
    assert_eq!(items[0].id, "9");
    assert_eq!(items[0].cells, vec!["3", "hi", ""]);
    assert_eq!(inline_href(Table("comments"), Name("post"), "3"), "../../comments/?post=3");
}

#[test]
fn detail_pairs() {
    let fields = posts().fields;
    let shown = shown_pairs(&fields, &vec![Value::integer(1)]);
    assert_eq!(shown, pairs(&[("id", "1"), ("title", "")]));
}

#[test]
fn form_inputs() {
    let fields = vec![
        Field::id(),
        Field::new("title", Type::Str),
        Field::new("owner", Type::Str).default(Value::str("me")),
        Field::key("code"),
    ];
    let fixed = vec![Name("owner")];
    let new = new_inputs(&fields, &fixed);
    assert_eq!(new.len(), 3);
    assert_eq!(new[1], "<label>owner</label><p>me</p>");
    let edit = edit_inputs(&fields, &fixed, &vec![Value::str("A"), Value::str("you"), Value::str("k1")]);
    assert_eq!(edit.len(), 3);
    assert_eq!(edit[1], "<label>owner</label><p>you</p>");
    assert_eq!(edit[2], "<label>code</label><p>k1</p>");
    assert!(edit[0].contains("value=\"A\""));
}

#[test]
fn bulk_actions() {
    let deeds = vec![Deed::wipe()];
    let schema = posts();
    match act("action=wipe&ids=3&ids=5&back=%3Fq%3Dx", &deeds, &schema, "/admin/posts/act") {
        Step::Run { deed, keys } => {
            assert_eq!(deed, 0);
            assert_eq!(keys, vec![Key::Int(3), Key::Int(5)]);
        },
        Step::Go(_) => panic!("expected a run"),
    }
    match act("action=nope&ids=3", &deeds, &schema, "/admin/posts/act") {
        Step::Go(to) => assert_eq!(to, "/admin/posts/?notice=Unknown+action."),
        _ => panic!("expected a redirect"),
    }
    match act("action=wipe&back=%3Fq%3Dx", &deeds, &schema, "/admin/posts/act") {
        Step::Go(to) => assert_eq!(to, "/admin/posts/?q=x&notice=No+rows+selected."),
        _ => panic!("expected a redirect"),
    }
    assert_eq!(finish("back=page%3D2", "/admin/posts/act", "Deleted 2 rows."), "/admin/posts/?page=2&notice=Deleted+2+rows.");
    assert_eq!(wiped(1), "Deleted 1 row.");
    assert_eq!(wiped(3), "Deleted 3 rows.");
    assert_eq!(Deed::wipe().title, "Delete");
}

#[test]
fn history_entries() {
    let nobody = Current(None);
    let e = History::entry(Table("posts"), &Value::integer(7), Action::Delete, &nobody, 100);
    assert_eq!((e.model.as_str(), e.row.as_str(), e.action, e.user.as_str(), e.at), ("posts", "7", Action::Delete, "", 100));
    let who = Current(Some(User { id: 1, username: "ann".into(), password: String::new(), created: 0, superuser: true }));
    assert_eq!(History::entry(Table("posts"), &Value::str("k"), Action::Edit, &who, 5).user, "ann");
    let row = Row { values: e.row() };
    let mut full = vec![Value::integer(4)];
    full.extend(row.values);
    let back = History::from_row(&Row { values: full }).unwrap();
    assert_eq!((back.id, back.action, back.at), (4, Action::Delete, 100));
    let bad = Row {
        values: vec![Value::integer(4), Value::str("posts"), Value::str("7"), Value::str("junk"), Value::str(""), Value::integer(1)],
    };
    assert!(matches!(History::from_row(&bad), Err(StoreError::Value(m)) if m == "bad action junk"));
    let far = Row {
        values: vec![Value::integer(4), Value::str("posts"), Value::str("7"), Value::str("edit"), Value::str(""), Value::integer(i64::MAX)],
    };
    assert!(matches!(History::from_row(&far), Err(StoreError::Value(m)) if m == "bad datetime"));
}

#[test]
fn recent_history() {
    let nobody = Current(None);
    let mk = |row: i64, action: Action, at: i64| History::entry(Table("posts"), &Value::integer(row), action, &nobody, at);
    let events = vec![
        mk(7, Action::Create, 10),
        mk(8, Action::Create, 20),
        mk(7, Action::Edit, 30),
        mk(7, Action::Delete, 30),
        History::entry(Table("tags"), &Value::integer(7), Action::Edit, &nobody, 40),
    ];
    let got = recent(&events, "posts", "7");
    let seen: Vec<(Action, i64)> = got.iter().map(|e| (e.action, e.at)).collect();
    assert_eq!(seen, vec![(Action::Edit, 30), (Action::Delete, 30), (Action::Create, 10)]);
    let shown = lines(&got);
    assert_eq!(shown[0].at, "1970-01-01 00:00");
    assert_eq!(shown[2].action, "create");
}

#[test]
fn repository_reads() {
    let schema = posts();
    let q = get_query(&schema, Value::integer(3));
    assert_eq!(q.tree, Tree::Leaf(Filter { field: Name("id"), op: Op::Eq, value: Value::integer(3) }));
    assert_eq!(q.only, Only::Lone);
    let q = all_query(&schema);
    assert_eq!(q.tree, Tree::And(Vec::new()));
    assert_eq!(q.sort, vec![Sort { field: Name("id"), order: Order::Asc }]);
    let q = filter_query(&schema, Name("title"), Value::str("x"));
    assert_eq!(q.tree, Tree::Leaf(Filter { field: Name("title"), op: Op::Eq, value: Value::str("x") }));
    let q = ordered_query(Sort { field: Name("title"), order: Order::Desc });
    assert_eq!(q.sort, vec![Sort { field: Name("title"), order: Order::Desc }]);
    assert!(whole(&q).is_ok());
    let mut p = all_query(&schema);
    p.only = Only::These(vec![Name("id")]);
    assert!(matches!(whole(&p), Err(StoreError::Unsupported(m)) if m == "projected rows need rows()"));
    let (k, parts) = update_parts(&Value::integer(3), &schema.fields, &vec![Value::str("t")]).unwrap();
    assert_eq!(k, Key::Int(3));
    assert_eq!(parts, vec![(Name("title"), Value::str("t"))]);
    assert!(matches!(update_parts(&Value::Null, &schema.fields, &Vec::new()), Err(StoreError::Value(m)) if m == "bad key"));
}
