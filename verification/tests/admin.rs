use rango::admin::{align, id_of, locate, tree, text, with_id};
use rango::listing::{encode, head, here, href, notice, page_links, paging};
use rango::model::Model;
use rango::spec::{Field, Filter, Name, Op, Pick, Table, Tree, Type};
use rango::value::{Row, StoreError, Value};
use rango::widgets::{control, escape, filter_input, input, shown, value, Action};

fn fields() -> Vec<Field> {
    vec![Field::id(), Field::new("name", Type::Str), Field::new("age", Type::Int)]
}

fn pairs(raw: &[(&str, &str)]) -> Vec<(String, String)> {
    raw.iter().map(|(k, v)| (k.to_string(), v.to_string())).collect()
}

#[test]
fn search() {
    let fields = fields();
    let params = Vec::new();
    assert_eq!(
        tree(&fields, &params, "ann", &vec![1], &Vec::new(), &Vec::new()),
        Tree::And(vec![Tree::Or(vec![Tree::Leaf(Filter {
            field: fields[1].name,
            op: Op::Like,
            value: Value::str("%ann%"),
        })])])
    );
    assert_eq!(tree(&fields, &params, "", &vec![1], &Vec::new(), &Vec::new()), Tree::And(Vec::new()));
}

#[test]
fn filter() {
    let fields = fields();
    let mut params = pairs(&[("name", "an")]);
    assert_eq!(
        tree(&fields, &params, "", &vec![1], &Vec::new(), &Vec::new()),
        Tree::And(vec![Tree::Leaf(Filter { field: fields[1].name, op: Op::Like, value: Value::str("%an%") })])
    );
    params.push(("age".into(), "30".into()));
    assert_eq!(
        tree(&fields, &params, "", &vec![1], &Vec::new(), &Vec::new()),
        Tree::And(vec![
            Tree::Leaf(Filter { field: fields[1].name, op: Op::Like, value: Value::str("%an%") }),
            Tree::Leaf(Filter { field: fields[2].name, op: Op::Eq, value: Value::integer(30) }),
        ])
    );
    params[1].1 = "bad".into();
    assert_eq!(tree(&fields, &params, "", &vec![1], &Vec::new(), &Vec::new()), Tree::Or(Vec::new()));
}

#[test]
fn related_search() {
    let fields = fields();
    let related = vec![(2usize, vec!["4".to_string(), "9".to_string()]), (1usize, Vec::new())];
    assert_eq!(
        tree(&fields, &Vec::new(), "x", &vec![1], &related, &Vec::new()),
        Tree::And(vec![Tree::Or(vec![
            Tree::Leaf(Filter { field: fields[1].name, op: Op::Like, value: Value::str("%x%") }),
            Tree::Or(vec![
                Tree::Leaf(Filter { field: fields[2].name, op: Op::Eq, value: Value::str("4") }),
                Tree::Leaf(Filter { field: fields[2].name, op: Op::Eq, value: Value::str("9") }),
            ]),
        ])])
    );
}

#[test]
fn links() {
    let params = pairs(&[("q", "x"), ("page", "2")]);
    assert_eq!(encode(&params, &vec!["page"]), "q=x");
    assert_eq!(href("", "page=2"), "?page=2");
    assert_eq!(href("q=x", "page=2"), "?q=x&page=2");
}

#[test]
fn query_order() {
    let params = pairs(&[("z", "1"), ("a", "b c"), ("m", "&")]);
    assert_eq!(encode(&params, &vec![]), "a=b+c&m=%26&z=1");
    assert_eq!(here(&params), "?a=b+c&m=%26&z=1");
    assert_eq!(here(&Vec::new()), "");
}

#[test]
fn texts() {
    assert_eq!(text(None), "");
    assert_eq!(text(Some(&Value::Null)), "");
    assert_eq!(text(Some(&Value::str("hi"))), "hi");
    assert_eq!(text(Some(&Value::integer(7))), "7");
    assert_eq!(text(Some(&Value::bool(true))), "true");
    assert_eq!(text(Some(&Value::Float(1.5f64.to_bits(), 1.5f64.to_string()))), "1.5");
    assert_eq!(text(Some(&Value::decimal("1.2"))), "1.2");
    let at = chrono::NaiveDate::from_ymd_opt(2026, 9, 9).unwrap().and_hms_opt(12, 30, 0).unwrap().and_utc().timestamp();
    assert_eq!(text(Some(&Value::datetime(at))), "2026-09-09 12:30");
}

#[test]
fn ids() {
    let fields = vec![Field::id(), Field::new("title", Type::Str)];
    let values = vec![Value::integer(7), Value::str("hi")];
    assert_eq!(id_of(&values, &fields), "7");
    let keyed = vec![Field::key("sku"), Field::new("name", Type::Str)];
    let products = vec![Value::str("a1"), Value::str("widget")];
    assert_eq!(id_of(&products, &keyed), "a1");
}

fn all() -> Vec<Field> {
    vec![Field::id(), Field::new("title", Type::Str), Field::new("tags", Type::Many), Field::new("extra", Type::Str)]
}

#[test]
fn locates() {
    let all = all();
    assert_eq!(locate(&vec![Name("title"), Name("tags")], &all), vec![1]);
    assert_eq!(locate(&vec![Name("title"), Name("title")], &all), vec![1]);
    assert_eq!(locate(&vec![Name("nope")], &all), Vec::<usize>::new());
}

struct Thread {
    id: i64,
    title: String,
}

impl Model for Thread {
    fn table() -> Table {
        Table("threads")
    }

    fn fields() -> Vec<Field> {
        vec![Field::id(), Field::new("title", Type::Str), Field::new("tags", Type::Many)]
    }

    fn row(&self) -> Vec<Value> {
        vec![Value::str(&self.title)]
    }

    fn from_row(row: &Row) -> Result<Self, StoreError> {
        Ok(Self { id: row.integer(0)?, title: row.str(1)? })
    }

    fn set_id(&mut self, id: Value) {
        if let Value::Int(id) = id {
            self.id = id;
        }
    }

    fn id(&self) -> Value {
        Value::integer(self.id)
    }
}

#[test]
fn with_ids() {
    let thread = Thread { id: 7, title: "hi".into() };
    let out = with_id(&thread, &all());
    assert_eq!(out, vec![Value::integer(7), Value::str("hi"), Value::Null, Value::Null]);
}

#[test]
fn aligns() {
    let all = all();
    let out = align(&vec![Value::integer(7), Value::str("hi"), Value::integer(3)], &all);
    assert_eq!(out, vec![Value::integer(7), Value::str("hi"), Value::Null, Value::integer(3)]);
    let sparse = align(&vec![Value::integer(7)], &all);
    assert_eq!(sparse, vec![Value::integer(7), Value::Null, Value::Null, Value::Null]);
}

#[test]
fn actions() {
    assert_eq!(Action::Create.name(), "create");
    assert_eq!(Action::Edit.name(), "edit");
    assert_eq!(Action::Delete.name(), "delete");
    assert_eq!(Action::parse("create").unwrap(), Action::Create);
    assert_eq!(Action::parse("edit").unwrap(), Action::Edit);
    assert_eq!(Action::parse("delete").unwrap(), Action::Delete);
    assert!(matches!(
        Action::parse("junk"),
        Err(StoreError::Value(ref message)) if message == "bad action junk"
    ));
}

#[test]
fn controls() {
    let name = Field::new("name", Type::Str);
    assert_eq!(escape("<a href=\"x\">&</a>"), "&lt;a href=&quot;x&quot;&gt;&amp;&lt;/a&gt;");
    assert_eq!(
        control(&name, "a<b", false),
        "<label for=\"admin-name\">name</label><input id=\"admin-name\" name=\"name\" type=\"text\" value=\"a&lt;b\">"
    );
    let flag = Field::new("on", Type::Bool);
    assert_eq!(
        control(&flag, "", true),
        "<label for=\"admin-on\">on</label><input id=\"admin-on\" name=\"on\" type=\"checkbox\" checked>"
    );
    assert_eq!(
        filter_input(&flag, "1"),
        "<label for=\"filter-on\">on</label><select id=\"filter-on\" name=\"on\"><option value=\"\">Any</option><option value=\"1\" selected>Yes</option><option value=\"0\">No</option></select>"
    );
    assert_eq!(control(&Field::id(), "7", false), "");
}

#[test]
fn values() {
    let age = Field::new("age", Type::Int);
    assert_eq!(value(&age, Some(&"30".to_string()), None).unwrap(), Value::integer(30));
    assert!(matches!(value(&age, Some(&"x".to_string()), None), Err(rango::error::Error::BadRequest(m)) if m == "age must be an integer"));
    assert!(matches!(value(&age, None, None), Err(rango::error::Error::BadRequest(m)) if m == "age is required"));
    let opt = Field::new("note", Type::Str.optional());
    assert_eq!(value(&opt, None, None).unwrap(), Value::Null);
    let flag = Field::new("on", Type::Bool);
    assert_eq!(value(&flag, None, None).unwrap(), Value::bool(false));
    assert_eq!(value(&flag, Some(&"on".to_string()), None).unwrap(), Value::bool(true));
}

#[test]
fn dates() {
    let when = Field::new("at", Type::Moment);
    let at = chrono::NaiveDate::from_ymd_opt(2026, 9, 9).unwrap().and_hms_opt(12, 30, 0).unwrap().and_utc().timestamp();
    assert_eq!(value(&when, Some(&"2026-09-09T12:30".to_string()), None).unwrap(), Value::datetime(at));
    assert!(value(&when, Some(&"not-a-date".to_string()), None).is_err());
    assert!(value(&when, None, None).is_err());
}

#[test]
fn choices() {
    const COLORS: &[(&str, &str)] = &[("red", "Red"), ("blue", "Blue")];
    let field = Field::new("color", Type::Str).pick(Pick { options: COLORS });
    let html = input(&field, Some(&Value::str("blue")));
    assert!(html.contains(r#"<select"#));
    assert!(html.contains(r#"value="red""#));
    assert!(html.contains(r#"value="blue" selected"#));
    assert!(html.contains("Red"));
    assert_eq!(value(&field, Some(&"red".to_string()), None).unwrap(), Value::str("red"));
    assert!(value(&field, Some(&"purple".to_string()), None).is_err());
    assert!(matches!(value(&field, Some(&"purple".to_string()), None), Err(rango::error::Error::BadRequest(m)) if m == "color is not a valid choice"));
    assert_eq!(shown(&field, Some(&Value::str("red"))), "Red");
    assert_eq!(shown(&field, Some(&Value::str("green"))), "green");
    let filter = filter_input(&field, "red");
    assert!(filter.contains(r#"value="red" selected"#));
    assert_eq!(
        control(&field, "", false),
        "<label for=\"admin-color\">color</label><select id=\"admin-color\" name=\"color\"><option value=\"\">---------</option><option value=\"red\">Red</option><option value=\"blue\">Blue</option></select>"
    );
}

#[test]
fn list_paging() {
    let p = paging(60, Some("9"));
    assert_eq!((p.page, p.pages, p.offset, p.lo, p.hi), (3, 3, 50, 51, 60));
    let q = paging(0, Some("x"));
    assert_eq!((q.page, q.pages, q.offset, q.lo, q.hi), (1, 0, 0, 0, 0));
    let r = paging(30, Some("+2"));
    assert_eq!((r.page, r.lo, r.hi), (2, 26, 30));
    let (first, prev, next, last) = page_links("q=x", 2, 3);
    assert_eq!(first, Some("?q=x&page=1".to_string()));
    assert_eq!(prev, Some("?q=x&page=1".to_string()));
    assert_eq!(next, Some("?q=x&page=3".to_string()));
    assert_eq!(last, Some("?q=x&page=3".to_string()));
    assert_eq!(page_links("", 1, 1), (None, None, None, None));
}

#[test]
fn list_notices_and_heads() {
    assert_eq!(notice(&pairs(&[("saved", "1")])), "Saved.");
    assert_eq!(notice(&pairs(&[("deleted", ""), ("notice", "Hi")])), "Hi");
    assert_eq!(notice(&pairs(&[])), "");
    let h = head("title", "title", "q=x");
    assert_eq!((h.marker.as_str(), h.href.as_str()), ("▲", "?q=x&sort=-title"));
    let h = head("title", "-title", "");
    assert_eq!((h.marker.as_str(), h.href.as_str()), ("▼", "?sort=title"));
    let h = head("title", "age", "");
    assert_eq!((h.marker.as_str(), h.href.as_str(), h.name.as_str()), ("", "?sort=title", "title"));
}

#[test]
fn edit_form() {
    let fields = vec![
        Field::id(),
        Field::new("name", Type::Str),
        Field::new("age", Type::Int),
        Field::new("owner", Type::Str),
    ];
    let fixed = vec![Name("owner")];
    let have = vec![Value::str("ann"), Value::integer(30), Value::str("root")];
    let form = pairs(&[("name", "bob"), ("age", "old")]);
    let sub = rango::widgets::edit(&fields, &fixed, Value::integer(7), &have, &form, &Vec::new());
    assert_eq!(
        sub.values,
        vec![Value::integer(7), Value::str("bob"), Value::integer(30), Value::str("root")]
    );
    assert_eq!(sub.problems, vec!["age must be an integer".to_string()]);
    assert_eq!(sub.inputs.len(), 3);
    assert_eq!(sub.inputs[2], "<label>owner</label><p>root</p>");
}

#[test]
fn create_form() {
    let fields = vec![
        Field::id(),
        Field::new("name", Type::Str),
        Field::new("age", Type::Int),
        Field::new("role", Type::Str).default(Value::str("staff")),
    ];
    let fixed = vec![Name("role")];
    let form = pairs(&[("age", "41")]);
    let sub = rango::widgets::create(&fields, &fixed, &form, &Vec::new());
    assert_eq!(sub.values, vec![Value::integer(0), Value::Null, Value::integer(41), Value::str("staff")]);
    assert_eq!(sub.problems, vec!["name is required".to_string()]);
    assert_eq!(sub.inputs[2], "<label>role</label><p>staff</p>");
}

#[test]
fn last_page_holds_last_row() {
    let p = paging(51, Some("3"));
    assert_eq!((p.page, p.pages, p.offset, p.lo, p.hi), (3, 3, 50, 51, 51));
    let q = paging(50, Some("2"));
    assert_eq!((q.page, q.pages, q.lo, q.hi), (2, 2, 26, 50));
}

#[test]
fn later_parameter_wins() {
    let params = vec![("notice".to_string(), "first".to_string()), ("notice".to_string(), "second".to_string())];
    assert_eq!(notice(&params), "second");
}
