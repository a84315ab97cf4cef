use rango::cells::{Cells, Gather, Slots};
use rango::value::{StoreError, Value};

#[test]
fn row_written_reads_back() {
    let mut slots = Slots::new();
    slots.integer(7);
    slots.nothing();
    slots.str("ann");
    let values = slots.values();
    assert_eq!(values, vec![Value::Int(7), Value::Null, Value::Str("ann".into())]);
    let mut cells = Cells::new(&values);
    assert_eq!(cells.integer().unwrap(), 7);
    assert!(cells.nothing());
    assert_eq!(cells.str().unwrap(), "ann");
    assert!(cells.nothing());
}

#[test]
fn readers_convert_and_refuse() {
    let values = vec![Value::Bool(true), Value::DateTime(0), Value::Decimal("1.50".into()), Value::Str("x".into())];
    let mut cells = Cells::new(&values);
    assert_eq!(cells.integer().unwrap(), 1);
    assert_eq!(cells.str().unwrap(), "1970-01-01T00:00:00+00:00");
    assert!(!cells.nothing());
    assert_eq!(cells.str().unwrap(), "1.50");
    assert!(matches!(cells.integer(), Err(StoreError::Value(m)) if m == "cell 3 not int"));
    assert_eq!(cells.str().unwrap(), "x");
    assert!(matches!(cells.str(), Err(StoreError::Value(m)) if m == "cell 4 not str"));
}

#[test]
fn gather_keeps_last() {
    let mut g = Gather::new();
    assert_eq!(Gather::new().value(), Value::Null);
    g.integer(3);
    g.str("s");
    assert_eq!(g.value(), Value::Str("s".into()));
    let mut h = Gather::new();
    h.integer(4);
    h.nothing();
    assert_eq!(h.value(), Value::Null);
}
