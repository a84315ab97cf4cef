use rango::deal::{Deal, Finish};
use rango::value::StoreError;

fn settled(r: &Result<(), StoreError>) -> bool {
    matches!(r, Err(StoreError::Value(m)) if m == "settled deal")
}

#[test]
fn commit_then_closed() {
    let mut deal = Deal::begin();
    assert!(deal.open());
    assert!(deal.check().is_ok());
    assert!(matches!(deal.settle(true), Ok(Finish::Commit)));
    assert!(!deal.open());
    assert!(settled(&deal.check()));
    assert!(matches!(deal.settle(false), Err(StoreError::Value(m)) if m == "settled deal"));
    assert!(!deal.open());
}

#[test]
fn rollback_when_asked() {
    let mut deal = Deal::begin();
    assert!(matches!(deal.settle(false), Ok(Finish::Rollback)));
    assert!(matches!(deal.settle(true), Err(StoreError::Value(_))));
}

#[test]
fn nested_deal_refused() {
    let deal = Deal::begin();
    assert!(matches!(deal.nest(), StoreError::Unsupported(m) if m == "nested deal"));
}
