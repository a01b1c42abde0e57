use billsplit::currency::Currency;
use billsplit::item::LineItem;

#[test]
fn item_test_new() {
    let item = LineItem::new();
    assert_eq!(item.name, "");
    assert_eq!(item.price.to_cents(), 0);
}

#[test]
fn item_test_from() {
    let item = LineItem::from(
        "test".to_string(),
        Currency::from_cents(100),
        Some("test".to_string()),
    );
    assert_eq!(item.name, "test");
    assert_eq!(item.price.to_cents(), 100);
    assert_eq!(item.orderer, Some("test".to_string()));
}
