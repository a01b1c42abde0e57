use billsplit::bill::Bill;
use billsplit::currency::Currency;
use billsplit::error::BillError;
use billsplit::item::LineItem;

#[test]
fn bill_test_new() {
    let bill = Bill::new("test".to_string());
    assert_eq!(bill.name(), "test");
    assert_eq!(bill.items_len(), 0);
    assert_eq!(bill.total(), None);
}

#[test]
fn bill_test_from() {
    let bill = Bill::from("test".to_string(), Currency::from_cents(120));
    assert_eq!(bill.name(), "test");
    assert_eq!(bill.items_len(), 0);
    assert_eq!(bill.total(), Some(Currency::from_cents(120)));
}

#[test]
fn test_add_item() {
    let mut bill = Bill::new("test".to_string());
    let item = LineItem::from("test".to_string(), Currency::from_cents(100), None);
    let id = bill.add_item(item.clone());
    assert_eq!(bill.get_item(id).unwrap(), &item);
}

#[test]
fn test_delete_item() {
    let mut bill = Bill::new("test".to_string());
    let item = LineItem::from("test".to_string(), Currency::from_cents(100), None);
    let id = bill.add_item(item.clone());
    assert_eq!(bill.delete_item(id), Ok(id));
    let err = bill.delete_item(id).unwrap_err();
    assert_eq!(err, BillError::ItemNotFound);
    assert_eq!(err.message(), "Item not found".to_string());
}

#[test]
fn test_update_item() {
    let mut bill = Bill::new("test".to_string());
    let item = LineItem::from("test".to_string(), Currency::from_cents(100), None);
    let id = bill.add_item(item.clone());
    let item = LineItem::from("test2".to_string(), Currency::from_cents(200), None);
    assert_eq!(bill.update_item(id, item.clone()), Ok(id));
    assert_eq!(bill.get_item(id).unwrap(), &item);
    let err = bill.update_item(100, item.clone()).unwrap_err();
    assert_eq!(err, BillError::ItemNotFound);
    assert_eq!(err.message(), "Item not found".to_string());
}

#[test]
fn test_calculate_subtotal() {
    let mut bill = Bill::new("test".to_string());
    let item = LineItem::from("test".to_string(), Currency::from_cents(100), None);
    bill.add_item(item.clone());
    let item = LineItem::from("test2".to_string(), Currency::from_cents(200), None);
    bill.add_item(item.clone());
    assert_eq!(bill.calculate_subtotal(), Currency::from_cents(300));
}

#[test]
fn test_get_bill_for() {
    let mut bill = Bill::new("test".to_string());
    let item = LineItem::from(
        "test".to_string(),
        Currency::from_cents(100),
        Some("test".to_string()),
    );
    bill.add_item(item.clone());
    let item = LineItem::from(
        "test2".to_string(),
        Currency::from_cents(200),
        Some("test2".to_string()),
    );
    bill.add_item(item.clone());

    let bill1 = bill.get_bill_for("test");
    assert_eq!(bill1.total(), None);
    assert_eq!(bill1.items_len(), 1);
    assert_eq!(bill1.calculate_subtotal(), Currency::from_cents(100));

    let bill2 = bill.get_bill_for("test2");
    assert_eq!(bill2.total(), None);
    assert_eq!(bill2.items_len(), 1);
    assert_eq!(bill2.calculate_subtotal(), Currency::from_cents(200));
}

#[test]
fn test_get_bill_for_with_total() {
    let mut bill = Bill::from("test".to_string(), Currency::from_cents(330));
    let item = LineItem::from(
        "test".to_string(),
        Currency::from_cents(100),
        Some("test".to_string()),
    );
    bill.add_item(item.clone());
    let item = LineItem::from(
        "test2".to_string(),
        Currency::from_cents(200),
        Some("test2".to_string()),
    );
    bill.add_item(item.clone());

    let bill1 = bill.get_bill_for("test");
    assert_eq!(bill1.total(), Some(Currency::from_cents(110)));
    assert_eq!(bill1.items_len(), 1);
    assert_eq!(bill1.calculate_subtotal(), Currency::from_cents(100));

    let bill2 = bill.get_bill_for("test2");
    assert_eq!(bill2.total(), Some(Currency::from_cents(220)));
    assert_eq!(bill2.items_len(), 1);
    assert_eq!(bill2.calculate_subtotal(), Currency::from_cents(200));
}

#[test]
fn test_item_ids_are_consecutive_and_never_reused() {
    let mut bill = Bill::new("test".to_string());
    let mut ids = Vec::new();
    for k in 0..5u16 {
        let item = LineItem::from(format!("item{}", k), Currency::from_cents(10), None);
        ids.push(bill.add_item(item));
    }
    assert_eq!(ids, vec![0, 1, 2, 3, 4]);
    assert_eq!(bill.delete_item(2), Ok(2));
    assert_eq!(bill.delete_item(4), Ok(4));
    let item = LineItem::from("late".to_string(), Currency::from_cents(10), None);
    let next = bill.add_item(item);
    assert_eq!(next, 5);
    assert_eq!(bill.counter(), 6);
}

#[test]
fn test_subtotal_ignores_insertion_and_deletion_order() {
    let prices = [5u64, 250, 40, 1, 900];
    let mut forward = Bill::new("test".to_string());
    for (k, p) in prices.iter().enumerate() {
        forward.add_item(LineItem::from(format!("i{}", k), Currency::from_cents(*p), None));
    }
    let mut backward = Bill::new("test".to_string());
    for (k, p) in prices.iter().enumerate().rev() {
        backward.add_item(LineItem::from(format!("i{}", k), Currency::from_cents(*p), None));
    }
    assert_eq!(forward.calculate_subtotal(), backward.calculate_subtotal());
    assert_eq!(forward.calculate_subtotal(), Currency::from_cents(1196));

    forward.delete_item(1).unwrap();
    backward.delete_item(3).unwrap();
    assert_eq!(forward.calculate_subtotal(), Currency::from_cents(946));
    assert_eq!(backward.calculate_subtotal(), Currency::from_cents(946));
}

#[test]
fn test_subtotal_of_empty_bill_is_zero() {
    let bill = Bill::new("test".to_string());
    assert_eq!(bill.calculate_subtotal(), Currency::new());
}

#[test]
fn test_get_bill_for_on_empty_bill() {
    let bill = Bill::new("test".to_string());
    let derived = bill.get_bill_for("anyone");
    assert_eq!(derived.name(), "test");
    assert_eq!(derived.items_len(), 0);
    assert_eq!(derived.total(), None);
}

#[test]
fn test_get_bill_for_unmatched_participant_with_total() {
    let mut bill = Bill::from("test".to_string(), Currency::from_cents(500));
    bill.add_item(LineItem::from(
        "test".to_string(),
        Currency::from_cents(100),
        Some("test".to_string()),
    ));
    let derived = bill.get_bill_for("nobody");
    assert_eq!(derived.items_len(), 0);
    assert_eq!(derived.total(), Some(Currency::new()));
}

#[test]
fn test_get_bill_for_with_zero_subtotal() {
    let mut bill = Bill::from("test".to_string(), Currency::from_cents(100));
    bill.add_item(LineItem::from(
        "free".to_string(),
        Currency::new(),
        Some("a".to_string()),
    ));
    let derived = bill.get_bill_for("a");
    assert_eq!(derived.items_len(), 1);
    assert_eq!(derived.total(), Some(Currency::new()));
}

#[test]
fn test_get_bill_for_excludes_items_without_orderer() {
    let mut bill = Bill::from("test".to_string(), Currency::from_cents(300));
    bill.add_item(LineItem::from(
        "mine".to_string(),
        Currency::from_cents(100),
        Some("a".to_string()),
    ));
    bill.add_item(LineItem::from("shared".to_string(), Currency::from_cents(200), None));
    let derived = bill.get_bill_for("a");
    assert_eq!(derived.items_len(), 1);
    // one third of the blended total, the shared item counting toward
    // the whole subtotal only
    assert_eq!(derived.total(), Some(Currency::from_cents(100)));
}

#[test]
fn test_two_party_totals_conserve_the_bill_total() {
    let cases = [(330u64, 100u64, 200u64), (101, 50, 50), (999, 1, 998), (7, 3, 3)];
    for (total, a, b) in cases {
        let mut bill = Bill::from("test".to_string(), Currency::from_cents(total));
        bill.add_item(LineItem::from(
            "ia".to_string(),
            Currency::from_cents(a),
            Some("a".to_string()),
        ));
        bill.add_item(LineItem::from(
            "ib".to_string(),
            Currency::from_cents(b),
            Some("b".to_string()),
        ));
        let ta = bill.get_bill_for("a").total().unwrap().to_cents() as i64;
        let tb = bill.get_bill_for("b").total().unwrap().to_cents() as i64;
        let diff = ta + tb - total as i64;
        assert!(diff.abs() <= 1, "case {:?} drifted by {}", (total, a, b), diff);
    }
}

#[test]
fn test_try_from_parts_accepts_well_formed_parts() {
    let items = vec![
        (0u16, LineItem::from("x".to_string(), Currency::from_cents(100), None)),
        (3u16, LineItem::from("y".to_string(), Currency::from_cents(50), None)),
    ];
    let bill = Bill::try_from_parts(
        "test".to_string(),
        Some(Currency::from_cents(150)),
        items,
        4,
    )
    .unwrap();
    assert_eq!(bill.name(), "test");
    assert_eq!(bill.items_len(), 2);
    assert_eq!(bill.counter(), 4);
    assert_eq!(bill.calculate_subtotal(), Currency::from_cents(150));
}

#[test]
fn test_parts_round_trip() {
    let mut bill = Bill::from("test".to_string(), Currency::from_cents(500));
    bill.add_item(LineItem::from(
        "a".to_string(),
        Currency::from_cents(100),
        Some("x".to_string()),
    ));
    bill.add_item(LineItem::from("b".to_string(), Currency::from_cents(200), None));
    bill.delete_item(0).unwrap();
    let rebuilt = Bill::try_from_parts(
        bill.name().to_string(),
        bill.total(),
        bill.items().clone(),
        bill.counter(),
    )
    .unwrap();
    assert_eq!(rebuilt, bill);
}

#[test]
fn test_try_from_parts_rejects_duplicate_or_oversized_ids() {
    let dup = vec![
        (1u16, LineItem::from("x".to_string(), Currency::from_cents(100), None)),
        (1u16, LineItem::from("y".to_string(), Currency::from_cents(50), None)),
    ];
    assert!(Bill::try_from_parts("test".to_string(), None, dup, 4).is_none());
    let beyond = vec![
        (9u16, LineItem::from("x".to_string(), Currency::from_cents(100), None)),
    ];
    assert!(Bill::try_from_parts("test".to_string(), None, beyond, 4).is_none());
}
