use billsplit::currency::Currency;

#[test]
fn currency_test_new() {
    let currency = Currency::new();
    assert_eq!(currency.dollars, 0);
    assert_eq!(currency.cents, 0);
}

#[test]
fn currency_test_from() {
    let currency = Currency::from(1, 50);
    assert_eq!(currency.dollars, 1);
    assert_eq!(currency.cents, 50);
}

#[test]
fn test_to_cents() {
    let currency = Currency::from(1, 50);
    assert_eq!(currency.to_cents(), 150);
}

#[test]
fn test_from_cents() {
    let currency = Currency::from_cents(150);
    assert_eq!(currency.dollars, 1);
    assert_eq!(currency.cents, 50);
}

#[test]
fn test_from_normalizes_overflowing_cents() {
    let currency = Currency::from(1, 150);
    assert_eq!(currency.dollars, 2);
    assert_eq!(currency.cents, 50);
    assert_eq!(currency.to_cents(), 250);
}

#[test]
fn test_round_trip_through_cents() {
    let samples = [(0u16, 0u16), (0, 1), (0, 99), (1, 0), (12, 34), (655, 35), (65535, 99)];
    for (dollars, cents) in samples {
        let c = Currency::from(dollars, cents);
        assert_eq!(Currency::from_cents(c.to_cents()), c);
    }
}

#[test]
fn test_largest_representable_amount() {
    let c = Currency::from(65535, 99);
    assert_eq!(c.to_cents(), 6553599);
    let back = Currency::from_cents(6553599);
    assert_eq!(back.dollars, 65535);
    assert_eq!(back.cents, 99);
}
