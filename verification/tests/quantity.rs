use goose::data::{Decimal, Quantity};

#[test]
fn quantity_parses_and_has_canonical_scale() {
    let quantity: Quantity = "12.34".parse().unwrap();

    assert_eq!(quantity.to_string(), "12.3400");
    assert_eq!(Decimal::from(quantity), Decimal::new(123_400, 4));
}

#[test]
fn quantity_rejects_excess_precision_and_out_of_range_values() {
    assert!("12.34567".parse::<Quantity>().is_err());
    assert!("922337203685477.5808".parse::<Quantity>().is_err());
}

#[test]
fn quantity_reports_its_sign() {
    let negative: Quantity = "-0.0001".parse().unwrap();
    let zero: Quantity = "0.0000".parse().unwrap();
    let positive: Quantity = "0.0001".parse().unwrap();

    assert!(negative.is_negative());
    assert!(!negative.is_positive());
    assert!(!zero.is_negative());
    assert!(!zero.is_positive());
    assert!(positive.is_positive());
    assert!(!positive.is_negative());
}

#[test]
fn quantity_arithmetic_preserves_valid_values() {
    let mut quantity: Quantity = "10.0000".parse().unwrap();
    let adjustment: Quantity = "2.5000".parse().unwrap();

    quantity = quantity.checked_add(adjustment).unwrap();
    assert_eq!(quantity.to_string(), "12.5000");

    quantity = quantity.checked_sub("0.5000".parse().unwrap()).unwrap();
    assert_eq!(quantity.to_string(), "12.0000");

    assert_eq!(
        quantity.checked_mul(Decimal::new(15, 1)).unwrap().to_string(),
        "18.0000"
    );
    assert_eq!(
        quantity.checked_div(Decimal::new(2, 0)).unwrap().to_string(),
        "6.0000"
    );
}

#[test]
fn quantity_checked_operations_report_invalid_results() {
    let max: Quantity = "922337203685477.5807".parse().unwrap();
    let smallest: Quantity = "0.0001".parse().unwrap();
    let one: Quantity = "1.0000".parse().unwrap();

    assert!(max.checked_add(smallest).is_none());
    assert!(one.checked_div(Decimal::new(3, 0)).is_none());
    assert!(one.checked_div(Decimal::zero()).is_none());
}

#[test]
fn dividing_quantities_returns_a_ratio() {
    let numerator: Quantity = "12.0000".parse().unwrap();
    let denominator: Quantity = "8.0000".parse().unwrap();

    assert_eq!(
        numerator.checked_ratio(denominator).unwrap(),
        Decimal::new(15, 1)
    );
}

#[test]
fn quantity_adding_then_subtracting_gives_back_the_quantity() {
    let a: Quantity = "7.25".parse().unwrap();
    let b: Quantity = "100".parse().unwrap();
    let sum = a.checked_add(b).unwrap();
    assert_eq!(sum.to_string(), "107.2500");
    assert_eq!(sum.checked_sub(b).unwrap(), a);
    assert!(Quantity::from_units(i64::MIN)
        .checked_sub(Quantity::from_units(1))
        .is_none());
}
