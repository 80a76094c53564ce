use goose::data::{Decimal, Price, Quantity};

fn price(value: &str) -> Price {
    value.parse().unwrap()
}

#[test]
fn price_parses_and_has_canonical_scale() {
    let price: Price = "12.34".parse().unwrap();

    assert_eq!(price.to_string(), "12.3400");
    assert_eq!(Decimal::from(price), Decimal::new(123_400, 4));
}

#[test]
fn price_rejects_excess_precision_and_out_of_range_values() {
    assert!("12.34567".parse::<Price>().is_err());
    assert!("922337203685477.5808".parse::<Price>().is_err());
}

#[test]
fn price_arithmetic_preserves_valid_prices() {
    let mut price: Price = "10.0000".parse().unwrap();
    let adjustment: Price = "2.5000".parse().unwrap();

    price = price.checked_add(adjustment).unwrap();
    assert_eq!(price.to_string(), "12.5000");

    price = price.checked_sub("0.5000".parse().unwrap()).unwrap();
    assert_eq!(price.to_string(), "12.0000");

    assert_eq!(
        price.checked_mul(Decimal::new(15, 1)).unwrap().to_string(),
        "18.0000"
    );
    assert_eq!(
        price.checked_div(Decimal::new(2, 0)).unwrap().to_string(),
        "6.0000"
    );
}

#[test]
fn price_checked_operations_report_invalid_results() {
    let max: Price = "922337203685477.5807".parse().unwrap();
    let smallest: Price = "0.0001".parse().unwrap();
    let one: Price = "1.0000".parse().unwrap();

    assert!(max.checked_add(smallest).is_none());
    assert!(one.checked_div(Decimal::new(3, 0)).is_none());
    assert!(one.checked_div(Decimal::zero()).is_none());
}

#[test]
fn dividing_prices_returns_a_ratio() {
    let numerator: Price = "12.0000".parse().unwrap();
    let denominator: Price = "8.0000".parse().unwrap();

    assert_eq!(
        numerator.checked_ratio(denominator).unwrap(),
        Decimal::new(15, 1)
    );
}

#[test]
fn price_and_quantity_arithmetic_returns_price_values() {
    let price: Price = "12.5000".parse().unwrap();
    let quantity: Quantity = "3.0000".parse().unwrap();
    let total: Price = "37.5000".parse().unwrap();

    assert_eq!(price.checked_mul_quantity(quantity).unwrap(), total);
    assert_eq!(quantity.checked_mul_price(price).unwrap(), total);
    assert_eq!(total.checked_div_quantity(quantity).unwrap(), price);
}

#[test]
fn checked_price_quantity_operations_report_invalid_results() {
    let max: Price = "922337203685477.5807".parse().unwrap();
    let two: Quantity = "2.0000".parse().unwrap();
    let one: Price = "1.0000".parse().unwrap();
    let zero: Quantity = "0.0000".parse().unwrap();

    assert!(max.checked_mul_quantity(two).is_none());
    assert!(two.checked_mul_price(max).is_none());
    assert!(one.checked_div_quantity(zero).is_none());
}

#[test]
fn price_adding_then_subtracting_gives_back_the_price() {
    let a = price("123.4567");
    let b = price("-0.0042");
    let sum = a.checked_add(b).unwrap();
    assert_eq!(sum, price("123.4525"));
    assert_eq!(sum.checked_sub(b).unwrap(), a);
}

#[test]
fn price_is_stored_as_ten_thousandths() {
    assert_eq!(price("1.5").as_stored_integer(), Some(15_000));
    assert_eq!(price("-0.0001").units(), -1);
    assert_eq!(Price::from_units(25_000).to_string(), "2.5000");
    assert_eq!(Price::default(), price("0"));
}

#[test]
fn price_rejects_texts_that_are_not_numbers() {
    assert!("abc".parse::<Price>().is_err());
    assert!("".parse::<Price>().is_err());
}

#[test]
fn price_products_with_too_many_decimals_are_not_prices() {
    let p = price("0.0001");
    let q: Quantity = "0.5".parse().unwrap();
    assert!(p.checked_mul_quantity(q).is_none());
    assert_eq!(
        price("2.0000").checked_mul_quantity(q).unwrap(),
        price("1.0000")
    );
}

#[test]
fn price_and_quantity_survive_text_and_parse() {
    for units in [0i64, 1, -1, 105000, -123456789, i64::MAX, i64::MIN] {
        let p = Price::from_units(units);
        assert_eq!(p.to_string().parse::<Price>().unwrap(), p);
        let q = Quantity::from_units(units);
        assert_eq!(q.to_string().parse::<Quantity>().unwrap(), q);
    }
}

#[test]
fn plain_texts_are_read_exactly_at_four_places() {
    assert_eq!(price("12.34").units(), 123400);
    assert_eq!(price("-0.5").units(), -5000);
    assert_eq!(price("7").units(), 70000);
    assert_eq!(price("0.0001").units(), 1);
    assert_eq!("3.25".parse::<Quantity>().unwrap().units(), 32500);
}

#[test]
fn products_beyond_the_decimal_range_are_not_prices() {
    let big = Price::from_units(i64::MAX);
    let many = Quantity::from_units(i64::MAX);
    assert!(big.checked_mul_quantity(many).is_none());
    assert!(many.checked_mul_price(big).is_none());
    let small = Price::from_units(i64::MIN);
    assert!(small.checked_mul_quantity(many).is_none());
    assert_eq!(
        price("12.5000").checked_mul_quantity("3.0000".parse().unwrap()),
        "3.0000".parse::<Quantity>().unwrap().checked_mul_price(price("12.5000"))
    );
}
