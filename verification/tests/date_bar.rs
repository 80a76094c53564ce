use goose::data::{validate_ohlc, CalendarEntry, Date, DateBar, Ohlc, Price, PriceAdjust, Quantity};
use goose::error::ValidationError;

fn price(value: &str) -> Price {
    value.parse().unwrap()
}

fn quantity(value: &str) -> Quantity {
    value.parse().unwrap()
}

fn ohlc(open: &str, high: &str, low: &str, close: &str) -> Result<Ohlc, ValidationError> {
    Ohlc::new(
        PriceAdjust::Raw,
        Some(price(open)),
        Some(price(high)),
        Some(price(low)),
        Some(price(close)),
    )
}

#[test]
fn date_bar_new_accepts_valid_prices() {
    let ohlc = ohlc("10", "11", "9", "10.5").unwrap();
    let bar = DateBar::new(
        "AAPL",
        "2026-06-15".parse().unwrap(),
        ohlc,
        Some(quantity("1000")),
        Some(price("10500")),
    )
    .unwrap();

    assert_eq!(bar.symbol, "AAPL");
    assert_eq!(bar.ohlc.close.unwrap().to_string(), "10.5000");
    assert_eq!(bar.volume.unwrap().to_string(), "1000.0000");
    assert_eq!(bar.amount.unwrap().to_string(), "10500.0000");
}

#[test]
fn date_bar_new_rejects_empty_symbols() {
    let date = "2026-06-15".parse().unwrap();
    let ohlc = ohlc("10", "11", "9", "10.5").unwrap();

    assert!(DateBar::new("  ", date, ohlc, Some(quantity("1000")), Some(price("10500"))).is_err());
}

#[test]
fn ohlc_new_rejects_invalid_ohlc() {
    assert!(ohlc("10", "9", "11", "10").is_err());
    assert!(ohlc("12", "11", "9", "10").is_err());
}

#[test]
fn ohlc_violations_name_the_first_broken_rule() {
    let reason = |r: Result<(), ValidationError>| match r {
        Err(ValidationError::Ohlc { reason }) => reason,
        other => panic!("unexpected {other:?}"),
    };
    assert_eq!(
        reason(validate_ohlc(None, Some(price("9")), Some(price("10")), None)),
        "`low` must not be greater than `high`"
    );
    assert_eq!(
        reason(validate_ohlc(Some(price("8")), None, Some(price("9")), None)),
        "`open` must not be below `low`"
    );
    assert_eq!(
        reason(validate_ohlc(None, Some(price("9")), None, Some(price("10")))),
        "`close` must not be above `high`"
    );
    assert!(validate_ohlc(None, None, None, None).is_ok());
    assert!(validate_ohlc(Some(price("5")), None, None, Some(price("-5"))).is_ok());
}

#[test]
fn calendar_entries_hold_a_date_and_a_flag() {
    let entry = CalendarEntry {
        date: Date::from_ymd(2026, 6, 13).unwrap(),
        is_open: false,
    };
    assert_eq!(entry.date.to_string(), "2026-06-13");
    assert!(!entry.is_open);
}

#[test]
fn date_bar_refuses_blank_symbols() {
    let day: Date = "2026-06-12".parse().unwrap();
    let bars = ohlc("10", "11", "9", "10.5").unwrap();
    for blank in ["", "   ", "\t\n", "\u{3000}\u{a0}"] {
        assert!(matches!(
            DateBar::new(blank, day, bars, None, None),
            Err(ValidationError::EmptySymbol)
        ));
    }
    let bar = DateBar::new(" AAPL ", day, bars, None, None).unwrap();
    assert_eq!(bar.symbol, " AAPL ");
}

#[test]
fn date_bar_checks_prices_it_is_given() {
    let day: Date = "2026-06-12".parse().unwrap();
    let broken = Ohlc {
        open: Some(price("10")),
        high: Some(price("9")),
        low: Some(price("11")),
        close: Some(price("10")),
        price_adjust: PriceAdjust::Raw,
    };
    assert!(matches!(
        DateBar::new("AAPL", day, broken, None, None),
        Err(ValidationError::Ohlc { .. })
    ));
    assert!(matches!(
        DateBar::new(" ", day, broken, None, None),
        Err(ValidationError::EmptySymbol)
    ));
}
