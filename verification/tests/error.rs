use goose::{
    data::Price,
    error::{BacktestError, Error, FetchError, LookupError, ValidationError},
};

#[test]
fn backtest_errors_convert_to_the_crate_error() {
    let error: Error = BacktestError::PositionOverflow {
        symbol: "AAPL".into(),
    }
    .into();

    assert!(matches!(
        error,
        Error::Backtest(BacktestError::PositionOverflow { symbol }) if symbol == "AAPL"
    ));
}

#[test]
fn backtest_errors_include_relevant_values() {
    let error = BacktestError::InsufficientCash {
        required: "100.0000".parse::<Price>().unwrap(),
        available: "80.0000".parse::<Price>().unwrap(),
    };

    assert_eq!(
        error.to_string(),
        "insufficient cash: required 100.0000, available 80.0000"
    );
}

#[test]
fn other_errors_convert_to_the_crate_error() {
    let e: Error = ValidationError::EmptySymbol.into();
    assert!(matches!(e, Error::Validation(ValidationError::EmptySymbol)));
    let e: Error = FetchError::EmptyBatch.into();
    assert!(matches!(e, Error::Fetch(FetchError::EmptyBatch)));
    let e: Error = LookupError::CalendarDate {
        date: "2026-06-12".parse().unwrap(),
    }
    .into();
    assert!(matches!(e, Error::Lookup(LookupError::CalendarDate { .. })));
}

#[test]
fn backtest_error_texts() {
    assert_eq!(BacktestError::CashOverflow.to_string(), "cash overflow");
    assert_eq!(
        BacktestError::PositionOverflow {
            symbol: "MSFT".into()
        }
        .to_string(),
        "position overflow for MSFT"
    );
}
