use vstd::prelude::*;

use crate::data::decimal::decimal_text;
use crate::data::{Date, Price};

verus! {

/// A value that does not satisfy the domain rules of the library.
#[derive(Debug, Clone)]
pub enum ValidationError {
    Price { reason: String },
    Quantity { reason: String },
    Date { value: String },
    PriceAdjust { value: String },
    EmptySymbol,
    Ohlc { reason: String },
}

/// A failure while fetching batches of records.
#[derive(Debug, Clone)]
pub enum FetchError {
    InvalidHeaders { expected: String, actual: String },
    InvalidRecord { row: u64, source: ValidationError },
    MissingField { row: u64, field: String },
    InvalidField { row: u64, field: String, value: String },
    EmptyBatch,
    Csv { message: String },
}

/// A lookup that found no stored data.
#[derive(Debug, Clone)]
pub enum LookupError {
    CalendarDate { date: Date },
    Bar { symbol: String, date: Date },
}

/// A failure while running a backtest.
#[derive(Debug, Clone)]
pub enum BacktestError {
    PositionOverflow { symbol: String },
    CashOverflow,
    InsufficientCash { required: Price, available: Price },
}

/// The error type of the library.
#[derive(Debug, Clone)]
pub enum Error {
    InvaildPath(String),
    FailConnectingDatabase(String),
    InvalidDate(String),
    InvalidData(String),
    MissingCalendarDate(String),
    MissingTradingDayAfter(String),
    MissingTradingDayBefore(String),
    InvalidDateInterval { start: String, end: String },
    Database(String),
    Validation(ValidationError),
    Fetch(FetchError),
    Lookup(LookupError),
    Backtest(BacktestError),
}


impl From<ValidationError> for Error {
    fn from(value: ValidationError) -> (r: Error) {
        Error::Validation(value)
    }
}

impl vstd::std_specs::convert::FromSpecImpl<ValidationError> for Error {
    open spec fn obeys_from_spec() -> bool {
        true
    }

    open spec fn from_spec(v: ValidationError) -> Error {
        Error::Validation(v)
    }
}

impl From<FetchError> for Error {
    fn from(value: FetchError) -> (r: Error) {
        Error::Fetch(value)
    }
}

impl vstd::std_specs::convert::FromSpecImpl<FetchError> for Error {
    open spec fn obeys_from_spec() -> bool {
        true
    }

    open spec fn from_spec(v: FetchError) -> Error {
        Error::Fetch(v)
    }
}

impl From<LookupError> for Error {
    fn from(value: LookupError) -> (r: Error) {
        Error::Lookup(value)
    }
}

impl vstd::std_specs::convert::FromSpecImpl<LookupError> for Error {
    open spec fn obeys_from_spec() -> bool {
        true
    }

    open spec fn from_spec(v: LookupError) -> Error {
        Error::Lookup(v)
    }
}

impl From<BacktestError> for Error {
    fn from(value: BacktestError) -> (r: Error) {
        Error::Backtest(value)
    }
}

impl vstd::std_specs::convert::FromSpecImpl<BacktestError> for Error {
    open spec fn obeys_from_spec() -> bool {
        true
    }

    open spec fn from_spec(v: BacktestError) -> Error {
        Error::Backtest(v)
    }
}

/// The text of a backtest error.
pub open spec fn backtest_error_text(e: BacktestError) -> Seq<char> {
    match e {
        BacktestError::PositionOverflow { symbol } => "position overflow for "@ + symbol@,
        BacktestError::CashOverflow => "cash overflow"@,
        BacktestError::InsufficientCash { required, available } => "insufficient cash: required "@
            + decimal_text((required@, 4nat)) + ", available "@ + decimal_text((available@, 4nat)),
    }
}

impl BacktestError {
    /// The text of the error, with the values it concerns.
    pub fn to_string(&self) -> (r: String)
        ensures
            r@ == backtest_error_text(*self),
    {
        match self {
            BacktestError::PositionOverflow { symbol } => {
                let mut r = "position overflow for ".to_owned();
                r.append(symbol.as_str());
                r
            },
            BacktestError::CashOverflow => "cash overflow".to_owned(),
            BacktestError::InsufficientCash { required, available } => {
                let mut r = "insufficient cash: required ".to_owned();
                r.append(required.to_string().as_str());
                r.append(", available ");
                r.append(available.to_string().as_str());
                r
            },
        }
    }
}

} // verus!
