use vstd::prelude::*;

use crate::data::date::Date;
use crate::data::decimal::{Price, Quantity};
use crate::error::ValidationError;
use crate::text::{is_blank, is_blank_text, str_eq};

verus! {

/// The basis on which the prices of a bar are adjusted.
#[derive(Debug, Clone, Copy, PartialEq, Eq, Structural, Hash)]
pub enum PriceAdjust {
    Raw,
    Qfq,
    Hfq,
}

/// The text of an adjustment basis as it is stored.
pub open spec fn price_adjust_text(a: PriceAdjust) -> Seq<char> {
    match a {
        PriceAdjust::Raw => "raw"@,
        PriceAdjust::Qfq => "qfq"@,
        PriceAdjust::Hfq => "hfq"@,
    }
}

/// The adjustment basis that a stored text names.
pub open spec fn parse_price_adjust(s: Seq<char>) -> Option<PriceAdjust> {
    if s == "raw"@ {
        Some(PriceAdjust::Raw)
    } else if s == "qfq"@ {
        Some(PriceAdjust::Qfq)
    } else if s == "hfq"@ {
        Some(PriceAdjust::Hfq)
    } else {
        None
    }
}

impl PriceAdjust {
    /// Parses the stored text of an adjustment basis.
    pub fn from_str(value: &str) -> (r: Result<Self, ValidationError>)
        ensures
            match parse_price_adjust(value@) {
                Some(a) => r == Ok::<PriceAdjust, ValidationError>(a),
                None => r matches Err(ValidationError::PriceAdjust { value: v }) && v@ == value@,
            },
    {
        if str_eq(value, "raw") {
            Ok(PriceAdjust::Raw)
        } else if str_eq(value, "qfq") {
            Ok(PriceAdjust::Qfq)
        } else if str_eq(value, "hfq") {
            Ok(PriceAdjust::Hfq)
        } else {
            Err(ValidationError::PriceAdjust { value: value.to_owned() })
        }
    }

    /// The stored text of the adjustment basis.
    pub fn to_string(&self) -> (r: String)
        ensures
            r@ == price_adjust_text(*self),
    {
        match self {
            PriceAdjust::Raw => String::from_str("raw"),
            PriceAdjust::Qfq => String::from_str("qfq"),
            PriceAdjust::Hfq => String::from_str("hfq"),
        }
    }
}

/// The stored text of an adjustment basis parses back to that basis.
pub proof fn lemma_price_adjust_text_round_trip(a: PriceAdjust)
    ensures
        parse_price_adjust(price_adjust_text(a)) == Some(a),
{
    reveal_strlit("raw");
    reveal_strlit("qfq");
    reveal_strlit("hfq");
    assert("qfq"@[0] != "raw"@[0]);
    assert("hfq"@[0] != "raw"@[0]);
    assert("hfq"@[0] != "qfq"@[0]);
}

impl core::str::FromStr for PriceAdjust {
    type Err = ValidationError;

    fn from_str(value: &str) -> (r: Result<Self, ValidationError>)
        ensures
            match parse_price_adjust(value@) {
                Some(a) => r == Ok::<PriceAdjust, ValidationError>(a),
                None => r matches Err(ValidationError::PriceAdjust { value: v }) && v@ == value@,
            },
    {
        PriceAdjust::from_str(value)
    }
}

/// Whether `a` is below `b`, where both prices are present.
pub open spec fn below(a: Option<Price>, b: Option<Price>) -> bool {
    a matches Some(x) && b matches Some(y) && x@ < y@
}

/// Why prices do not form a consistent bar, if they do not: `low` must not
/// exceed `high`, and `open` then `close` must lie within `[low, high]`, where
/// the prices concerned are present.
pub open spec fn ohlc_violation(
    open: Option<Price>,
    high: Option<Price>,
    low: Option<Price>,
    close: Option<Price>,
) -> Option<Seq<char>> {
    if below(high, low) {
        Some("`low` must not be greater than `high`"@)
    } else if below(open, low) {
        Some("`open` must not be below `low`"@)
    } else if below(high, open) {
        Some("`open` must not be above `high`"@)
    } else if below(close, low) {
        Some("`close` must not be below `low`"@)
    } else if below(high, close) {
        Some("`close` must not be above `high`"@)
    } else {
        None
    }
}

fn is_below(a: Option<Price>, b: Option<Price>) -> (r: bool)
    ensures
        r == below(a, b),
{
    match (a, b) {
        (Some(x), Some(y)) => x.units() < y.units(),
        _ => false,
    }
}

/// Checks that `low` does not exceed `high` and that `open` and `close` lie
/// within `[low, high]`, where the prices concerned are present.
pub fn validate_ohlc(
    open: Option<Price>,
    high: Option<Price>,
    low: Option<Price>,
    close: Option<Price>,
) -> (r: Result<(), ValidationError>)
    ensures
        match ohlc_violation(open, high, low, close) {
            None => r is Ok,
            Some(reason) => r matches Err(ValidationError::Ohlc { reason: t }) && t@ == reason,
        },
{
    if is_below(high, low) {
        return Err(
            ValidationError::Ohlc { reason: String::from_str("`low` must not be greater than `high`") },
        );
    }
    if is_below(open, low) {
        return Err(ValidationError::Ohlc { reason: String::from_str("`open` must not be below `low`") });
    }
    if is_below(high, open) {
        return Err(ValidationError::Ohlc { reason: String::from_str("`open` must not be above `high`") });
    }
    if is_below(close, low) {
        return Err(
            ValidationError::Ohlc { reason: String::from_str("`close` must not be below `low`") },
        );
    }
    if is_below(high, close) {
        return Err(
            ValidationError::Ohlc { reason: String::from_str("`close` must not be above `high`") },
        );
    }
    Ok(())
}

/// Open, high, low and close prices of a bar, any of which may be missing,
/// with the basis on which they are adjusted.
#[derive(Debug, Clone, Copy, PartialEq, Eq, Structural)]
pub struct Ohlc {
    pub open: Option<Price>,
    pub high: Option<Price>,
    pub low: Option<Price>,
    pub close: Option<Price>,
    pub price_adjust: PriceAdjust,
}

impl Ohlc {
    /// Creates the prices of a bar after checking that they are consistent.
    pub fn new(
        price_adjust: PriceAdjust,
        open: Option<Price>,
        high: Option<Price>,
        low: Option<Price>,
        close: Option<Price>,
    ) -> (r: Result<Self, ValidationError>)
        ensures
            match ohlc_violation(open, high, low, close) {
                None => r == Ok::<Ohlc, ValidationError>(
                    Ohlc { open, high, low, close, price_adjust },
                ),
                Some(reason) => r matches Err(ValidationError::Ohlc { reason: t }) && t@ == reason,
            },
    {
        match validate_ohlc(open, high, low, close) {
            Ok(()) => Ok(Ohlc { open, high, low, close, price_adjust }),
            Err(e) => Err(e),
        }
    }
}

/// A daily bar of one symbol.
#[derive(Debug, Clone, PartialEq, Eq)]
pub struct DateBar {
    pub date: Date,
    pub symbol: String,
    pub ohlc: Ohlc,
    pub volume: Option<Quantity>,
    pub amount: Option<Price>,
}

impl DateBar {
    /// Creates a bar of a symbol that is not blank, whose prices are
    /// consistent: the symbol is checked first.
    pub fn new(
        symbol: &str,
        date: Date,
        ohlc: Ohlc,
        volume: Option<Quantity>,
        amount: Option<Price>,
    ) -> (r: Result<Self, ValidationError>)
        ensures
            is_blank_text(symbol@) ==> r matches Err(ValidationError::EmptySymbol),
            !is_blank_text(symbol@) ==> (ohlc_violation(ohlc.open, ohlc.high, ohlc.low, ohlc.close)
                matches Some(reason) ==> (r matches Err(ValidationError::Ohlc { reason: t }) && t@
                == reason)),
            !is_blank_text(symbol@) && ohlc_violation(ohlc.open, ohlc.high, ohlc.low, ohlc.close)
                is None ==> (r matches Ok(b) && b.symbol@ == symbol@ && b.date
                == date && b.ohlc == ohlc && b.volume == volume && b.amount == amount),
    {
        if is_blank(symbol) {
            return Err(ValidationError::EmptySymbol);
        }
        match validate_ohlc(ohlc.open, ohlc.high, ohlc.low, ohlc.close) {
            Ok(()) => {},
            Err(e) => {
                return Err(e);
            },
        }
        Ok(DateBar { date, symbol: symbol.to_owned(), ohlc, volume, amount })
    }
}

/// Whether the market is open on a date.
#[derive(Debug, Clone, Copy, PartialEq, Eq, Structural)]
pub struct CalendarEntry {
    pub date: Date,
    pub is_open: bool,
}

} // verus!
