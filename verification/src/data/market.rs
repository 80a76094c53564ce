use vstd::prelude::*;

use crate::data::{Date, DateBar};
use crate::engine::symbols::SymbolMap;
use crate::error::Error;

verus! {

/// A result with its list of dates taken as a sequence.
pub open spec fn dates_result(r: Result<Vec<Date>, Error>) -> Result<Seq<Date>, Error> {
    match r {
        Ok(v) => Ok(v@),
        Err(e) => Err(e),
    }
}

/// A store of trading calendars and daily bars that a backtest reads.
///
/// What a store may answer to each question is its own description, which
/// reading leaves as it is; a store that describes nothing may answer
/// anything.
pub trait MarketData {
    /// Whether `answer` is an answer of the store for the trading days from
    /// `start` to `end`.
    open spec fn spec_days_answer(&self, start: Date, end: Date, answer: Result<Seq<Date>, Error>) -> bool {
        true
    }

    /// Whether `answer` is an answer of the store for the cross-section of
    /// `date`.
    open spec fn spec_section_answer(&self, date: Date, answer: Result<SymbolMap<DateBar>, Error>) -> bool {
        true
    }

    /// The open trading dates from `start` to `end`, both included, in
    /// increasing order.
    fn get_trading_days(&mut self, start: &Date, end: &Date) -> (r: Result<Vec<Date>, Error>)
        ensures
            old(self).spec_days_answer(*start, *end, dates_result(r)),
            forall|a: Date, b: Date, x: Result<Seq<Date>, Error>|
                #[trigger] final(self).spec_days_answer(a, b, x) == old(self).spec_days_answer(a, b, x),
            forall|d: Date, x: Result<SymbolMap<DateBar>, Error>|
                #[trigger] final(self).spec_section_answer(d, x) == old(self).spec_section_answer(d, x),
    ;

    /// The bars of a date, by symbol.
    fn get_cross_section(&mut self, date: &Date) -> (r: Result<SymbolMap<DateBar>, Error>)
        ensures
            old(self).spec_section_answer(*date, r),
            forall|a: Date, b: Date, x: Result<Seq<Date>, Error>|
                #[trigger] final(self).spec_days_answer(a, b, x) == old(self).spec_days_answer(a, b, x),
            forall|d: Date, x: Result<SymbolMap<DateBar>, Error>|
                #[trigger] final(self).spec_section_answer(d, x) == old(self).spec_section_answer(d, x),
    ;
}

} // verus!
