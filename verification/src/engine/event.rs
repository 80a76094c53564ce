use vstd::prelude::*;

use crate::data::{Date, DateBar, Price, Quantity};
use crate::engine::symbols::SymbolMap;

verus! {

/// What happens during a backtest.
#[derive(Debug, Clone)]
pub enum Event {
    Market(MarketEvent),
    Order(Order),
    Fill(FillEvent),
    System(SystemEvent),
}

/// A cross-section of the market.
#[derive(Debug, Clone)]
pub enum MarketEvent {
    /// Only the open price is seen when the market opens.
    Open(SymbolMap<(Date, Option<Price>)>),
    /// The full bar is seen when the market closes.
    Close(SymbolMap<DateBar>),
    /// All bars of the day, shown to the broker beforehand.
    Preview(SymbolMap<DateBar>),
}

/// Whether a day is a trading day.
#[derive(Debug, Clone)]
pub enum TimeEvent {
    TradingDay(Date),
    NonTradingDay(Date),
}

/// Orders by symbol: a limit price and a signed quantity.
#[derive(Debug, Clone)]
pub struct Order {
    pub order: SymbolMap<(Price, Quantity)>,
}

/// Fills by symbol: fill price, quantity and commission.
#[derive(Debug, Clone)]
pub enum FillEvent {
    Succeed(SymbolMap<(Price, Quantity, Price)>),
    Reject,
}

/// The start and the end of a backtest.
#[derive(Debug, Clone, Copy, PartialEq, Eq, Structural)]
pub enum SystemEvent {
    Init,
    End,
}

} // verus!
