use vstd::prelude::*;

use crate::data::{Date, DateBar, Decimal};

verus! {

/// An identifier of an event, from `uuid`.
#[verifier::external_type_specification]
#[verifier::external_body]
pub struct ExUuid(uuid::Uuid);

/// What happens during a backtest driven by a clock.
#[derive(Debug)]
pub enum Event {
    Market(MarketEvent),
    Clock(ClockEvent),
    Position(PositionEvent),
    Order(OrderEvent),
    Fill(FillEvent),
    System(SystemEvent),
}

/// A bar of the market.
#[derive(Debug)]
pub enum MarketEvent {
    Bar { id: uuid::Uuid, ts: Date, bar: DateBar },
}

/// The market opens or closes on a day.
#[derive(Debug, Clone, Copy, PartialEq, Eq, Structural)]
pub enum ClockEvent {
    Open(Date),
    Close(Date),
}

/// The weight that a position should have.
#[derive(Debug, Clone, Copy)]
pub struct PositionEvent {
    id: uuid::Uuid,
    weight: Decimal,
}

/// An order to sell or to buy an amount at a price.
#[derive(Debug, Clone, Copy)]
pub enum OrderEvent {
    Sell { id: uuid::Uuid, ts: Date, amount: Decimal, price: Decimal },
    Buy { id: uuid::Uuid, ts: Date, amount: Decimal, price: Decimal },
}

/// How an order was filled, or that it was cancelled.
#[derive(Debug, Clone, Copy)]
pub enum FillEvent {
    Sell { order: OrderEvent, ts: Date, amount: Decimal, price: Decimal, commision: Decimal },
    Buy { order: OrderEvent, ts: Date, amount: Decimal, price: Decimal, commision: Decimal },
    Cancel { order: OrderEvent, ts: Date },
}

/// The start of a backtest.
#[derive(Debug, Clone, Copy, PartialEq, Eq, Structural)]
pub enum SystemEvent {
    BacktestInit,
}

} // verus!
