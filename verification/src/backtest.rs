pub mod broker;
pub mod event;

pub use broker::T0Broker;
pub use event::{ClockEvent, Event, FillEvent, MarketEvent, OrderEvent, PositionEvent, SystemEvent};
