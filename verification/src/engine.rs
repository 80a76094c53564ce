pub mod broker;
#[allow(clippy::module_inception)]
pub mod engine;
pub mod event;
pub mod logger;
pub mod symbols;

pub use broker::{Broker, OpenPriceBroker};
pub use engine::{Account, BTEngine};
pub use event::{Event, FillEvent, MarketEvent, Order, SystemEvent, TimeEvent};
pub use logger::{EquityLogger, EquityPoint, Logger};
pub use symbols::SymbolMap;
